//! Bounded repair journals and single-target PATH transformations.
//!
//! A repair removes one directory (the per-user Store alias directory) from a PATH
//! value; the journal records the value before and after, so that the target can be
//! put back without touching anything else.
use crate::commands::{utf16_len, utf16_units_exceed};
use crate::error::{Error, ErrorKind, Result};
use crate::text::{
    chars_of, has_char, join_texts, lemma_join_split, lemma_split_join, lemma_split_on_shape, lower,
    lower_chars, lower_seq, push_joined, split_chars, split_on, string_of,
};
use vstd::prelude::*;

verus! {

/// Maximum journal size in bytes.
pub const JOURNAL_LIMIT: usize = 262_144;

/// Registry value type of a PATH value.
#[derive(Clone, Copy, Debug, PartialEq, Eq, Structural)]
pub enum ValueKind {
    /// `REG_SZ`.
    String,
    /// `REG_EXPAND_SZ`.
    ExpandString,
}

/// A PATH value with its registry type.
#[derive(Clone, Debug, PartialEq, Eq)]
pub struct PathValue {
    /// Registry value type.
    pub kind: ValueKind,
    /// Semicolon-separated entries.
    pub text: String,
}

/// Progress of a repair.
#[derive(Clone, Copy, Debug, PartialEq, Eq, Structural)]
pub enum Phase {
    /// Recorded before the change was published.
    Pending,
    /// The change was published.
    Applied,
    /// The target was put back.
    Restored,
}

/// A single-target repair of one user's PATH.
#[derive(Clone, Debug, PartialEq, Eq)]
pub struct Journal {
    /// Journal format; only 1 is supported.
    pub schema_version: u32,
    /// Security identifier of the user whose PATH was repaired.
    pub owner_sid: String,
    /// The removed directory.
    pub target: String,
    /// Program directory of the installation that made the repair.
    pub install_dir: String,
    /// Shim directory of the installation that made the repair.
    pub shims_dir: String,
    /// The value before the repair.
    pub before: PathValue,
    /// The value the repair published.
    pub after: PathValue,
    /// Progress.
    pub phase: Phase,
}

// ---------------------------------------------------------------------------
// Entries
// ---------------------------------------------------------------------------

/// The entries of a PATH text: none for empty text, otherwise the pieces between
/// semicolons (empty pieces included).
pub open spec fn path_entries(t: Seq<char>) -> Seq<Seq<char>> {
    if t.len() == 0 {
        Seq::empty()
    } else {
        split_on(t, ';')
    }
}

/// An entry without one pair of surrounding double quotes.
pub open spec fn unquote(e: Seq<char>) -> Seq<char> {
    if e.len() >= 2 && e[0] == '"' && e.last() == '"' {
        e.subrange(1, e.len() - 1)
    } else {
        e
    }
}

/// A text without its trailing backslashes.
pub open spec fn trim_backslashes(t: Seq<char>) -> Seq<char>
    decreases t.len(),
{
    if t.len() > 0 && t.last() == '\\' {
        trim_backslashes(t.drop_last())
    } else {
        t
    }
}

/// Whether a PATH entry names the target directory: quotes and trailing
/// backslashes aside, equal up to ASCII case. Variables are not expanded.
pub open spec fn same_entry(entry: Seq<char>, target: Seq<char>) -> bool {
    lower_seq(trim_backslashes(unquote(entry))) == lower_seq(trim_backslashes(target))
}

/// The entries that do not name the target, in order.
pub open spec fn others(es: Seq<Seq<char>>, target: Seq<char>) -> Seq<Seq<char>>
    decreases es.len(),
{
    if es.len() == 0 {
        Seq::empty()
    } else {
        let r = others(es.drop_last(), target);
        if same_entry(es.last(), target) {
            r
        } else {
            r.push(es.last())
        }
    }
}

pub open spec fn semicolon() -> Seq<char> {
    seq![';']
}

/// Registry PATH data limits: under 32766 UTF-16 units and no NUL.
pub open spec fn text_valid(t: Seq<char>) -> bool {
    utf16_len(t) < 32766 && !has_char(t, '\0')
}

pub open spec fn value_valid(v: PathValue) -> bool {
    text_valid(v.text@)
}

pub open spec fn value_contains(v: PathValue, target: Seq<char>) -> bool {
    exists|i: int| 0 <= i < path_entries(v.text@).len() && same_entry(#[trigger] path_entries(v.text@)[i], target)
}

/// The text of a value with every entry naming the target removed.
pub open spec fn without_text(v: PathValue, target: Seq<char>) -> Seq<char> {
    join_texts(others(path_entries(v.text@), target), semicolon())
}

/// Splits PATH text into entries.
pub fn entries(text: &[char]) -> (r: Vec<Vec<char>>)
    ensures
        r@.map_values(|v: Vec<char>| v@) == path_entries(text@),
{
    if text.len() == 0 {
        let r: Vec<Vec<char>> = Vec::new();
        assert(r@.map_values(|v: Vec<char>| v@) =~= Seq::<Seq<char>>::empty());
        r
    } else {
        split_chars(text, ';')
    }
}

fn trim_backslashes_chars(t: &[char]) -> (r: Vec<char>)
    ensures
        r@ == trim_backslashes(t@),
{
    let mut end = t.len();
    assert(t@.take(t@.len() as int) =~= t@);
    while end > 0 && t[end - 1] == '\\'
        invariant
            end <= t@.len(),
            trim_backslashes(t@) == trim_backslashes(t@.take(end as int)),
        decreases end,
    {
        assert(t@.take(end as int).drop_last() =~= t@.take(end - 1));
        end = end - 1;
    }
    let r = crate::text::slice_chars(t, 0, end);
    assert(r@ =~= t@.take(end as int));
    r
}

/// Whether a PATH entry names the target directory.
pub fn same_entry_chars(entry: &[char], target: &[char]) -> (r: bool)
    ensures
        r == same_entry(entry@, target@),
{
    let n = entry.len();
    let inner = if n >= 2 && entry[0] == '"' && entry[n - 1] == '"' {
        crate::text::slice_chars(entry, 1, n - 1)
    } else {
        crate::text::slice_chars(entry, 0, n)
    };
    assert(inner@ =~= unquote(entry@));
    let a = lower_chars(&trim_backslashes_chars(&inner));
    let b = lower_chars(&trim_backslashes_chars(target));
    crate::text::chars_eq(&a, &b)
}

/// Whether a PATH entry names the target directory.
pub fn same_entry_text(entry: &str, target: &str) -> (r: bool)
    ensures
        r == same_entry(entry@, target@),
{
    let a = chars_of(entry);
    let b = chars_of(target);
    same_entry_chars(&a, &b)
}

/// Index of the only entry equal to the anchor, if exactly one is.
pub open spec fn unique_position(es: Seq<Seq<char>>, anchor: Seq<char>) -> Option<int> {
    if exists|i: int| 0 <= i < es.len() && es[i] == anchor && (forall|j: int| 0 <= j < es.len() && es[j] == anchor ==> j == i) {
        Some(choose|i: int| 0 <= i < es.len() && es[i] == anchor && (forall|j: int| 0 <= j < es.len() && es[j] == anchor ==> j == i))
    } else {
        None
    }
}

fn unique_position_exec(es: &Vec<Vec<char>>, anchor: &Vec<char>) -> (r: Option<usize>)
    ensures
        match r {
            Some(i) => unique_position(es@.map_values(|v: Vec<char>| v@), anchor@) == Some(i as int),
            None => unique_position(es@.map_values(|v: Vec<char>| v@), anchor@) is None,
        },
{
    let ghost s = es@.map_values(|v: Vec<char>| v@);
    let mut found: Option<usize> = None;
    let mut i: usize = 0;
    while i < es.len()
        invariant
            i <= es@.len(),
            s == es@.map_values(|v: Vec<char>| v@),
            match found {
                None => forall|j: int| 0 <= j < i ==> s[j] != anchor@,
                Some(f) => f < i && s[f as int] == anchor@ && forall|j: int| 0 <= j < i && s[j] == anchor@ ==> j == f,
            },
        decreases es.len() - i,
    {
        if crate::text::chars_eq(&es[i], anchor) {
            if found.is_some() {
                proof {
                    let f = found->0;
                    assert(s[f as int] == anchor@ && s[i as int] == anchor@);
                }
                return None;
            }
            found = Some(i);
        }
        i = i + 1;
    }
    proof {
        if let Some(f) = found {
            let w = choose|w: int| 0 <= w < s.len() && s[w] == anchor@ && (forall|j: int| 0 <= j < s.len() && s[j] == anchor@ ==> j == w);
            assert(w == f);
        }
    }
    found
}

impl PathValue {
    /// Registry PATH data limits: under 32766 UTF-16 units and no NUL.
    pub fn validate(&self) -> (r: Result<()>)
        ensures
            r is Ok <==> value_valid(*self),
            r matches Err(e) ==> e.spec_kind() == ErrorKind::Usage,
    {
        let cs = chars_of(self.text.as_str());
        if utf16_units_exceed(&cs, 32765) || crate::text::contains_char(&cs, '\0') {
            return Err(
                Error::new(ErrorKind::Usage, "Store PATH repair encountered invalid or oversized PATH data"),
            );
        }
        Ok(())
    }

    /// Whether an entry names the target.
    pub fn contains(&self, target: &str) -> (r: bool)
        ensures
            r == value_contains(*self, target@),
    {
        let es = entries(&chars_of(self.text.as_str()));
        let t = chars_of(target);
        let ghost s = es@.map_values(|v: Vec<char>| v@);
        let mut i: usize = 0;
        while i < es.len()
            invariant
                i <= es@.len(),
                t@ == target@,
                s == es@.map_values(|v: Vec<char>| v@),
                s == path_entries(self.text@),
                forall|j: int| 0 <= j < i ==> !same_entry(#[trigger] s[j], target@),
            decreases es.len() - i,
        {
            if same_entry_chars(&es[i], &t) {
                assert(same_entry(s[i as int], target@));
                return true;
            }
            i = i + 1;
        }
        false
    }

    /// The value with every entry naming the target removed; the type is kept.
    pub fn without(&self, target: &str) -> (r: Self)
        ensures
            r.kind == self.kind,
            r.text@ == without_text(*self, target@),
    {
        let es = entries(&chars_of(self.text.as_str()));
        let t = chars_of(target);
        let ghost s = es@.map_values(|v: Vec<char>| v@);
        let mut kept: Vec<Vec<char>> = Vec::new();
        let mut i: usize = 0;
        while i < es.len()
            invariant
                i <= es@.len(),
                t@ == target@,
                s == es@.map_values(|v: Vec<char>| v@),
                kept@.map_values(|v: Vec<char>| v@) == others(s.take(i as int), target@),
            decreases es.len() - i,
        {
            let ghost before = kept@.map_values(|v: Vec<char>| v@);
            if !same_entry_chars(&es[i], &t) {
                kept.push(es[i].clone());
            }
            proof {
                assert(s.take(i + 1).drop_last() =~= s.take(i as int));
                assert(s.take(i + 1).last() == s[i as int]);
                assert(kept@.map_values(|v: Vec<char>| v@) =~= others(s.take(i + 1), target@));
            }
            i = i + 1;
        }
        assert(s.take(s.len() as int) =~= s);
        let mut text = String::new();
        push_joined(&mut text, kept.as_slice(), ";");
        proof {
            reveal_strlit(";");
            assert(";"@ =~= semicolon());
            assert(text@ =~= without_text(*self, target@));
        }
        PathValue { kind: self.kind, text }
    }
}

// ---------------------------------------------------------------------------
// Journals
// ---------------------------------------------------------------------------

/// A journal describes exactly one removal: for this owner and target, `after` is
/// `before` without the target's entries, and `before` had one.
pub open spec fn journal_valid(j: Journal, owner_sid: Seq<char>, target: Seq<char>) -> bool {
    &&& value_valid(j.before)
    &&& value_valid(j.after)
    &&& j.schema_version == 1
    &&& j.owner_sid@ == owner_sid
    &&& j.target@ == target
    &&& value_contains(j.before, target)
    &&& j.after.kind == j.before.kind
    &&& j.after.text@ == without_text(j.before, target)
}

/// The first entry naming the target, or `-1`.
pub open spec fn first_target(es: Seq<Seq<char>>, target: Seq<char>) -> int {
    if exists|k: int| 0 <= k < es.len() && same_entry(es[k], target) && (forall|j: int| 0 <= j < k ==> !same_entry(#[trigger] es[j], target)) {
        choose|k: int| 0 <= k < es.len() && same_entry(es[k], target) && (forall|j: int| 0 <= j < k ==> !same_entry(#[trigger] es[j], target))
    } else {
        -1
    }
}

/// The nearest entry before `first` that does not name the target.
pub open spec fn anchor_before(es: Seq<Seq<char>>, target: Seq<char>, first: int) -> Option<Seq<char>> {
    if exists|k: int| 0 <= k < first && !same_entry(es[k], target) && (forall|j: int| k < j < first ==> same_entry(#[trigger] es[j], target)) {
        Some(es[choose|k: int| 0 <= k < first && !same_entry(es[k], target) && (forall|j: int| k < j < first ==> same_entry(#[trigger] es[j], target))])
    } else {
        None
    }
}

/// The nearest entry after `first` that does not name the target.
pub open spec fn anchor_after(es: Seq<Seq<char>>, target: Seq<char>, first: int) -> Option<Seq<char>> {
    if exists|k: int| first < k < es.len() && !same_entry(es[k], target) && (forall|j: int| first < j < k ==> same_entry(#[trigger] es[j], target)) {
        Some(es[choose|k: int| first < k < es.len() && !same_entry(es[k], target) && (forall|j: int| first < j < k ==> same_entry(#[trigger] es[j], target))])
    } else {
        None
    }
}

pub open spec fn locate(es: Seq<Seq<char>>, anchor: Option<Seq<char>>) -> Option<int> {
    match anchor {
        Some(a) => unique_position(es, a),
        None => None,
    }
}

/// Where the target goes back: after its old left neighbour and before its old
/// right neighbour when both are still uniquely present in that order; next to
/// whichever one is; at the end otherwise.
pub open spec fn insert_position(previous: Option<int>, next: Option<int>, len: int) -> int {
    match (previous, next) {
        (Some(l), Some(r)) => if l < r {
            r
        } else {
            l + 1
        },
        (None, Some(r)) => r,
        (Some(l), None) => l + 1,
        (None, None) => len,
    }
}

/// The type and text restored by re-inserting the target into an edited PATH.
pub open spec fn reinserted(j: Journal, current: Option<PathValue>) -> (ValueKind, Seq<char>) {
    let kind = match current {
        Some(c) => c.kind,
        None => j.before.kind,
    };
    let cur = match current {
        Some(c) => path_entries(c.text@),
        None => Seq::empty(),
    };
    let old = path_entries(j.before.text@);
    let first = first_target(old, j.target@);
    let pos = insert_position(
        locate(cur, anchor_before(old, j.target@, first)),
        locate(cur, anchor_after(old, j.target@, first)),
        cur.len() as int,
    );
    (kind, join_texts(cur.insert(pos, j.target@), semicolon()))
}

/// Two values agree in type and text.
pub open spec fn same_value(a: PathValue, b: PathValue) -> bool {
    a.kind == b.kind && a.text@ == b.text@
}

/// What restoring a journal against the current PATH yields.
pub open spec fn restoration_outcome(j: Journal, current: Option<PathValue>, r: Result<Option<PathValue>>) -> bool {
    if !journal_valid(j, j.owner_sid@, j.target@) || (current matches Some(c) && !value_valid(c)) {
        r matches Err(e) && e.spec_kind() == ErrorKind::Usage
    } else if j.phase is Restored || (current matches Some(c) && value_contains(c, j.target@)) {
        r matches Ok(None)
    } else if current matches Some(c) && same_value(c, j.after) {
        r matches Ok(Some(v)) && same_value(v, j.before)
    } else if j.phase is Pending {
        r matches Err(e) && e.spec_kind() == ErrorKind::Usage
    } else {
        let v = reinserted(j, current);
        if text_valid(v.1) {
            r matches Ok(Some(w)) && w.kind == v.0 && w.text@ == v.1
        } else {
            r matches Err(e) && e.spec_kind() == ErrorKind::Usage
        }
    }
}

impl Journal {
    /// Accepts the journal only as a single-target repair for this owner and target.
    pub fn validate(&self, owner_sid: &str, target: &str) -> (r: Result<()>)
        ensures
            r is Ok <==> journal_valid(*self, owner_sid@, target@),
            r matches Err(e) ==> e.spec_kind() == ErrorKind::Usage,
    {
        match self.before.validate() {
            Ok(()) => {},
            Err(e) => return Err(e),
        }
        match self.after.validate() {
            Ok(()) => {},
            Err(e) => return Err(e),
        }
        let bad = "Store PATH journal is not a valid single-target repair";
        if self.schema_version != 1 {
            return Err(Error::new(ErrorKind::Usage, bad));
        }
        let owner = chars_of(self.owner_sid.as_str());
        let expected_owner = chars_of(owner_sid);
        let own_target = chars_of(self.target.as_str());
        let expected_target = chars_of(target);
        if !crate::text::chars_eq(&owner, &expected_owner) || !crate::text::chars_eq(&own_target, &expected_target)
            || !self.before.contains(target) {
            return Err(Error::new(ErrorKind::Usage, bad));
        }
        let stripped = self.before.without(target);
        let a = chars_of(stripped.text.as_str());
        let b = chars_of(self.after.text.as_str());
        if stripped.kind != self.after.kind || !crate::text::chars_eq(&a, &b) {
            return Err(Error::new(ErrorKind::Usage, bad));
        }
        Ok(())
    }
}

proof fn lemma_others_concat(a: Seq<Seq<char>>, b: Seq<Seq<char>>, target: Seq<char>)
    ensures
        others(a + b, target) == others(a, target) + others(b, target),
    decreases b.len(),
{
    if b.len() == 0 {
        assert(a + b =~= a);
        assert(others(a, target) + others(b, target) =~= others(a, target));
    } else {
        lemma_others_concat(a, b.drop_last(), target);
        assert((a + b).drop_last() =~= a + b.drop_last());
        assert((a + b).last() == b.last());
        if same_entry(b.last(), target) {
        } else {
            assert(others(a + b, target) =~= others(a, target) + others(b, target));
        }
    }
}

proof fn lemma_others_shape(es: Seq<Seq<char>>, target: Seq<char>)
    ensures
        forall|i: int| 0 <= i < others(es, target).len() ==> exists|j: int| 0 <= j < es.len() && #[trigger] others(es, target)[i] == es[j],
        (exists|j: int| 0 <= j < es.len() && !same_entry(es[j], target)) <==> others(es, target).len() > 0,
    decreases es.len(),
{
    if es.len() > 0 {
        let init = es.drop_last();
        lemma_others_shape(init, target);
        let r = others(init, target);
        assert forall|i: int| 0 <= i < others(es, target).len() implies exists|j: int| 0 <= j < es.len() && #[trigger] others(es, target)[i] == es[j] by {
            if i < r.len() {
                assert(others(es, target)[i] == r[i]);
                let j = choose|j: int| 0 <= j < init.len() && r[i] == init[j];
                assert(es[j] == init[j]);
            } else {
                assert(others(es, target)[i] == es[es.len() - 1]);
            }
        }
        if exists|j: int| 0 <= j < es.len() && !same_entry(es[j], target) {
            let j = choose|j: int| 0 <= j < es.len() && !same_entry(es[j], target);
            if j < init.len() {
                assert(init[j] == es[j]);
            }
        }
        if exists|j: int| 0 <= j < init.len() && !same_entry(init[j], target) {
            let j = choose|j: int| 0 <= j < init.len() && !same_entry(init[j], target);
            assert(es[j] == init[j]);
        }
    }
}

fn any_other(es: &Vec<Vec<char>>, target: &[char]) -> (r: bool)
    ensures
        r == exists|j: int| 0 <= j < es@.len() && !same_entry(es@[j]@, target@),
{
    let mut i: usize = 0;
    while i < es.len()
        invariant
            i <= es@.len(),
            forall|j: int| 0 <= j < i ==> same_entry(#[trigger] es@[j]@, target@),
        decreases es.len() - i,
    {
        if !same_entry_chars(&es[i], target) {
            return true;
        }
        i = i + 1;
    }
    false
}

fn join_entries(items: &Vec<Vec<char>>) -> (r: String)
    ensures
        r@ == join_texts(items@.map_values(|v: Vec<char>| v@), semicolon()),
{
    let mut text = String::new();
    push_joined(&mut text, items.as_slice(), ";");
    proof {
        reveal_strlit(";");
        assert(";"@ =~= semicolon());
    }
    text
}

impl Journal {
    /// The value that puts the target back, or `None` when nothing is to be done.
    ///
    /// An unchanged repaired PATH gets its recorded original back (rebuilt from its
    /// entries, never copied from the snapshot); an edited one keeps every current
    /// entry and order and only regains the target next to its old neighbours. A
    /// pending repair whose PATH changed again is refused as ambiguous.
    pub fn restoration(&self, current: Option<&PathValue>) -> (r: Result<Option<PathValue>>)
        ensures
            restoration_outcome(
                *self,
                match current {
                    Some(c) => Some(*c),
                    None => None,
                },
                r,
            ),
    {
        match self.validate(self.owner_sid.as_str(), self.target.as_str()) {
            Ok(()) => {},
            Err(e) => return Err(e),
        }
        if let Some(v) = current {
            match v.validate() {
                Ok(()) => {},
                Err(e) => return Err(e),
            }
        }
        let current_contains = match current {
            Some(v) => v.contains(self.target.as_str()),
            None => false,
        };
        if matches!(self.phase, Phase::Restored) || current_contains {
            return Ok(None);
        }
        let is_after = match current {
            Some(v) => {
                let a = chars_of(v.text.as_str());
                let b = chars_of(self.after.text.as_str());
                v.kind == self.after.kind && crate::text::chars_eq(&a, &b)
            },
            None => false,
        };
        if is_after {
            return self.rebuild();
        }
        if matches!(self.phase, Phase::Pending) {
            return Err(
                Error::new(
                    ErrorKind::Usage,
                    "Store PATH repair was interrupted and PATH changed again; refusing ambiguous restoration",
                ),
            );
        }
        self.reinsert(current)
    }

    /// Rebuilds the original value from the repaired one.
    fn rebuild(&self) -> (r: Result<Option<PathValue>>)
        requires
            journal_valid(*self, self.owner_sid@, self.target@),
        ensures
            r matches Ok(Some(v)) && same_value(v, self.before),
    {
        let target = chars_of(self.target.as_str());
        let before_text = chars_of(self.before.text.as_str());
        let old = entries(&before_text);
        let ghost olds = old@.map_values(|v: Vec<char>| v@);
        let ghost t = self.target@;
        proof {
            lemma_others_shape(olds, t);
            lemma_split_on_shape(before_text@, ';');
        }
        let remaining = if any_other(&old, &target) {
            let after_text = chars_of(self.after.text.as_str());
            let pieces = split_chars(&after_text, ';');
            proof {
                let os = others(olds, t);
                let w = choose|j: int| 0 <= j < old@.len() && !same_entry(old@[j]@, target@);
                assert(!same_entry(olds[w], t));
                assert(os.len() > 0);
                assert forall|i: int| 0 <= i < os.len() implies !has_char(#[trigger] os[i], ';') by {
                    let j = choose|j: int| 0 <= j < olds.len() && os[i] == olds[j];
                    if before_text@.len() > 0 {
                        assert(olds[j] == split_on(before_text@, ';')[j]);
                    }
                }
                lemma_split_join(os, ';');
            }
            pieces
        } else {
            let pieces: Vec<Vec<char>> = Vec::new();
            proof {
                assert(others(olds, t) =~= Seq::<Seq<char>>::empty());
                assert(pieces@.map_values(|v: Vec<char>| v@) =~= Seq::<Seq<char>>::empty());
            }
            pieces
        };
        let ghost rem = remaining@.map_values(|v: Vec<char>| v@);
        assert(rem == others(olds, t));
        let mut restored: Vec<Vec<char>> = Vec::new();
        let mut used: usize = 0;
        let mut k: usize = 0;
        while k < old.len()
            invariant
                k <= old@.len(),
                olds == old@.map_values(|v: Vec<char>| v@),
                rem == remaining@.map_values(|v: Vec<char>| v@),
                rem == others(olds, t),
                target@ == t,
                restored@.map_values(|v: Vec<char>| v@) == olds.take(k as int),
                used == others(olds.take(k as int), t).len(),
            decreases old.len() - k,
        {
            proof {
                lemma_others_concat(olds.take(k + 1), olds.skip(k + 1), t);
                assert(olds.take(k + 1) + olds.skip(k + 1) =~= olds);
                assert(olds.take(k + 1).drop_last() =~= olds.take(k as int));
                assert(olds.take(k + 1).last() == olds[k as int]);
            }
            if same_entry_chars(&old[k], &target) {
                restored.push(old[k].clone());
            } else {
                proof {
                    assert(olds[k as int] == old@[k as int]@);
                    assert(!same_entry(olds[k as int], t));
                    assert(others(olds.take(k + 1), t) == others(olds.take(k as int), t).push(olds[k as int]));
                    assert(rem == others(olds.take(k + 1), t) + others(olds.skip(k + 1), t));
                    assert(used + 1 <= rem.len());
                    assert(rem.len() == remaining@.len());
                }
                if used >= remaining.len() {
                    return Err(Error::new(ErrorKind::Usage, "Store PATH journal lost its original anchors"));
                }
                proof {
                    assert(rem[used as int] == others(olds.take(k + 1), t)[used as int]);
                }
                restored.push(remaining[used].clone());
                used = used + 1;
            }
            proof {
                assert(restored@.map_values(|v: Vec<char>| v@) =~= olds.take(k + 1));
            }
            k = k + 1;
        }
        proof {
            assert(olds.take(olds.len() as int) =~= olds);
        }
        if used < remaining.len() {
            return Err(Error::new(ErrorKind::Usage, "Store PATH journal contains unexpected remaining entries"));
        }
        let text = join_entries(&restored);
        proof {
            if before_text@.len() > 0 {
                lemma_join_split(before_text@, ';');
            }
            assert(text@ == self.before.text@);
        }
        let result = PathValue { kind: self.after.kind, text };
        match result.validate() {
            Ok(()) => {},
            Err(e) => return Err(e),
        }
        Ok(Some(result))
    }

    /// Re-inserts the target into an edited PATH next to its old neighbours.
    fn reinsert(&self, current: Option<&PathValue>) -> (r: Result<Option<PathValue>>)
        requires
            journal_valid(*self, self.owner_sid@, self.target@),
        ensures
            ({
                let v = reinserted(*self, match current {
                    Some(c) => Some(*c),
                    None => None,
                });
                if text_valid(v.1) {
                    r matches Ok(Some(w)) && w.kind == v.0 && w.text@ == v.1
                } else {
                    r matches Err(e) && e.spec_kind() == ErrorKind::Usage
                }
            }),
    {
        let ghost t = self.target@;
        let target = chars_of(self.target.as_str());
        let kind = match current {
            Some(v) => v.kind,
            None => self.before.kind,
        };
        let current_text = match current {
            Some(v) => chars_of(v.text.as_str()),
            None => Vec::new(),
        };
        let mut cur = entries(&current_text);
        let old = entries(&chars_of(self.before.text.as_str()));
        let ghost olds = old@.map_values(|v: Vec<char>| v@);
        let ghost curs = cur@.map_values(|v: Vec<char>| v@);
        let first = match first_target_index(&old, &target) {
            Some(f) => f,
            None => {
                proof {
                    let i = choose|i: int| 0 <= i < path_entries(self.before.text@).len() && same_entry(#[trigger] path_entries(self.before.text@)[i], t);
                    assert(same_entry(olds[i], t));
                }
                return Err(Error::new(ErrorKind::Usage, "Store PATH journal has no target entry"));
            },
        };
        let previous = match anchor_before_index(&old, &target, first) {
            Some(k) => locate_exec(&cur, &old[k]),
            None => None,
        };
        let next = match anchor_after_index(&old, &target, first) {
            Some(k) => locate_exec(&cur, &old[k]),
            None => None,
        };
        let position = position_exec(previous, next, cur.len());
        cur.insert(position, target.clone());
        let text = join_entries(&cur);
        proof {
            assert(cur@.map_values(|v: Vec<char>| v@) =~= curs.insert(position as int, t));
        }
        let result = PathValue { kind, text };
        match result.validate() {
            Ok(()) => {},
            Err(e) => return Err(e),
        }
        Ok(Some(result))
    }
}

fn locate_exec(es: &Vec<Vec<char>>, anchor: &Vec<char>) -> (r: Option<usize>)
    ensures
        match r {
            Some(i) => i < es@.len() && unique_position(es@.map_values(|v: Vec<char>| v@), anchor@) == Some(i as int),
            None => unique_position(es@.map_values(|v: Vec<char>| v@), anchor@) is None,
        },
{
    let r = unique_position_exec(es, anchor);
    proof {
        if let Some(i) = r {
            let s = es@.map_values(|v: Vec<char>| v@);
            let w = choose|w: int| 0 <= w < s.len() && s[w] == anchor@ && (forall|j: int| 0 <= j < s.len() && s[j] == anchor@ ==> j == w);
        }
    }
    r
}

fn position_exec(previous: Option<usize>, next: Option<usize>, len: usize) -> (r: usize)
    requires
        previous matches Some(l) ==> l < len,
        next matches Some(x) ==> x < len,
    ensures
        r as int == insert_position(
            match previous {
                Some(l) => Some(l as int),
                None => None,
            },
            match next {
                Some(x) => Some(x as int),
                None => None,
            },
            len as int,
        ),
        r <= len,
{
    match (previous, next) {
        (Some(l), Some(x)) => if l < x {
            x
        } else {
            l + 1
        },
        (None, Some(x)) => x,
        (Some(l), None) => l + 1,
        (None, None) => len,
    }
}

fn first_target_index(old: &Vec<Vec<char>>, target: &Vec<char>) -> (r: Option<usize>)
    ensures
        match r {
            Some(f) => f < old@.len() && f as int == first_target(old@.map_values(|v: Vec<char>| v@), target@),
            None => forall|j: int| 0 <= j < old@.len() ==> !same_entry(#[trigger] old@[j]@, target@),
        },
{
    let ghost olds = old@.map_values(|v: Vec<char>| v@);
    let mut first: usize = 0;
    while first < old.len() && !same_entry_chars(&old[first], target)
        invariant
            first <= old@.len(),
            olds == old@.map_values(|v: Vec<char>| v@),
            forall|j: int| 0 <= j < first ==> !same_entry(#[trigger] olds[j], target@),
        decreases old.len() - first,
    {
        first = first + 1;
    }
    if first == old.len() {
        assert forall|j: int| 0 <= j < old@.len() implies !same_entry(#[trigger] old@[j]@, target@) by {
            assert(olds[j] == old@[j]@);
        }
        return None;
    }
    proof {
        let t = target@;
        assert(same_entry(olds[first as int], t));
        let f = choose|k: int| 0 <= k < olds.len() && same_entry(olds[k], t) && (forall|j: int| 0 <= j < k ==> !same_entry(#[trigger] olds[j], t));
        if f < first {
            assert(!same_entry(olds[f], t));
        } else if f > first {
            assert(!same_entry(olds[first as int], t));
        }
    }
    Some(first)
}

fn anchor_before_index(old: &Vec<Vec<char>>, target: &Vec<char>, first: usize) -> (r: Option<usize>)
    requires
        first < old@.len(),
    ensures
        match r {
            Some(k) => k < first && anchor_before(old@.map_values(|v: Vec<char>| v@), target@, first as int) == Some(old@[k as int]@),
            None => anchor_before(old@.map_values(|v: Vec<char>| v@), target@, first as int) is None,
        },
{
    let ghost olds = old@.map_values(|v: Vec<char>| v@);
    let ghost t = target@;
    let mut b: usize = first;
    while b > 0 && same_entry_chars(&old[b - 1], target)
        invariant
            b <= first,
            first < old@.len(),
            t == target@,
            olds == old@.map_values(|v: Vec<char>| v@),
            forall|j: int| b <= j < first ==> same_entry(#[trigger] olds[j], t),
        decreases b,
    {
        assert(olds[b - 1] == old@[b - 1]@);
        b = b - 1;
    }
    if b == 0 {
        proof {
            if exists|k: int| 0 <= k < first && !same_entry(olds[k], t) && (forall|j: int| k < j < first ==> same_entry(#[trigger] olds[j], t)) {
                let k = choose|k: int| 0 <= k < first && !same_entry(olds[k], t) && (forall|j: int| k < j < first ==> same_entry(#[trigger] olds[j], t));
                assert(same_entry(olds[k], t));
            }
        }
        return None;
    }
    proof {
        assert(!same_entry(olds[b - 1], t));
        let w = choose|k: int| 0 <= k < first && !same_entry(olds[k], t) && (forall|j: int| k < j < first ==> same_entry(#[trigger] olds[j], t));
        if w < b - 1 {
            assert(same_entry(olds[b - 1], t));
        } else if w > b - 1 {
            assert(same_entry(olds[w], t));
        }
    }
    Some(b - 1)
}

fn anchor_after_index(old: &Vec<Vec<char>>, target: &Vec<char>, first: usize) -> (r: Option<usize>)
    requires
        first < old@.len(),
    ensures
        match r {
            Some(k) => first < k < old@.len() && anchor_after(old@.map_values(|v: Vec<char>| v@), target@, first as int) == Some(old@[k as int]@),
            None => anchor_after(old@.map_values(|v: Vec<char>| v@), target@, first as int) is None,
        },
{
    let ghost olds = old@.map_values(|v: Vec<char>| v@);
    let ghost t = target@;
    let n = old.len();
    let mut a: usize = first + 1;
    while a < n && same_entry_chars(&old[a], target)
        invariant
            first < a <= old@.len(),
            n == old@.len(),
            t == target@,
            olds == old@.map_values(|v: Vec<char>| v@),
            forall|j: int| first < j < a ==> same_entry(#[trigger] olds[j], t),
        decreases old.len() - a,
    {
        assert(olds[a as int] == old@[a as int]@);
        a = a + 1;
    }
    if a == old.len() {
        proof {
            if exists|k: int| first < k < olds.len() && !same_entry(olds[k], t) && (forall|j: int| first < j < k ==> same_entry(#[trigger] olds[j], t)) {
                let k = choose|k: int| first < k < olds.len() && !same_entry(olds[k], t) && (forall|j: int| first < j < k ==> same_entry(#[trigger] olds[j], t));
                assert(same_entry(olds[k], t));
            }
        }
        return None;
    }
    proof {
        assert(!same_entry(olds[a as int], t));
        let w = choose|k: int| first < k < olds.len() && !same_entry(olds[k], t) && (forall|j: int| first < j < k ==> same_entry(#[trigger] olds[j], t));
        if w < a {
            assert(same_entry(olds[w], t));
        } else if w > a {
            assert(same_entry(olds[a as int], t));
        }
    }
    Some(a)
}

/// A repaired PATH never names the target: the recorded `after` value has no entry
/// equal to the removed directory.
pub proof fn repaired_value_lacks_target(j: Journal)
    requires
        journal_valid(j, j.owner_sid@, j.target@),
    ensures
        !value_contains(j.after, j.target@),
{
    let t = j.target@;
    let olds = path_entries(j.before.text@);
    let os = others(olds, t);
    lemma_others_shape(olds, t);
    lemma_others_kept(olds, t);
    if j.after.text@.len() > 0 {
        assert(os.len() > 0);
        if j.before.text@.len() > 0 {
            lemma_split_on_shape(j.before.text@, ';');
        }
        assert forall|i: int| 0 <= i < os.len() implies !has_char(#[trigger] os[i], ';') by {
            let k = choose|k: int| 0 <= k < olds.len() && os[i] == olds[k];
        }
        lemma_split_join(os, ';');
        assert(path_entries(j.after.text@) == os);
    }
}

proof fn lemma_others_kept(es: Seq<Seq<char>>, target: Seq<char>)
    ensures
        forall|i: int| 0 <= i < others(es, target).len() ==> !same_entry(#[trigger] others(es, target)[i], target),
    decreases es.len(),
{
    if es.len() > 0 {
        lemma_others_kept(es.drop_last(), target);
        let r = others(es.drop_last(), target);
        assert forall|i: int| 0 <= i < others(es, target).len() implies !same_entry(#[trigger] others(es, target)[i], target) by {
            if i < r.len() {
                assert(others(es, target)[i] == r[i]);
            }
        }
    }
}

/// Restoring an applied repair whose PATH was left unchanged gives back exactly the
/// value recorded before the repair.
pub proof fn unchanged_repair_restores_original(j: Journal, r: Result<Option<PathValue>>)
    requires
        journal_valid(j, j.owner_sid@, j.target@),
        !(j.phase is Restored),
        restoration_outcome(j, Some(j.after), r),
    ensures
        r matches Ok(Some(v)) && same_value(v, j.before),
{
    repaired_value_lacks_target(j);
}


proof fn lemma_position_in_range(es: Seq<Seq<char>>, anchor: Option<Seq<char>>)
    ensures
        locate(es, anchor) matches Some(i) ==> 0 <= i < es.len(),
{
    if let Some(a) = anchor {
        if exists|i: int| 0 <= i < es.len() && es[i] == a && (forall|j: int| 0 <= j < es.len() && es[j] == a ==> j == i) {
        }
    }
}

/// The entries of a PATH text made by joining entries that hold no separator, at
/// least one of them not empty, are those entries.
proof fn lemma_entries_of_join(items: Seq<Seq<char>>, k: int)
    requires
        0 <= k < items.len(),
        items[k].len() > 0,
        forall|i: int| 0 <= i < items.len() ==> !has_char(#[trigger] items[i], ';'),
    ensures
        path_entries(join_texts(items, semicolon())) == items,
{
    lemma_split_join(items, ';');
    if join_texts(items, semicolon()).len() == 0 {
        assert(split_on(Seq::<char>::empty(), ';') == seq![Seq::<char>::empty()]);
        assert(items.len() == 1);
        assert(false);
    }
}

/// The entries of the current PATH, none when it is absent.
pub open spec fn current_entries(current: Option<PathValue>) -> Seq<Seq<char>> {
    match current {
        Some(c) => path_entries(c.text@),
        None => Seq::empty(),
    }
}

/// A restored PATH names the target again and keeps every entry of the PATH it
/// replaces: restoring an unchanged repair gives back the recorded original, and
/// restoring over an edited PATH inserts the target, and nothing else, among the
/// current entries, which keep their order. This holds
/// for a target that is non-empty, holds no `;` and is not wrapped in quotes (so that
/// it names itself).
pub proof fn restored_value_names_target(j: Journal, current: Option<PathValue>, r: Result<Option<PathValue>>)
    requires
        restoration_outcome(j, current, r),
        r matches Ok(Some(v)),
        j.target@.len() > 0,
        !has_char(j.target@, ';'),
        same_entry(j.target@, j.target@),
    ensures
        r matches Ok(Some(v)) && value_contains(v, j.target@) && (current matches Some(c) ==> forall|k: int|
            0 <= k < path_entries(c.text@).len() ==> path_entries(v.text@).contains(
                #[trigger] path_entries(c.text@)[k],
            )),
        r matches Ok(Some(v)) && ((current matches Some(c) && same_value(c, j.after) && same_value(v, j.before))
            || (v.kind == match current {
            Some(c) => c.kind,
            None => j.before.kind,
        } && exists|pos: int|
            0 <= pos <= current_entries(current).len() && #[trigger] path_entries(v.text@)
                == current_entries(current).insert(pos, j.target@))),
{
    let t = j.target@;
    let v = r->Ok_0->Some_0;
    let olds = path_entries(j.before.text@);
    if current is Some && same_value(current->0, j.after) {
        // The recorded original comes back; the current (repaired) entries are a
        // selection of its entries.
        let c = current->0;
        let os = others(olds, t);
        lemma_others_shape(olds, t);
        if c.text@.len() > 0 {
            assert(os.len() > 0);
            if j.before.text@.len() > 0 {
                lemma_split_on_shape(j.before.text@, ';');
            }
            assert forall|i: int| 0 <= i < os.len() implies !has_char(#[trigger] os[i], ';') by {
                let k = choose|k: int| 0 <= k < olds.len() && os[i] == olds[k];
            }
            lemma_split_join(os, ';');
            assert(path_entries(c.text@) == os);
            assert forall|k: int| 0 <= k < path_entries(c.text@).len() implies path_entries(v.text@).contains(
                #[trigger] path_entries(c.text@)[k],
            ) by {
                let m = choose|m: int| 0 <= m < olds.len() && os[k] == olds[m];
                assert(path_entries(v.text@)[m] == os[k]);
            }
        }
    } else {
        let cur = match current {
            Some(c) => path_entries(c.text@),
            None => Seq::empty(),
        };
        let first = first_target(olds, t);
        let prev = locate(cur, anchor_before(olds, t, first));
        let next = locate(cur, anchor_after(olds, t, first));
        lemma_position_in_range(cur, anchor_before(olds, t, first));
        lemma_position_in_range(cur, anchor_after(olds, t, first));
        let pos = insert_position(prev, next, cur.len() as int);
        assert(0 <= pos <= cur.len());
        let ins = cur.insert(pos, t);
        if let Some(c) = current {
            if c.text@.len() > 0 {
                lemma_split_on_shape(c.text@, ';');
            }
        }
        assert forall|i: int| 0 <= i < ins.len() implies !has_char(#[trigger] ins[i], ';') by {
            if i < pos {
                assert(ins[i] == cur[i]);
            } else if i > pos {
                assert(ins[i] == cur[i - 1]);
            }
        }
        assert(ins[pos] == t);
        lemma_entries_of_join(ins, pos);
        assert(v.text@ == join_texts(ins, semicolon()));
        assert(path_entries(v.text@)[pos] == t);
        assert(cur == current_entries(current));
        assert(path_entries(v.text@) == current_entries(current).insert(pos, t));
        assert forall|k: int| 0 <= k < cur.len() implies path_entries(v.text@).contains(#[trigger] cur[k]) by {
            if k < pos {
                assert(path_entries(v.text@)[k] == cur[k]);
            } else {
                assert(path_entries(v.text@)[k + 1] == cur[k]);
            }
        }
    }
}


/// Where restoring over an edited PATH puts the target back, by its old neighbours
/// (the nearest other entries around its first occurrence in the recorded original)
/// as they now stand in the current PATH: when neither is there exactly once, after
/// every current entry; right after the left one when only it is; right before the
/// right one when only it is; and when both are, between them if they are still in
/// order, else right after the left one. Holds for a non-empty target without `;`.
pub proof fn restoration_places_target_by_its_neighbours(
    j: Journal,
    current: Option<PathValue>,
    r: Result<Option<PathValue>>,
)
    requires
        restoration_outcome(j, current, r),
        r matches Ok(Some(v)),
        !(current matches Some(c) && same_value(c, j.after)),
        j.target@.len() > 0,
        !has_char(j.target@, ';'),
    ensures
        ({
            let v = r->Ok_0->Some_0;
            let cur = current_entries(current);
            let olds = path_entries(j.before.text@);
            let first = first_target(olds, j.target@);
            let left = locate(cur, anchor_before(olds, j.target@, first));
            let right = locate(cur, anchor_after(olds, j.target@, first));
            &&& (left is None && right is None ==> path_entries(v.text@) == cur.push(j.target@))
            &&& (left is Some && right is None ==> path_entries(v.text@) == cur.insert(
                left->0 + 1,
                j.target@,
            ))
            &&& (left is None && right is Some ==> path_entries(v.text@) == cur.insert(right->0, j.target@))
            &&& (left is Some && right is Some && left->0 < right->0 ==> path_entries(v.text@)
                == cur.insert(right->0, j.target@))
            &&& (left is Some && right is Some && right->0 <= left->0 ==> path_entries(v.text@)
                == cur.insert(left->0 + 1, j.target@))
        }),
{
    lemma_restored_entries(j, current, r);
    let cur = current_entries(current);
    assert(cur.insert(cur.len() as int, j.target@) =~= cur.push(j.target@));
}

/// The entries restored over an edited PATH: the current entries with the target
/// inserted where `insert_position` puts it.
proof fn lemma_restored_entries(j: Journal, current: Option<PathValue>, r: Result<Option<PathValue>>)
    requires
        restoration_outcome(j, current, r),
        r matches Ok(Some(v)),
        !(current matches Some(c) && same_value(c, j.after)),
        j.target@.len() > 0,
        !has_char(j.target@, ';'),
    ensures
        ({
            let cur = current_entries(current);
            let olds = path_entries(j.before.text@);
            let first = first_target(olds, j.target@);
            path_entries(r->Ok_0->Some_0.text@) == cur.insert(
                insert_position(
                    locate(cur, anchor_before(olds, j.target@, first)),
                    locate(cur, anchor_after(olds, j.target@, first)),
                    cur.len() as int,
                ),
                j.target@,
            )
        }),
{
    let t = j.target@;
    let v = r->Ok_0->Some_0;
    let cur = current_entries(current);
    let olds = path_entries(j.before.text@);
    let first = first_target(olds, t);
    lemma_position_in_range(cur, anchor_before(olds, t, first));
    lemma_position_in_range(cur, anchor_after(olds, t, first));
    let pos = insert_position(locate(cur, anchor_before(olds, t, first)), locate(cur, anchor_after(olds, t, first)), cur.len() as int);
    let ins = cur.insert(pos, t);
    if let Some(c) = current {
        if c.text@.len() > 0 {
            lemma_split_on_shape(c.text@, ';');
        }
    }
    assert forall|i: int| 0 <= i < ins.len() implies !has_char(#[trigger] ins[i], ';') by {
        if i < pos {
            assert(ins[i] == cur[i]);
        } else if i > pos {
            assert(ins[i] == cur[i - 1]);
        }
    }
    assert(ins[pos] == t);
    lemma_entries_of_join(ins, pos);
    assert(path_entries(v.text@) == ins);
}

pub open spec fn unrelated_change_message() -> Seq<char> {
    "Store PATH repair would modify unrelated machine entries"@
}

/// Whether publishing `next` over the machine PATH `current` (absent: nothing) changes
/// the target's entry alone: the other entries and the registry type stay, and the
/// target is present exactly when it is being restored.
pub open spec fn publication_scoped(
    current: Option<PathValue>,
    next: PathValue,
    target: Seq<char>,
    restore: bool,
) -> bool {
    let unrelated = match current {
        Some(v) => without_text(v, target),
        None => Seq::empty(),
    };
    &&& without_text(next, target) == unrelated
    &&& value_contains(next, target) == restore
    &&& current matches Some(v) ==> v.kind == next.kind
}

/// Rechecks the actual change a repair is about to write, whatever its journal claims:
/// the new value must be valid and differ from the current one in the target only.
pub fn check_publication(current: Option<&PathValue>, next: &PathValue, target: &str, restore: bool) -> (r: Result<()>)
    ensures
        !value_valid(*next) ==> (r matches Err(e) && e.spec_kind() == ErrorKind::Usage),
        value_valid(*next) ==> (r is Ok <==> publication_scoped(match current {
            Some(v) => Some(*v),
            None => None,
        }, *next, target@, restore)),
        value_valid(*next) && r is Err ==> (r matches Err(e) && e.spec_kind() == ErrorKind::Usage
            && e.spec_message() == unrelated_change_message()),
{
    match next.validate() {
        Ok(()) => {},
        Err(e) => return Err(e),
    }
    let remaining = next.without(target);
    let remaining_chars = chars_of(remaining.text.as_str());
    let unrelated_chars = match current {
        Some(v) => chars_of(v.without(target).text.as_str()),
        None => Vec::new(),
    };
    proof {
        if current is None {
            assert(unrelated_chars@ =~= Seq::<char>::empty());
        }
    }
    let kind_changed = match current {
        Some(v) => v.kind != next.kind,
        None => false,
    };
    if !crate::text::chars_eq(&remaining_chars, &unrelated_chars) || next.contains(target) != restore
        || kind_changed {
        return Err(Error::new(ErrorKind::Usage, "Store PATH repair would modify unrelated machine entries"));
    }
    Ok(())
}


pub open spec fn empty_machine_path_message() -> Seq<char> {
    "The machine PATH is empty after PyRudder publication"@
}

pub open spec fn unpublished_message() -> Seq<char> {
    "This installation's bin and shims must be present in machine PATH"@
}

/// Checks, before a Store repair touches the machine PATH, that this installation's
/// program and shims directories (as plain directory texts) are published there.
pub fn check_machine_installation(machine: Option<&PathValue>, install_dir: &str, shims_dir: &str) -> (r: Result<()>)
    ensures
        machine is None ==> (r matches Err(e) && e.spec_kind() == ErrorKind::Usage && e.spec_message()
            == empty_machine_path_message()),
        machine matches Some(v) ==> (r is Ok <==> value_contains(*v, install_dir@) && value_contains(
            *v,
            shims_dir@,
        )),
        machine is Some && r is Err ==> (r matches Err(e) && e.spec_kind() == ErrorKind::Usage
            && e.spec_message() == unpublished_message()),
{
    let value = match machine {
        Some(v) => v,
        None => return Err(Error::new(ErrorKind::Usage, "The machine PATH is empty after PyRudder publication")),
    };
    if !value.contains(install_dir) || !value.contains(shims_dir) {
        return Err(Error::new(
            ErrorKind::Usage,
            "This installation's bin and shims must be present in machine PATH",
        ));
    }
    Ok(())
}


/// What a machine PATH or profile value read from the registry denotes: a supported
/// string type, at most 65534 bytes of UTF-16 text, trailing NULs dropped, and a valid
/// PATH value; `Err` carries the refusal message.
pub open spec fn decoded_value(kind: Option<ValueKind>, bytes: Seq<u8>) -> core::result::Result<(ValueKind, Seq<char>), Seq<char>> {
    match kind {
        None => Err("PATH or profile has an unsupported registry type"@),
        Some(k) => if bytes.len() > 65_534 || bytes.len() % 2 != 0 {
            Err("PATH or profile has invalid UTF-16 data"@)
        } else {
            match crate::user_path::utf16_decode(crate::user_path::le_units(bytes)) {
                None => Err("PATH or profile is not Unicode"@),
                Some(t) => if text_valid(crate::user_path::trim_nuls(t)) {
                    Ok((k, crate::user_path::trim_nuls(t)))
                } else {
                    Err("Store PATH repair encountered invalid or oversized PATH data"@)
                },
            }
        },
    }
}

/// Decodes a registry value for the Store repair; `kind` is its type when it is a
/// string type (`None` for any other).
pub fn decode_store_value(kind: Option<ValueKind>, bytes: &[u8]) -> (r: Result<PathValue>)
    ensures
        match decoded_value(kind, bytes@) {
            Ok((k, t)) => r matches Ok(v) && v.kind == k && v.text@ == t,
            Err(m) => r matches Err(e) && e.spec_kind() == ErrorKind::Usage && e.spec_message() == m,
        },
{
    let k = match kind {
        Some(k) => k,
        None => return Err(Error::new(ErrorKind::Usage, "PATH or profile has an unsupported registry type")),
    };
    if bytes.len() > 65_534 || bytes.len() % 2 != 0 {
        return Err(Error::new(ErrorKind::Usage, "PATH or profile has invalid UTF-16 data"));
    }
    let text = match crate::user_path::decode_trimmed(bytes) {
        Some(t) => t,
        None => return Err(Error::new(ErrorKind::Usage, "PATH or profile is not Unicode")),
    };
    let value = PathValue { kind: k, text: string_of(text.as_slice()) };
    match value.validate() {
        Ok(()) => {},
        Err(_) => {
            return Err(Error::new(
                ErrorKind::Usage,
                "Store PATH repair encountered invalid or oversized PATH data",
            ));
        },
    }
    Ok(value)
}

} // verus!
