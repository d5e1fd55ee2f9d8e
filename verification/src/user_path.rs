//! The user's PATH value as the registry stores it, and directories written into it.
use vstd::prelude::*;

use crate::commands::{utf16_len, utf16_units_exceed};
use crate::error::{invalid_input, ErrorKind, Result};
use crate::store_path::{entries, path_entries, same_entry, same_entry_chars, semicolon};
use crate::store_path::unquote;
use crate::text::{
    chars_eq, chars_of, has_char, join_texts, lemma_join_split, lemma_split_join, lemma_split_on_shape,
    push_joined, slice_chars, string_of,
};

verus! {

/// A character from its code point (`char::from_u32`): `None` for surrogates and
/// values above U+10FFFF.
#[verifier::external_body]
fn char_from_u32(v: u32) -> (r: Option<char>)
    ensures
        r is Some <==> (v <= 0xD7FF || (0xE000 <= v && v <= 0x10FFFF)),
        r matches Some(c) ==> c as u32 == v && c == v as char,
{
    char::from_u32(v)
}

/// Decodes UTF-16 code units; `None` when a surrogate is unpaired.
pub open spec fn utf16_decode(units: Seq<u16>) -> Option<Seq<char>>
    decreases units.len(),
{
    if units.len() == 0 {
        Some(Seq::empty())
    } else {
        let u = units[0] as int;
        if u < 0xD800 || u > 0xDFFF {
            match utf16_decode(units.drop_first()) {
                Some(rest) => Some(seq![(u as u32) as char] + rest),
                None => None,
            }
        } else if u <= 0xDBFF && units.len() >= 2 && 0xDC00 <= units[1] <= 0xDFFF {
            let v = 0x10000 + (u - 0xD800) * 0x400 + (units[1] - 0xDC00);
            match utf16_decode(units.skip(2)) {
                Some(rest) => Some(seq![(v as u32) as char] + rest),
                None => None,
            }
        } else {
            None
        }
    }
}

/// Little-endian 16-bit units of an even number of bytes.
pub open spec fn le_units(bytes: Seq<u8>) -> Seq<u16> {
    Seq::new(bytes.len() / 2, |i: int| (bytes[2 * i] + 256 * bytes[2 * i + 1]) as u16)
}

/// The text without its trailing NUL characters.
pub open spec fn trim_nuls(s: Seq<char>) -> Seq<char>
    decreases s.len(),
{
    if s.len() > 0 && s.last() == '\0' {
        trim_nuls(s.drop_last())
    } else {
        s
    }
}

pub open spec fn size_message() -> Seq<char> {
    "PATH has invalid UTF-16 or exceeds the Windows limit"@
}

pub open spec fn unicode_message() -> Seq<char> {
    "PATH is not valid Unicode"@
}

pub open spec fn nul_message() -> Seq<char> {
    "PATH contains an embedded NUL"@
}

/// What a stored PATH value denotes: the empty text when there is none, else its
/// UTF-16 text without trailing NULs; `Err` carries the refusal message.
pub open spec fn decoded_path(bytes: Option<Seq<u8>>) -> core::result::Result<Seq<char>, Seq<char>> {
    match bytes {
        None => Ok(Seq::empty()),
        Some(b) => if b.len() % 2 != 0 || b.len() > 65_534 {
            Err(size_message())
        } else {
            match utf16_decode(le_units(b)) {
                None => Err(unicode_message()),
                Some(t) => if has_char(trim_nuls(t), '\0') {
                    Err(nul_message())
                } else {
                    Ok(trim_nuls(t))
                },
            }
        },
    }
}

fn decode_units(units: &[u16]) -> (r: Option<Vec<char>>)
    ensures
        match utf16_decode(units@) {
            Some(t) => r matches Some(v) && v@ == t,
            None => r is None,
        },
{
    let mut out: Vec<char> = Vec::new();
    let mut i: usize = 0;
    proof {
        assert(units@.skip(0) =~= units@);
        match utf16_decode(units@) {
            Some(t) => {
                assert(out@ + t =~= t);
            },
            None => {},
        }
    }
    while i < units.len()
        invariant
            i <= units.len(),
            utf16_decode(units@) == match utf16_decode(units@.skip(i as int)) {
                Some(rest) => Some(out@ + rest),
                None => None::<Seq<char>>,
            },
        decreases units.len() - i,
    {
        let ghost tail = units@.skip(i as int);
        let u = units[i] as u32;
        if u < 0xD800 || u > 0xDFFF {
            let c = match char_from_u32(u) {
                Some(c) => c,
                None => return None,
            };
            proof {
                assert(tail.drop_first() =~= units@.skip(i + 1));
                assert(tail[0] == units@[i as int]);
                assert(c == (u as u32) as char);
                match utf16_decode(units@.skip(i + 1)) {
                    Some(rest) => {
                        assert(out@.push(c) + rest =~= out@ + (seq![c] + rest));
                    },
                    None => {},
                }
            }
            out.push(c);
            i = i + 1;
        } else if u <= 0xDBFF && i + 1 < units.len() && 0xDC00 <= units[i + 1] && units[i + 1] <= 0xDFFF {
            let low = units[i + 1] as u32;
            let v = 0x10000 + (u - 0xD800) * 0x400 + (low - 0xDC00);
            let c = match char_from_u32(v) {
                Some(c) => c,
                None => return None,
            };
            proof {
                assert(tail.skip(2) =~= units@.skip(i + 2));
                assert(tail[0] == units@[i as int]);
                assert(tail[1] == units@[i + 1]);
                assert(c == (v as u32) as char);
                match utf16_decode(units@.skip(i + 2)) {
                    Some(rest) => {
                        assert(out@.push(c) + rest =~= out@ + (seq![c] + rest));
                    },
                    None => {},
                }
            }
            out.push(c);
            i = i + 2;
        } else {
            proof {
                assert(tail[0] == units@[i as int]);
                if i + 1 < units.len() {
                    assert(tail[1] == units@[i + 1]);
                }
            }
            return None;
        }
    }
    proof {
        assert(units@.skip(i as int) =~= Seq::<u16>::empty());
        assert(out@ + Seq::<char>::empty() =~= out@);
    }
    Some(out)
}

/// The UTF-16 text of little-endian bytes without its trailing NULs, or `None` when a
/// surrogate is unpaired.
pub(crate) fn decode_trimmed(bytes: &[u8]) -> (r: Option<Vec<char>>)
    requires
        bytes@.len() % 2 == 0,
        bytes@.len() <= 65_534,
    ensures
        match utf16_decode(le_units(bytes@)) {
            Some(t) => r matches Some(v) && v@ == trim_nuls(t),
            None => r is None,
        },
{
    let mut units: Vec<u16> = Vec::new();
    let mut i: usize = 0;
    while i < bytes.len() / 2
        invariant
            i <= bytes.len() / 2,
            bytes@.len() % 2 == 0,
            units@ =~= le_units(bytes@).take(i as int),
        decreases bytes.len() / 2 - i,
    {
        let unit = (bytes[2 * i] as u16) + 256 * (bytes[2 * i + 1] as u16);
        units.push(unit);
        i = i + 1;
    }
    assert(le_units(bytes@).take(le_units(bytes@).len() as int) =~= le_units(bytes@));
    let decoded = match decode_units(units.as_slice()) {
        Some(d) => d,
        None => return None,
    };
    let mut end = decoded.len();
    proof {
        assert(decoded@.take(end as int) =~= decoded@);
    }
    while end > 0 && decoded[end - 1] == '\0'
        invariant
            end <= decoded@.len(),
            trim_nuls(decoded@) == trim_nuls(decoded@.take(end as int)),
        decreases end,
    {
        proof {
            assert(decoded@.take(end as int).drop_last() =~= decoded@.take(end - 1));
        }
        end = end - 1;
    }
    let text = slice_chars(decoded.as_slice(), 0, end);
    proof {
        assert(text@ =~= decoded@.take(end as int));
        assert(trim_nuls(text@) == text@);
        assert(text@ == trim_nuls(decoded@));
    }
    Some(text)
}

/// Decodes the user's PATH registry value; `None` stands for a missing value.
pub fn decode_path(value: Option<&[u8]>) -> (r: Result<String>)
    ensures
        match decoded_path(match value {
            Some(b) => Some(b@),
            None => None,
        }) {
            Ok(t) => r matches Ok(s) && s@ == t,
            Err(m) => r matches Err(e) && e.spec_kind() == ErrorKind::Usage && e.spec_message() == m,
        },
{
    let bytes = match value {
        None => return Ok(String::new()),
        Some(b) => b,
    };
    if bytes.len() % 2 != 0 || bytes.len() > 65_534 {
        return Err(invalid_input("PATH has invalid UTF-16 or exceeds the Windows limit"));
    }
    let text = match decode_trimmed(bytes) {
        Some(text) => text,
        None => return Err(invalid_input("PATH is not valid Unicode")),
    };
    let ghost decoded = utf16_decode(le_units(bytes@))->0;
    let mut k: usize = 0;
    while k < text.len()
        invariant
            k <= text.len(),
            text@ == trim_nuls(decoded),
            utf16_decode(le_units(bytes@)) == Some(decoded),
            bytes@.len() % 2 == 0 && bytes@.len() <= 65_534,
            value == Some(bytes),
            forall|j: int| 0 <= j < k ==> text@[j] != '\0',
        decreases text.len() - k,
    {
        if text[k] == '\0' {
            assert(has_char(text@, '\0'));
            return Err(invalid_input("PATH contains an embedded NUL"));
        }
        k = k + 1;
    }
    Ok(string_of(text.as_slice()))
}

/// A character that could split, quote, expand or break a PATH entry.
pub open spec fn entry_breaking(c: char) -> bool {
    c == ';' || c == '"' || c == '\r' || c == '\n' || c == '%'
}

pub open spec fn unsafe_entry_message() -> Seq<char> {
    "Cannot safely persist this PATH directory"@
}

/// The text persisted for a directory added to PATH: without a verbatim `\\?\` prefix,
/// and refused when it holds a character that would break the entry.
pub fn path_text(path: &str) -> (r: Result<String>)
    ensures
        ({
            let t = crate::user_identity::without_verbatim(path@);
            &&& r is Ok <==> !exists|i: int| 0 <= i < t.len() && entry_breaking(#[trigger] t[i])
            &&& r matches Ok(s) ==> s@ == t
            &&& r matches Err(e) ==> e.spec_kind() == ErrorKind::Usage && e.spec_message()
                == unsafe_entry_message()
        }),
{
    let cs = chars_of(path);
    let text = if cs.len() >= 4 && cs[0] == '\\' && cs[1] == '\\' && cs[2] == '?' && cs[3] == '\\' {
        slice_chars(cs.as_slice(), 4, cs.len())
    } else {
        slice_chars(cs.as_slice(), 0, cs.len())
    };
    proof {
        assert(text@ =~= crate::user_identity::without_verbatim(path@));
    }
    let mut i: usize = 0;
    while i < text.len()
        invariant
            i <= text.len(),
            text@ == crate::user_identity::without_verbatim(path@),
            forall|j: int| 0 <= j < i ==> !entry_breaking(#[trigger] text@[j]),
        decreases text.len() - i,
    {
        let c = text[i];
        if c == ';' || c == '"' || c == '\r' || c == '\n' || c == '%' {
            assert(entry_breaking(text@[i as int]));
            return Err(invalid_input("Cannot safely persist this PATH directory"));
        }
        i = i + 1;
    }
    Ok(string_of(text.as_slice()))
}


// ---------------------------------------------------------------------------
// Planned updates of the user PATH
// ---------------------------------------------------------------------------

/// The journal of the user PATH entries an installation added.
#[derive(Clone, Debug, PartialEq, Eq)]
pub struct PathOwnership {
    /// Journal format; only 1 is known.
    pub schema_version: u32,
    /// Entries this installation added, in the order it added them.
    pub added: Vec<String>,
}

/// What a user PATH update writes.
#[derive(Clone, Debug, PartialEq, Eq)]
pub struct UserPathPlan {
    /// The new PATH text.
    pub next: String,
    /// The journal's entries after the update.
    pub added: Vec<String>,
    /// Whether the PATH text changes.
    pub changed: bool,
}

pub open spec fn views(v: Seq<String>) -> Seq<Seq<char>> {
    v.map_values(|s: String| s@)
}

/// A journal this installation may act on: known format, at most its two directories.
pub open spec fn ownership_ok(o: PathOwnership, paths: Seq<Seq<char>>) -> bool {
    &&& o.schema_version == 1
    &&& o.added@.len() <= 2
    &&& forall|i: int| 0 <= i < o.added@.len() ==> paths.contains(#[trigger] o.added@[i]@)
}

/// Whether some entry names the directory.
pub open spec fn covered(es: Seq<Seq<char>>, p: Seq<char>) -> bool {
    exists|i: int| 0 <= i < es.len() && same_entry(#[trigger] es[i], p)
}

/// Adding one directory: it goes first unless an entry already names it, and the
/// journal records it when it was put in.
pub open spec fn add_step(es: Seq<Seq<char>>, added: Seq<Seq<char>>, p: Seq<char>) -> (Seq<Seq<char>>, Seq<Seq<char>>) {
    if covered(es, p) {
        (es, added)
    } else {
        (seq![p] + es, if added.contains(p) { added } else { added.push(p) })
    }
}

/// Entries that name none of the owned directories, in order.
pub open spec fn kept(es: Seq<Seq<char>>, owned: Seq<Seq<char>>) -> Seq<Seq<char>>
    decreases es.len(),
{
    if es.len() == 0 {
        es
    } else {
        let r = kept(es.drop_last(), owned);
        if exists|j: int| 0 <= j < owned.len() && same_entry(es.last(), #[trigger] owned[j]) {
            r
        } else {
            r.push(es.last())
        }
    }
}

/// The entries and journal after an update: adding puts the shims directory, then
/// the program directory, in front; removing drops every entry naming an owned
/// directory and empties the journal.
pub open spec fn planned(add: bool, paths: Seq<Seq<char>>, added: Seq<Seq<char>>, text: Seq<char>) -> (Seq<Seq<char>>, Seq<Seq<char>>) {
    let es = path_entries(text);
    if add {
        let first = add_step(es, added, paths[1]);
        add_step(first.0, first.1, paths[0])
    } else {
        (kept(es, added), Seq::empty())
    }
}

pub open spec fn foreign_journal_message() -> Seq<char> {
    "PATH journal belongs to another installation; refusing removal"@
}

pub open spec fn too_long_message() -> Seq<char> {
    "Resulting user PATH exceeds the Windows limit"@
}

pub(crate) fn is_covered(es: &Vec<Vec<char>>, p: &[char]) -> (r: bool)
    ensures
        r == covered(es@.map_values(|v: Vec<char>| v@), p@),
{
    let ghost s = es@.map_values(|v: Vec<char>| v@);
    let mut i: usize = 0;
    while i < es.len()
        invariant
            i <= es.len(),
            s == es@.map_values(|v: Vec<char>| v@),
            forall|j: int| 0 <= j < i ==> !same_entry(#[trigger] s[j], p@),
        decreases es.len() - i,
    {
        if same_entry_chars(es[i].as_slice(), p) {
            assert(same_entry(s[i as int], p@));
            return true;
        }
        i = i + 1;
    }
    false
}

pub(crate) fn contains_text(items: &Vec<Vec<char>>, p: &[char]) -> (r: bool)
    ensures
        r == items@.map_values(|v: Vec<char>| v@).contains(p@),
{
    let ghost s = items@.map_values(|v: Vec<char>| v@);
    let mut i: usize = 0;
    while i < items.len()
        invariant
            i <= items.len(),
            s == items@.map_values(|v: Vec<char>| v@),
            forall|j: int| 0 <= j < i ==> s[j] != p@,
        decreases items.len() - i,
    {
        if chars_eq(items[i].as_slice(), p) {
            assert(s[i as int] == p@);
            return true;
        }
        i = i + 1;
    }
    false
}

fn apply_add_step(es: &mut Vec<Vec<char>>, added: &mut Vec<Vec<char>>, p: &Vec<char>)
    ensures
        (final(es)@.map_values(|v: Vec<char>| v@), final(added)@.map_values(|v: Vec<char>| v@)) == add_step(
            old(es)@.map_values(|v: Vec<char>| v@),
            old(added)@.map_values(|v: Vec<char>| v@),
            p@,
        ),
{
    if is_covered(es, p.as_slice()) {
        return;
    }
    let ghost e0 = es@.map_values(|v: Vec<char>| v@);
    let ghost a0 = added@.map_values(|v: Vec<char>| v@);
    es.insert(0, p.clone());
    proof {
        assert(es@.map_values(|v: Vec<char>| v@) =~= seq![p@] + e0);
    }
    if !contains_text(added, p.as_slice()) {
        added.push(p.clone());
        proof {
            assert(added@.map_values(|v: Vec<char>| v@) =~= a0.push(p@));
        }
    }
}

pub(crate) fn keep_unowned(es: &Vec<Vec<char>>, owned: &Vec<Vec<char>>) -> (r: Vec<Vec<char>>)
    ensures
        r@.map_values(|v: Vec<char>| v@) == kept(es@.map_values(|v: Vec<char>| v@), owned@.map_values(|v: Vec<char>| v@)),
{
    let ghost s = es@.map_values(|v: Vec<char>| v@);
    let ghost o = owned@.map_values(|v: Vec<char>| v@);
    let mut r: Vec<Vec<char>> = Vec::new();
    let mut i: usize = 0;
    while i < es.len()
        invariant
            i <= es.len(),
            s == es@.map_values(|v: Vec<char>| v@),
            o == owned@.map_values(|v: Vec<char>| v@),
            r@.map_values(|v: Vec<char>| v@) == kept(s.take(i as int), o),
        decreases es.len() - i,
    {
        let mut hit = false;
        let mut j: usize = 0;
        while j < owned.len()
            invariant
                i < es.len(),
                j <= owned.len(),
                s == es@.map_values(|v: Vec<char>| v@),
                o == owned@.map_values(|v: Vec<char>| v@),
                hit == exists|k: int| 0 <= k < j && same_entry(s[i as int], #[trigger] o[k]),
            decreases owned.len() - j,
        {
            if same_entry_chars(es[i].as_slice(), owned[j].as_slice()) {
                hit = true;
            }
            proof {
                if hit {
                    if same_entry(s[i as int], o[j as int]) {
                        assert(0 <= j < j + 1 && same_entry(s[i as int], o[j as int]));
                    }
                } else {
                    assert forall|k: int| 0 <= k < j + 1 implies !same_entry(s[i as int], #[trigger] o[k]) by {
                        if k == j {
                        }
                    }
                }
            }
            j = j + 1;
        }
        let ghost prev = r@.map_values(|v: Vec<char>| v@);
        proof {
            assert(s.take(i + 1).drop_last() =~= s.take(i as int));
            assert(s.take(i + 1).last() == s[i as int]);
        }
        if !hit {
            r.push(es[i].clone());
            proof {
                assert(r@.map_values(|v: Vec<char>| v@) =~= prev.push(s[i as int]));
            }
        }
        i = i + 1;
    }
    assert(s.take(s.len() as int) =~= s);
    r
}

pub(crate) fn texts_of(items: &Vec<String>) -> (r: Vec<Vec<char>>)
    ensures
        r@.map_values(|v: Vec<char>| v@) == views(items@),
{
    let mut r: Vec<Vec<char>> = Vec::new();
    let mut i: usize = 0;
    while i < items.len()
        invariant
            i <= items.len(),
            r@.map_values(|v: Vec<char>| v@) =~= views(items@).take(i as int),
        decreases items.len() - i,
    {
        let ghost prev = r@;
        r.push(chars_of(items[i].as_str()));
        proof {
            assert(views(items@).take(i + 1) =~= views(items@).take(i as int).push(items@[i as int]@));
            assert(r@ =~= prev.push(r@[i as int]));
            assert(r@.map_values(|v: Vec<char>| v@) =~= prev.map_values(|v: Vec<char>| v@).push(items@[i as int]@));
        }
        i = i + 1;
    }
    assert(views(items@).take(items@.len() as int) =~= views(items@));
    r
}

pub(crate) fn strings_of(items: &Vec<Vec<char>>) -> (r: Vec<String>)
    ensures
        views(r@) == items@.map_values(|v: Vec<char>| v@),
{
    let mut r: Vec<String> = Vec::new();
    let mut i: usize = 0;
    while i < items.len()
        invariant
            i <= items.len(),
            views(r@) =~= items@.map_values(|v: Vec<char>| v@).take(i as int),
        decreases items.len() - i,
    {
        let ghost prev = r@;
        r.push(string_of(items[i].as_slice()));
        proof {
            assert(items@.map_values(|v: Vec<char>| v@).take(i + 1) =~= items@.map_values(|v: Vec<char>| v@).take(
                i as int,
            ).push(items@[i as int]@));
            assert(r@ =~= prev.push(r@[i as int]));
            assert(views(r@) =~= views(prev).push(items@[i as int]@));
        }
        i = i + 1;
    }
    assert(items@.map_values(|v: Vec<char>| v@).take(items@.len() as int) =~= items@.map_values(|v: Vec<char>| v@));
    r
}

/// Plans adding this installation's program and shims directories to the user PATH,
/// or removing the entries it added, from the current PATH text and the ownership
/// journal. `paths` holds the program directory, then the shims directory.
pub fn plan_user_path(add: bool, paths: &[String; 2], ownership: &PathOwnership, text: &str) -> (r: Result<UserPathPlan>)
    ensures
        ({
            let ps = views(paths@);
            let plan = planned(add, ps, views(ownership.added@), text@);
            let next = join_texts(plan.0, semicolon());
            &&& !ownership_ok(*ownership, ps) ==> (r matches Err(e) && e.spec_kind() == ErrorKind::Usage
                && e.spec_message() == foreign_journal_message())
            &&& ownership_ok(*ownership, ps) && utf16_len(next) >= 32766 ==> (r matches Err(e)
                && e.spec_kind() == ErrorKind::Usage && e.spec_message() == too_long_message())
            &&& ownership_ok(*ownership, ps) && utf16_len(next) < 32766 ==> (r matches Ok(p) && p.next@
                == next && views(p.added@) == plan.1 && p.changed == (next != text@))
        }),
{
    let ghost ps = views(paths@);
    let p0 = chars_of(paths[0].as_str());
    let p1 = chars_of(paths[1].as_str());
    proof {
        assert(ps[0] == p0@ && ps[1] == p1@);
    }
    if ownership.schema_version != 1 || ownership.added.len() > 2 {
        return Err(invalid_input("PATH journal belongs to another installation; refusing removal"));
    }
    let mut i: usize = 0;
    while i < ownership.added.len()
        invariant
            i <= ownership.added.len(),
            ps == views(paths@),
            ps.len() == 2,
            ps[0] == p0@ && ps[1] == p1@,
            forall|j: int| 0 <= j < i ==> ps.contains(#[trigger] ownership.added@[j]@),
        decreases ownership.added.len() - i,
    {
        let a = chars_of(ownership.added[i].as_str());
        if !chars_eq(a.as_slice(), p0.as_slice()) && !chars_eq(a.as_slice(), p1.as_slice()) {
            proof {
                if ps.contains(a@) {
                    let k = choose|k: int| 0 <= k < ps.len() && ps[k] == a@;
                    assert(k == 0 || k == 1);
                }
            }
            return Err(invalid_input("PATH journal belongs to another installation; refusing removal"));
        }
        proof {
            if a@ == p0@ {
                assert(ps[0] == a@);
            } else {
                assert(ps[1] == a@);
            }
        }
        i = i + 1;
    }
    let cs = chars_of(text);
    let mut es = entries(cs.as_slice());
    let mut added = texts_of(&ownership.added);
    let owned_after: Vec<Vec<char>>;
    if add {
        apply_add_step(&mut es, &mut added, &p1);
        apply_add_step(&mut es, &mut added, &p0);
        owned_after = added;
    } else {
        es = keep_unowned(&es, &added);
        owned_after = Vec::new();
        proof {
            assert(owned_after@.map_values(|v: Vec<char>| v@) =~= Seq::<Seq<char>>::empty());
        }
    }
    let mut next = String::new();
    push_joined(&mut next, es.as_slice(), ";");
    proof {
        reveal_strlit(";");
        assert(";"@ =~= semicolon());
    }
    let next_chars = chars_of(next.as_str());
    if utf16_units_exceed(next_chars.as_slice(), 32765) {
        return Err(invalid_input("Resulting user PATH exceeds the Windows limit"));
    }
    let changed = !chars_eq(next_chars.as_slice(), cs.as_slice());
    Ok(UserPathPlan { next, added: strings_of(&owned_after), changed })
}


pub(crate) proof fn lemma_kept_concat(a: Seq<Seq<char>>, b: Seq<Seq<char>>, owned: Seq<Seq<char>>)
    ensures
        kept(a + b, owned) == kept(a, owned) + kept(b, owned),
    decreases b.len(),
{
    if b.len() == 0 {
        assert(a + b =~= a);
        assert(kept(a, owned) + kept(b, owned) =~= kept(a, owned));
    } else {
        lemma_kept_concat(a, b.drop_last(), owned);
        assert((a + b).drop_last() =~= a + b.drop_last());
        assert((a + b).last() == b.last());
        if exists|j: int| 0 <= j < owned.len() && same_entry(b.last(), #[trigger] owned[j]) {
        } else {
            assert(kept(a, owned) + kept(b.drop_last(), owned).push(b.last()) =~= (kept(a, owned) + kept(
                b.drop_last(),
                owned,
            )).push(b.last()));
        }
    }
}

pub(crate) proof fn lemma_kept_none_owned(es: Seq<Seq<char>>, owned: Seq<Seq<char>>)
    requires
        forall|i: int, j: int| 0 <= i < es.len() && 0 <= j < owned.len() ==> !same_entry(#[trigger] es[i], #[trigger] owned[j]),
    ensures
        kept(es, owned) == es,
    decreases es.len(),
{
    if es.len() > 0 {
        lemma_kept_none_owned(es.drop_last(), owned);
        assert(es.drop_last().push(es.last()) =~= es);
        assert forall|j: int| 0 <= j < owned.len() implies !same_entry(es.last(), #[trigger] owned[j]) by {
            assert(es[es.len() - 1] == es.last());
        }
    }
}

/// A directory text without quotes names itself.
pub(crate) proof fn lemma_same_entry_itself(p: Seq<char>)
    requires
        !has_char(p, '"'),
    ensures
        same_entry(p, p),
{
    if p.len() >= 2 {
        assert(p[0] != '"');
    }
    assert(unquote(p) == p);
}

/// Adding this installation's directories to a PATH that names neither of them, and
/// then removing the entries the journal records, gives back the original text.
pub proof fn user_path_add_then_remove_restores(paths: Seq<Seq<char>>, text: Seq<char>)
    requires
        paths.len() == 2,
        forall|k: int| 0 <= k < 2 ==> !has_char(#[trigger] paths[k], ';') && !has_char(paths[k], '"'),
        !covered(path_entries(text), paths[0]),
        !covered(path_entries(text), paths[1]),
    ensures
        ({
            let added = planned(true, paths, Seq::empty(), text);
            let next = join_texts(added.0, semicolon());
            join_texts(planned(false, paths, added.1, next).0, semicolon()) == text
        }),
{
    let es = path_entries(text);
    let p0 = paths[0];
    let p1 = paths[1];
    let first = add_step(es, Seq::empty(), p1);
    assert(first.0 == seq![p1] + es);
    assert(first.1 =~= seq![p1]);
    let second = add_step(first.0, first.1, p0);
    let added = planned(true, paths, Seq::empty(), text);
    assert(added == second);
    lemma_same_entry_itself(p0);
    lemma_same_entry_itself(p1);
    // The entries after adding, and the journal.
    let e2 = second.0;
    let owned = second.1;
    assert(owned.contains(p1)) by {
        if covered(first.0, p0) {
            assert(owned[0] == p1);
        } else {
            if first.1.contains(p0) {
                assert(owned[0] == p1);
            } else {
                assert(owned[0] == p1);
            }
        }
    }
    lemma_split_on_shape(text, ';');
    let covered0 = covered(first.0, p0);
    // Original entries name neither directory.
    assert forall|i: int, j: int| 0 <= i < es.len() && 0 <= j < owned.len() implies !same_entry(#[trigger] es[i], #[trigger] owned[j]) by {
        if covered0 || first.1.contains(p0) {
            assert(owned =~= seq![p1]);
            assert(owned[j] == p1);
        } else {
            assert(owned =~= seq![p1, p0]);
            assert(owned[j] == p1 || owned[j] == p0);
        }
        if same_entry(es[i], owned[j]) {
            if owned[j] == p1 {
                assert(covered(es, p1));
            } else {
                assert(covered(es, p0));
            }
        }
    }
    lemma_kept_none_owned(es, owned);
    // The added entries are all owned.
    let front = if covered0 { seq![p1] } else { seq![p0, p1] };
    assert(e2 =~= front + es);
    assert(kept(front, owned) =~= Seq::<Seq<char>>::empty()) by {
        reveal_with_fuel(kept, 3);
        if covered0 {
            assert(front.drop_last() =~= Seq::<Seq<char>>::empty());
            assert(owned[0] == p1);
            assert(same_entry(front.last(), owned[0]));
        } else {
            assert(front.drop_last() =~= seq![p0]);
            assert(front.drop_last().drop_last() =~= Seq::<Seq<char>>::empty());
            assert(owned[0] == p1);
            assert(same_entry(front.last(), owned[0]));
            if first.1.contains(p0) {
                assert(first.1[0] == p0);
                assert(p0 == p1);
                assert(same_entry(front.drop_last().last(), owned[0]));
            } else {
                assert(owned[1] == p0);
                assert(same_entry(front.drop_last().last(), owned[1]));
            }
        }
    }
    lemma_kept_concat(front, es, owned);
    assert(kept(e2, owned) =~= es);
    // The added text splits back into the same entries.
    let next = join_texts(e2, semicolon());
    assert forall|i: int| 0 <= i < e2.len() implies !has_char(#[trigger] e2[i], ';') by {
        if i < front.len() {
            assert(e2[i] == front[i]);
            assert(front[i] == p0 || front[i] == p1);
        } else {
            assert(e2[i] == es[i - front.len()]);
            if text.len() > 0 {
                assert(es == crate::text::split_on(text, ';'));
            }
        }
    }
    assert(semicolon() == seq![';']);
    lemma_split_join(e2, ';');
    if next.len() == 0 {
        // Only an empty directory name was added to an empty PATH.
        assert(planned(false, paths, owned, next).0 == kept(Seq::<Seq<char>>::empty(), owned));
        if text.len() > 0 {
            assert(es.len() >= 1);
            assert(e2.len() >= 2);
            assert(join_texts(e2, semicolon()).len() > 0) by {
                lemma_join_nonempty(e2);
            }
        }
        assert(text.len() == 0);
    } else {
        assert(path_entries(next) == e2);
        assert(planned(false, paths, owned, next).0 == es);
        if text.len() > 0 {
            lemma_join_split(text, ';');
        }
    }
}

pub(crate) proof fn lemma_join_nonempty(items: Seq<Seq<char>>)
    requires
        items.len() >= 2,
    ensures
        join_texts(items, semicolon()).len() > 0,
    decreases items.len(),
{
}

} // verus!
