//! Publishing this installation's directories in the machine PATH, with a journal of
//! the entries it claimed, so that removal takes out only what it put in.
use vstd::prelude::*;

use crate::commands::{utf16_len, utf16_units_exceed};
use crate::error::{invalid_input, ErrorKind, Result};
use crate::store_path::{entries, path_entries, same_entry, semicolon};
use crate::text::{
    chars_eq, chars_eq_str, chars_of, has_char, join_texts, lemma_join_split, lemma_split_join,
    lemma_split_on_shape, push_joined, split_chars, split_on,
};
use crate::user_path::{
    contains_text, covered, is_covered, keep_unowned, kept, lemma_join_nonempty, lemma_kept_concat,
    lemma_kept_none_owned, lemma_same_entry_itself, strings_of, texts_of, views,
};

verus! {

/// The journal of the machine PATH entries an installation claimed.
#[derive(Clone, Debug, PartialEq, Eq)]
pub struct SystemPathOwnership {
    /// Journal format; only 1 is known.
    pub schema_version: u32,
    /// Always `system`.
    pub scope: String,
    /// The program directory the journal belongs to.
    pub install_dir: String,
    /// The shims directory the journal belongs to.
    pub shims_dir: String,
    /// Entries this installation added, in the order it added them.
    pub added: Vec<String>,
}

/// What a machine PATH update writes.
#[derive(Clone, Debug, PartialEq, Eq)]
pub struct SystemPathPlan {
    /// The new PATH text.
    pub next: String,
    /// The journal's entries after the update.
    pub added: Vec<String>,
    /// Whether the PATH text changes.
    pub changed: bool,
}

/// A journal this installation may act on: known format and scope, its own two
/// directories, and claims of at most those.
pub open spec fn system_ownership_ok(o: SystemPathOwnership, paths: Seq<Seq<char>>) -> bool {
    &&& o.schema_version == 1
    &&& o.scope@ == "system"@
    &&& o.install_dir@ == paths[0]
    &&& o.shims_dir@ == paths[1]
    &&& o.added@.len() <= 2
    &&& forall|i: int| 0 <= i < o.added@.len() ==> paths.contains(#[trigger] o.added@[i]@)
}

/// Claiming one directory: it is recorded when no entry named it before and it is
/// not recorded yet. A directory that was already there is moved, never claimed.
pub open spec fn claim_step(es: Seq<Seq<char>>, added: Seq<Seq<char>>, p: Seq<char>) -> Seq<Seq<char>> {
    if !covered(es, p) && !added.contains(p) {
        added.push(p)
    } else {
        added
    }
}

/// The entries and journal after an update: adding moves both directories, the
/// program directory then the shims directory, behind every unrelated entry; removing
/// drops every entry naming a claimed directory and empties the journal.
pub open spec fn system_planned(add: bool, paths: Seq<Seq<char>>, added: Seq<Seq<char>>, text: Seq<char>) -> (
    Seq<Seq<char>>,
    Seq<Seq<char>>,
) {
    let es = path_entries(text);
    if add {
        (kept(es, paths) + paths, claim_step(es, claim_step(es, added, paths[0]), paths[1]))
    } else {
        (kept(es, added), Seq::empty())
    }
}

pub open spec fn foreign_system_journal_message() -> Seq<char> {
    "System PATH journal belongs to another installation"@
}

pub open spec fn system_too_long_message() -> Seq<char> {
    "Resulting system PATH exceeds the Windows limit"@
}

fn claim(es: &Vec<Vec<char>>, added: &mut Vec<Vec<char>>, p: &Vec<char>)
    ensures
        final(added)@.map_values(|v: Vec<char>| v@) == claim_step(
            es@.map_values(|v: Vec<char>| v@),
            old(added)@.map_values(|v: Vec<char>| v@),
            p@,
        ),
{
    if !is_covered(es, p.as_slice()) && !contains_text(added, p.as_slice()) {
        let ghost a0 = added@.map_values(|v: Vec<char>| v@);
        added.push(p.clone());
        proof {
            assert(added@.map_values(|v: Vec<char>| v@) =~= a0.push(p@));
        }
    }
}

/// Plans publishing this installation's program and shims directories in the machine
/// PATH, or removing the entries it claimed, from the current PATH text and the
/// ownership journal. `paths` holds the program directory, then the shims directory.
/// Removal with nothing claimed plans nothing (`None`).
pub fn plan_system_path(
    add: bool,
    paths: &[String; 2],
    ownership: &SystemPathOwnership,
    text: &str,
) -> (r: Result<Option<SystemPathPlan>>)
    ensures
        ({
            let ps = views(paths@);
            let ok = system_ownership_ok(*ownership, ps);
            let idle = !add && ownership.added@.len() == 0;
            let plan = system_planned(add, ps, views(ownership.added@), text@);
            let next = join_texts(plan.0, semicolon());
            &&& !ok ==> (r matches Err(e) && e.spec_kind() == ErrorKind::Usage && e.spec_message()
                == foreign_system_journal_message())
            &&& ok && idle ==> r == Ok::<Option<SystemPathPlan>, crate::error::Error>(None)
            &&& ok && !idle && utf16_len(next) >= 32766 ==> (r matches Err(e) && e.spec_kind()
                == ErrorKind::Usage && e.spec_message() == system_too_long_message())
            &&& ok && !idle && utf16_len(next) < 32766 ==> (r matches Ok(Some(p)) && p.next@ == next
                && views(p.added@) == plan.1 && p.changed == (next != text@))
        }),
{
    let ghost ps = views(paths@);
    let p0 = chars_of(paths[0].as_str());
    let p1 = chars_of(paths[1].as_str());
    proof {
        assert(ps[0] == p0@ && ps[1] == p1@);
    }
    let scope = chars_of(ownership.scope.as_str());
    let install = chars_of(ownership.install_dir.as_str());
    let shims = chars_of(ownership.shims_dir.as_str());
    if ownership.schema_version != 1 || !chars_eq_str(scope.as_slice(), "system") || !chars_eq(
        install.as_slice(),
        p0.as_slice(),
    ) || !chars_eq(shims.as_slice(), p1.as_slice()) || ownership.added.len() > 2 {
        return Err(invalid_input("System PATH journal belongs to another installation"));
    }
    let mut i: usize = 0;
    while i < ownership.added.len()
        invariant
            i <= ownership.added.len(),
            ps == views(paths@),
            ps.len() == 2,
            ps[0] == p0@ && ps[1] == p1@,
            forall|j: int| 0 <= j < i ==> ps.contains(#[trigger] ownership.added@[j]@),
        decreases ownership.added.len() - i,
    {
        let a = chars_of(ownership.added[i].as_str());
        if !chars_eq(a.as_slice(), p0.as_slice()) && !chars_eq(a.as_slice(), p1.as_slice()) {
            proof {
                if ps.contains(a@) {
                    let k = choose|k: int| 0 <= k < ps.len() && ps[k] == a@;
                    assert(k == 0 || k == 1);
                }
            }
            return Err(invalid_input("System PATH journal belongs to another installation"));
        }
        proof {
            if a@ == p0@ {
                assert(ps[0] == a@);
            } else {
                assert(ps[1] == a@);
            }
        }
        i = i + 1;
    }
    if !add && ownership.added.len() == 0 {
        return Ok(None);
    }
    let cs = chars_of(text);
    let es = entries(cs.as_slice());
    let mut added = texts_of(&ownership.added);
    let next_entries: Vec<Vec<char>>;
    let owned_after: Vec<Vec<char>>;
    if add {
        claim(&es, &mut added, &p0);
        claim(&es, &mut added, &p1);
        let mut targets: Vec<Vec<char>> = Vec::new();
        targets.push(p0.clone());
        targets.push(p1.clone());
        proof {
            assert(targets@.map_values(|v: Vec<char>| v@) =~= ps);
        }
        let mut moved = keep_unowned(&es, &targets);
        let ghost m0 = moved@.map_values(|v: Vec<char>| v@);
        moved.push(p0);
        moved.push(p1);
        proof {
            assert(moved@.map_values(|v: Vec<char>| v@) =~= m0 + ps);
        }
        next_entries = moved;
        owned_after = added;
    } else {
        next_entries = keep_unowned(&es, &added);
        owned_after = Vec::new();
        proof {
            assert(owned_after@.map_values(|v: Vec<char>| v@) =~= Seq::<Seq<char>>::empty());
        }
    }
    let mut next = String::new();
    push_joined(&mut next, next_entries.as_slice(), ";");
    proof {
        reveal_strlit(";");
        assert(";"@ =~= semicolon());
    }
    let next_chars = chars_of(next.as_str());
    if utf16_units_exceed(next_chars.as_slice(), 32765) {
        return Err(invalid_input("Resulting system PATH exceeds the Windows limit"));
    }
    let changed = !chars_eq(next_chars.as_slice(), cs.as_slice());
    Ok(Some(SystemPathPlan { next, added: strings_of(&owned_after), changed }))
}

/// Whether both directories are named by an entry of the PATH text, split at every `;`.
pub open spec fn published(text: Seq<char>, paths: Seq<Seq<char>>) -> bool {
    forall|k: int| 0 <= k < 2 ==> covered(split_on(text, ';'), #[trigger] paths[k])
}

pub open spec fn changed_again_message() -> Seq<char> {
    "System PATH changed again; rerun the installer"@
}

/// Confirms, after the elevated update, that the machine PATH names both directories.
pub fn check_published(paths: &[String; 2], text: &str) -> (r: Result<()>)
    ensures
        r is Ok <==> published(text@, views(paths@)),
        r matches Err(e) ==> e.spec_kind() == ErrorKind::Usage && e.spec_message()
            == changed_again_message(),
{
    let ghost ps = views(paths@);
    let cs = chars_of(text);
    let parts = split_chars(cs.as_slice(), ';');
    let p0 = chars_of(paths[0].as_str());
    let p1 = chars_of(paths[1].as_str());
    proof {
        assert(ps[0] == p0@ && ps[1] == p1@);
    }
    if !is_covered(&parts, p0.as_slice()) || !is_covered(&parts, p1.as_slice()) {
        return Err(invalid_input("System PATH changed again; rerun the installer"));
    }
    proof {
        assert forall|k: int| 0 <= k < 2 implies covered(split_on(text@, ';'), #[trigger] ps[k]) by {
            if k == 0 {
                assert(ps[k] == p0@);
            } else {
                assert(ps[k] == p1@);
            }
        }
    }
    Ok(())
}

/// Publishing this installation's directories in a machine PATH that names neither of
/// them claims at least one entry, and then removing the claimed entries gives back the
/// original text.
pub proof fn system_path_add_then_remove_restores(paths: Seq<Seq<char>>, text: Seq<char>)
    requires
        paths.len() == 2,
        forall|k: int| 0 <= k < 2 ==> !has_char(#[trigger] paths[k], ';') && !has_char(paths[k], '"'),
        !covered(path_entries(text), paths[0]),
        !covered(path_entries(text), paths[1]),
    ensures
        ({
            let added = system_planned(true, paths, Seq::empty(), text);
            let next = join_texts(added.0, semicolon());
            &&& added.1.len() > 0
            &&& join_texts(system_planned(false, paths, added.1, next).0, semicolon()) == text
        }),
{
    let es = path_entries(text);
    let p0 = paths[0];
    let p1 = paths[1];
    let added = system_planned(true, paths, Seq::empty(), text);
    let owned = added.1;
    let first = claim_step(es, Seq::empty(), p0);
    assert(first =~= seq![p0]);
    assert(owned == claim_step(es, first, p1));
    if p1 == p0 {
        assert(first.contains(p1)) by {
            assert(first[0] == p1);
        }
        assert(owned =~= seq![p0]);
    } else {
        assert(owned =~= seq![p0, p1]);
    }
    lemma_same_entry_itself(p0);
    lemma_same_entry_itself(p1);
    lemma_split_on_shape(text, ';');
    assert forall|i: int, j: int| 0 <= i < es.len() && 0 <= j < paths.len() implies !same_entry(
        #[trigger] es[i],
        #[trigger] paths[j],
    ) by {
        if same_entry(es[i], paths[j]) {
            if j == 0 {
                assert(covered(es, p0));
            } else {
                assert(covered(es, p1));
            }
        }
    }
    lemma_kept_none_owned(es, paths);
    assert forall|i: int, j: int| 0 <= i < es.len() && 0 <= j < owned.len() implies !same_entry(
        #[trigger] es[i],
        #[trigger] owned[j],
    ) by {
        assert(owned[j] == p0 || owned[j] == p1);
        if same_entry(es[i], owned[j]) {
            if owned[j] == p0 {
                assert(covered(es, p0));
            } else {
                assert(covered(es, p1));
            }
        }
    }
    lemma_kept_none_owned(es, owned);
    let e2 = added.0;
    assert(e2 =~= es + paths);
    assert(kept(paths, owned) =~= Seq::<Seq<char>>::empty()) by {
        reveal_with_fuel(kept, 3);
        assert(paths.drop_last() =~= seq![p0]);
        assert(paths.drop_last().drop_last() =~= Seq::<Seq<char>>::empty());
        assert(owned[0] == p0);
        assert(same_entry(paths.drop_last().last(), owned[0]));
        if p1 == p0 {
            assert(same_entry(paths.last(), owned[0]));
        } else {
            assert(owned[1] == p1);
            assert(same_entry(paths.last(), owned[1]));
        }
    }
    lemma_kept_concat(es, paths, owned);
    assert(kept(e2, owned) =~= es);
    let next = join_texts(e2, semicolon());
    assert forall|i: int| 0 <= i < e2.len() implies !has_char(#[trigger] e2[i], ';') by {
        if i < es.len() {
            assert(e2[i] == es[i]);
            if text.len() > 0 {
                assert(es == split_on(text, ';'));
            }
        } else {
            assert(e2[i] == paths[i - es.len()]);
        }
    }
    assert(semicolon() == seq![';']);
    lemma_split_join(e2, ';');
    lemma_join_nonempty(e2);
    assert(path_entries(next) == e2);
    assert(system_planned(false, paths, owned, next).0 == es);
    if text.len() > 0 {
        lemma_join_split(text, ';');
    }
}

} // verus!
