//! Finding the registration a management command names, whatever its health.
use vstd::prelude::*;

use crate::error::{invalid_input, Error, ErrorKind, Result};
use crate::runtime::{runtime_id_text, runtime_id_text_is_injective, RuntimeId, RuntimeRecord};
use crate::selector::{
    candidate_ids, candidates, conflict_hint, conflict_message, is_candidate, is_latest,
    not_installed_hint, not_installed_message, record_version, selection_outcome, selects,
    spec_parse_selector, RuntimeSelection, SelectorView, VersionSelector,
};
use crate::text::lower_seq;

verus! {

/// The runtime ID a text spells in any ASCII case, if it spells one.
pub open spec fn denoted_id(t: Seq<char>) -> Option<RuntimeId> {
    if exists|id: RuntimeId| id.is_wf() && #[trigger] runtime_id_text(id) == lower_seq(t) {
        Some(choose|id: RuntimeId| id.is_wf() && #[trigger] runtime_id_text(id) == lower_seq(t))
    } else {
        None
    }
}

/// The position of the first record with the ID, or -1.
pub open spec fn first_with_id(rs: Seq<RuntimeRecord>, id: RuntimeId) -> int
    decreases rs.len(),
{
    if rs.len() == 0 {
        -1
    } else {
        let k = first_with_id(rs.drop_last(), id);
        if k >= 0 {
            k
        } else if rs.last().spec_id() == id {
            rs.len() - 1
        } else {
            -1
        }
    }
}

pub open spec fn unregistered_message() -> Seq<char> {
    "Runtime is not registered"@
}

pub open spec fn expected_registered_message() -> Seq<char> {
    "Expected a registered runtime"@
}

/// The position of the record `find_any` answers with, or -1 when it fails.
pub open spec fn find_any_index(rs: Seq<RuntimeRecord>, t: Seq<char>) -> int {
    match denoted_id(t) {
        Some(id) => first_with_id(rs, id),
        None => match spec_parse_selector(t) {
            None => -1,
            Some(s) => {
                let c = candidates(s, rs);
                if s is System || (s matches SelectorView::Exact(v) && !v.spec_is_stable()) || c.len() != 1 {
                    -1
                } else {
                    first_with_id(rs, c[0].spec_id())
                }
            },
        },
    }
}

/// What `find_any` answers: a runtime ID names the first record with that ID;
/// any other selector chooses as selection does when every record counted as
/// ready, and names the first record with the chosen ID.
pub open spec fn find_any_outcome(rs: Seq<RuntimeRecord>, t: Seq<char>, r: Result<&RuntimeRecord>) -> bool {
    match denoted_id(t) {
        Some(id) => if first_with_id(rs, id) >= 0 {
            r matches Ok(rec) && *rec == rs[first_with_id(rs, id)]
        } else {
            r matches Err(e) && e.spec_kind() == ErrorKind::NotInstalled && e.spec_message()
                == unregistered_message()
        },
        None => match spec_parse_selector(t) {
            None => r matches Err(e) && e.spec_kind() == ErrorKind::Usage,
            Some(s) => {
                let c = candidates(s, rs);
                if s is System {
                    r matches Err(e) && e.spec_kind() == ErrorKind::Usage && e.spec_message()
                        == expected_registered_message()
                } else if s matches SelectorView::Exact(v) && !v.spec_is_stable() {
                    r matches Err(e) && e.spec_kind() == ErrorKind::Usage
                } else if c.len() == 0 {
                    r matches Err(e) && e.spec_kind() == ErrorKind::NotInstalled && e.spec_message()
                        == not_installed_message(s) && e.spec_hint() == Some(not_installed_hint())
                } else if c.len() == 1 {
                    r matches Ok(rec) && *rec == rs[first_with_id(rs, c[0].spec_id())]
                } else {
                    r matches Err(e) && e.spec_kind() == ErrorKind::Conflict && e.spec_message()
                        == conflict_message(s, candidate_ids(s, rs)) && e.spec_hint() == Some(
                        conflict_hint(),
                    )
                }
            },
        },
    }
}

pub proof fn lemma_first_with_id(rs: Seq<RuntimeRecord>, id: RuntimeId)
    ensures
        -1 <= first_with_id(rs, id) < rs.len(),
        first_with_id(rs, id) >= 0 ==> rs[first_with_id(rs, id)].spec_id() == id,
        forall|j: int| 0 <= j < rs.len() && (first_with_id(rs, id) < 0 || j < first_with_id(rs, id))
            ==> (#[trigger] rs[j]).spec_id() != id,
    decreases rs.len(),
{
    if rs.len() > 0 {
        lemma_first_with_id(rs.drop_last(), id);
        assert forall|j: int| 0 <= j < rs.len() - 1 implies rs.drop_last()[j] == rs[j] by {}
    }
}

/// Records that agree on identity and aliases yield the same candidates, whatever
/// their health.
proof fn lemma_filter_agree(
    a: Seq<RuntimeRecord>,
    b: Seq<RuntimeRecord>,
    p: spec_fn(RuntimeRecord) -> bool,
    q: spec_fn(RuntimeRecord) -> bool,
)
    requires
        a.len() == b.len(),
        forall|i: int| 0 <= i < a.len() ==> (#[trigger] p(a[i])) == q(b[i]) && a[i].spec_id() == b[i].spec_id(),
    ensures
        a.filter(p).len() == b.filter(q).len(),
        forall|k: int| 0 <= k < a.filter(p).len() ==> (#[trigger] a.filter(p)[k]).spec_id() == b.filter(
            q,
        )[k].spec_id(),
    decreases a.len(),
{
    reveal(Seq::filter);
    if a.len() > 0 {
        let a0 = a.drop_last();
        let b0 = b.drop_last();
        assert forall|i: int| 0 <= i < a0.len() implies (#[trigger] p(a0[i])) == q(b0[i]) && a0[i].spec_id()
            == b0[i].spec_id() by {
            assert(a0[i] == a[i]);
            assert(b0[i] == b[i]);
            assert(p(a[i]) == q(b[i]));
        }
        lemma_filter_agree(a0, b0, p, q);
        assert(p(a[a.len() - 1]) == q(b[b.len() - 1]));
    }
}

proof fn lemma_filter_members(a: Seq<RuntimeRecord>, p: spec_fn(RuntimeRecord) -> bool)
    ensures
        forall|k: int| 0 <= k < a.filter(p).len() ==> a.contains(#[trigger] a.filter(p)[k]),
    decreases a.len(),
{
    reveal(Seq::filter);
    if a.len() > 0 {
        let a0 = a.drop_last();
        lemma_filter_members(a0, p);
        assert forall|k: int| 0 <= k < a.filter(p).len() implies a.contains(#[trigger] a.filter(p)[k]) by {
            if k < a0.filter(p).len() {
                let x = a0.filter(p)[k];
                assert(a0.contains(x));
                let j = choose|j: int| 0 <= j < a0.len() && a0[j] == x;
                assert(a[j] == x);
            } else {
                assert(a[a.len() - 1] == a.filter(p)[k]);
            }
        }
    }
}

proof fn lemma_ready_candidates(s: SelectorView, rs: Seq<RuntimeRecord>, qs: Seq<RuntimeRecord>)
    requires
        rs.len() == qs.len(),
        forall|i: int| 0 <= i < rs.len() ==> (#[trigger] qs[i]).spec_id() == rs[i].spec_id()
            && qs[i].spec_aliases() == rs[i].spec_aliases(),
    ensures
        candidates(s, qs).len() == candidates(s, rs).len(),
        forall|k: int| 0 <= k < candidates(s, qs).len() ==> (#[trigger] candidates(s, qs)[k]).spec_id()
            == candidates(s, rs)[k].spec_id(),
        candidate_ids(s, qs) == candidate_ids(s, rs),
        forall|k: int| 0 <= k < candidates(s, qs).len() ==> qs.contains(#[trigger] candidates(s, qs)[k]),
        forall|k: int| 0 <= k < candidates(s, rs).len() ==> rs.contains(#[trigger] candidates(s, rs)[k]),
{
    let p = |r: RuntimeRecord| is_candidate(s, qs, r);
    let q = |r: RuntimeRecord| is_candidate(s, rs, r);
    assert forall|i: int| 0 <= i < qs.len() implies (#[trigger] p(qs[i])) == q(rs[i]) && qs[i].spec_id()
        == rs[i].spec_id() by {
        assert(selects(s, qs[i]) == selects(s, rs[i]));
        assert forall|j: int| 0 <= j < rs.len() implies selects(s, #[trigger] qs[j]) == selects(s, rs[j]) by {
            assert(qs[j].spec_id() == rs[j].spec_id());
        }
        assert(is_latest(s, qs, qs[i]) == is_latest(s, rs, rs[i])) by {
            assert(record_version(qs[i]) == record_version(rs[i]));
            if is_latest(s, rs, rs[i]) {
                assert forall|j: int| 0 <= j < qs.len() && selects(s, #[trigger] qs[j]) implies !crate::version::version_lt(
                    record_version(qs[i]),
                    record_version(qs[j]),
                ) by {
                    assert(selects(s, rs[j]));
                    assert(record_version(qs[j]) == record_version(rs[j]));
                }
            }
            if is_latest(s, qs, qs[i]) {
                assert forall|j: int| 0 <= j < rs.len() && selects(s, #[trigger] rs[j]) implies !crate::version::version_lt(
                    record_version(rs[i]),
                    record_version(rs[j]),
                ) by {
                    assert(selects(s, qs[j]));
                    assert(record_version(qs[j]) == record_version(rs[j]));
                }
            }
        }
    }
    lemma_filter_agree(qs, rs, p, q);
    assert(candidates(s, qs) == qs.filter(p));
    assert(candidates(s, rs) == rs.filter(q));
    assert(candidate_ids(s, qs) =~= candidate_ids(s, rs));
    lemma_filter_members(qs, p);
    lemma_filter_members(rs, q);
}

/// The first record with the ID, when there is one.
pub(crate) fn find_by_id<'a>(runtimes: &'a [RuntimeRecord], id: &RuntimeId) -> (r: Option<&'a RuntimeRecord>)
    ensures
        first_with_id(runtimes@, *id) >= 0 ==> (r matches Some(rec) && *rec == runtimes@[first_with_id(
            runtimes@,
            *id,
        )]),
        first_with_id(runtimes@, *id) < 0 ==> r is None,
{
    proof {
        lemma_first_with_id(runtimes@, *id);
    }
    let mut i: usize = 0;
    while i < runtimes.len()
        invariant
            i <= runtimes.len(),
            -1 <= first_with_id(runtimes@, *id) < runtimes@.len(),
            first_with_id(runtimes@, *id) >= 0 ==> runtimes@[first_with_id(runtimes@, *id)].spec_id() == *id,
            forall|j: int| 0 <= j < runtimes@.len() && (first_with_id(runtimes@, *id) < 0 || j
                < first_with_id(runtimes@, *id)) ==> (#[trigger] runtimes@[j]).spec_id() != *id,
            forall|j: int| 0 <= j < i ==> (#[trigger] runtimes@[j]).spec_id() != *id,
        decreases runtimes.len() - i,
    {
        if runtimes[i].id() == id {
            return Some(&runtimes[i]);
        }
        i = i + 1;
    }
    None
}

/// Finds the registration a management command names: by exact runtime ID, or by a
/// selector applied as if every registration were ready, so that a broken runtime
/// can still be repaired or removed.
pub fn find_any<'a>(runtimes: &'a [RuntimeRecord], version: &str) -> (r: Result<&'a RuntimeRecord>)
    ensures
        find_any_outcome(runtimes@, version@, r),
        r is Ok <==> find_any_index(runtimes@, version@) >= 0,
        r matches Ok(rec) ==> *rec == runtimes@[find_any_index(runtimes@, version@)],
{
    if let Ok(id) = RuntimeId::parse(version) {
        proof {
            assert(denoted_id(version@) == Some(id)) by {
                let w = choose|w: RuntimeId| w.is_wf() && #[trigger] runtime_id_text(w) == lower_seq(version@);
                runtime_id_text_is_injective(id, w);
            }
        }
        return match find_by_id(runtimes, &id) {
            Some(rec) => Ok(rec),
            None => Err(Error::new(ErrorKind::NotInstalled, "Runtime is not registered")),
        };
    }
    proof {
        assert(denoted_id(version@) is None);
    }
    let mut ready: Vec<RuntimeRecord> = Vec::new();
    let mut i: usize = 0;
    while i < runtimes.len()
        invariant
            i <= runtimes.len(),
            ready@.len() == i,
            forall|j: int| 0 <= j < i ==> (#[trigger] ready@[j]).spec_id() == runtimes@[j].spec_id()
                && ready@[j].spec_aliases() == runtimes@[j].spec_aliases() && ready@[j].spec_health() is Ready,
        decreases runtimes.len() - i,
    {
        ready.push(runtimes[i].ready_copy());
        i = i + 1;
    }
    let selector = match VersionSelector::parse(version) {
        Ok(s) => s,
        Err(e) => return Err(e),
    };
    proof {
        crate::selector::lemma_spec_parse_selector(version@, selector@);
        lemma_ready_candidates(selector@, runtimes@, ready@);
        let c = candidates(selector@, ready@);
        if c.len() > 0 {
            assert(ready@.contains(c[0]));
            let j = choose|j: int| 0 <= j < ready@.len() && ready@[j] == c[0];
            assert(c[0].spec_health() is Ready);
            let d = candidates(selector@, runtimes@);
            assert(runtimes@.contains(d[0]));
            let m = choose|m: int| 0 <= m < runtimes@.len() && runtimes@[m] == d[0];
            lemma_first_with_id(runtimes@, d[0].spec_id());
            assert(runtimes@[m].spec_id() == d[0].spec_id());
            assert(first_with_id(runtimes@, d[0].spec_id()) >= 0);
        }
    }
    let chosen = match selector.select(ready.as_slice()) {
        Ok(RuntimeSelection::Registered(rec)) => rec.id(),
        Ok(RuntimeSelection::SystemRequested) => {
            return Err(invalid_input("Expected a registered runtime"));
        },
        Err(e) => return Err(e),
    };
    match find_by_id(runtimes, chosen) {
        Some(rec) => Ok(rec),
        None => Err(invalid_input("Missing selected registration")),
    }
}

} // verus!
