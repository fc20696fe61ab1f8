//! The project-link resolver: from an issue's timeline events, decide
//! whether the issue is currently linked to a project, and if so through
//! which actor and which project URL.
//!
//! The most recent "added to project" / "removed from project" event wins;
//! events are ordered by timestamp, with ties broken by fetch order. The
//! ordering is obtained from itertools' stable sort, whose contract below
//! is the one trusted item of this crate.

use vstd::prelude::*;
use itertools::Itertools;
use crate::types::{Error, EventKind, Issue, IssueEvent, User};

verus! {

/// Whether an event links or unlinks a project; every other kind is
/// ignored by the resolver.
pub open spec fn is_link_event(e: IssueEvent) -> bool {
    e.event == EventKind::AddedToProject || e.event == EventKind::RemovedFromProject
}

/// The event at index `i` is the most recent project-link event of `v`:
/// no other link event is later, and among simultaneous ones none stands
/// after it in fetch order.
pub open spec fn link_chosen(v: Seq<IssueEvent>, i: int) -> bool {
    &&& 0 <= i < v.len()
    &&& is_link_event(v[i])
    &&& forall|j: int|
        0 <= j < v.len() && is_link_event(#[trigger] v[j]) ==> v[j].created_at
            < v[i].created_at || (v[j].created_at == v[i].created_at && j <= i)
}

/// An addition event that actually carries a resolvable project reference.
pub open spec fn usable_link(e: IssueEvent) -> bool {
    &&& e.event == EventKind::AddedToProject
    &&& e.project_card matches Some(c) && c.project_url is Some
}

/// Whether the issue whose timeline is `v` is currently linked to a
/// project: its most recent link event is an addition with a usable
/// project reference.
pub open spec fn spec_linked(v: Seq<IssueEvent>) -> bool {
    exists|i: int| #[trigger] link_chosen(v, i) && usable_link(v[i])
}

/// `r` is a stable ascending reordering of `v` by `created_at`: `idx` maps
/// sorted positions to original ones, `pos` is its inverse, keys ascend,
/// and equal keys keep their original order.
pub open spec fn stable_sort_rel(
    v: Seq<IssueEvent>,
    r: Seq<IssueEvent>,
    idx: Seq<int>,
    pos: Seq<int>,
) -> bool {
    &&& r.len() == v.len()
    &&& idx.len() == v.len()
    &&& pos.len() == v.len()
    &&& forall|k: int| 0 <= k < v.len() ==> 0 <= #[trigger] idx[k] < v.len() && r[k] == v[idx[k]]
    &&& forall|j: int| 0 <= j < v.len() ==> 0 <= #[trigger] pos[j] < v.len() && idx[pos[j]] == j
    &&& forall|k: int| 0 <= k < v.len() ==> #[trigger] pos[idx[k]] == k
    &&& forall|k1: int, k2: int|
        #![trigger r[k1], r[k2]]
        0 <= k1 < k2 < v.len() ==> r[k1].created_at <= r[k2].created_at
    &&& forall|j1: int, j2: int|
        #![trigger pos[j1], pos[j2]]
        0 <= j1 < j2 < v.len() && v[j1].created_at == v[j2].created_at ==> pos[j1] < pos[j2]
}

/// Relies on `itertools::Itertools::sorted_by_key` (which sorts through
/// `slice::sort_by_key`): an ascending sort by `created_at` that is stable,
/// so the output relates to the input by an index bijection that preserves
/// elements, orders keys and keeps equal keys in fetch order.
#[verifier::external_body]
fn sorted_by_created_at(events: &Vec<IssueEvent>) -> (r: Vec<IssueEvent>)
    ensures
        exists|idx: Seq<int>, pos: Seq<int>| stable_sort_rel(events@, r@, idx, pos),
{
    events.iter().cloned().sorted_by_key(|e| e.created_at).collect()
}

/// Resolves the project link of `issue` from its timeline `events`.
///
/// Fails exactly when the issue has no number; otherwise returns the actor
/// and project URL of the most recent link event when that event is an
/// addition carrying a project reference, and `None` when the issue is
/// unlinked: no link event at all, the most recent one is a removal, or
/// the addition carries no usable reference.
pub fn issue_actor_and_project(issue: &Issue, events: &Vec<IssueEvent>) -> (r: Result<
    Option<(User, String)>,
    Error,
>)
    ensures
        r is Err <==> issue.number is None,
        r matches Err(e) ==> e == Error::MissingData,
        r matches Ok(o) ==> (o is Some <==> spec_linked(events@)),
        r matches Ok(o) ==> (o matches Some(p) ==> exists|i: int|
            #![trigger link_chosen(events@, i)]
            link_chosen(events@, i) && usable_link(events@[i]) && p.0.id == events@[i].actor.id
                && p.0.login@ == events@[i].actor.login@ && p.1@ == events@[i].project_card->0.project_url->0@),
{
    if issue.number.is_none() {
        return Err(Error::MissingData);
    }
    let sorted = sorted_by_created_at(events);
    let ghost v = events@;
    let ghost rv = sorted@;
    let ghost (idx, pos) = choose|idx: Seq<int>, pos: Seq<int>| stable_sort_rel(v, rv, idx, pos);
    let n = sorted.len();
    let mut k = n;
    while k > 0
        invariant
            issue.number is Some,
            stable_sort_rel(v, rv, idx, pos),
            v == events@,
            rv == sorted@,
            n == rv.len(),
            0 <= k <= n,
            forall|m: int| k <= m < rv.len() ==> !is_link_event(#[trigger] rv[m]),
        decreases k,
    {
        k = k - 1;
        let e = &sorted[k];
        if e.event == EventKind::AddedToProject || e.event == EventKind::RemovedFromProject {
            proof {
                let i = idx[k as int];
                assert(rv[k as int] == v[i]);
                assert forall|j: int|
                    0 <= j < v.len() && is_link_event(#[trigger] v[j]) implies v[j].created_at
                        < v[i].created_at || (v[j].created_at == v[i].created_at && j <= i) by {
                    assert(idx[pos[j]] == j);
                    assert(rv[pos[j]] == v[j]);
                    assert(pos[j] <= k as int);
                    assert(pos[i] == k as int);
                    if pos[j] < k as int {
                        assert(v[j].created_at <= v[i].created_at);
                        if v[j].created_at == v[i].created_at && j > i {
                            assert(pos[i] < pos[j]);
                        }
                    } else {
                        assert(j == i);
                    }
                }
                assert(link_chosen(v, i));
            }
            let ghost i = idx[k as int];
            if e.event == EventKind::AddedToProject {
                match &e.project_card {
                    Some(card) => {
                        match &card.project_url {
                            Some(url) => {
                                let actor = User { id: e.actor.id, login: e.actor.login.clone() };
                                proof {
                                    assert(usable_link(v[i]));
                                    assert(link_chosen(v, i) && usable_link(v[i]));
                                }
                                return Ok(Some((actor, url.clone())));
                            }
                            None => {
                                proof {
                                    lemma_chosen_unlinked(v, i);
                                }
                                return Ok(None);
                            }
                        }
                    }
                    None => {
                        proof {
                            lemma_chosen_unlinked(v, i);
                        }
                        return Ok(None);
                    }
                }
            } else {
                proof {
                    lemma_chosen_unlinked(v, i);
                }
                return Ok(None);
            }
        }
    }
    proof {
        if spec_linked(v) {
            let i = choose|i: int| #[trigger] link_chosen(v, i) && usable_link(v[i]);
            assert(rv[pos[i]] == v[i]);
        }
    }
    Ok(None)
}

/// When the most recent link event is itself no usable addition, the issue
/// is unlinked: no other index can be the chosen one.
proof fn lemma_chosen_unlinked(v: Seq<IssueEvent>, i: int)
    requires
        link_chosen(v, i),
        !usable_link(v[i]),
    ensures
        !spec_linked(v),
{
    assert forall|j: int| !(#[trigger] link_chosen(v, j) && usable_link(v[j])) by {
        if link_chosen(v, j) && usable_link(v[j]) {
            assert(is_link_event(v[j]));
            assert(is_link_event(v[i]));
            assert(j == i);
        }
    }
}

} // verus!
