use vstd::prelude::*;

use crate::engine::{assign_step, lookup_step, remove_step, Assignment, ChildrenLookup, Removal};
use crate::label::{root_id, Label};
use crate::store::{Step, StoreCall, StoreReply};

verus! {

/// A store that answers every call: its labels, its part requests, and the
/// (request id, label id) pairs of its assignment sets.
pub struct StoreModel {
    pub labels: Seq<Label>,
    pub requests: Set<Seq<char>>,
    pub assigned: Set<(Seq<char>, Seq<char>)>,
}

/// Label ids are unique, and no label is stored under the root's id.
pub open spec fn model_wf(m: StoreModel) -> bool {
    &&& forall|i: int, j: int|
        0 <= i < m.labels.len() && 0 <= j < m.labels.len() && #[trigger] m.labels[i].id@
            == #[trigger] m.labels[j].id@ ==> i == j
    &&& forall|i: int| 0 <= i < m.labels.len() ==> #[trigger] m.labels[i].id@ != root_id()
}

/// Some label of the store has the id `x`.
pub open spec fn has_label(m: StoreModel, x: Seq<char>) -> bool {
    exists|l: Label| #[trigger] m.labels.contains(l) && l.id@ == x
}

/// The store after `(r, x)` is added to its assignments.
pub open spec fn with_assignment(m: StoreModel, r: Seq<char>, x: Seq<char>) -> StoreModel {
    StoreModel { labels: m.labels, requests: m.requests, assigned: m.assigned.insert((r, x)) }
}

/// The store after `(r, x)` is taken out of its assignments.
pub open spec fn without_assignment(m: StoreModel, r: Seq<char>, x: Seq<char>) -> StoreModel {
    StoreModel { labels: m.labels, requests: m.requests, assigned: m.assigned.remove((r, x)) }
}

/// How the store `m` answers `call` with `reply`, becoming `m2`.
pub open spec fn answers(m: StoreModel, call: StoreCall, reply: StoreReply, m2: StoreModel) -> bool {
    match call {
        StoreCall::RequestExists(r) => reply == StoreReply::Flag(m.requests.contains(r@)) && m2 == m,
        StoreCall::LabelExists(x) => reply == StoreReply::Flag(has_label(m, x@)) && m2 == m,
        StoreCall::GetLabel(x) => m2 == m && match reply {
            StoreReply::Found(None) => !has_label(m, x@),
            StoreReply::Found(Some(l)) => m.labels.contains(l) && l.id@ == x@,
            _ => false,
        },
        StoreCall::ChildrenOf(x) => m2 == m && match reply {
            StoreReply::Labels(v) => forall|l: Label|
                #[trigger] v@.contains(l) <==> m.labels.contains(l) && l.parent@ == x@,
            _ => false,
        },
        StoreCall::AssignedLabels(r) => m2 == m && match reply {
            StoreReply::Labels(v) => forall|l: Label|
                #[trigger] v@.contains(l) <==> m.labels.contains(l) && m.assigned.contains((r@, l.id@)),
            _ => false,
        },
        StoreCall::AddAssignment(r, x) => reply == StoreReply::Added && m2 == with_assignment(m, r@, x@),
        StoreCall::RemoveAssignment(r, x) => reply == StoreReply::Removed(
            if m.assigned.contains((r@, x@)) {
                1u64
            } else {
                0u64
            },
        ) && m2 == without_assignment(m, r@, x@),
    }
}

/// The id that the ancestor walk asks for after fetching `chain`.
pub open spec fn next_id(label_id: Seq<char>, chain: Seq<Label>) -> Seq<char> {
    if chain.len() == 0 {
        label_id
    } else {
        chain.last().parent@
    }
}

/// `chain` climbs from the label `label_id` through stored labels: each label is the
/// parent of the one before, and none but the last hangs below the root.
pub open spec fn is_chain_prefix(labels: Seq<Label>, label_id: Seq<char>, chain: Seq<Label>) -> bool {
    &&& forall|j: int| 0 <= j < chain.len() ==> labels.contains(#[trigger] chain[j])
    &&& forall|j: int| 0 <= j < chain.len() ==> (#[trigger] chain[j]).id@ == next_id(label_id, chain.take(j))
    &&& forall|j: int| 0 <= j < chain.len() - 1 ==> (#[trigger] chain[j]).parent@ != root_id()
}

/// `chain` is the whole ancestor chain of `label_id`: it climbs up to a label below the root.
pub open spec fn is_full_chain(labels: Seq<Label>, label_id: Seq<char>, chain: Seq<Label>) -> bool {
    &&& is_chain_prefix(labels, label_id, chain)
    &&& chain.len() > 0
    &&& chain.last().parent@ == root_id()
}

/// The assignments `a` with the request `r` given the first `k` labels of `chain`.
pub open spec fn added(a: Set<(Seq<char>, Seq<char>)>, r: Seq<char>, chain: Seq<Label>, k: int) -> Set<
    (Seq<char>, Seq<char>),
> {
    a.union(Set::new(|p: (Seq<char>, Seq<char>)| exists|j: int| 0 <= j < k && p == (r, chain[j].id@)))
}

/// One move of an assignment run: the store answers the call of step `i`, and the
/// session moves on that answer.
pub open spec fn assign_link(
    stores: Seq<StoreModel>,
    states: Seq<Assignment>,
    steps: Seq<Step<()>>,
    replies: Seq<StoreReply>,
    i: int,
) -> bool {
    &&& steps[i] matches Step::Call(c) && answers(stores[i], c, replies[i], stores[i + 1])
    &&& assign_step(states[i], replies[i], states[i + 1], steps[i + 1])
}

/// A complete run of `update_request_labels(request_id, label_id)` against a store
/// that answers every call: the stores, session states and steps before and after
/// each reply, ending in a result.
pub open spec fn assign_run(
    request_id: String,
    label_id: String,
    stores: Seq<StoreModel>,
    states: Seq<Assignment>,
    steps: Seq<Step<()>>,
    replies: Seq<StoreReply>,
) -> bool {
    &&& stores.len() == replies.len() + 1
    &&& states.len() == replies.len() + 1
    &&& steps.len() == replies.len() + 1
    &&& states[0].request_id == request_id
    &&& states[0].label_id == label_id
    &&& states[0].phase is CheckRequest
    &&& states[0].chain@.len() == 0
    &&& steps[0] == Step::<()>::Call(StoreCall::RequestExists(request_id))
    &&& forall|i: int| 0 <= i < replies.len() ==> #[trigger] assign_link(stores, states, steps, replies, i)
    &&& steps.last() is Done
}

/// A complete run of `get_labels(label_id)` against a store that answers every call.
pub open spec fn lookup_run(
    label_id: String,
    stores: Seq<StoreModel>,
    states: Seq<ChildrenLookup>,
    steps: Seq<Step<Vec<Label>>>,
    replies: Seq<StoreReply>,
) -> bool {
    &&& stores.len() == replies.len() + 1
    &&& states.len() == replies.len() + 1
    &&& steps.len() == replies.len() + 1
    &&& states[0].label_id == label_id
    &&& label_id@ == root_id() ==> steps[0] == Step::<Vec<Label>>::Call(StoreCall::ChildrenOf(label_id))
    &&& label_id@ != root_id() ==> steps[0] == Step::<Vec<Label>>::Call(StoreCall::LabelExists(label_id))
    &&& states[0].phase == (if label_id@ == root_id() {
        crate::engine::LookupPhase::Listing
    } else {
        crate::engine::LookupPhase::Checking
    })
    &&& forall|i: int| 0 <= i < replies.len() ==> #[trigger] lookup_link(stores, states, steps, replies, i)
    &&& steps.last() is Done
}

/// One move of a lookup run.
pub open spec fn lookup_link(
    stores: Seq<StoreModel>,
    states: Seq<ChildrenLookup>,
    steps: Seq<Step<Vec<Label>>>,
    replies: Seq<StoreReply>,
    i: int,
) -> bool {
    &&& steps[i] matches Step::Call(c) && answers(stores[i], c, replies[i], stores[i + 1])
    &&& lookup_step(states[i], replies[i], states[i + 1], steps[i + 1])
}

/// One move of a removal run.
pub open spec fn remove_link(
    stores: Seq<StoreModel>,
    states: Seq<Removal>,
    steps: Seq<Step<()>>,
    replies: Seq<StoreReply>,
    i: int,
) -> bool {
    &&& steps[i] matches Step::Call(c) && answers(stores[i], c, replies[i], stores[i + 1])
    &&& remove_step(states[i], replies[i], states[i + 1], steps[i + 1])
}

/// A complete run of `remove_request_labels(request_id, label_id)`, for a label other
/// than the root, against a store that answers every call.
pub open spec fn remove_run(
    request_id: String,
    label_id: String,
    stores: Seq<StoreModel>,
    states: Seq<Removal>,
    steps: Seq<Step<()>>,
    replies: Seq<StoreReply>,
) -> bool {
    &&& stores.len() == replies.len() + 1
    &&& states.len() == replies.len() + 1
    &&& steps.len() == replies.len() + 1
    &&& states[0].request_id == request_id
    &&& states[0].label_id == label_id
    &&& states[0].phase == crate::engine::RemovePhase::CheckRequest
    &&& states[0].plan@.len() == 0
    &&& steps[0] == Step::<()>::Call(StoreCall::RequestExists(request_id))
    &&& forall|i: int| 0 <= i < replies.len() ==> #[trigger] remove_link(stores, states, steps, replies, i)
    &&& steps.last() is Done
}

} // verus!
