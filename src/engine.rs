use vstd::prelude::*;

use crate::hierarchy::{ids, is_removal_order, remove_label_tree};
use crate::label::{is_root, root_id, Label};
use crate::store::{
    unexpected, unexpected_error, EngineError, Step, StoreCall, StoreReply, MAX_LABEL_DEPTH,
};

verus! {

// ---------------------------------------------------------------------------
// Ancestor chain

/// What one step of the ancestor walk does with the label fetched for `id`.
pub open spec fn walk_result(
    id: String,
    fetched: Option<Label>,
    before: Seq<Label>,
    after: Seq<Label>,
    r: Result<Option<String>, EngineError>,
) -> bool {
    if id@ == root_id() {
        r == Ok::<Option<String>, EngineError>(None) && after == before
    } else {
        match fetched {
        None => r == Err::<Option<String>, EngineError>(EngineError::LabelNotFound(id)) && after == before,
        Some(l) => if l.id@ != id@ {
            r == Err::<Option<String>, EngineError>(EngineError::UnexpectedReply) && after == before
        } else if before.len() >= MAX_LABEL_DEPTH {
            r == Err::<Option<String>, EngineError>(EngineError::ChainTooDeep(id)) && after == before
        } else {
            &&& after == before.push(l)
            &&& l.parent@ == root_id() ==> r == Ok::<Option<String>, EngineError>(None)
            &&& l.parent@ != root_id() ==> r == Ok::<Option<String>, EngineError>(Some(l.parent))
        },
        }
    }
}

/// One step of the walk from a label up to the root: `fetched` is what the label store
/// returned for `id`. The label joins the chain in `labels`, and the result names the
/// parent to fetch next, or `None` once the parent is the root. The root id itself is
/// never looked up: for it the walk is over, with `labels` as it was.
pub fn retrieve_label_tree(id: &String, fetched: Option<Label>, labels: &mut Vec<Label>) -> (r:
    Result<Option<String>, EngineError>)
    ensures
        walk_result(*id, fetched, old(labels)@, final(labels)@, r),
{
    if is_root(id) {
        return Ok(None);
    }
    match fetched {
        None => Err(EngineError::LabelNotFound(id.clone())),
        Some(l) => {
            if l.id != *id {
                Err(EngineError::UnexpectedReply)
            } else if labels.len() >= MAX_LABEL_DEPTH {
                Err(EngineError::ChainTooDeep(id.clone()))
            } else {
                let top = l.is_top_level();
                let parent = l.parent.clone();
                labels.push(l);
                if top {
                    Ok(None)
                } else {
                    Ok(Some(parent))
                }
            }
        },
    }
}

// ---------------------------------------------------------------------------
// Listing the children of a label

/// Where a `ChildrenLookup` stands.
#[derive(Debug, PartialEq, Eq, Structural, Clone, Copy)]
pub enum LookupPhase {
    /// Waiting for the label's existence check.
    Checking,
    /// Waiting for the list of children.
    Listing,
    Finished,
}

/// Lists the labels directly below a label (the root `"0"` included), after
/// checking that the label exists. The root is not checked: no label is stored
/// under its id.
#[derive(Debug)]
pub struct ChildrenLookup {
    pub label_id: String,
    pub phase: LookupPhase,
}

/// How a `ChildrenLookup` moves on a reply.
pub open spec fn lookup_step(
    s: ChildrenLookup,
    reply: StoreReply,
    s2: ChildrenLookup,
    step: Step<Vec<Label>>,
) -> bool {
    &&& s2.label_id == s.label_id
    &&& match (s.phase, reply) {
        (LookupPhase::Checking, StoreReply::Flag(true)) => s2.phase == LookupPhase::Listing && step
            == Step::<Vec<Label>>::Call(StoreCall::ChildrenOf(s.label_id)),
        (LookupPhase::Checking, StoreReply::Flag(false)) => s2.phase == LookupPhase::Finished && step
            == Step::<Vec<Label>>::Done(Err(EngineError::LabelNotFound(s.label_id))),
        (LookupPhase::Listing, StoreReply::Labels(v)) => s2.phase == LookupPhase::Finished && step
            == Step::<Vec<Label>>::Done(Ok(v)),
        _ => s2.phase == LookupPhase::Finished && step == Step::<Vec<Label>>::Done(
            Err(unexpected_error(reply)),
        ),
    }
}

/// Starts listing the children of `label_id`: the first store call is the
/// existence check, or for the root the listing itself.
pub fn get_labels(label_id: String) -> (r: (ChildrenLookup, Step<Vec<Label>>))
    ensures
        r.0.label_id == label_id,
        label_id@ == root_id() ==> r.0.phase == LookupPhase::Listing && r.1 == Step::<
            Vec<Label>,
        >::Call(StoreCall::ChildrenOf(label_id)),
        label_id@ != root_id() ==> r.0.phase == LookupPhase::Checking && r.1 == Step::<
            Vec<Label>,
        >::Call(StoreCall::LabelExists(label_id)),
{
    let asked = label_id.clone();
    if is_root(&label_id) {
        (ChildrenLookup { label_id, phase: LookupPhase::Listing }, Step::Call(StoreCall::ChildrenOf(asked)))
    } else {
        (ChildrenLookup { label_id, phase: LookupPhase::Checking }, Step::Call(StoreCall::LabelExists(asked)))
    }
}

impl ChildrenLookup {
    /// Hands the lookup the reply to its last call.
    pub fn resume(&mut self, reply: StoreReply) -> (r: Step<Vec<Label>>)
        ensures
            lookup_step(*old(self), reply, *final(self), r),
    {
        match self.phase {
            LookupPhase::Checking => match reply {
                StoreReply::Flag(true) => {
                    self.phase = LookupPhase::Listing;
                    Step::Call(StoreCall::ChildrenOf(self.label_id.clone()))
                },
                StoreReply::Flag(false) => {
                    self.phase = LookupPhase::Finished;
                    Step::Done(Err(EngineError::LabelNotFound(self.label_id.clone())))
                },
                other => {
                    self.phase = LookupPhase::Finished;
                    Step::Done(Err(unexpected(other)))
                },
            },
            LookupPhase::Listing => match reply {
                StoreReply::Labels(v) => {
                    self.phase = LookupPhase::Finished;
                    Step::Done(Ok(v))
                },
                other => {
                    self.phase = LookupPhase::Finished;
                    Step::Done(Err(unexpected(other)))
                },
            },
            LookupPhase::Finished => Step::Done(Err(unexpected(reply))),
        }
    }
}

// ---------------------------------------------------------------------------
// Assigning a label, with its ancestors, to a request

/// Where an `Assignment` stands.
#[derive(Debug)]
pub enum AssignPhase {
    /// Waiting for the request's existence check.
    CheckRequest,
    /// Waiting for the label with this id, on the walk towards the root.
    Walk(String),
    /// Waiting for the addition of the chain's label at this position.
    Append(usize),
    Finished,
}

/// Assigns a label to a request together with every ancestor of the label.
/// The request is checked first; then the chain from the label up to the root
/// is fetched one label at a time; then each label of the chain, the target
/// first, is added to the request's assignment set. Additions made before a
/// failing one stay.
#[derive(Debug)]
pub struct Assignment {
    pub request_id: String,
    pub label_id: String,
    pub phase: AssignPhase,
    /// The labels fetched so far, from the target towards the root.
    pub chain: Vec<Label>,
}

/// The session is over, with nothing else changed.
pub open spec fn assign_finished(s: Assignment, s2: Assignment) -> bool {
    s2.phase is Finished && s2.chain@ == s.chain@
}

/// How an `Assignment` moves on a reply.
pub open spec fn assign_step(s: Assignment, reply: StoreReply, s2: Assignment, step: Step<()>) -> bool {
    &&& s2.request_id == s.request_id
    &&& s2.label_id == s.label_id
    &&& match (s.phase, reply) {
        (AssignPhase::CheckRequest, StoreReply::Flag(true)) => if s.label_id@ == root_id() {
            assign_finished(s, s2) && step == Step::<()>::Done(Err(EngineError::LabelNotFound(s.label_id)))
        } else {
            &&& s2.chain@ == s.chain@
            &&& s2.phase == AssignPhase::Walk(s.label_id)
            &&& step == Step::<()>::Call(StoreCall::GetLabel(s.label_id))
        },
        (AssignPhase::CheckRequest, StoreReply::Flag(false)) => assign_finished(s, s2) && step
            == Step::<()>::Done(Err(EngineError::RequestNotFound(s.request_id))),
        (AssignPhase::Walk(x), StoreReply::Found(found)) => if x@ == root_id() {
            &&& s2.chain@ == s.chain@
            &&& s.chain@.len() == 0 ==> s2.phase is Finished && step == Step::<()>::Done(
                Err(EngineError::LabelNotFound(x)),
            )
            &&& s.chain@.len() > 0 ==> s2.phase == AssignPhase::Append(0) && step == Step::<()>::Call(
                StoreCall::AddAssignment(s.request_id, s.chain@[0].id),
            )
        } else {
            match found {
            Some(l) if l.id@ == x@ && s.chain@.len() < MAX_LABEL_DEPTH => {
                &&& s2.chain@ == s.chain@.push(l)
                &&& l.parent@ == root_id() ==> s2.phase == AssignPhase::Append(0) && step
                    == Step::<()>::Call(StoreCall::AddAssignment(s.request_id, s2.chain@[0].id))
                &&& l.parent@ != root_id() ==> s2.phase == AssignPhase::Walk(l.parent) && step
                    == Step::<()>::Call(StoreCall::GetLabel(l.parent))
            },
            _ => {
                &&& assign_finished(s, s2)
                &&& exists|e: EngineError|
                    step == Step::<()>::Done(Err(e)) && walk_result(
                        x,
                        found,
                        s.chain@,
                        s.chain@,
                        Err::<Option<String>, EngineError>(e),
                    )
            },
        }
        },
        (AssignPhase::Append(k), StoreReply::Added) => {
            &&& s2.chain@ == s.chain@
            &&& k + 1 < s.chain@.len() ==> s2.phase == AssignPhase::Append((k + 1) as usize) && step
                == Step::<()>::Call(StoreCall::AddAssignment(s.request_id, s.chain@[k + 1].id))
            &&& k + 1 >= s.chain@.len() ==> s2.phase is Finished && step == Step::<()>::Done(Ok(()))
        },
        _ => assign_finished(s, s2) && step == Step::<()>::Done(Err(unexpected_error(reply))),
    }
}

/// Starts assigning `label_id` to `request_id`: the first store call checks that
/// the request exists.
pub fn update_request_labels(request_id: String, label_id: String) -> (r: (Assignment, Step<()>))
    ensures
        r.0.request_id == request_id,
        r.0.label_id == label_id,
        r.0.phase is CheckRequest,
        r.0.chain@.len() == 0,
        r.1 == Step::<()>::Call(StoreCall::RequestExists(request_id)),
{
    let asked = request_id.clone();
    (
        Assignment { request_id, label_id, phase: AssignPhase::CheckRequest, chain: Vec::new() },
        Step::Call(StoreCall::RequestExists(asked)),
    )
}

impl Assignment {
    /// Hands the assignment the reply to its last call.
    pub fn resume(&mut self, reply: StoreReply) -> (r: Step<()>)
        ensures
            assign_step(*old(self), reply, *final(self), r),
    {
        match &self.phase {
            AssignPhase::CheckRequest => match reply {
                StoreReply::Flag(true) => {
                    if is_root(&self.label_id) {
                        // The root is no stored label and is never looked up.
                        self.phase = AssignPhase::Finished;
                        Step::Done(Err(EngineError::LabelNotFound(self.label_id.clone())))
                    } else {
                        self.phase = AssignPhase::Walk(self.label_id.clone());
                        Step::Call(StoreCall::GetLabel(self.label_id.clone()))
                    }
                },
                StoreReply::Flag(false) => {
                    self.phase = AssignPhase::Finished;
                    Step::Done(Err(EngineError::RequestNotFound(self.request_id.clone())))
                },
                other => {
                    self.phase = AssignPhase::Finished;
                    Step::Done(Err(unexpected(other)))
                },
            },
            AssignPhase::Walk(x) => match reply {
                StoreReply::Found(found) => {
                    let x = x.clone();
                    let ghost f = found;
                    let ghost before = self.chain@;
                    let res = retrieve_label_tree(&x, found, &mut self.chain);
                    proof {
                        if x@ == root_id() {
                            assert(res == Ok::<Option<String>, EngineError>(None));
                        } else if let Some(l) = f {
                            if l.id@ == x@ && before.len() < MAX_LABEL_DEPTH {
                                assert(res is Ok);
                            } else {
                                assert(res is Err);
                            }
                        } else {
                            assert(res is Err);
                        }
                    }
                    match res {
                        Ok(Some(parent)) => {
                            self.phase = AssignPhase::Walk(parent.clone());
                            Step::Call(StoreCall::GetLabel(parent))
                        },
                        Ok(None) => {
                            if self.chain.len() == 0 {
                                self.phase = AssignPhase::Finished;
                                Step::Done(Err(EngineError::LabelNotFound(x)))
                            } else {
                                self.phase = AssignPhase::Append(0);
                                Step::Call(
                                    StoreCall::AddAssignment(self.request_id.clone(), self.chain[0].id.clone()),
                                )
                            }
                        },
                        Err(e) => {
                            self.phase = AssignPhase::Finished;
                            proof {
                                assert(walk_result(x, f, before, before, Err::<Option<String>, EngineError>(e)));
                            }
                            Step::Done(Err(e))
                        },
                    }
                },
                other => {
                    self.phase = AssignPhase::Finished;
                    Step::Done(Err(unexpected(other)))
                },
            },
            AssignPhase::Append(k) => match reply {
                StoreReply::Added => {
                    let k = *k;
                    if self.chain.len() > 0 && k < self.chain.len() - 1 {
                        self.phase = AssignPhase::Append(k + 1);
                        Step::Call(
                            StoreCall::AddAssignment(self.request_id.clone(), self.chain[k + 1].id.clone()),
                        )
                    } else {
                        self.phase = AssignPhase::Finished;
                        Step::Done(Ok(()))
                    }
                },
                other => {
                    self.phase = AssignPhase::Finished;
                    Step::Done(Err(unexpected(other)))
                },
            },
            AssignPhase::Finished => Step::Done(Err(unexpected(reply))),
        }
    }
}

// ---------------------------------------------------------------------------
// Removing a label, with its assigned descendants, from a request

/// Where a `Removal` stands.
#[derive(Debug, PartialEq, Eq, Structural, Clone, Copy)]
pub enum RemovePhase {
    /// Waiting for the request's existence check.
    CheckRequest,
    /// Waiting for the labels assigned to the request.
    Fetch,
    /// Waiting for the removal of the plan's id at this position.
    Remove(usize),
    Finished,
}

/// Removes a label from a request together with every assigned label below
/// it, children before parents. The assignment set is read once; the ids to
/// remove are planned from it and removed one by one. Removals made before a
/// failing one stay. Removing the root `"0"` succeeds at once and touches
/// nothing.
#[derive(Debug)]
pub struct Removal {
    pub request_id: String,
    pub label_id: String,
    pub phase: RemovePhase,
    /// The ids to remove, in order.
    pub plan: Vec<String>,
}

impl Removal {
    /// A removal in progress points into its plan.
    pub open spec fn wf(&self) -> bool {
        self.phase matches RemovePhase::Remove(k) ==> k < self.plan@.len()
    }
}

/// The session is over, with nothing else changed.
pub open spec fn remove_finished(s: Removal, s2: Removal) -> bool {
    s2.phase == RemovePhase::Finished && s2.plan@ == s.plan@
}

/// How a `Removal` moves on a reply.
pub open spec fn remove_step(s: Removal, reply: StoreReply, s2: Removal, step: Step<()>) -> bool {
    &&& s2.request_id == s.request_id
    &&& s2.label_id == s.label_id
    &&& match (s.phase, reply) {
        (RemovePhase::CheckRequest, StoreReply::Flag(true)) => {
            &&& s2.plan@ == s.plan@
            &&& s2.phase == RemovePhase::Fetch
            &&& step == Step::<()>::Call(StoreCall::AssignedLabels(s.request_id))
        },
        (RemovePhase::CheckRequest, StoreReply::Flag(false)) => remove_finished(s, s2) && step
            == Step::<()>::Done(Err(EngineError::RequestNotFound(s.request_id))),
        (RemovePhase::Fetch, StoreReply::Labels(v)) => {
            &&& is_removal_order(v@, s.label_id@, ids(s2.plan@))
            &&& s2.plan@.len() == 0 ==> s2.phase == RemovePhase::Finished && step == Step::<()>::Done(
                Ok(()),
            )
            &&& s2.plan@.len() > 0 ==> s2.phase == RemovePhase::Remove(0) && step == Step::<()>::Call(
                StoreCall::RemoveAssignment(s.request_id, s2.plan@[0]),
            )
        },
        (RemovePhase::Remove(k), StoreReply::Removed(n)) => {
            &&& s2.plan@ == s.plan@
            &&& n != 1 ==> s2.phase == RemovePhase::Finished && step == Step::<()>::Done(
                Err(EngineError::NotAssigned(s.plan@[k as int])),
            )
            &&& n == 1 && k + 1 < s.plan@.len() ==> s2.phase == RemovePhase::Remove((k + 1) as usize)
                && step == Step::<()>::Call(StoreCall::RemoveAssignment(s.request_id, s.plan@[k + 1]))
            &&& n == 1 && k + 1 >= s.plan@.len() ==> s2.phase == RemovePhase::Finished && step
                == Step::<()>::Done(Ok(()))
        },
        _ => remove_finished(s, s2) && step == Step::<()>::Done(Err(unexpected_error(reply))),
    }
}

/// Starts removing `label_id` from `request_id`. The root `"0"` is done at once,
/// with success and no store call; any other label starts with the request's
/// existence check.
pub fn remove_request_labels(request_id: String, label_id: String) -> (r: (Removal, Step<()>))
    ensures
        r.0.request_id == request_id,
        r.0.label_id == label_id,
        r.0.plan@.len() == 0,
        label_id@ == root_id() ==> r.0.phase == RemovePhase::Finished && r.1 == Step::<()>::Done(Ok(())),
        label_id@ != root_id() ==> r.0.phase == RemovePhase::CheckRequest && r.1 == Step::<()>::Call(
            StoreCall::RequestExists(request_id),
        ),
{
    let asked = request_id.clone();
    if is_root(&label_id) {
        (
            Removal { request_id, label_id, phase: RemovePhase::Finished, plan: Vec::new() },
            Step::Done(Ok(())),
        )
    } else {
        (
            Removal { request_id, label_id, phase: RemovePhase::CheckRequest, plan: Vec::new() },
            Step::Call(StoreCall::RequestExists(asked)),
        )
    }
}

impl Removal {
    /// Hands the removal the reply to its last call.
    pub fn resume(&mut self, reply: StoreReply) -> (r: Step<()>)
        requires
            old(self).wf(),
        ensures
            final(self).wf(),
            remove_step(*old(self), reply, *final(self), r),
    {
        match self.phase {
            RemovePhase::CheckRequest => match reply {
                StoreReply::Flag(true) => {
                    self.phase = RemovePhase::Fetch;
                    Step::Call(StoreCall::AssignedLabels(self.request_id.clone()))
                },
                StoreReply::Flag(false) => {
                    self.phase = RemovePhase::Finished;
                    Step::Done(Err(EngineError::RequestNotFound(self.request_id.clone())))
                },
                other => {
                    self.phase = RemovePhase::Finished;
                    Step::Done(Err(unexpected(other)))
                },
            },
            RemovePhase::Fetch => match reply {
                StoreReply::Labels(v) => {
                    self.plan = remove_label_tree(&self.label_id, &v);
                    if self.plan.len() == 0 {
                        self.phase = RemovePhase::Finished;
                        Step::Done(Ok(()))
                    } else {
                        self.phase = RemovePhase::Remove(0);
                        Step::Call(StoreCall::RemoveAssignment(self.request_id.clone(), self.plan[0].clone()))
                    }
                },
                other => {
                    self.phase = RemovePhase::Finished;
                    Step::Done(Err(unexpected(other)))
                },
            },
            RemovePhase::Remove(k) => match reply {
                StoreReply::Removed(n) => {
                    if n != 1 {
                        self.phase = RemovePhase::Finished;
                        Step::Done(Err(EngineError::NotAssigned(self.plan[k].clone())))
                    } else if k < self.plan.len() - 1 {
                        self.phase = RemovePhase::Remove(k + 1);
                        Step::Call(StoreCall::RemoveAssignment(self.request_id.clone(), self.plan[k + 1].clone()))
                    } else {
                        self.phase = RemovePhase::Finished;
                        Step::Done(Ok(()))
                    }
                },
                other => {
                    self.phase = RemovePhase::Finished;
                    Step::Done(Err(unexpected(other)))
                },
            },
            RemovePhase::Finished => Step::Done(Err(unexpected(reply))),
        }
    }
}

} // verus!
