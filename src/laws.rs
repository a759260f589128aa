use vstd::prelude::*;

use crate::engine::{assign_step, AssignPhase, Assignment, ChildrenLookup, RemovePhase, Removal};
use crate::hierarchy::{ids, is_removal_order, parent_after};
use crate::label::{root_id, Label};
use crate::model::{
    added, answers, assign_link, assign_run, has_label, is_chain_prefix, is_full_chain, lookup_link,
    lookup_run, model_wf, next_id, remove_link, remove_run, without_assignment, StoreModel,
};
use crate::store::{EngineError, Step, StoreCall, StoreReply, MAX_LABEL_DEPTH};

verus! {

/// `ch` is the whole ancestor chain of `label` in the store `s0`, short enough to be
/// walked, and the request exists: an assignment has all it needs to succeed.
pub open spec fn can_assign(s0: StoreModel, req: String, label: String, ch: Seq<Label>) -> bool {
    &&& is_full_chain(s0.labels, label@, ch)
    &&& ch.len() <= MAX_LABEL_DEPTH
    &&& s0.requests.contains(req@)
}

/// What holds at each point of an assignment run that started on the store `s0`.
/// Where `ch` shows that the assignment can succeed, the run follows `ch` and does not fail.
pub open spec fn assign_inv(
    s0: StoreModel,
    req: String,
    label: String,
    ch: Seq<Label>,
    m: StoreModel,
    s: Assignment,
    step: Step<()>,
) -> bool {
    &&& m.labels == s0.labels
    &&& m.requests == s0.requests
    &&& s.request_id == req
    &&& s.label_id == label
    &&& is_chain_prefix(s0.labels, label@, s.chain@)
    &&& s.chain@.len() <= MAX_LABEL_DEPTH
    &&& can_assign(s0, req, label, ch) ==> s.chain@.len() <= ch.len() && s.chain@ == ch.take(
        s.chain@.len() as int,
    )
    &&& match s.phase {
        AssignPhase::CheckRequest => {
            &&& s.chain@.len() == 0
            &&& m.assigned == s0.assigned
            &&& step == Step::<()>::Call(StoreCall::RequestExists(req))
        },
        AssignPhase::Walk(x) => {
            &&& s0.requests.contains(req@)
            &&& m.assigned == s0.assigned
            &&& step == Step::<()>::Call(StoreCall::GetLabel(x))
            &&& x@ == next_id(label@, s.chain@)
            &&& x@ != root_id()
            &&& s.chain@.len() == 0 ==> x == label
            &&& s.chain@.len() > 0 ==> s.chain@.last().parent@ != root_id()
            &&& can_assign(s0, req, label, ch) ==> s.chain@.len() < ch.len()
        },
        AssignPhase::Append(k) => {
            &&& s0.requests.contains(req@)
            &&& is_full_chain(s0.labels, label@, s.chain@)
            &&& k < s.chain@.len()
            &&& m.assigned == added(s0.assigned, req@, s.chain@, k as int)
            &&& step == Step::<()>::Call(StoreCall::AddAssignment(req, s.chain@[k as int].id))
        },
        AssignPhase::Finished => step matches Step::Done(r) && {
            &&& r is Ok ==> s0.requests.contains(req@) && is_full_chain(s0.labels, label@, s.chain@)
                && m.assigned == added(s0.assigned, req@, s.chain@, s.chain@.len() as int)
            &&& r is Err ==> m.assigned == s0.assigned && !can_assign(s0, req, label, ch)
            &&& r is Err && s0.requests.contains(req@) && !has_label(s0, label@) ==> r
                == Err::<(), EngineError>(EngineError::LabelNotFound(label))
        },
    }
}

proof fn lemma_added_zero(a: Set<(Seq<char>, Seq<char>)>, r: Seq<char>, chain: Seq<Label>)
    ensures
        added(a, r, chain, 0) == a,
{
    assert(added(a, r, chain, 0) =~= a);
}

proof fn lemma_added_next(a: Set<(Seq<char>, Seq<char>)>, r: Seq<char>, chain: Seq<Label>, k: int)
    requires
        0 <= k < chain.len(),
    ensures
        added(a, r, chain, k + 1) == added(a, r, chain, k).insert((r, chain[k].id@)),
{
    assert forall|p: (Seq<char>, Seq<char>)|
        added(a, r, chain, k + 1).contains(p) == added(a, r, chain, k).insert((r, chain[k].id@)).contains(p) by {
        if added(a, r, chain, k + 1).contains(p) && !a.contains(p) {
            let j = choose|j: int| 0 <= j < k + 1 && p == (r, chain[j].id@);
            if j < k {
                assert(added(a, r, chain, k).contains(p));
            }
        }
        if added(a, r, chain, k).contains(p) && !a.contains(p) {
            let j = choose|j: int| 0 <= j < k && p == (r, chain[j].id@);
            assert(0 <= j < k + 1 && p == (r, chain[j].id@));
        }
        if p == (r, chain[k].id@) {
            assert(0 <= k < k + 1 && p == (r, chain[k].id@));
        }
    }
    assert(added(a, r, chain, k + 1) =~= added(a, r, chain, k).insert((r, chain[k].id@)));
}

/// Two stored labels with one id are one label.
proof fn lemma_same_id(m: StoreModel, l1: Label, l2: Label)
    requires
        model_wf(m),
        m.labels.contains(l1),
        m.labels.contains(l2),
        l1.id@ == l2.id@,
    ensures
        l1 == l2,
{
    let i = choose|i: int| 0 <= i < m.labels.len() && m.labels[i] == l1;
    let j = choose|j: int| 0 <= j < m.labels.len() && m.labels[j] == l2;
    assert(m.labels[i].id@ == m.labels[j].id@);
}

/// A prefix of a chain, extended by the label the walk asked for, is a longer prefix.
proof fn lemma_chain_push(labels: Seq<Label>, label: Seq<char>, chain: Seq<Label>, l: Label)
    requires
        is_chain_prefix(labels, label, chain),
        labels.contains(l),
        l.id@ == next_id(label, chain),
        chain.len() > 0 ==> chain.last().parent@ != root_id(),
    ensures
        is_chain_prefix(labels, label, chain.push(l)),
{
    let c2 = chain.push(l);
    assert forall|j: int| 0 <= j < c2.len() implies labels.contains(#[trigger] c2[j]) by {
        if j < chain.len() {
            assert(c2[j] == chain[j]);
        }
    }
    assert forall|j: int| 0 <= j < c2.len() implies (#[trigger] c2[j]).id@ == next_id(label, c2.take(j)) by {
        if j < chain.len() {
            assert(c2.take(j) =~= chain.take(j));
            assert(c2[j] == chain[j]);
        } else {
            assert(c2.take(j) =~= chain);
        }
    }
    assert forall|j: int| 0 <= j < c2.len() - 1 implies (#[trigger] c2[j]).parent@ != root_id() by {
        assert(c2[j] == chain[j]);
        if j < chain.len() - 1 {
        } else {
            assert(chain[j] == chain.last());
        }
    }
}

/// On a full chain `ch`, the label at position `k` is the one with the id that the walk
/// asks for after the first `k`.
proof fn lemma_chain_entry(labels: Seq<Label>, label: Seq<char>, ch: Seq<Label>, k: int)
    requires
        is_chain_prefix(labels, label, ch),
        0 <= k < ch.len(),
    ensures
        ch[k].id@ == next_id(label, ch.take(k)),
        labels.contains(ch[k]),
{
}

proof fn lemma_move_walk_found(
    s0: StoreModel,
    req: String,
    label: String,
    ch: Seq<Label>,
    m: StoreModel,
    s: Assignment,
    step: Step<()>,
    reply: StoreReply,
    m2: StoreModel,
    s2: Assignment,
    step2: Step<()>,
    x: String,
    l: Label,
)
    requires
        model_wf(s0),
        assign_inv(s0, req, label, ch, m, s, step),
        step matches Step::Call(c) && answers(m, c, reply, m2),
        assign_step(s, reply, s2, step2),
        s.phase == AssignPhase::Walk(x),
        reply == StoreReply::Found(Some(l)),
    ensures
        assign_inv(s0, req, label, ch, m2, s2, step2),
{
    assert(m2 == m);
    assert(s0.labels.contains(l) && l.id@ == x@);
    if s.chain@.len() < MAX_LABEL_DEPTH {
        lemma_move_walk_extend(s0, req, label, ch, m, s, step, reply, m2, s2, step2, x, l);
    } else {
        let good = can_assign(s0, req, label, ch);
        assert(!good);
        assert(s0.labels.contains(s.chain@[0]));
        assert(s.chain@.take(0) =~= Seq::<Label>::empty());
    }
}

#[verifier::rlimit(100)]
proof fn lemma_move_walk_extend(
    s0: StoreModel,
    req: String,
    label: String,
    ch: Seq<Label>,
    m: StoreModel,
    s: Assignment,
    step: Step<()>,
    reply: StoreReply,
    m2: StoreModel,
    s2: Assignment,
    step2: Step<()>,
    x: String,
    l: Label,
)
    requires
        model_wf(s0),
        assign_inv(s0, req, label, ch, m, s, step),
        step matches Step::Call(c) && answers(m, c, reply, m2),
        assign_step(s, reply, s2, step2),
        s.phase == AssignPhase::Walk(x),
        reply == StoreReply::Found(Some(l)),
        s.chain@.len() < MAX_LABEL_DEPTH,
        m2 == m,
        s0.labels.contains(l),
        l.id@ == x@,
    ensures
        assign_inv(s0, req, label, ch, m2, s2, step2),
{
    let good = can_assign(s0, req, label, ch);
    let k = s.chain@.len() as int;
    if good {
        lemma_chain_entry(s0.labels, label@, ch, k);
        lemma_same_id(s0, l, ch[k]);
    }
    lemma_chain_push(s0.labels, label@, s.chain@, l);
    let c2 = s.chain@.push(l);
    assert(s2.chain@ == c2);
    if good {
        assert(c2 =~= ch.take(k + 1));
        if l.parent@ != root_id() {
            assert(k + 1 < ch.len());
        }
    }
    if l.parent@ == root_id() {
        lemma_added_zero(s0.assigned, req@, c2);
        assert(c2.last() == l);
    }
}

proof fn lemma_move_walk_missing(
    s0: StoreModel,
    req: String,
    label: String,
    ch: Seq<Label>,
    m: StoreModel,
    s: Assignment,
    step: Step<()>,
    reply: StoreReply,
    m2: StoreModel,
    s2: Assignment,
    step2: Step<()>,
    x: String,
)
    requires
        model_wf(s0),
        assign_inv(s0, req, label, ch, m, s, step),
        step matches Step::Call(c) && answers(m, c, reply, m2),
        assign_step(s, reply, s2, step2),
        s.phase == AssignPhase::Walk(x),
        reply == StoreReply::Found(None),
    ensures
        assign_inv(s0, req, label, ch, m2, s2, step2),
{
    let good = can_assign(s0, req, label, ch);
    let k = s.chain@.len() as int;
    assert(m2 == m);
    assert(!has_label(m, x@));
    if s.chain@.len() > 0 {
        assert(s0.labels.contains(s.chain@[0]));
        assert(s.chain@.take(0) =~= Seq::<Label>::empty());
        assert(s.chain@[0].id@ == label@);
    }
    if good {
        lemma_chain_entry(s0.labels, label@, ch, k);
        assert(s0.labels.contains(ch[k]));
    }
}

/// One move of an assignment run keeps `assign_inv`.
proof fn lemma_assign_move(
    s0: StoreModel,
    req: String,
    label: String,
    ch: Seq<Label>,
    m: StoreModel,
    s: Assignment,
    step: Step<()>,
    reply: StoreReply,
    m2: StoreModel,
    s2: Assignment,
    step2: Step<()>,
)
    requires
        model_wf(s0),
        assign_inv(s0, req, label, ch, m, s, step),
        step matches Step::Call(c) && answers(m, c, reply, m2),
        assign_step(s, reply, s2, step2),
    ensures
        assign_inv(s0, req, label, ch, m2, s2, step2),
{
    match s.phase {
        AssignPhase::CheckRequest => {
            assert(reply == StoreReply::Flag(s0.requests.contains(req@)));
            assert(m2 == m);
            if can_assign(s0, req, label, ch) && label@ == root_id() {
                lemma_chain_entry(s0.labels, label@, ch, 0);
                assert(ch.take(0) =~= Seq::<Label>::empty());
                let i = choose|i: int| 0 <= i < s0.labels.len() && s0.labels[i] == ch[0];
                assert(s0.labels[i].id@ != root_id());
            }
        },
        AssignPhase::Walk(x) => {
            match reply {
                StoreReply::Found(Some(l)) => lemma_move_walk_found(s0, req, label, ch, m, s, step, reply, m2, s2, step2, x, l),
                StoreReply::Found(None) => lemma_move_walk_missing(s0, req, label, ch, m, s, step, reply, m2, s2, step2, x),
                _ => {
                    assert(false);
                },
            }
        },
        AssignPhase::Append(k) => {
            assert(reply == StoreReply::Added);
            lemma_added_next(s0.assigned, req@, s.chain@, k as int);
        },
        AssignPhase::Finished => {},
    }
}

/// Every point of an assignment run keeps `assign_inv`.
proof fn lemma_assign_inv(
    req: String,
    label: String,
    ch: Seq<Label>,
    stores: Seq<StoreModel>,
    states: Seq<Assignment>,
    steps: Seq<Step<()>>,
    replies: Seq<StoreReply>,
    i: int,
)
    requires
        assign_run(req, label, stores, states, steps, replies),
        model_wf(stores[0]),
        0 <= i < states.len(),
    ensures
        assign_inv(stores[0], req, label, ch, stores[i], states[i], steps[i]),
    decreases i,
{
    if i == 0 {
        assert(states[0].chain@ =~= Seq::<Label>::empty());
        assert(ch.take(0) =~= Seq::<Label>::empty());
    } else {
        lemma_assign_inv(req, label, ch, stores, states, steps, replies, i - 1);
        assert(assign_link(stores, states, steps, replies, i - 1));
        lemma_assign_move(
            stores[0],
            req,
            label,
            ch,
            stores[i - 1],
            states[i - 1],
            steps[i - 1],
            replies[i - 1],
            stores[i],
            states[i],
            steps[i],
        );
    }
}

/// At the end of an assignment run the session is finished, and what it returned
/// is described by `assign_inv`.
proof fn lemma_assign_end(
    req: String,
    label: String,
    ch: Seq<Label>,
    stores: Seq<StoreModel>,
    states: Seq<Assignment>,
    steps: Seq<Step<()>>,
    replies: Seq<StoreReply>,
)
    requires
        assign_run(req, label, stores, states, steps, replies),
        model_wf(stores[0]),
    ensures
        states.last().phase is Finished,
        assign_inv(stores[0], req, label, ch, stores.last(), states.last(), steps.last()),
{
    lemma_assign_inv(req, label, ch, stores, states, steps, replies, replies.len() as int);
}

/// A full chain that starts where another does and ends below the root is that chain.
proof fn lemma_full_chain_unique(m: StoreModel, label: Seq<char>, c1: Seq<Label>, c2: Seq<Label>)
    requires
        model_wf(m),
        is_full_chain(m.labels, label, c1),
        is_prefix_of(c1, c2),
        is_full_chain(m.labels, label, c2),
    ensures
        c1 == c2,
{
    if c1.len() < c2.len() {
        let j = c1.len() - 1;
        assert(c2[j] == c1.last());
        assert(c2[j].parent@ != root_id());
    }
    assert(c1 =~= c2);
}

/// A finished step that is no failure is `Done(Ok(()))`.
proof fn lemma_done_ok(step: Step<()>)
    requires
        step matches Step::Done(r) && r is Ok,
    ensures
        step == Step::<()>::Done(Ok(())),
{
    match step {
        Step::Done(r) => match r {
            Ok(u) => {
                assert(u == ());
            },
            Err(_) => {},
        },
        Step::Call(_) => {},
    }
}

spec fn is_prefix_of(c1: Seq<Label>, c2: Seq<Label>) -> bool {
    c1.len() <= c2.len() && c1 == c2.take(c1.len() as int)
}

/// Assigning a label assigns its ancestors too: where the labels A, B and C
/// stand in a chain below the root (B under A, C under B) and the request
/// exists, assigning C to the request succeeds and leaves A, B and C in its
/// assignment set, whatever the set held before.
pub proof fn lemma_ancestor_back_fill(
    req: String,
    a: Label,
    b: Label,
    c: Label,
    stores: Seq<StoreModel>,
    states: Seq<Assignment>,
    steps: Seq<Step<()>>,
    replies: Seq<StoreReply>,
)
    requires
        assign_run(req, c.id, stores, states, steps, replies),
        model_wf(stores[0]),
        stores[0].requests.contains(req@),
        stores[0].labels.contains(a),
        stores[0].labels.contains(b),
        stores[0].labels.contains(c),
        a.parent@ == root_id(),
        b.parent@ == a.id@,
        c.parent@ == b.id@,
    ensures
        steps.last() == Step::<()>::Done(Ok(())),
        stores.last().assigned.contains((req@, a.id@)),
        stores.last().assigned.contains((req@, b.id@)),
        stores.last().assigned.contains((req@, c.id@)),
{
    let s0 = stores[0];
    let ch = seq![c, b, a];
    let ia = choose|i: int| 0 <= i < s0.labels.len() && s0.labels[i] == a;
    let ib = choose|i: int| 0 <= i < s0.labels.len() && s0.labels[i] == b;
    assert(s0.labels[ia].id@ != root_id());
    assert(s0.labels[ib].id@ != root_id());
    assert(ch.take(0) =~= Seq::<Label>::empty());
    assert(ch.take(1) =~= seq![c]);
    assert(ch.take(2) =~= seq![c, b]);
    assert(is_chain_prefix(s0.labels, c.id@, ch));
    assert(can_assign(s0, req, c.id, ch));
    lemma_assign_end(req, c.id, ch, stores, states, steps, replies);
    lemma_done_ok(steps.last());
    let fin = states.last();
    let chain = fin.chain@;
    assert(chain == ch.take(chain.len() as int));
    assert(chain.len() == 3) by {
        if chain.len() == 1 {
            assert(chain.last() == c);
        } else if chain.len() == 2 {
            assert(chain.last() == b);
        }
    }
    assert(chain =~= ch);
    let done = added(s0.assigned, req@, chain, 3);
    assert(done.contains((req@, c.id@))) by {
        assert(0 <= 0 < 3 && (req@, c.id@) == (req@, chain[0].id@));
    }
    assert(done.contains((req@, b.id@))) by {
        assert(0 <= 1 < 3 && (req@, b.id@) == (req@, chain[1].id@));
    }
    assert(done.contains((req@, a.id@))) by {
        assert(0 <= 2 < 3 && (req@, a.id@) == (req@, chain[2].id@));
    }
}

/// Assigning a label twice leaves the same assignment set as assigning it once:
/// a second run of the same assignment, started on the store the first one
/// left, changes no assignment.
pub proof fn lemma_assign_idempotent(
    req: String,
    label: String,
    stores1: Seq<StoreModel>,
    states1: Seq<Assignment>,
    steps1: Seq<Step<()>>,
    replies1: Seq<StoreReply>,
    stores2: Seq<StoreModel>,
    states2: Seq<Assignment>,
    steps2: Seq<Step<()>>,
    replies2: Seq<StoreReply>,
)
    requires
        assign_run(req, label, stores1, states1, steps1, replies1),
        assign_run(req, label, stores2, states2, steps2, replies2),
        model_wf(stores1[0]),
        stores2[0] == stores1.last(),
    ensures
        stores2.last().assigned == stores1.last().assigned,
{
    let s0 = stores1[0];
    let none = Seq::<Label>::empty();
    lemma_assign_end(req, label, none, stores1, states1, steps1, replies1);
    let t0 = stores2[0];
    assert(t0.labels == s0.labels);
    assert(t0.requests == s0.requests);
    assert(model_wf(t0));
    lemma_assign_end(req, label, none, stores2, states2, steps2, replies2);
    if steps1.last() matches Step::Done(r) && r is Ok {
        lemma_second_run_adds_nothing(req, label, stores1, states1, steps1, replies1, stores2, states2, steps2, replies2);
    } else if steps2.last() matches Step::Done(r) && r is Ok {
        let c2 = states2.last().chain@;
        assert(can_assign(s0, req, label, c2));
        lemma_assign_end(req, label, c2, stores1, states1, steps1, replies1);
    }
}

/// After an assignment that succeeded, the same assignment changes no assignment.
#[verifier::rlimit(60)]
proof fn lemma_second_run_adds_nothing(
    req: String,
    label: String,
    stores1: Seq<StoreModel>,
    states1: Seq<Assignment>,
    steps1: Seq<Step<()>>,
    replies1: Seq<StoreReply>,
    stores2: Seq<StoreModel>,
    states2: Seq<Assignment>,
    steps2: Seq<Step<()>>,
    replies2: Seq<StoreReply>,
)
    requires
        assign_run(req, label, stores1, states1, steps1, replies1),
        assign_run(req, label, stores2, states2, steps2, replies2),
        model_wf(stores1[0]),
        model_wf(stores2[0]),
        stores2[0] == stores1.last(),
        stores2[0].labels == stores1[0].labels,
        stores2[0].requests == stores1[0].requests,
        steps1.last() matches Step::Done(r) && r is Ok,
        assign_inv(stores1[0], req, label, Seq::<Label>::empty(), stores1.last(), states1.last(), steps1.last()),
        states1.last().phase is Finished,
    ensures
        stores2.last().assigned == stores1.last().assigned,
{
    let s0 = stores1[0];
    let t0 = stores2[0];
    let c1 = states1.last().chain@;
    assert(can_assign(t0, req, label, c1));
    lemma_assign_end(req, label, c1, stores2, states2, steps2, replies2);
    let c2 = states2.last().chain@;
    lemma_full_chain_unique(s0, label@, c2, c1);
    let a1 = added(s0.assigned, req@, c1, c1.len() as int);
    assert(stores2.last().assigned =~= added(a1, req@, c1, c1.len() as int));
    assert(added(a1, req@, c1, c1.len() as int) =~= a1);
}

/// Assigning a label that is not stored fails with `LabelNotFound` and changes
/// nothing in the store.
pub proof fn lemma_unknown_label_assignment(
    req: String,
    label: String,
    stores: Seq<StoreModel>,
    states: Seq<Assignment>,
    steps: Seq<Step<()>>,
    replies: Seq<StoreReply>,
)
    requires
        assign_run(req, label, stores, states, steps, replies),
        model_wf(stores[0]),
        stores[0].requests.contains(req@),
        !has_label(stores[0], label@),
    ensures
        steps.last() == Step::<()>::Done(Err(EngineError::LabelNotFound(label))),
        stores.last() == stores[0],
{
    lemma_assign_end(req, label, Seq::<Label>::empty(), stores, states, steps, replies);
    let chain = states.last().chain@;
    if steps.last() == Step::<()>::Done(Ok(())) {
        assert(stores[0].labels.contains(chain[0]));
        assert(chain.take(0) =~= Seq::<Label>::empty());
    }
}

/// Assigning a label to a request that does not exist fails with
/// `RequestNotFound` after the one existence check, before any label is looked
/// up, and changes nothing in the store.
pub proof fn lemma_unknown_request_assignment(
    req: String,
    label: String,
    stores: Seq<StoreModel>,
    states: Seq<Assignment>,
    steps: Seq<Step<()>>,
    replies: Seq<StoreReply>,
)
    requires
        assign_run(req, label, stores, states, steps, replies),
        !stores[0].requests.contains(req@),
    ensures
        replies.len() == 1,
        steps[0] == Step::<()>::Call(StoreCall::RequestExists(req)),
        steps.last() == Step::<()>::Done(Err(EngineError::RequestNotFound(req))),
        stores.last() == stores[0],
{
    assert(replies.len() >= 1);
    assert(assign_link(stores, states, steps, replies, 0));
    assert(replies[0] == StoreReply::Flag(false));
    if replies.len() > 1 {
        assert(assign_link(stores, states, steps, replies, 1));
    }
}

/// Listing the children of a label that is not stored fails with
/// `LabelNotFound` after the one existence check, and changes nothing.
pub proof fn lemma_unknown_label_listing(
    label: String,
    stores: Seq<StoreModel>,
    states: Seq<ChildrenLookup>,
    steps: Seq<Step<Vec<Label>>>,
    replies: Seq<StoreReply>,
)
    requires
        lookup_run(label, stores, states, steps, replies),
        label@ != root_id(),
        !has_label(stores[0], label@),
    ensures
        replies.len() == 1,
        steps.last() == Step::<Vec<Label>>::Done(Err(EngineError::LabelNotFound(label))),
        stores.last() == stores[0],
{
    assert(replies.len() >= 1);
    assert(lookup_link(stores, states, steps, replies, 0));
    assert(replies[0] == StoreReply::Flag(false));
    if replies.len() > 1 {
        assert(lookup_link(stores, states, steps, replies, 1));
    }
}

/// Listing the children of the root makes one store call, the listing itself
/// with no existence check, and returns exactly the labels directly below the root.
pub proof fn lemma_root_listing(
    label: String,
    stores: Seq<StoreModel>,
    states: Seq<ChildrenLookup>,
    steps: Seq<Step<Vec<Label>>>,
    replies: Seq<StoreReply>,
)
    requires
        lookup_run(label, stores, states, steps, replies),
        label@ == root_id(),
    ensures
        replies.len() == 1,
        steps[0] == Step::<Vec<Label>>::Call(StoreCall::ChildrenOf(label)),
        steps.last() matches Step::Done(Ok(v)) && forall|l: Label|
            #[trigger] v@.contains(l) <==> stores[0].labels.contains(l) && l.parent@ == root_id(),
        stores.last() == stores[0],
{
    assert(replies.len() >= 1);
    assert(lookup_link(stores, states, steps, replies, 0));
    if replies.len() > 1 {
        assert(lookup_link(stores, states, steps, replies, 1));
    }
}

/// Removing the top of a chain removes the whole chain, children first: where
/// a request's assigned labels are A, B under A and C under B, removing A
/// removes C, then B, then A, which leaves nothing assigned.
pub proof fn lemma_subtree_removal(labels: Seq<Label>, a: Label, b: Label, c: Label, order: Seq<Seq<char>>)
    requires
        forall|l: Label| #[trigger] labels.contains(l) <==> (l == a || l == b || l == c),
        a.id@ != b.id@,
        b.id@ != c.id@,
        a.id@ != c.id@,
        a.id@ != root_id(),
        a.parent@ == root_id(),
        b.parent@ == a.id@,
        c.parent@ == b.id@,
        is_removal_order(labels, a.id@, order),
    ensures
        order == seq![c.id@, b.id@, a.id@],
        forall|l: Label| labels.contains(l) ==> order.contains(#[trigger] l.id@),
{
    assert(labels.contains(a) && labels.contains(b) && labels.contains(c));
    let n = order.len() as int;
    assert(order.contains(a.id@)) by {
        assert(order[n - 1] == a.id@);
    }
    assert(order.contains(b.id@));
    assert(order.contains(c.id@));
    // Every id but the last is that of a stored label, and the last is `a`.
    assert forall|j: int| 0 <= j < n implies #[trigger] order[j] == a.id@ || order[j] == b.id@
        || order[j] == c.id@ by {
        if j < n - 1 {
            assert(parent_after(labels, order, j));
        }
    }
    let ia = choose|i: int| 0 <= i < n && order[i] == a.id@;
    let ib = choose|i: int| 0 <= i < n && order[i] == b.id@;
    let ic = choose|i: int| 0 <= i < n && order[i] == c.id@;
    assert(ia == n - 1);
    assert(n == 3) by {
        if n > 3 {
            assert(order[0] == a.id@ || order[0] == b.id@ || order[0] == c.id@);
            assert(order[1] == a.id@ || order[1] == b.id@ || order[1] == c.id@);
            assert(order[2] == a.id@ || order[2] == b.id@ || order[2] == c.id@);
            assert(order[3] == a.id@ || order[3] == b.id@ || order[3] == c.id@);
        }
    }
    // `c` comes before its parent `b`.
    assert(parent_after(labels, order, ic));
    assert(order =~= seq![c.id@, b.id@, a.id@]);
}

/// Removing one branch leaves its sibling: where a request's assigned labels
/// are A below the root with two children B and C, removing B removes B alone,
/// which leaves A and C assigned.
pub proof fn lemma_sibling_independence(
    labels: Seq<Label>,
    a: Label,
    b: Label,
    c: Label,
    order: Seq<Seq<char>>,
)
    requires
        forall|l: Label| #[trigger] labels.contains(l) <==> (l == a || l == b || l == c),
        a.id@ != b.id@,
        b.id@ != c.id@,
        a.id@ != c.id@,
        b.id@ != root_id(),
        a.parent@ == root_id(),
        b.parent@ == a.id@,
        c.parent@ == a.id@,
        a.id@ != root_id(),
        c.id@ != root_id(),
        is_removal_order(labels, b.id@, order),
    ensures
        order == seq![b.id@],
        !order.contains(a.id@),
        !order.contains(c.id@),
{
    assert(labels.contains(a) && labels.contains(b) && labels.contains(c));
    let n = order.len() as int;
    assert forall|j: int| 0 <= j < n - 1 implies !#[trigger] parent_after(labels, order, j) by {
        if parent_after(labels, order, j) {
        let (l, k) = choose|l: Label, k: int|
            #![trigger labels.contains(l), order[k]]
            labels.contains(l) && j < k < order.len() && l.id@ == order[j] && order[k] == l.parent@;
        // `order[j]` is `a` or `c`; either way `a` is removed before the last id,
        // and `a`'s parent, the root, would have to be removed after it.
        assert(l.id@ != b.id@);
        let ja = if l == a { j } else { k };
        assert(order[ja] == a.id@);
        assert(ja < n - 1);
        assert(parent_after(labels, order, ja));
        let (l2, k2) = choose|l2: Label, k2: int|
            #![trigger labels.contains(l2), order[k2]]
            labels.contains(l2) && ja < k2 < order.len() && l2.id@ == order[ja] && order[k2] == l2.parent@;
        assert(l2 == a);
        assert(order[k2] == root_id());
        if k2 < n - 1 {
            assert(parent_after(labels, order, k2));
        }
        }
    }
    assert(n == 1) by {
        if n > 1 {
            assert(parent_after(labels, order, 0));
        }
    }
    assert(order =~= seq![b.id@]);
}

/// The store sees a subtree removed children first: where a request's assigned
/// labels are exactly A, B under A and C under B, removing A from it succeeds,
/// asks the store to remove C, then B, then A, and leaves none of them assigned.
#[verifier::rlimit(100)]
pub proof fn lemma_subtree_removal_run(
    req: String,
    a: Label,
    b: Label,
    c: Label,
    stores: Seq<StoreModel>,
    states: Seq<Removal>,
    steps: Seq<Step<()>>,
    replies: Seq<StoreReply>,
)
    requires
        remove_run(req, a.id, stores, states, steps, replies),
        model_wf(stores[0]),
        stores[0].requests.contains(req@),
        stores[0].labels.contains(a),
        stores[0].labels.contains(b),
        stores[0].labels.contains(c),
        a.parent@ == root_id(),
        b.parent@ == a.id@,
        c.parent@ == b.id@,
        forall|x: Seq<char>|
            #[trigger] stores[0].assigned.contains((req@, x)) <==> (x == a.id@ || x == b.id@ || x == c.id@),
    ensures
        replies.len() == 5,
        steps[2] matches Step::Call(StoreCall::RemoveAssignment(r, x)) && r == req && x@ == c.id@,
        steps[3] matches Step::Call(StoreCall::RemoveAssignment(r, x)) && r == req && x@ == b.id@,
        steps[4] matches Step::Call(StoreCall::RemoveAssignment(r, x)) && r == req && x@ == a.id@,
        steps.last() == Step::<()>::Done(Ok(())),
        stores.last().assigned == stores[0].assigned.remove((req@, c.id@)).remove((req@, b.id@)).remove(
            (req@, a.id@),
        ),
        !stores.last().assigned.contains((req@, a.id@)),
        !stores.last().assigned.contains((req@, b.id@)),
        !stores.last().assigned.contains((req@, c.id@)),
{
    let s0 = stores[0];
    let ia = choose|i: int| 0 <= i < s0.labels.len() && s0.labels[i] == a;
    let ib = choose|i: int| 0 <= i < s0.labels.len() && s0.labels[i] == b;
    let ic = choose|i: int| 0 <= i < s0.labels.len() && s0.labels[i] == c;
    assert(s0.labels[ia].id@ != root_id());
    assert(a.id@ != b.id@ && b.id@ != c.id@ && a.id@ != c.id@) by {
        if a.id@ == b.id@ {
            assert(s0.labels[ia].id@ == s0.labels[ib].id@);
        }
        if b.id@ == c.id@ {
            assert(s0.labels[ib].id@ == s0.labels[ic].id@);
        }
        if a.id@ == c.id@ {
            assert(s0.labels[ia].id@ == s0.labels[ic].id@);
        }
    }
    assert(replies.len() >= 1);
    assert(remove_link(stores, states, steps, replies, 0));
    assert(replies.len() >= 2);
    assert(remove_link(stores, states, steps, replies, 1));
    assert(stores[1] == s0);
    assert(stores[2] == s0);
    let v = replies[1]->Labels_0;
    assert forall|l: Label| #[trigger] v@.contains(l) <==> (l == a || l == b || l == c) by {
        if v@.contains(l) {
            assert(s0.labels.contains(l));
            let il = choose|i: int| 0 <= i < s0.labels.len() && s0.labels[i] == l;
            if l.id@ == a.id@ {
                assert(s0.labels[il].id@ == s0.labels[ia].id@);
            } else if l.id@ == b.id@ {
                assert(s0.labels[il].id@ == s0.labels[ib].id@);
            } else {
                assert(s0.labels[il].id@ == s0.labels[ic].id@);
            }
        }
    }
    let plan = states[2].plan@;
    lemma_subtree_removal(v@, a, b, c, ids(plan));
    assert(ids(plan)[0] == c.id@ && ids(plan)[1] == b.id@ && ids(plan)[2] == a.id@);
    assert(plan.len() == 3);
    assert(replies.len() >= 3);
    assert(remove_link(stores, states, steps, replies, 2));
    assert(replies.len() >= 4);
    assert(remove_link(stores, states, steps, replies, 3));
    assert(replies.len() >= 5);
    assert(remove_link(stores, states, steps, replies, 4));
    lemma_done_ok(steps[5]);
    if replies.len() > 5 {
        assert(remove_link(stores, states, steps, replies, 5));
    }
}

/// The store sees one branch removed alone: where a request's assigned labels
/// are exactly A below the root and its two children B and C, removing B from
/// it succeeds with the one removal of B, and A and C stay assigned.
#[verifier::rlimit(100)]
pub proof fn lemma_sibling_removal_run(
    req: String,
    a: Label,
    b: Label,
    c: Label,
    stores: Seq<StoreModel>,
    states: Seq<Removal>,
    steps: Seq<Step<()>>,
    replies: Seq<StoreReply>,
)
    requires
        remove_run(req, b.id, stores, states, steps, replies),
        model_wf(stores[0]),
        stores[0].requests.contains(req@),
        stores[0].labels.contains(a),
        stores[0].labels.contains(b),
        stores[0].labels.contains(c),
        a.parent@ == root_id(),
        b.parent@ == a.id@,
        c.parent@ == a.id@,
        b.id@ != c.id@,
        forall|x: Seq<char>|
            #[trigger] stores[0].assigned.contains((req@, x)) <==> (x == a.id@ || x == b.id@ || x == c.id@),
    ensures
        replies.len() == 3,
        steps[2] matches Step::Call(StoreCall::RemoveAssignment(r, x)) && r == req && x@ == b.id@,
        steps.last() == Step::<()>::Done(Ok(())),
        stores.last().assigned == stores[0].assigned.remove((req@, b.id@)),
        stores.last().assigned.contains((req@, a.id@)),
        stores.last().assigned.contains((req@, c.id@)),
{
    let s0 = stores[0];
    let ia = choose|i: int| 0 <= i < s0.labels.len() && s0.labels[i] == a;
    let ib = choose|i: int| 0 <= i < s0.labels.len() && s0.labels[i] == b;
    let ic = choose|i: int| 0 <= i < s0.labels.len() && s0.labels[i] == c;
    assert(s0.labels[ia].id@ != root_id());
    assert(s0.labels[ib].id@ != root_id());
    assert(s0.labels[ic].id@ != root_id());
    assert(a.id@ != b.id@ && a.id@ != c.id@) by {
        if a.id@ == b.id@ {
            assert(s0.labels[ia].id@ == s0.labels[ib].id@);
        }
        if a.id@ == c.id@ {
            assert(s0.labels[ia].id@ == s0.labels[ic].id@);
        }
    }
    assert(replies.len() >= 1);
    assert(remove_link(stores, states, steps, replies, 0));
    assert(replies.len() >= 2);
    assert(remove_link(stores, states, steps, replies, 1));
    let v = replies[1]->Labels_0;
    assert forall|l: Label| #[trigger] v@.contains(l) <==> (l == a || l == b || l == c) by {
        if v@.contains(l) {
            assert(s0.labels.contains(l));
            let il = choose|i: int| 0 <= i < s0.labels.len() && s0.labels[i] == l;
            if l.id@ == a.id@ {
                assert(s0.labels[il].id@ == s0.labels[ia].id@);
            } else if l.id@ == b.id@ {
                assert(s0.labels[il].id@ == s0.labels[ib].id@);
            } else {
                assert(s0.labels[il].id@ == s0.labels[ic].id@);
            }
        }
    }
    let plan = states[2].plan@;
    lemma_sibling_independence(v@, a, b, c, ids(plan));
    assert(ids(plan)[0] == b.id@);
    assert(plan.len() == 1);
    assert(replies.len() >= 3);
    assert(remove_link(stores, states, steps, replies, 2));
    lemma_done_ok(steps[3]);
    if replies.len() > 3 {
        assert(remove_link(stores, states, steps, replies, 3));
    }
}

/// Assigning a label succeeds exactly as its ancestor chain allows, and adds
/// that chain: where `ch` is the whole chain from the label up to the root
/// (short enough to walk) and the request exists, the assignment succeeds and
/// adds the label and each of its ancestors, and nothing else, to the
/// request's assignment set.
pub proof fn lemma_assign_complete(
    req: String,
    label: String,
    ch: Seq<Label>,
    stores: Seq<StoreModel>,
    states: Seq<Assignment>,
    steps: Seq<Step<()>>,
    replies: Seq<StoreReply>,
)
    requires
        assign_run(req, label, stores, states, steps, replies),
        model_wf(stores[0]),
        can_assign(stores[0], req, label, ch),
    ensures
        steps.last() == Step::<()>::Done(Ok(())),
        stores.last().assigned == added(stores[0].assigned, req@, ch, ch.len() as int),
{
    lemma_assign_end(req, label, ch, stores, states, steps, replies);
    lemma_done_ok(steps.last());
    let chain = states.last().chain@;
    assert(is_prefix_of(chain, ch));
    lemma_full_chain_unique(stores[0], label@, chain, ch);
}

/// An assignment either succeeds, having added a label's whole ancestor chain
/// (the label first) to the request's assignment set, or fails and leaves the
/// store as it was.
pub proof fn lemma_assign_outcome(
    req: String,
    label: String,
    stores: Seq<StoreModel>,
    states: Seq<Assignment>,
    steps: Seq<Step<()>>,
    replies: Seq<StoreReply>,
)
    requires
        assign_run(req, label, stores, states, steps, replies),
        model_wf(stores[0]),
    ensures
        steps.last() matches Step::Done(r) && (r is Ok ==> is_full_chain(stores[0].labels, label@, states.last().chain@)
            && stores.last().assigned == added(stores[0].assigned, req@, states.last().chain@, states.last().chain@.len() as int)),
        steps.last() matches Step::Done(r) && (r is Err ==> stores.last() == stores[0]),
{
    lemma_assign_end(req, label, Seq::<Label>::empty(), stores, states, steps, replies);
}

/// The assignments `a` without those of the request `r` to the first `k` ids of `order`.
pub open spec fn removed(a: Set<(Seq<char>, Seq<char>)>, r: Seq<char>, order: Seq<Seq<char>>, k: int) -> Set<
    (Seq<char>, Seq<char>),
> {
    a.difference(Set::new(|p: (Seq<char>, Seq<char>)| exists|j: int| 0 <= j < k && p == (r, order[j])))
}

/// `v` lists the labels assigned to the request `r` in the store `m`.
pub open spec fn lists_assigned(m: StoreModel, r: Seq<char>, v: Seq<Label>) -> bool {
    forall|l: Label| #[trigger] v.contains(l) <==> m.labels.contains(l) && m.assigned.contains((r, l.id@))
}

/// The request exists and the label, which is not the root, is assigned to it.
pub open spec fn removal_can_succeed(s0: StoreModel, req: String, label: String) -> bool {
    &&& s0.requests.contains(req@)
    &&& s0.assigned.contains((req@, label@))
    &&& label@ != root_id()
}

/// Where a removal can succeed, each id of the plan is still assigned when its turn comes.
proof fn lemma_planned_still_assigned(
    s0: StoreModel,
    req: String,
    label: String,
    v: Seq<Label>,
    order: Seq<Seq<char>>,
    k: int,
)
    requires
        removal_can_succeed(s0, req, label),
        lists_assigned(s0, req@, v),
        is_removal_order(v, label@, order),
        0 <= k < order.len(),
    ensures
        removed(s0.assigned, req@, order, k).contains((req@, order[k])),
{
    if k < order.len() - 1 {
        assert(parent_after(v, order, k));
        let (l, j) = choose|l: Label, j: int|
            #![trigger v.contains(l), order[j]]
            v.contains(l) && k < j < order.len() && l.id@ == order[k] && order[j] == l.parent@;
        assert(s0.assigned.contains((req@, l.id@)));
    }
    if exists|j: int| 0 <= j < k && (req@, order[k]) == (req@, order[j]) {
        let j = choose|j: int| 0 <= j < k && (req@, order[k]) == (req@, order[j]);
        assert(order[j] == order[k]);
    }
}

/// What holds at each point of a removal run that started on the store `s0`.
pub open spec fn remove_inv(s0: StoreModel, req: String, label: String, m: StoreModel, s: Removal, step: Step<()>) -> bool {
    let planned = exists|v: Seq<Label>| lists_assigned(s0, req@, v) && is_removal_order(v, label@, ids(s.plan@));
    &&& removal_can_succeed(s0, req, label) && step is Done ==> step->Done_0 is Ok
    &&& m.labels == s0.labels
    &&& m.requests == s0.requests
    &&& s.request_id == req
    &&& s.label_id == label
    &&& match s.phase {
        RemovePhase::CheckRequest => m.assigned == s0.assigned && step == Step::<()>::Call(
            StoreCall::RequestExists(req),
        ),
        RemovePhase::Fetch => m.assigned == s0.assigned && step == Step::<()>::Call(StoreCall::AssignedLabels(req)),
        RemovePhase::Remove(k) => {
            &&& k < s.plan@.len()
            &&& s.plan@.len() <= usize::MAX
            &&& planned
            &&& m.assigned == removed(s0.assigned, req@, ids(s.plan@), k as int)
            &&& step == Step::<()>::Call(StoreCall::RemoveAssignment(req, s.plan@[k as int]))
        },
        RemovePhase::Finished => step matches Step::Done(r) && (r is Ok ==> planned && m.assigned == removed(
            s0.assigned,
            req@,
            ids(s.plan@),
            s.plan@.len() as int,
        )),
    }
}

proof fn lemma_removed_next(a: Set<(Seq<char>, Seq<char>)>, r: Seq<char>, order: Seq<Seq<char>>, k: int)
    requires
        0 <= k < order.len(),
    ensures
        removed(a, r, order, k + 1) == removed(a, r, order, k).remove((r, order[k])),
{
    assert forall|p: (Seq<char>, Seq<char>)|
        removed(a, r, order, k + 1).contains(p) == removed(a, r, order, k).remove((r, order[k])).contains(p) by {
        if exists|j: int| 0 <= j < k + 1 && p == (r, order[j]) {
            let j = choose|j: int| 0 <= j < k + 1 && p == (r, order[j]);
            if j < k {
                assert(exists|j: int| 0 <= j < k && p == (r, order[j]));
            }
        }
        if exists|j: int| 0 <= j < k && p == (r, order[j]) {
            let j = choose|j: int| 0 <= j < k && p == (r, order[j]);
            assert(0 <= j < k + 1 && p == (r, order[j]));
        }
        if p == (r, order[k]) {
            assert(0 <= k < k + 1 && p == (r, order[k]));
        }
    }
    assert(removed(a, r, order, k + 1) =~= removed(a, r, order, k).remove((r, order[k])));
}

proof fn lemma_remove_move(
    s0: StoreModel,
    req: String,
    label: String,
    m: StoreModel,
    s: Removal,
    step: Step<()>,
    reply: StoreReply,
    m2: StoreModel,
    s2: Removal,
    step2: Step<()>,
)
    requires
        remove_inv(s0, req, label, m, s, step),
        step matches Step::Call(c) && answers(m, c, reply, m2),
        crate::engine::remove_step(s, reply, s2, step2),
    ensures
        remove_inv(s0, req, label, m2, s2, step2),
{
    match s.phase {
        RemovePhase::CheckRequest => {
            assert(reply == StoreReply::Flag(s0.requests.contains(req@)));
            assert(m2 == m);
            if s0.requests.contains(req@) {
                assert(remove_inv(s0, req, label, m2, s2, step2));
            } else {
                assert(step2 == Step::<()>::Done(Err(EngineError::RequestNotFound(req))));
                assert(remove_inv(s0, req, label, m2, s2, step2));
            }
        },
        RemovePhase::Fetch => {
            let v = reply->Labels_0;
            assert(lists_assigned(s0, req@, v@));
            assert(removed(s0.assigned, req@, ids(s2.plan@), 0) =~= s0.assigned);
            if removal_can_succeed(s0, req, label) {
                assert(ids(s2.plan@).len() > 0);
            }
            if s2.plan@.len() > 0 {
                assert(ids(s2.plan@)[0] == s2.plan@[0]@);
                assert(s2.plan@.len() == s2.plan.len());
            }
            assert(remove_inv(s0, req, label, m2, s2, step2));
        },
        RemovePhase::Remove(k) => {
            lemma_removed_next(s0.assigned, req@, ids(s.plan@), k as int);
            assert(ids(s.plan@)[k as int] == s.plan@[k as int]@);
            let v = choose|v: Seq<Label>| lists_assigned(s0, req@, v) && is_removal_order(v, label@, ids(s.plan@));
            assert(m2 == without_assignment(m, req@, s.plan@[k as int]@));
            assert(s2.plan@ == s.plan@);
            assert(lists_assigned(s0, req@, v) && is_removal_order(v, label@, ids(s2.plan@)));
            let n = reply->Removed_0;
            if removal_can_succeed(s0, req, label) {
                lemma_planned_still_assigned(s0, req, label, v, ids(s.plan@), k as int);
                assert(n == 1);
            }
            if n != 1 {
                assert(step2 is Done);
                assert(remove_inv(s0, req, label, m2, s2, step2));
            } else if k + 1 < s.plan@.len() {
                assert(s2.phase == RemovePhase::Remove((k + 1) as usize));
                assert(m2.assigned == removed(s0.assigned, req@, ids(s.plan@), k + 1));
                assert(step2 == Step::<()>::Call(StoreCall::RemoveAssignment(req, s.plan@[k + 1])));
                assert(remove_inv(s0, req, label, m2, s2, step2));
            } else {
                assert(step2 == Step::<()>::Done(Ok(())));
                assert(m2.assigned == removed(s0.assigned, req@, ids(s.plan@), s.plan@.len() as int));
                assert(remove_inv(s0, req, label, m2, s2, step2));
            }
        },
        RemovePhase::Finished => {},
    }
}

proof fn lemma_remove_inv(
    req: String,
    label: String,
    stores: Seq<StoreModel>,
    states: Seq<Removal>,
    steps: Seq<Step<()>>,
    replies: Seq<StoreReply>,
    i: int,
)
    requires
        remove_run(req, label, stores, states, steps, replies),
        0 <= i < states.len(),
    ensures
        remove_inv(stores[0], req, label, stores[i], states[i], steps[i]),
    decreases i,
{
    if i > 0 {
        lemma_remove_inv(req, label, stores, states, steps, replies, i - 1);
        assert(remove_link(stores, states, steps, replies, i - 1));
        lemma_remove_move(
            stores[0],
            req,
            label,
            stores[i - 1],
            states[i - 1],
            steps[i - 1],
            replies[i - 1],
            stores[i],
            states[i],
            steps[i],
        );
    }
}

/// A removal that succeeds has taken off the request exactly a removal order
/// of the label: the label and every label below it among those assigned when
/// the removal began, each child before its parent, and nothing else.
pub proof fn lemma_removal_outcome(
    req: String,
    label: String,
    stores: Seq<StoreModel>,
    states: Seq<Removal>,
    steps: Seq<Step<()>>,
    replies: Seq<StoreReply>,
)
    requires
        remove_run(req, label, stores, states, steps, replies),
    ensures
        steps.last() matches Step::Done(r) && (r is Ok ==> exists|v: Seq<Label>|
            lists_assigned(stores[0], req@, v) && is_removal_order(v, label@, ids(states.last().plan@))
                && stores.last().assigned == removed(
                stores[0].assigned,
                req@,
                ids(states.last().plan@),
                states.last().plan@.len() as int,
            )),
{
    lemma_remove_inv(req, label, stores, states, steps, replies, replies.len() as int);
    let fin = states.last();
    if !(fin.phase is Finished) {
        assert(steps.last() is Call);
    }
}

/// Listing the children of a stored label returns exactly the stored labels
/// whose parent it is, after one existence check, and changes nothing.
pub proof fn lemma_listing_outcome(
    label: String,
    stores: Seq<StoreModel>,
    states: Seq<ChildrenLookup>,
    steps: Seq<Step<Vec<Label>>>,
    replies: Seq<StoreReply>,
)
    requires
        lookup_run(label, stores, states, steps, replies),
        label@ != root_id(),
        has_label(stores[0], label@),
    ensures
        replies.len() == 2,
        steps.last() matches Step::Done(Ok(v)) && forall|l: Label|
            #[trigger] v@.contains(l) <==> stores[0].labels.contains(l) && l.parent@ == label@,
        stores.last() == stores[0],
{
    assert(replies.len() >= 1);
    assert(lookup_link(stores, states, steps, replies, 0));
    assert(replies[0] == StoreReply::Flag(true));
    assert(replies.len() >= 2);
    assert(lookup_link(stores, states, steps, replies, 1));
    if replies.len() > 2 {
        assert(lookup_link(stores, states, steps, replies, 2));
    }
}

/// Removing an assigned label from an existing request succeeds, and takes off
/// exactly the label and every label below it that was assigned when the
/// removal began, each child before its parent.
pub proof fn lemma_removal_succeeds(
    req: String,
    label: String,
    stores: Seq<StoreModel>,
    states: Seq<Removal>,
    steps: Seq<Step<()>>,
    replies: Seq<StoreReply>,
)
    requires
        remove_run(req, label, stores, states, steps, replies),
        removal_can_succeed(stores[0], req, label),
    ensures
        steps.last() == Step::<()>::Done(Ok(())),
        exists|v: Seq<Label>|
            lists_assigned(stores[0], req@, v) && is_removal_order(v, label@, ids(states.last().plan@))
                && stores.last().assigned == removed(
                stores[0].assigned,
                req@,
                ids(states.last().plan@),
                states.last().plan@.len() as int,
            ),
{
    lemma_remove_inv(req, label, stores, states, steps, replies, replies.len() as int);
    let fin = states.last();
    if !(fin.phase is Finished) {
        assert(steps.last() is Call);
    }
    lemma_done_ok(steps.last());
}

} // verus!
