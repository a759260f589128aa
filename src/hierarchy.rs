use vstd::prelude::*;

use crate::label::{is_root, root_id, Label};

verus! {

/// The ids that a list of strings holds, in order.
pub open spec fn ids(v: Seq<String>) -> Seq<Seq<char>> {
    v.map_values(|s: String| s@)
}

/// The id at `order[j]` belongs to a label of `labels` whose parent stands later in `order`.
pub open spec fn parent_after(labels: Seq<Label>, order: Seq<Seq<char>>, j: int) -> bool {
    exists|l: Label, k: int|
        #![trigger labels.contains(l), order[k]]
        labels.contains(l) && j < k < order.len() && l.id@ == order[j] && order[k] == l.parent@
}

/// Every label of `labels` whose parent is in `order` is in `order` too.
pub open spec fn closed_under_children(labels: Seq<Label>, order: Seq<Seq<char>>) -> bool {
    forall|l: Label| #[trigger] labels.contains(l) && order.contains(l.parent@) ==> order.contains(l.id@)
}

/// `order` is a removal of `target` together with every label of `labels` below it, children
/// before their parents: it ends with `target`, names each label once, leaves no child of a
/// removed label behind, and removes each other label before the parent it was reached from.
/// Removing the root sentinel removes nothing.
pub open spec fn is_removal_order(labels: Seq<Label>, target: Seq<char>, order: Seq<Seq<char>>) -> bool {
    if target == root_id() {
        order.len() == 0
    } else {
        &&& order.len() > 0
        &&& order.last() == target
        &&& order.no_duplicates()
        &&& closed_under_children(labels, order)
        &&& forall|j: int| 0 <= j < order.len() - 1 ==> #[trigger] parent_after(labels, order, j)
    }
}

proof fn lemma_ids_push(v: Seq<String>, s: String)
    ensures
        ids(v.push(s)) == ids(v).push(s@),
{
    assert(ids(v.push(s)) =~= ids(v).push(s@));
}

proof fn lemma_ids_concat(a: Seq<String>, b: Seq<String>)
    ensures
        ids(a + b) == ids(a) + ids(b),
{
    assert(ids(a + b) =~= ids(a) + ids(b));
}

spec fn kept_before(labels: Seq<Label>, id: Seq<char>, l: Label, n: int) -> bool {
    exists|k: int| 0 <= k < n && labels[k] == l && l.id@ != id
}

/// The position of the first label of `labels` whose parent is `parent`.
fn find_child(labels: &Vec<Label>, parent: &String) -> (r: Option<usize>)
    ensures
        r matches Some(p) ==> p < labels@.len() && labels@[p as int].parent@ == parent@,
        r is None ==> forall|i: int| 0 <= i < labels@.len() ==> labels@[i].parent@ != parent@,
{
    let mut i: usize = 0;
    while i < labels.len()
        invariant
            i <= labels@.len(),
            forall|k: int| 0 <= k < i ==> labels@[k].parent@ != parent@,
        decreases labels@.len() - i,
    {
        if labels[i].parent == *parent {
            return Some(i);
        }
        i += 1;
    }
    None
}

/// The labels of `labels` whose id is not `id`, in their order.
fn without_id(labels: &Vec<Label>, id: &String) -> (r: Vec<Label>)
    ensures
        forall|l: Label| #[trigger] r@.contains(l) <==> (labels@.contains(l) && l.id@ != id@),
        r@.len() <= labels@.len(),
        (exists|i: int| 0 <= i < labels@.len() && labels@[i].id@ == id@) ==> r@.len() < labels@.len(),
{
    let mut r: Vec<Label> = Vec::new();
    let mut i: usize = 0;
    let ghost mut skipped: bool = false;
    while i < labels.len()
        invariant
            i <= labels@.len(),
            forall|j: int| 0 <= j < r@.len() ==> #[trigger] kept_before(labels@, id@, r@[j], i as int),
            forall|k: int| 0 <= k < i && labels@[k].id@ != id@ ==> r@.contains(labels@[k]),
            r@.len() <= i,
            skipped ==> r@.len() < i,
            (exists|k: int| 0 <= k < i && labels@[k].id@ == id@) ==> skipped,
        decreases labels@.len() - i,
    {
        let ghost old_r = r@;
        if labels[i].id != *id {
            let l = labels[i].duplicate();
            r.push(l);
            proof {
                assert(r@ == old_r.push(labels@[i as int]));
                assert forall|j: int| 0 <= j < r@.len() implies #[trigger] kept_before(labels@, id@, r@[j], i + 1) by {
                    if j < old_r.len() {
                        assert(r@[j] == old_r[j]);
                        assert(kept_before(labels@, id@, old_r[j], i as int));
                        let k = choose|k: int| 0 <= k < i && labels@[k] == old_r[j] && old_r[j].id@ != id@;
                        assert(0 <= k < i + 1 && labels@[k] == r@[j]);
                    } else {
                        assert(r@[j] == labels@[i as int]);
                    }
                }
                assert forall|k: int| 0 <= k < i + 1 && labels@[k].id@ != id@ implies r@.contains(labels@[k]) by {
                    if k < i {
                        let j = choose|j: int| 0 <= j < old_r.len() && old_r[j] == labels@[k];
                        assert(r@[j] == labels@[k]);
                    } else {
                        assert(r@[old_r.len() as int] == labels@[k]);
                    }
                }
            }
        } else {
            proof {
                skipped = true;
                assert forall|j: int| 0 <= j < r@.len() implies #[trigger] kept_before(labels@, id@, r@[j], i + 1) by {
                    assert(kept_before(labels@, id@, r@[j], i as int));
                    let k = choose|k: int| 0 <= k < i && labels@[k] == r@[j] && r@[j].id@ != id@;
                    assert(0 <= k < i + 1 && labels@[k] == r@[j]);
                }
            }
        }
        i += 1;
    }
    proof {
        assert forall|l: Label| #[trigger] r@.contains(l) <==> (labels@.contains(l) && l.id@ != id@) by {
            if r@.contains(l) {
                let j = choose|j: int| 0 <= j < r@.len() && r@[j] == l;
                assert(kept_before(labels@, id@, r@[j], i as int));
            }
            if labels@.contains(l) && l.id@ != id@ {
                let k = choose|k: int| 0 <= k < labels@.len() && labels@[k] == l;
                assert(r@.contains(labels@[k]));
            }
        }
    }
    r
}

/// Ids of `work` are kept exactly when they are not in `removed`; nothing else is in `work`.
spec fn filtered(w0: Seq<Label>, work: Seq<Label>, removed: Seq<Seq<char>>) -> bool {
    &&& forall|l: Label| #[trigger] work.contains(l) ==> w0.contains(l) && !removed.contains(l.id@)
    &&& forall|l: Label| #[trigger] w0.contains(l) && !removed.contains(l.id@) ==> work.contains(l)
}

/// Removes from `work` every label below `t`, depth first, and returns the ids removed followed
/// by `t`: each child of `t` with its own subtree before `t` itself.
fn visit(t: &String, items: Vec<Label>) -> (res: (Vec<String>, Vec<Label>))
    requires
        forall|l: Label| #[trigger] items@.contains(l) ==> l.id@ != t@,
    ensures
        ids(res.0@).len() > 0,
        ids(res.0@).last() == t@,
        ids(res.0@).no_duplicates(),
        forall|j: int| 0 <= j < ids(res.0@).len() - 1 ==> #[trigger] parent_after(items@, ids(res.0@), j),
        filtered(items@, res.1@, ids(res.0@)),
        forall|l: Label| #[trigger] res.1@.contains(l) ==> !ids(res.0@).contains(l.parent@),
        res.1@.len() <= items@.len(),
    decreases items@.len(),
{
    let ghost w0 = items@;
    let mut work = items;
    let mut acc: Vec<String> = Vec::new();
    proof {
        assert(ids(acc@) =~= Seq::<Seq<char>>::empty());
    }
    loop
        invariant
            forall|l: Label| #[trigger] w0.contains(l) ==> l.id@ != t@,
            filtered(w0, work@, ids(acc@)),
            forall|l: Label| #[trigger] work@.contains(l) ==> !ids(acc@).contains(l.parent@),
            !ids(acc@).contains(t@),
            ids(acc@).no_duplicates(),
            forall|j: int| 0 <= j < ids(acc@).len() ==> #[trigger] parent_after(w0, ids(acc@).push(t@), j),
            work@.len() <= w0.len(),
            w0 == items@,
        ensures
            forall|i: int| 0 <= i < work@.len() ==> work@[i].parent@ != t@,
        decreases work@.len(),
    {
        let pos = match find_child(&work, t) {
            Some(p) => p,
            None => break,
        };
        let c = work[pos].id.clone();
        let ghost cl = work@[pos as int];
        let ghost w1 = work@;
        let ghost a0 = ids(acc@);
        assert(w1.contains(cl));
        assert(w1[pos as int].id@ == c@);
        let next = without_id(&work, &c);
        let ghost w2 = next@;
        let (sub, rest) = visit(&c, next);
        work = rest;
        let ghost b = ids(sub@);
        let ghost w3 = work@;
        proof {
            // The new block is disjoint from what was removed before, and from `t`.
            assert forall|x: int| 0 <= x < b.len() implies !a0.contains(#[trigger] b[x]) && b[x] != t@ by {
                if x < b.len() - 1 {
                    assert(parent_after(w2, b, x));
                    let (l, k) = choose|l: Label, k: int|
                        #![trigger w2.contains(l), b[k]]
                        w2.contains(l) && x < k < b.len() && l.id@ == b[x] && b[k] == l.parent@;
                    assert(w1.contains(l));
                    assert(w0.contains(l));
                } else {
                    assert(w0.contains(cl));
                }
            }
        }
        let ghost acc0 = acc@;
        let mut sub_mut = sub;
        acc.append(&mut sub_mut);
        proof {
            lemma_ids_concat(acc0, sub@);
            let a1 = ids(acc@);
            assert(a1 == a0 + b);
            assert forall|x: int, y: int| 0 <= x < a1.len() && 0 <= y < a1.len() && x != y implies a1[x] != a1[y] by {
                if x < a0.len() && y >= a0.len() {
                    assert(b[y - a0.len()] == a1[y]);
                    assert(a0.contains(a1[x]));
                } else if y < a0.len() && x >= a0.len() {
                    assert(b[x - a0.len()] == a1[x]);
                    assert(a0.contains(a1[y]));
                } else if x >= a0.len() && y >= a0.len() {
                    assert(b[x - a0.len()] == a1[x]);
                    assert(b[y - a0.len()] == a1[y]);
                }
            }
            assert(!a1.contains(t@)) by {
                if a1.contains(t@) {
                    let x = choose|x: int| 0 <= x < a1.len() && a1[x] == t@;
                    if x >= a0.len() {
                        assert(b[x - a0.len()] == a1[x]);
                    }
                }
            }
            assert forall|l: Label| #[trigger] w3.contains(l) implies w0.contains(l) && !a1.contains(l.id@) by {
                assert(w2.contains(l));
                assert(w1.contains(l));
                if a1.contains(l.id@) {
                    let x = choose|x: int| 0 <= x < a1.len() && a1[x] == l.id@;
                    if x >= a0.len() {
                        assert(b[x - a0.len()] == a1[x]);
                        assert(b.contains(l.id@));
                    } else {
                        assert(a0.contains(l.id@));
                    }
                }
            }
            assert forall|l: Label| #[trigger] w0.contains(l) && !a1.contains(l.id@) implies w3.contains(l) by {
                assert(!a0.contains(l.id@)) by {
                    if a0.contains(l.id@) {
                        let x = choose|x: int| 0 <= x < a0.len() && a0[x] == l.id@;
                        assert(a1[x] == a0[x]);
                    }
                }
                assert(w1.contains(l));
                assert(b[b.len() - 1] == c@);
                assert(a1[a0.len() + b.len() - 1] == c@);
                assert(l.id@ != c@);
                assert(w2.contains(l));
                assert(!b.contains(l.id@)) by {
                    if b.contains(l.id@) {
                        let x = choose|x: int| 0 <= x < b.len() && b[x] == l.id@;
                        assert(a1[a0.len() + x] == b[x]);
                    }
                }
            }
            assert forall|l: Label| #[trigger] w3.contains(l) implies !a1.contains(l.parent@) by {
                assert(w2.contains(l));
                assert(w1.contains(l));
                assert(!b.contains(l.parent@));
                assert(!a0.contains(l.parent@));
                if a1.contains(l.parent@) {
                    let x = choose|x: int| 0 <= x < a1.len() && a1[x] == l.parent@;
                    if x >= a0.len() {
                        assert(b[x - a0.len()] == a1[x]);
                    } else {
                        assert(a0[x] == a1[x]);
                    }
                }
            }
            let full = a1.push(t@);
            let old_full = a0.push(t@);
            assert forall|j: int| 0 <= j < a1.len() implies #[trigger] parent_after(w0, full, j) by {
                if j < a0.len() {
                    assert(parent_after(w0, old_full, j));
                    let (l, k) = choose|l: Label, k: int|
                        #![trigger w0.contains(l), old_full[k]]
                        w0.contains(l) && j < k < old_full.len() && l.id@ == old_full[j] && old_full[k] == l.parent@;
                    assert(full[j] == old_full[j]);
                    if k < a0.len() {
                        assert(full[k] == old_full[k]);
                    } else {
                        assert(full[a1.len() as int] == l.parent@);
                    }
                } else if j < a1.len() - 1 {
                    let x = j - a0.len();
                    assert(parent_after(w2, b, x));
                    let (l, k) = choose|l: Label, k: int|
                        #![trigger w2.contains(l), b[k]]
                        w2.contains(l) && x < k < b.len() && l.id@ == b[x] && b[k] == l.parent@;
                    assert(w1.contains(l));
                    assert(full[j] == b[x]);
                    assert(full[a0.len() + k] == b[k]);
                } else {
                    assert(w0.contains(cl));
                    assert(full[j] == c@);
                    assert(full[a1.len() as int] == t@);
                }
            }
        }
    }
    let ghost a = ids(acc@);
    let ghost w_end = work@;
    let ghost acc_before = acc@;
    let tc = t.clone();
    acc.push(tc);
    proof {
        lemma_ids_push(acc_before, tc);
        let fin = ids(acc@);
        assert(fin == a.push(t@));
        assert forall|l: Label| #[trigger] w_end.contains(l) implies w0.contains(l) && !fin.contains(l.id@) by {
            assert(l.id@ != t@);
            if fin.contains(l.id@) {
                let x = choose|x: int| 0 <= x < fin.len() && fin[x] == l.id@;
                if x < a.len() {
                    assert(a[x] == fin[x]);
                }
            }
        }
        assert forall|l: Label| #[trigger] w0.contains(l) && !fin.contains(l.id@) implies w_end.contains(l) by {
            if a.contains(l.id@) {
                let x = choose|x: int| 0 <= x < a.len() && a[x] == l.id@;
                assert(fin[x] == a[x]);
            }
        }
        assert forall|l: Label| #[trigger] w_end.contains(l) implies !fin.contains(l.parent@) by {
            let p = choose|p: int| 0 <= p < w_end.len() && w_end[p] == l;
            assert(w_end[p].parent@ != t@);
            if fin.contains(l.parent@) {
                let x = choose|x: int| 0 <= x < fin.len() && fin[x] == l.parent@;
                if x < a.len() {
                    assert(a[x] == fin[x]);
                }
            }
        }
        assert forall|x: int, y: int| 0 <= x < fin.len() && 0 <= y < fin.len() && x != y implies fin[x] != fin[y] by {
            if x < a.len() && y < a.len() {
                assert(a[x] == fin[x] && a[y] == fin[y]);
            } else if x < a.len() {
                assert(a[x] == fin[x]);
            } else if y < a.len() {
                assert(a[y] == fin[y]);
            }
        }
    }
    (acc, work)
}

/// The ids to take off a request's assignment set when `label_id` is removed from it: the
/// label and every label of `labels` below it, each child before its parent, depth first.
/// Removing the root sentinel takes off nothing.
pub fn remove_label_tree(label_id: &String, labels: &Vec<Label>) -> (order: Vec<String>)
    ensures
        is_removal_order(labels@, label_id@, ids(order@)),
{
    if is_root(label_id) {
        let order: Vec<String> = Vec::new();
        proof {
            assert(ids(order@) =~= Seq::<Seq<char>>::empty());
        }
        return order;
    }
    let work = without_id(labels, label_id);
    let ghost w0 = work@;
    let (order, rest) = visit(label_id, work);
    proof {
        let o = ids(order@);
        assert forall|l: Label| #[trigger] labels@.contains(l) && o.contains(l.parent@) implies o.contains(l.id@) by {
            if l.id@ != label_id@ {
                assert(w0.contains(l));
                if !o.contains(l.id@) {
                    assert(rest@.contains(l));
                }
            } else {
                assert(o[o.len() - 1] == label_id@);
            }
        }
        assert forall|j: int| 0 <= j < o.len() - 1 implies #[trigger] parent_after(labels@, o, j) by {
            assert(parent_after(w0, o, j));
            let (l, k) = choose|l: Label, k: int|
                #![trigger w0.contains(l), o[k]]
                w0.contains(l) && j < k < o.len() && l.id@ == o[j] && o[k] == l.parent@;
            assert(labels@.contains(l));
        }
    }
    order
}

} // verus!
