//! The recorded mutations do what reconciliation is for: performed on a live
//! tree that shows the previous generation, they leave a live tree that
//! shows the new one.

use vstd::prelude::*;
use crate::laws::{bindings_stay_exclusive, fresh_upto_grows, fresh_upto_rests};
use crate::live::{
    Label, LiveTree, after_all_concat, bindings, replaced, replaced_the_one,
    shows_where_it_agrees, without, without_is_gone, without_the_one,
};
use crate::model::{
    Action, NodeView, action, bound_node, child_at, content, creation, fresh_count, fresh_upto,
    own_fresh, pair_count, paired_children, patches, patches_upto, placement, reconciled,
    reconciled_children, removal,
};
use crate::mutation::MutationView;

verus! {

/// Whether the live tree is ready for a node to be reconciled against
/// `last` under `parent`: the parent is there, every live node was numbered
/// before `next`, and a bound `last` is shown by the live tree, holds no
/// live node twice and does not hold the parent.
pub open spec fn in_place(tree: LiveTree, last: Option<NodeView>, parent: int, next: int) -> bool {
    &&& tree.below(next)
    &&& tree.has(parent)
    &&& last is Some && last->0.bound_to() is Some ==> {
        &&& tree.shows(last->0)
        &&& last->0.exclusive()
        &&& last->0.below(next)
        &&& !last->0.holds(parent)
    }
}

/// Whether reconciling `new` against `last` under `parent` may change what
/// the live tree says of the live node `node`: it is the parent, a new live
/// node, or a live node that `last` holds.
pub open spec fn touched(
    new: NodeView,
    last: Option<NodeView>,
    parent: int,
    next: int,
    node: int,
) -> bool {
    ||| node == parent
    ||| next <= node < next + fresh_count(new, last)
    ||| last is Some && last->0.bound_to() is Some && last->0.holds(node)
}

/// The children of the parent after `new` has met `last`: as before where
/// the live node was taken over, with the new live node in the place of the
/// previous one where it was replaced, and with the new live node behind
/// the others where there was none before.
pub open spec fn children_after(
    list: Seq<int>,
    new: NodeView,
    last: Option<NodeView>,
    next: int,
) -> Seq<int> {
    match action(new, last) {
        Action::Reuse => list,
        Action::Replace => replaced(list, last->0.bound_to()->0, next),
        Action::Create => list.push(next),
    }
}

/// Whether the live tree is ready for the children of the live element
/// `element` to be reconciled against `olds`: the live element has the live
/// nodes of `olds` as its children, each of `olds` is shown, and no live
/// node is held by two of them or is the live element itself.
spec fn children_in_place(
    tree: LiveTree,
    olds: Seq<NodeView>,
    element: int,
    first: int,
) -> bool {
    &&& tree.below(first)
    &&& tree.has(element)
    &&& tree.children[element] == bindings(olds)
    &&& forall|i: int|
        0 <= i < olds.len() ==> {
            &&& tree.shows(#[trigger] olds[i])
            &&& olds[i].exclusive()
            &&& olds[i].below(first)
            &&& !olds[i].holds(element)
        }
    &&& forall|i: int, j: int, node: int|
        0 <= i < j < olds.len() && #[trigger] olds[i].holds(node) ==> !#[trigger] olds[j].holds(
            node,
        )
}

/// The children of a live element when the first `k` positions have been
/// dealt with: the live nodes of the new children so far, then those of the
/// previous children that are still waiting.
spec fn staged(settled: Seq<int>, waiting: Seq<int>, k: int) -> Seq<int> {
    settled.subrange(
        0,
        if k <= settled.len() {
            k
        } else {
            settled.len() as int
        },
    ) + waiting.subrange(
        if k <= waiting.len() {
            k
        } else {
            waiting.len() as int
        },
        waiting.len() as int,
    )
}

/// Whether none of the first `k` previous children holds `node`.
spec fn spared(olds: Seq<NodeView>, k: int, node: int) -> bool {
    forall|i: int| 0 <= i < k && i < olds.len() ==> !(#[trigger] olds[i]).holds(node)
}

proof fn after_one(tree: LiveTree, mutation: MutationView)
    ensures
        tree.after_all(seq![mutation]) == tree.after(mutation),
{
    reveal_with_fuel(LiveTree::after_all, 2);
    assert(seq![mutation].drop_last() =~= Seq::<MutationView>::empty());
}

proof fn after_two(tree: LiveTree, first: MutationView, second: MutationView)
    ensures
        tree.after_all(seq![first, second]) == tree.after(first).after(second),
{
    assert(seq![first, second] =~= seq![first] + seq![second]);
    after_all_concat(tree, seq![first], seq![second]);
    after_one(tree, first);
    after_one(tree.after(first), second);
}

/// The live node that an old child is bound to is held by that child alone,
/// and was numbered before the new ones.
proof fn old_bindings_apart(tree: LiveTree, olds: Seq<NodeView>, element: int, first: int, i: int)
    requires
        children_in_place(tree, olds, element, first),
        0 <= i < olds.len(),
    ensures
        olds[i].bound_to() is Some,
        olds[i].holds(bindings(olds)[i]),
        bindings(olds)[i] < first,
        bindings(olds)[i] != element,
        forall|j: int| 0 <= j < olds.len() && j != i ==> !(#[trigger] olds[j]).holds(bindings(olds)[i]),
        forall|j: int| 0 <= j < olds.len() && j != i ==> #[trigger] bindings(olds)[j] != bindings(olds)[i],
{
    assert(tree.shows(olds[i]));
    let own = bindings(olds)[i];
    assert(olds[i].holds(own));
    assert forall|j: int| 0 <= j < olds.len() && j != i implies !(#[trigger] olds[j]).holds(
        own,
    ) by {
        if j < i {
            if olds[j].holds(own) {
                assert(!olds[i].holds(own));
            }
        }
    }
    assert forall|j: int| 0 <= j < olds.len() && j != i implies #[trigger] bindings(olds)[j]
        != own by {
        assert(tree.shows(olds[j]));
        assert(olds[j].holds(bindings(olds)[j]));
    }
}

/// What a reconciled child holds: live nodes of the previous child at its
/// position, or new live nodes of its own.
proof fn settled_child_holds(
    tree: LiveTree,
    news: Seq<NodeView>,
    olds: Seq<NodeView>,
    element: int,
    first: int,
    j: int,
)
    requires
        children_in_place(tree, olds, element, first),
        0 <= j < news.len(),
    ensures
        forall|node: int| #[trigger]
            reconciled_children(news, olds, first)[j].holds(node) ==> (j < olds.len()
                && olds[j].holds(node)) || first + fresh_upto(news, olds, j) <= node < first
                + fresh_upto(news, olds, j + 1),
        reconciled_children(news, olds, first)[j].bound_to() == Some(
            bound_node(news[j], child_at(olds, j), first + fresh_upto(news, olds, j)),
        ),
{
    let start = first + fresh_upto(news, olds, j);
    if j < olds.len() {
        assert(tree.shows(olds[j]));
        assert forall|node: int| #[trigger] olds[j].holds(node) implies node < start by {
            assert(olds[j].below(first));
        }
    }
    bindings_stay_exclusive(news[j], child_at(olds, j), start);
}

/// The live node that a reconciled child is bound to stands nowhere among
/// the live nodes of the previous children that wait behind it, nor among
/// the live nodes of the children reconciled before it.
proof fn settled_bindings_apart(
    tree: LiveTree,
    news: Seq<NodeView>,
    olds: Seq<NodeView>,
    element: int,
    first: int,
    i: int,
    upto: int,
)
    requires
        children_in_place(tree, olds, element, first),
        0 <= i < olds.len(),
        0 <= upto <= news.len(),
        upto <= i,
    ensures
        !bindings(reconciled_children(news, olds, first)).subrange(0, upto).contains(
            bindings(olds)[i],
        ),
        !bindings(olds).subrange(i + 1, olds.len() as int).contains(bindings(olds)[i]),
{
    let settled = bindings(reconciled_children(news, olds, first));
    let waiting = bindings(olds);
    let own = waiting[i];
    old_bindings_apart(tree, olds, element, first, i);
    let head = settled.subrange(0, upto);
    let tail = waiting.subrange(i + 1, olds.len() as int);
    assert forall|j: int| 0 <= j < head.len() implies #[trigger] head[j] != own by {
        settled_child_holds(tree, news, olds, element, first, j);
        fresh_upto_grows(news, olds, 0, j);
        assert(head[j] == settled[j]);
        if action(news[j], child_at(olds, j)) is Reuse {
            assert(settled[j] == waiting[j]);
        }
    }
    assert forall|j: int| 0 <= j < tail.len() implies #[trigger] tail[j] != own by {
        assert(tail[j] == waiting[i + 1 + j]);
    }
}

/// Performing the mutations that the first `k` positions of paired children
/// record settles those positions in the live tree.
proof fn children_brought_in_line(
    tree: LiveTree,
    news: Seq<NodeView>,
    olds: Seq<NodeView>,
    element: int,
    first: int,
    k: int,
)
    requires
        children_in_place(tree, olds, element, first),
        0 <= k <= pair_count(news, olds),
    ensures
        ({
            let then = tree.after_all(patches_upto(news, olds, element, first, k));
            let after = reconciled_children(news, olds, first);
            &&& then.below(first + fresh_upto(news, olds, k))
            &&& then.has(element)
            &&& then.labels[element] == tree.labels[element]
            &&& then.children[element] == staged(bindings(after), bindings(olds), k)
            &&& forall|i: int| 0 <= i < k && i < news.len() ==> then.shows(#[trigger] after[i])
            &&& forall|node: int|
                node != element && !(first <= node < first + fresh_upto(news, olds, k)) && spared(
                    olds,
                    k,
                    node,
                ) ==> #[trigger] tree.agrees_on(then, node)
        }),
    decreases news, k,
{
    let after = reconciled_children(news, olds, first);
    let settled = bindings(after);
    let waiting = bindings(olds);
    let n = news.len() as int;
    let m = olds.len() as int;
    if k == 0 {
        assert(staged(settled, waiting, 0) =~= waiting);
    } else {
        let i = k - 1;
        let before = tree.after_all(patches_upto(news, olds, element, first, i));
        let then = tree.after_all(patches_upto(news, olds, element, first, k));
        let start = first + fresh_upto(news, olds, i);
        children_brought_in_line(tree, news, olds, element, first, i);
        fresh_upto_grows(news, olds, 0, i);
        fresh_upto_grows(news, olds, i, k);
        assert(element < first);
        if i < n {
            let old = child_at(olds, i);
            let step = patches(news[i], old, element, start);
            after_all_concat(tree, patches_upto(news, olds, element, first, i), step);
            assert(then == before.after_all(step));
            if i < m {
                old_bindings_apart(tree, olds, element, first, i);
                assert forall|held: int| #[trigger] olds[i].holds(held) implies tree.agrees_on(
                    before,
                    held,
                ) by {
                    assert(olds[i].below(first));
                    assert forall|j: int| 0 <= j < i && j < olds.len() implies !(
                    #[trigger] olds[j]).holds(held) by {
                        if olds[j].holds(held) {
                            assert(!olds[i].holds(held));
                        }
                    }
                    assert(spared(olds, i, held));
                }
                shows_where_it_agrees(tree, before, olds[i]);
                assert forall|held: int| #[trigger] olds[i].holds(held) implies held < start by {
                    assert(olds[i].below(first));
                }
            }
            assert(in_place(before, old, element, start));
            mutations_bring_in_line(before, news[i], old, element, start);
            settled_child_holds(tree, news, olds, element, first, i);
            assert(then.children[element] == staged(settled, waiting, k)) by {
                assert(settled[i] == bound_node(news[i], old, start));
                if i < m {
                    if action(news[i], old) is Reuse {
                        assert(settled[i] == waiting[i]);
                        assert(staged(settled, waiting, i) =~= staged(settled, waiting, k));
                    } else {
                        settled_bindings_apart(tree, news, olds, element, first, i, i);
                        replaced_the_one(
                            settled.subrange(0, i),
                            waiting[i],
                            waiting.subrange(i + 1, m),
                            start,
                        );
                        assert(staged(settled, waiting, i) =~= settled.subrange(0, i)
                            + seq![waiting[i]] + waiting.subrange(i + 1, m));
                        assert(staged(settled, waiting, k) =~= settled.subrange(0, i)
                            + seq![start] + waiting.subrange(i + 1, m));
                    }
                } else {
                    assert(staged(settled, waiting, i).push(start) =~= staged(
                        settled,
                        waiting,
                        k,
                    ));
                }
            }
            assert forall|j: int| 0 <= j < k && j < news.len() implies then.shows(
                #[trigger] after[j],
            ) by {
                if j < i {
                    settled_child_holds(tree, news, olds, element, first, j);
                    fresh_upto_grows(news, olds, 0, j);
                    fresh_upto_grows(news, olds, j + 1, i);
                    assert forall|held: int| #[trigger] after[j].holds(held) implies before.agrees_on(
                        then,
                        held,
                    ) by {
                        if j < m && olds[j].holds(held) {
                            assert(olds[j].below(first));
                            if i < m {
                                assert(!olds[i].holds(held));
                            }
                        } else {
                            if i < m {
                                assert(olds[i].below(first));
                            }
                        }
                        assert(!touched(news[i], old, element, start, held));
                    }
                    shows_where_it_agrees(before, then, after[j]);
                }
            }
            assert forall|node: int|
                node != element && !(first <= node < first + fresh_upto(news, olds, k)) && spared(
                    olds,
                    k,
                    node,
                ) implies #[trigger] tree.agrees_on(then, node) by {
                assert(spared(olds, i, node));
                assert(tree.agrees_on(before, node));
                if i < m {
                    assert(!olds[i].holds(node));
                }
                assert(!touched(news[i], old, element, start, node));
                assert(before.agrees_on(then, node));
            }
        } else {
            let own = waiting[i];
            old_bindings_apart(tree, olds, element, first, i);
            let step = removal(olds[i], element);
            assert(step == seq![MutationView::RemoveChild { parent: element, child: own }]);
            after_all_concat(tree, patches_upto(news, olds, element, first, i), step);
            after_one(before, MutationView::RemoveChild { parent: element, child: own });
            assert(then == before.after(MutationView::RemoveChild { parent: element, child: own }));
            settled_bindings_apart(tree, news, olds, element, first, i, n);
            without_the_one(settled.subrange(0, n), own, waiting.subrange(i + 1, m));
            assert(staged(settled, waiting, i) =~= settled.subrange(0, n) + seq![own]
                + waiting.subrange(i + 1, m));
            assert(staged(settled, waiting, k) =~= settled.subrange(0, n) + waiting.subrange(
                i + 1,
                m,
            ));
            assert(then.children[element] == staged(settled, waiting, k));
            assert(then.below(first + fresh_upto(news, olds, k))) by {
                let limit = first + fresh_upto(news, olds, k);
                assert forall|node: int, p: int|
                    then.children.dom().contains(node) && 0 <= p < then.children[node].len()
                        implies #[trigger] then.children[node][p] < limit by {
                    if node == element {
                        let shorter = staged(settled, waiting, k);
                        let longer = staged(settled, waiting, i);
                        if p < n {
                            assert(shorter[p] == longer[p]);
                        } else {
                            assert(shorter[p] == longer[p + 1]);
                        }
                        assert(before.children[element] == longer);
                    } else {
                        assert(then.children[node] == before.children[node]);
                    }
                }
            }
            assert forall|j: int| 0 <= j < k && j < news.len() implies then.shows(
                #[trigger] after[j],
            ) by {
                settled_child_holds(tree, news, olds, element, first, j);
                fresh_upto_grows(news, olds, 0, j);
                assert forall|held: int| #[trigger] after[j].holds(held) implies before.agrees_on(
                    then,
                    held,
                ) by {
                    if j < m && olds[j].holds(held) {
                    }
                }
                shows_where_it_agrees(before, then, after[j]);
            }
            assert forall|node: int|
                node != element && !(first <= node < first + fresh_upto(news, olds, k)) && spared(
                    olds,
                    k,
                    node,
                ) implies #[trigger] tree.agrees_on(then, node) by {
                assert(spared(olds, i, node));
                assert(tree.agrees_on(before, node));
                assert(before.agrees_on(then, node));
            }
        }
    }
}

/// Performing what discarding a node records takes its live node, if it
/// has one, out of the children of the parent, and changes nothing else. A
/// node that was never materialised leaves the live tree as it is.
pub proof fn discarding_takes_out(tree: LiveTree, stale: NodeView, parent: int)
    requires
        tree.has(parent),
    ensures
        ({
            let then = tree.after_all(removal(stale, parent));
            &&& then.has(parent)
            &&& then.labels == tree.labels
            &&& then.children[parent] == match stale.bound_to() {
                Some(node) => without(tree.children[parent], node),
                None => tree.children[parent],
            }
            &&& stale.bound_to() is Some ==> !then.children[parent].contains(
                stale.bound_to()->0,
            )
            &&& forall|node: int| node != parent ==> #[trigger] tree.agrees_on(then, node)
        }),
{
    match stale.bound_to() {
        Some(node) => {
            after_one(tree, MutationView::RemoveChild { parent, child: node });
            without_is_gone(tree.children[parent], node);
        },
        None => {},
    }
}

/// Performing the recorded mutations brings the live tree in line with the
/// reconciled node.
///
/// Where the live tree shows the previous node, the parent is there and
/// every live node was numbered before, the live tree after the mutations
/// shows the reconciled node: every node of it is bound to a live node of
/// its kind, with its tag or content, whose children are the live nodes of
/// the node's children in order. The reconciled node stands among the
/// children of the parent where the previous one stood, or behind the
/// others where there was none. Nothing else in the live tree has changed
/// but what the previous node held.
pub proof fn mutations_bring_in_line(
    tree: LiveTree,
    new: NodeView,
    last: Option<NodeView>,
    parent: int,
    next: int,
)
    requires
        in_place(tree, last, parent, next),
    ensures
        ({
            let then = tree.after_all(patches(new, last, parent, next));
            &&& then.shows(reconciled(new, last, next))
            &&& then.below(next + fresh_count(new, last))
            &&& then.has(parent)
            &&& then.labels[parent] == tree.labels[parent]
            &&& then.children[parent] == children_after(tree.children[parent], new, last, next)
            &&& forall|node: int|
                !touched(new, last, parent, next, node) ==> #[trigger] tree.agrees_on(then, node)
        }),
    decreases new, 0int,
{
    let placed = placement(new, last, parent, next);
    let filled = content(new, last, next);
    let settled = tree.after_all(placed);
    let own = bound_node(new, last, next);
    let first = next + own_fresh(new, last);
    assert(parent < next);
    // the live node of the node itself
    match action(new, last) {
        Action::Reuse => {
            assert(placed =~= Seq::<MutationView>::empty());
            assert(settled == tree);
            assert(last->0.holds(own));
        },
        Action::Replace => {
            let made = creation(new, next);
            let put = MutationView::ReplaceChild {
                parent,
                new_child: next,
                old_child: last->0.bound_to()->0,
            };
            after_two(tree, made, put);
            assert(settled == tree.after(made).after(put));
        },
        Action::Create => {
            let made = creation(new, next);
            let put = MutationView::AppendChild { parent, child: next };
            after_two(tree, made, put);
            assert(settled == tree.after(made).after(put));
        },
    }
    assert(settled.has(parent));
    assert(settled.has(own));
    assert(settled.labels[parent] == tree.labels[parent]);
    assert(settled.children[parent] == children_after(tree.children[parent], new, last, next));
    assert(settled.below(first));
    assert forall|node: int| !touched(new, last, parent, next, node) implies tree.agrees_on(
        settled,
        node,
    ) by {}
    match new {
        NodeView::Element { tag, children, .. } => {
            let olds = paired_children(new, last);
            let count = pair_count(children, olds);
            let rest = patches_upto(children, olds, own, first, count);
            after_all_concat(tree, placed, filled);
            after_all_concat(tree, placed + filled, rest);
            after_one(settled, filled[0]);
            assert(filled =~= seq![filled[0]]);
            assert(tree.after_all(placed + filled) == settled);
            let then = settled.after_all(rest);
            assert(then == tree.after_all(patches(new, last, parent, next)));
            assert(children_in_place(settled, olds, own, first)) by {
                if action(new, last) is Reuse {
                    let previous = last->0;
                    assert(previous->children == olds);
                    assert forall|i: int| 0 <= i < olds.len() implies (#[trigger] olds[i]).below(
                        first,
                    ) by {
                        assert forall|node: int| #[trigger] olds[i].holds(node) implies node
                            < first by {
                            assert(previous.holds(node));
                        }
                    }
                    assert forall|i: int| 0 <= i < olds.len() implies !(#[trigger] olds[i]).holds(
                        own,
                    ) by {}
                } else {
                    assert(settled.children[own] =~= bindings(olds));
                }
            }
            children_brought_in_line(settled, children, olds, own, first, count);
            fresh_upto_rests(children, olds, count);
            let after = reconciled_children(children, olds, first);
            assert(staged(bindings(after), bindings(olds), count) =~= bindings(after));
            assert(then.labels[own] == Label::Element { tag });
            assert(then.shows(reconciled(new, last, next)));
            assert forall|node: int|
                !touched(new, last, parent, next, node) || node == parent implies settled.agrees_on(
                then,
                node,
            ) by {
                assert forall|i: int| 0 <= i < count && i < olds.len() implies !(
                #[trigger] olds[i]).holds(node) by {
                    if olds[i].holds(node) {
                        assert(last->0->children == olds);
                        assert(last->0.holds(node));
                    }
                }
                assert(spared(olds, count, node));
            }
            assert(settled.agrees_on(then, parent));
            assert(then.below(next + fresh_count(new, last)));
            assert(then.has(parent));
            assert(then.labels[parent] == tree.labels[parent]);
            assert(then.children[parent] == children_after(tree.children[parent], new, last, next));
            assert forall|node: int| !touched(new, last, parent, next, node) implies #[trigger] tree.agrees_on(
                then,
                node,
            ) by {
                assert(tree.agrees_on(settled, node));
                assert(settled.agrees_on(then, node));
            }
        },
        NodeView::Text { text, .. } => {
            after_all_concat(tree, placed, filled);
            let then = settled.after_all(filled);
            assert(then == tree.after_all(patches(new, last, parent, next)));
            if filled.len() == 0 {
                assert(then == settled);
            } else {
                assert(filled =~= seq![filled[0]]);
                after_one(settled, filled[0]);
            }
        },
    }
}

/// What a reconciliation needs of the live tree, it leaves behind: after the
/// recorded mutations have been performed, the live tree is ready for the
/// next generation to be reconciled against the reconciled node under the
/// same parent.
pub proof fn ready_for_the_next_generation(
    tree: LiveTree,
    new: NodeView,
    last: Option<NodeView>,
    parent: int,
    next: int,
)
    requires
        in_place(tree, last, parent, next),
    ensures
        in_place(
            tree.after_all(patches(new, last, parent, next)),
            Some(reconciled(new, last, next)),
            parent,
            next + fresh_count(new, last),
        ),
{
    mutations_bring_in_line(tree, new, last, parent, next);
    bindings_stay_exclusive(new, last, next);
}

} // verus!
