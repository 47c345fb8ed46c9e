//! What holds of every reconciliation, proved of the definitions that the
//! reconciler is proved to compute.

use vstd::prelude::*;
use crate::model::{
    NodeView, action, appended_children, bound_node, changed_texts, changed_upto,
    child_at, content, creation, discards, fresh_count, fresh_upto, own_fresh, pair_count,
    paired_children, patches, patches_upto, placement, reconciled, reconciled_children,
    removal, sizes_upto,
};
use crate::mutation::{Kind, MutationView, count, count_concat};

verus! {

/// The new live nodes of paired children only grow in number with the
/// positions counted.
pub proof fn fresh_upto_grows(news: Seq<NodeView>, olds: Seq<NodeView>, i: int, n: int)
    requires
        i <= n,
    ensures
        fresh_upto(news, olds, i) <= fresh_upto(news, olds, n),
    decreases n - i,
{
    if i < n {
        fresh_upto_grows(news, olds, i, n - 1);
    }
}

/// Positions beyond the last new child need no new live nodes.
pub proof fn fresh_upto_rests(news: Seq<NodeView>, olds: Seq<NodeView>, k: int)
    requires
        news.len() <= k,
    ensures
        fresh_upto(news, olds, k) == fresh_upto(news, olds, news.len() as int),
    decreases k,
{
    if news.len() < k {
        fresh_upto_rests(news, olds, k - 1);
    }
}

/// The nodes of a list of trees only grow in number with the trees counted.
pub proof fn sizes_upto_grows(nodes: Seq<NodeView>, i: int, n: int)
    requires
        0 <= i <= n <= nodes.len(),
    ensures
        sizes_upto(nodes, i) <= sizes_upto(nodes, n),
    decreases n - i,
{
    if i < n {
        sizes_upto_grows(nodes, i, n - 1);
    }
}

/// A reconciliation needs at most one new live node for each node of the
/// new tree.
pub proof fn fresh_within_size(new: NodeView, last: Option<NodeView>)
    ensures
        fresh_count(new, last) <= new.size(),
    decreases new, 0int,
{
    match new {
        NodeView::Element { children, .. } => {
            fresh_within_sizes(children, paired_children(new, last), children.len() as int);
        },
        NodeView::Text { .. } => {},
    }
}

proof fn fresh_within_sizes(news: Seq<NodeView>, olds: Seq<NodeView>, k: int)
    requires
        0 <= k <= news.len(),
    ensures
        fresh_upto(news, olds, k) <= sizes_upto(news, k),
    decreases news, k,
{
    if k > 0 {
        fresh_within_sizes(news, olds, k - 1);
        fresh_within_size(news[k - 1], child_at(olds, k - 1));
    }
}

/// A reconciled node is bound to a live node, and so is every node below it,
/// whatever it was reconciled against.
pub proof fn bound_after_reconciliation(new: NodeView, last: Option<NodeView>, next: int)
    ensures
        reconciled(new, last, next).bound_throughout(),
    decreases new,
{
    match new {
        NodeView::Element { children, .. } => {
            let olds = paired_children(new, last);
            let first = next + own_fresh(new, last);
            let result = reconciled(new, last, next);
            assert forall|i: int| 0 <= i < result->children.len() implies (
            #[trigger] result->children[i]).bound_throughout() by {
                bound_after_reconciliation(
                    children[i],
                    child_at(olds, i),
                    first + fresh_upto(children, olds, i),
                );
            }
        },
        NodeView::Text { .. } => {},
    }
}

/// Reconciliation changes bindings only: the reconciled node describes what
/// the new node described.
pub proof fn description_kept(new: NodeView, last: Option<NodeView>, next: int)
    ensures
        reconciled(new, last, next).description() == new.description(),
    decreases new,
{
    match new {
        NodeView::Element { children, .. } => {
            let olds = paired_children(new, last);
            let first = next + own_fresh(new, last);
            let after = reconciled_children(children, olds, first);
            assert forall|i: int| 0 <= i < children.len() implies after[i].description()
                == children[i].description() by {
                description_kept(
                    children[i],
                    child_at(olds, i),
                    first + fresh_upto(children, olds, i),
                );
            }
            assert(reconciled(new, last, next).description()->children =~= new.description()->children);
        },
        NodeView::Text { .. } => {},
    }
}

/// Bindings stay exclusive. Where no live node is bound twice in a bound
/// previous tree, and all of them were numbered before, no live node is
/// bound twice in the reconciled tree, and each of its live nodes is either
/// one of the previous tree or one of the new ones. A previous node that is
/// not bound gives nothing to the reconciled tree.
pub proof fn bindings_stay_exclusive(new: NodeView, last: Option<NodeView>, next: int)
    requires
        last is Some && last->0.bound_to() is Some ==> last->0.exclusive() && last->0.below(next),
    ensures
        reconciled(new, last, next).exclusive(),
        forall|node: int| #[trigger]
            reconciled(new, last, next).holds(node) ==> (last is Some && last->0.bound_to() is Some
                && last->0.holds(node)) || next <= node < next + fresh_count(new, last),
    decreases new,
{
    let result = reconciled(new, last, next);
    match new {
        NodeView::Element { children, .. } => {
            let olds = paired_children(new, last);
            let first = next + own_fresh(new, last);
            let after = reconciled_children(children, olds, first);
            let own = bound_node(new, last, next);
            assert forall|i: int| 0 <= i < children.len() implies {
                &&& (#[trigger] after[i]).exclusive()
                &&& forall|node: int| #[trigger]
                    after[i].holds(node) ==> (i < olds.len() && olds[i].holds(node) && node < next)
                        || first + fresh_upto(children, olds, i) <= node < first + fresh_upto(
                        children,
                        olds,
                        i + 1,
                    )
            } by {
                if i < olds.len() {
                    assert forall|node: int| #[trigger] olds[i].holds(node) implies node
                        < next by {
                        assert(last->0.holds(node));
                    }
                }
                fresh_upto_grows(children, olds, 0, i);
                bindings_stay_exclusive(
                    children[i],
                    child_at(olds, i),
                    first + fresh_upto(children, olds, i),
                );
            }
            assert forall|i: int| 0 <= i < after.len() implies !(#[trigger] after[i]).holds(
                own,
            ) by {
                fresh_upto_grows(children, olds, 0, i);
                if after[i].holds(own) && action(new, last) is Reuse {
                    assert(last->0.holds(own));
                }
            }
            assert forall|i: int, j: int, node: int|
                0 <= i < j < after.len() && #[trigger] after[i].holds(node) implies !#[trigger] after[j].holds(
                node,
            ) by {
                fresh_upto_grows(children, olds, 0, i);
                fresh_upto_grows(children, olds, 0, j);
                fresh_upto_grows(children, olds, i + 1, j);
            }
            assert forall|node: int| #[trigger] result.holds(node) implies (last is Some
                && last->0.bound_to() is Some && last->0.holds(node)) || next <= node < next
                + fresh_count(new, last) by {
                if result.bound_to() != Some(node) {
                    let i = choose|i: int| 0 <= i < after.len() && (#[trigger] after[i]).holds(node);
                    fresh_upto_grows(children, olds, 0, i);
                    fresh_upto_grows(children, olds, i + 1, children.len() as int);
                    if i < olds.len() && olds[i].holds(node) {
                        assert(last->0.holds(node));
                    }
                }
            }
        },
        NodeView::Text { .. } => {},
    }
}

/// Whether reconciling `new` against `last` writes into a live text node:
/// a text takes over the live node of a text that says something else.
spec fn rewrites(new: NodeView, last: Option<NodeView>) -> bool {
    &&& action(new, last) is Reuse
    &&& new matches NodeView::Text { text, .. }
    &&& last matches Some(NodeView::Text { text: previous, .. })
    &&& text != previous
}

/// How many mutations of each kind a node records for itself, its children
/// aside.
spec fn own_count(new: NodeView, last: Option<NodeView>, kind: Kind) -> nat {
    match kind {
        Kind::Create => own_fresh(new, last),
        Kind::Append => if action(new, last) is Create {
            1
        } else {
            0
        },
        Kind::Replace => if action(new, last) is Replace {
            1
        } else {
            0
        },
        Kind::Remove => 0,
        Kind::Write => if rewrites(new, last) {
            1
        } else {
            0
        },
        Kind::Render => if new is Element {
            1
        } else {
            0
        },
    }
}

proof fn count_of_removal(stale: NodeView, parent: int, kind: Kind)
    ensures
        count(removal(stale, parent), kind) == (if kind == Kind::Remove && stale.bound_to()
            is Some {
            1nat
        } else {
            0nat
        }),
{
    reveal_with_fuel(count, 2);
}

proof fn count_of_own(new: NodeView, last: Option<NodeView>, parent: int, next: int, kind: Kind)
    ensures
        count(placement(new, last, parent, next) + content(new, last, next), kind) == own_count(
            new,
            last,
            kind,
        ),
{
    let placed = placement(new, last, parent, next);
    let filled = content(new, last, next);
    count_concat(placed, filled, kind);
    assert(count(placed, kind) + count(filled, kind) == own_count(new, last, kind)) by {
        reveal_with_fuel(count, 3);
    }
}

/// The count over what a node records: what it records for itself, and
/// what its children record.
proof fn count_of_patches(new: NodeView, last: Option<NodeView>, parent: int, next: int, kind: Kind)
    ensures
        count(patches(new, last, parent, next), kind) == own_count(new, last, kind) + (
        if new is Element {
            count(
                patches_upto(
                    new.children(),
                    paired_children(new, last),
                    bound_node(new, last, next),
                    next + own_fresh(new, last),
                    pair_count(new.children(), paired_children(new, last)),
                ),
                kind,
            )
        } else {
            0
        }),
{
    count_of_own(new, last, parent, next, kind);
    match new {
        NodeView::Element { children, .. } => {
            count_concat(
                placement(new, last, parent, next) + content(new, last, next),
                patches_upto(
                    children,
                    paired_children(new, last),
                    bound_node(new, last, next),
                    next + own_fresh(new, last),
                    pair_count(children, paired_children(new, last)),
                ),
                kind,
            );
        },
        NodeView::Text { .. } => {},
    }
}

/// The count over what the first `k` positions record: the count over the
/// positions before the last of them, and what that last one records.
proof fn count_of_step(
    news: Seq<NodeView>,
    olds: Seq<NodeView>,
    parent: int,
    next: int,
    k: int,
    kind: Kind,
)
    requires
        k > 0,
    ensures
        count(patches_upto(news, olds, parent, next, k), kind) == count(
            patches_upto(news, olds, parent, next, k - 1),
            kind,
        ) + (if k <= news.len() {
            count(
                patches(
                    news[k - 1],
                    child_at(olds, k - 1),
                    parent,
                    next + fresh_upto(news, olds, k - 1),
                ),
                kind,
            )
        } else if k <= olds.len() {
            count(removal(olds[k - 1], parent), kind)
        } else {
            0
        }),
{
    let before = patches_upto(news, olds, parent, next, k - 1);
    if k <= news.len() {
        count_concat(
            before,
            patches(
                news[k - 1],
                child_at(olds, k - 1),
                parent,
                next + fresh_upto(news, olds, k - 1),
            ),
            kind,
        );
    } else if k <= olds.len() {
        count_concat(before, removal(olds[k - 1], parent), kind);
    }
}

/// A reconciliation records as many creations as it needs new live nodes.
pub proof fn creations_are_the_new_nodes(
    new: NodeView,
    last: Option<NodeView>,
    parent: int,
    next: int,
)
    ensures
        count(patches(new, last, parent, next), Kind::Create) == fresh_count(new, last),
    decreases new, 0int,
{
    count_of_patches(new, last, parent, next, Kind::Create);
    match new {
        NodeView::Element { children, .. } => {
            let olds = paired_children(new, last);
            children_creations(
                children,
                olds,
                bound_node(new, last, next),
                next + own_fresh(new, last),
                pair_count(children, olds),
            );
            fresh_upto_rests(children, olds, pair_count(children, olds));
        },
        NodeView::Text { .. } => {},
    }
}

proof fn children_creations(
    news: Seq<NodeView>,
    olds: Seq<NodeView>,
    parent: int,
    next: int,
    k: int,
)
    requires
        0 <= k,
    ensures
        count(patches_upto(news, olds, parent, next, k), Kind::Create) == fresh_upto(news, olds, k),
    decreases news, k,
{
    if k > 0 {
        children_creations(news, olds, parent, next, k - 1);
        count_of_step(news, olds, parent, next, k, Kind::Create);
        if k <= news.len() {
            creations_are_the_new_nodes(
                news[k - 1],
                child_at(olds, k - 1),
                parent,
                next + fresh_upto(news, olds, k - 1),
            );
        } else if k <= olds.len() {
            count_of_removal(olds[k - 1], parent, Kind::Create);
        }
    }
}

/// Reconciling a tree against a bound tree of the same form makes, appends,
/// replaces and removes no live node. All it records are calls of the
/// element renderer and writes into texts, and it writes exactly the texts
/// that say something else than before.
pub proof fn same_shape_only_updates(new: NodeView, last: NodeView, parent: int, next: int)
    requires
        new.same_shape(last),
        last.bound_throughout(),
    ensures
        action(new, Some(last)) is Reuse,
        fresh_count(new, Some(last)) == 0,
        count(patches(new, Some(last), parent, next), Kind::Create) == 0,
        count(patches(new, Some(last), parent, next), Kind::Append) == 0,
        count(patches(new, Some(last), parent, next), Kind::Replace) == 0,
        count(patches(new, Some(last), parent, next), Kind::Remove) == 0,
        count(patches(new, Some(last), parent, next), Kind::Write) == changed_texts(new, last),
    decreases new, 0int,
{
    count_of_patches(new, Some(last), parent, next, Kind::Create);
    count_of_patches(new, Some(last), parent, next, Kind::Append);
    count_of_patches(new, Some(last), parent, next, Kind::Replace);
    count_of_patches(new, Some(last), parent, next, Kind::Remove);
    count_of_patches(new, Some(last), parent, next, Kind::Write);
    match new {
        NodeView::Element { children, .. } => {
            let olds = paired_children(new, Some(last));
            let element = bound_node(new, Some(last), next);
            same_shape_children_only_update(children, olds, element, next, children.len() as int);
        },
        NodeView::Text { .. } => {},
    }
}

proof fn same_shape_children_only_update(
    news: Seq<NodeView>,
    olds: Seq<NodeView>,
    parent: int,
    next: int,
    k: int,
)
    requires
        news.len() == olds.len(),
        0 <= k <= news.len(),
        forall|i: int| 0 <= i < news.len() ==> (#[trigger] news[i]).same_shape(olds[i]),
        forall|i: int| 0 <= i < olds.len() ==> (#[trigger] olds[i]).bound_throughout(),
    ensures
        fresh_upto(news, olds, k) == 0,
        count(patches_upto(news, olds, parent, next, k), Kind::Create) == 0,
        count(patches_upto(news, olds, parent, next, k), Kind::Append) == 0,
        count(patches_upto(news, olds, parent, next, k), Kind::Replace) == 0,
        count(patches_upto(news, olds, parent, next, k), Kind::Remove) == 0,
        count(patches_upto(news, olds, parent, next, k), Kind::Write) == changed_upto(
            news,
            olds,
            k,
        ),
    decreases news, k,
{
    if k > 0 {
        same_shape_children_only_update(news, olds, parent, next, k - 1);
        same_shape_only_updates(news[k - 1], olds[k - 1], parent, next);
        count_of_step(news, olds, parent, next, k, Kind::Create);
        count_of_step(news, olds, parent, next, k, Kind::Append);
        count_of_step(news, olds, parent, next, k, Kind::Replace);
        count_of_step(news, olds, parent, next, k, Kind::Remove);
        count_of_step(news, olds, parent, next, k, Kind::Write);
    }
}

/// Reconciling a tree against a bound tree of the same description changes
/// nothing in the live tree: the reconciled tree is the previous one,
/// binding for binding, no new live node is needed, and nothing is recorded
/// but the calls of the element renderer.
pub proof fn copy_changes_nothing(new: NodeView, last: NodeView, parent: int, next: int)
    requires
        new.description() == last.description(),
        last.bound_throughout(),
    ensures
        new.same_shape(last),
        changed_texts(new, last) == 0,
        fresh_count(new, Some(last)) == 0,
        reconciled(new, Some(last), next) == last,
        forall|kind: Kind|
            kind != Kind::Render ==> #[trigger] count(
                patches(new, Some(last), parent, next),
                kind,
            ) == 0,
{
    copy_is_bare(new, last, next);
    same_shape_only_updates(new, last, parent, next);
}

proof fn copy_is_bare(new: NodeView, last: NodeView, next: int)
    requires
        new.description() == last.description(),
        last.bound_throughout(),
    ensures
        new.same_shape(last),
        changed_texts(new, last) == 0,
        fresh_count(new, Some(last)) == 0,
        reconciled(new, Some(last), next) == last,
    decreases new, 0int,
{
    match new {
        NodeView::Element { children, .. } => {
            let olds = paired_children(new, Some(last));
            assert(last.description()->children.len() == olds.len());
            assert forall|i: int| 0 <= i < children.len() implies (#[trigger] children[i]).description()
                == olds[i].description() by {
                assert(last.description()->children[i] == olds[i].description());
            }
            copied_children_change_nothing(children, olds, next, children.len() as int);
            assert forall|i: int| 0 <= i < children.len() implies (#[trigger] children[i]).same_shape(
                olds[i],
            ) by {
                copy_is_bare(children[i], olds[i], next);
            }
            assert(reconciled(new, Some(last), next)->children =~= olds);
        },
        NodeView::Text { .. } => {},
    }
}

proof fn copied_children_change_nothing(
    news: Seq<NodeView>,
    olds: Seq<NodeView>,
    next: int,
    k: int,
)
    requires
        news.len() == olds.len(),
        0 <= k <= news.len(),
        forall|i: int|
            0 <= i < news.len() ==> (#[trigger] news[i]).description() == olds[i].description(),
        forall|i: int| 0 <= i < olds.len() ==> (#[trigger] olds[i]).bound_throughout(),
    ensures
        fresh_upto(news, olds, k) == 0,
        changed_upto(news, olds, k) == 0,
        forall|i: int|
            0 <= i < k ==> reconciled_children(news, olds, next)[i] == #[trigger] olds[i],
    decreases news, k,
{
    if k > 0 {
        copied_children_change_nothing(news, olds, next, k - 1);
        copy_is_bare(news[k - 1], olds[k - 1], next);
    }
}

/// Mounting a tree where nothing stood only builds: it replaces, removes
/// and writes nothing, and appends every live node it makes.
pub proof fn mounting_only_builds(new: NodeView, last: Option<NodeView>, parent: int, next: int)
    requires
        action(new, last) is Create,
    ensures
        count(patches(new, last, parent, next), Kind::Replace) == 0,
        count(patches(new, last, parent, next), Kind::Remove) == 0,
        count(patches(new, last, parent, next), Kind::Write) == 0,
        count(patches(new, last, parent, next), Kind::Append) == fresh_count(new, last),
    decreases new, 0int,
{
    count_of_patches(new, last, parent, next, Kind::Replace);
    count_of_patches(new, last, parent, next, Kind::Remove);
    count_of_patches(new, last, parent, next, Kind::Write);
    count_of_patches(new, last, parent, next, Kind::Append);
    match new {
        NodeView::Element { children, .. } => {
            unpaired_children_only_build(children, next, next + 1, children.len() as int);
        },
        NodeView::Text { .. } => {},
    }
}

proof fn unpaired_children_only_build(news: Seq<NodeView>, parent: int, next: int, k: int)
    requires
        0 <= k <= news.len(),
    ensures
        count(patches_upto(news, Seq::empty(), parent, next, k), Kind::Replace) == 0,
        count(patches_upto(news, Seq::empty(), parent, next, k), Kind::Remove) == 0,
        count(patches_upto(news, Seq::empty(), parent, next, k), Kind::Write) == 0,
        count(patches_upto(news, Seq::empty(), parent, next, k), Kind::Append) == fresh_upto(
            news,
            Seq::empty(),
            k,
        ),
    decreases news, k,
{
    if k > 0 {
        let olds = Seq::<NodeView>::empty();
        unpaired_children_only_build(news, parent, next, k - 1);
        mounting_only_builds(news[k - 1], None, parent, next + fresh_upto(news, olds, k - 1));
        count_of_step(news, olds, parent, next, k, Kind::Replace);
        count_of_step(news, olds, parent, next, k, Kind::Remove);
        count_of_step(news, olds, parent, next, k, Kind::Write);
        count_of_step(news, olds, parent, next, k, Kind::Append);
    }
}

/// A node that meets a bound node of another kind, or an element of another
/// tag, has a new live node put in the place of the previous one. The new
/// live node is made first and then replaces the previous one under the same
/// parent; nothing else is replaced, nothing is removed or written, and the
/// new live node is the one new live node that is not appended. The node is
/// bound to the new live node.
pub proof fn mismatch_replaces_once(new: NodeView, last: NodeView, parent: int, next: int)
    requires
        last.bound_to() is Some,
        !new.same_kind(last),
    ensures
        action(new, Some(last)) is Replace,
        reconciled(new, Some(last), next).bound_to() == Some(next),
        patches(new, Some(last), parent, next).len() >= 2,
        patches(new, Some(last), parent, next)[0] == creation(new, next),
        patches(new, Some(last), parent, next)[1] == (MutationView::ReplaceChild {
            parent,
            new_child: next,
            old_child: last.bound_to()->0,
        }),
        count(patches(new, Some(last), parent, next), Kind::Replace) == 1,
        count(patches(new, Some(last), parent, next), Kind::Remove) == 0,
        count(patches(new, Some(last), parent, next), Kind::Write) == 0,
        count(patches(new, Some(last), parent, next), Kind::Create) == fresh_count(new, Some(last)),
        count(patches(new, Some(last), parent, next), Kind::Append) + 1 == fresh_count(
            new,
            Some(last),
        ),
{
    count_of_patches(new, Some(last), parent, next, Kind::Replace);
    count_of_patches(new, Some(last), parent, next, Kind::Remove);
    count_of_patches(new, Some(last), parent, next, Kind::Write);
    count_of_patches(new, Some(last), parent, next, Kind::Append);
    creations_are_the_new_nodes(new, Some(last), parent, next);
    match new {
        NodeView::Element { children, .. } => {
            unpaired_children_only_build(children, next, next + 1, children.len() as int);
        },
        NodeView::Text { .. } => {},
    }
}

/// Where an element takes over the live node of an element with fewer
/// children, every child beyond the previous ones gets a new live node,
/// appended to the element's live node, and no child before them is
/// appended if every previous child was bound: the appended children are as
/// many as the new children exceed the previous ones. A child that fits the
/// bound previous child at its position takes over its live node.
pub proof fn growth_appends_the_difference(new: NodeView, last: NodeView, next: int)
    requires
        new is Element,
        action(new, Some(last)) is Reuse,
        last.children().len() <= new.children().len(),
    ensures
        reconciled(new, Some(last), next).children().len() == new.children().len(),
        forall|i: int|
            last.children().len() <= i < new.children().len() ==> {
                &&& action(#[trigger] new.children()[i], child_at(last.children(), i)) is Create
                &&& reconciled(new, Some(last), next).children()[i].bound_to() == Some(
                    next + fresh_upto(new.children(), last.children(), i),
                )
            },
        forall|i: int|
            0 <= i < last.children().len() && (#[trigger] last.children()[i]).bound_to() is Some
                && new.children()[i].same_kind(last.children()[i]) ==> reconciled(
                new,
                Some(last),
                next,
            ).children()[i].bound_to() == last.children()[i].bound_to(),
        (forall|i: int|
            0 <= i < last.children().len() ==> (#[trigger] last.children()[i]).bound_to() is Some)
            ==> appended_children(new.children(), last.children(), new.children().len() as int)
            == new.children().len() - last.children().len(),
{
    let news = new.children();
    let olds = last.children();
    assert(reconciled(new, Some(last), next).children() == reconciled_children(news, olds, next));
    if forall|i: int| 0 <= i < olds.len() ==> (#[trigger] olds[i]).bound_to() is Some {
        appended_beyond_the_bound(news, olds, news.len() as int);
    }
}

proof fn appended_beyond_the_bound(news: Seq<NodeView>, olds: Seq<NodeView>, k: int)
    requires
        0 <= k <= news.len(),
        forall|i: int| 0 <= i < olds.len() ==> (#[trigger] olds[i]).bound_to() is Some,
    ensures
        appended_children(news, olds, k) == (if k <= olds.len() {
            0
        } else {
            k - olds.len()
        }),
    decreases k,
{
    if k > 0 {
        appended_beyond_the_bound(news, olds, k - 1);
    }
}

/// Where an element takes over the live node of an element with more
/// children, the previous children beyond the new ones are discarded, each
/// once and in order, after the new children have been reconciled; a bound
/// one has its live node removed from the element's live node. A child that
/// fits the bound previous child at its position takes over its live node.
pub proof fn shrinkage_discards_the_rest(new: NodeView, last: NodeView, parent: int, next: int)
    requires
        new is Element,
        action(new, Some(last)) is Reuse,
        new.children().len() <= last.children().len(),
    ensures
        patches(new, Some(last), parent, next) == content(new, Some(last), next) + patches_upto(
            new.children(),
            last.children(),
            last.bound_to()->0,
            next,
            new.children().len() as int,
        ) + discards(
            last.children(),
            last.bound_to()->0,
            new.children().len() as int,
            last.children().len() as int,
        ),
        (forall|i: int|
            new.children().len() <= i < last.children().len() ==> (
            #[trigger] last.children()[i]).bound_to() is Some) ==> {
            &&& discards(
                last.children(),
                last.bound_to()->0,
                new.children().len() as int,
                last.children().len() as int,
            ).len() == last.children().len() - new.children().len()
            &&& forall|j: int|
                0 <= j < last.children().len() - new.children().len() ==> #[trigger] discards(
                    last.children(),
                    last.bound_to()->0,
                    new.children().len() as int,
                    last.children().len() as int,
                )[j] == (MutationView::RemoveChild {
                    parent: last.bound_to()->0,
                    child: last.children()[new.children().len() + j].bound_to()->0,
                })
        },
        forall|i: int|
            0 <= i < new.children().len() && (#[trigger] last.children()[i]).bound_to() is Some
                && new.children()[i].same_kind(last.children()[i]) ==> reconciled(
                new,
                Some(last),
                next,
            ).children()[i].bound_to() == last.children()[i].bound_to(),
{
    let news = new.children();
    let olds = last.children();
    let element = last.bound_to()->0;
    let n = news.len() as int;
    let m = olds.len() as int;
    assert(reconciled(new, Some(last), next).children() == reconciled_children(news, olds, next));
    rest_is_discarded(news, olds, element, next, m);
    if forall|i: int| n <= i < m ==> (#[trigger] olds[i]).bound_to() is Some {
        discards_of_bound(olds, element, n, m);
    }
}

proof fn rest_is_discarded(
    news: Seq<NodeView>,
    olds: Seq<NodeView>,
    parent: int,
    next: int,
    k: int,
)
    requires
        news.len() <= k <= olds.len(),
    ensures
        patches_upto(news, olds, parent, next, k) == patches_upto(
            news,
            olds,
            parent,
            next,
            news.len() as int,
        ) + discards(olds, parent, news.len() as int, k),
    decreases k,
{
    if k > news.len() {
        rest_is_discarded(news, olds, parent, next, k - 1);
    }
}

proof fn discards_of_bound(olds: Seq<NodeView>, parent: int, from: int, to: int)
    requires
        0 <= from <= to <= olds.len(),
        forall|i: int| from <= i < to ==> (#[trigger] olds[i]).bound_to() is Some,
    ensures
        discards(olds, parent, from, to).len() == to - from,
        forall|j: int|
            0 <= j < to - from ==> #[trigger] discards(olds, parent, from, to)[j] == (
            MutationView::RemoveChild { parent, child: olds[from + j].bound_to()->0 }),
    decreases to - from,
{
    if from < to {
        discards_of_bound(olds, parent, from, to - 1);
    }
}

/// A text that takes over the live node of a text is written only where it
/// says something else: no mutation where the content is the same, and
/// exactly one write of the new content where it differs.
pub proof fn text_written_only_on_change(
    text: Seq<char>,
    previous: Seq<char>,
    node: int,
    parent: int,
    next: int,
)
    ensures
        ({
            let new = NodeView::Text { binding: None, text };
            let last = Some(NodeView::Text { binding: Some(node), text: previous });
            &&& reconciled(new, last, next) == NodeView::Text { binding: Some(node), text }
            &&& fresh_count(new, last) == 0
            &&& text == previous ==> patches(new, last, parent, next) == Seq::<
                MutationView,
            >::empty()
            &&& text != previous ==> patches(new, last, parent, next) == seq![
                MutationView::SetText { node, text },
            ]
        }),
{
}

/// Discarding a node that was never materialised asks for nothing.
pub proof fn discarding_unbound_is_silent(stale: NodeView, parent: int)
    requires
        stale.bound_to() is None,
    ensures
        removal(stale, parent) == Seq::<MutationView>::empty(),
{
}

} // verus!
