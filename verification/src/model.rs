//! The mathematical account of reconciliation: what a virtual tree is, which
//! live nodes a reconciliation binds it to, and which mutations it records.
//!
//! Everything here is a definition. The executable reconciler is proved to
//! compute exactly these values, and the laws of the library are proved of
//! them.

use vstd::prelude::*;
use crate::mutation::MutationView;
use crate::props::PropsView;

verus! {

/// The mathematical value of a virtual node: its description and the live
/// node it is bound to, if any.
pub enum NodeView {
    Element { binding: Option<int>, tag: Seq<char>, props: PropsView, children: Seq<NodeView> },
    Text { binding: Option<int>, text: Seq<char> },
}

/// What becomes of the live node when a virtual node meets its predecessor.
pub enum Action {
    /// The predecessor's live node is taken over.
    Reuse,
    /// A new live node takes the place of the predecessor's.
    Replace,
    /// A new live node is appended: there is no live node to take over.
    Create,
}

impl NodeView {
    /// The live node this virtual node is bound to.
    pub open spec fn bound_to(self) -> Option<int> {
        match self {
            NodeView::Element { binding, .. } => binding,
            NodeView::Text { binding, .. } => binding,
        }
    }

    /// The children of an element, in order; a text has none.
    pub open spec fn children(self) -> Seq<NodeView> {
        match self {
            NodeView::Element { children, .. } => children,
            NodeView::Text { .. } => Seq::empty(),
        }
    }

    /// The description alone: the same tree with every binding taken out.
    pub open spec fn description(self) -> NodeView
        decreases self, 0int,
    {
        match self {
            NodeView::Element { tag, props, children, .. } => NodeView::Element {
                binding: None,
                tag,
                props,
                children: descriptions(children),
            },
            NodeView::Text { text, .. } => NodeView::Text { binding: None, text },
        }
    }

    /// Whether this node and every node below it is bound to a live node.
    pub open spec fn bound_throughout(self) -> bool
        decreases self,
    {
        match self {
            NodeView::Element { binding, children, .. } => binding is Some && forall|i: int|
                0 <= i < children.len() ==> (#[trigger] children[i]).bound_throughout(),
            NodeView::Text { binding, .. } => binding is Some,
        }
    }

    /// Whether the live node `node` is bound somewhere in this tree.
    pub open spec fn holds(self, node: int) -> bool
        decreases self,
    {
        match self {
            NodeView::Element { binding, children, .. } => binding == Some(node) || exists|i: int|
                0 <= i < children.len() && (#[trigger] children[i]).holds(node),
            NodeView::Text { binding, .. } => binding == Some(node),
        }
    }

    /// Whether every live node bound in this tree is bound exactly once.
    pub open spec fn exclusive(self) -> bool
        decreases self,
    {
        match self {
            NodeView::Element { binding, children, .. } => {
                &&& forall|i: int| 0 <= i < children.len() ==> (#[trigger] children[i]).exclusive()
                &&& forall|i: int|
                    0 <= i < children.len() && binding is Some ==> !(#[trigger] children[i]).holds(
                        binding->0,
                    )
                &&& forall|i: int, j: int, node: int|
                    0 <= i < j < children.len() && #[trigger] children[i].holds(node)
                        ==> !#[trigger] children[j].holds(node)
            },
            NodeView::Text { .. } => true,
        }
    }

    /// Whether every live node bound in this tree has a number below `limit`.
    pub open spec fn below(self, limit: int) -> bool {
        forall|node: int| #[trigger] self.holds(node) ==> node < limit
    }

    /// Whether two trees have the same form: elements with the same tags
    /// and equally many children in the same places, texts in the same
    /// places. What the texts say, and attributes and listeners, may differ.
    pub open spec fn same_shape(self, other: NodeView) -> bool
        decreases self,
    {
        match (self, other) {
            (
                NodeView::Element { tag, children, .. },
                NodeView::Element { tag: other_tag, children: other_children, .. },
            ) => tag == other_tag && children.len() == other_children.len() && forall|i: int|
                0 <= i < children.len() ==> (#[trigger] children[i]).same_shape(other_children[i]),
            (NodeView::Text { .. }, NodeView::Text { .. }) => true,
            _ => false,
        }
    }

    /// The number of nodes of the tree.
    pub open spec fn size(self) -> nat
        decreases self, 0int,
    {
        match self {
            NodeView::Element { children, .. } => 1 + sizes_upto(children, children.len() as int),
            NodeView::Text { .. } => 1,
        }
    }

    /// Whether a live node made for `previous` can serve this node: both are
    /// texts, or both are elements with the same tag.
    pub open spec fn same_kind(self, previous: NodeView) -> bool {
        match (self, previous) {
            (NodeView::Element { tag, .. }, NodeView::Element { tag: previous_tag, .. }) => tag
                == previous_tag,
            (NodeView::Text { .. }, NodeView::Text { .. }) => true,
            _ => false,
        }
    }
}

/// The descriptions of a list of trees, in order.
pub open spec fn descriptions(nodes: Seq<NodeView>) -> Seq<NodeView>
    decreases nodes, 1int,
{
    Seq::new(
        nodes.len(),
        |i: int|
            if 0 <= i < nodes.len() {
                nodes[i].description()
            } else {
                arbitrary()
            },
    )
}

/// The number of nodes of the first `k` trees of a list.
pub open spec fn sizes_upto(nodes: Seq<NodeView>, k: int) -> nat
    decreases nodes, k,
{
    if k <= 0 || k > nodes.len() {
        0
    } else {
        sizes_upto(nodes, k - 1) + nodes[k - 1].size()
    }
}

/// The decision taken for a node that meets `last`.
pub open spec fn action(new: NodeView, last: Option<NodeView>) -> Action {
    match last {
        Some(previous) => if previous.bound_to() is Some {
            if new.same_kind(previous) {
                Action::Reuse
            } else {
                Action::Replace
            }
        } else {
            Action::Create
        },
        None => Action::Create,
    }
}

/// The live node that a node is bound to once it has met `last`, where
/// `next` is the number of the next new live node.
pub open spec fn bound_node(new: NodeView, last: Option<NodeView>, next: int) -> int {
    if action(new, last) is Reuse {
        last->0.bound_to()->0
    } else {
        next
    }
}

/// How many new live nodes the node itself needs: none where it takes one
/// over, else one.
pub open spec fn own_fresh(new: NodeView, last: Option<NodeView>) -> nat {
    if action(new, last) is Reuse {
        0
    } else {
        1
    }
}

/// The previous children that the children of `new` are paired with: those
/// of the predecessor whose live node is taken over, else none.
pub open spec fn paired_children(new: NodeView, last: Option<NodeView>) -> Seq<NodeView> {
    if action(new, last) is Reuse {
        last->0.children()
    } else {
        Seq::empty()
    }
}

/// The previous child at position `i`, if there is one.
pub open spec fn child_at(olds: Seq<NodeView>, i: int) -> Option<NodeView> {
    if 0 <= i < olds.len() {
        Some(olds[i])
    } else {
        None
    }
}

/// The number of positions over which two child lists are paired.
pub open spec fn pair_count(news: Seq<NodeView>, olds: Seq<NodeView>) -> int {
    if news.len() >= olds.len() {
        news.len() as int
    } else {
        olds.len() as int
    }
}

/// How many new live nodes reconciling `new` against `last` creates.
pub open spec fn fresh_count(new: NodeView, last: Option<NodeView>) -> nat
    decreases new, 0int,
{
    match new {
        NodeView::Element { children, .. } => own_fresh(new, last) + fresh_upto(
            children,
            paired_children(new, last),
            children.len() as int,
        ),
        NodeView::Text { .. } => own_fresh(new, last),
    }
}

/// How many new live nodes the first `k` positions of two paired child lists
/// create.
pub open spec fn fresh_upto(news: Seq<NodeView>, olds: Seq<NodeView>, k: int) -> nat
    decreases news, k,
{
    if k <= 0 {
        0
    } else if k <= news.len() {
        fresh_upto(news, olds, k - 1) + fresh_count(news[k - 1], child_at(olds, k - 1))
    } else {
        fresh_upto(news, olds, k - 1)
    }
}

/// The node `new` after it has met `last`: the same description, bound to
/// live nodes throughout.
pub open spec fn reconciled(new: NodeView, last: Option<NodeView>, next: int) -> NodeView
    decreases new, 0int,
{
    match new {
        NodeView::Element { tag, props, children, .. } => NodeView::Element {
            binding: Some(bound_node(new, last, next)),
            tag,
            props,
            children: reconciled_children(
                children,
                paired_children(new, last),
                next + own_fresh(new, last),
            ),
        },
        NodeView::Text { text, .. } => NodeView::Text {
            binding: Some(bound_node(new, last, next)),
            text,
        },
    }
}

/// The children `news` after each has met the previous child at its
/// position, where `next` is the number of the next new live node before the
/// first of them is reconciled.
pub open spec fn reconciled_children(news: Seq<NodeView>, olds: Seq<NodeView>, next: int) -> Seq<
    NodeView,
>
    decreases news, 1int,
{
    Seq::new(
        news.len(),
        |i: int|
            if 0 <= i < news.len() {
                reconciled(news[i], child_at(olds, i), next + fresh_upto(news, olds, i))
            } else {
                arbitrary()
            },
    )
}

/// The mutations that discarding `stale` under `parent` records: the removal
/// of its live node, where it has one.
pub open spec fn removal(stale: NodeView, parent: int) -> Seq<MutationView> {
    match stale.bound_to() {
        Some(node) => seq![MutationView::RemoveChild { parent, child: node }],
        None => Seq::empty(),
    }
}

/// The mutations that discarding the previous children at the positions
/// from `from` up to, not including, `to` records, in order.
pub open spec fn discards(olds: Seq<NodeView>, parent: int, from: int, to: int) -> Seq<
    MutationView,
>
    decreases to - from,
{
    if to <= from || from < 0 || to > olds.len() {
        Seq::empty()
    } else {
        discards(olds, parent, from, to - 1) + removal(olds[to - 1], parent)
    }
}

/// How many of the first `k` new children get a live node of their own
/// appended, because no live node stands at their position.
pub open spec fn appended_children(news: Seq<NodeView>, olds: Seq<NodeView>, k: int) -> nat
    decreases k,
{
    if k <= 0 || k > news.len() {
        0
    } else {
        appended_children(news, olds, k - 1) + if action(news[k - 1], child_at(olds, k - 1))
            is Create {
            1nat
        } else {
            0nat
        }
    }
}

/// How many texts of `new` say something else than the text at the same
/// place in `last`, where the two trees have the same form.
pub open spec fn changed_texts(new: NodeView, last: NodeView) -> nat
    decreases new, 0int,
{
    match (new, last) {
        (NodeView::Element { children, .. }, NodeView::Element { children: others, .. }) => {
            changed_upto(children, others, children.len() as int)
        },
        (NodeView::Text { text, .. }, NodeView::Text { text: previous, .. }) => if text
            != previous {
            1
        } else {
            0
        },
        _ => 0,
    }
}

/// How many texts below the first `k` new children say something else than
/// the text at the same place below the previous children.
pub open spec fn changed_upto(news: Seq<NodeView>, olds: Seq<NodeView>, k: int) -> nat
    decreases news, k,
{
    if k <= 0 || k > news.len() || k > olds.len() {
        0
    } else {
        changed_upto(news, olds, k - 1) + changed_texts(news[k - 1], olds[k - 1])
    }
}

/// The mutation that makes the live node `node` for `new`.
pub open spec fn creation(new: NodeView, node: int) -> MutationView {
    match new {
        NodeView::Element { tag, .. } => MutationView::CreateElement { node, tag },
        NodeView::Text { text, .. } => MutationView::CreateText { node, text },
    }
}

/// The mutations that settle the live node of `new` itself, before anything
/// is done about its content.
pub open spec fn placement(new: NodeView, last: Option<NodeView>, parent: int, next: int) -> Seq<
    MutationView,
> {
    match action(new, last) {
        Action::Reuse => Seq::empty(),
        Action::Replace => seq![
            creation(new, next),
            MutationView::ReplaceChild {
                parent,
                new_child: next,
                old_child: last->0.bound_to()->0,
            },
        ],
        Action::Create => seq![
            creation(new, next),
            MutationView::AppendChild { parent, child: next },
        ],
    }
}

/// The mutations that bring the content of the live node of `new` in line,
/// children aside: for an element, the call of the element renderer; for a
/// text, a write where a live text node was taken over with other content.
pub open spec fn content(new: NodeView, last: Option<NodeView>, next: int) -> Seq<MutationView> {
    match new {
        NodeView::Element { props, .. } => seq![
            MutationView::Render {
                element: bound_node(new, last, next),
                props,
                previous: match last {
                    Some(NodeView::Element { props: previous, .. }) => if action(new, last)
                        is Reuse {
                        Some(previous)
                    } else {
                        None
                    },
                    _ => None,
                },
            },
        ],
        NodeView::Text { text, .. } => match last {
            Some(NodeView::Text { text: previous, .. }) => if action(new, last) is Reuse && text
                != previous {
                seq![MutationView::SetText { node: bound_node(new, last, next), text }]
            } else {
                Seq::empty()
            },
            _ => Seq::empty(),
        },
    }
}

/// The mutations that reconciling `new` against `last` under `parent`
/// records, in order.
pub open spec fn patches(new: NodeView, last: Option<NodeView>, parent: int, next: int) -> Seq<
    MutationView,
>
    decreases new, 0int,
{
    match new {
        NodeView::Element { children, .. } => placement(new, last, parent, next) + content(
            new,
            last,
            next,
        ) + patches_upto(
            children,
            paired_children(new, last),
            bound_node(new, last, next),
            next + own_fresh(new, last),
            pair_count(children, paired_children(new, last)),
        ),
        NodeView::Text { .. } => placement(new, last, parent, next) + content(new, last, next),
    }
}

/// The mutations that the first `k` positions of two paired child lists
/// record. A position with a new child reconciles it against the previous
/// child there, if any; a position with a previous child only discards it.
pub open spec fn patches_upto(
    news: Seq<NodeView>,
    olds: Seq<NodeView>,
    parent: int,
    next: int,
    k: int,
) -> Seq<MutationView>
    decreases news, k,
{
    if k <= 0 {
        Seq::empty()
    } else if k <= news.len() {
        patches_upto(news, olds, parent, next, k - 1) + patches(
            news[k - 1],
            child_at(olds, k - 1),
            parent,
            next + fresh_upto(news, olds, k - 1),
        )
    } else if k <= olds.len() {
        patches_upto(news, olds, parent, next, k - 1) + removal(olds[k - 1], parent)
    } else {
        patches_upto(news, olds, parent, next, k - 1)
    }
}

} // verus!
