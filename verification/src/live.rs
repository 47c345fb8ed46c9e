//! A model of the live tree, and what the recorded mutations do to it.
//!
//! The model holds what reconciliation is about: which live nodes there are,
//! what each is (an element with its tag, a text with its content), and the
//! children of each in order. Attributes and listeners are the element
//! renderer's business and are left out.

use vstd::prelude::*;
use crate::model::NodeView;
use crate::mutation::MutationView;

verus! {

/// What a live node is.
pub enum Label {
    Element { tag: Seq<char> },
    Text { text: Seq<char> },
}

/// The live nodes there are: the children of each, in order, and what each
/// of them is.
pub struct LiveTree {
    pub children: Map<int, Seq<int>>,
    pub labels: Map<int, Label>,
}

/// The list `list` with `new` wherever `old` stood.
pub open spec fn replaced(list: Seq<int>, old: int, new: int) -> Seq<int> {
    Seq::new(
        list.len(),
        |i: int|
            if list[i] == old {
                new
            } else {
                list[i]
            },
    )
}

/// The list `list` without `node`.
pub open spec fn without(list: Seq<int>, node: int) -> Seq<int>
    decreases list.len(),
{
    if list.len() == 0 {
        list
    } else if list.last() == node {
        without(list.drop_last(), node)
    } else {
        without(list.drop_last(), node).push(list.last())
    }
}

/// The live nodes that a list of bound virtual nodes is bound to, in order.
pub open spec fn bindings(nodes: Seq<NodeView>) -> Seq<int> {
    Seq::new(nodes.len(), |i: int| nodes[i].bound_to()->0)
}

impl LiveTree {
    /// Whether there is a live node of this number.
    pub open spec fn has(self, node: int) -> bool {
        self.children.dom().contains(node) && self.labels.dom().contains(node)
    }

    /// Whether every live node, and every child listed, has a number below
    /// `limit`.
    pub open spec fn below(self, limit: int) -> bool {
        &&& forall|node: int| #[trigger] self.children.dom().contains(node) ==> node < limit
        &&& forall|node: int, i: int|
            self.children.dom().contains(node) && 0 <= i < self.children[node].len()
                ==> #[trigger] self.children[node][i] < limit
    }

    /// The live tree after one mutation. A mutation that names a parent or a
    /// text which is not there leaves the tree as it is; so does a removal
    /// or replacement of a node that is not among the children of the
    /// parent. A node is appended only when it has just been made, so it
    /// stands under no parent yet.
    pub open spec fn after(self, mutation: MutationView) -> LiveTree {
        match mutation {
            MutationView::CreateElement { node, tag } => LiveTree {
                children: self.children.insert(node, Seq::empty()),
                labels: self.labels.insert(node, Label::Element { tag }),
            },
            MutationView::CreateText { node, text } => LiveTree {
                children: self.children.insert(node, Seq::empty()),
                labels: self.labels.insert(node, Label::Text { text }),
            },
            MutationView::AppendChild { parent, child } => if self.has(parent) {
                LiveTree {
                    children: self.children.insert(parent, self.children[parent].push(child)),
                    labels: self.labels,
                }
            } else {
                self
            },
            MutationView::ReplaceChild { parent, new_child, old_child } => if self.has(parent) {
                LiveTree {
                    children: self.children.insert(
                        parent,
                        replaced(self.children[parent], old_child, new_child),
                    ),
                    labels: self.labels,
                }
            } else {
                self
            },
            MutationView::RemoveChild { parent, child } => if self.has(parent) {
                LiveTree {
                    children: self.children.insert(parent, without(self.children[parent], child)),
                    labels: self.labels,
                }
            } else {
                self
            },
            MutationView::SetText { node, text } => if self.has(node) {
                LiveTree {
                    children: self.children,
                    labels: self.labels.insert(node, Label::Text { text }),
                }
            } else {
                self
            },
            MutationView::Render { .. } => self,
        }
    }

    /// The live tree after a list of mutations, performed in order.
    pub open spec fn after_all(self, mutations: Seq<MutationView>) -> LiveTree
        decreases mutations.len(),
    {
        if mutations.len() == 0 {
            self
        } else {
            self.after_all(mutations.drop_last()).after(mutations.last())
        }
    }

    /// Whether the live tree shows `node`: the node and all below it are
    /// bound, each to a live node of its kind with its tag or its content,
    /// and the children of each live element are the live nodes of the
    /// element's children, in order.
    pub open spec fn shows(self, node: NodeView) -> bool
        decreases node,
    {
        match node {
            NodeView::Element { binding, tag, children, .. } => {
                &&& binding is Some
                &&& self.has(binding->0)
                &&& self.labels[binding->0] == Label::Element { tag }
                &&& self.children[binding->0] == bindings(children)
                &&& forall|i: int| 0 <= i < children.len() ==> self.shows(#[trigger] children[i])
            },
            NodeView::Text { binding, text } => {
                &&& binding is Some
                &&& self.has(binding->0)
                &&& self.labels[binding->0] == Label::Text { text }
                &&& self.children[binding->0].len() == 0
            },
        }
    }

    /// Whether this tree and `other` agree on the live node `node`.
    pub open spec fn agrees_on(self, other: LiveTree, node: int) -> bool {
        &&& self.has(node) == other.has(node)
        &&& self.has(node) ==> self.children[node] == other.children[node] && self.labels[node]
            == other.labels[node]
    }
}

/// Performing two lists of mutations in a row is performing the first and
/// then the second.
pub proof fn after_all_concat(tree: LiveTree, a: Seq<MutationView>, b: Seq<MutationView>)
    ensures
        tree.after_all(a + b) == tree.after_all(a).after_all(b),
    decreases b.len(),
{
    if b.len() > 0 {
        assert((a + b).drop_last() =~= a + b.drop_last());
        after_all_concat(tree, a, b.drop_last());
    }
}

/// Whether a live tree shows a node depends on the live nodes that the node
/// holds only.
pub proof fn shows_where_it_agrees(tree: LiveTree, other: LiveTree, node: NodeView)
    requires
        tree.shows(node),
        forall|held: int| #[trigger] node.holds(held) ==> tree.agrees_on(other, held),
    ensures
        other.shows(node),
    decreases node,
{
    match node {
        NodeView::Element { binding, children, .. } => {
            assert(node.holds(binding->0));
            assert forall|i: int| 0 <= i < children.len() implies other.shows(
                #[trigger] children[i],
            ) by {
                assert forall|held: int| #[trigger] children[i].holds(held) implies tree.agrees_on(
                    other,
                    held,
                ) by {
                    assert(node.holds(held));
                }
                shows_where_it_agrees(tree, other, children[i]);
            }
        },
        NodeView::Text { binding, .. } => {
            assert(node.holds(binding->0));
        },
    }
}

/// A node that a live tree shows is bound throughout.
pub proof fn shown_is_bound(tree: LiveTree, node: NodeView)
    requires
        tree.shows(node),
    ensures
        node.bound_throughout(),
    decreases node,
{
    match node {
        NodeView::Element { children, .. } => {
            assert forall|i: int| 0 <= i < children.len() implies (
            #[trigger] children[i]).bound_throughout() by {
                shown_is_bound(tree, children[i]);
            }
        },
        NodeView::Text { .. } => {},
    }
}

/// Taking out a node that is not in the list leaves the list as it is.
pub proof fn without_absent(list: Seq<int>, node: int)
    requires
        !list.contains(node),
    ensures
        without(list, node) == list,
    decreases list.len(),
{
    if list.len() > 0 {
        assert(!list.drop_last().contains(node));
        without_absent(list.drop_last(), node);
    }
}

/// Taking out a node that stands at one place of the list leaves what
/// stood before it and what stood behind it.
pub proof fn without_the_one(before: Seq<int>, node: int, behind: Seq<int>)
    requires
        !before.contains(node),
        !behind.contains(node),
    ensures
        without(before + seq![node] + behind, node) == before + behind,
    decreases behind.len(),
{
    let list = before + seq![node] + behind;
    if behind.len() == 0 {
        assert(list.drop_last() =~= before);
        without_absent(before, node);
    } else {
        assert(list.drop_last() =~= before + seq![node] + behind.drop_last());
        assert(!behind.drop_last().contains(node));
        without_the_one(before, node, behind.drop_last());
    }
}

/// A node that was taken out of a list is not in it.
pub proof fn without_is_gone(list: Seq<int>, node: int)
    ensures
        !without(list, node).contains(node),
        forall|other: int|
            other != node ==> without(list, node).contains(other) == list.contains(other),
    decreases list.len(),
{
    if list.len() > 0 {
        let shorter = list.drop_last();
        let end = list.last();
        without_is_gone(shorter, node);
        assert(list =~= shorter.push(end));
        assert forall|other: int| list.contains(other) == (shorter.contains(other) || other
            == end) by {
            if shorter.contains(other) {
                let i = choose|i: int| 0 <= i < shorter.len() && shorter[i] == other;
                assert(list[i] == other);
            }
        }
        if end != node {
            let kept = without(shorter, node);
            let result = kept.push(end);
            assert forall|other: int| result.contains(other) == (kept.contains(other) || other
                == end) by {
                if kept.contains(other) {
                    let i = choose|i: int| 0 <= i < kept.len() && kept[i] == other;
                    assert(result[i] == other);
                }
                if other == end {
                    assert(result[result.len() - 1] == other);
                }
            }
        }
    }
}

/// Replacing a node that stands at one place of the list changes that
/// place only.
pub proof fn replaced_the_one(before: Seq<int>, old: int, behind: Seq<int>, new: int)
    requires
        !before.contains(old),
        !behind.contains(old),
    ensures
        replaced(before + seq![old] + behind, old, new) == before + seq![new] + behind,
{
    let list = before + seq![old] + behind;
    let result = before + seq![new] + behind;
    assert(replaced(list, old, new) =~= result);
}

} // verus!
