//! The virtual node: the description of an element or of a text, together
//! with the binding to the live node that materialises it.

use vstd::prelude::*;
use crate::document::Document;
use crate::handle::{Element, TextNode, element_binding, text_binding};
use crate::laws::{
    bound_after_reconciliation, description_kept, fresh_upto_grows, fresh_upto_rests,
    sizes_upto_grows,
};
use crate::model::{
    NodeView, descriptions, child_at, fresh_count, fresh_upto, pair_count, paired_children,
    patches, patches_upto, reconciled, reconciled_children, removal, sizes_upto,
};
use crate::props::Props;
use crate::vtag::VTag;
use crate::vtext::VText;

verus! {

/// A virtual node and the live node it is bound to, if it has been
/// materialised.
#[allow(inconsistent_fields)]
pub enum VNode {
    /// A virtual element and the binding to its live element node.
    VTag { reference: Option<Element>, vtag: VTag },
    /// A virtual text and the binding to its live text node.
    VText { reference: Option<TextNode>, vtext: VText },
}

impl View for VNode {
    type V = NodeView;

    open spec fn view(&self) -> NodeView
        decreases self,
    {
        match self {
            VNode::VTag { reference, vtag } => NodeView::Element {
                binding: element_binding(*reference),
                tag: vtag.tag@,
                props: vtag.props@,
                children: node_views(vtag.childs@),
            },
            VNode::VText { reference, vtext } => NodeView::Text {
                binding: text_binding(*reference),
                text: vtext.text@,
            },
        }
    }
}

impl PartialEq for VNode {
    /// Two nodes are equal where they describe the same tree, whatever live
    /// nodes they are bound to.
    fn eq(&self, other: &VNode) -> (same: bool) {
        self.same_description(other)
    }
}

impl vstd::std_specs::cmp::PartialEqSpecImpl for VNode {
    open spec fn obeys_eq_spec() -> bool {
        true
    }

    open spec fn eq_spec(&self, other: &VNode) -> bool {
        self@.description() == other@.description()
    }
}

/// What a node is shown as to a reader: its kind, and its tag or its text.
/// The live node it is bound to is not shown.
pub open spec fn rendering(node: NodeView) -> Seq<char> {
    match node {
        NodeView::Element { tag, .. } => "VTag { tag: "@ + tag + " }"@,
        NodeView::Text { text, .. } => "VText { text: "@ + text + " }"@,
    }
}

impl From<VText> for VNode {
    /// The node of a text, not yet materialised.
    fn from(vtext: VText) -> (node: VNode) {
        VNode::VText { reference: None, vtext }
    }
}

impl vstd::std_specs::convert::FromSpecImpl<VText> for VNode {
    open spec fn obeys_from_spec() -> bool {
        true
    }

    open spec fn from_spec(vtext: VText) -> VNode {
        VNode::VText { reference: None, vtext }
    }
}

impl From<VTag> for VNode {
    /// The node of an element, not yet materialised.
    fn from(vtag: VTag) -> (node: VNode) {
        VNode::VTag { reference: None, vtag }
    }
}

impl vstd::std_specs::convert::FromSpecImpl<VTag> for VNode {
    open spec fn obeys_from_spec() -> bool {
        true
    }

    open spec fn from_spec(vtag: VTag) -> VNode {
        VNode::VTag { reference: None, vtag }
    }
}

impl<T: std::fmt::Display> From<T> for VNode {
    /// The node of the text that `value` prints as, not yet materialised.
    fn from(value: T) -> (node: VNode)
        ensures
            node matches VNode::VText { reference: None, vtext }
                && vstd::string::to_string_from_display_ensures::<T>(&value, vtext.text),
    {
        VNode::VText { reference: None, vtext: VText::new(value.to_string()) }
    }
}

impl<T: std::fmt::Display> vstd::std_specs::convert::FromSpecImpl<T> for VNode {
    /// What a value prints as is not a function that can be written down
    /// here: the conversion states its result itself.
    open spec fn obeys_from_spec() -> bool {
        false
    }

    open spec fn from_spec(value: T) -> VNode {
        arbitrary()
    }
}

/// The values of a list of virtual nodes, in order.
pub open spec fn node_views(nodes: Seq<VNode>) -> Seq<NodeView>
    decreases nodes,
{
    Seq::new(
        nodes.len(),
        |i: int|
            if 0 <= i < nodes.len() {
                nodes[i]@
            } else {
                arbitrary()
            },
    )
}

/// The value of an optional virtual node.
pub open spec fn node_view(node: Option<VNode>) -> Option<NodeView> {
    match node {
        Some(n) => Some(n@),
        None => None,
    }
}

/// The same nodes in the opposite order.
fn reversed(nodes: Vec<VNode>) -> (turned: Vec<VNode>)
    ensures
        turned@.len() == nodes@.len(),
        forall|j: int| 0 <= j < nodes@.len() ==> turned@[nodes@.len() - 1 - j] == nodes@[j],
{
    let mut rest = nodes;
    let mut turned: Vec<VNode> = Vec::new();
    loop
        invariant
            rest@.len() + turned@.len() == nodes@.len(),
            forall|j: int| 0 <= j < rest@.len() ==> rest@[j] == nodes@[j],
            forall|j: int|
                rest@.len() <= j < nodes@.len() ==> turned@[nodes@.len() - 1 - j] == nodes@[j],
        ensures
            turned@.len() == nodes@.len(),
            forall|j: int| 0 <= j < nodes@.len() ==> turned@[nodes@.len() - 1 - j] == nodes@[j],
        decreases rest@.len(),
    {
        match rest.pop() {
            Some(node) => {
                turned.push(node);
            },
            None => {
                break ;
            },
        }
    }
    turned
}

/// What is left of `budget` once each node of the first trees of `nodes`
/// has taken one from it, or nothing where they are more than `budget`.
fn spend_all(nodes: &Vec<VNode>, budget: u64) -> (left: Option<u64>)
    ensures
        match left {
            Some(rest) => sizes_upto(node_views(nodes@), nodes@.len() as int) + rest == budget,
            None => sizes_upto(node_views(nodes@), nodes@.len() as int) > budget,
        },
    decreases nodes,
{
    let ghost views = node_views(nodes@);
    let mut rest = budget;
    let mut i: usize = 0;
    while i < nodes.len()
        invariant
            i <= nodes.len(),
            views == node_views(nodes@),
            sizes_upto(views, i as int) + rest == budget,
        decreases nodes.len() - i,
    {
        match nodes[i].spend(rest) {
            Some(less) => {
                rest = less;
            },
            None => {
                proof {
                    sizes_upto_grows(views, i as int + 1, nodes@.len() as int);
                }
                return None;
            },
        }
        i = i + 1;
    }
    Some(rest)
}

/// Whether two lists of nodes describe the same trees in the same order.
fn same_descriptions(left: &Vec<VNode>, right: &Vec<VNode>) -> (same: bool)
    ensures
        same == (descriptions(node_views(left@)) == descriptions(node_views(right@))),
    decreases left,
{
    if left.len() != right.len() {
        assert(descriptions(node_views(left@)).len() != descriptions(node_views(right@)).len());
        return false;
    }
    let mut i: usize = 0;
    while i < left.len()
        invariant
            i <= left.len(),
            left.len() == right.len(),
            forall|j: int|
                0 <= j < i ==> (#[trigger] left@[j])@.description() == right@[j]@.description(),
        decreases left.len() - i,
    {
        if !left[i].same_description(&right[i]) {
            assert(descriptions(node_views(left@))[i as int] != descriptions(
                node_views(right@),
            )[i as int]);
            return false;
        }
        i = i + 1;
    }
    assert(descriptions(node_views(left@)) =~= descriptions(node_views(right@)));
    true
}

/// Reconciles the children of an element, by position, against the children
/// of the element it took its live node over from. `element` is that live
/// node. A new child meets the previous child at its position, or none;
/// previous children beyond the new ones are discarded.
fn reconcile_children(
    childs: &mut Vec<VNode>,
    rights: Vec<VNode>,
    element: u64,
    document: &mut Document,
)
    requires
        old(document).next_id() + fresh_upto(
            node_views(old(childs)@),
            node_views(rights@),
            old(childs)@.len() as int,
        ) <= u64::MAX,
    ensures
        node_views(final(childs)@) == reconciled_children(
            node_views(old(childs)@),
            node_views(rights@),
            old(document).next_id(),
        ),
        final(document).next_id() == old(document).next_id() + fresh_upto(
            node_views(old(childs)@),
            node_views(rights@),
            old(childs)@.len() as int,
        ),
        final(document).pending() == old(document).pending() + patches_upto(
            node_views(old(childs)@),
            node_views(rights@),
            element as int,
            old(document).next_id(),
            pair_count(node_views(old(childs)@), node_views(rights@)),
        ),
    decreases *old(childs),
{
    let ghost news = node_views(childs@);
    let ghost olds = node_views(rights@);
    let ghost first = document.next_id();
    let ghost base = document.pending();
    let ghost initial = childs@;
    let n = childs.len();
    let m = rights.len();
    let count = if n >= m { n } else { m };
    let mut stale = reversed(rights);
    let mut i: usize = 0;
    while i < count
        invariant
            i <= count,
            n == childs@.len(),
            n == initial.len(),
            m == olds.len(),
            count == (if n >= m { n } else { m }),
            initial == old(childs)@,
            news == node_views(initial),
            first + fresh_upto(news, olds, n as int) <= u64::MAX,
            document.next_id() == first + fresh_upto(news, olds, i as int),
            document.pending() == base + patches_upto(news, olds, element as int, first, i as int),
            forall|j: int| i <= j < n ==> #[trigger] childs@[j] == initial[j],
            forall|j: int|
                0 <= j < i && j < n ==> (#[trigger] childs@[j])@ == reconciled(
                    news[j],
                    child_at(olds, j),
                    first + fresh_upto(news, olds, j),
                ),
            stale@.len() == (if i <= m { m - i } else { 0 }),
            forall|j: int| i <= j < m ==> (#[trigger] stale@[m - 1 - j])@ == olds[j],
        decreases count - i,
    {
        let ghost upto = patches_upto(news, olds, element as int, first, i as int);
        let ghost waiting = stale@;
        let old_child = stale.pop();
        proof {
            if i < m {
                assert(old_child == Some(waiting[m - 1 - i]));
            }
        }
        if i < n {
            proof {
                fresh_upto_grows(news, olds, i as int + 1, n as int);
            }
            childs[i].apply(element, old_child, document);
            proof {
                let step = patches(
                    news[i as int],
                    child_at(olds, i as int),
                    element as int,
                    first + fresh_upto(news, olds, i as int),
                );
                assert(base + upto + step =~= base + (upto + step));
            }
        } else {
            match old_child {
                Some(old) => {
                    old.remove(element, document);
                    proof {
                        let step = removal(olds[i as int], element as int);
                        assert(base + upto + step =~= base + (upto + step));
                    }
                },
                None => {
                    unreached()
                },
            }
        }
        i = i + 1;
    }
    proof {
        fresh_upto_rests(news, olds, count as int);
        assert(node_views(childs@) =~= reconciled_children(news, olds, first));
    }
}

impl VNode {
    /// Discards a node that does not enter the next generation: asks for
    /// its live node, if it has one, to leave the children of `parent`.
    /// A node that was never materialised leaves the document as it is.
    pub fn remove(self, parent: u64, document: &mut Document)
        ensures
            final(document).next_id() == old(document).next_id(),
            final(document).pending() == old(document).pending() + removal(self@, parent as int),
    {
        let opt_ref: Option<u64> = self.bound_to();
        if let Some(node) = opt_ref {
            document.remove_child(parent, node);
        }
    }

    /// The node as shown to a reader.
    pub fn describe(&self) -> (shown: String)
        ensures
            shown@ == rendering(self@),
    {
        match self {
            VNode::VTag { vtag, .. } => {
                let mut shown = String::from_str("VTag { tag: ");
                shown.append(vtag.tag.as_str());
                shown.append(" }");
                shown
            },
            VNode::VText { vtext, .. } => {
                let mut shown = String::from_str("VText { text: ");
                shown.append(vtext.text.as_str());
                shown.append(" }");
                shown
            },
        }
    }

    /// The number of the live node this node is bound to, if it has been
    /// materialised.
    pub fn bound_to(&self) -> (node: Option<u64>)
        ensures
            match node {
                Some(id) => self@.bound_to() == Some(id as int),
                None => self@.bound_to() is None,
            },
    {
        match self {
            VNode::VTag { reference, .. } => match reference {
                Some(element) => Some(element.id()),
                None => None,
            },
            VNode::VText { reference, .. } => match reference {
                Some(text) => Some(text.id()),
                None => None,
            },
        }
    }

    /// What is left of `budget` once each node of the tree has taken one
    /// from it, or nothing where the tree has more nodes than `budget`.
    pub(crate) fn spend(&self, budget: u64) -> (left: Option<u64>)
        ensures
            match left {
                Some(rest) => self@.size() + rest == budget,
                None => self@.size() > budget,
            },
        decreases self,
    {
        if budget == 0 {
            return None;
        }
        match self {
            VNode::VTag { vtag, .. } => spend_all(&vtag.childs, budget - 1),
            VNode::VText { .. } => Some(budget - 1),
        }
    }

    /// Whether this node and `other` describe the same tree: the same tags,
    /// attributes, listeners and texts in the same places. The live nodes
    /// that either is bound to play no part.
    pub fn same_description(&self, other: &VNode) -> (same: bool)
        ensures
            same == (self@.description() == other@.description()),
        decreases self,
    {
        match self {
            VNode::VTag { vtag: vtag_a, .. } => match other {
                VNode::VTag { vtag: vtag_b, .. } => {
                    vtag_a.tag == vtag_b.tag && vtag_a.props.same(&vtag_b.props)
                        && same_descriptions(&vtag_a.childs, &vtag_b.childs)
                },
                _ => false,
            },
            VNode::VText { vtext: vtext_a, .. } => match other {
                VNode::VText { vtext: vtext_b, .. } => vtext_a.text == vtext_b.text,
                _ => false,
            },
        }
    }

    /// Reconciles this node against `last`, the node that stood in its place
    /// in the generation before, under the live node `parent`.
    ///
    /// The live node of `last` is taken over where it fits, replaced where it
    /// does not, and a new one is appended where `last` brings none. The
    /// children are paired by position: a new child meets the previous child
    /// at its position, and previous children beyond the new ones are
    /// discarded. On return this node and all below it are bound, `last` is
    /// used up, and `document` holds the mutations that were asked for.
    pub fn apply(&mut self, parent: u64, last: Option<VNode>, document: &mut Document)
        requires
            old(document).next_id() + fresh_count(old(self)@, node_view(last)) <= u64::MAX,
        ensures
            final(self)@ == reconciled(old(self)@, node_view(last), old(document).next_id()),
            final(self)@.bound_throughout(),
            final(self)@.description() == old(self)@.description(),
            final(document).next_id() == old(document).next_id() + fresh_count(
                old(self)@,
                node_view(last),
            ),
            final(document).pending() == old(document).pending() + patches(
                old(self)@,
                node_view(last),
                parent as int,
                old(document).next_id(),
            ),
        decreases *old(self),
    {
        let ghost new = self@;
        let ghost previous = node_view(last);
        proof {
            bound_after_reconciliation(new, previous, document.next_id());
            description_kept(new, previous, document.next_id());
        }
        match self {
            VNode::VTag { reference, vtag } => {
                let mut right: Option<VTag> = None;
                let element: u64;
                match last {
                    Some(VNode::VTag { vtag: old_tag, reference: Some(old_element) }) => {
                        if vtag.tag == old_tag.tag {
                            element = old_element.id();
                            right = Some(old_tag);
                            *reference = Some(old_element);
                        } else {
                            let created = document.create_element(&vtag.tag);
                            element = created.id();
                            document.replace_child(parent, element, old_element.id());
                            *reference = Some(created);
                        }
                    },
                    Some(VNode::VText { reference: Some(wrong), .. }) => {
                        let created = document.create_element(&vtag.tag);
                        element = created.id();
                        document.replace_child(parent, element, wrong.id());
                        *reference = Some(created);
                    },
                    _ => {
                        let created = document.create_element(&vtag.tag);
                        element = created.id();
                        document.append_child(parent, element);
                        *reference = Some(created);
                    },
                }
                let (previous_props, rights): (Option<Props>, Vec<VNode>) = match right {
                    Some(old_tag) => (Some(old_tag.props), old_tag.childs),
                    None => (None, Vec::new()),
                };
                assert(node_views(rights@) =~= paired_children(new, previous));
                document.render(element, vtag.props.duplicate(), previous_props);
                reconcile_children(&mut vtag.childs, rights, element, document);
            },
            VNode::VText { reference, vtext } => {
                match last {
                    Some(VNode::VText { vtext: old_text, reference: Some(node) }) => {
                        if vtext.text != old_text.text {
                            document.set_text(node.id(), &vtext.text);
                        }
                        *reference = Some(node);
                    },
                    Some(VNode::VTag { reference: Some(wrong), .. }) => {
                        let created = document.create_text_node(&vtext.text);
                        document.replace_child(parent, created.id(), wrong.id());
                        *reference = Some(created);
                    },
                    _ => {
                        let created = document.create_text_node(&vtext.text);
                        document.append_child(parent, created.id());
                        *reference = Some(created);
                    },
                }
            },
        }
    }
}

} // verus!
