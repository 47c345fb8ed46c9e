//! The live document as the reconciler sees it: a source of numbers for new
//! live nodes, and the list of mutations that are still to be performed.

use vstd::prelude::*;
use crate::handle::{Element, TextNode};
use crate::mutation::{Mutation, MutationView, mutation_views};
use crate::laws::fresh_within_size;
use crate::model::{NodeView, fresh_count};
use crate::props::{Props, props_view};
use crate::vnode::VNode;

verus! {

/// Hands out the numbers of new live nodes and records what is to be done
/// to the live tree. Nothing here touches a live tree: whoever owns one
/// takes the recorded mutations and performs them in order.
pub struct Document {
    next: u64,
    log: Vec<Mutation>,
}

impl Document {
    /// The number that the next new live node gets.
    pub closed spec fn next_id(&self) -> int {
        self.next as int
    }

    /// The mutations recorded and not yet taken, oldest first.
    pub closed spec fn pending(&self) -> Seq<MutationView> {
        mutation_views(self.log@)
    }

    /// A document whose new nodes are numbered from `first` on. The numbers
    /// below `first` are free for live nodes that exist already, such as the
    /// node under which a tree is mounted.
    pub fn new(first: u64) -> (document: Document)
        ensures
            document.next_id() == first,
            document.pending() == Seq::<MutationView>::empty(),
    {
        let document = Document { next: first, log: Vec::new() };
        assert(document.pending() =~= Seq::<MutationView>::empty());
        document
    }

    /// The number that the next new live node gets.
    pub fn first_free(&self) -> (next: u64)
        ensures
            next == self.next_id(),
    {
        self.next
    }

    /// How many new live nodes can still be numbered.
    pub fn room(&self) -> (room: u64)
        ensures
            room == u64::MAX - self.next_id(),
    {
        u64::MAX - self.next
    }

    /// Whether a live node of its own could be numbered for each node of
    /// `node`. Where this holds, `node` can be reconciled against any
    /// previous node.
    pub fn has_room_for(&self, node: &VNode) -> (enough: bool)
        ensures
            enough == (self.next_id() + node@.size() <= u64::MAX),
            enough ==> forall|last: Option<NodeView>|
                self.next_id() + #[trigger] fresh_count(node@, last) <= u64::MAX,
    {
        proof {
            assert forall|last: Option<NodeView>|
                #[trigger] fresh_count(node@, last) <= node@.size() by {
                fresh_within_size(node@, last);
            }
        }
        node.spend(u64::MAX - self.next).is_some()
    }

    fn record(&mut self, mutation: Mutation)
        ensures
            final(self).next_id() == old(self).next_id(),
            final(self).pending() == old(self).pending().push(mutation@),
    {
        self.log.push(mutation);
        assert(mutation_views(self.log@) =~= mutation_views(old(self).log@).push(mutation@));
    }

    /// Asks for a new live element node with this tag.
    pub fn create_element(&mut self, tag: &String) -> (element: Element)
        requires
            old(self).next_id() < u64::MAX,
        ensures
            element@ == old(self).next_id(),
            final(self).next_id() == old(self).next_id() + 1,
            final(self).pending() == old(self).pending().push(
                MutationView::CreateElement { node: old(self).next_id(), tag: tag@ },
            ),
    {
        let node = self.next;
        self.record(Mutation::CreateElement { node, tag: tag.clone() });
        self.next = node + 1;
        Element::bind(node)
    }

    /// Asks for a new live text node with this content.
    pub fn create_text_node(&mut self, text: &String) -> (node: TextNode)
        requires
            old(self).next_id() < u64::MAX,
        ensures
            node@ == old(self).next_id(),
            final(self).next_id() == old(self).next_id() + 1,
            final(self).pending() == old(self).pending().push(
                MutationView::CreateText { node: old(self).next_id(), text: text@ },
            ),
    {
        let node = self.next;
        self.record(Mutation::CreateText { node, text: text.clone() });
        self.next = node + 1;
        TextNode::bind(node)
    }

    /// Asks for `child` to become the last child of `parent`.
    pub fn append_child(&mut self, parent: u64, child: u64)
        ensures
            final(self).next_id() == old(self).next_id(),
            final(self).pending() == old(self).pending().push(
                MutationView::AppendChild { parent: parent as int, child: child as int },
            ),
    {
        self.record(Mutation::AppendChild { parent, child });
    }

    /// Asks for `new_child` to take the place of `old_child` under `parent`.
    pub fn replace_child(&mut self, parent: u64, new_child: u64, old_child: u64)
        ensures
            final(self).next_id() == old(self).next_id(),
            final(self).pending() == old(self).pending().push(
                MutationView::ReplaceChild {
                    parent: parent as int,
                    new_child: new_child as int,
                    old_child: old_child as int,
                },
            ),
    {
        self.record(Mutation::ReplaceChild { parent, new_child, old_child });
    }

    /// Asks for `child` to leave the children of `parent`.
    pub fn remove_child(&mut self, parent: u64, child: u64)
        ensures
            final(self).next_id() == old(self).next_id(),
            final(self).pending() == old(self).pending().push(
                MutationView::RemoveChild { parent: parent as int, child: child as int },
            ),
    {
        self.record(Mutation::RemoveChild { parent, child });
    }

    /// Asks for the content of the live text node `node` to become `text`.
    pub fn set_text(&mut self, node: u64, text: &String)
        ensures
            final(self).next_id() == old(self).next_id(),
            final(self).pending() == old(self).pending().push(
                MutationView::SetText { node: node as int, text: text@ },
            ),
    {
        self.record(Mutation::SetText { node, text: text.clone() });
    }

    /// Asks the element renderer to bring the live element in line with
    /// `props`, given those of the matched previous element, if there is one.
    pub fn render(&mut self, element: u64, props: Props, previous: Option<Props>)
        ensures
            final(self).next_id() == old(self).next_id(),
            final(self).pending() == old(self).pending().push(
                MutationView::Render {
                    element: element as int,
                    props: props@,
                    previous: props_view(previous),
                },
            ),
    {
        self.record(Mutation::Render { element, props, previous });
    }

    /// Hands over the recorded mutations, oldest first, and forgets them.
    pub fn take_mutations(&mut self) -> (mutations: Vec<Mutation>)
        ensures
            mutation_views(mutations@) == old(self).pending(),
            final(self).pending() == Seq::<MutationView>::empty(),
            final(self).next_id() == old(self).next_id(),
    {
        let mut mutations: Vec<Mutation> = Vec::new();
        std::mem::swap(&mut self.log, &mut mutations);
        assert(self.pending() =~= Seq::<MutationView>::empty());
        mutations
    }
}

} // verus!
