//! The mutations of the live tree that a reconciliation asks for.

use vstd::prelude::*;
use crate::props::{Props, PropsView, props_view};

verus! {

/// One step to perform on the live tree. Nodes are named by their numbers.
#[derive(Debug, PartialEq, Eq)]
pub enum Mutation {
    /// Make a live element node with this tag and know it as `node`.
    CreateElement { node: u64, tag: String },
    /// Make a live text node with this content and know it as `node`.
    CreateText { node: u64, text: String },
    /// Put `child` behind the last child of `parent`.
    AppendChild { parent: u64, child: u64 },
    /// Put `new_child` where `old_child` stands among the children of `parent`.
    ReplaceChild { parent: u64, new_child: u64, old_child: u64 },
    /// Take `child` out of the children of `parent`. A live tree in which
    /// `child` is no longer found there is left as it is.
    RemoveChild { parent: u64, child: u64 },
    /// Write this content into the live text node `node`.
    SetText { node: u64, text: String },
    /// Bring attributes and listeners of the live element in line with
    /// `props`. `previous` holds those of the element of the generation
    /// before that the live node was taken over from; without one, all of
    /// `props` is new to the live node.
    Render { element: u64, props: Props, previous: Option<Props> },
}

/// The mathematical value of a [`Mutation`].
pub enum MutationView {
    CreateElement { node: int, tag: Seq<char> },
    CreateText { node: int, text: Seq<char> },
    AppendChild { parent: int, child: int },
    ReplaceChild { parent: int, new_child: int, old_child: int },
    RemoveChild { parent: int, child: int },
    SetText { node: int, text: Seq<char> },
    Render { element: int, props: PropsView, previous: Option<PropsView> },
}

/// What a mutation does, whatever nodes it names.
#[derive(Clone, Copy, Debug, PartialEq, Eq, Structural)]
pub enum Kind {
    /// A live node is made.
    Create,
    /// A live node becomes the last child of another.
    Append,
    /// A live node takes the place of another.
    Replace,
    /// A live node leaves its parent.
    Remove,
    /// The content of a live text node is written.
    Write,
    /// The element renderer is called.
    Render,
}

impl MutationView {
    /// The kind of this mutation.
    pub open spec fn kind(self) -> Kind {
        match self {
            MutationView::CreateElement { .. } => Kind::Create,
            MutationView::CreateText { .. } => Kind::Create,
            MutationView::AppendChild { .. } => Kind::Append,
            MutationView::ReplaceChild { .. } => Kind::Replace,
            MutationView::RemoveChild { .. } => Kind::Remove,
            MutationView::SetText { .. } => Kind::Write,
            MutationView::Render { .. } => Kind::Render,
        }
    }
}

/// How many of the mutations are of this kind.
pub open spec fn count(mutations: Seq<MutationView>, kind: Kind) -> nat
    decreases mutations.len(),
{
    if mutations.len() == 0 {
        0
    } else {
        count(mutations.drop_last(), kind) + if mutations.last().kind() == kind {
            1nat
        } else {
            0nat
        }
    }
}

/// Counting over two lists in a row is counting each and adding up.
pub proof fn count_concat(a: Seq<MutationView>, b: Seq<MutationView>, kind: Kind)
    ensures
        count(a + b, kind) == count(a, kind) + count(b, kind),
    decreases b.len(),
{
    if b.len() == 0 {
        assert(a + b =~= a);
    } else {
        assert((a + b).drop_last() =~= a + b.drop_last());
        count_concat(a, b.drop_last(), kind);
    }
}

impl View for Mutation {
    type V = MutationView;

    open spec fn view(&self) -> MutationView {
        match self {
            Mutation::CreateElement { node, tag } => MutationView::CreateElement {
                node: *node as int,
                tag: tag@,
            },
            Mutation::CreateText { node, text } => MutationView::CreateText {
                node: *node as int,
                text: text@,
            },
            Mutation::AppendChild { parent, child } => MutationView::AppendChild {
                parent: *parent as int,
                child: *child as int,
            },
            Mutation::ReplaceChild { parent, new_child, old_child } => MutationView::ReplaceChild {
                parent: *parent as int,
                new_child: *new_child as int,
                old_child: *old_child as int,
            },
            Mutation::RemoveChild { parent, child } => MutationView::RemoveChild {
                parent: *parent as int,
                child: *child as int,
            },
            Mutation::SetText { node, text } => MutationView::SetText {
                node: *node as int,
                text: text@,
            },
            Mutation::Render { element, props, previous } => MutationView::Render {
                element: *element as int,
                props: props@,
                previous: props_view(*previous),
            },
        }
    }
}

impl Mutation {
    /// The kind of this mutation.
    pub fn kind(&self) -> (kind: Kind)
        ensures
            kind == self@.kind(),
    {
        match self {
            Mutation::CreateElement { .. } => Kind::Create,
            Mutation::CreateText { .. } => Kind::Create,
            Mutation::AppendChild { .. } => Kind::Append,
            Mutation::ReplaceChild { .. } => Kind::Replace,
            Mutation::RemoveChild { .. } => Kind::Remove,
            Mutation::SetText { .. } => Kind::Write,
            Mutation::Render { .. } => Kind::Render,
        }
    }

    /// Whether the live tree may go on, with no more than a warning, when it
    /// does not find the node that this mutation is about. That holds of a
    /// removal and of nothing else: a live tree that others have changed may
    /// have lost the node already, and then is as the removal wants it.
    pub fn may_miss(&self) -> (tolerated: bool)
        ensures
            tolerated == (self@.kind() == Kind::Remove),
    {
        match self {
            Mutation::RemoveChild { .. } => true,
            _ => false,
        }
    }
}

/// The values of a list of mutations, in order.
pub open spec fn mutation_views(mutations: Seq<Mutation>) -> Seq<MutationView> {
    mutations.map_values(|m: Mutation| m@)
}

} // verus!
