//! Bindings from virtual nodes to the live nodes that materialise them.
//!
//! A live node is known to this library by a number only. The embedding
//! application keeps the table from numbers to the nodes of its live tree.
//! A binding cannot be copied: it moves from one generation of the virtual
//! tree to the next, or is given up when its live node is discarded.

use vstd::prelude::*;

verus! {

/// The exclusive binding of a virtual element to a live element node.
pub struct Element {
    id: u64,
}

/// The exclusive binding of a virtual text to a live text node.
pub struct TextNode {
    id: u64,
}

impl View for Element {
    type V = int;

    closed spec fn view(&self) -> int {
        self.id as int
    }
}

impl View for TextNode {
    type V = int;

    closed spec fn view(&self) -> int {
        self.id as int
    }
}

impl Element {
    /// The number of the live node this binding stands for.
    pub fn id(&self) -> (id: u64)
        ensures
            id == self@,
    {
        self.id
    }

    pub(crate) fn bind(id: u64) -> (element: Element)
        ensures
            element@ == id,
    {
        Element { id }
    }
}

impl TextNode {
    /// The number of the live node this binding stands for.
    pub fn id(&self) -> (id: u64)
        ensures
            id == self@,
    {
        self.id
    }

    pub(crate) fn bind(id: u64) -> (text: TextNode)
        ensures
            text@ == id,
    {
        TextNode { id }
    }
}

/// The live node behind an optional element binding.
pub open spec fn element_binding(reference: Option<Element>) -> Option<int> {
    match reference {
        Some(element) => Some(element@),
        None => None,
    }
}

/// The live node behind an optional text binding.
pub open spec fn text_binding(reference: Option<TextNode>) -> Option<int> {
    match reference {
        Some(text) => Some(text@),
        None => None,
    }
}

} // verus!
