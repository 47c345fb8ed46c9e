//! The description of an element.

use vstd::prelude::*;
use crate::props::{Attribute, Listener, Props};
use crate::vnode::VNode;

verus! {

/// A virtual element: its tag, its attributes and listeners, and its
/// children in order.
pub struct VTag {
    pub tag: String,
    pub props: Props,
    pub childs: Vec<VNode>,
}

impl VTag {
    /// An element with this tag and nothing else yet.
    pub fn new(tag: &str) -> (vtag: VTag)
        ensures
            vtag.tag@ == tag@,
            vtag.props@.attributes.len() == 0,
            vtag.props@.listeners.len() == 0,
            vtag.childs@.len() == 0,
    {
        VTag { tag: tag.to_owned(), props: Props::new(), childs: Vec::new() }
    }

    /// The tag of the element.
    pub fn tag(&self) -> (tag: &str)
        ensures
            tag@ == self.tag@,
    {
        self.tag.as_str()
    }

    /// Puts `child` behind the children there are.
    pub fn add_child(&mut self, child: VNode)
        ensures
            final(self).childs@ == old(self).childs@.push(child),
            final(self).tag == old(self).tag,
            final(self).props == old(self).props,
    {
        self.childs.push(child);
    }

    /// Puts an attribute behind the attributes there are.
    pub fn add_attribute(&mut self, name: &str, value: &str)
        ensures
            final(self).props@.attributes == old(self).props@.attributes.push((name@, value@)),
            final(self).props@.listeners == old(self).props@.listeners,
            final(self).tag == old(self).tag,
            final(self).childs == old(self).childs,
    {
        self.props.attributes.push(Attribute { name: name.to_owned(), value: value.to_owned() });
        assert(self.props@.attributes =~= old(self).props@.attributes.push((name@, value@)));
    }

    /// Puts a listener behind the listeners there are.
    pub fn add_listener(&mut self, event: &str, handler: u64)
        ensures
            final(self).props@.listeners == old(self).props@.listeners.push((event@, handler)),
            final(self).props@.attributes == old(self).props@.attributes,
            final(self).tag == old(self).tag,
            final(self).childs == old(self).childs,
    {
        self.props.listeners.push(Listener { event: event.to_owned(), handler });
        assert(self.props@.listeners =~= old(self).props@.listeners.push((event@, handler)));
    }
}

} // verus!
