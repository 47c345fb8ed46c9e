//! What an element carries besides its tag and children: attributes and
//! event listeners. The reconciler never looks inside them; it hands them
//! to the element renderer together with those of the matched previous
//! element.

use vstd::prelude::*;

verus! {

/// One attribute of an element.
#[derive(Debug)]
pub struct Attribute {
    pub name: String,
    pub value: String,
}

/// One event listener of an element. The callback itself stays with the
/// embedding application, which finds it under `handler`.
#[derive(Debug)]
pub struct Listener {
    pub event: String,
    pub handler: u64,
}

/// Attributes and listeners of one element, in the order they were added.
#[derive(Debug)]
pub struct Props {
    pub attributes: Vec<Attribute>,
    pub listeners: Vec<Listener>,
}

/// The mathematical value of a [`Props`].
pub struct PropsView {
    pub attributes: Seq<(Seq<char>, Seq<char>)>,
    pub listeners: Seq<(Seq<char>, u64)>,
}

impl View for Attribute {
    type V = (Seq<char>, Seq<char>);

    open spec fn view(&self) -> (Seq<char>, Seq<char>) {
        (self.name@, self.value@)
    }
}

impl View for Listener {
    type V = (Seq<char>, u64);

    open spec fn view(&self) -> (Seq<char>, u64) {
        (self.event@, self.handler)
    }
}

impl View for Props {
    type V = PropsView;

    open spec fn view(&self) -> PropsView {
        PropsView {
            attributes: self.attributes@.map_values(|a: Attribute| a@),
            listeners: self.listeners@.map_values(|l: Listener| l@),
        }
    }
}

impl PartialEq for Attribute {
    fn eq(&self, other: &Attribute) -> (same: bool) {
        self.same(other)
    }
}

impl vstd::std_specs::cmp::PartialEqSpecImpl for Attribute {
    open spec fn obeys_eq_spec() -> bool {
        true
    }

    open spec fn eq_spec(&self, other: &Attribute) -> bool {
        self@ == other@
    }
}

impl Eq for Attribute {

}

impl PartialEq for Listener {
    fn eq(&self, other: &Listener) -> (same: bool) {
        self.same(other)
    }
}

impl vstd::std_specs::cmp::PartialEqSpecImpl for Listener {
    open spec fn obeys_eq_spec() -> bool {
        true
    }

    open spec fn eq_spec(&self, other: &Listener) -> bool {
        self@ == other@
    }
}

impl Eq for Listener {

}

impl PartialEq for Props {
    fn eq(&self, other: &Props) -> (same: bool) {
        self.same(other)
    }
}

impl vstd::std_specs::cmp::PartialEqSpecImpl for Props {
    open spec fn obeys_eq_spec() -> bool {
        true
    }

    open spec fn eq_spec(&self, other: &Props) -> bool {
        self@ == other@
    }
}

impl Eq for Props {

}

/// The value of an optional [`Props`].
pub open spec fn props_view(props: Option<Props>) -> Option<PropsView> {
    match props {
        Some(p) => Some(p@),
        None => None,
    }
}

impl Attribute {
    /// A second attribute with the same name and value.
    pub fn duplicate(&self) -> (copy: Attribute)
        ensures
            copy@ == self@,
    {
        Attribute { name: self.name.clone(), value: self.value.clone() }
    }

    /// Whether both name and value agree.
    pub fn same(&self, other: &Attribute) -> (same: bool)
        ensures
            same == (self@ == other@),
    {
        self.name == other.name && self.value == other.value
    }
}

impl Listener {
    /// A second listener for the same event and handler.
    pub fn duplicate(&self) -> (copy: Listener)
        ensures
            copy@ == self@,
    {
        Listener { event: self.event.clone(), handler: self.handler }
    }

    /// Whether both event and handler agree.
    pub fn same(&self, other: &Listener) -> (same: bool)
        ensures
            same == (self@ == other@),
    {
        self.event == other.event && self.handler == other.handler
    }
}

impl Props {
    /// No attributes and no listeners.
    pub fn new() -> (props: Props)
        ensures
            props@.attributes == Seq::<(Seq<char>, Seq<char>)>::empty(),
            props@.listeners == Seq::<(Seq<char>, u64)>::empty(),
    {
        Props { attributes: Vec::new(), listeners: Vec::new() }
    }

    /// A second set with the same attributes and listeners in the same order.
    pub fn duplicate(&self) -> (copy: Props)
        ensures
            copy@ == self@,
    {
        let mut attributes: Vec<Attribute> = Vec::new();
        let mut i: usize = 0;
        while i < self.attributes.len()
            invariant
                i <= self.attributes.len(),
                attributes@.len() == i,
                forall|j: int| 0 <= j < i ==> attributes@[j]@ == self.attributes@[j]@,
            decreases self.attributes.len() - i,
        {
            attributes.push(self.attributes[i].duplicate());
            i = i + 1;
        }
        let mut listeners: Vec<Listener> = Vec::new();
        let mut k: usize = 0;
        while k < self.listeners.len()
            invariant
                k <= self.listeners.len(),
                listeners@.len() == k,
                forall|j: int| 0 <= j < k ==> listeners@[j]@ == self.listeners@[j]@,
            decreases self.listeners.len() - k,
        {
            listeners.push(self.listeners[k].duplicate());
            k = k + 1;
        }
        let copy = Props { attributes, listeners };
        assert(copy@.attributes =~= self@.attributes);
        assert(copy@.listeners =~= self@.listeners);
        copy
    }

    /// Whether both hold the same attributes and listeners in the same order.
    pub fn same(&self, other: &Props) -> (same: bool)
        ensures
            same == (self@ == other@),
    {
        if self.attributes.len() != other.attributes.len() {
            assert(self@.attributes.len() != other@.attributes.len());
            return false;
        }
        if self.listeners.len() != other.listeners.len() {
            assert(self@.listeners.len() != other@.listeners.len());
            return false;
        }
        let mut i: usize = 0;
        while i < self.attributes.len()
            invariant
                i <= self.attributes.len(),
                self.attributes.len() == other.attributes.len(),
                forall|j: int| 0 <= j < i ==> self.attributes@[j]@ == other.attributes@[j]@,
            decreases self.attributes.len() - i,
        {
            if !self.attributes[i].same(&other.attributes[i]) {
                assert(self@.attributes[i as int] != other@.attributes[i as int]);
                return false;
            }
            i = i + 1;
        }
        let mut k: usize = 0;
        while k < self.listeners.len()
            invariant
                k <= self.listeners.len(),
                self.listeners.len() == other.listeners.len(),
                forall|j: int| 0 <= j < k ==> self.listeners@[j]@ == other.listeners@[j]@,
            decreases self.listeners.len() - k,
        {
            if !self.listeners[k].same(&other.listeners[k]) {
                assert(self@.listeners[k as int] != other@.listeners[k as int]);
                return false;
            }
            k = k + 1;
        }
        assert(self@.attributes =~= other@.attributes);
        assert(self@.listeners =~= other@.listeners);
        true
    }
}

} // verus!
