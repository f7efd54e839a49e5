use crate::ids::{ElementId, ScopeId};
use vstd::prelude::*;

verus! {

broadcast use {vstd::std_specs::vec::axiom_vec_index_decreases, vstd::std_specs::vec::axiom_vec_decreases_to_view, vstd::seq::axiom_seq_index_decreases};

/// The value of an attribute: a scalar or a reference to an event handler.
#[derive(Debug)]
pub enum AttributeValue {
    Text(String),
    Bool(bool),
    Int(i64),
    Handler(u64),
}

/// One attribute of an element.
#[derive(Debug)]
pub struct Attribute {
    pub name: String,
    pub value: AttributeValue,
    pub namespace: Option<String>,
}

/// A text node.
#[derive(Debug)]
pub struct VText {
    /// The node's handle once it is mounted.
    pub id: Option<ElementId>,
    /// The text itself.
    pub text: String,
}

/// An element with its attributes, listeners and children.
#[derive(Debug)]
pub struct VElement {
    pub id: Option<ElementId>,
    pub tag: String,
    pub namespace: Option<String>,
    /// Stable identity of this element among its siblings across renders.
    pub key: Option<u64>,
    pub attributes: Vec<Attribute>,
    /// Names of the events this element listens to.
    pub listeners: Vec<String>,
    pub children: Vec<VNode>,
}

/// An invisible marker that holds a position for content not yet available.
#[derive(Debug)]
pub struct VPlaceholder {
    pub id: Option<ElementId>,
}

/// The point where the output of another component is mounted; it is anchored
/// in the tree by an invisible marker node.
#[derive(Debug)]
pub struct VComponent {
    pub id: Option<ElementId>,
    pub scope: ScopeId,
}

/// One node of a rendered tree.
#[derive(Debug)]
pub enum VNode {
    Element(VElement),
    Text(VText),
    Placeholder(VPlaceholder),
    Component(VComponent),
}

pub open spec fn same_opt_str(a: Option<String>, b: Option<String>) -> bool {
    match (a, b) {
        (None, None) => true,
        (Some(x), Some(y)) => x@ == y@,
        _ => false,
    }
}

pub open spec fn same_value(a: AttributeValue, b: AttributeValue) -> bool {
    match (a, b) {
        (AttributeValue::Text(x), AttributeValue::Text(y)) => x@ == y@,
        (AttributeValue::Bool(x), AttributeValue::Bool(y)) => x == y,
        (AttributeValue::Int(x), AttributeValue::Int(y)) => x == y,
        (AttributeValue::Handler(x), AttributeValue::Handler(y)) => x == y,
        _ => false,
    }
}

pub open spec fn same_attribute(a: Attribute, b: Attribute) -> bool {
    a.name@ == b.name@ && same_value(a.value, b.value) && same_opt_str(a.namespace, b.namespace)
}

/// Two trees describe the same content: same kinds, tags, namespaces, keys,
/// attributes, listeners and text, whatever handles they carry.
pub open spec fn same_template(a: VNode, b: VNode) -> bool
    decreases a,
{
    match (a, b) {
        (VNode::Text(x), VNode::Text(y)) => x.text@ == y.text@,
        (VNode::Placeholder(_), VNode::Placeholder(_)) => true,
        (VNode::Component(x), VNode::Component(y)) => x.scope == y.scope,
        (VNode::Element(x), VNode::Element(y)) => {
            &&& x.tag@ == y.tag@
            &&& same_opt_str(x.namespace, y.namespace)
            &&& x.key == y.key
            &&& x.attributes@.len() == y.attributes@.len()
            &&& forall|i: int|
                0 <= i < x.attributes@.len() ==> same_attribute(
                    #[trigger] x.attributes@[i],
                    y.attributes@[i],
                )
            &&& x.listeners@.len() == y.listeners@.len()
            &&& forall|i: int|
                0 <= i < x.listeners@.len() ==> (#[trigger] x.listeners@[i])@ == y.listeners@[i]@
            &&& x.children@.len() == y.children@.len()
            &&& forall|i: int|
                0 <= i < x.children@.len() ==> same_template(
                    #[trigger] x.children@[i],
                    y.children@[i],
                )
        },
        _ => false,
    }
}

/// Every node of the tree carries a handle.
pub open spec fn mounted(n: VNode) -> bool
    decreases n,
{
    match n {
        VNode::Element(e) => e.id is Some && forall|i: int|
            0 <= i < e.children@.len() ==> mounted(#[trigger] e.children@[i]),
        VNode::Text(t) => t.id is Some,
        VNode::Placeholder(p) => p.id is Some,
        VNode::Component(c) => c.id is Some,
    }
}

impl VNode {
    /// The handle of the tree's root, if it has one.
    pub open spec fn root_id(&self) -> Option<ElementId> {
        match self {
            VNode::Element(e) => e.id,
            VNode::Text(t) => t.id,
            VNode::Placeholder(p) => p.id,
            VNode::Component(c) => c.id,
        }
    }

    /// The key of the tree's root (only elements carry keys).
    pub open spec fn key_spec(&self) -> Option<u64> {
        match self {
            VNode::Element(e) => e.key,
            _ => None,
        }
    }

    #[verifier::when_used_as_spec(root_id)]
    pub fn id(&self) -> (r: Option<ElementId>)
        ensures
            r == self.root_id(),
    {
        match self {
            VNode::Element(e) => e.id,
            VNode::Text(t) => t.id,
            VNode::Placeholder(p) => p.id,
            VNode::Component(c) => c.id,
        }
    }

    #[verifier::when_used_as_spec(key_spec)]
    pub fn key(&self) -> (r: Option<u64>)
        ensures
            r == self.key_spec(),
    {
        match self {
            VNode::Element(e) => e.key,
            _ => None,
        }
    }
}

pub fn str_eq(a: &String, b: &String) -> (r: bool)
    ensures
        r == (a@ == b@),
{
    *a == *b
}

pub fn opt_str_eq(a: &Option<String>, b: &Option<String>) -> (r: bool)
    ensures
        r == same_opt_str(*a, *b),
{
    match (a, b) {
        (None, None) => true,
        (Some(x), Some(y)) => str_eq(x, y),
        _ => false,
    }
}

pub fn copy_opt_str(a: &Option<String>) -> (r: Option<String>)
    ensures
        r == *a,
{
    match a {
        None => None,
        Some(x) => Some(x.clone()),
    }
}

impl AttributeValue {
    pub fn same_as(&self, o: &AttributeValue) -> (r: bool)
        ensures
            r == same_value(*self, *o),
    {
        match (self, o) {
            (AttributeValue::Text(x), AttributeValue::Text(y)) => str_eq(x, y),
            (AttributeValue::Bool(x), AttributeValue::Bool(y)) => *x == *y,
            (AttributeValue::Int(x), AttributeValue::Int(y)) => *x == *y,
            (AttributeValue::Handler(x), AttributeValue::Handler(y)) => *x == *y,
            _ => false,
        }
    }

    pub fn copy(&self) -> (r: AttributeValue)
        ensures
            r == *self,
    {
        match self {
            AttributeValue::Text(x) => AttributeValue::Text(x.clone()),
            AttributeValue::Bool(x) => AttributeValue::Bool(*x),
            AttributeValue::Int(x) => AttributeValue::Int(*x),
            AttributeValue::Handler(x) => AttributeValue::Handler(*x),
        }
    }
}

} // verus!
