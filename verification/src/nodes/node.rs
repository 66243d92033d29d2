//! Node identity.

use vstd::prelude::*;

verus! {

/// The UUID of a node of a puppet.
#[derive(Debug, Clone, Copy, Default, PartialEq, Eq, PartialOrd, Ord, Hash, Structural)]
pub struct InoxNodeUuid(pub u32);

/// The index of a node in the storage of a puppet's nodes.
#[derive(Debug, Clone, Copy, PartialEq, Eq, PartialOrd, Ord, Hash, Structural)]
pub struct NodeId(usize);

impl View for NodeId {
    type V = nat;

    closed spec fn view(&self) -> nat {
        self.0 as nat
    }
}

impl NodeId {
    /// The node at index `value`. Nothing checks that such a node exists, so this is
    /// only for the code that stores the nodes.
    pub fn new(value: usize) -> (r: Self)
        ensures
            r@ == value,
    {
        NodeId(value)
    }
}

/// What a node is: a plain node, a part, a composite, a simple physics driver, or a custom
/// node. `P`, `C` and `S` are the data of parts, composites and physics drivers, `T` that
/// of custom nodes.
#[derive(Debug, Clone)]
pub enum InoxData<P, C, S, T> {
    Node,
    Part(P),
    Composite(C),
    SimplePhysics(S),
    Custom(T),
}

/// The name of the kind of node that `d` is.
pub open spec fn spec_data_type_name<P, C, S, T>(d: InoxData<P, C, S, T>) -> &'static str {
    match d {
        InoxData::Node => "Node",
        InoxData::Part(_) => "Part",
        InoxData::Composite(_) => "Composite",
        InoxData::SimplePhysics(_) => "SimplePhysics",
        InoxData::Custom(_) => "Custom",
    }
}

impl<P, C, S, T> InoxData<P, C, S, T> {
    pub fn is_node(&self) -> (r: bool)
        ensures
            r == self is Node,
    {
        matches!(self, InoxData::Node)
    }

    pub fn is_part(&self) -> (r: bool)
        ensures
            r == self is Part,
    {
        matches!(self, InoxData::Part(_))
    }

    pub fn is_composite(&self) -> (r: bool)
        ensures
            r == self is Composite,
    {
        matches!(self, InoxData::Composite(_))
    }

    pub fn is_simple_physics(&self) -> (r: bool)
        ensures
            r == self is SimplePhysics,
    {
        matches!(self, InoxData::SimplePhysics(_))
    }

    pub fn is_custom(&self) -> (r: bool)
        ensures
            r == self is Custom,
    {
        matches!(self, InoxData::Custom(_))
    }

    /// The name of the kind of node.
    pub fn data_type_name(&self) -> (r: &'static str)
        ensures
            r@ == spec_data_type_name(*self)@,
    {
        match self {
            InoxData::Node => "Node",
            InoxData::Part(_) => "Part",
            InoxData::Composite(_) => "Composite",
            InoxData::SimplePhysics(_) => "SimplePhysics",
            InoxData::Custom(_) => "Custom",
        }
    }
}

} // verus!
