use vstd::prelude::*;
use vstd::utf8::encode_utf8;

use crate::endpoint::{address_of, Endpoint};
use crate::id::{ripemd160_of, Id};

verus! {

/// The identifier of a node.
pub type NodeId = Id;

/// The identifier that a node reached at an endpoint takes: RIPEMD-160 of
/// the endpoint's `host:port` text.
pub open spec fn node_id_of(endpoint: (Seq<char>, u16)) -> Seq<u8> {
    ripemd160_of(encode_utf8(address_of(endpoint.0, endpoint.1)))
}

/// A peer of the network: its identifier and the endpoint it is reached at.
/// Two nodes are equal when both parts are.
#[derive(Debug)]
pub struct Node {
    id: NodeId,
    endpoint: Endpoint,
}

impl View for Node {
    type V = (Seq<u8>, (Seq<char>, u16));

    closed spec fn view(&self) -> (Seq<u8>, (Seq<char>, u16)) {
        (self.id@, self.endpoint@)
    }
}

impl Node {
    /// The node reached at `endpoint`, with the identifier hashed from its
    /// address.
    pub fn new(endpoint: Endpoint) -> (r: Node)
        ensures
            r@ == (node_id_of(endpoint@), endpoint@),
            r@.0.len() == crate::id::EXPECTED_ID_LENGTH_IN_BYTES,
    {
        let id = Id::generate_from(endpoint.address());
        Node { id, endpoint }
    }

    /// The node reached at `endpoint` with the given identifier.
    pub fn new_with_id(endpoint: Endpoint, id: Id) -> (r: Node)
        ensures
            r@ == (id@, endpoint@),
    {
        Node { id, endpoint }
    }

    /// The identifier.
    pub fn id(&self) -> (r: &NodeId)
        ensures
            r@ == self@.0,
    {
        &self.id
    }

    /// The endpoint.
    pub fn endpoint(&self) -> (r: &Endpoint)
        ensures
            r@ == self@.1,
    {
        &self.endpoint
    }

    /// A copy of the identifier.
    pub fn node_id(&self) -> (r: NodeId)
        ensures
            r@ == self@.0,
    {
        self.id.clone()
    }

    /// A copy of the endpoint.
    pub fn node_endpoint(&self) -> (r: Endpoint)
        ensures
            r@ == self@.1,
    {
        self.endpoint.clone()
    }

    /// The big-endian bytes of the XOR distance between the two identifiers.
    pub fn distance_from(&self, other: &Node) -> (r: Vec<u8>)
        ensures
            r@ == crate::id::xor_bytes(self@.0, other@.0),
            crate::id::be_value(r@) == crate::id::distance(self@.0, other@.0),
    {
        self.id.distance_from(&other.id)
    }
}

impl Clone for Node {
    fn clone(&self) -> (r: Self)
        ensures
            r@ == self@,
    {
        Node { id: self.id.clone(), endpoint: self.endpoint.clone() }
    }
}

impl PartialEq for Node {
    fn eq(&self, other: &Node) -> (r: bool)
        ensures
            r == (self@ == other@),
    {
        self.id == other.id && self.endpoint == other.endpoint
    }
}

impl vstd::std_specs::cmp::PartialEqSpecImpl for Node {
    open spec fn obeys_eq_spec() -> bool {
        true
    }

    open spec fn eq_spec(&self, other: &Node) -> bool {
        self@ == other@
    }
}

impl Eq for Node {
}

} // verus!
