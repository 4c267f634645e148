use vstd::prelude::*;
use vstd::string::StringExecFns;

use crate::text::{decimal, push_decimal};

verus! {

/// The text form `host:port` of an endpoint.
pub open spec fn address_of(host: Seq<char>, port: u16) -> Seq<char> {
    host + seq![':'] + decimal(port as nat)
}

/// The network address of a node: a host name or IP address, and a port.
#[derive(Debug)]
pub struct Endpoint {
    host: String,
    port: u16,
}

impl View for Endpoint {
    type V = (Seq<char>, u16);

    closed spec fn view(&self) -> (Seq<char>, u16) {
        (self.host@, self.port)
    }
}

impl Endpoint {
    pub fn new(host: String, port: u16) -> (r: Endpoint)
        ensures
            r@ == (host@, port),
    {
        Endpoint { host, port }
    }

    /// The host name or IP address.
    pub fn host(&self) -> (r: &String)
        ensures
            r@ == self@.0,
    {
        &self.host
    }

    /// The port.
    pub fn port(&self) -> (r: u16)
        ensures
            r == self@.1,
    {
        self.port
    }

    /// The text form `host:port`.
    pub fn address(&self) -> (r: String)
        ensures
            r@ == address_of(self@.0, self@.1),
    {
        let mut address = self.host.clone();
        proof {
            reveal_strlit(":");
        }
        address.append(":");
        push_decimal(&mut address, self.port as u64);
        address
    }
}

impl Clone for Endpoint {
    fn clone(&self) -> (r: Self)
        ensures
            r@ == self@,
    {
        Endpoint { host: self.host.clone(), port: self.port }
    }
}

impl PartialEq for Endpoint {
    fn eq(&self, other: &Endpoint) -> (r: bool)
        ensures
            r == (self@ == other@),
    {
        self.port == other.port && self.host == other.host
    }
}

impl vstd::std_specs::cmp::PartialEqSpecImpl for Endpoint {
    open spec fn obeys_eq_spec() -> bool {
        true
    }

    open spec fn eq_spec(&self, other: &Endpoint) -> bool {
        self@ == other@
    }
}

impl Eq for Endpoint {
}

} // verus!
