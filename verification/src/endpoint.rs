//! Endpoints: a host together with the ports found open on it.

use crate::addr::IpAddress;
use vstd::prelude::*;

verus! {

/// Transport that a port is reached over.
#[derive(Debug, Clone, Copy, PartialEq, Eq, Hash, Structural)]
pub enum TransportProtocol {
    Tcp,
    Udp,
    Quic,
}

/// A port: number and transport.
#[derive(Debug, Clone, Copy, PartialEq, Eq, Hash, Structural)]
pub struct Port {
    pub number: u16,
    pub transport: TransportProtocol,
}

impl Port {
    pub fn new(number: u16, transport: TransportProtocol) -> (port: Port)
        ensures
            port == (Port { number, transport }),
    {
        Port { number, transport }
    }
}

/// A host and the ports that service detection should look at, in the order
/// in which they were first added.
#[derive(Debug)]
pub struct Endpoint {
    pub ip: IpAddress,
    pub hostname: Option<String>,
    pub ports: Vec<Port>,
}

impl Endpoint {
    /// An endpoint without a name and without ports.
    pub fn new(ip: IpAddress) -> (endpoint: Endpoint)
        ensures
            endpoint.ip == ip,
            endpoint.hostname is None,
            endpoint.ports@ == Seq::<Port>::empty(),
    {
        Endpoint { ip, hostname: None, ports: Vec::new() }
    }

    /// Adds `port` unless the endpoint has it already, so that ports added
    /// through this method alone occur once each.
    pub fn upsert_port(&mut self, port: Port)
        ensures
            final(self).ip == old(self).ip,
            final(self).hostname == old(self).hostname,
            final(self).ports@ == if old(self).ports@.contains(port) {
                old(self).ports@
            } else {
                old(self).ports@.push(port)
            },
            old(self).ports@.no_duplicates() ==> final(self).ports@.no_duplicates(),
    {
        let mut i: usize = 0;
        while i < self.ports.len()
            invariant
                i <= self.ports.len(),
                *self == *old(self),
                forall|j: int| 0 <= j < i ==> self.ports@[j] != port,
            decreases self.ports.len() - i,
        {
            if self.ports[i] == port {
                return ;
            }
            i += 1;
        }
        assert(!self.ports@.contains(port));
        self.ports.push(port);
    }
}

} // verus!
