//! Addresses and hosts.

use crate::text::text_of;
use vstd::prelude::*;

verus! {

/// An IP address: the 32 bits of an IPv4 address or the 128 bits of an IPv6
/// address, most significant byte first.
#[derive(Debug, Clone, Copy, PartialEq, Eq, Hash, Structural)]
pub enum IpAddress {
    V4(u32),
    V6(u128),
}

impl IpAddress {
    pub open spec fn spec_is_ipv4(&self) -> bool {
        *self is V4
    }

    pub open spec fn spec_is_ipv6(&self) -> bool {
        *self is V6
    }

    #[verifier::when_used_as_spec(spec_is_ipv4)]
    pub fn is_ipv4(&self) -> (v4: bool)
        ensures
            v4 == self.spec_is_ipv4(),
    {
        match self {
            IpAddress::V4(_) => true,
            IpAddress::V6(_) => false,
        }
    }

    #[verifier::when_used_as_spec(spec_is_ipv6)]
    pub fn is_ipv6(&self) -> (v6: bool)
        ensures
            v6 == self.spec_is_ipv6(),
    {
        match self {
            IpAddress::V4(_) => false,
            IpAddress::V6(_) => true,
        }
    }
}

/// A host to probe: an address and, where known, the name it came from.
#[derive(Debug, PartialEq, Eq)]
pub struct Host {
    pub ip: IpAddress,
    pub hostname: Option<String>,
}

impl Clone for Host {
    fn clone(&self) -> (copy: Self)
        ensures
            copy == *self,
    {
        Host { ip: self.ip, hostname: self.hostname.clone() }
    }
}

/// A host with its name as a sequence of characters.
pub struct HostView {
    pub ip: IpAddress,
    pub hostname: Option<Seq<char>>,
}

impl View for Host {
    type V = HostView;

    open spec fn view(&self) -> HostView {
        HostView { ip: self.ip, hostname: text_of(self.hostname) }
    }
}

/// The hosts of a list, each with its name as a sequence of characters.
pub open spec fn host_views(hosts: Seq<Host>) -> Seq<HostView> {
    hosts.map_values(|host: Host| host@)
}

/// A target as given: the address or the name is known, not yet both.
#[derive(Debug, PartialEq, Eq)]
pub struct MaybeHost {
    pub ip: Option<IpAddress>,
    pub hostname: Option<String>,
}

impl Clone for MaybeHost {
    fn clone(&self) -> (copy: Self)
        ensures
            copy == *self,
    {
        MaybeHost { ip: self.ip, hostname: self.hostname.clone() }
    }
}

/// A target with its name as a sequence of characters.
pub struct MaybeHostView {
    pub ip: Option<IpAddress>,
    pub hostname: Option<Seq<char>>,
}

impl View for MaybeHost {
    type V = MaybeHostView;

    open spec fn view(&self) -> MaybeHostView {
        MaybeHostView { ip: self.ip, hostname: text_of(self.hostname) }
    }
}

/// The targets of a list, each with its name as a sequence of characters.
pub open spec fn target_views(targets: Seq<MaybeHost>) -> Seq<MaybeHostView> {
    targets.map_values(|target: MaybeHost| target@)
}

} // verus!
