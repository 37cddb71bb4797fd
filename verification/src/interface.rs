//! Network interfaces, as far as the scans look at them.

use crate::text::{is_text, text_of};
use crate::tuner::OsFamily;
use vstd::prelude::*;
use vstd::string::{StrSliceExecFns, StringExecFns};

verus! {

/// What the scans read of a network interface: its names, its own addresses
/// and the IPv4 addresses of its gateway, each list in the order in which
/// the system reports it.
#[derive(Debug)]
pub struct InterfaceInfo {
    pub name: String,
    pub friendly_name: Option<String>,
    pub ipv4_addrs: Vec<u32>,
    pub ipv6_addrs: Vec<u128>,
    pub gateway_ipv4: Vec<u32>,
}

/// `needle` occurs in `hay` as a run of neighboring characters.
pub open spec fn is_within(needle: Seq<char>, hay: Seq<char>) -> bool {
    exists|i: int|
        0 <= i <= hay.len() - needle.len() && #[trigger] hay.subrange(i, i + needle.len())
            == needle
}

/// The name under which an interface is shown. On Windows that is the
/// friendly name. On macOS it is the friendly name too, followed by the
/// interface name in parentheses unless it holds that name already.
/// Everywhere else, and where there is no friendly name, it is the
/// interface name.
pub open spec fn display_name_of(os: OsFamily, name: Seq<char>, friendly: Option<Seq<char>>) -> Seq<
    char,
> {
    match (os, friendly) {
        (OsFamily::Windows, Some(f)) => f,
        (OsFamily::Macos, Some(f)) => if is_within(name, f) {
            f
        } else {
            f + " ("@ + name + ")"@
        },
        _ => name,
    }
}

fn chars_of(text: &str) -> (chars: Vec<char>)
    ensures
        chars@ == text@,
{
    let n = text.unicode_len();
    let mut chars: Vec<char> = Vec::new();
    while chars.len() < n
        invariant
            n == text@.len(),
            chars.len() <= n,
            chars@ == text@.take(chars.len() as int),
        decreases n - chars.len(),
    {
        let ghost before = chars@;
        chars.push(text.get_char(chars.len()));
        assert(chars@ == text@.take(chars.len() as int));
    }
    assert(text@.take(n as int) == text@);
    chars
}

/// Whether `needle` occurs in `hay`.
pub fn contains_text(hay: &str, needle: &str) -> (found: bool)
    ensures
        found == is_within(needle@, hay@),
{
    let h = chars_of(hay);
    let n = chars_of(needle);
    if n.len() > h.len() {
        return false;
    }
    let last: usize = h.len() - n.len();
    let mut i: usize = 0;
    while i <= last
        invariant
            i <= last + 1,
            last == h.len() - n.len(),
            h@ == hay@,
            n@ == needle@,
            forall|j: int| 0 <= j < i ==> #[trigger] h@.subrange(j, j + n.len()) != n@,
        decreases last + 1 - i,
    {
        let mut k: usize = 0;
        while k < n.len() && h[i + k] == n[k]
            invariant
                k <= n.len(),
                i + n.len() <= h.len(),
                forall|m: int| 0 <= m < k ==> h@[i + m] == n@[m],
            decreases n.len() - k,
        {
            k += 1;
        }
        if k == n.len() {
            assert(h@.subrange(i as int, i + n.len()) =~= n@);
            return true;
        }
        assert(h@.subrange(i as int, i + n.len())[k as int] != n@[k as int]);
        i += 1;
    }
    false
}

/// The name under which an interface is shown on the operating system `os`.
pub fn get_display_name(os: OsFamily, iface: &InterfaceInfo) -> (shown: String)
    ensures
        shown@ == display_name_of(os, iface.name@, text_of(iface.friendly_name)),
{
    match (os, &iface.friendly_name) {
        (OsFamily::Windows, Some(friendly)) => friendly.clone(),
        (OsFamily::Macos, Some(friendly)) => {
            if contains_text(friendly.as_str(), iface.name.as_str()) {
                friendly.clone()
            } else {
                friendly.clone().concat(" (").concat(iface.name.as_str()).concat(")")
            }
        },
        _ => iface.name.clone(),
    }
}

/// The interface is called `name`, by its name or by its friendly name.
pub open spec fn is_called(iface: InterfaceInfo, name: Seq<char>) -> bool {
    iface.name@ == name || text_of(iface.friendly_name) == Some(name)
}

/// The first interface that is called `name`, by its position in the list.
pub fn find_interface(interfaces: &Vec<InterfaceInfo>, name: &str) -> (found: Option<usize>)
    ensures
        match found {
            Some(at) => {
                &&& at < interfaces.len()
                &&& is_called(interfaces@[at as int], name@)
                &&& forall|k: int| 0 <= k < at ==> !is_called(#[trigger] interfaces@[k], name@)
            },
            None => forall|k: int|
                0 <= k < interfaces.len() ==> !is_called(#[trigger] interfaces@[k], name@),
        },
{
    let mut at: usize = 0;
    while at < interfaces.len()
        invariant
            at <= interfaces.len(),
            forall|k: int| 0 <= k < at ==> !is_called(#[trigger] interfaces@[k], name@),
        decreases interfaces.len() - at,
    {
        let iface = &interfaces[at];
        let by_friendly = match &iface.friendly_name {
            Some(friendly) => is_text(friendly.as_str(), name),
            None => false,
        };
        if is_text(iface.name.as_str(), name) || by_friendly {
            return Some(at);
        }
        at += 1;
    }
    None
}

/// Prefix length of the network that a neighbor scan covers.
pub const NEIGHBOR_PREFIX: u8 = 24;

/// The hosts of the `/24` network that `address` lies in: the 254 addresses
/// between the network address and the broadcast address, in ascending order.
pub open spec fn subnet_hosts_of(address: u32) -> Seq<u32> {
    Seq::new(254, |i: int| (address - address % 256 + 1 + i) as u32)
}

/// `ipnet::Ipv4Net::new` and `Ipv4Net::hosts` on the network it returns, for
/// a prefix length of 24: the host addresses of the network that `address`
/// lies in, from the one behind the network address to the one before the
/// broadcast address. Such a prefix length is never refused.
#[verifier::external_body]
pub(crate) fn subnet_hosts(address: u32, prefix_len: u8) -> (hosts: Vec<u32>)
    requires
        prefix_len == 24,
    ensures
        hosts@ == subnet_hosts_of(address),
{
    match netdev::ipnet::Ipv4Net::new(address.into(), prefix_len) {
        Ok(net) => net.hosts().map(u32::from).collect(),
        Err(_) => Vec::new(),
    }
}

} // verus!
