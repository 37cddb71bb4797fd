//! Target resolver: turns mixed input, address literals and host names, into
//! a set of hosts without duplicate addresses. The name lookups themselves
//! are made by the caller.

use crate::addr::{host_views, Host, HostView, IpAddress};
use crate::literal::{ip_text, parse_ip};
use crate::text::{texts_of, trimmed, trimmed_of};
use std::collections::HashSet;
use vstd::prelude::*;
use vstd::string::{StringExecFns, StringSliceAdditionalSpecFns};
use vstd::utf8::encode_utf8;

verus! {

broadcast use vstd::std_specs::hash::group_hash_axioms;

/// Milliseconds that a name lookup may take.
pub const LOOKUP_TIMEOUT_MS: u64 = 1000;

/// How many name lookups run at a time.
pub const LOOKUP_CONCURRENCY: usize = 64;

/// Some host of the list has the address.
pub open spec fn has_ip(hosts: Seq<HostView>, ip: IpAddress) -> bool {
    exists|k: int| 0 <= k < hosts.len() && (#[trigger] hosts[k]).ip == ip
}

/// No two hosts of the list share an address.
pub open spec fn distinct(hosts: Seq<HostView>) -> bool {
    forall|i: int, j: int| 0 <= i < j < hosts.len() ==> (#[trigger] hosts[i]).ip != (
    #[trigger] hosts[j]).ip
}

/// The list with `host` added behind, unless its address is there already.
pub open spec fn with_host(hosts: Seq<HostView>, host: HostView) -> Seq<HostView> {
    if has_ip(hosts, host.ip) {
        hosts
    } else {
        hosts.push(host)
    }
}

/// The address that an input spells once it is trimmed, if it spells one.
pub open spec fn literal_of(input: Seq<char>) -> Option<IpAddress> {
    if trimmed_of(input).len() == 0 {
        None
    } else {
        parse_ip(encode_utf8(trimmed_of(input)))
    }
}

/// The input is a host name: not blank, and no address literal.
pub open spec fn is_name(input: Seq<char>) -> bool {
    trimmed_of(input).len() > 0 && literal_of(input) is None
}

/// The hosts that the address literals among the inputs give, in input
/// order, the first occurrence of an address winning; they carry no name.
pub open spec fn literal_hosts(inputs: Seq<Seq<char>>) -> Seq<HostView>
    decreases inputs.len(),
{
    if inputs.len() == 0 {
        Seq::empty()
    } else {
        let before = literal_hosts(inputs.drop_last());
        match literal_of(inputs.last()) {
            Some(ip) => with_host(before, HostView { ip, hostname: None }),
            None => before,
        }
    }
}

/// The host names among the inputs, trimmed, in input order.
pub open spec fn names_of(inputs: Seq<Seq<char>>) -> Seq<Seq<char>>
    decreases inputs.len(),
{
    if inputs.len() == 0 {
        Seq::empty()
    } else if is_name(inputs.last()) {
        names_of(inputs.drop_last()).push(trimmed_of(inputs.last()))
    } else {
        names_of(inputs.drop_last())
    }
}

/// What a name lookup returned: the addresses of `hostname`, none where the
/// lookup failed.
#[derive(Debug)]
pub struct NameLookup {
    pub hostname: String,
    pub ips: Vec<IpAddress>,
}

pub struct NameLookupView {
    pub hostname: Seq<char>,
    pub ips: Seq<IpAddress>,
}

impl View for NameLookup {
    type V = NameLookupView;

    open spec fn view(&self) -> NameLookupView {
        NameLookupView { hostname: self.hostname@, ips: self.ips@ }
    }
}

/// The lookups of a list, each with its name as a sequence of characters.
pub open spec fn lookup_views(lookups: Seq<NameLookup>) -> Seq<NameLookupView> {
    lookups.map_values(|lookup: NameLookup| lookup@)
}

/// The list with a host for each address of a lookup added, each under the
/// name that was looked up; an address that is there already stays as it is.
pub open spec fn with_addresses(hosts: Seq<HostView>, name: Seq<char>, ips: Seq<IpAddress>) -> Seq<
    HostView,
>
    decreases ips.len(),
{
    if ips.len() == 0 {
        hosts
    } else {
        with_host(
            with_addresses(hosts, name, ips.drop_last()),
            HostView { ip: ips.last(), hostname: Some(name) },
        )
    }
}

/// The list with the hosts of each lookup added, in the order of the lookups.
pub open spec fn with_lookups(hosts: Seq<HostView>, lookups: Seq<NameLookupView>) -> Seq<HostView>
    decreases lookups.len(),
{
    if lookups.len() == 0 {
        hosts
    } else {
        with_addresses(
            with_lookups(hosts, lookups.drop_last()),
            lookups.last().hostname,
            lookups.last().ips,
        )
    }
}

/// The hosts that inputs and lookups resolve to: first the address literals,
/// then the looked-up addresses, each address once.
pub open spec fn resolved(inputs: Seq<Seq<char>>, lookups: Seq<NameLookupView>) -> Seq<HostView> {
    with_lookups(literal_hosts(inputs), lookups)
}

/// A set of hosts to scan: no two share an address.
pub struct TargetSet {
    hosts: Vec<Host>,
    seen_v4: HashSet<u32>,
    seen_v6: HashSet<u128>,
}

impl View for TargetSet {
    type V = Seq<HostView>;

    closed spec fn view(&self) -> Seq<HostView> {
        host_views(self.hosts@)
    }
}

impl TargetSet {
    /// The set is one that its operations make.
    pub closed spec fn wf(&self) -> bool {
        &&& distinct(self@)
        &&& forall|bits: u32| self.seen_v4@.contains(bits) <==> has_ip(self@, IpAddress::V4(bits))
        &&& forall|bits: u128| self.seen_v6@.contains(bits) <==> has_ip(self@, IpAddress::V6(bits))
    }

    /// The hosts of a set have distinct addresses.
    pub proof fn lemma_distinct(&self)
        requires
            self.wf(),
        ensures
            distinct(self@),
    {
    }

    /// The empty set.
    pub fn new() -> (set: TargetSet)
        ensures
            set.wf(),
            set@ == Seq::<HostView>::empty(),
    {
        let set = TargetSet { hosts: Vec::new(), seen_v4: HashSet::new(), seen_v6: HashSet::new() };
        assert(set@ =~= Seq::<HostView>::empty());
        set
    }

    /// Whether some host of the set has the address.
    pub fn contains(&self, ip: IpAddress) -> (found: bool)
        requires
            self.wf(),
        ensures
            found == has_ip(self@, ip),
    {
        match ip {
            IpAddress::V4(bits) => self.seen_v4.contains(&bits),
            IpAddress::V6(bits) => self.seen_v6.contains(&bits),
        }
    }

    /// Adds `host` unless its address is in the set already, and says whether
    /// it was added.
    pub fn add(&mut self, host: Host) -> (added: bool)
        requires
            old(self).wf(),
        ensures
            final(self).wf(),
            final(self)@ == with_host(old(self)@, host@),
            added == !has_ip(old(self)@, host.ip),
    {
        let fresh = match host.ip {
            IpAddress::V4(bits) => self.seen_v4.insert(bits),
            IpAddress::V6(bits) => self.seen_v6.insert(bits),
        };
        if fresh {
            let ghost before = self@;
            self.hosts.push(host);
            proof {
                let after = self@;
                assert(after =~= before.push(host@));
                assert forall|ip: IpAddress| has_ip(after, ip) <==> has_ip(before, ip) || ip
                    == host.ip by {
                    if has_ip(after, ip) {
                        let k = choose|k: int| 0 <= k < after.len() && (#[trigger] after[k]).ip == ip;
                        if k < before.len() {
                            assert(before[k].ip == ip);
                        }
                    }
                    if has_ip(before, ip) {
                        let k = choose|k: int|
                            0 <= k < before.len() && (#[trigger] before[k]).ip == ip;
                        assert(after[k].ip == ip);
                    }
                    if ip == host.ip {
                        assert(after[before.len() as int].ip == ip);
                    }
                }
                assert forall|i: int, j: int| 0 <= i < j < after.len() implies (#[trigger] after[i]).ip
                    != (#[trigger] after[j]).ip by {
                    if j == before.len() {
                        assert(before[i].ip == after[i].ip);
                    } else {
                        assert(before[i] == after[i]);
                        assert(before[j] == after[j]);
                    }
                }
            }
        }
        fresh
    }

    /// Number of hosts.
    pub fn len(&self) -> (n: usize)
        ensures
            n == self@.len(),
    {
        self.hosts.len()
    }

    /// The hosts, in the order in which they were added.
    pub fn hosts(&self) -> (hosts: &Vec<Host>)
        ensures
            host_views(hosts@) == self@,
    {
        &self.hosts
    }

    /// The hosts, in the order in which they were added.
    pub fn into_hosts(self) -> (hosts: Vec<Host>)
        ensures
            host_views(hosts@) == self@,
    {
        self.hosts
    }
}

/// The host names among the inputs that are to be looked up: every input that
/// is neither blank nor an address literal, trimmed, in input order.
pub fn hostnames_to_resolve(inputs: &Vec<String>) -> (names: Vec<String>)
    ensures
        texts_of(names@) == names_of(texts_of(inputs@)),
{
    let mut names: Vec<String> = Vec::new();
    let mut i: usize = 0;
    while i < inputs.len()
        invariant
            i <= inputs.len(),
            texts_of(names@) == names_of(texts_of(inputs@).take(i as int)),
        decreases inputs.len() - i,
    {
        let ghost before = texts_of(names@);
        proof {
            let upto = texts_of(inputs@).take(i + 1);
            assert(upto.drop_last() == texts_of(inputs@).take(i as int));
            assert(upto.last() == inputs@[i as int]@);
        }
        let t = trimmed(inputs[i].as_str());
        if !t.is_empty() && IpAddress::parse(t).is_none() {
            names.push(String::from_str(t));
            assert(texts_of(names@) =~= before.push(t@));
        }
        i += 1;
    }
    assert(texts_of(inputs@).take(inputs.len() as int) == texts_of(inputs@));
    names
}

/// Resolves a mixed list of address literals and host names into hosts.
/// Blank inputs are dropped. Each literal becomes a host without a name; the
/// addresses that the lookups returned follow, each under the name that was
/// looked up. An address occurs once: its first occurrence wins.
pub fn resolve_hosts(inputs: &Vec<String>, lookups: &Vec<NameLookup>) -> (hosts: TargetSet)
    ensures
        hosts.wf(),
        hosts@ == resolved(texts_of(inputs@), lookup_views(lookups@)),
{
    let mut out = TargetSet::new();
    let mut i: usize = 0;
    while i < inputs.len()
        invariant
            i <= inputs.len(),
            out.wf(),
            out@ == literal_hosts(texts_of(inputs@).take(i as int)),
        decreases inputs.len() - i,
    {
        proof {
            let upto = texts_of(inputs@).take(i + 1);
            assert(upto.drop_last() == texts_of(inputs@).take(i as int));
            assert(upto.last() == inputs@[i as int]@);
        }
        let t = trimmed(inputs[i].as_str());
        if !t.is_empty() {
            match IpAddress::parse(t) {
                Some(ip) => {
                    out.add(Host { ip, hostname: None });
                },
                None => {},
            }
        }
        i += 1;
    }
    assert(texts_of(inputs@).take(inputs.len() as int) == texts_of(inputs@));
    let mut j: usize = 0;
    while j < lookups.len()
        invariant
            j <= lookups.len(),
            out.wf(),
            out@ == with_lookups(
                literal_hosts(texts_of(inputs@)),
                lookup_views(lookups@).take(j as int),
            ),
        decreases lookups.len() - j,
    {
        let lookup = &lookups[j];
        let ghost start = out@;
        proof {
            let upto = lookup_views(lookups@).take(j + 1);
            assert(upto.drop_last() == lookup_views(lookups@).take(j as int));
            assert(upto.last() == lookup@);
        }
        let mut k: usize = 0;
        while k < lookup.ips.len()
            invariant
                k <= lookup.ips.len(),
                out.wf(),
                out@ == with_addresses(start, lookup.hostname@, lookup.ips@.take(k as int)),
            decreases lookup.ips.len() - k,
        {
            proof {
                assert(lookup.ips@.take(k + 1).drop_last() == lookup.ips@.take(k as int));
            }
            out.add(Host { ip: lookup.ips[k], hostname: Some(lookup.hostname.clone()) });
            k += 1;
        }
        assert(lookup.ips@.take(lookup.ips.len() as int) == lookup.ips@);
        j += 1;
    }
    assert(lookup_views(lookups@).take(lookups.len() as int) == lookup_views(lookups@));
    out
}

/// Why a host could not be looked up.
#[derive(Debug, Clone, Copy, PartialEq, Eq, Structural)]
pub enum ResolveError {
    /// The name has no address.
    NotResolved,
}

impl ResolveError {
    /// The error in words.
    pub fn message(&self) -> (text: String)
        ensures
            text@ == "failed to resolve host"@,
    {
        String::from_str("failed to resolve host")
    }
}

/// The host for `host`, which is an address literal or a name, from what the
/// lookups returned. For a literal the host carries the name that the
/// reverse lookup found, or the address as text where it found none. For a
/// name the host is the first address that the forward lookup found.
pub fn lookup_host(host: &str, reverse: Option<String>, forward: &Vec<IpAddress>) -> (found: Result<
    Host,
    ResolveError,
>)
    ensures
        match parse_ip(host.spec_bytes()) {
            Some(ip) => found matches Ok(h) && h@ == (HostView {
                ip,
                hostname: Some(
                    match reverse {
                        Some(name) => name@,
                        None => ip_text(ip),
                    },
                ),
            }),
            None => if forward.len() > 0 {
                found matches Ok(h) && h@ == (HostView { ip: forward@[0], hostname: Some(host@) })
            } else {
                found == Err::<Host, ResolveError>(ResolveError::NotResolved)
            },
        },
{
    match IpAddress::parse(host) {
        Some(ip) => {
            let hostname = match reverse {
                Some(name) => name,
                None => ip.to_text(),
            };
            Ok(Host { ip, hostname: Some(hostname) })
        },
        None => {
            if forward.len() > 0 {
                Ok(Host { ip: forward[0], hostname: Some(String::from_str(host)) })
            } else {
                Err(ResolveError::NotResolved)
            }
        },
    }
}

/// A domain name with its addresses.
#[derive(Debug)]
pub struct Domain {
    pub name: String,
    pub ips: Vec<IpAddress>,
}

/// The domain `hostname` with the addresses that its lookup returned, none
/// where the lookup failed.
pub fn lookup_domain(hostname: &str, ips: Option<Vec<IpAddress>>) -> (domain: Domain)
    ensures
        domain.name@ == hostname@,
        domain.ips@ == (match ips {
            Some(found) => found@,
            None => Seq::<IpAddress>::empty(),
        }),
{
    Domain {
        name: String::from_str(hostname),
        ips: match ips {
            Some(found) => found,
            None => Vec::new(),
        },
    }
}

/// Some input is a literal of the address.
pub open spec fn is_literal(inputs: Seq<Seq<char>>, ip: IpAddress) -> bool {
    exists|i: int| 0 <= i < inputs.len() && literal_of(#[trigger] inputs[i]) == Some(ip)
}

/// Some lookup of `name` returned the address.
pub open spec fn looked_up(lookups: Seq<NameLookupView>, name: Seq<char>, ip: IpAddress) -> bool {
    exists|j: int|
        0 <= j < lookups.len() && (#[trigger] lookups[j]).hostname == name && lookups[j].ips.contains(
            ip,
        )
}

/// Some lookup returned the address.
pub open spec fn was_found(lookups: Seq<NameLookupView>, ip: IpAddress) -> bool {
    exists|j: int| 0 <= j < lookups.len() && (#[trigger] lookups[j]).ips.contains(ip)
}

/// The host is what the inputs and lookups say of its address: a host
/// without a name has its address from a literal, a host with a name from a
/// lookup of that name.
pub open spec fn attributed(
    host: HostView,
    inputs: Seq<Seq<char>>,
    lookups: Seq<NameLookupView>,
) -> bool {
    match host.hostname {
        None => is_literal(inputs, host.ip),
        Some(name) => looked_up(lookups, name, host.ip),
    }
}

proof fn lemma_with_host(hosts: Seq<HostView>, host: HostView)
    ensures
        distinct(hosts) ==> distinct(with_host(hosts, host)),
        forall|ip: IpAddress|
            has_ip(with_host(hosts, host), ip) <==> has_ip(hosts, ip) || ip == host.ip,
        forall|k: int|
            0 <= k < with_host(hosts, host).len() ==> (k < hosts.len() && with_host(hosts, host)[k]
                == hosts[k]) || #[trigger] with_host(hosts, host)[k] == host,
{
    let after = with_host(hosts, host);
    assert forall|ip: IpAddress| has_ip(after, ip) <==> has_ip(hosts, ip) || ip == host.ip by {
        if has_ip(after, ip) {
            let k = choose|k: int| 0 <= k < after.len() && (#[trigger] after[k]).ip == ip;
            if k < hosts.len() {
                assert(hosts[k].ip == ip);
            }
        }
        if has_ip(hosts, ip) {
            let k = choose|k: int| 0 <= k < hosts.len() && (#[trigger] hosts[k]).ip == ip;
            assert(after[k].ip == ip);
        }
        if ip == host.ip && !has_ip(hosts, ip) {
            assert(after[hosts.len() as int].ip == ip);
        }
    }
    if distinct(hosts) && !has_ip(hosts, host.ip) {
        assert forall|i: int, j: int| 0 <= i < j < after.len() implies (#[trigger] after[i]).ip != (
        #[trigger] after[j]).ip by {
            if j == hosts.len() {
                assert(hosts[i].ip == after[i].ip);
            } else {
                assert(hosts[i] == after[i]);
                assert(hosts[j] == after[j]);
            }
        }
    }
}

proof fn lemma_literal_hosts(inputs: Seq<Seq<char>>)
    ensures
        distinct(literal_hosts(inputs)),
        forall|ip: IpAddress| has_ip(literal_hosts(inputs), ip) <==> is_literal(inputs, ip),
        forall|k: int|
            0 <= k < literal_hosts(inputs).len() ==> (#[trigger] literal_hosts(
                inputs,
            )[k]).hostname is None,
    decreases inputs.len(),
{
    let out = literal_hosts(inputs);
    if inputs.len() == 0 {
        assert forall|ip: IpAddress| has_ip(out, ip) <==> is_literal(inputs, ip) by {}
    } else {
        let front = inputs.drop_last();
        let before = literal_hosts(front);
        lemma_literal_hosts(front);
        match literal_of(inputs.last()) {
            Some(found) => {
                lemma_with_host(before, HostView { ip: found, hostname: None });
            },
            None => {},
        }
        assert forall|ip: IpAddress| has_ip(out, ip) <==> is_literal(inputs, ip) by {
            if is_literal(inputs, ip) {
                let i = choose|i: int|
                    0 <= i < inputs.len() && literal_of(#[trigger] inputs[i]) == Some(ip);
                if i < front.len() {
                    assert(front[i] == inputs[i]);
                    assert(is_literal(front, ip));
                }
            }
            if is_literal(front, ip) {
                let i = choose|i: int|
                    0 <= i < front.len() && literal_of(#[trigger] front[i]) == Some(ip);
                assert(inputs[i] == front[i]);
            }
            if literal_of(inputs.last()) == Some(ip) {
                assert(inputs[inputs.len() - 1] == inputs.last());
            }
        }
    }
}

proof fn lemma_with_addresses(
    hosts: Seq<HostView>,
    name: Seq<char>,
    ips: Seq<IpAddress>,
)
    ensures
        distinct(hosts) ==> distinct(with_addresses(hosts, name, ips)),
        forall|ip: IpAddress|
            has_ip(with_addresses(hosts, name, ips), ip) <==> has_ip(hosts, ip) || ips.contains(ip),
        forall|k: int|
            0 <= k < with_addresses(hosts, name, ips).len() ==> {
                let host = #[trigger] with_addresses(hosts, name, ips)[k];
                (k < hosts.len() && host == hosts[k]) || (host.hostname == Some(name)
                    && ips.contains(host.ip))
            },
    decreases ips.len(),
{
    let out = with_addresses(hosts, name, ips);
    if ips.len() == 0 {
    } else {
        let front = ips.drop_last();
        let before = with_addresses(hosts, name, front);
        let added = HostView { ip: ips.last(), hostname: Some(name) };
        lemma_with_addresses(hosts, name, front);
        lemma_with_host(before, added);
        assert forall|ip: IpAddress| ips.contains(ip) <==> front.contains(ip) || ip
            == ips.last() by {
            if ips.contains(ip) {
                let k = choose|k: int| 0 <= k < ips.len() && ips[k] == ip;
                if k < front.len() {
                    assert(front[k] == ip);
                }
            }
            if front.contains(ip) {
                let k = choose|k: int| 0 <= k < front.len() && front[k] == ip;
                assert(ips[k] == ip);
            }
            if ip == ips.last() {
                assert(ips[ips.len() - 1] == ip);
            }
        }
        assert forall|k: int| 0 <= k < out.len() implies {
            let host = #[trigger] out[k];
            (k < hosts.len() && host == hosts[k]) || (host.hostname == Some(name) && ips.contains(
                host.ip,
            ))
        } by {
            if k < before.len() && out[k] == before[k] {
                let host = before[k];
                if !(k < hosts.len() && host == hosts[k]) {
                    assert(front.contains(host.ip));
                }
            }
        }
    }
}

proof fn lemma_with_lookups(
    inputs: Seq<Seq<char>>,
    hosts: Seq<HostView>,
    lookups: Seq<NameLookupView>,
)
    requires
        distinct(hosts),
        forall|k: int|
            0 <= k < hosts.len() ==> attributed(#[trigger] hosts[k], inputs, Seq::empty()),
    ensures
        distinct(with_lookups(hosts, lookups)),
        forall|ip: IpAddress|
            has_ip(with_lookups(hosts, lookups), ip) <==> has_ip(hosts, ip) || was_found(
                lookups,
                ip,
            ),
        forall|k: int|
            0 <= k < with_lookups(hosts, lookups).len() ==> attributed(
                #[trigger] with_lookups(hosts, lookups)[k],
                inputs,
                lookups,
            ),
    decreases lookups.len(),
{
    let out = with_lookups(hosts, lookups);
    if lookups.len() == 0 {
    } else {
        let front = lookups.drop_last();
        let last = lookups.last();
        let before = with_lookups(hosts, front);
        lemma_with_lookups(inputs, hosts, front);
        lemma_with_addresses(before, last.hostname, last.ips);
        assert forall|ip: IpAddress| was_found(lookups, ip) <==> was_found(front, ip)
            || last.ips.contains(ip) by {
            if was_found(lookups, ip) {
                let j = choose|j: int|
                    0 <= j < lookups.len() && (#[trigger] lookups[j]).ips.contains(ip);
                if j < front.len() {
                    assert(front[j] == lookups[j]);
                }
            }
            if was_found(front, ip) {
                let j = choose|j: int|
                    0 <= j < front.len() && (#[trigger] front[j]).ips.contains(ip);
                assert(lookups[j] == front[j]);
            }
            if last.ips.contains(ip) {
                assert(lookups[lookups.len() - 1] == last);
            }
        }
        assert forall|k: int| 0 <= k < out.len() implies attributed(
            #[trigger] out[k],
            inputs,
            lookups,
        ) by {
            let host = out[k];
            if k < before.len() && host == before[k] {
                assert(attributed(before[k], inputs, front));
                match host.hostname {
                    None => {},
                    Some(name) => {
                        let j = choose|j: int|
                            0 <= j < front.len() && (#[trigger] front[j]).hostname == name
                                && front[j].ips.contains(host.ip);
                        assert(lookups[j] == front[j]);
                    },
                }
            } else {
                assert(lookups[lookups.len() - 1] == last);
            }
        }
    }
}

/// What the resolver returns: no address twice; exactly the addresses that
/// are an input literal or that a lookup returned; and each host named after
/// the query that found its address, a literal's host carrying no name.
pub proof fn lemma_resolved(inputs: Seq<Seq<char>>, lookups: Seq<NameLookupView>)
    ensures
        distinct(resolved(inputs, lookups)),
        forall|ip: IpAddress|
            has_ip(resolved(inputs, lookups), ip) <==> is_literal(inputs, ip) || was_found(
                lookups,
                ip,
            ),
        forall|k: int|
            0 <= k < resolved(inputs, lookups).len() ==> attributed(
                #[trigger] resolved(inputs, lookups)[k],
                inputs,
                lookups,
            ),
{
    lemma_literal_hosts(inputs);
    let literals = literal_hosts(inputs);
    assert forall|k: int| 0 <= k < literals.len() implies attributed(
        #[trigger] literals[k],
        inputs,
        Seq::empty(),
    ) by {
        assert(has_ip(literals, literals[k].ip));
    }
    lemma_with_lookups(inputs, literals, lookups);
}

} // verus!
