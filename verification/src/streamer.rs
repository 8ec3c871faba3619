//! Finding the peer: which local address to announce, and where to connect.

use vstd::prelude::*;
use crate::announce::{new_service_info, Announcement};

verus! {

broadcast use {vstd::string::axiom_spec_iter, vstd::string::next_postcondition};

/// A path is absolute, on Unix, when it starts at the root `/`.
pub open spec fn is_absolute(path: Seq<char>) -> bool {
    path.len() > 0 && path[0] == '/'
}

/// Whether `path` names an absolute path (one that starts at the root).
pub fn has_path(path: &str) -> (b: bool)
    ensures
        b == is_absolute(path@),
{
    let mut chars = path.chars();
    match chars.next() {
        Some(c) => c == '/',
        None => false,
    }
}


/// An IPv4 address, by its four octets.
#[derive(PartialEq, Eq, Structural, Debug, Clone, Copy)]
pub struct Ipv4(pub u8, pub u8, pub u8, pub u8);

/// An address of a network interface.
#[derive(PartialEq, Eq, Structural, Debug, Clone, Copy)]
pub enum IpAddress {
    V4(Ipv4),
    /// An IPv6 address; never announced.
    V6,
}

/// Why no address could be announced.
#[derive(PartialEq, Eq, Structural, Debug, Clone, Copy)]
pub enum AddrError {
    /// No interface has a private IPv4 address (192.168.x.x, 10.x.x.x or 172.16-31.x.x).
    NoLocalInterface,
}

/// The private IPv4 ranges a local network uses: 192.168.0.0/16,
/// 10.0.0.0/8 and 172.16.0.0/12.
pub open spec fn is_private_spec(ip: Ipv4) -> bool {
    (ip.0 == 192 && ip.1 == 168) || ip.0 == 10 || (ip.0 == 172 && 16 <= ip.1 <= 31)
}

/// The private IPv4 addresses among `interfaces`.
pub open spec fn private_addresses(interfaces: Seq<IpAddress>) -> Set<Ipv4> {
    Set::new(|ip: Ipv4| is_private_spec(ip) && interfaces.contains(IpAddress::V4(ip)))
}

/// Whether `ip` lies in one of the private ranges of a local network.
pub fn is_private(ip: Ipv4) -> (b: bool)
    ensures
        b == is_private_spec(ip),
{
    (ip.0 == 192 && ip.1 == 168) || ip.0 == 10 || (ip.0 == 172 && 16 <= ip.1 && ip.1 <= 31)
}

/// The private IPv4 addresses of interfaces grow by one more interface's
/// address exactly when that address is a private IPv4 address.
proof fn lemma_private_addresses_push(prefix: Seq<IpAddress>, a: IpAddress)
    ensures
        private_addresses(prefix.push(a)) == (match a {
            IpAddress::V4(ip) => if is_private_spec(ip) {
                private_addresses(prefix).insert(ip)
            } else {
                private_addresses(prefix)
            },
            IpAddress::V6 => private_addresses(prefix),
        }),
{
    let next = prefix.push(a);
    assert forall|v: IpAddress| next.contains(v) <==> prefix.contains(v) || v == a by {
        if next.contains(v) {
            let w = choose|w: int| 0 <= w < next.len() && next[w] == v;
            if w < prefix.len() {
                assert(prefix[w] == v);
            }
        }
        if prefix.contains(v) {
            let w = choose|w: int| 0 <= w < prefix.len() && prefix[w] == v;
            assert(next[w] == v);
        }
        if v == a {
            assert(next[prefix.len() as int] == v);
        }
    }
    let expected = match a {
        IpAddress::V4(ip) => if is_private_spec(ip) {
            private_addresses(prefix).insert(ip)
        } else {
            private_addresses(prefix)
        },
        IpAddress::V6 => private_addresses(prefix),
    };
    assert(private_addresses(next) =~= expected);
}

/// The distinct private IPv4 addresses among `interfaces`, each once.
pub fn local_candidates(interfaces: &Vec<IpAddress>) -> (out: Vec<Ipv4>)
    ensures
        out@.no_duplicates(),
        out@.to_set() == private_addresses(interfaces@),
{
    let mut out: Vec<Ipv4> = Vec::new();
    let mut i: usize = 0;
    assert(out@.to_set() =~= private_addresses(interfaces@.take(0)));
    while i < interfaces.len()
        invariant
            i <= interfaces@.len(),
            out@.no_duplicates(),
            out@.to_set() == private_addresses(interfaces@.take(i as int)),
        decreases interfaces@.len() - i,
    {
        let ghost before = out@;
        assert(interfaces@.take(i + 1) =~= interfaces@.take(i as int).push(interfaces@[i as int]));
        proof {
            lemma_private_addresses_push(interfaces@.take(i as int), interfaces@[i as int]);
        }
        match interfaces[i] {
            IpAddress::V4(ip) => {
                if is_private(ip) {
                    let mut seen = false;
                    let mut j: usize = 0;
                    while j < out.len()
                        invariant
                            j <= out@.len(),
                            seen <==> exists|k: int| 0 <= k < j && out@[k] == ip,
                        decreases out@.len() - j,
                    {
                        if out[j] == ip {
                            seen = true;
                        }
                        j = j + 1;
                    }
                    if seen {
                        assert(before.to_set().contains(ip));
                        assert(before.to_set().insert(ip) =~= before.to_set());
                    } else {
                        out.push(ip);
                        proof {
                            before.lemma_push_to_set_commute(ip);
                        }
                        assert forall|a: int, b: int| 0 <= a < out@.len() && 0 <= b < out@.len() && a != b
                            implies out@[a] != out@[b] by {
                            if a < before.len() && b < before.len() {
                                assert(out@[a] == before[a] && out@[b] == before[b]);
                            }
                        }
                    }
                }
            },
            IpAddress::V6 => {},
        }
        i = i + 1;
    }
    assert(interfaces@.take(i as int) =~= interfaces@);
    out
}

/// An index drawn at random below `len`, by `rand::random_range(..len)`.
/// The crate samples uniformly from the half-open range `0..len` with the
/// thread-local generator; it panics on an empty range, which `requires`
/// rules out. Which index comes back is left open: only that it is below
/// `len` is claimed.
#[verifier::external_body]
fn random_index(len: usize) -> (i: usize)
    requires
        len > 0,
    ensures
        i < len,
{
    rand::random_range(..len)
}

/// The address to announce on the local network: one of the distinct
/// private IPv4 addresses among `interfaces`, drawn at random; an error
/// exactly when there is none.
pub fn real_addr(interfaces: &Vec<IpAddress>) -> (r: Result<Ipv4, AddrError>)
    ensures
        r is Err <==> private_addresses(interfaces@).is_empty(),
        r is Err ==> r == Err::<Ipv4, AddrError>(AddrError::NoLocalInterface),
        r matches Ok(ip) ==> private_addresses(interfaces@).contains(ip),
{
    let candidates = local_candidates(interfaces);
    if candidates.len() == 0 {
        assert(candidates@.to_set() =~= Set::<Ipv4>::empty());
        Err(AddrError::NoLocalInterface)
    } else {
        let i = random_index(candidates.len());
        let ip = candidates[i];
        assert(candidates@.to_set().contains(ip));
        Ok(ip)
    }
}

/// `n` written in decimal, as ASCII digits, without leading zeros.
pub open spec fn decimal(n: nat) -> Seq<u8>
    decreases n,
{
    if n < 10 {
        seq![(48 + n) as u8]
    } else {
        decimal(n / 10).push((48 + n % 10) as u8)
    }
}

/// The text `a.b.c.d:port` that names a TCP endpoint, in ASCII.
pub open spec fn socket_address_spec(ip: Ipv4, port: u16) -> Seq<u8> {
    decimal(ip.0 as nat) + seq![0x2eu8] + decimal(ip.1 as nat) + seq![0x2eu8] + decimal(ip.2 as nat)
        + seq![0x2eu8] + decimal(ip.3 as nat) + seq![0x3au8] + decimal(port as nat)
}

/// Appends `n` in decimal to `out`.
fn push_decimal(out: &mut Vec<u8>, n: u32)
    ensures
        final(out)@ == old(out)@ + decimal(n as nat),
    decreases n,
{
    if n >= 10 {
        push_decimal(out, n / 10);
    }
    let digit: u8 = (n % 10) as u8;
    out.push(48u8 + digit);
    assert(out@ =~= old(out)@ + decimal(n as nat));
}

/// The text `a.b.c.d:port` that the connection is opened to.
pub fn socket_address(ip: Ipv4, port: u16) -> (out: Vec<u8>)
    ensures
        out@ == socket_address_spec(ip, port),
{
    let mut out: Vec<u8> = Vec::new();
    push_decimal(&mut out, ip.0 as u32);
    out.push(0x2eu8);
    push_decimal(&mut out, ip.1 as u32);
    out.push(0x2eu8);
    push_decimal(&mut out, ip.2 as u32);
    out.push(0x2eu8);
    push_decimal(&mut out, ip.3 as u32);
    out.push(0x3au8);
    push_decimal(&mut out, port as u32);
    assert(out@ =~= socket_address_spec(ip, port));
    out
}

/// Where to connect once a peer's service is resolved: its first IPv4
/// address with the service's port, or nothing when it has no IPv4 address.
pub fn connect_target(addresses: &Vec<Ipv4>, port: u16) -> (target: Option<Vec<u8>>)
    ensures
        addresses@.len() == 0 ==> target is None,
        addresses@.len() > 0 ==> (target matches Some(t) && t@ == socket_address_spec(addresses@[0], port)),
{
    if addresses.len() == 0 {
        None
    } else {
        Some(socket_address(addresses[0], port))
    }
}


/// The instance name the receiver announces itself under.
pub const INSTANCE_NAME: &'static str = "my-localTransfer-instance";

/// The host name the receiver announces itself under.
pub const HOST_NAME: &'static str = "my-localTransfer-host.local.";

/// The service record a receiver announces, by its plain values.
pub struct ServiceRecord {
    /// The service type, such as `_localTransfer._tcp.local.`.
    pub service_type: String,
    /// The instance name.
    pub instance: String,
    /// The host name.
    pub host: String,
    /// The address peers connect to.
    pub ip: Ipv4,
    /// The port peers connect to.
    pub port: u16,
}

/// A record's values: service type, instance name, host name, address, port.
pub open spec fn record_values(record: &ServiceRecord) -> (Seq<char>, Seq<char>, Seq<char>, Ipv4, u16) {
    (record.service_type@, record.instance@, record.host@, record.ip, record.port)
}

/// The record the receiver announces: the service type, the fixed instance
/// and host names, the chosen local address and the listening port.
pub fn service_record(service_type: &str, local_ip: Ipv4, port: u16) -> (r: ServiceRecord)
    ensures
        r.service_type@ == service_type@,
        r.instance@ == INSTANCE_NAME@,
        r.host@ == HOST_NAME@,
        r.ip == local_ip,
        r.port == port,
{
    ServiceRecord {
        service_type: service_type.to_owned(),
        instance: INSTANCE_NAME.to_owned(),
        host: HOST_NAME.to_owned(),
        ip: local_ip,
        port,
    }
}

/// Why the receiver could not be announced.
#[derive(PartialEq, Eq, Structural, Debug, Clone, Copy)]
pub enum AnnounceError {
    /// The discovery library refused the service record.
    InvalidService,
}

/// The discovery library's form of `record`, ready to be registered: it is
/// built from the record's service type, instance name, host name, address
/// and port, and the library accepts every such record.
pub fn service_info(record: ServiceRecord) -> (r: Result<Announcement, AnnounceError>)
    ensures
        r is Ok,
        r matches Ok(a) ==> a.source() == record_values(&record),
{
    match new_service_info(record) {
        Ok(a) => Ok(a),
        Err(_) => Err(AnnounceError::InvalidService),
    }
}

/// What the discovery of receivers reports, by its plain values.
pub enum BrowseEvent {
    /// A receiver was resolved, with its IPv4 addresses and its port.
    Resolved { addresses: Vec<Ipv4>, port: u16 },
    /// A receiver went away.
    Removed,
    /// Anything else (a search started or stopped, a name found).
    Other,
}

/// What the sender does with one discovery event.
pub enum BrowseAction {
    /// Connect to this `a.b.c.d:port` and send.
    Connect(Vec<u8>),
    /// The resolved receiver has no IPv4 address: the search fails.
    NoAddress,
    /// Report that a receiver went away, and go on looking.
    Report,
    /// Go on looking.
    Ignore,
}

/// Decides what a discovery event leads to: a resolved receiver is
/// connected to at its first IPv4 address (or, without one, ends the search
/// with an error); a removed one is reported; anything else is passed over.
pub fn browse_action(event: &BrowseEvent) -> (action: BrowseAction)
    ensures
        match event {
            BrowseEvent::Resolved { addresses, port } => if addresses@.len() == 0 {
                action is NoAddress
            } else {
                action matches BrowseAction::Connect(t) && t@ == socket_address_spec(addresses@[0], *port)
            },
            BrowseEvent::Removed => action is Report,
            BrowseEvent::Other => action is Ignore,
        },
{
    match event {
        BrowseEvent::Resolved { addresses, port } => match connect_target(addresses, *port) {
            Some(t) => BrowseAction::Connect(t),
            None => BrowseAction::NoAddress,
        },
        BrowseEvent::Removed => BrowseAction::Report,
        BrowseEvent::Other => BrowseAction::Ignore,
    }
}


/// An IPv4 address as the 32-bit number its octets spell, first octet highest.
pub open spec fn ipv4_number(ip: Ipv4) -> nat {
    ip.0 as nat * 0x100_0000 + ip.1 as nat * 0x1_0000 + ip.2 as nat * 0x100 + ip.3 as nat
}

/// The private ranges, as network prefixes: an address is private exactly
/// when its top 16 bits are those of 192.168.0.0/16, its top 8 bits those
/// of 10.0.0.0/8, or its top 12 bits those of 172.16.0.0/12. So every
/// address 192.168.c.d, 10.b.c.d and 172.16-31.c.d is private, whatever its
/// other octets.
pub proof fn law_private_ranges(ip: Ipv4)
    ensures
        is_private_spec(ip) <==> (ipv4_number(ip) / 0x1_0000 == 0xc0a8 || ipv4_number(ip) / 0x100_0000 == 0x0a
            || ipv4_number(ip) / 0x10_0000 == 0xac1),
        forall|c: u8, d: u8| #[trigger] is_private_spec(Ipv4(192, 168, c, d)),
        forall|b: u8, c: u8, d: u8| #[trigger] is_private_spec(Ipv4(10, b, c, d)),
{
    let n = ipv4_number(ip);
    let low16 = ip.2 as nat * 0x100 + ip.3 as nat;
    let top16 = ip.0 as nat * 0x100 + ip.1 as nat;
    assert(n == top16 * 0x1_0000 + low16);
    assert(n / 0x1_0000 == top16);
    let low24 = ip.1 as nat * 0x1_0000 + low16;
    assert(n == ip.0 as nat * 0x100_0000 + low24);
    assert(n / 0x100_0000 == ip.0);
    let low20 = (ip.1 as nat % 16) * 0x1_0000 + low16;
    let top12 = ip.0 as nat * 16 + ip.1 as nat / 16;
    assert(n == top12 * 0x10_0000 + low20);
    assert(n / 0x10_0000 == top12);
}

/// Text made only of ASCII decimal digits, at least one.
pub open spec fn is_decimal_text(t: Seq<u8>) -> bool {
    t.len() > 0 && forall|i: int| 0 <= i < t.len() ==> 0x30 <= #[trigger] t[i] <= 0x39
}

/// The number that ASCII decimal digits spell.
pub open spec fn decimal_text_value(t: Seq<u8>) -> nat
    decreases t.len(),
{
    if t.len() == 0 {
        0
    } else {
        decimal_text_value(t.drop_last()) * 10 + (t.last() - 0x30) as nat
    }
}

/// A number written in decimal is decimal text that reads back as the number.
proof fn lemma_decimal_reads_back(n: nat)
    ensures
        is_decimal_text(decimal(n)),
        decimal_text_value(decimal(n)) == n,
    decreases n,
{
    if n >= 10 {
        lemma_decimal_reads_back(n / 10);
        let t = decimal(n);
        assert(t.drop_last() =~= decimal(n / 10));
        assert(t.last() == (48 + n % 10) as u8);
        assert(t.last() as int == 48 + n % 10);
        assert(decimal_text_value(t) == decimal_text_value(t.drop_last()) * 10 + (t.last() - 0x30) as nat);
        assert forall|i: int| 0 <= i < t.len() implies 0x30 <= #[trigger] t[i] <= 0x39 by {
            if i < t.len() - 1 {
                assert(t[i] == decimal(n / 10)[i]);
            }
        }
    } else {
        let t = decimal(n);
        assert(t.drop_last() =~= Seq::<u8>::empty());
        assert(t.last() as int == 48 + n);
        assert(decimal_text_value(t) == decimal_text_value(t.drop_last()) * 10 + (t.last() - 0x30) as nat);
    }
}

/// The address text splits at its `.` and `:` separators into five
/// decimal fields that read back as the four octets, in order, and the port.
pub proof fn law_socket_address_fields(ip: Ipv4, port: u16)
    ensures
        exists|f0: Seq<u8>, f1: Seq<u8>, f2: Seq<u8>, f3: Seq<u8>, f4: Seq<u8>|
            #![trigger decimal_text_value(f0), decimal_text_value(f1), decimal_text_value(f2), decimal_text_value(f3), decimal_text_value(f4)]
            is_decimal_text(f0) && is_decimal_text(f1) && is_decimal_text(f2) && is_decimal_text(f3)
                && is_decimal_text(f4) && decimal_text_value(f0) == ip.0 && decimal_text_value(f1) == ip.1
                && decimal_text_value(f2) == ip.2 && decimal_text_value(f3) == ip.3
                && decimal_text_value(f4) == port && socket_address_spec(ip, port) == f0 + seq![0x2eu8] + f1
                + seq![0x2eu8] + f2 + seq![0x2eu8] + f3 + seq![0x3au8] + f4,
{
    lemma_decimal_reads_back(ip.0 as nat);
    lemma_decimal_reads_back(ip.1 as nat);
    lemma_decimal_reads_back(ip.2 as nat);
    lemma_decimal_reads_back(ip.3 as nat);
    lemma_decimal_reads_back(port as nat);
    let f0 = decimal(ip.0 as nat);
    let f1 = decimal(ip.1 as nat);
    let f2 = decimal(ip.2 as nat);
    let f3 = decimal(ip.3 as nat);
    let f4 = decimal(port as nat);
    assert(decimal_text_value(f0) == ip.0 && decimal_text_value(f1) == ip.1 && decimal_text_value(f2) == ip.2
        && decimal_text_value(f3) == ip.3 && decimal_text_value(f4) == port);
}

} // verus!
