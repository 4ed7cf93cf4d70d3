//! Service advertisement.
//!
//! A Thing announces itself on the local network over DNS-SD / mDNS: one
//! service record under the Web-of-Things service type (`_wot._tcp.local.`,
//! or its directory subtype), carrying the document path and the kind of
//! Thing in its TXT properties.  The record's fields — service domain, TXT
//! properties, normalized hostname, formatted address list — are computed
//! here and handed to the mDNS responder.

use vstd::prelude::*;

use crate::template::chars_to_string;

verus! {

/// Type of Thing being published.
#[derive(Debug, Clone, Copy, PartialEq, Eq, Structural)]
pub enum ThingType {
    /// Normal Thing.
    Thing,
    /// A Thing hosting a directory of Things.
    Directory,
}

impl ThingType {
    /// The DNS-SD service type: a Directory uses a distinguishing subtype so
    /// that discovery clients can filter for directory servers.
    pub fn to_service_type(self) -> (r: &'static str)
        ensures
            self is Thing ==> r@ == "_wot"@,
            self is Directory ==> r@ == "_directory._sub._wot"@,
    {
        match self {
            ThingType::Thing => "_wot",
            ThingType::Directory => "_directory._sub._wot",
        }
    }

    /// The human-readable type string placed in the TXT record.
    pub fn to_dns_type(self) -> (r: &'static str)
        ensures
            self is Thing ==> r@ == "Thing"@,
            self is Directory ==> r@ == "Directory"@,
    {
        match self {
            ThingType::Thing => "Thing",
            ThingType::Directory => "Directory",
        }
    }
}

impl Default for ThingType {
    /// A plain Thing, unless a directory is asked for.
    fn default() -> (r: Self)
        ensures
            r is Thing,
    {
        ThingType::Thing
    }
}

/// An IPv4 address, as its four octets.
#[derive(Debug, Clone, Copy, PartialEq, Eq, Structural)]
pub struct Ipv4 {
    /// First octet.
    pub a: u8,
    /// Second octet.
    pub b: u8,
    /// Third octet.
    pub c: u8,
    /// Fourth octet.
    pub d: u8,
}

/// One address of a network interface, as the library reads it.
pub struct IfaceAddr {
    /// The IPv4 address, for an IPv4 interface.
    pub v4: Option<Ipv4>,
    /// Whether the interface is a loopback interface.
    pub loopback: bool,
}

/// Error type for the module.
#[derive(Debug)]
pub enum AdvertisementError {
    /// mDNS internal error.
    Mdns(mdns_sd::Error),
    /// Network-specific error.
    Io(std::io::Error),
}

#[verifier::external_type_specification]
#[verifier::external_body]
pub struct ExMdnsError(mdns_sd::Error);

#[verifier::external_type_specification]
#[verifier::external_body]
pub struct ExIoError(std::io::Error);

#[verifier::external_type_specification]
#[verifier::external_body]
pub struct ExServiceDaemon(mdns_sd::ServiceDaemon);

#[verifier::external_type_specification]
#[verifier::external_body]
pub struct ExServiceInfo(mdns_sd::ServiceInfo);

/// Relies on `mdns_sd::ServiceDaemon::new`: starts the background multicast
/// responder, or reports why it could not.
#[verifier::external_body]
fn daemon_new() -> (r: Result<mdns_sd::ServiceDaemon, mdns_sd::Error>)
{
    mdns_sd::ServiceDaemon::new()
}

/// Relies on `hostname::get`: the system hostname, which depends on the
/// machine, so nothing is promised about its content.
#[verifier::external_body]
fn system_hostname() -> (r: Result<String, std::io::Error>)
{
    hostname::get().map(|h| h.to_string_lossy().to_string())
}

/// Relies on `if_addrs::get_if_addrs`: the machine's interface addresses at
/// this moment, read into plain values; nothing is promised about them.
#[verifier::external_body]
fn interface_addrs() -> (r: Result<Vec<IfaceAddr>, std::io::Error>)
{
    if_addrs::get_if_addrs().map(|ifaces| {
        ifaces
            .iter()
            .map(|iface| IfaceAddr {
                v4: match &iface.addr {
                    if_addrs::IfAddr::V4(v4) => {
                        let o = v4.ip.octets();
                        Some(Ipv4 { a: o[0], b: o[1], c: o[2], d: o[3] })
                    },
                    if_addrs::IfAddr::V6(_) => None,
                },
                loopback: iface.is_loopback(),
            })
            .collect()
    })
}

/// Relies on `mdns_sd::ServiceInfo::new`: builds the service record from the
/// domain, instance name, hostname, comma-separated address list, port and
/// TXT properties; the crate validates them and may refuse.
#[verifier::external_body]
fn service_info_new(
    domain: &str,
    name: &str,
    host: &str,
    ips: &str,
    port: u16,
    props: Vec<(String, String)>,
) -> (r: Result<mdns_sd::ServiceInfo, mdns_sd::Error>)
{
    let map: std::collections::HashMap<String, String> = props.into_iter().collect();
    mdns_sd::ServiceInfo::new(domain, name, host, ips, port, map)
}

/// Relies on `mdns_sd::ServiceDaemon::register`: hands the record to the
/// responder, which announces it from then on.
#[verifier::external_body]
fn daemon_register(
    daemon: &mdns_sd::ServiceDaemon,
    info: mdns_sd::ServiceInfo,
) -> (r: Result<(), mdns_sd::Error>)
{
    daemon.register(info)
}

/// The decimal spelling of one octet, without leading zeros.
pub open spec fn spec_digit(d: int) -> char {
    if d == 0 {
        '0'
    } else if d == 1 {
        '1'
    } else if d == 2 {
        '2'
    } else if d == 3 {
        '3'
    } else if d == 4 {
        '4'
    } else if d == 5 {
        '5'
    } else if d == 6 {
        '6'
    } else if d == 7 {
        '7'
    } else if d == 8 {
        '8'
    } else {
        '9'
    }
}

/// The decimal spelling of `n`, for `0 <= n < 256`.
pub open spec fn spec_dec(n: int) -> Seq<char> {
    if n < 10 {
        seq![spec_digit(n)]
    } else if n < 100 {
        seq![spec_digit(n / 10), spec_digit(n % 10)]
    } else {
        seq![spec_digit(n / 100), spec_digit((n / 10) % 10), spec_digit(n % 10)]
    }
}

/// An address in dotted decimal form.
pub open spec fn spec_ipv4(ip: Ipv4) -> Seq<char> {
    spec_dec(ip.a as int) + seq!['.'] + spec_dec(ip.b as int) + seq!['.'] + spec_dec(ip.c as int)
        + seq!['.'] + spec_dec(ip.d as int)
}

/// A comma-separated list of addresses in dotted decimal form.
pub open spec fn spec_ip_csv(ips: Seq<Ipv4>) -> Seq<char>
    decreases ips.len(),
{
    if ips.len() == 0 {
        Seq::empty()
    } else if ips.len() == 1 {
        spec_ipv4(ips[0])
    } else {
        spec_ip_csv(ips.drop_last()) + seq![','] + spec_ipv4(ips.last())
    }
}

/// The IPv4 addresses of the non-loopback interfaces, in order.
pub open spec fn spec_external_v4(ifaces: Seq<IfaceAddr>) -> Seq<Ipv4>
    decreases ifaces.len(),
{
    if ifaces.len() == 0 {
        Seq::empty()
    } else {
        spec_external_v4(ifaces.drop_last()) + (match ifaces.last().v4 {
            Some(ip) => if !ifaces.last().loopback {
                seq![ip]
            } else {
                Seq::empty()
            },
            None => Seq::empty(),
        })
    }
}

/// Whether `s` ends in `suffix`.
pub open spec fn has_suffix(s: Seq<char>, suffix: Seq<char>) -> bool {
    s.len() >= suffix.len() && s.subrange(s.len() - suffix.len(), s.len() as int) == suffix
}

/// The hostname as the mDNS responder accepts it: ending in `.local.`.
pub open spec fn spec_local_host(s: Seq<char>) -> Seq<char> {
    if has_suffix(s, ".local."@) {
        s
    } else if has_suffix(s, ".local"@) {
        s + "."@
    } else {
        s + ".local."@
    }
}

/// Whether `s` ends in `suffix`.
fn ends_with(s: &str, suffix: &str) -> (r: bool)
    ensures
        r == has_suffix(s@, suffix@),
{
    let n = s.unicode_len();
    let m = suffix.unicode_len();
    if n < m {
        return false;
    }
    let mut i: usize = 0;
    while i < m
        invariant
            n == s@.len(),
            m == suffix@.len(),
            m <= n,
            i <= m,
            forall|j: int| 0 <= j < i ==> s@[n - m + j] == suffix@[j],
        decreases m - i,
    {
        if s.get_char(n - m + i) != suffix.get_char(i) {
            proof {
                assert(s@.subrange(n - m, n as int)[i as int] != suffix@[i as int]);
            }
            return false;
        }
        i = i + 1;
    }
    proof {
        assert(s@.subrange(n - m, n as int) =~= suffix@);
    }
    true
}

/// Normalize a hostname into the form the mDNS responder accepts: append
/// the local-domain marker, and its trailing dot, where they are missing.
pub fn normalize_local_host(s: String) -> (r: String)
    ensures
        r@ == spec_local_host(s@),
{
    if ends_with(s.as_str(), ".local.") {
        s
    } else if ends_with(s.as_str(), ".local") {
        let mut r = s;
        r.append(".");
        r
    } else {
        let mut r = s;
        r.append(".local.");
        r
    }
}

/// Append the decimal spelling of `n` to `out`.
fn push_dec(out: &mut Vec<char>, n: u8)
    ensures
        final(out)@ == old(out)@ + spec_dec(n as int),
{
    let d0 = n / 100;
    let d1 = (n / 10) % 10;
    let d2 = n % 10;
    if n >= 100 {
        out.push(digit_char(d0));
    }
    if n >= 10 {
        out.push(digit_char(d1));
    }
    out.push(digit_char(d2));
    proof {
        if n >= 100 {
            assert(final(out)@ =~= old(out)@ + spec_dec(n as int));
        } else if n >= 10 {
            assert(n / 10 == (n / 10) % 10) by {
                assert(n / 10 < 10);
            }
            assert(final(out)@ =~= old(out)@ + spec_dec(n as int));
        } else {
            assert(n % 10 == n as int);
            assert(final(out)@ =~= old(out)@ + spec_dec(n as int));
        }
    }
}

/// The character of one decimal digit.
fn digit_char(d: u8) -> (c: char)
    requires
        d < 10,
    ensures
        c == spec_digit(d as int),
{
    match d {
        0 => '0',
        1 => '1',
        2 => '2',
        3 => '3',
        4 => '4',
        5 => '5',
        6 => '6',
        7 => '7',
        8 => '8',
        _ => '9',
    }
}

/// The comma-separated dotted-decimal spelling of an address list.
pub fn format_ip_csv(ips: &Vec<Ipv4>) -> (r: String)
    ensures
        r@ == spec_ip_csv(ips@),
{
    let n = ips.len();
    let mut out: Vec<char> = Vec::new();
    let mut i: usize = 0;
    while i < n
        invariant
            i <= n == ips@.len(),
            out@ == spec_ip_csv(ips@.take(i as int)),
        decreases n - i,
    {
        if i > 0 {
            out.push(',');
        }
        let ip = ips[i];
        push_dec(&mut out, ip.a);
        out.push('.');
        push_dec(&mut out, ip.b);
        out.push('.');
        push_dec(&mut out, ip.c);
        out.push('.');
        push_dec(&mut out, ip.d);
        proof {
            let t = ips@.take(i + 1);
            assert(t.drop_last() =~= ips@.take(i as int));
            assert(t.last() == ips@[i as int]);
            if i == 0 {
                assert(out@ =~= spec_ipv4(ips@[0]));
                assert(spec_ip_csv(t) == spec_ipv4(t[0]));
            } else {
                assert(out@ =~= spec_ip_csv(ips@.take(i as int)) + seq![','] + spec_ipv4(
                    ips@[i as int],
                ));
            }
        }
        i = i + 1;
    }
    proof {
        assert(ips@.take(n as int) =~= ips@);
    }
    chars_to_string(out)
}

/// The IPv4 addresses of the non-loopback interfaces, in order.
fn external_v4(ifaces: &Vec<IfaceAddr>) -> (r: Vec<Ipv4>)
    ensures
        r@ == spec_external_v4(ifaces@),
{
    let n = ifaces.len();
    let mut out: Vec<Ipv4> = Vec::new();
    let mut i: usize = 0;
    while i < n
        invariant
            i <= n == ifaces@.len(),
            out@ == spec_external_v4(ifaces@.take(i as int)),
        decreases n - i,
    {
        match ifaces[i].v4 {
            Some(ip) => {
                if !ifaces[i].loopback {
                    out.push(ip);
                }
            },
            None => {},
        }
        proof {
            let t = ifaces@.take(i + 1);
            assert(t.drop_last() =~= ifaces@.take(i as int));
            assert(t.last() == ifaces@[i as int]);
            assert(out@ =~= spec_external_v4(ifaces@.take(i + 1)));
        }
        i = i + 1;
    }
    proof {
        assert(ifaces@.take(n as int) =~= ifaces@);
    }
    out
}

/// A copy of an address list.
fn dup_ips(ips: &Vec<Ipv4>) -> (r: Vec<Ipv4>)
    ensures
        r@ == ips@,
{
    let n = ips.len();
    let mut out: Vec<Ipv4> = Vec::new();
    let mut i: usize = 0;
    while i < n
        invariant
            i <= n == ips@.len(),
            out@ == ips@.take(i as int),
        decreases n - i,
    {
        out.push(ips[i]);
        proof {
            assert(out@ =~= ips@.take(i + 1));
        }
        i = i + 1;
    }
    proof {
        assert(out@ =~= ips@);
    }
    out
}

/// Where the Thing Description is found when no path is set.
pub const WELL_KNOWN: &'static str = "/.well-known/wot";

/// Service advertiser.
///
/// Holds the running mDNS responder, a snapshot of the host's non-loopback
/// IPv4 addresses taken once at construction, and the normalized local
/// hostname.
pub struct Advertiser {
    /// The background mDNS responder.
    pub mdns: mdns_sd::ServiceDaemon,
    /// Default set of addresses for the system.
    pub ips: Vec<Ipv4>,
    /// Default hostname, ending in `.local.`.
    pub hostname: String,
}

impl Advertiser {
    /// Create a new service advertiser: start the responder, snapshot the
    /// host's addresses, and normalize the hostname.
    pub fn new() -> (r: Result<Advertiser, AdvertisementError>)
        ensures
            r matches Ok(a) ==> has_suffix(a.hostname@, ".local."@),
    {
        let mdns = match daemon_new() {
            Ok(d) => d,
            Err(e) => {
                return Err(AdvertisementError::Mdns(e));
            },
        };
        let host = match system_hostname() {
            Ok(h) => h,
            Err(e) => {
                return Err(AdvertisementError::Io(e));
            },
        };
        let hostname = normalize_local_host(host);
        proof {
            lemma_local_host_suffix(host@);
        }
        let ifaces = match interface_addrs() {
            Ok(v) => v,
            Err(e) => {
                return Err(AdvertisementError::Io(e));
            },
        };
        let ips = external_v4(&ifaces);
        Ok(Advertiser { mdns, ips, hostname })
    }

    /// Begin describing a service record for `name`, with the defaults: a
    /// plain Thing, port 8080, the well-known document path, and the
    /// advertiser's hostname and address snapshot.
    pub fn add_service<'a>(&'a self, name: &str) -> (b: ServiceBuilder<'a>)
        ensures
            b.ips@ == self.ips@,
            b.hostname@ == self.hostname@,
            b.ty is Thing,
            b.port == 8080,
            b.path@ == WELL_KNOWN@,
            b.name@ == name@,
    {
        ServiceBuilder {
            mdns: &self.mdns,
            ips: dup_ips(&self.ips),
            hostname: self.hostname.clone(),
            ty: ThingType::Thing,
            port: 8080,
            path: WELL_KNOWN.to_owned(),
            name: name.to_owned(),
        }
    }
}

/// The normalized hostname does end in `.local.`.
proof fn lemma_local_host_suffix(s: Seq<char>)
    ensures
        has_suffix(spec_local_host(s), ".local."@),
{
    reveal_strlit(".local.");
    reveal_strlit(".local");
    reveal_strlit(".");
    if has_suffix(s, ".local."@) {
    } else if has_suffix(s, ".local"@) {
        let r = s + "."@;
        assert(r.len() == s.len() + 1);
        assert forall|k: int| 0 <= k < 7 implies r.subrange(r.len() - 7, r.len() as int)[k]
            == ".local."@[k] by {
            if k < 6 {
                assert(r[r.len() - 7 + k] == s[s.len() - 6 + k]);
                assert(s.subrange(s.len() - 6, s.len() as int)[k] == s[s.len() - 6 + k]);
            } else {
                assert(r[r.len() - 1] == "."@[0]);
            }
        }
        assert(r.subrange(r.len() - 7, r.len() as int) =~= ".local."@);
    } else {
        let r = s + ".local."@;
        assert(r.subrange(r.len() - 7, r.len() as int) =~= ".local."@);
    }
}

/// The plain values of the record that [`ServiceBuilder::build`] registers.
pub struct ServiceRecord {
    /// The full service domain, service type and protocol suffix together.
    pub domain: String,
    /// The instance name.
    pub name: String,
    /// The target hostname.
    pub hostname: String,
    /// The advertised port.
    pub port: u16,
    /// The address list, comma-separated dotted decimal.
    pub ip_csv: String,
    /// The TXT properties: the document path and the human-readable type.
    pub props: Vec<(String, String)>,
}

/// The full service domain of a thing type.
pub open spec fn spec_domain(ty: ThingType) -> Seq<char> {
    (match ty {
        ThingType::Thing => "_wot"@,
        ThingType::Directory => "_directory._sub._wot"@,
    }) + "._tcp.local."@
}

/// The human-readable type string of a thing type.
pub open spec fn spec_dns_type(ty: ThingType) -> Seq<char> {
    match ty {
        ThingType::Thing => "Thing"@,
        ThingType::Directory => "Directory"@,
    }
}

/// Builder to create a service.
///
/// Call [`ServiceBuilder::build`] to publish it.
pub struct ServiceBuilder<'a> {
    /// The responder the record is registered with.
    pub mdns: &'a mdns_sd::ServiceDaemon,
    /// The advertised addresses.
    pub ips: Vec<Ipv4>,
    /// The target hostname.
    pub hostname: String,
    /// The kind of Thing advertised.
    pub ty: ThingType,
    /// The advertised port.
    pub port: u16,
    /// Where the Thing Description is served.
    pub path: String,
    /// The instance name.
    pub name: String,
}

impl<'a> ServiceBuilder<'a> {
    /// Set the type between Thing and Directory.
    ///
    /// A Directory has a specific `_directory` DNS-SD subtype.
    pub fn thing_type(self, ty: ThingType) -> (r: Self)
        ensures
            r == (ServiceBuilder { ty, ..self }),
    {
        ServiceBuilder { ty, ..self }
    }

    /// The listening port for the advertised Thing.
    pub fn port(self, port: u16) -> (r: Self)
        ensures
            r == (ServiceBuilder { port, ..self }),
    {
        ServiceBuilder { port, ..self }
    }

    /// Where to find the Thing Description.
    ///
    /// By default `/.well-known/wot` is used.
    pub fn path(self, path: &str) -> (r: Self)
        ensures
            r.path@ == path@,
            r.mdns == self.mdns && r.ips == self.ips && r.hostname == self.hostname && r.ty
                == self.ty && r.port == self.port && r.name == self.name,
    {
        ServiceBuilder { path: path.to_owned(), ..self }
    }

    /// The hostname used by the mDNS daemon.
    pub fn hostname(self, host: &str) -> (r: Self)
        ensures
            r.hostname@ == host@,
            r.mdns == self.mdns && r.ips == self.ips && r.path == self.path && r.ty == self.ty
                && r.port == self.port && r.name == self.name,
    {
        ServiceBuilder { hostname: host.to_owned(), ..self }
    }

    /// Listening addresses.
    ///
    /// By default all the non-loopback IPv4 interfaces are used.
    pub fn ips(self, ips: Vec<Ipv4>) -> (r: Self)
        ensures
            r == (ServiceBuilder { ips, ..self }),
    {
        ServiceBuilder { ips, ..self }
    }

    /// The record this builder would register, as plain values: the domain
    /// for the thing type, the TXT properties naming the document path and
    /// the type, and the formatted address list.
    pub fn service_record(&self) -> (r: ServiceRecord)
        ensures
            r.domain@ == spec_domain(self.ty),
            r.name@ == self.name@,
            r.hostname@ == self.hostname@,
            r.port == self.port,
            r.ip_csv@ == spec_ip_csv(self.ips@),
            r.props@.len() == 2,
            r.props@[0].0@ == "td"@ && r.props@[0].1@ == self.path@,
            r.props@[1].0@ == "type"@ && r.props@[1].1@ == spec_dns_type(self.ty),
    {
        let mut domain = self.ty.to_service_type().to_owned();
        domain.append("._tcp.local.");
        let mut props: Vec<(String, String)> = Vec::new();
        props.push(("td".to_owned(), self.path.clone()));
        props.push(("type".to_owned(), self.ty.to_dns_type().to_owned()));
        ServiceRecord {
            domain,
            name: self.name.clone(),
            hostname: self.hostname.clone(),
            port: self.port,
            ip_csv: format_ip_csv(&self.ips),
            props,
        }
    }

    /// Consume the builder and register the service with the responder.
    ///
    /// Registers exactly [`ServiceBuilder::service_record`]; the responder
    /// may refuse a record it cannot announce, and only the responder can:
    /// every failure is its.
    pub fn build(self) -> (r: Result<(), AdvertisementError>)
        ensures
            r matches Err(e) ==> e is Mdns,
    {
        let record = self.service_record();
        let info = match service_info_new(
            record.domain.as_str(),
            record.name.as_str(),
            record.hostname.as_str(),
            record.ip_csv.as_str(),
            record.port,
            record.props,
        ) {
            Ok(i) => i,
            Err(e) => {
                return Err(AdvertisementError::Mdns(e));
            },
        };
        match daemon_register(self.mdns, info) {
            Ok(()) => Ok(()),
            Err(e) => Err(AdvertisementError::Mdns(e)),
        }
    }
}

} // verus!
