//! The device's name and identity, and the networks it is reached through.

use vstd::prelude::*;
use vstd::string::*;

use crate::identity;
use crate::identity::format_uuid;
use crate::net;
use crate::net::{IpAddr, Ipv4Addr, parse_ipv4};
use crate::platform;
use crate::platform::is_virtual_iface;
use crate::text;
use crate::text::{CharSet, decode, find, has, lines, lower, split, split_at, strip, trim};

verus! {

/// What the renderer is called and where it listens.
#[derive(Debug, Clone)]
pub struct Config {
    pub uuid: u128,
    pub friendly_name: String,
    /// 0 for a port of the system's choice.
    pub http_port: u16,
    pub control_port: u16,
}

impl Config {
    /// The unique device name: the UUID after `uuid:`.
    pub open spec fn device_name(self) -> Seq<char> {
        "uuid:"@ + identity::uuid_text(self.uuid)
    }

    /// The configuration of the device with the given identity on the given machine.
    pub fn load(uuid: u128, hostname: &str) -> (r: Config)
        ensures
            r.uuid == uuid,
            r.friendly_name@ == "playpnp ("@ + hostname@ + ")"@,
            r.http_port == 0,
            r.control_port == 52411,
    {
        let mut friendly_name = "playpnp (".to_owned();
        friendly_name.append(hostname);
        friendly_name.append(")");
        Config { uuid, friendly_name, http_port: 0, control_port: 52411 }
    }

    /// The UUID after `uuid:`.
    pub fn uuid_string(&self) -> (r: String)
        ensures
            r@ == self.device_name(),
    {
        let mut s = "uuid:".to_owned();
        s.append(format_uuid(self.uuid).as_str());
        s
    }

    /// The unique device name.
    pub fn udn(&self) -> (r: String)
        ensures
            r@ == self.device_name(),
    {
        self.uuid_string()
    }
}

// ---------------------------------------------------------------------------------------------
// Networks
// ---------------------------------------------------------------------------------------------
/// A local address that control points can reach.
#[derive(Debug, Clone, PartialEq, Eq)]
pub struct NetworkEndpoint {
    pub name: String,
    pub ip: Ipv4Addr,
    pub netmask: Option<Ipv4Addr>,
    pub broadcast: Option<Ipv4Addr>,
    pub gateway: Option<Ipv4Addr>,
    pub is_tailscale: bool,
    pub is_primary: bool,
}

/// What a `NetworkEndpoint` holds.
pub struct EndpointModel {
    pub name: Seq<char>,
    pub ip: Ipv4Addr,
    pub netmask: Option<Ipv4Addr>,
    pub broadcast: Option<Ipv4Addr>,
    pub gateway: Option<Ipv4Addr>,
    pub is_tailscale: bool,
    pub is_primary: bool,
}

impl View for NetworkEndpoint {
    type V = EndpointModel;

    open spec fn view(&self) -> EndpointModel {
        EndpointModel {
            name: self.name@,
            ip: self.ip,
            netmask: self.netmask,
            broadcast: self.broadcast,
            gateway: self.gateway,
            is_tailscale: self.is_tailscale,
            is_primary: self.is_primary,
        }
    }
}

impl NetworkEndpoint {
    /// An endpoint that holds the same.
    pub fn copied(&self) -> (r: NetworkEndpoint)
        ensures
            r@ == self@,
    {
        NetworkEndpoint {
            name: self.name.clone(),
            ip: self.ip,
            netmask: self.netmask,
            broadcast: self.broadcast,
            gateway: self.gateway,
            is_tailscale: self.is_tailscale,
            is_primary: self.is_primary,
        }
    }
}

/// What endpoints hold.
pub open spec fn models(v: Seq<NetworkEndpoint>) -> Seq<EndpointModel> {
    v.map_values(|e: NetworkEndpoint| e@)
}

/// The IPv4 address of an interface.
#[derive(Debug, Clone, Copy, PartialEq, Eq, Structural)]
pub struct InterfaceAddr {
    pub ip: Ipv4Addr,
    pub netmask: Ipv4Addr,
    pub broadcast: Option<Ipv4Addr>,
}

/// A network interface, with its IPv4 address if it has one.
#[derive(Debug)]
pub struct Interface {
    pub name: String,
    pub is_loopback: bool,
    pub address: Option<InterfaceAddr>,
}

/// What the system tells of its networks. A probe gives the local address of a socket that is
/// connected to the outside.
#[derive(Debug)]
pub struct NetworkFacts {
    pub default_gateway: Option<Ipv4Addr>,
    pub primary_probe: Option<IpAddr>,
    pub tailscale_probe: Option<IpAddr>,
    pub interfaces: Vec<Interface>,
}

/// In the host-only network of VirtualBox, 192.168.56.0/24.
pub open spec fn in_virtualbox(ip: Ipv4Addr) -> bool {
    ip.a == 192 && ip.b == 168 && ip.c == 56
}

/// In 169.254.0.0/16.
pub open spec fn in_link_local(ip: Ipv4Addr) -> bool {
    ip.a == 169 && ip.b == 254
}

/// In 100.64.0.0/10, where Tailscale gives addresses.
pub open spec fn in_tailscale(ip: Ipv4Addr) -> bool {
    ip.a == 100 && 64 <= ip.b <= 127
}

/// Is the address in the host-only network of VirtualBox?
pub fn is_virtualbox_ip(ip: &Ipv4Addr) -> (r: bool)
    ensures
        r == in_virtualbox(*ip),
{
    ip.a == 192 && ip.b == 168 && ip.c == 56
}

/// Is the address link-local?
pub fn is_link_local(ip: &Ipv4Addr) -> (r: bool)
    ensures
        r == in_link_local(*ip),
{
    ip.a == 169 && ip.b == 254
}

/// Is the address one of Tailscale?
pub fn is_tailscale_ip(ip: &Ipv4Addr) -> (r: bool)
    ensures
        r == in_tailscale(*ip),
{
    ip.a == 100 && 64 <= ip.b && ip.b <= 127
}

/// The address that a probe found, if it is an IPv4 address that leads outside.
pub open spec fn probed_ip(probe: Option<IpAddr>) -> Option<Ipv4Addr> {
    match probe {
        Some(IpAddr::V4(ip)) => if !ip.loopback() && !ip.unspecified() {
            Some(ip)
        } else {
            None
        },
        _ => None,
    }
}

/// The address that a probe found, if it is an IPv4 address that leads outside.
pub fn probe_route_ip(probe: Option<IpAddr>) -> (r: Option<Ipv4Addr>)
    ensures
        r == probed_ip(probe),
{
    match probe {
        Some(IpAddr::V4(ip)) => if !ip.is_loopback() && !ip.is_unspecified() {
            Some(ip)
        } else {
            None
        },
        _ => None,
    }
}

/// The address that the user pins, if the text is one.
pub open spec fn pinned_ip(forced: Option<&str>) -> Option<Ipv4Addr> {
    match forced {
        Some(s) => net::ipv4_of(s@),
        None => None,
    }
}

fn pinned(forced: Option<&str>) -> (r: Option<Ipv4Addr>)
    ensures
        r == pinned_ip(forced),
{
    match forced {
        Some(s) => parse_ipv4(s),
        None => None,
    }
}

/// The only endpoint where the user pins an address.
pub open spec fn pinned_endpoint(ip: Ipv4Addr) -> EndpointModel {
    EndpointModel {
        name: "Forced"@,
        ip,
        netmask: Some(Ipv4Addr { a: 255, b: 255, c: 255, d: 0 }),
        broadcast: Some(Ipv4Addr { a: ip.a, b: ip.b, c: ip.c, d: 255 }),
        gateway: None,
        is_tailscale: in_tailscale(ip),
        is_primary: true,
    }
}

/// The endpoint of an interface whose name in small letters is `lower`; none for a loopback,
/// link-local or virtual one. The primary one has the default gateway, others but Tailscale's the
/// first address of their /24.
pub open spec fn interface_endpoint(
    iface: Interface,
    lower: Seq<char>,
    default_gateway: Option<Ipv4Addr>,
    primary: Option<Ipv4Addr>,
) -> Option<EndpointModel> {
    match iface.address {
        Some(addr) => {
            let ip = addr.ip;
            let tailscale = in_tailscale(ip) || text::contains(lower, "tailscale"@);
            if iface.is_loopback || in_link_local(ip) || in_virtualbox(ip)
                || platform::virtual_name(lower) {
                None
            } else {
                Some(
                    EndpointModel {
                        name: iface.name@,
                        ip,
                        netmask: Some(addr.netmask),
                        broadcast: addr.broadcast,
                        gateway: if primary == Some(ip) {
                            default_gateway
                        } else if !tailscale {
                            Some(Ipv4Addr { a: ip.a, b: ip.b, c: ip.c, d: 1 })
                        } else {
                            None
                        },
                        is_tailscale: tailscale,
                        is_primary: primary == Some(ip),
                    },
                )
            }
        },
        None => None,
    }
}

/// The endpoints of interfaces, in order.
pub open spec fn interface_endpoints(
    ifaces: Seq<Interface>,
    default_gateway: Option<Ipv4Addr>,
    primary: Option<Ipv4Addr>,
) -> Seq<EndpointModel>
    decreases ifaces.len(),
{
    if ifaces.len() == 0 {
        Seq::empty()
    } else {
        let before = interface_endpoints(ifaces.drop_last(), default_gateway, primary);
        match interface_endpoint(
            ifaces.last(),
            text::lower_of(ifaces.last().name@),
            default_gateway,
            primary,
        ) {
            Some(e) => before.push(e),
            None => before,
        }
    }
}

/// An endpoint has the address.
pub open spec fn has_ip(endpoints: Seq<EndpointModel>, ip: Ipv4Addr) -> bool {
    exists|i: int| 0 <= i < endpoints.len() && (#[trigger] endpoints[i]).ip == ip
}

/// The endpoint of a Tailscale address that only a probe found.
pub open spec fn probed_endpoint(ip: Ipv4Addr) -> EndpointModel {
    EndpointModel {
        name: "Tailscale (Probed)"@,
        ip,
        netmask: Some(Ipv4Addr { a: 255, b: 192, c: 0, d: 0 }),
        broadcast: None,
        gateway: None,
        is_tailscale: true,
        is_primary: false,
    }
}

/// The endpoints, and behind them the Tailscale address that was probed, if none of them has it.
pub open spec fn with_probed(endpoints: Seq<EndpointModel>, probed: Option<Ipv4Addr>) -> Seq<
    EndpointModel,
> {
    match probed {
        Some(ip) => if in_tailscale(ip) && !has_ip(endpoints, ip) {
            endpoints.push(probed_endpoint(ip))
        } else {
            endpoints
        },
        None => endpoints,
    }
}

/// The place of an endpoint: the primary one first, then those on a LAN, then Tailscale's.
pub open spec fn rank(e: EndpointModel) -> nat {
    if e.is_primary {
        0
    } else if !e.is_tailscale {
        if e.ip.a == 192 && e.ip.b == 168 {
            1
        } else if e.ip.a == 10 {
            2
        } else {
            3
        }
    } else {
        10
    }
}

/// The endpoints of a rank, in order.
pub open spec fn ranked(endpoints: Seq<EndpointModel>, r: nat) -> Seq<EndpointModel> {
    endpoints.filter(|e: EndpointModel| rank(e) == r)
}

/// The endpoints by rank; those of one rank keep their order.
pub open spec fn by_rank(endpoints: Seq<EndpointModel>) -> Seq<EndpointModel> {
    ranked(endpoints, 0) + ranked(endpoints, 1) + ranked(endpoints, 2) + ranked(endpoints, 3)
        + ranked(endpoints, 10)
}

/// The endpoints of a machine.
pub open spec fn candidate_endpoints(forced: Option<&str>, facts: NetworkFacts) -> Seq<
    EndpointModel,
> {
    match pinned_ip(forced) {
        Some(ip) => seq![pinned_endpoint(ip)],
        None => by_rank(
            with_probed(
                interface_endpoints(
                    facts.interfaces@,
                    facts.default_gateway,
                    probed_ip(facts.primary_probe),
                ),
                probed_ip(facts.tailscale_probe),
            ),
        ),
    }
}

/// The endpoint of the interface, whose name in small letters is `lower`.
pub fn endpoint_of(
    iface: &Interface,
    lower: &str,
    default_gateway: Option<Ipv4Addr>,
    primary: Option<Ipv4Addr>,
) -> (r: Option<NetworkEndpoint>)
    ensures
        match (r, interface_endpoint(*iface, lower@, default_gateway, primary)) {
            (Some(x), Some(y)) => x@ == y,
            (None, None) => true,
            _ => false,
        },
{
    match iface.address {
        Some(addr) => {
            let ip = addr.ip;
            if iface.is_loopback || is_link_local(&ip) || is_virtualbox_ip(&ip) || is_virtual_iface(
                lower,
            ) {
                return None;
            }
            let is_tailscale: bool = is_tailscale_ip(&ip) || has(lower, "tailscale");
            let is_primary: bool = match primary {
                Some(p) => p == ip,
                None => false,
            };
            let gateway = if is_primary {
                default_gateway
            } else if !is_tailscale {
                Some(Ipv4Addr { a: ip.a, b: ip.b, c: ip.c, d: 1 })
            } else {
                None
            };
            Some(
                NetworkEndpoint {
                    name: iface.name.clone(),
                    ip,
                    netmask: Some(addr.netmask),
                    broadcast: addr.broadcast,
                    gateway,
                    is_tailscale,
                    is_primary,
                },
            )
        },
        None => None,
    }
}

fn knows_ip(endpoints: &Vec<NetworkEndpoint>, ip: Ipv4Addr) -> (r: bool)
    ensures
        r == has_ip(models(endpoints@), ip),
{
    let ghost m = models(endpoints@);
    for i in 0..endpoints.len()
        invariant
            m == models(endpoints@),
            forall|k: int| 0 <= k < i ==> (#[trigger] m[k]).ip != ip,
    {
        assert(m[i as int] == endpoints@[i as int]@);
        if endpoints[i].ip == ip {
            assert(m[i as int].ip == ip);
            return true;
        }
    }
    false
}

fn rank_of(e: &NetworkEndpoint) -> (r: u8)
    ensures
        r == rank(e@),
{
    if e.is_primary {
        0
    } else if !e.is_tailscale {
        if e.ip.a == 192 && e.ip.b == 168 {
            1
        } else if e.ip.a == 10 {
            2
        } else {
            3
        }
    } else {
        10
    }
}

fn push_ranked(endpoints: &Vec<NetworkEndpoint>, r: u8, out: &mut Vec<NetworkEndpoint>)
    ensures
        models(final(out)@) == models(old(out)@) + ranked(models(endpoints@), r as nat),
{
    let ghost m = models(endpoints@);
    let ghost before = models(out@);
    let ghost f = |e: EndpointModel| rank(e) == r as nat;
    proof {
        reveal(Seq::filter);
        assert(models(out@) =~= before + m.take(0).filter(f));
    }
    for i in 0..endpoints.len()
        invariant
            m == models(endpoints@),
            f == (|e: EndpointModel| rank(e) == r as nat),
            models(out@) == before + m.take(i as int).filter(f),
    {
        proof {
            reveal(Seq::filter);
            assert(m.take(i + 1).drop_last() =~= m.take(i as int));
            assert(m[i as int] == endpoints@[i as int]@);
        }
        if rank_of(&endpoints[i]) == r {
            let ghost out0 = out@;
            out.push(endpoints[i].copied());
            assert(models(out@) =~= models(out0).push(m[i as int]));
        }
        assert(models(out@) =~= before + m.take(i + 1).filter(f));
    }
    assert(m.take(m.len() as int) =~= m);
}

/// The endpoints of the machine: the pinned address alone, or else those of its interfaces and of a
/// Tailscale probe, the primary one first.
pub fn get_candidate_endpoints(forced: Option<&str>, facts: &NetworkFacts) -> (r: Vec<
    NetworkEndpoint,
>)
    ensures
        models(r@) == candidate_endpoints(forced, *facts),
{
    if let Some(ip) = pinned(forced) {
        let e = NetworkEndpoint {
            name: "Forced".to_owned(),
            ip,
            netmask: Some(Ipv4Addr { a: 255, b: 255, c: 255, d: 0 }),
            broadcast: Some(Ipv4Addr { a: ip.a, b: ip.b, c: ip.c, d: 255 }),
            gateway: None,
            is_tailscale: is_tailscale_ip(&ip),
            is_primary: true,
        };
        let mut r: Vec<NetworkEndpoint> = Vec::new();
        r.push(e);
        assert(models(r@) =~= seq![pinned_endpoint(ip)]);
        return r;
    }
    let primary = probe_route_ip(facts.primary_probe);
    let mut found: Vec<NetworkEndpoint> = Vec::new();
    let ghost ifaces = facts.interfaces@;
    assert(models(found@) =~= interface_endpoints(
        ifaces.take(0),
        facts.default_gateway,
        primary,
    ));
    for i in 0..facts.interfaces.len()
        invariant
            ifaces == facts.interfaces@,
            models(found@) == interface_endpoints(
                ifaces.take(i as int),
                facts.default_gateway,
                primary,
            ),
    {
        assert(ifaces.take(i + 1).drop_last() =~= ifaces.take(i as int));
        let iface: &Interface = &facts.interfaces[i];
        let ghost before = found@;
        if let Some(e) = endpoint_of(
            iface,
            lower(iface.name.as_str()).as_str(),
            facts.default_gateway,
            primary,
        ) {
            let ghost model = e@;
            found.push(e);
            assert(models(found@) =~= models(before).push(model));
        }
    }
    assert(ifaces.take(ifaces.len() as int) =~= ifaces);
    if let Some(ip) = probe_route_ip(facts.tailscale_probe) {
        if is_tailscale_ip(&ip) && !knows_ip(&found, ip) {
            let ghost before = found@;
            found.push(
                NetworkEndpoint {
                    name: "Tailscale (Probed)".to_owned(),
                    ip,
                    netmask: Some(Ipv4Addr { a: 255, b: 192, c: 0, d: 0 }),
                    broadcast: None,
                    gateway: None,
                    is_tailscale: true,
                    is_primary: false,
                },
            );
            assert(models(found@) =~= models(before).push(probed_endpoint(ip)));
        }
    }
    let mut r: Vec<NetworkEndpoint> = Vec::new();
    push_ranked(&found, 0, &mut r);
    push_ranked(&found, 1, &mut r);
    push_ranked(&found, 2, &mut r);
    push_ranked(&found, 3, &mut r);
    push_ranked(&found, 10, &mut r);
    assert(models(r@) =~= by_rank(models(found@)));
    r
}

/// The addresses of the machine's endpoints, in order.
pub fn get_candidate_ips(forced: Option<&str>, facts: &NetworkFacts) -> (r: Vec<Ipv4Addr>)
    ensures
        r@ == candidate_endpoints(forced, *facts).map_values(|e: EndpointModel| e.ip),
{
    let endpoints: Vec<NetworkEndpoint> = get_candidate_endpoints(forced, facts);
    let ghost m = models(endpoints@);
    let mut r: Vec<Ipv4Addr> = Vec::new();
    for i in 0..endpoints.len()
        invariant
            m == models(endpoints@),
            r@ == m.take(i as int).map_values(|e: EndpointModel| e.ip),
    {
        assert(m[i as int] == endpoints@[i as int]@);
        r.push(endpoints[i].ip);
        assert(r@ =~= m.take(i + 1).map_values(|e: EndpointModel| e.ip));
    }
    assert(m.take(m.len() as int) =~= m);
    r
}

/// The address to advertise: the pinned one, else the one that a probe to the outside or the
/// system gives, unless it is virtual or link-local, else that of the first endpoint.
pub open spec fn advertised_ip(
    forced: Option<&str>,
    probe: Option<IpAddr>,
    system: Option<IpAddr>,
    endpoints: Seq<EndpointModel>,
) -> Ipv4Addr {
    match pinned_ip(forced) {
        Some(ip) => ip,
        None => match (probed_ip(probe), system) {
            (Some(ip), _) if !in_virtualbox(ip) && !in_link_local(ip) => ip,
            (_, Some(IpAddr::V4(ip))) if !in_virtualbox(ip) && !in_link_local(ip) => ip,
            _ => if endpoints.len() > 0 {
                endpoints[0].ip
            } else {
                Ipv4Addr { a: 127, b: 0, c: 0, d: 1 }
            },
        },
    }
}

/// The address to advertise.
pub fn local_ip(
    forced: Option<&str>,
    probe: Option<IpAddr>,
    system: Option<IpAddr>,
    endpoints: &[NetworkEndpoint],
) -> (r: IpAddr)
    ensures
        r == IpAddr::V4(advertised_ip(forced, probe, system, models(endpoints@))),
{
    if let Some(ip) = pinned(forced) {
        return IpAddr::V4(ip);
    }
    if let Some(ip) = probe_route_ip(probe) {
        if !is_virtualbox_ip(&ip) && !is_link_local(&ip) {
            return IpAddr::V4(ip);
        }
    }
    if let Some(IpAddr::V4(ip)) = system {
        if !is_virtualbox_ip(&ip) && !is_link_local(&ip) {
            return IpAddr::V4(ip);
        }
    }
    if endpoints.len() > 0 {
        return IpAddr::V4(endpoints[0].ip);
    }
    IpAddr::V4(Ipv4Addr { a: 127, b: 0, c: 0, d: 1 })
}

/// How an endpoint can be near a target.
#[derive(Clone, Copy, PartialEq, Eq, Structural)]
enum Nearness {
    Tailscale,
    Slash24,
    Slash16,
}

spec fn is_near(e: EndpointModel, target: Ipv4Addr, how: Nearness) -> bool {
    match how {
        Nearness::Tailscale => e.is_tailscale,
        Nearness::Slash24 => same_24(e.ip, target),
        Nearness::Slash16 => same_16(e.ip, target),
    }
}

/// The two addresses are in one /24.
pub open spec fn same_24(x: Ipv4Addr, y: Ipv4Addr) -> bool {
    x.a == y.a && x.b == y.b && x.c == y.c
}

/// The two addresses are in one /16.
pub open spec fn same_16(x: Ipv4Addr, y: Ipv4Addr) -> bool {
    x.a == y.a && x.b == y.b
}

/// The address of the first endpoint of the kind, if there is one.
pub open spec fn first_ip(endpoints: Seq<EndpointModel>, kind: spec_fn(EndpointModel) -> bool) -> Option<
    Ipv4Addr,
> {
    text::first_some(
        endpoints,
        |e: EndpointModel|
            if kind(e) {
                Some(e.ip)
            } else {
                None
            },
    )
}

/// The local address for a target: Tailscale's for a Tailscale target, else one in the same /24,
/// else one in the same /16, else that of the first endpoint.
pub open spec fn picked_ip(endpoints: Seq<EndpointModel>, target: IpAddr) -> Ipv4Addr {
    if endpoints.len() == 0 {
        Ipv4Addr { a: 127, b: 0, c: 0, d: 1 }
    } else {
        match target {
            IpAddr::V4(t) => {
                let tailscale = first_ip(endpoints, |e: EndpointModel| e.is_tailscale);
                let near = first_ip(endpoints, |e: EndpointModel| same_24(e.ip, t));
                let far = first_ip(endpoints, |e: EndpointModel| same_16(e.ip, t));
                if in_tailscale(t) && tailscale is Some {
                    tailscale->0
                } else if near is Some {
                    near->0
                } else if far is Some {
                    far->0
                } else {
                    endpoints[0].ip
                }
            },
            IpAddr::V6 => endpoints[0].ip,
        }
    }
}

fn first_near(endpoints: &[NetworkEndpoint], target: Ipv4Addr, how: Nearness) -> (r: Option<
    Ipv4Addr,
>)
    ensures
        r == first_ip(models(endpoints@), |e: EndpointModel| is_near(e, target, how)),
{
    let ghost m = models(endpoints@);
    let ghost kind = |e: EndpointModel| is_near(e, target, how);
    let ghost f = |e: EndpointModel|
        if kind(e) {
            Some(e.ip)
        } else {
            None
        };
    assert(m.skip(0) =~= m);
    for i in 0..endpoints.len()
        invariant
            m == models(endpoints@),
            kind == (|e: EndpointModel| is_near(e, target, how)),
            f == (|e: EndpointModel|
                if kind(e) {
                    Some(e.ip)
                } else {
                    None
                }),
            first_ip(m, kind) == text::first_some(m, f),
            text::first_some(m.skip(i as int), f) == text::first_some(m, f),
    {
        assert(m[i as int] == endpoints@[i as int]@);
        assert(m.skip(i as int).drop_first() =~= m.skip(i + 1));
        let e: &NetworkEndpoint = &endpoints[i];
        let near: bool = match how {
            Nearness::Tailscale => e.is_tailscale,
            Nearness::Slash24 => e.ip.a == target.a && e.ip.b == target.b && e.ip.c == target.c,
            Nearness::Slash16 => e.ip.a == target.a && e.ip.b == target.b,
        };
        if near {
            return Some(e.ip);
        }
    }
    None
}

/// The local address through which the target is best reached.
pub fn pick_ip_for_target(endpoints: &[NetworkEndpoint], target: IpAddr) -> (r: Ipv4Addr)
    ensures
        r == picked_ip(models(endpoints@), target),
{
    if endpoints.len() == 0 {
        return Ipv4Addr { a: 127, b: 0, c: 0, d: 1 };
    }
    if let IpAddr::V4(t) = target {
        proof {
            let ts = |e: EndpointModel| is_near(e, t, Nearness::Tailscale);
            let near = |e: EndpointModel| is_near(e, t, Nearness::Slash24);
            let far = |e: EndpointModel| is_near(e, t, Nearness::Slash16);
            assert(ts =~= (|e: EndpointModel| e.is_tailscale));
            assert(near =~= (|e: EndpointModel| same_24(e.ip, t)));
            assert(far =~= (|e: EndpointModel| same_16(e.ip, t)));
        }
        if is_tailscale_ip(&t) {
            if let Some(ip) = first_near(endpoints, t, Nearness::Tailscale) {
                return ip;
            }
        }
        if let Some(ip) = first_near(endpoints, t, Nearness::Slash24) {
            return ip;
        }
        if let Some(ip) = first_near(endpoints, t, Nearness::Slash16) {
            return ip;
        }
    }
    endpoints[0].ip
}

// ---------------------------------------------------------------------------------------------
// Peers
// ---------------------------------------------------------------------------------------------
/// The addresses that contacted the renderer, none of them twice.
#[derive(Debug)]
pub struct Peers {
    list: Vec<Ipv4Addr>,
}

impl View for Peers {
    type V = Set<Ipv4Addr>;

    closed spec fn view(&self) -> Set<Ipv4Addr> {
        self.list@.to_set()
    }
}

impl Peers {
    #[verifier::type_invariant]
    spec fn valid(self) -> bool {
        self.list@.no_duplicates()
    }

    pub fn new() -> (r: Peers)
        ensures
            r@ == Set::<Ipv4Addr>::empty(),
    {
        let r = Peers { list: Vec::new() };
        assert(r@ =~= Set::<Ipv4Addr>::empty());
        r
    }
}

/// An address that can be a peer.
pub open spec fn is_remote(ip: Ipv4Addr) -> bool {
    !ip.loopback() && !ip.unspecified()
}

fn is_listed(list: &Vec<Ipv4Addr>, ip: Ipv4Addr) -> (r: bool)
    ensures
        r == list@.contains(ip),
{
    for i in 0..list.len()
        invariant
            forall|k: int| 0 <= k < i ==> list@[k] != ip,
    {
        if list[i] == ip {
            return true;
        }
    }
    false
}

/// Adds the address to the list, unless it is there.
fn add_once(list: &mut Vec<Ipv4Addr>, ip: Ipv4Addr)
    requires
        old(list)@.no_duplicates(),
    ensures
        final(list)@.no_duplicates(),
        final(list)@ == if old(list)@.contains(ip) {
            old(list)@
        } else {
            old(list)@.push(ip)
        },
{
    if !is_listed(list, ip) {
        list.push(ip);
    }
}

/// Remembers an address that contacted the renderer, unless it is of the machine itself. Is it new?
pub fn register_peer(peers: &mut Peers, ip: Ipv4Addr) -> (r: bool)
    ensures
        final(peers)@ == if is_remote(ip) {
            old(peers)@.insert(ip)
        } else {
            old(peers)@
        },
        r == (is_remote(ip) && !old(peers)@.contains(ip)),
{
    if ip.is_loopback() || ip.is_unspecified() {
        return false;
    }
    proof {
        use_type_invariant(&*peers);
    }
    let known: bool = is_listed(&peers.list, ip);
    let ghost before = peers.list@;
    if !known {
        let mut list: Vec<Ipv4Addr> = peers.list.clone();
        assert(list@ =~= before);
        list.push(ip);
        *peers = Peers { list };
    }
    assert(peers@ =~= before.to_set().insert(ip)) by {
        assert forall|x: Ipv4Addr| #[trigger] before.push(ip).contains(x) == (before.contains(x) || x
            == ip) by {
            if before.contains(x) {
                let i = choose|i: int| 0 <= i < before.len() && before[i] == x;
                assert(before.push(ip)[i] == x);
            }
            assert(before.push(ip)[before.len() as int] == ip);
        }
    }
    !known
}

/// The addresses that contacted the renderer, each once.
pub fn get_registered_peers(peers: &Peers) -> (r: Vec<Ipv4Addr>)
    ensures
        r@.no_duplicates(),
        r@.to_set() == peers@,
{
    proof {
        use_type_invariant(peers);
    }
    let r: Vec<Ipv4Addr> = peers.list.clone();
    assert(r@ =~= peers.list@);
    r
}

/// The address is listed in `PLAYPNP_PEERS`, between commas.
pub open spec fn variable_lists(s: Seq<char>, ip: Ipv4Addr) -> bool {
    let items = text::split_of(s, CharSet::One(','));
    exists|i: int|
        0 <= i < items.len() && net::ipv4_of(text::trim_of(#[trigger] items[i])) == Some(ip)
}

/// The address that a line of `peers.txt` gives; lines that begin with `#` give none.
pub open spec fn peer_line(line: Seq<char>) -> Option<Ipv4Addr> {
    let t = text::trim_of(line);
    if t.len() == 0 || t[0] == '#' {
        None
    } else {
        net::ipv4_of(t)
    }
}

/// The address is listed in `peers.txt`.
pub open spec fn file_lists(content: Seq<char>, ip: Ipv4Addr) -> bool {
    let l = text::lines_of(content);
    exists|i: int| 0 <= i < l.len() && peer_line(#[trigger] l[i]) == Some(ip)
}

/// The address is among the quoted ones at the beginning of a text, up to its first `]`.
pub open spec fn array_lists(chunk: Seq<char>, ip: Ipv4Addr) -> bool {
    match text::find_of(chunk, "]"@) {
        Some(e) => {
            let items = text::split_of(chunk.take(e), CharSet::One(','));
            exists|i: int|
                0 <= i < items.len() && net::ipv4_of(
                    text::strip_of(text::trim_of(#[trigger] items[i]), CharSet::One('"')),
                ) == Some(ip)
        },
        None => false,
    }
}

/// The address is a Tailscale one in what `tailscale status --json` prints.
pub open spec fn status_lists(output: Seq<char>, ip: Ipv4Addr) -> bool {
    let chunks = text::split_at_of(output, "\"TailscaleIPs\":["@);
    in_tailscale(ip) && exists|i: int|
        0 <= i < chunks.len() && array_lists(#[trigger] chunks[i], ip)
}

/// The addresses to notify: from the variable, the file, the status, and those that contacted the
/// renderer.
pub open spec fn is_peer(
    variable: Option<&str>,
    file: Option<&str>,
    status: Option<Seq<char>>,
    registered: Set<Ipv4Addr>,
    ip: Ipv4Addr,
) -> bool {
    ||| variable matches Some(s) && variable_lists(s@, ip)
    ||| file matches Some(s) && file_lists(s@, ip)
    ||| status matches Some(s) && status_lists(s, ip)
    ||| registered.contains(ip)
}

/// The list gained exactly the addresses that hold of `p`.
spec fn gained(before: Seq<Ipv4Addr>, after: Seq<Ipv4Addr>, p: spec_fn(Ipv4Addr) -> bool) -> bool {
    &&& after.no_duplicates()
    &&& forall|ip: Ipv4Addr| #[trigger] after.contains(ip) <==> before.contains(ip) || p(ip)
}

proof fn lemma_push_contains(s: Seq<Ipv4Addr>, ip: Ipv4Addr)
    ensures
        forall|x: Ipv4Addr| #[trigger] s.push(ip).contains(x) <==> s.contains(x) || x == ip,
{
    assert forall|x: Ipv4Addr| #[trigger] s.push(ip).contains(x) <==> s.contains(x) || x == ip by {
        if s.contains(x) {
            let i = choose|i: int| 0 <= i < s.len() && s[i] == x;
            assert(s.push(ip)[i] == x);
        }
        assert(s.push(ip)[s.len() as int] == ip);
    }
}

fn add_variable(s: &str, list: &mut Vec<Ipv4Addr>)
    requires
        old(list)@.no_duplicates(),
    ensures
        gained(old(list)@, final(list)@, |ip: Ipv4Addr| variable_lists(s@, ip)),
{
    let items: Vec<String> = split(s, CharSet::One(','));
    let ghost t = text::split_of(s@, CharSet::One(','));
    let ghost before = list@;
    for i in 0..items.len()
        invariant
            t == text::texts(items@),
            list@.no_duplicates(),
            forall|ip: Ipv4Addr| #[trigger]
                list@.contains(ip) <==> before.contains(ip) || exists|k: int|
                    0 <= k < i && net::ipv4_of(text::trim_of(#[trigger] t[k])) == Some(ip),
    {
        assert(t[i as int] == items@[i as int]@);
        let ghost now = list@;
        if let Some(ip) = parse_ipv4(trim(items[i].as_str())) {
            proof {
                lemma_push_contains(now, ip);
                assert(net::ipv4_of(text::trim_of(t[i as int])) == Some(ip));
            }
            add_once(list, ip);
        }
    }
}

fn add_file(content: &str, list: &mut Vec<Ipv4Addr>)
    requires
        old(list)@.no_duplicates(),
    ensures
        gained(old(list)@, final(list)@, |ip: Ipv4Addr| file_lists(content@, ip)),
{
    let items: Vec<String> = lines(content);
    let ghost t = text::lines_of(content@);
    let ghost before = list@;
    for i in 0..items.len()
        invariant
            t == text::texts(items@),
            list@.no_duplicates(),
            forall|ip: Ipv4Addr| #[trigger]
                list@.contains(ip) <==> before.contains(ip) || exists|k: int|
                    0 <= k < i && peer_line(#[trigger] t[k]) == Some(ip),
    {
        assert(t[i as int] == items@[i as int]@);
        let ghost now = list@;
        let line: &str = trim(items[i].as_str());
        if !line.is_empty() && line.get_char(0) != '#' {
            if let Some(ip) = parse_ipv4(line) {
                proof {
                    lemma_push_contains(now, ip);
                    assert(peer_line(t[i as int]) == Some(ip));
                }
                add_once(list, ip);
            }
        }
    }
}

fn add_array(chunk: &str, list: &mut Vec<Ipv4Addr>)
    requires
        old(list)@.no_duplicates(),
    ensures
        gained(
            old(list)@,
            final(list)@,
            |ip: Ipv4Addr| in_tailscale(ip) && array_lists(chunk@, ip),
        ),
{
    let ghost before = list@;
    if let Some(e) = find(chunk, "]") {
        let part: &str = chunk.substring_char(0, e);
        assert(part@ =~= chunk@.take(e as int));
        let items: Vec<String> = split(part, CharSet::One(','));
        let ghost t = text::split_of(part@, CharSet::One(','));
        for i in 0..items.len()
            invariant
                t == text::texts(items@),
                list@.no_duplicates(),
                forall|ip: Ipv4Addr| #[trigger]
                    list@.contains(ip) <==> before.contains(ip) || in_tailscale(ip) && exists|
                        k: int,
                    |
                        0 <= k < i && net::ipv4_of(
                            text::strip_of(text::trim_of(#[trigger] t[k]), CharSet::One('"')),
                        ) == Some(ip),
        {
            assert(t[i as int] == items@[i as int]@);
            let ghost now = list@;
            if let Some(ip) = parse_ipv4(strip(trim(items[i].as_str()), CharSet::One('"'))) {
                proof {
                    lemma_push_contains(now, ip);
                    assert(net::ipv4_of(
                        text::strip_of(text::trim_of(t[i as int]), CharSet::One('"')),
                    ) == Some(ip));
                }
                if is_tailscale_ip(&ip) {
                    add_once(list, ip);
                }
            }
        }
    }
}

fn add_status(output: &str, list: &mut Vec<Ipv4Addr>)
    requires
        old(list)@.no_duplicates(),
    ensures
        gained(old(list)@, final(list)@, |ip: Ipv4Addr| status_lists(output@, ip)),
{
    proof {
        reveal_strlit("\"TailscaleIPs\":[");
    }
    let chunks: Vec<String> = split_at(output, "\"TailscaleIPs\":[");
    let ghost t = text::split_at_of(output@, "\"TailscaleIPs\":["@);
    let ghost before = list@;
    for i in 0..chunks.len()
        invariant
            t == text::texts(chunks@),
            list@.no_duplicates(),
            forall|ip: Ipv4Addr| #[trigger]
                list@.contains(ip) <==> before.contains(ip) || in_tailscale(ip) && exists|k: int|
                    0 <= k < i && array_lists(#[trigger] t[k], ip),
    {
        assert(t[i as int] == chunks@[i as int]@);
        let ghost now = list@;
        add_array(chunks[i].as_str(), list);
        proof {
            let p = |ip: Ipv4Addr| in_tailscale(ip) && array_lists(t[i as int], ip);
            assert(gained(now, list@, p));
            assert forall|ip: Ipv4Addr| #[trigger] list@.contains(ip) <==> before.contains(ip)
                || in_tailscale(ip) && exists|k: int|
                0 <= k < i + 1 && array_lists(#[trigger] t[k], ip) by {
                assert(list@.contains(ip) <==> now.contains(ip) || p(ip));
                if p(ip) {
                    assert(array_lists(t[i as int], ip));
                }
            }
        }
    }
}

/// The addresses to notify by unicast, each once; `status` is what `tailscale status --json`
/// printed.
pub fn peers_from(
    variable: Option<&str>,
    file: Option<&str>,
    status: Option<&str>,
    registered: &Peers,
) -> (r: Vec<Ipv4Addr>)
    ensures
        r@.no_duplicates(),
        forall|ip: Ipv4Addr| #[trigger]
            r@.contains(ip) <==> is_peer(
                variable,
                file,
                match status {
                    Some(s) => Some(s@),
                    None => None,
                },
                registered@,
                ip,
            ),
{
    let mut list: Vec<Ipv4Addr> = Vec::new();
    if let Some(s) = variable {
        add_variable(s, &mut list);
    }
    let ghost l1 = list@;
    assert forall|ip: Ipv4Addr| #[trigger] l1.contains(ip) <==> (variable matches Some(s)
        && variable_lists(s@, ip)) by {}
    if let Some(s) = file {
        add_file(s, &mut list);
    }
    let ghost l2 = list@;
    assert forall|ip: Ipv4Addr| #[trigger] l2.contains(ip) <==> l1.contains(ip) || (
    file matches Some(s) && file_lists(s@, ip)) by {}
    if let Some(s) = status {
        add_status(s, &mut list);
    }
    let ghost l3 = list@;
    assert forall|ip: Ipv4Addr| #[trigger] l3.contains(ip) <==> l2.contains(ip) || (
    status matches Some(s) && status_lists(s@, ip)) by {}
    let known: Vec<Ipv4Addr> = get_registered_peers(registered);
    for i in 0..known.len()
        invariant
            list@.no_duplicates(),
            forall|ip: Ipv4Addr| #[trigger]
                list@.contains(ip) <==> l3.contains(ip) || exists|k: int|
                    0 <= k < i && #[trigger] known@[k] == ip,
    {
        proof {
            lemma_push_contains(list@, known@[i as int]);
        }
        add_once(&mut list, known[i]);
    }
    assert forall|ip: Ipv4Addr| #[trigger] list@.contains(ip) <==> l3.contains(ip)
        || registered@.contains(ip) by {
        assert(registered@.contains(ip) == known@.to_set().contains(ip));
    }
    list
}

/// The addresses to notify by unicast, each once; `status` holds the bytes that
/// `tailscale status --json` printed, if it succeeded.
pub fn get_tailscale_peers(
    variable: Option<&str>,
    file: Option<&str>,
    status: Option<&[u8]>,
    registered: &Peers,
) -> (r: Vec<Ipv4Addr>)
    ensures
        r@.no_duplicates(),
        forall|ip: Ipv4Addr| #[trigger]
            r@.contains(ip) <==> is_peer(
                variable,
                file,
                match status {
                    Some(b) => Some(text::text_of(b@)),
                    None => None,
                },
                registered@,
                ip,
            ),
{
    match status {
        Some(b) => {
            let s = decode(b);
            peers_from(variable, file, Some(s.as_str()), registered)
        },
        None => peers_from(variable, file, None, registered),
    }
}

// ---------------------------------------------------------------------------------------------
// Laws
// ---------------------------------------------------------------------------------------------
proof fn lemma_ranked_push(d: Seq<EndpointModel>, x: EndpointModel, r: nat)
    ensures
        ranked(d.push(x), r) == if rank(x) == r {
            ranked(d, r).push(x)
        } else {
            ranked(d, r)
        },
{
    reveal(Seq::filter);
    assert(d.push(x).drop_last() =~= d);
}

/// How often an item occurs in the endpoints by rank.
spec fn rank_count(e: Seq<EndpointModel>, y: EndpointModel) -> nat {
    ranked(e, 0).to_multiset().count(y) + ranked(e, 1).to_multiset().count(y) + ranked(
        e,
        2,
    ).to_multiset().count(y) + ranked(e, 3).to_multiset().count(y) + ranked(
        e,
        10,
    ).to_multiset().count(y)
}

proof fn lemma_rank_count(e: Seq<EndpointModel>, y: EndpointModel)
    ensures
        rank_count(e, y) == e.to_multiset().count(y),
    decreases e.len(),
{
    broadcast use vstd::seq_lib::group_to_multiset_ensures;
    broadcast use vstd::multiset::group_multiset_axioms;

    if e.len() == 0 {
        reveal(Seq::filter);
        assert(e =~= Seq::<EndpointModel>::empty());
    } else {
        let d = e.drop_last();
        let x = e.last();
        assert(e =~= d.push(x));
        lemma_rank_count(d, y);
        lemma_ranked_push(d, x, 0);
        lemma_ranked_push(d, x, 1);
        lemma_ranked_push(d, x, 2);
        lemma_ranked_push(d, x, 3);
        lemma_ranked_push(d, x, 10);
    }
}

/// The order of the endpoints is by rank, and it neither adds, drops nor repeats any: the primary
/// endpoint comes first, Tailscale's come last.
pub proof fn lemma_endpoint_order(e: Seq<EndpointModel>)
    ensures
        by_rank(e).to_multiset() == e.to_multiset(),
        forall|i: int, j: int|
            0 <= i <= j < by_rank(e).len() ==> rank(#[trigger] by_rank(e)[i]) <= rank(
                #[trigger] by_rank(e)[j],
            ),
{
    let a = ranked(e, 0);
    let b = ranked(e, 1);
    let c = ranked(e, 2);
    let d = ranked(e, 3);
    let t = ranked(e, 10);
    assert forall|y: EndpointModel| #[trigger] by_rank(e).to_multiset().count(y)
        == e.to_multiset().count(y) by {
        broadcast use vstd::multiset::group_multiset_axioms;

        vstd::seq_lib::lemma_multiset_commutative(a, b);
        vstd::seq_lib::lemma_multiset_commutative(a + b, c);
        vstd::seq_lib::lemma_multiset_commutative(a + b + c, d);
        vstd::seq_lib::lemma_multiset_commutative(a + b + c + d, t);
        lemma_rank_count(e, y);
    }
    assert(by_rank(e).to_multiset() =~= e.to_multiset());
    lemma_ranked_rank(e, 0);
    lemma_ranked_rank(e, 1);
    lemma_ranked_rank(e, 2);
    lemma_ranked_rank(e, 3);
    lemma_ranked_rank(e, 10);
    assert forall|i: int, j: int| 0 <= i <= j < by_rank(e).len() implies rank(
        #[trigger] by_rank(e)[i],
    ) <= rank(#[trigger] by_rank(e)[j]) by {
        let n0 = a.len();
        let n1 = n0 + b.len();
        let n2 = n1 + c.len();
        let n3 = n2 + d.len();
        assert(i < n0 ==> by_rank(e)[i] == a[i]);
        assert(n0 <= i < n1 ==> by_rank(e)[i] == b[i - n0]);
        assert(n1 <= i < n2 ==> by_rank(e)[i] == c[i - n1]);
        assert(n2 <= i < n3 ==> by_rank(e)[i] == d[i - n2]);
        assert(n3 <= i ==> by_rank(e)[i] == t[i - n3]);
        assert(j < n0 ==> by_rank(e)[j] == a[j]);
        assert(n0 <= j < n1 ==> by_rank(e)[j] == b[j - n0]);
        assert(n1 <= j < n2 ==> by_rank(e)[j] == c[j - n1]);
        assert(n2 <= j < n3 ==> by_rank(e)[j] == d[j - n2]);
        assert(n3 <= j ==> by_rank(e)[j] == t[j - n3]);
    }
}

proof fn lemma_ranked_rank(e: Seq<EndpointModel>, r: nat)
    ensures
        forall|i: int| 0 <= i < ranked(e, r).len() ==> rank(#[trigger] ranked(e, r)[i]) == r,
        forall|i: int|
            0 <= i < ranked(e, r).len() ==> e.contains(#[trigger] ranked(e, r)[i]),
    decreases e.len(),
{
    if e.len() == 0 {
        reveal(Seq::filter);
    } else {
        let d = e.drop_last();
        assert(e =~= d.push(e.last()));
        lemma_ranked_push(d, e.last(), r);
        lemma_ranked_rank(d, r);
        assert forall|i: int| 0 <= i < ranked(e, r).len() implies e.contains(
            #[trigger] ranked(e, r)[i],
        ) by {
            let x = ranked(e, r)[i];
            if i < ranked(d, r).len() {
                assert(x == ranked(d, r)[i]);
                let k = choose|k: int| 0 <= k < d.len() && d[k] == x;
                assert(e[k] == x);
            } else {
                assert(e[e.len() - 1] == x);
            }
        }
        assert forall|i: int| 0 <= i < ranked(e, r).len() implies rank(#[trigger] ranked(e, r)[i])
            == r by {
            if i < ranked(d, r).len() {
                assert(ranked(e, r)[i] == ranked(d, r)[i]);
            }
        }
    }
}

/// An address that interfaces or probes may be reached at: not link-local, not VirtualBox's.
pub open spec fn is_reachable(ip: Ipv4Addr) -> bool {
    !in_link_local(ip) && !in_virtualbox(ip)
}

proof fn lemma_interfaces_reachable(
    ifaces: Seq<Interface>,
    default_gateway: Option<Ipv4Addr>,
    primary: Option<Ipv4Addr>,
    i: int,
)
    requires
        0 <= i < interface_endpoints(ifaces, default_gateway, primary).len(),
    ensures
        is_reachable(interface_endpoints(ifaces, default_gateway, primary)[i].ip),
    decreases ifaces.len(),
{
    if ifaces.len() > 0 {
        let before = interface_endpoints(ifaces.drop_last(), default_gateway, primary);
        if i < before.len() {
            lemma_interfaces_reachable(ifaces.drop_last(), default_gateway, primary, i);
        }
    }
}

/// Unless an address is pinned, no endpoint is link-local or of VirtualBox.
pub proof fn lemma_endpoints_reachable(forced: Option<&str>, facts: NetworkFacts, i: int)
    requires
        pinned_ip(forced) is None,
        0 <= i < candidate_endpoints(forced, facts).len(),
    ensures
        is_reachable(candidate_endpoints(forced, facts)[i].ip),
{
    let listed = interface_endpoints(
        facts.interfaces@,
        facts.default_gateway,
        probed_ip(facts.primary_probe),
    );
    let all = with_probed(listed, probed_ip(facts.tailscale_probe));
    assert forall|k: int| 0 <= k < all.len() implies is_reachable((#[trigger] all[k]).ip) by {
        if k < listed.len() {
            assert(all[k] == listed[k]);
            lemma_interfaces_reachable(
                facts.interfaces@,
                facts.default_gateway,
                probed_ip(facts.primary_probe),
                k,
            );
        }
    }
    lemma_endpoint_order(all);
    let x = by_rank(all)[i];
    by_rank(all).to_multiset_ensures();
    all.to_multiset_ensures();
    assert(by_rank(all).to_multiset().count(x) > 0);
    assert(all.to_multiset().count(x) > 0);
}

/// The local address for a target is that of an endpoint, wherever there is one.
pub proof fn lemma_picked_is_endpoint(endpoints: Seq<EndpointModel>, target: IpAddr)
    requires
        endpoints.len() > 0,
    ensures
        has_ip(endpoints, picked_ip(endpoints, target)),
{
    assert(has_ip(endpoints, endpoints[0].ip));
    if let IpAddr::V4(t) = target {
        lemma_first_ip(endpoints, |e: EndpointModel| e.is_tailscale);
        lemma_first_ip(endpoints, |e: EndpointModel| same_24(e.ip, t));
        lemma_first_ip(endpoints, |e: EndpointModel| same_16(e.ip, t));
    }
}

proof fn lemma_first_ip(endpoints: Seq<EndpointModel>, kind: spec_fn(EndpointModel) -> bool)
    ensures
        first_ip(endpoints, kind) matches Some(ip) ==> has_ip(endpoints, ip) && exists|i: int|
            0 <= i < endpoints.len() && (#[trigger] endpoints[i]).ip == ip && kind(endpoints[i]),
        first_ip(endpoints, kind) is None ==> forall|i: int|
            0 <= i < endpoints.len() ==> !kind(#[trigger] endpoints[i]),
{
    let f = |e: EndpointModel|
        if kind(e) {
            Some(e.ip)
        } else {
            None
        };
    text::lemma_first_some(endpoints, f);
    if first_ip(endpoints, kind) is Some {
        let i = choose|i: int|
            0 <= i < endpoints.len() && #[trigger] f(endpoints[i]) == first_ip(endpoints, kind);
        assert(endpoints[i].ip == first_ip(endpoints, kind)->0);
    } else {
        assert forall|i: int| 0 <= i < endpoints.len() implies !kind(#[trigger] endpoints[i]) by {
            assert(f(endpoints[i]) is None);
        }
    }
}

/// A target outside Tailscale that shares a /24 with an endpoint is answered from that /24.
pub proof fn lemma_picked_shares_subnet(endpoints: Seq<EndpointModel>, target: Ipv4Addr, i: int)
    requires
        0 <= i < endpoints.len(),
        same_24(endpoints[i].ip, target),
        !in_tailscale(target),
    ensures
        same_24(picked_ip(endpoints, IpAddr::V4(target)), target),
{
    lemma_first_ip(endpoints, |e: EndpointModel| same_24(e.ip, target));
}

/// A pinned address is the only endpoint, and the one that every target is answered from.
pub proof fn lemma_pinned_alone(forced: Option<&str>, facts: NetworkFacts, target: IpAddr)
    requires
        pinned_ip(forced) is Some,
    ensures
        candidate_endpoints(forced, facts).len() == 1,
        picked_ip(candidate_endpoints(forced, facts), target) == pinned_ip(forced)->0,
        advertised_ip(
            forced,
            facts.primary_probe,
            None,
            candidate_endpoints(forced, facts),
        ) == pinned_ip(forced)->0,
{
    let e = candidate_endpoints(forced, facts);
    lemma_picked_is_endpoint(e, target);
}

proof fn lemma_interface_listed(
    ifaces: Seq<Interface>,
    default_gateway: Option<Ipv4Addr>,
    primary: Option<Ipv4Addr>,
    k: int,
)
    requires
        0 <= k < ifaces.len(),
        interface_endpoint(
            ifaces[k],
            text::lower_of(ifaces[k].name@),
            default_gateway,
            primary,
        ) is Some,
    ensures
        interface_endpoints(ifaces, default_gateway, primary).contains(
            interface_endpoint(
                ifaces[k],
                text::lower_of(ifaces[k].name@),
                default_gateway,
                primary,
            )->0,
        ),
    decreases ifaces.len(),
{
    let all = interface_endpoints(ifaces, default_gateway, primary);
    let before = interface_endpoints(ifaces.drop_last(), default_gateway, primary);
    let e = interface_endpoint(
        ifaces[k],
        text::lower_of(ifaces[k].name@),
        default_gateway,
        primary,
    )->0;
    if k == ifaces.len() - 1 {
        assert(all == before.push(e));
        assert(all[before.len() as int] == e);
    } else {
        lemma_interface_listed(ifaces.drop_last(), default_gateway, primary, k);
        let i = choose|i: int| 0 <= i < before.len() && before[i] == e;
        assert(all[i] == e);
    }
}

proof fn lemma_by_rank_holds(e: Seq<EndpointModel>, x: EndpointModel)
    ensures
        by_rank(e).contains(x) <==> e.contains(x),
{
    lemma_endpoint_order(e);
    by_rank(e).to_multiset_ensures();
    e.to_multiset_ensures();
    assert(by_rank(e).contains(x) <==> by_rank(e).to_multiset().count(x) > 0);
    assert(e.contains(x) <==> e.to_multiset().count(x) > 0);
}

/// The endpoint of an interface that can be reached and is not virtual is among the candidates:
/// with its own name, address, mask and broadcast address; with the default gateway, where its
/// address is the primary one; else with the first address of its /24 as the gateway, unless it is
/// Tailscale's.
pub proof fn lemma_interface_is_candidate(facts: NetworkFacts, k: int)
    requires
        0 <= k < facts.interfaces@.len(),
        facts.interfaces@[k].address is Some,
        !facts.interfaces@[k].is_loopback,
        !platform::virtual_name(text::lower_of(facts.interfaces@[k].name@)),
        ({
            let ip = facts.interfaces@[k].address->0.ip;
            !(ip.a == 169 && ip.b == 254) && !(ip.a == 192 && ip.b == 168 && ip.c == 56)
        }),
    ensures
        ({
            let iface = facts.interfaces@[k];
            let addr = iface.address->0;
            let ip = addr.ip;
            let primary = facts.primary_probe == Some(IpAddr::V4(ip)) && ip.a != 127 && !(ip.a == 0
                && ip.b == 0 && ip.c == 0 && ip.d == 0);
            let tailscale = (ip.a == 100 && 64 <= ip.b <= 127) || text::contains(
                text::lower_of(iface.name@),
                "tailscale"@,
            );
            candidate_endpoints(None, facts).contains(
                (EndpointModel {
                    name: iface.name@,
                    ip,
                    netmask: Some(addr.netmask),
                    broadcast: addr.broadcast,
                    gateway: if primary {
                        facts.default_gateway
                    } else if tailscale {
                        None
                    } else {
                        Some(Ipv4Addr { a: ip.a, b: ip.b, c: ip.c, d: 1 })
                    },
                    is_tailscale: tailscale,
                    is_primary: primary,
                }),
            )
        }),
{
    let iface = facts.interfaces@[k];
    let primary = probed_ip(facts.primary_probe);
    let e = interface_endpoint(
        iface,
        text::lower_of(iface.name@),
        facts.default_gateway,
        primary,
    )->0;
    lemma_interface_listed(facts.interfaces@, facts.default_gateway, primary, k);
    let listed = interface_endpoints(facts.interfaces@, facts.default_gateway, primary);
    let all = with_probed(listed, probed_ip(facts.tailscale_probe));
    let i = choose|i: int| 0 <= i < listed.len() && listed[i] == e;
    assert(all[i] == e);
    lemma_by_rank_holds(all, e);
}

proof fn lemma_interface_behind(
    ifaces: Seq<Interface>,
    default_gateway: Option<Ipv4Addr>,
    primary: Option<Ipv4Addr>,
    i: int,
)
    requires
        0 <= i < interface_endpoints(ifaces, default_gateway, primary).len(),
    ensures
        exists|k: int|
            0 <= k < ifaces.len() && interface_endpoint(
                #[trigger] ifaces[k],
                text::lower_of(ifaces[k].name@),
                default_gateway,
                primary,
            ) == Some(interface_endpoints(ifaces, default_gateway, primary)[i]),
    decreases ifaces.len(),
{
    let all = interface_endpoints(ifaces, default_gateway, primary);
    if ifaces.len() > 0 {
        let short = ifaces.drop_last();
        let before = interface_endpoints(short, default_gateway, primary);
        if i < before.len() {
            lemma_interface_behind(short, default_gateway, primary, i);
            let k = choose|k: int|
                0 <= k < short.len() && interface_endpoint(
                    #[trigger] short[k],
                    text::lower_of(short[k].name@),
                    default_gateway,
                    primary,
                ) == Some(before[i]);
            assert(ifaces[k] == short[k]);
        } else {
            assert(ifaces[ifaces.len() - 1] == ifaces.last());
        }
    }
}

/// Every candidate is the endpoint of such an interface, by name and address, or else Tailscale's
/// own address, which a probe found.
pub proof fn lemma_candidate_has_interface(facts: NetworkFacts, i: int)
    requires
        0 <= i < candidate_endpoints(None, facts).len(),
    ensures
        ({
            let e = candidate_endpoints(None, facts)[i];
            ||| facts.tailscale_probe == Some(IpAddr::V4(e.ip)) && e.ip.a == 100 && 64 <= e.ip.b
                <= 127 && e.is_tailscale && !e.is_primary && e.gateway is None
            ||| exists|k: int|
                0 <= k < facts.interfaces@.len() && {
                    let iface = #[trigger] facts.interfaces@[k];
                    &&& iface.address matches Some(addr) && addr.ip == e.ip
                    &&& iface.name@ == e.name
                    &&& !iface.is_loopback
                    &&& !platform::virtual_name(text::lower_of(iface.name@))
                }
        }),
{
    let primary = probed_ip(facts.primary_probe);
    let listed = interface_endpoints(facts.interfaces@, facts.default_gateway, primary);
    let all = with_probed(listed, probed_ip(facts.tailscale_probe));
    let e = by_rank(all)[i];
    assert(by_rank(all).contains(e));
    lemma_by_rank_holds(all, e);
    let n = choose|n: int| 0 <= n < all.len() && all[n] == e;
    if n < listed.len() {
        assert(listed[n] == e);
        lemma_interface_behind(facts.interfaces@, facts.default_gateway, primary, n);
        let k = choose|k: int|
            0 <= k < facts.interfaces@.len() && interface_endpoint(
                #[trigger] facts.interfaces@[k],
                text::lower_of(facts.interfaces@[k].name@),
                facts.default_gateway,
                primary,
            ) == Some(listed[n]);
        assert(facts.interfaces@[k].name@ == e.name);
    }
}

/// An address of Tailscale that a probe found is a candidate, whether an interface has it or not.
pub proof fn lemma_tailscale_is_candidate(facts: NetworkFacts, ip: Ipv4Addr)
    requires
        facts.tailscale_probe == Some(IpAddr::V4(ip)),
        ip.a == 100 && 64 <= ip.b <= 127,
    ensures
        has_ip(candidate_endpoints(None, facts), ip),
{
    let primary = probed_ip(facts.primary_probe);
    let listed = interface_endpoints(facts.interfaces@, facts.default_gateway, primary);
    let all = with_probed(listed, probed_ip(facts.tailscale_probe));
    let k = if has_ip(listed, ip) {
        choose|k: int| 0 <= k < listed.len() && (#[trigger] listed[k]).ip == ip
    } else {
        listed.len() as int
    };
    let e = all[k];
    assert(e.ip == ip);
    assert(all.contains(e));
    lemma_by_rank_holds(all, e);
    let out = by_rank(all);
    let j = choose|j: int| 0 <= j < out.len() && out[j] == e;
    assert(out[j].ip == ip);
}

/// The order of the candidates: the primary one before all others; Tailscale's after all others; of
/// the rest 192.168.0.0/16 before 10.0.0.0/8, and that before any other.
pub proof fn lemma_candidates_in_order(e: Seq<EndpointModel>, i: int, j: int)
    requires
        0 <= i < j < by_rank(e).len(),
    ensures
        ({
            let x = by_rank(e)[i];
            let y = by_rank(e)[j];
            let plain = !x.is_primary && !y.is_primary && !x.is_tailscale && !y.is_tailscale;
            &&& y.is_primary ==> x.is_primary
            &&& !x.is_primary && x.is_tailscale ==> y.is_tailscale
            &&& plain && y.ip.a == 192 && y.ip.b == 168 ==> x.ip.a == 192 && x.ip.b == 168
            &&& plain && y.ip.a == 10 ==> x.ip.a == 10 || (x.ip.a == 192 && x.ip.b == 168)
        }),
{
    lemma_endpoint_order(e);
    assert(rank(by_rank(e)[i]) <= rank(by_rank(e)[j]));
}

proof fn lemma_ranked_twice(e: Seq<EndpointModel>, one: nat, other: nat)
    ensures
        ranked(ranked(e, one), other) == if one == other {
            ranked(e, one)
        } else {
            Seq::empty()
        },
    decreases e.len(),
{
    if e.len() == 0 {
        reveal(Seq::filter);
        assert(ranked(e, one) =~= Seq::<EndpointModel>::empty());
    } else {
        let d = e.drop_last();
        assert(e =~= d.push(e.last()));
        lemma_ranked_push(d, e.last(), one);
        lemma_ranked_twice(d, one, other);
        lemma_ranked_push(ranked(d, one), e.last(), other);
    }
}

/// Candidates that nothing tells apart stay in the order in which they were listed.
pub proof fn lemma_order_is_stable(e: Seq<EndpointModel>, r: nat)
    ensures
        by_rank(e).filter(|x: EndpointModel| rank(x) == r) == e.filter(
            |x: EndpointModel| rank(x) == r,
        ),
{
    let f = |x: EndpointModel| rank(x) == r;
    let a = ranked(e, 0);
    let b = ranked(e, 1);
    let c = ranked(e, 2);
    let d = ranked(e, 3);
    let t = ranked(e, 10);
    Seq::filter_distributes_over_add(a, b, f);
    Seq::filter_distributes_over_add(a + b, c, f);
    Seq::filter_distributes_over_add(a + b + c, d, f);
    Seq::filter_distributes_over_add(a + b + c + d, t, f);
    lemma_ranked_twice(e, 0, r);
    lemma_ranked_twice(e, 1, r);
    lemma_ranked_twice(e, 2, r);
    lemma_ranked_twice(e, 3, r);
    lemma_ranked_twice(e, 10, r);
    assert(by_rank(e).filter(f) == a.filter(f) + b.filter(f) + c.filter(f) + d.filter(f)
        + t.filter(f));
    if r != 0 && r != 1 && r != 2 && r != 3 && r != 10 {
        lemma_other_rank(e, r);
    }
    assert(by_rank(e).filter(f) =~= e.filter(f));
}

proof fn lemma_other_rank(e: Seq<EndpointModel>, r: nat)
    requires
        r != 0 && r != 1 && r != 2 && r != 3 && r != 10,
    ensures
        ranked(e, r).len() == 0,
    decreases e.len(),
{
    if e.len() == 0 {
        reveal(Seq::filter);
    } else {
        let d = e.drop_last();
        assert(e =~= d.push(e.last()));
        lemma_ranked_push(d, e.last(), r);
        lemma_other_rank(d, r);
    }
}

proof fn lemma_first_ip_is(
    endpoints: Seq<EndpointModel>,
    kind: spec_fn(EndpointModel) -> bool,
    i: int,
)
    requires
        0 <= i < endpoints.len(),
        kind(endpoints[i]),
        forall|j: int| 0 <= j < i ==> !kind(#[trigger] endpoints[j]),
    ensures
        first_ip(endpoints, kind) == Some(endpoints[i].ip),
{
    let f = |e: EndpointModel|
        if kind(e) {
            Some(e.ip)
        } else {
            None
        };
    assert forall|j: int| 0 <= j < i implies #[trigger] f(endpoints[j]) is None by {
        assert(!kind(endpoints[j]));
    }
    text::lemma_first_is(endpoints, f, i);
}

proof fn lemma_no_first_ip(endpoints: Seq<EndpointModel>, kind: spec_fn(EndpointModel) -> bool)
    requires
        forall|j: int| 0 <= j < endpoints.len() ==> !kind(#[trigger] endpoints[j]),
    ensures
        first_ip(endpoints, kind) is None,
{
    let f = |e: EndpointModel|
        if kind(e) {
            Some(e.ip)
        } else {
            None
        };
    assert forall|j: int| 0 <= j < endpoints.len() implies #[trigger] f(endpoints[j]) is None by {
        assert(!kind(endpoints[j]));
    }
    text::lemma_none_is(endpoints, f);
}

/// A target of Tailscale is answered from the first endpoint of Tailscale.
pub proof fn lemma_tailscale_answers_tailscale(
    endpoints: Seq<EndpointModel>,
    target: Ipv4Addr,
    i: int,
)
    requires
        target.a == 100 && 64 <= target.b <= 127,
        0 <= i < endpoints.len(),
        endpoints[i].is_tailscale,
        forall|j: int| 0 <= j < i ==> !(#[trigger] endpoints[j]).is_tailscale,
    ensures
        picked_ip(endpoints, IpAddr::V4(target)) == endpoints[i].ip,
{
    lemma_first_ip_is(endpoints, |e: EndpointModel| e.is_tailscale, i);
}

/// Any other target is answered from the first endpoint of its /24; where there is none from the
/// first of its /16; where there is none of those either from the first endpoint.
pub proof fn lemma_nearest_answers(endpoints: Seq<EndpointModel>, target: Ipv4Addr, i: int)
    requires
        0 <= i < endpoints.len(),
        !(target.a == 100 && 64 <= target.b <= 127) || forall|j: int|
            0 <= j < endpoints.len() ==> !(#[trigger] endpoints[j]).is_tailscale,
    ensures
        ({
            let near = |e: EndpointModel|
                e.ip.a == target.a && e.ip.b == target.b && e.ip.c == target.c;
            let far = |e: EndpointModel| e.ip.a == target.a && e.ip.b == target.b;
            let picked = picked_ip(endpoints, IpAddr::V4(target));
            &&& near(endpoints[i]) && (forall|j: int|
                0 <= j < i ==> !near(#[trigger] endpoints[j])) ==> picked == endpoints[i].ip
            &&& (forall|j: int| 0 <= j < endpoints.len() ==> !near(#[trigger] endpoints[j])) && far(
                endpoints[i],
            ) && (forall|j: int| 0 <= j < i ==> !far(#[trigger] endpoints[j])) ==> picked
                == endpoints[i].ip
            &&& (forall|j: int| 0 <= j < endpoints.len() ==> !far(#[trigger] endpoints[j]))
                ==> picked == endpoints[0].ip
        }),
{
    let near = |e: EndpointModel| e.ip.a == target.a && e.ip.b == target.b && e.ip.c == target.c;
    let far = |e: EndpointModel| e.ip.a == target.a && e.ip.b == target.b;
    let near_spec = |e: EndpointModel| same_24(e.ip, target);
    let far_spec = |e: EndpointModel| same_16(e.ip, target);
    if in_tailscale(target) {
        lemma_no_first_ip(endpoints, |e: EndpointModel| e.is_tailscale);
    }
    if near(endpoints[i]) && (forall|j: int| 0 <= j < i ==> !near(#[trigger] endpoints[j])) {
        assert forall|j: int| 0 <= j < i implies !near_spec(#[trigger] endpoints[j]) by {
            assert(!near(endpoints[j]));
        }
        lemma_first_ip_is(endpoints, near_spec, i);
    }
    if forall|j: int| 0 <= j < endpoints.len() ==> !near(#[trigger] endpoints[j]) {
        assert forall|j: int| 0 <= j < endpoints.len() implies !near_spec(
            #[trigger] endpoints[j],
        ) by {
            assert(!near(endpoints[j]));
        }
        lemma_no_first_ip(endpoints, near_spec);
        if far(endpoints[i]) && (forall|j: int| 0 <= j < i ==> !far(#[trigger] endpoints[j])) {
            assert forall|j: int| 0 <= j < i implies !far_spec(#[trigger] endpoints[j]) by {
                assert(!far(endpoints[j]));
            }
            lemma_first_ip_is(endpoints, far_spec, i);
        }
    }
    if forall|j: int| 0 <= j < endpoints.len() ==> !far(#[trigger] endpoints[j]) {
        assert forall|j: int| 0 <= j < endpoints.len() implies !far_spec(
            #[trigger] endpoints[j],
        ) && !near_spec(endpoints[j]) by {
            assert(!far(endpoints[j]));
        }
        lemma_no_first_ip(endpoints, near_spec);
        lemma_no_first_ip(endpoints, far_spec);
    }
}

/// A target that is no IPv4 address is answered from the first endpoint; without endpoints every
/// target is answered from 127.0.0.1.
pub proof fn lemma_other_targets(endpoints: Seq<EndpointModel>, target: IpAddr)
    ensures
        endpoints.len() > 0 ==> picked_ip(endpoints, IpAddr::V6) == endpoints[0].ip,
        endpoints.len() == 0 ==> picked_ip(endpoints, target) == (Ipv4Addr {
            a: 127,
            b: 0,
            c: 0,
            d: 1,
        }),
{
}

/// The address that is advertised: the pinned one; else the probed one and else the system's, each
/// only if it can be reached; else that of the first endpoint; else 127.0.0.1.
pub proof fn lemma_advertised_is(
    forced: &str,
    ip: Ipv4Addr,
    probe: Ipv4Addr,
    system: Ipv4Addr,
    endpoints: Seq<EndpointModel>,
)
    requires
        forced@ == ip.dotted(),
    ensures
        ({
            let reached = |x: Ipv4Addr|
                !(x.a == 192 && x.b == 168 && x.c == 56) && !(x.a == 169 && x.b == 254);
            let outside = probe.a != 127 && !(probe.a == 0 && probe.b == 0 && probe.c == 0
                && probe.d == 0);
            let p = Some(IpAddr::V4(probe));
            let s = Some(IpAddr::V4(system));
            let last = if endpoints.len() > 0 {
                endpoints[0].ip
            } else {
                Ipv4Addr { a: 127, b: 0, c: 0, d: 1 }
            };
            &&& advertised_ip(Some(forced), p, s, endpoints) == ip
            &&& outside && reached(probe) ==> advertised_ip(None, p, s, endpoints) == probe
            &&& !(outside && reached(probe)) && reached(system) ==> advertised_ip(
                None,
                p,
                s,
                endpoints,
            ) == system
            &&& reached(system) ==> advertised_ip(None, None, s, endpoints) == system
            &&& !(outside && reached(probe)) && !reached(system) ==> advertised_ip(
                None,
                p,
                s,
                endpoints,
            ) == last
            &&& advertised_ip(None, None, None, endpoints) == last
        }),
{
    net::lemma_ipv4_reads_back(ip);
}

/// A pinned address is the only endpoint: the primary one, with the broadcast address of its /24.
pub proof fn lemma_pinned_endpoint_is(forced: &str, ip: Ipv4Addr, facts: NetworkFacts)
    requires
        forced@ == ip.dotted(),
    ensures
        candidate_endpoints(Some(forced), facts) == seq![
            EndpointModel {
                name: "Forced"@,
                ip,
                netmask: Some(Ipv4Addr { a: 255, b: 255, c: 255, d: 0 }),
                broadcast: Some(Ipv4Addr { a: ip.a, b: ip.b, c: ip.c, d: 255 }),
                gateway: None,
                is_tailscale: ip.a == 100 && 64 <= ip.b <= 127,
                is_primary: true,
            },
        ],
{
    net::lemma_ipv4_reads_back(ip);
}

/// The networks that are told apart: 192.168.56.0/24, 169.254.0.0/16 and 100.64.0.0/10.
pub proof fn lemma_networks(ip: Ipv4Addr)
    ensures
        in_virtualbox(ip) <==> ip.a == 192 && ip.b == 168 && ip.c == 56,
        in_link_local(ip) <==> ip.a == 169 && ip.b == 254,
        in_tailscale(ip) <==> 0x6440_0000 <= ip.a * 0x100_0000 + ip.b * 0x1_0000 + ip.c * 0x100
            + ip.d <= 0x647f_ffff,
        ip.loopback() <==> ip.a == 127,
{
}

proof fn lemma_dotted_is_plain(ip: Ipv4Addr)
    ensures
        ip.dotted().len() > 0,
        !text::is_white(ip.dotted()[0]) && !text::is_white(ip.dotted().last()),
        ip.dotted()[0] != '#' && ip.dotted()[0] != '"' && ip.dotted().last() != '"',
        text::free_of(ip.dotted(), CharSet::One(',')),
        text::free_of(ip.dotted(), CharSet::One(']')),
        text::free_of(ip.dotted(), CharSet::One('"')),
        text::free_of(ip.dotted(), CharSet::One('T')),
{
    net::lemma_dotted_is_word(ip);
    let n = ip.dotted().len();
    assert(text::is_digit(ip.dotted()[0]) || ip.dotted()[0] == '.');
    assert(text::is_digit(ip.dotted()[n - 1]) || ip.dotted()[n - 1] == '.');
    assert forall|i: int| 0 <= i < ip.dotted().len() implies !CharSet::One(',').has(
        #[trigger] ip.dotted()[i],
    ) && !CharSet::One(']').has(ip.dotted()[i]) && !CharSet::One('"').has(ip.dotted()[i]) && !CharSet::One('T').has(
        ip.dotted()[i],
    ) by {
        assert(text::is_digit(ip.dotted()[i]) || ip.dotted()[i] == '.');
    }
}

spec fn is_blank(s: Seq<char>) -> bool {
    forall|i: int| 0 <= i < s.len() ==> text::is_white(#[trigger] s[i])
}

proof fn lemma_blank_free(s: Seq<char>, c: char)
    requires
        is_blank(s),
        !text::is_white(c),
    ensures
        text::free_of(s, CharSet::One(c)),
{
    assert forall|i: int| 0 <= i < s.len() implies !CharSet::One(c).has(#[trigger] s[i]) by {
        assert(text::is_white(s[i]));
    }
}

proof fn lemma_free_sum(a: Seq<char>, b: Seq<char>, c: char)
    requires
        text::free_of(a, CharSet::One(c)),
        text::free_of(b, CharSet::One(c)),
    ensures
        text::free_of(a + b, CharSet::One(c)),
{
    let set = CharSet::One(c);
    assert forall|i: int| 0 <= i < (a + b).len() implies !set.has(#[trigger] (a + b)[i]) by {
        if i < a.len() {
            assert(!set.has(a[i]));
        } else {
            assert(!set.has(b[i - a.len()]));
        }
    }
}

/// An address between commas in the variable is a peer, wherever it stands in it and whatever white
/// space is round it.
pub proof fn lemma_variable_names_peer(
    variable: &str,
    before: Seq<char>,
    left: Seq<char>,
    ip: Ipv4Addr,
    right: Seq<char>,
    after: Seq<char>,
    registered: Set<Ipv4Addr>,
)
    requires
        forall|i: int| 0 <= i < left.len() ==> text::is_white(#[trigger] left[i]),
        forall|i: int| 0 <= i < right.len() ==> text::is_white(#[trigger] right[i]),
        ({
            let item = left + ip.dotted() + right;
            ||| variable@ == item
            ||| variable@ == item.push(',') + after
            ||| variable@ == before.push(',') + item
            ||| variable@ == before.push(',') + (item.push(',') + after)
        }),
    ensures
        is_peer(Some(variable), None, None, registered, ip),
{
    let set = CharSet::One(',');
    let item = left + ip.dotted() + right;
    lemma_dotted_is_plain(ip);
    lemma_blank_free(left, ',');
    lemma_blank_free(right, ',');
    lemma_free_sum(left, ip.dotted(), ',');
    lemma_free_sum(left + ip.dotted(), right, ',');
    assert forall|i: int| 0 <= i < left.len() implies CharSet::White.has(#[trigger] left[i]) by {
        assert(text::is_white(left[i]));
    }
    assert forall|i: int| 0 <= i < right.len() implies CharSet::White.has(#[trigger] right[i]) by {
        assert(text::is_white(right[i]));
    }
    text::lemma_strip_is(left, ip.dotted(), right, CharSet::White);
    net::lemma_ipv4_reads_back(ip);
    text::lemma_split_free(item, set);
    text::lemma_split_concat(item, ',', after, set);
    text::lemma_split_concat(before, ',', item, set);
    text::lemma_split_concat(before, ',', item.push(',') + after, set);
    let items = text::split_of(variable@, set);
    let n = text::split_of(before, set).len() as int;
    if variable@ == item || variable@ == item.push(',') + after {
        assert(items[0] == item);
    } else {
        assert(items[n] == item);
    }
}

/// An address on a line of its own in the file is a peer; a line that begins with `#` names none.
pub proof fn lemma_file_names_peer(
    file: &str,
    k: int,
    left: Seq<char>,
    ip: Ipv4Addr,
    right: Seq<char>,
    comment: Seq<char>,
    registered: Set<Ipv4Addr>,
)
    requires
        forall|i: int| 0 <= i < left.len() ==> text::is_white(#[trigger] left[i]),
        forall|i: int| 0 <= i < right.len() ==> text::is_white(#[trigger] right[i]),
        0 <= k < text::lines_of(file@).len(),
        text::lines_of(file@)[k] == left + ip.dotted() + right,
    ensures
        is_peer(None, Some(file), None, registered, ip),
        peer_line("#"@ + comment) is None,
        peer_line(left) is None,
{
    reveal_strlit("#");
    lemma_dotted_is_plain(ip);
    assert forall|i: int| 0 <= i < left.len() implies CharSet::White.has(#[trigger] left[i]) by {
        assert(text::is_white(left[i]));
    }
    assert forall|i: int| 0 <= i < right.len() implies CharSet::White.has(#[trigger] right[i]) by {
        assert(text::is_white(right[i]));
    }
    text::lemma_strip_is(left, ip.dotted(), right, CharSet::White);
    net::lemma_ipv4_reads_back(ip);
    assert(peer_line(text::lines_of(file@)[k]) == Some(ip));
    let none = Seq::<char>::empty();
    text::lemma_strip_is(left, none, none, CharSet::White);
    assert(left + none + none =~= left);
    let line = "#"@ + comment;
    text::lemma_trim_start_is(none, line, CharSet::White);
    assert(none + line =~= line);
    lemma_trimmed_start(line);
}

proof fn lemma_trimmed_start(line: Seq<char>)
    requires
        line.len() > 0,
        !text::is_white(line[0]),
    ensures
        text::trim_end_of(line, CharSet::White).len() > 0,
        text::trim_end_of(line, CharSet::White)[0] == line[0],
    decreases line.len(),
{
    if text::is_white(line.last()) {
        lemma_trimmed_start(line.drop_last());
    }
}

/// An address of Tailscale that the status lists first in an array of `TailscaleIPs` is a peer; one
/// that is not Tailscale's is none.
pub proof fn lemma_status_names_peer(
    before: Seq<char>,
    ip: Ipv4Addr,
    more: Seq<char>,
    after: Seq<char>,
    registered: Set<Ipv4Addr>,
)
    requires
        !text::contains(before + "\"TailscaleIPs\":"@, "\"TailscaleIPs\":["@),
        more.len() > 0 ==> more[0] == ',',
        text::free_of(more, CharSet::One(']')),
        text::free_of(more, CharSet::One('T')),
    ensures
        ({
            let inner = "\""@ + ip.dotted() + "\""@ + more;
            let status = before + "\"TailscaleIPs\":["@ + (inner + "]"@ + after);
            &&& ip.a == 100 && 64 <= ip.b <= 127 ==> is_peer(
                None,
                None,
                Some(status),
                registered,
                ip,
            )
            &&& !(ip.a == 100 && 64 <= ip.b <= 127) && !registered.contains(ip) ==> !is_peer(
                None,
                None,
                Some(status),
                registered,
                ip,
            )
        }),
{
    let pat = "\"TailscaleIPs\":["@;
    let item = "\""@ + ip.dotted() + "\""@;
    let inner = item + more;
    let tail = inner + "]"@ + after;
    let status = before + pat + tail;
    lemma_array_begins(before, tail);
    let chunks = text::split_at_of(status, pat);
    lemma_dotted_is_plain(ip);
    reveal_strlit("\"");
    assert(text::free_of("\""@, CharSet::One(']')));
    assert(text::free_of("\""@, CharSet::One('T')));
    lemma_free_sum("\""@, ip.dotted(), ']');
    lemma_free_sum("\""@ + ip.dotted(), "\""@, ']');
    lemma_free_sum(item, more, ']');
    lemma_free_sum("\""@, ip.dotted(), 'T');
    lemma_free_sum("\""@ + ip.dotted(), "\""@, 'T');
    lemma_free_sum(item, more, 'T');
    lemma_array_is_whole(inner, after, pat);
    lemma_array_items(item, inner, more, ip);
    let chunk = text::split_at_of(tail, pat)[0];
    assert(chunks[1] == chunk);
    assert(array_lists(chunk, ip));
}

proof fn lemma_array_begins(before: Seq<char>, tail: Seq<char>)
    requires
        !text::contains(before + "\"TailscaleIPs\":"@, "\"TailscaleIPs\":["@),
    ensures
        ({
            let pat = "\"TailscaleIPs\":["@;
            text::split_at_of(before + pat + tail, pat) == seq![before] + text::split_at_of(tail, pat)
        }),
{
    let pat = "\"TailscaleIPs\":["@;
    assert(pat =~= "\"TailscaleIPs\":"@.push('[')) by {
        reveal_strlit("\"TailscaleIPs\":[");
        reveal_strlit("\"TailscaleIPs\":");
    }
    text::lemma_found_first(before, "\"TailscaleIPs\":"@, '[', tail);
    assert(pat.len() > 0);
    assert(pat.len() == "\"TailscaleIPs\":"@.len() + 1);
}

proof fn lemma_array_items(
    item: Seq<char>,
    inner: Seq<char>,
    more: Seq<char>,
    ip: Ipv4Addr,
)
    requires
        item == "\""@ + ip.dotted() + "\""@,
        inner == item + more,
        more.len() > 0 ==> more[0] == ',',
    ensures
        text::split_of(inner, CharSet::One(','))[0] == item,
        text::split_of(inner, CharSet::One(',')).len() > 0,
        net::ipv4_of(text::strip_of(text::trim_of(item), CharSet::One('"'))) == Some(ip),
{
    reveal_strlit("\"");
    lemma_dotted_is_plain(ip);
    let set = CharSet::One(',');
    assert(text::free_of("\""@, set));
    lemma_free_sum("\""@, ip.dotted(), ',');
    lemma_free_sum("\""@ + ip.dotted(), "\""@, ',');
    text::lemma_split_free(item, set);
    if more.len() > 0 {
        text::lemma_split_concat(item, ',', more.skip(1), set);
        assert(inner =~= item.push(',') + more.skip(1));
    } else {
        assert(inner =~= item);
    }
    text::lemma_split_nonempty(inner, set);
    text::lemma_strip_keeps(item, CharSet::White);
    text::lemma_strip_is("\""@, ip.dotted(), "\""@, CharSet::One('"'));
    net::lemma_ipv4_reads_back(ip);
}

proof fn lemma_array_is_whole(inner: Seq<char>, after: Seq<char>, pat: Seq<char>)
    requires
        pat == "\"TailscaleIPs\":["@,
        text::free_of(inner, CharSet::One(']')),
        text::free_of(inner, CharSet::One('T')),
    ensures
        ({
            let chunk = text::split_at_of(inner + "]"@ + after, pat)[0];
            &&& text::split_at_of(inner + "]"@ + after, pat).len() > 0
            &&& text::find_of(chunk, "]"@) == Some(inner.len() as int)
            &&& chunk.take(inner.len() as int) == inner
        }),
{
    reveal_strlit("\"TailscaleIPs\":[");
    reveal_strlit("]");
    let tail = inner + "]"@ + after;
    let m = inner.len() as int;
    text::lemma_find_some(tail, pat);
    let chunk = text::split_at_of(tail, pat)[0];
    if text::find_of(tail, pat) is Some {
        let j = text::find_of(tail, pat)->0;
        assert(tail.subrange(j, j + pat.len()) == pat);
        assert(tail.subrange(j, j + pat.len())[1] == tail[j + 1]);
        assert(tail.subrange(j, j + pat.len())[0] == tail[j]);
        if j + 1 < m {
            assert(!CharSet::One('T').has(inner[j + 1]));
        }
        assert(j > m);
        assert(chunk == tail.take(j));
    } else {
        assert(chunk == tail);
    }
    assert(chunk.subrange(m, m + 1) =~= "]"@);
    assert forall|k: int| 0 <= k < m implies !text::occurs_at(chunk, "]"@, k) by {
        if text::occurs_at(chunk, "]"@, k) {
            assert(chunk.subrange(k, k + 1)[0] == inner[k]);
            assert(!CharSet::One(']').has(inner[k]));
        }
    }
    text::lemma_find_is(chunk, "]"@, m);
    assert(chunk.take(m) =~= inner);
}

/// Whoever was met is a peer; whoever no source names is none.
pub proof fn lemma_met_are_peers(registered: Set<Ipv4Addr>, ip: Ipv4Addr)
    ensures
        is_peer(None, None, None, registered, ip) <==> registered.contains(ip),
{
}

} // verus!
