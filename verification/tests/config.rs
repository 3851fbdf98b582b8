use playpnp::config::{
    Interface, InterfaceAddr, NetworkEndpoint, NetworkFacts, Peers, endpoint_of,
    get_candidate_endpoints, get_candidate_ips, get_registered_peers, get_tailscale_peers,
    is_link_local, is_tailscale_ip, is_virtualbox_ip, local_ip, peers_from, pick_ip_for_target,
    probe_route_ip, register_peer,
};
use playpnp::net::{IpAddr, Ipv4Addr};

fn ip(a: u8, b: u8, c: u8, d: u8) -> Ipv4Addr {
    Ipv4Addr::new(a, b, c, d)
}

fn iface(name: &str, addr: Ipv4Addr) -> Interface {
    Interface {
        name: name.to_string(),
        is_loopback: addr.is_loopback(),
        address: Some(InterfaceAddr {
            ip: addr,
            netmask: ip(255, 255, 255, 0),
            broadcast: Some(ip(addr.a, addr.b, addr.c, 255)),
        }),
    }
}

fn facts() -> NetworkFacts {
    NetworkFacts {
        default_gateway: Some(ip(192, 168, 1, 254)),
        primary_probe: Some(IpAddr::V4(ip(192, 168, 1, 10))),
        tailscale_probe: Some(IpAddr::V4(ip(100, 80, 1, 2))),
        interfaces: vec![
            iface("lo", ip(127, 0, 0, 1)),
            iface("apipa", ip(169, 254, 1, 1)),
            iface("host-only", ip(192, 168, 56, 1)),
            iface("Docker0", ip(172, 17, 0, 1)),
            iface("eth1", ip(172, 20, 0, 5)),
            iface("eth2", ip(10, 0, 0, 5)),
            iface("Tailscale", ip(10, 9, 9, 9)),
            iface("eth3", ip(192, 168, 7, 5)),
            iface("wlo1", ip(192, 168, 1, 10)),
            Interface { name: "six".to_string(), is_loopback: false, address: None },
        ],
    }
}

#[test]
fn special_addresses() {
    assert!(is_virtualbox_ip(&ip(192, 168, 56, 7)) && !is_virtualbox_ip(&ip(192, 168, 57, 7)));
    assert!(is_link_local(&ip(169, 254, 0, 1)) && !is_link_local(&ip(169, 253, 0, 1)));
    assert!(is_tailscale_ip(&ip(100, 64, 0, 1)) && is_tailscale_ip(&ip(100, 127, 255, 255)));
    assert!(!is_tailscale_ip(&ip(100, 63, 0, 1)) && !is_tailscale_ip(&ip(100, 128, 0, 1)));
    assert_eq!(probe_route_ip(Some(IpAddr::V4(ip(127, 0, 0, 1)))), None);
    assert_eq!(probe_route_ip(Some(IpAddr::V4(ip(0, 0, 0, 0)))), None);
    assert_eq!(probe_route_ip(Some(IpAddr::V6)), None);
    assert_eq!(probe_route_ip(None), None);
    assert_eq!(probe_route_ip(Some(IpAddr::V4(ip(1, 2, 3, 4)))), Some(ip(1, 2, 3, 4)));
}

#[test]
fn endpoints_are_filtered_and_ordered() {
    let endpoints = get_candidate_endpoints(None, &facts());
    let ips: Vec<String> = endpoints.iter().map(|e| e.ip.to_text()).collect();
    assert_eq!(
        ips,
        ["192.168.1.10", "192.168.7.5", "10.0.0.5", "172.20.0.5", "10.9.9.9", "100.80.1.2"]
    );
    assert_eq!(get_candidate_ips(None, &facts()).len(), 6);
    assert!(endpoints[0].is_primary && !endpoints[1].is_primary);
    assert_eq!(endpoints[0].gateway, Some(ip(192, 168, 1, 254)));
    assert_eq!(endpoints[1].gateway, Some(ip(192, 168, 7, 1)));
    assert_eq!(endpoints[1].broadcast, Some(ip(192, 168, 7, 255)));
    // An interface of the name is Tailscale's, whatever its address.
    assert!(endpoints[4].is_tailscale);
    assert_eq!(endpoints[4].gateway, None);
    assert_eq!(endpoints[5].name, "Tailscale (Probed)");
    assert_eq!(endpoints[5].netmask, Some(ip(255, 192, 0, 0)));
}

#[test]
fn a_probed_address_is_added_once() {
    let mut f = facts();
    f.interfaces.push(iface("ts0", ip(100, 80, 1, 2)));
    let endpoints = get_candidate_endpoints(None, &f);
    assert_eq!(endpoints.iter().filter(|e| e.ip == ip(100, 80, 1, 2)).count(), 1);
    f.tailscale_probe = Some(IpAddr::V4(ip(8, 8, 8, 8)));
    assert!(get_candidate_endpoints(None, &f).iter().all(|e| e.ip != ip(8, 8, 8, 8)));
}

#[test]
fn a_pinned_address_is_the_only_endpoint() {
    let endpoints = get_candidate_endpoints(Some("100.64.3.4"), &facts());
    assert_eq!(endpoints.len(), 1);
    let e: &NetworkEndpoint = &endpoints[0];
    assert_eq!((e.name.as_str(), e.ip), ("Forced", ip(100, 64, 3, 4)));
    assert_eq!(e.broadcast, Some(ip(100, 64, 3, 255)));
    assert!(e.is_primary && e.is_tailscale && e.gateway.is_none());
    // What is no address pins nothing.
    assert_eq!(get_candidate_endpoints(Some(" 1.2.3.4"), &facts()).len(), 6);
    assert_eq!(
        pick_ip_for_target(&endpoints, IpAddr::V4(ip(9, 9, 9, 9))),
        ip(100, 64, 3, 4)
    );
}

#[test]
fn interface_names_are_matched_in_small_letters() {
    let i = iface("VMware Adapter", ip(10, 0, 0, 1));
    assert!(endpoint_of(&i, "vmware adapter", None, None).is_none());
    assert!(endpoint_of(&i, "other", None, None).is_some());
    let mut f = facts();
    f.interfaces = vec![iface("VMWARE", ip(10, 0, 0, 1)), iface("Ünet", ip(10, 0, 0, 2))];
    let names: Vec<String> = get_candidate_endpoints(None, &f).into_iter().map(|e| e.name).collect();
    assert_eq!(names, ["Ünet", "Tailscale (Probed)"]);
}

#[test]
fn the_advertised_address() {
    let endpoints = get_candidate_endpoints(None, &facts());
    let probe = Some(IpAddr::V4(ip(192, 168, 1, 10)));
    let system = Some(IpAddr::V4(ip(10, 1, 1, 1)));
    let v = |a| IpAddr::V4(a);
    assert_eq!(local_ip(Some("1.2.3.4"), probe, system, &endpoints), v(ip(1, 2, 3, 4)));
    assert_eq!(local_ip(None, probe, system, &endpoints), v(ip(192, 168, 1, 10)));
    let virtual_probe = Some(IpAddr::V4(ip(192, 168, 56, 1)));
    assert_eq!(local_ip(None, virtual_probe, system, &endpoints), v(ip(10, 1, 1, 1)));
    let link_local = Some(IpAddr::V4(ip(169, 254, 1, 1)));
    assert_eq!(local_ip(None, None, link_local, &endpoints), v(ip(192, 168, 1, 10)));
    assert_eq!(local_ip(None, None, Some(IpAddr::V6), &[]), v(ip(127, 0, 0, 1)));
}

#[test]
fn a_target_is_answered_from_the_nearest_address() {
    let endpoints = get_candidate_endpoints(None, &facts());
    let pick = |a, b, c, d| pick_ip_for_target(&endpoints, IpAddr::V4(ip(a, b, c, d)));
    assert_eq!(pick(192, 168, 7, 77), ip(192, 168, 7, 5));
    assert_eq!(pick(192, 168, 99, 1), ip(192, 168, 1, 10));
    assert_eq!(pick(10, 0, 5, 5), ip(10, 0, 0, 5));
    assert_eq!(pick(100, 70, 1, 1), ip(10, 9, 9, 9));
    assert_eq!(pick(8, 8, 8, 8), ip(192, 168, 1, 10));
    assert_eq!(pick_ip_for_target(&endpoints, IpAddr::V6), ip(192, 168, 1, 10));
    assert_eq!(pick_ip_for_target(&[], IpAddr::V4(ip(8, 8, 8, 8))), ip(127, 0, 0, 1));
}

#[test]
fn peers_are_remembered_once() {
    let mut peers = Peers::new();
    assert!(register_peer(&mut peers, ip(10, 0, 0, 1)));
    assert!(!register_peer(&mut peers, ip(10, 0, 0, 1)));
    assert!(!register_peer(&mut peers, ip(127, 0, 0, 1)));
    assert!(!register_peer(&mut peers, ip(0, 0, 0, 0)));
    assert_eq!(get_registered_peers(&peers), [ip(10, 0, 0, 1)]);
}

#[test]
fn peers_come_from_all_sources() {
    let mut peers = Peers::new();
    register_peer(&mut peers, ip(10, 0, 0, 9));
    let status = r#"{"Self":{"TailscaleIPs":["100.64.0.1","fd7a::1"]},"Peer":{"x":{"TailscaleIPs":[ "100.64.0.2","10.0.0.7"]}}}"#;
    let file = "# 9.9.9.9\n\n 10.0.0.2 \nnope\n10.0.0.1\n";
    let mut list = get_tailscale_peers(
        Some("10.0.0.1, 192.168.43.1,x"),
        Some(file),
        Some(status.as_bytes()),
        &peers,
    );
    list.sort_by_key(|p| (p.a, p.b, p.c, p.d));
    assert_eq!(
        list,
        [
            ip(10, 0, 0, 1),
            ip(10, 0, 0, 2),
            ip(10, 0, 0, 9),
            ip(100, 64, 0, 1),
            ip(100, 64, 0, 2),
            ip(192, 168, 43, 1),
        ]
    );
    assert_eq!(peers_from(None, None, Some(status), &Peers::new()).len(), 2);
    // What comes before the first array counts up to its bracket, too.
    assert_eq!(
        peers_from(None, None, Some("100.64.9.9]"), &Peers::new()),
        [ip(100, 64, 9, 9)]
    );
    assert!(get_tailscale_peers(None, None, None, &Peers::new()).is_empty());
}
