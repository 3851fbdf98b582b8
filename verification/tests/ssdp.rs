use playpnp::config::{NetworkEndpoint, Peers, get_registered_peers};
use playpnp::net::{IpAddr, Ipv4Addr};
use playpnp::ssdp::{
    MAX_AGE, MULTICAST_PORT, SsdpServer, Target, announce_delay, extract_header, holds_search,
    is_msearch, multicast_addr,
};
use playpnp::time::Duration;

const UDN: &str = "uuid:01234567-89ab-cdef-0123-456789abcdef";

fn ip(a: u8, b: u8, c: u8, d: u8) -> Ipv4Addr {
    Ipv4Addr::new(a, b, c, d)
}

fn server() -> SsdpServer {
    SsdpServer::on_platform(
        false,
        UDN.to_string(),
        "playpnp (box)".to_string(),
        IpAddr::V4(ip(10, 0, 0, 1)),
        8080,
    )
}

fn endpoint(addr: Ipv4Addr, ts: bool) -> NetworkEndpoint {
    NetworkEndpoint {
        name: "e".to_string(),
        ip: addr,
        netmask: None,
        broadcast: if ts { None } else { Some(ip(addr.a, addr.b, addr.c, 255)) },
        gateway: if ts { None } else { Some(ip(addr.a, addr.b, addr.c, 1)) },
        is_tailscale: ts,
        is_primary: false,
    }
}

#[test]
fn a_notice_in_full() {
    assert_eq!(
        server().notify_message_for_ip(ip(10, 0, 0, 1), "nt", "usn", "ssdp:alive"),
        format!(
            "NOTIFY * HTTP/1.1\r\nHOST: {}:{}\r\nCACHE-CONTROL: max-age={}\r\nLOCATION: http://10.0.0.1:8080/description.xml\r\nNT: nt\r\nNTS: ssdp:alive\r\nSERVER: Linux UPnP/1.0 playpnp/1.0\r\nUSN: usn\r\nBOOTID.UPNP.ORG: 1\r\nCONFIGID.UPNP.ORG: 1\r\n\r\n",
            multicast_addr().to_text(),
            MULTICAST_PORT,
            MAX_AGE
        )
    );
    let new = SsdpServer::new(UDN.to_string(), "f".to_string(), IpAddr::V6, 1);
    assert_eq!((new.config_uuid.as_str(), new.http_port), (UDN, 1));
}

#[test]
fn unique_service_names() {
    let s = server();
    assert_eq!(s.usn_root(), format!("{}::upnp:rootdevice", UDN));
    assert_eq!(s.usn_renderer(), format!("{}::urn:schemas-upnp-org:device:MediaRenderer:1", UDN));
    assert_eq!(s.usn_avtransport(), format!("{}::urn:schemas-upnp-org:service:AVTransport:1", UDN));
    assert_eq!(s.usn_rendering(), format!("{}::urn:schemas-upnp-org:service:RenderingControl:1", UDN));
    assert_eq!(s.usn_connection(), format!("{}::urn:schemas-upnp-org:service:ConnectionManager:1", UDN));
    assert_eq!(s.usn_of(Target::Device), UDN);
}

#[test]
fn byebye_mirrors_alive() {
    let s = server();
    let alive = s.alive_messages_for_ip(ip(10, 0, 0, 1));
    let byebye = s.byebye_messages_for_ip(ip(10, 0, 0, 1));
    assert_eq!(alive.len(), 6);
    for (a, b) in alive.iter().zip(&byebye) {
        assert_eq!(&a.replace("ssdp:alive", "ssdp:byebye"), b);
        assert_ne!(a, b);
    }
    assert!(alive[1].contains(&format!("NT: {}\r\n", UDN)));
    assert!(alive[1].contains(&format!("USN: {}\r\n", UDN)));
}

#[test]
fn searches_are_matched() {
    let s = server();
    let found = |st: &str| {
        s.msearch_response_for_ip(st, ip(10, 0, 0, 1)).map(|r| {
            let a = r.find("ST: ").unwrap() + 4;
            r[a..a + r[a..].find("\r\n").unwrap()].to_string()
        })
    };
    assert_eq!(found("SSDP:ALL").unwrap(), "upnp:rootdevice");
    assert_eq!(found(" \"upnp:rootdevice\" ").unwrap(), "upnp:rootdevice");
    assert_eq!(found(&UDN.to_uppercase()).unwrap(), UDN);
    assert_eq!(found("urn:x:MediaRenderer:2").unwrap(), "urn:schemas-upnp-org:device:MediaRenderer:1");
    assert_eq!(found("AVTRANSPORT").unwrap(), "urn:schemas-upnp-org:service:AVTransport:1");
    assert_eq!(found("é renderingControl").unwrap(), "urn:schemas-upnp-org:service:RenderingControl:1");
    assert_eq!(found("'connectionmanager'").unwrap(), "urn:schemas-upnp-org:service:ConnectionManager:1");
    assert_eq!(found("urn:x:MediaServer:1"), None);
    assert_eq!(found(""), None);
    assert_eq!(s.target_for("x", "mediarenderer"), Some(Target::Renderer));
    assert_eq!(s.target_for("mediarenderer", "x"), None);
    assert_eq!(
        s.msearch_response_for_ip("ssdp:all", ip(10, 0, 0, 1)).unwrap(),
        format!("HTTP/1.1 200 OK\r\nCACHE-CONTROL: max-age=1800\r\nEXT:\r\nLOCATION: http://10.0.0.1:8080/description.xml\r\nSERVER: Linux UPnP/1.0 playpnp/1.0\r\nST: upnp:rootdevice\r\nUSN: {}::upnp:rootdevice\r\nBOOTID.UPNP.ORG: 1\r\nCONFIGID.UPNP.ORG: 1\r\n\r\n", UDN)
    );
}

#[test]
fn everything_that_is_announced_is_found() {
    let s = server();
    let all = s.msearch_responses_for_all_for_ip(ip(10, 0, 0, 1)).unwrap();
    for (notice, answer) in s.alive_messages_for_ip(ip(10, 0, 0, 1)).iter().zip(&all) {
        let field = |m: &str, name: &str| extract_header(m, name).unwrap();
        assert_eq!(field(notice, "NT"), field(answer, "st"));
        assert_eq!(field(notice, "usn"), field(answer, "USN"));
        assert_eq!(field(notice, "location"), field(answer, "LOCATION"));
    }
    assert_eq!(all.len(), 6);
    // A name with a quote at its end cannot be searched for.
    let odd = SsdpServer::on_platform(false, "x\"".to_string(), "f".to_string(), IpAddr::V6, 1);
    assert!(odd.msearch_responses_for_all_for_ip(ip(10, 0, 0, 1)).is_none());
}

#[test]
fn headers() {
    let m = "M-SEARCH * HTTP/1.1\r\nno colon\r\n st : a:b \r\nST: c\r\n\r\n";
    assert_eq!(extract_header(m, "ST"), Some("a:b".to_string()));
    assert_eq!(extract_header(m, "MX"), None);
    assert_eq!(extract_header("ST:", "ST"), Some("".to_string()));
}

#[test]
fn datagrams() {
    let s = server();
    let endpoints = [endpoint(ip(192, 168, 1, 2), false), endpoint(ip(10, 0, 0, 2), false)];
    let mut peers = Peers::new();
    let from = IpAddr::V4(ip(10, 0, 0, 77));
    let ask = |peers: &mut Peers, data: &[u8]| s.handle_datagram(data, from, peers, &endpoints).unwrap();
    assert!(ask(&mut peers, b"NOTIFY * HTTP/1.1\r\nST: ssdp:all\r\n").is_empty());
    assert!(ask(&mut peers, b"M-SEARCH \xff\r\nST: ssdp:all\r\n").is_empty());
    assert!(get_registered_peers(&peers).is_empty());
    assert_eq!(ask(&mut peers, b"m-search * HTTP/1.1\r\nST: ssdp:all\r\n\r\n").len(), 6);
    assert_eq!(get_registered_peers(&peers), [ip(10, 0, 0, 77)]);
    let one = ask(&mut peers, "M-SEARCH é\r\nST: \"urn:x:AVTransport:1\"\r\n\r\n".as_bytes());
    assert_eq!(one.len(), 1);
    assert!(one[0].contains("LOCATION: http://10.0.0.2:8080/description.xml"));
    assert!(ask(&mut peers, b"M-SEARCH\r\n\r\n").is_empty());
    let six = s.handle_msearch("ST: ssdp:all", IpAddr::V6, &mut peers, &endpoints).unwrap();
    assert!(six[0].contains("http://192.168.1.2:8080/"));
    assert_eq!(get_registered_peers(&peers).len(), 1);
    assert!(is_msearch(b"m-Search") && !is_msearch(b"M-SEARCH \xff") && !is_msearch(b"NOTIFY"));
    assert!(holds_search("X M-SEARCH Y") && !holds_search("m-search"));
}

#[test]
fn announcements_go_everywhere() {
    let s = server();
    let endpoints = [endpoint(ip(192, 168, 43, 2), false), endpoint(ip(100, 64, 0, 2), true)];
    let plan = s.alive_plan(&endpoints);
    assert_eq!(plan.len(), 2);
    assert_eq!(plan[0].from, ip(192, 168, 43, 2));
    assert_eq!(
        plan[0].to,
        [ip(239, 255, 255, 250), ip(192, 168, 43, 255), ip(192, 168, 43, 1)]
    );
    assert_eq!(plan[0].messages, s.alive_messages_for_ip(ip(192, 168, 43, 2)));
    assert_eq!(plan[1].to, [ip(239, 255, 255, 250)]);
    let bye = s.byebye_plan(&endpoints);
    assert_eq!(bye[0].to, plan[0].to);
    assert_eq!(bye[1].messages, s.byebye_messages_for_ip(ip(100, 64, 0, 2)));
    let peers = vec![ip(100, 64, 0, 9)];
    let d = s.peer_plan(&endpoints, &peers).unwrap();
    assert_eq!((d.from, d.to), (ip(100, 64, 0, 2), peers.clone()));
    assert_eq!(s.peer_plan(&endpoints[..1], &peers).unwrap().from, ip(192, 168, 43, 2));
    assert!(s.peer_plan(&endpoints, &Vec::new()).is_none());
    assert!(s.peer_plan(&[], &peers).is_none());
    let delays: Vec<Duration> = (0..5).map(announce_delay).collect();
    assert_eq!(delays[0], Duration::zero());
    assert_eq!(delays[1], Duration::from_millis(250));
    assert_eq!(delays[2], Duration::from_millis(250));
    assert_eq!(delays[3], Duration::from_secs(30));
    assert_eq!(delays[4], Duration::from_secs(30));
}
