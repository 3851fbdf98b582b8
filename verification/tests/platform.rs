use playpnp::net::Ipv4Addr;
use playpnp::platform::{
    config_dir, config_dir_on, default_gateway, gateway_in_ip_route, gateway_in_proc_route,
    gateway_in_route_print, hostname, is_virtual_iface, is_windows_separator, open_url, peers_hint, peers_hint_on,
    server_header, server_header_on, vlc_args, vlc_args_on, vlc_candidates, vlc_candidates_on,
};

fn windows() -> bool {
    std::path::MAIN_SEPARATOR == '\\'
}

#[test]
fn virtual_iface_filter_covers_linux_names() {
    for name in [
        "docker0", "vethabc", "virbr0", "br-1234", "wg0", "tun0", "lxcbr0",
    ] {
        assert!(is_virtual_iface(name), "{}", name);
    }
    for name in ["wlo1", "wlan0", "eth0", "enp3s0", "tailscale0"] {
        assert!(!is_virtual_iface(name), "{}", name);
    }
}

#[test]
fn the_separator_tells_the_platform() {
    assert!(is_windows_separator('\\') && !is_windows_separator('/'));
    let here = is_windows_separator(std::path::MAIN_SEPARATOR);
    assert_eq!(server_header(), server_header_on(here));
    assert_eq!(vlc_candidates(), vlc_candidates_on(here));
}

#[test]
fn vlc_args_differ_per_os() {
    let args = vlc_args(52422, "rc");
    assert!(args.contains(&"--fullscreen".to_string()));
    if windows() {
        assert!(args.contains(&"--rc-quiet".to_string()));
    } else {
        assert!(!args.contains(&"--rc-quiet".to_string()));
    }
}

#[test]
fn vlc_args_name_the_port_and_the_interface() {
    let args = vlc_args_on(false, 52422, "oldrc");
    assert_eq!(
        args,
        [
            "--extraintf",
            "oldrc",
            "--rc-host",
            "127.0.0.1:52422",
            "--no-video-title-show",
            "--fullscreen",
            "--audio-language=en,eng,English",
            "--network-caching=5000",
            "--file-caching=3000",
            "--live-caching=3000",
            "--http-reconnect",
            "--clock-jitter=5000",
        ]
    );
    let on_windows = vlc_args_on(true, 52422, "oldrc");
    assert_eq!(on_windows[..12], args[..]);
    assert_eq!(on_windows[12..], ["--rc-quiet", "--avcodec-hw=any"]);
}

#[test]
fn this_platform_is_one_of_the_two() {
    assert_eq!(vlc_candidates(), vlc_candidates_on(windows()));
    assert_eq!(vlc_args(1, "rc"), vlc_args_on(windows(), 1, "rc"));
    assert_eq!(server_header(), server_header_on(windows()));
    assert_eq!(peers_hint(), peers_hint_on(windows()));
    let home = Some("/home/a".to_string());
    assert_eq!(
        config_dir(None, None, home.clone()),
        config_dir_on(windows(), None, None, home)
    );
    assert_ne!(server_header_on(true), server_header_on(false));
    assert_eq!(peers_hint_on(true), r"%APPDATA%\playpnp\peers.txt");
}

#[test]
fn config_dir_prefers_xdg_over_home() {
    let some = |s: &str| Some(s.to_string());
    assert_eq!(
        config_dir_on(false, some("C:"), some("/x"), some("/h")),
        ["/x", "playpnp"]
    );
    assert_eq!(
        config_dir_on(false, some("C:"), some(""), some("/h")),
        ["/h", ".config", "playpnp"]
    );
    assert_eq!(config_dir_on(false, some("C:"), None, None), [".", "playpnp"]);
    assert_eq!(
        config_dir_on(true, some("C:"), some("/x"), some("/h")),
        ["C:", "playpnp"]
    );
    assert_eq!(
        config_dir_on(true, some(""), some("/x"), some("/h")),
        [".", "playpnp"]
    );
}

#[test]
fn hostname_takes_the_first_source() {
    let some = |s: &str| Some(s.to_string());
    assert_eq!(hostname(some("A"), some("B"), some("C"), some("D")), "A");
    assert_eq!(hostname(some(""), some("B"), some("C"), some("D")), "B");
    assert_eq!(hostname(None, None, some("C"), some("D")), "C");
    assert_eq!(hostname(None, None, None, some(" box \n")), "box");
    assert_eq!(hostname(None, None, None, some(" \n")), "PC");
    assert_eq!(hostname(None, None, None, None), "PC");
}

#[test]
fn gateway_from_ip_route() {
    assert_eq!(
        gateway_in_ip_route("default via 192.168.1.1 dev wlo1 proto dhcp\n"),
        Some(Ipv4Addr::new(192, 168, 1, 1))
    );
    assert_eq!(
        gateway_in_ip_route("default via nowhere via 127.0.0.1 via 10.0.0.1\n"),
        Some(Ipv4Addr::new(10, 0, 0, 1))
    );
    assert_eq!(gateway_in_ip_route("default dev tun0 via\n"), None);
    assert_eq!(gateway_in_ip_route(""), None);
}

#[test]
fn gateway_from_proc_net_route() {
    let table = "Iface\tDestination\tGateway\n\
                 wlo1\t0001A8C0\t00000000\n\
                 wlo1\t00000000\t0101A8C0\t0003\n";
    assert_eq!(
        gateway_in_proc_route(table),
        Some(Ipv4Addr::new(192, 168, 1, 1))
    );
    // The heading does not count.
    assert_eq!(gateway_in_proc_route("a 00000000 0101A8C0\n"), None);
    assert_eq!(gateway_in_proc_route("h\nwlo1 00000000 00000000\n"), None);
    assert_eq!(gateway_in_proc_route("h\nwlo1 00000000 10101A8C0\n"), None);
    assert_eq!(gateway_in_proc_route("h\nwlo1 00000000 xyz\n"), None);
    assert_eq!(
        gateway_in_proc_route("h\nwlo1 00000000 0101A8C0F\n"),
        Some(Ipv4Addr::new(15, 140, 26, 16))
    );
    assert_eq!(
        gateway_in_proc_route("h\nwlo1 00000000 +102b00a\n"),
        Some(Ipv4Addr::new(10, 176, 2, 1))
    );
}

#[test]
fn gateway_from_route_print() {
    let table = "Network Destination  Netmask  Gateway  Interface  Metric\r\n\
                 \x20 0.0.0.0  0.0.0.0  On-link  10.0.0.2  5\r\n\
                 \x20 0.0.0.0  0.0.0.0  192.168.43.1  192.168.43.100  35\r\n";
    assert_eq!(
        gateway_in_route_print(table),
        Some(Ipv4Addr::new(192, 168, 43, 1))
    );
    assert_eq!(gateway_in_route_print("0.0.0.0 0.0.0.0 10.0.0.1\n"), None);
}

#[test]
fn default_gateway_asks_unix_first() {
    let ip = b"default via 10.1.1.1 dev a".as_slice();
    let proc_table = "h\na 00000000 0101A8C0\n";
    let print = b"0.0.0.0 0.0.0.0 172.16.0.1 x 1".as_slice();
    let a = Some(Ipv4Addr::new(10, 1, 1, 1));
    let b = Some(Ipv4Addr::new(192, 168, 1, 1));
    let c = Some(Ipv4Addr::new(172, 16, 0, 1));
    assert_eq!(default_gateway(false, Some(ip), Some(proc_table), Some(print)), a);
    assert_eq!(default_gateway(false, None, Some(proc_table), Some(print)), b);
    assert_eq!(default_gateway(false, None, None, Some(print)), c);
    assert_eq!(default_gateway(true, Some(ip), Some(proc_table), Some(print)), c);
    assert_eq!(default_gateway(true, Some(ip), Some(proc_table), None), None);
    // Bytes that are no text do not hide the rest.
    let broken = b"\xff\n0.0.0.0 0.0.0.0 172.16.0.1 x 1".as_slice();
    assert_eq!(default_gateway(true, None, None, Some(broken)), c);
}

#[test]
fn urls_are_opened_by_the_platform() {
    assert_eq!(open_url(true, false, "u"), ["cmd", "/C", "start", "", "u"]);
    assert_eq!(open_url(false, true, "u"), ["open", "u"]);
    assert_eq!(open_url(false, false, "u"), ["xdg-open", "u"]);
}
