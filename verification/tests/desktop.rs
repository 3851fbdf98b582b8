use playpnp::cli::{Command, InterfaceLine, command_of, diag_report, help_text, serve_banner};
use playpnp::config::{Config, NetworkEndpoint};
use playpnp::ipc::{
    CONTROL_ADDR, answer_bytes, answer_command, is_running_reply, is_running_text, may_wait, patience,
};
use playpnp::net::Ipv4Addr;
use playpnp::single_instance::{LockAttempt, lock_outcome, owner_line};
use playpnp::time::Duration;
use playpnp::tray::{
    HOVER_TEXT, ICON_SIZE, MenuItem, TrayAction, icon_rgba, item_text, status_text, tray_action,
};

#[test]
fn control_commands() {
    let stop = |c: &[u8]| answer_bytes(c, "Box", 7).stops;
    assert!(stop(b"STOP\n") && stop(b" stop ") && stop(b"Stop now"));
    assert!(!stop(b"STATUS\n") && !stop(b"") && !stop(b"NONSTOP"));
    assert_eq!(answer_bytes(b"STOP\n", "Box", 7).text, "OK stopping Box\n");
    assert_eq!(answer_bytes(b"status\r\n", "Box", 7).text, "OK running Box pid=7\n");
    assert_eq!(answer_bytes(b" hi \n", "Box", 7).text, "OK unknown command hi\n");
    assert_eq!(answer_bytes("é".as_bytes(), "Box", 7).text, "OK unknown command é\n");
    assert!(answer_command("x", "STOPPED", "Box", 7).stops);
    assert_eq!(CONTROL_ADDR, "127.0.0.1:52411");
}

#[test]
fn a_running_renderer_is_recognised() {
    assert!(is_running_reply(answer_bytes(b"STATUS", "Box", 7).text.as_bytes()));
    assert!(!is_running_reply(answer_bytes(b"STOP", "Box", 7).text.as_bytes()));
    assert!(!is_running_reply(answer_bytes(b"OK running ", "Box", 7).text.as_bytes()));
    assert!(is_running_text("\n OK running x"));
    assert!(!is_running_text("OK running") && !is_running_reply(b"\xff"));
}

#[test]
fn waiting_has_an_end() {
    let start = Duration::from_secs(100);
    assert_eq!(patience(), Duration::from_secs(5));
    assert!(may_wait(start, Duration::from_millis(104_999)));
    assert!(!may_wait(start, Duration::from_secs(105)));
}

#[test]
fn only_one_instance() {
    let dir = "/x";
    let path = "/x/playpnp.lock";
    let why = || "why".to_string();
    assert_eq!(lock_outcome(LockAttempt::Locked, dir, path), Ok(true));
    assert_eq!(lock_outcome(LockAttempt::Contended, dir, path), Ok(false));
    assert_eq!(
        lock_outcome(LockAttempt::NoDirectory(why()), dir, path),
        Err("cannot create /x: why".to_string())
    );
    assert_eq!(
        lock_outcome(LockAttempt::NotOpened(why()), dir, path),
        Err("cannot open /x/playpnp.lock: why".to_string())
    );
    assert_eq!(
        lock_outcome(LockAttempt::Failed(why()), dir, path),
        Err("cannot lock /x/playpnp.lock: why".to_string())
    );
    assert_eq!(owner_line(42), "pid=42\n");
}

/// Paints the icon stroke by stroke.
fn painted() -> Vec<u8> {
    let mut rgba = vec![0u8; 32 * 32 * 4];
    let mut dot = |x: i32, y: i32, c: [u8; 3]| {
        let i = ((y * 32 + x) * 4) as usize;
        rgba[i..i + 4].copy_from_slice(&[c[0], c[1], c[2], 255]);
    };
    for i in 0..=7 {
        dot(13 - i, 7 - i, [190, 195, 205]);
        dot(18 + i, 7 - i, [190, 195, 205]);
    }
    for x in [5, 6, 25, 26] {
        dot(x, 0, [220, 225, 235]);
    }
    for (x, y) in [
        (6, 27), (7, 27), (5, 28), (6, 28), (4, 29), (5, 29), (24, 27), (25, 27), (25, 28),
        (26, 28), (26, 29), (27, 29),
    ] {
        dot(x, y, [80, 85, 95]);
    }
    for y in 8..=26 {
        for x in 2..=29 {
            if (x <= 3 || x >= 28) && (y == 8 || y == 26) {
                continue;
            }
            let border = x == 2 || x == 29 || y == 8 || y == 26
                || (x == 3 && (y == 9 || y == 25))
                || (x == 28 && (y == 9 || y == 25));
            dot(x, y, if border { [70, 75, 85] } else { [42, 45, 52] });
        }
    }
    for y in 10..=24 {
        for x in 5..=22 {
            let c = if (x == 5 || x == 22) && (y == 10 || y == 24) {
                [42, 45, 52]
            } else if x == 5 || x == 22 || y == 10 || y == 24 {
                [22, 24, 28]
            } else if y == 11 && (7..=15).contains(&x) {
                [160, 225, 255]
            } else if y == 12 && (7..=12).contains(&x) {
                [110, 195, 255]
            } else if y >= 21 {
                [25, 120, 210]
            } else {
                [40, 155, 240]
            };
            dot(x, y, c);
        }
    }
    for y in [12, 16] {
        dot(25, y, [185, 190, 200]);
        dot(26, y, [240, 245, 255]);
        dot(27, y, [185, 190, 200]);
        dot(26, y - 1, [185, 190, 200]);
        dot(26, y + 1, [185, 190, 200]);
    }
    for x in 24..=27 {
        dot(x, 20, [20, 22, 26]);
        dot(x, 22, [20, 22, 26]);
    }
    rgba
}

#[test]
fn the_icon_is_a_television() {
    assert_eq!(icon_rgba().len() as u32, ICON_SIZE * ICON_SIZE * 4);
    assert_eq!(icon_rgba(), painted());
}

#[test]
fn the_menu() {
    let ip = Ipv4Addr::new(10, 0, 0, 1);
    assert_eq!(status_text("Box", ip, 80), "Box - 10.0.0.1:80");
    assert_eq!(item_text(MenuItem::Show), "Show Status");
    assert_eq!(item_text(MenuItem::Stop), "Stop");
    assert_eq!(item_text(MenuItem::Quit), "Quit");
    assert_eq!(HOVER_TEXT, "PlayPnP - DLNA MediaRenderer");
    assert!(matches!(tray_action(true, Some(MenuItem::Show), ip, 80), TrayAction::Exit));
    assert!(matches!(tray_action(false, None, ip, 80), TrayAction::Nothing));
    assert!(matches!(tray_action(false, Some(MenuItem::Stop), ip, 80), TrayAction::Shutdown));
    assert!(matches!(tray_action(false, Some(MenuItem::Quit), ip, 80), TrayAction::Shutdown));
    assert!(matches!(
        tray_action(false, Some(MenuItem::Show), ip, 80),
        TrayAction::Open(u) if u == "http://10.0.0.1:80/"
    ));
}

#[test]
fn words_of_the_command_line() {
    for (word, command) in [
        ("", Command::Start), ("start", Command::Start), ("serve", Command::Serve),
        ("__daemon", Command::Daemon), ("stop", Command::Stop), ("status", Command::Status),
        ("diag", Command::Diagnose), ("diagnose", Command::Diagnose), ("--diag", Command::Diagnose),
        ("help", Command::Help), ("--help", Command::Help), ("-h", Command::Help),
        ("version", Command::Version), ("--version", Command::Version), ("-V", Command::Version),
        ("Serve", Command::Unknown), ("-v", Command::Unknown),
    ] {
        assert_eq!(command_of(word), command, "{}", word);
    }
    assert!(help_text().starts_with("playpnp - DLNA MediaRenderer"));
    assert!(help_text().contains("  playpnp stop     Stop running daemon\n"));
}

fn endpoint(name: &str, ip: Ipv4Addr, primary: bool, ts: bool) -> NetworkEndpoint {
    NetworkEndpoint {
        name: name.to_string(),
        ip,
        netmask: Some(Ipv4Addr::new(255, 255, 255, 0)),
        broadcast: None,
        gateway: Some(Ipv4Addr::new(10, 0, 0, 254)),
        is_tailscale: ts,
        is_primary: primary,
    }
}

#[test]
fn what_serving_prints() {
    let config = Config::load(0, "box");
    let endpoints = [
        endpoint("a", Ipv4Addr::new(10, 0, 0, 1), true, true),
        endpoint("b", Ipv4Addr::new(100, 64, 0, 1), false, true),
        endpoint("c", Ipv4Addr::new(10, 0, 0, 3), false, false),
    ];
    assert_eq!(
        serve_banner("1.0.0", &config, Ipv4Addr::new(10, 0, 0, 1), &endpoints),
        "playpnp 1.0.0 serving in foreground...\n  FriendlyName: playpnp (box)\n  UDN: uuid:00000000-0000-0000-0000-000000000000\n  Primary IP: 10.0.0.1\n  Endpoints: 10.0.0.1 [primary], 100.64.0.1 [tailscale], 10.0.0.3\n  SSDP: multicast + broadcast + gateway unicast + Tailscale peer unicast\n  HTTP: 0.0.0.0:0 (ephemeral), description.xml uses dynamic URLBase from Host header\n  Control: 127.0.0.1:52411 for playpnp stop/status\n  Dashboard: http://10.0.0.1:<port>/ after startup\n  Press Ctrl+C or run 'playpnp stop' to stop.\n"
    );
}

#[test]
fn what_diagnosing_prints() {
    let ip = Ipv4Addr::new(10, 0, 0, 1);
    let endpoints = [endpoint("eth0", ip, true, false)];
    let interfaces = [
        InterfaceLine { name: "lo".to_string(), address: "::1".to_string(), ip: None, is_loopback: true },
        InterfaceLine { name: "eth0".to_string(), address: "10.0.0.1".to_string(), ip: Some(ip), is_loopback: false },
        InterfaceLine { name: "x".to_string(), address: "fe80::1".to_string(), ip: None, is_loopback: false },
    ];
    let report = diag_report("1.0.0", ip, &endpoints, &interfaces, &[], None);
    assert!(report.starts_with("playpnp diag — network diagnostics\nVersion: 1.0.0\nPrimary IP: 10.0.0.1\n\nCandidate Endpoints (1):\n"));
    assert!(report.contains(&format!(
        "  {} {:<16} mask={:<16} bcast={:<16} gw={:<16} [{}]\n",
        "eth0", "10.0.0.1", "255.255.255.0", "-", "10.0.0.254", "PRIMARY"
    )));
    assert!(report.contains("\nAll Interfaces (if-addrs):\n  lo: ::1 [loopback]\n  eth0: 10.0.0.1 [candidate]\n  x: fe80::1 [filtered]\n"));
    assert!(report.contains("\nTailscale/Unicast Peers (0):\n  (none detected — set PLAYPNP_PEERS=100.x.y.z or add to peers.txt)\n"));
    assert!(report.contains("\nVLC: NOT FOUND — playback is unavailable until VLC is installed\n\nSDP Strategy:\n"));
    let report = diag_report("1.0.0", ip, &[], &[], &[ip], Some("/usr/bin/vlc"));
    assert!(report.contains("Peers (1):\n  10.0.0.1\n\nVLC: Found at /usr/bin/vlc\n"));
    assert!(report.contains("Dashboard: open http://10.0.0.1:<port>/ in browser after starting\n"));
}
