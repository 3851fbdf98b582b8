//! The command line: what is asked, and what is printed.

use vstd::prelude::*;
use vstd::string::*;

use crate::config;
use crate::config::{Config, EndpointModel, NetworkEndpoint};
use crate::net::Ipv4Addr;
use crate::number;
use crate::number::decimal;
use crate::text;
use crate::text::{join, same};

verus! {

// ---------------------------------------------------------------------------------------------
// Commands
// ---------------------------------------------------------------------------------------------
/// What the user asks for.
#[derive(Debug, Clone, Copy, PartialEq, Eq, Structural)]
pub enum Command {
    /// Start the renderer in the background.
    Start,
    /// Run the renderer in the foreground.
    Serve,
    /// Be the renderer in the background.
    Daemon,
    Stop,
    Status,
    Diagnose,
    Help,
    Version,
    Unknown,
}

/// The command that a word stands for; no word stands for a start.
pub open spec fn command_named(word: Seq<char>) -> Command {
    if word == ""@ || word == "start"@ {
        Command::Start
    } else if word == "serve"@ {
        Command::Serve
    } else if word == "__daemon"@ {
        Command::Daemon
    } else if word == "stop"@ {
        Command::Stop
    } else if word == "status"@ {
        Command::Status
    } else if word == "diag"@ || word == "diagnose"@ || word == "--diag"@ {
        Command::Diagnose
    } else if word == "help"@ || word == "--help"@ || word == "-h"@ {
        Command::Help
    } else if word == "version"@ || word == "--version"@ || word == "-V"@ {
        Command::Version
    } else {
        Command::Unknown
    }
}

/// The command that the word stands for.
pub fn command_of(word: &str) -> (r: Command)
    ensures
        r == command_named(word@),
{
    if same(word, "") || same(word, "start") {
        Command::Start
    } else if same(word, "serve") {
        Command::Serve
    } else if same(word, "__daemon") {
        Command::Daemon
    } else if same(word, "stop") {
        Command::Stop
    } else if same(word, "status") {
        Command::Status
    } else if same(word, "diag") || same(word, "diagnose") || same(word, "--diag") {
        Command::Diagnose
    } else if same(word, "help") || same(word, "--help") || same(word, "-h") {
        Command::Help
    } else if same(word, "version") || same(word, "--version") || same(word, "-V") {
        Command::Version
    } else {
        Command::Unknown
    }
}

/// What `help` prints.
pub fn help_text() -> (r: &'static str)
    ensures
        r@ == "playpnp - DLNA MediaRenderer for Windows\n\nUsage:\n  playpnp          Start daemon in background with tray icon 📺 (silent)\n  playpnp serve    Run in foreground without icon, all logs in terminal\n  playpnp stop     Stop running daemon\n  playpnp status   Show daemon status\n  playpnp diag     Show network diagnostics (IPs, firewall help)\n  playpnp help     Show this help\n  playpnp version  Show version\n\nFeatures:\n  - 📺 System tray icon with status link and quit menu\n  - Real VLC media player control via RC interface\n  - Multi-network support: Common Wi-Fi, Mobile Hotspot, and Tailscale\n  - Dynamic UPnP device description matching client IP\n\n"@,
{
    "playpnp - DLNA MediaRenderer for Windows\n\nUsage:\n  playpnp          Start daemon in background with tray icon 📺 (silent)\n  playpnp serve    Run in foreground without icon, all logs in terminal\n  playpnp stop     Stop running daemon\n  playpnp status   Show daemon status\n  playpnp diag     Show network diagnostics (IPs, firewall help)\n  playpnp help     Show this help\n  playpnp version  Show version\n\nFeatures:\n  - 📺 System tray icon with status link and quit menu\n  - Real VLC media player control via RC interface\n  - Multi-network support: Common Wi-Fi, Mobile Hotspot, and Tailscale\n  - Dynamic UPnP device description matching client IP\n\n"
}

// ---------------------------------------------------------------------------------------------
// Serving
// ---------------------------------------------------------------------------------------------
/// An endpoint's address and its mark.
pub open spec fn marked_ip(e: EndpointModel) -> Seq<char> {
    e.ip.dotted() + if e.is_primary {
        " [primary]"@
    } else if e.is_tailscale {
        " [tailscale]"@
    } else {
        ""@
    }
}

/// What is printed when the renderer starts to serve.
pub open spec fn banner(
    version: Seq<char>,
    friendly_name: Seq<char>,
    udn: Seq<char>,
    ip: Ipv4Addr,
    endpoints: Seq<EndpointModel>,
) -> Seq<char> {
    "playpnp "@ + version + " serving in foreground...\n  FriendlyName: "@ + friendly_name
        + "\n  UDN: "@ + udn + "\n  Primary IP: "@ + ip.dotted() + "\n  Endpoints: "@ + text::join_of(
        endpoints.map_values(|e: EndpointModel| marked_ip(e)),
        ", "@,
    ) + "\n  SSDP: multicast + broadcast + gateway unicast + Tailscale peer unicast\n  HTTP: 0.0.0.0:0 (ephemeral), description.xml uses dynamic URLBase from Host header\n  Control: 127.0.0.1:52411 for playpnp stop/status\n  Dashboard: http://"@ + ip.dotted() + ":<port>/ after startup\n  Press Ctrl+C or run 'playpnp stop' to stop.\n"@
}

fn marked(endpoints: &[NetworkEndpoint]) -> (r: Vec<String>)
    ensures
        text::texts(r@) == config::models(endpoints@).map_values(|e: EndpointModel| marked_ip(e)),
{
    let ghost m = config::models(endpoints@);
    let mut r: Vec<String> = Vec::new();
    for i in 0..endpoints.len()
        invariant
            m == config::models(endpoints@),
            text::texts(r@) == m.take(i as int).map_values(|e: EndpointModel| marked_ip(e)),
    {
        let e: &NetworkEndpoint = &endpoints[i];
        assert(m[i as int] == e@);
        let mut s = e.ip.to_text();
        s.append(
            if e.is_primary {
                " [primary]"
            } else if e.is_tailscale {
                " [tailscale]"
            } else {
                ""
            },
        );
        let ghost before = r@;
        let ghost line = s@;
        r.push(s);
        assert(line == marked_ip(m[i as int]));
        assert(text::texts(r@) =~= text::texts(before).push(line));
        assert(text::texts(r@) =~= m.take(i + 1).map_values(|e: EndpointModel| marked_ip(e)));
    }
    assert(m.take(m.len() as int) =~= m);
    r
}

/// What is printed when the renderer starts to serve.
pub fn serve_banner(
    version: &str,
    config: &Config,
    ip: Ipv4Addr,
    endpoints: &[NetworkEndpoint],
) -> (r: String)
    ensures
        r@ == banner(
            version@,
            config.friendly_name@,
            config.device_name(),
            ip,
            config::models(endpoints@),
        ),
{
    let mut s = "playpnp ".to_owned();
    s.append(version);
    s.append(" serving in foreground...\n  FriendlyName: ");
    s.append(config.friendly_name.as_str());
    s.append("\n  UDN: ");
    s.append(config.udn().as_str());
    s.append("\n  Primary IP: ");
    s.append(ip.to_text().as_str());
    s.append("\n  Endpoints: ");
    s.append(join(marked(endpoints).as_slice(), ", ").as_str());
    s.append("\n  SSDP: multicast + broadcast + gateway unicast + Tailscale peer unicast\n  HTTP: 0.0.0.0:0 (ephemeral), description.xml uses dynamic URLBase from Host header\n  Control: 127.0.0.1:52411 for playpnp stop/status\n  Dashboard: http://");
    s.append(ip.to_text().as_str());
    s.append(":<port>/ after startup\n  Press Ctrl+C or run 'playpnp stop' to stop.\n");
    s
}

// ---------------------------------------------------------------------------------------------
// Diagnosing
// ---------------------------------------------------------------------------------------------
/// The text with as many spaces behind it as make it 16 characters long.
pub open spec fn padded(s: Seq<char>) -> Seq<char>
    decreases 16 - s.len(),
{
    if s.len() >= 16 {
        s
    } else {
        padded(s.push(' '))
    }
}

fn pad(s: String) -> (r: String)
    ensures
        r@ == padded(s@),
{
    let mut out = s;
    let mut n: usize = out.as_str().unicode_len();
    while n < 16
        invariant
            n == out@.len(),
            padded(out@) == padded(s@),
        decreases 16 - n,
    {
        out.push(' ');
        n = n + 1;
    }
    out
}

/// An address, or a hyphen where there is none.
pub open spec fn ip_or_hyphen(ip: Option<Ipv4Addr>) -> Seq<char> {
    match ip {
        Some(a) => a.dotted(),
        None => "-"@,
    }
}

fn write_ip(ip: Option<Ipv4Addr>) -> (r: String)
    ensures
        r@ == ip_or_hyphen(ip),
{
    match ip {
        Some(a) => a.to_text(),
        None => "-".to_owned(),
    }
}

/// The line that tells an endpoint.
pub open spec fn endpoint_line(e: EndpointModel) -> Seq<char> {
    "  "@ + e.name + " "@ + padded(e.ip.dotted()) + " mask="@ + padded(ip_or_hyphen(e.netmask))
        + " bcast="@ + padded(ip_or_hyphen(e.broadcast)) + " gw="@ + padded(
        ip_or_hyphen(e.gateway),
    ) + if e.is_primary && e.is_tailscale {
        " [PRIMARY, TAILSCALE]\n"@
    } else if e.is_primary {
        " [PRIMARY]\n"@
    } else if e.is_tailscale {
        " [TAILSCALE]\n"@
    } else {
        " []\n"@
    }
}

/// The lines that tell endpoints.
pub open spec fn endpoint_lines(endpoints: Seq<EndpointModel>) -> Seq<char>
    decreases endpoints.len(),
{
    if endpoints.len() == 0 {
        Seq::empty()
    } else {
        endpoint_lines(endpoints.drop_last()) + endpoint_line(endpoints.last())
    }
}

/// An address of an interface; the text is that of the address, which may be an IPv6 one.
#[derive(Debug)]
pub struct InterfaceLine {
    pub name: String,
    pub address: String,
    pub ip: Option<Ipv4Addr>,
    pub is_loopback: bool,
}

/// The line that tells an address of an interface.
pub open spec fn interface_line(l: InterfaceLine, endpoints: Seq<EndpointModel>) -> Seq<char> {
    "  "@ + l.name@ + ": "@ + l.address@ + if l.ip matches Some(ip) && config::has_ip(
        endpoints,
        ip,
    ) {
        " [candidate]\n"@
    } else if l.is_loopback {
        " [loopback]\n"@
    } else {
        " [filtered]\n"@
    }
}

/// The lines that tell the addresses of interfaces.
pub open spec fn interface_lines(l: Seq<InterfaceLine>, endpoints: Seq<EndpointModel>) -> Seq<char>
    decreases l.len(),
{
    if l.len() == 0 {
        Seq::empty()
    } else {
        interface_lines(l.drop_last(), endpoints) + interface_line(l.last(), endpoints)
    }
}

/// The lines that tell peers.
pub open spec fn peer_lines(peers: Seq<Ipv4Addr>) -> Seq<char>
    decreases peers.len(),
{
    if peers.len() == 0 {
        Seq::empty()
    } else {
        peer_lines(peers.drop_last()) + ("  "@ + peers.last().dotted() + "\n"@)
    }
}

/// The lines that tell peers, or that there are none.
pub open spec fn peer_section(peers: Seq<Ipv4Addr>) -> Seq<char> {
    if peers.len() == 0 {
        "  (none detected — set PLAYPNP_PEERS=100.x.y.z or add to peers.txt)\n"@
    } else {
        peer_lines(peers)
    }
}

/// The line that tells where VLC is.
pub open spec fn vlc_line(vlc: Option<&str>) -> Seq<char> {
    match vlc {
        Some(p) => "VLC: Found at "@ + p@ + "\n"@,
        None => "VLC: NOT FOUND — playback is unavailable until VLC is installed\n"@,
    }
}

/// What `diag` prints.
pub open spec fn diagnosis(
    version: Seq<char>,
    ip: Ipv4Addr,
    endpoints: Seq<EndpointModel>,
    interfaces: Seq<InterfaceLine>,
    peers: Seq<Ipv4Addr>,
    vlc: Option<&str>,
) -> Seq<char> {
    "playpnp diag — network diagnostics\nVersion: "@ + version + "\nPrimary IP: "@ + ip.dotted()
        + "\n\nCandidate Endpoints ("@ + number::decimal_of(endpoints.len()) + "):\n"@
        + endpoint_lines(endpoints) + "\nAll Interfaces (if-addrs):\n"@ + interface_lines(
        interfaces,
        endpoints,
    ) + "\nTailscale/Unicast Peers ("@ + number::decimal_of(peers.len()) + "):\n"@
        + peer_section(peers) + "\n"@ + vlc_line(vlc)
        + "\nSDP Strategy:\n  Common Wi-Fi:  multicast 239.255.255.250:1900 + subnet broadcast per interface\n  Mobile Hotspot: unicast to gateway (e.g. 192.168.43.1:1900) + subnet broadcast\n  Tailscale:      unicast to each peer IP on port 1900\n  All M-SEARCH responses use pick_ip_for_target() to select correct LOCATION IP\n\nHTTP: binds 0.0.0.0:0 (ephemeral), description.xml uses Host header for URLBase\nDashboard: open http://"@
        + ip.dotted()
        + ":<port>/ in browser after starting\n\nFirewall: run 'Get-NetFirewallRule -DisplayName *playpnp* | Format-List'\nNetwork profile: run 'Get-NetConnectionProfile | Format-List Name,NetworkCategory'\n"@
}

fn write_endpoint(e: &NetworkEndpoint) -> (r: String)
    ensures
        r@ == endpoint_line(e@),
{
    let mut s = "  ".to_owned();
    s.append(e.name.as_str());
    s.append(" ");
    s.append(pad(e.ip.to_text()).as_str());
    s.append(" mask=");
    s.append(pad(write_ip(e.netmask)).as_str());
    s.append(" bcast=");
    s.append(pad(write_ip(e.broadcast)).as_str());
    s.append(" gw=");
    s.append(pad(write_ip(e.gateway)).as_str());
    s.append(
        if e.is_primary && e.is_tailscale {
            " [PRIMARY, TAILSCALE]\n"
        } else if e.is_primary {
            " [PRIMARY]\n"
        } else if e.is_tailscale {
            " [TAILSCALE]\n"
        } else {
            " []\n"
        },
    );
    s
}

fn write_endpoints(endpoints: &[NetworkEndpoint]) -> (r: String)
    ensures
        r@ == endpoint_lines(config::models(endpoints@)),
{
    let ghost m = config::models(endpoints@);
    let mut out = String::new();
    for i in 0..endpoints.len()
        invariant
            m == config::models(endpoints@),
            out@ == endpoint_lines(m.take(i as int)),
    {
        assert(m[i as int] == endpoints@[i as int]@);
        assert(m.take(i + 1).drop_last() =~= m.take(i as int));
        out.append(write_endpoint(&endpoints[i]).as_str());
    }
    assert(m.take(m.len() as int) =~= m);
    out
}

fn is_candidate(endpoints: &[NetworkEndpoint], ip: Ipv4Addr) -> (r: bool)
    ensures
        r == config::has_ip(config::models(endpoints@), ip),
{
    let ghost m = config::models(endpoints@);
    for i in 0..endpoints.len()
        invariant
            m == config::models(endpoints@),
            forall|k: int| 0 <= k < i ==> (#[trigger] m[k]).ip != ip,
    {
        assert(m[i as int] == endpoints@[i as int]@);
        if endpoints[i].ip == ip {
            assert(m[i as int].ip == ip);
            return true;
        }
    }
    false
}

fn write_interfaces(interfaces: &[InterfaceLine], endpoints: &[NetworkEndpoint]) -> (r: String)
    ensures
        r@ == interface_lines(interfaces@, config::models(endpoints@)),
{
    let ghost m = config::models(endpoints@);
    let mut out = String::new();
    for i in 0..interfaces.len()
        invariant
            m == config::models(endpoints@),
            out@ == interface_lines(interfaces@.take(i as int), m),
    {
        assert(interfaces@.take(i + 1).drop_last() =~= interfaces@.take(i as int));
        let l: &InterfaceLine = &interfaces[i];
        let candidate: bool = match l.ip {
            Some(ip) => is_candidate(endpoints, ip),
            None => false,
        };
        let mut s = "  ".to_owned();
        s.append(l.name.as_str());
        s.append(": ");
        s.append(l.address.as_str());
        s.append(
            if candidate {
                " [candidate]\n"
            } else if l.is_loopback {
                " [loopback]\n"
            } else {
                " [filtered]\n"
            },
        );
        out.append(s.as_str());
    }
    assert(interfaces@.take(interfaces@.len() as int) =~= interfaces@);
    out
}

fn write_peers(peers: &[Ipv4Addr]) -> (r: String)
    ensures
        r@ == peer_section(peers@),
{
    if peers.len() == 0 {
        return "  (none detected — set PLAYPNP_PEERS=100.x.y.z or add to peers.txt)\n".to_owned();
    }
    let mut out = String::new();
    for i in 0..peers.len()
        invariant
            out@ == peer_lines(peers@.take(i as int)),
    {
        assert(peers@.take(i + 1).drop_last() =~= peers@.take(i as int));
        let mut s = "  ".to_owned();
        s.append(peers[i].to_text().as_str());
        s.append("\n");
        out.append(s.as_str());
    }
    assert(peers@.take(peers@.len() as int) =~= peers@);
    out
}

/// What `diag` prints: the networks, the peers, where VLC is, and how the renderer is announced.
pub fn diag_report(
    version: &str,
    ip: Ipv4Addr,
    endpoints: &[NetworkEndpoint],
    interfaces: &[InterfaceLine],
    peers: &[Ipv4Addr],
    vlc: Option<&str>,
) -> (r: String)
    ensures
        r@ == diagnosis(
            version@,
            ip,
            config::models(endpoints@),
            interfaces@,
            peers@,
            vlc,
        ),
{
    let mut s = "playpnp diag — network diagnostics\nVersion: ".to_owned();
    s.append(version);
    s.append("\nPrimary IP: ");
    s.append(ip.to_text().as_str());
    s.append("\n\nCandidate Endpoints (");
    s.append(decimal(endpoints.len() as u64).as_str());
    s.append("):\n");
    s.append(write_endpoints(endpoints).as_str());
    s.append("\nAll Interfaces (if-addrs):\n");
    s.append(write_interfaces(interfaces, endpoints).as_str());
    s.append("\nTailscale/Unicast Peers (");
    s.append(decimal(peers.len() as u64).as_str());
    s.append("):\n");
    s.append(write_peers(peers).as_str());
    s.append("\n");
    let mut line = String::new();
    match vlc {
        Some(p) => {
            line.append("VLC: Found at ");
            line.append(p);
            line.append("\n");
        },
        None => {
            line.append("VLC: NOT FOUND — playback is unavailable until VLC is installed\n");
        },
    }
    assert(line@ =~= vlc_line(vlc));
    s.append(line.as_str());
    s.append("\nSDP Strategy:\n  Common Wi-Fi:  multicast 239.255.255.250:1900 + subnet broadcast per interface\n  Mobile Hotspot: unicast to gateway (e.g. 192.168.43.1:1900) + subnet broadcast\n  Tailscale:      unicast to each peer IP on port 1900\n  All M-SEARCH responses use pick_ip_for_target() to select correct LOCATION IP\n\nHTTP: binds 0.0.0.0:0 (ephemeral), description.xml uses Host header for URLBase\nDashboard: open http://");
    s.append(ip.to_text().as_str());
    s.append(":<port>/ in browser after starting\n\nFirewall: run 'Get-NetFirewallRule -DisplayName *playpnp* | Format-List'\nNetwork profile: run 'Get-NetConnectionProfile | Format-List Name,NetworkCategory'\n");
    s
}

// ---------------------------------------------------------------------------------------------
// Laws
// ---------------------------------------------------------------------------------------------
/// Each word stands for its own command, and no other word for any.
pub proof fn lemma_words_are_commands(word: Seq<char>)
    ensures
        command_named(""@) == Command::Start,
        command_named("start"@) == Command::Start,
        command_named("serve"@) == Command::Serve,
        command_named("__daemon"@) == Command::Daemon,
        command_named("stop"@) == Command::Stop,
        command_named("status"@) == Command::Status,
        command_named("diag"@) == Command::Diagnose,
        command_named("diagnose"@) == Command::Diagnose,
        command_named("--diag"@) == Command::Diagnose,
        command_named("help"@) == Command::Help,
        command_named("--help"@) == Command::Help,
        command_named("-h"@) == Command::Help,
        command_named("version"@) == Command::Version,
        command_named("--version"@) == Command::Version,
        command_named("-V"@) == Command::Version,
        command_named(word) == Command::Unknown <==> {
            &&& word != ""@
            &&& word != "start"@
            &&& word != "serve"@
            &&& word != "__daemon"@
            &&& word != "stop"@
            &&& word != "status"@
            &&& word != "diag"@
            &&& word != "diagnose"@
            &&& word != "--diag"@
            &&& word != "help"@
            &&& word != "--help"@
            &&& word != "-h"@
            &&& word != "version"@
            &&& word != "--version"@
            &&& word != "-V"@
        },
{
    reveal_strlit("");
    reveal_strlit("start");
    reveal_strlit("serve");
    reveal_strlit("__daemon");
    reveal_strlit("stop");
    reveal_strlit("status");
    reveal_strlit("diag");
    reveal_strlit("diagnose");
    reveal_strlit("--diag");
    reveal_strlit("help");
    reveal_strlit("--help");
    reveal_strlit("-h");
    reveal_strlit("version");
    reveal_strlit("--version");
    reveal_strlit("-V");
    assert(""@.len() == 0);
    assert("start"@.len() == 5);
    assert("serve"@.len() == 5);
    assert("__daemon"@.len() == 8);
    assert("stop"@.len() == 4);
    assert("status"@.len() == 6);
    assert("diag"@.len() == 4);
    assert("diagnose"@.len() == 8);
    assert("--diag"@.len() == 6);
    assert("help"@.len() == 4);
    assert("--help"@.len() == 6);
    assert("-h"@.len() == 2);
    assert("version"@.len() == 7);
    assert("--version"@.len() == 9);
    assert("-V"@.len() == 2);
    assert("start"@[1] != "serve"@[1]);
    assert("stop"@[0] != "diag"@[0]);
    assert("__daemon"@[0] != "diagnose"@[0]);
    assert("status"@[0] != "--diag"@[0]);
    assert("stop"@[0] != "help"@[0]);
    assert("diag"@[0] != "help"@[0]);
    assert("status"@[0] != "--help"@[0]);
    assert("--diag"@[2] != "--help"@[2]);
    assert("-h"@[1] != "-V"@[1]);
}

/// A line of a list is a column wide: the text itself, and spaces behind it up to 16 characters.
pub proof fn lemma_padding_is(s: Seq<char>)
    ensures
        s.len() >= 16 ==> padded(s) == s,
        s.len() < 16 ==> padded(s).len() == 16 && padded(s).take(s.len() as int) == s && forall|
            i: int,
        |
            s.len() <= i < 16 ==> #[trigger] padded(s)[i] == ' ',
    decreases 16 - s.len(),
{
    if s.len() < 16 {
        let t = s.push(' ');
        lemma_padding_is(t);
        let p = padded(s);
        if t.len() == 16 {
            assert(p == t);
        }
        assert(p.take(t.len() as int) =~= t);
        assert(p.take(s.len() as int) =~= s) by {
            assert forall|i: int| 0 <= i < s.len() implies p[i] == s[i] by {
                assert(p.take(t.len() as int)[i] == t[i]);
            }
        }
        assert(p[s.len() as int] == p.take(t.len() as int)[s.len() as int]);
    }
}

/// The mark of an endpoint: primary before Tailscale, and none for the others.
pub proof fn lemma_marks_are(e: EndpointModel)
    ensures
        e.is_primary ==> marked_ip(e) == e.ip.dotted() + " [primary]"@,
        !e.is_primary && e.is_tailscale ==> marked_ip(e) == e.ip.dotted() + " [tailscale]"@,
        !e.is_primary && !e.is_tailscale ==> marked_ip(e) == e.ip.dotted(),
{
    reveal_strlit("");
    assert(e.ip.dotted() + ""@ =~= e.ip.dotted());
}

/// An address of an interface is told as a candidate exactly where an endpoint has it.
pub proof fn lemma_candidates_are_marked(l: InterfaceLine, endpoints: Seq<EndpointModel>)
    ensures
        ({
            let told = "  "@ + l.name@ + ": "@ + l.address@;
            let candidate = l.ip is Some && exists|i: int|
                0 <= i < endpoints.len() && (#[trigger] endpoints[i]).ip == l.ip->0;
            &&& candidate ==> interface_line(l, endpoints) == told + " [candidate]\n"@
            &&& !candidate && l.is_loopback ==> interface_line(l, endpoints) == told
                + " [loopback]\n"@
            &&& !candidate && !l.is_loopback ==> interface_line(l, endpoints) == told
                + " [filtered]\n"@
        }),
{
}

/// Every endpoint and every peer has its line in the report.
pub proof fn lemma_report_lists(endpoints: Seq<EndpointModel>, peers: Seq<Ipv4Addr>, i: int)
    ensures
        0 <= i < endpoints.len() ==> text::contains(
            endpoint_lines(endpoints),
            endpoint_line(endpoints[i]),
        ),
        0 <= i < peers.len() ==> text::contains(
            peer_section(peers),
            "  "@ + peers[i].dotted() + "\n"@,
        ),
    decreases endpoints.len() + peers.len(),
{
    let none = Seq::<char>::empty();
    if 0 <= i < endpoints.len() {
        let before = endpoint_lines(endpoints.drop_last());
        let last = endpoint_line(endpoints.last());
        assert(endpoint_lines(endpoints) =~= before + last + none);
        assert(endpoint_lines(endpoints) =~= none + before + last);
        if i == endpoints.len() - 1 {
            text::lemma_contains_part(before, last, none);
        } else {
            lemma_report_lists(endpoints.drop_last(), Seq::empty(), i);
            text::lemma_contains_within(none, before, last, endpoint_line(endpoints[i]));
        }
    }
    if 0 <= i < peers.len() {
        let before = peer_lines(peers.drop_last());
        let last = "  "@ + peers.last().dotted() + "\n"@;
        assert(peer_lines(peers) =~= before + last + none);
        assert(peer_lines(peers) =~= none + before + last);
        if i == peers.len() - 1 {
            text::lemma_contains_part(before, last, none);
        } else {
            lemma_report_lists(Seq::empty(), peers.drop_last(), i);
            text::lemma_contains_within(
                none,
                before,
                last,
                "  "@ + peers[i].dotted() + "\n"@,
            );
        }
    }
}

/// What is printed at the start tells the name, the unique device name, the address and the
/// endpoints, each on its own line.
pub proof fn lemma_banner_tells(
    version: Seq<char>,
    friendly_name: Seq<char>,
    udn: Seq<char>,
    ip: Ipv4Addr,
    endpoints: Seq<EndpointModel>,
)
    ensures
        text::contains(banner(version, friendly_name, udn, ip, endpoints), "\n  FriendlyName: "@ + friendly_name + "\n"@),
        text::contains(banner(version, friendly_name, udn, ip, endpoints), "\n  UDN: "@ + udn + "\n"@),
        text::contains(banner(version, friendly_name, udn, ip, endpoints), "\n  Primary IP: "@ + ip.dotted() + "\n"@),
        text::contains(banner(version, friendly_name, udn, ip, endpoints), "\n  Endpoints: "@ + text::join_of(endpoints.map_values(|e: EndpointModel| marked_ip(e)), ", "@) + "\n"@),
{
    let p0 = "playpnp "@;
    let p1 = version;
    let p2 = " serving in foreground...\n  FriendlyName: "@;
    let p3 = friendly_name;
    let p4 = "\n  UDN: "@;
    let p5 = udn;
    let p6 = "\n  Primary IP: "@;
    let p7 = ip.dotted();
    let p8 = "\n  Endpoints: "@;
    let p9 = text::join_of(endpoints.map_values(|e: EndpointModel| marked_ip(e)), ", "@);
    let p10 = "\n  SSDP: multicast + broadcast + gateway unicast + Tailscale peer unicast\n  HTTP: 0.0.0.0:0 (ephemeral), description.xml uses dynamic URLBase from Host header\n  Control: 127.0.0.1:52411 for playpnp stop/status\n  Dashboard: http://"@;
    let p11 = ip.dotted();
    let p12 = ":<port>/ after startup\n  Press Ctrl+C or run 'playpnp stop' to stop.\n"@;
    reveal_strlit("playpnp ");
    reveal_strlit(" serving in foreground...\n  FriendlyName: ");
    reveal_strlit("\n  UDN: ");
    reveal_strlit("\n  Primary IP: ");
    reveal_strlit("\n  Endpoints: ");
    reveal_strlit(
        "\n  SSDP: multicast + broadcast + gateway unicast + Tailscale peer unicast\n  HTTP: 0.0.0.0:0 (ephemeral), description.xml uses dynamic URLBase from Host header\n  Control: 127.0.0.1:52411 for playpnp stop/status\n  Dashboard: http://",
    );
    reveal_strlit(":<port>/ after startup\n  Press Ctrl+C or run 'playpnp stop' to stop.\n");
    reveal_strlit("\n  FriendlyName: ");
    reveal_strlit("\n");
    let whole = banner(version, friendly_name, udn, ip, endpoints);
    assert(whole =~= (p0 + p1) + p2 + p3 + p4 + (p5 + p6 + p7 + p8 + p9 + p10 + p11 + p12));
    assert(p2.skip(p2.len() - "\n  FriendlyName: "@.len()) =~= "\n  FriendlyName: "@);
    assert(p4.subrange(0, "\n"@.len() as int) =~= "\n"@);
    text::lemma_contains_between(
        p0 + p1,
        p2,
        p3,
        p4,
        p5 + p6 + p7 + p8 + p9 + p10 + p11 + p12,
        "\n  FriendlyName: "@,
        "\n"@,
    );
    assert(whole =~= (p0 + p1 + p2 + p3) + p4 + p5 + p6 + (p7 + p8 + p9 + p10 + p11 + p12));
    assert(p4.skip(p4.len() - "\n  UDN: "@.len()) =~= "\n  UDN: "@);
    assert(p6.subrange(0, "\n"@.len() as int) =~= "\n"@);
    text::lemma_contains_between(
        p0 + p1 + p2 + p3,
        p4,
        p5,
        p6,
        p7 + p8 + p9 + p10 + p11 + p12,
        "\n  UDN: "@,
        "\n"@,
    );
    assert(whole =~= (p0 + p1 + p2 + p3 + p4 + p5) + p6 + p7 + p8 + (p9 + p10 + p11 + p12));
    assert(p6.skip(p6.len() - "\n  Primary IP: "@.len()) =~= "\n  Primary IP: "@);
    assert(p8.subrange(0, "\n"@.len() as int) =~= "\n"@);
    text::lemma_contains_between(
        p0 + p1 + p2 + p3 + p4 + p5,
        p6,
        p7,
        p8,
        p9 + p10 + p11 + p12,
        "\n  Primary IP: "@,
        "\n"@,
    );
    assert(whole =~= (p0 + p1 + p2 + p3 + p4 + p5 + p6 + p7) + p8 + p9 + p10 + (p11 + p12));
    assert(p8.skip(p8.len() - "\n  Endpoints: "@.len()) =~= "\n  Endpoints: "@);
    assert(p10.subrange(0, "\n"@.len() as int) =~= "\n"@);
    text::lemma_contains_between(
        p0 + p1 + p2 + p3 + p4 + p5 + p6 + p7,
        p8,
        p9,
        p10,
        p11 + p12,
        "\n  Endpoints: "@,
        "\n"@,
    );
}

/// The line of an endpoint tells what it is, behind the gateway: primary, Tailscale's, both or
/// neither.
pub proof fn lemma_endpoint_line_ends(e: EndpointModel)
    ensures
        ({
            let told = "  "@ + e.name + " "@ + padded(e.ip.dotted()) + " mask="@ + padded(
                ip_or_hyphen(e.netmask),
            ) + " bcast="@ + padded(ip_or_hyphen(e.broadcast)) + " gw="@ + padded(
                ip_or_hyphen(e.gateway),
            );
            let line = endpoint_line(e);
            &&& e.is_primary && e.is_tailscale ==> line == told + " [PRIMARY, TAILSCALE]\n"@
            &&& e.is_primary && !e.is_tailscale ==> line == told + " [PRIMARY]\n"@
            &&& !e.is_primary && e.is_tailscale ==> line == told + " [TAILSCALE]\n"@
            &&& !e.is_primary && !e.is_tailscale ==> line == told + " []\n"@
        }),
        forall|ip: Ipv4Addr| #[trigger] ip_or_hyphen(Some(ip)) == ip.dotted(),
        ip_or_hyphen(None) == "-"@,
{
}

} // verus!
