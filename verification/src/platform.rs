//! What differs between Windows and Unix: paths, launch arguments, routing tables.
//!
//! Each fact has a form that takes the platform as an argument, and one for the platform that the
//! program runs on. A path is given as its components, in order.

use vstd::prelude::*;
use vstd::string::*;

use crate::identity;
use crate::net;
use crate::net::{Ipv4Addr, parse_ipv4};
use crate::number;
use crate::number::decimal;
use crate::text;
use crate::text::{chars_of, decode, has, lines, same, trim, words};

verus! {

/// `std::path::MAIN_SEPARATOR`: the character between the components of a path, which depends on
/// the platform that the program was built for. Nothing is claimed of which character it is.
#[verifier::external_body]
fn path_separator() -> (r: char) {
    std::path::MAIN_SEPARATOR
}

/// Does the program run on Windows, where paths are written with backslashes? Which it is
/// depends on the build, so either answer is possible; `is_windows_separator` decides it from the
/// separator.
pub(crate) fn is_windows() -> bool {
    is_windows_separator(path_separator())
}

/// Does the character stand between the components of a path on Windows?
pub fn is_windows_separator(separator: char) -> (r: bool)
    ensures
        r == (separator == '\\'),
{
    separator == '\\'
}

// ---------------------------------------------------------------------------------------------
// Paths and names
// ---------------------------------------------------------------------------------------------
/// A variable of the environment that is set and not empty.
pub open spec fn given(v: Option<String>) -> bool {
    v matches Some(s) && s@.len() > 0
}

/// The components of the directory for the identity and the peer list.
pub open spec fn config_path(
    windows: bool,
    appdata: Option<String>,
    xdg_config_home: Option<String>,
    home: Option<String>,
) -> Seq<Seq<char>> {
    if windows && given(appdata) {
        seq![appdata->0@, "playpnp"@]
    } else if !windows && given(xdg_config_home) {
        seq![xdg_config_home->0@, "playpnp"@]
    } else if !windows && given(home) {
        seq![home->0@, ".config"@, "playpnp"@]
    } else {
        seq!["."@, "playpnp"@]
    }
}

fn is_given(v: &Option<String>) -> (r: bool)
    ensures
        r == given(*v),
{
    match v {
        Some(s) => !s.as_str().is_empty(),
        None => false,
    }
}

fn text_or_empty(v: Option<String>) -> (r: String)
    ensures
        v matches Some(s) ==> r@ == s@,
{
    match v {
        Some(s) => s,
        None => String::new(),
    }
}

/// The components of the directory for the identity and the peer list, on the given platform.
pub fn config_dir_on(
    windows: bool,
    appdata: Option<String>,
    xdg_config_home: Option<String>,
    home: Option<String>,
) -> (r: Vec<String>)
    ensures
        text::texts(r@) == config_path(windows, appdata, xdg_config_home, home),
{
    let mut r: Vec<String> = Vec::new();
    if windows && is_given(&appdata) {
        r.push(text_or_empty(appdata));
    } else if !windows && is_given(&xdg_config_home) {
        r.push(text_or_empty(xdg_config_home));
    } else if !windows && is_given(&home) {
        r.push(text_or_empty(home));
        r.push(".config".to_owned());
    } else {
        r.push(".".to_owned());
    }
    r.push("playpnp".to_owned());
    assert(text::texts(r@) =~= config_path(windows, appdata, xdg_config_home, home));
    r
}

/// The components of the directory for the identity and the peer list.
pub fn config_dir(
    appdata: Option<String>,
    xdg_config_home: Option<String>,
    home: Option<String>,
) -> (r: Vec<String>)
    ensures
        exists|windows: bool|
            text::texts(r@) == #[trigger] config_path(windows, appdata, xdg_config_home, home),
{
    config_dir_on(is_windows(), appdata, xdg_config_home, home)
}

/// The machine's name: the first of the sources that gives one, `PC` if none does.
pub open spec fn host_name(
    computername: Option<String>,
    hostname: Option<String>,
    system: Option<String>,
    etc_hostname: Option<String>,
) -> Seq<char> {
    if given(computername) {
        computername->0@
    } else if given(hostname) {
        hostname->0@
    } else if given(system) {
        system->0@
    } else if etc_hostname matches Some(s) && text::trim_of(s@).len() > 0 {
        text::trim_of(etc_hostname->0@)
    } else {
        "PC"@
    }
}

/// The machine's name, from two variables of the environment, the system, and `/etc/hostname`.
pub fn hostname(
    computername: Option<String>,
    hostname_var: Option<String>,
    system: Option<String>,
    etc_hostname: Option<String>,
) -> (r: String)
    ensures
        r@ == host_name(computername, hostname_var, system, etc_hostname),
{
    if is_given(&computername) {
        return text_or_empty(computername);
    }
    if is_given(&hostname_var) {
        return text_or_empty(hostname_var);
    }
    if is_given(&system) {
        return text_or_empty(system);
    }
    if let Some(s) = etc_hostname {
        let t: &str = trim(s.as_str());
        if !t.is_empty() {
            return t.to_owned();
        }
    }
    "PC".to_owned()
}

/// The program that opens a URL, and its arguments.
pub open spec fn open_command(windows: bool, macos: bool, url: Seq<char>) -> Seq<Seq<char>> {
    if windows {
        seq!["cmd"@, "/C"@, "start"@, ""@, url]
    } else if macos {
        seq!["open"@, url]
    } else {
        seq!["xdg-open"@, url]
    }
}

/// The program that opens a URL in the default browser, and its arguments.
pub fn open_url(windows: bool, macos: bool, url: &str) -> (r: Vec<String>)
    ensures
        text::texts(r@) == open_command(windows, macos, url@),
{
    let mut r: Vec<String> = Vec::new();
    if windows {
        r.push("cmd".to_owned());
        r.push("/C".to_owned());
        r.push("start".to_owned());
        r.push("".to_owned());
    } else if macos {
        r.push("open".to_owned());
    } else {
        r.push("xdg-open".to_owned());
    }
    r.push(url.to_owned());
    assert(text::texts(r@) =~= open_command(windows, macos, url@));
    r
}

// ---------------------------------------------------------------------------------------------
// VLC
// ---------------------------------------------------------------------------------------------
/// Where VLC is installed when it is not on the search path.
pub open spec fn vlc_paths(windows: bool) -> Seq<Seq<char>> {
    if windows {
        seq![
            "C:\\Program Files\\VideoLAN\\VLC\\vlc.exe"@,
            "C:\\Program Files (x86)\\VideoLAN\\VLC\\vlc.exe"@,
            "C:\\vlc\\vlc.exe"@,
        ]
    } else {
        seq![
            "/usr/bin/vlc"@,
            "/usr/local/bin/vlc"@,
            "/snap/bin/vlc"@,
            "/var/lib/flatpak/exports/bin/org.videolan.VLC"@,
        ]
    }
}

/// Where VLC is installed when it is not on the search path, on the given platform.
pub fn vlc_candidates_on(windows: bool) -> (r: Vec<String>)
    ensures
        text::texts(r@) == vlc_paths(windows),
{
    let mut r: Vec<String> = Vec::new();
    if windows {
        r.push("C:\\Program Files\\VideoLAN\\VLC\\vlc.exe".to_owned());
        r.push("C:\\Program Files (x86)\\VideoLAN\\VLC\\vlc.exe".to_owned());
        r.push("C:\\vlc\\vlc.exe".to_owned());
    } else {
        r.push("/usr/bin/vlc".to_owned());
        r.push("/usr/local/bin/vlc".to_owned());
        r.push("/snap/bin/vlc".to_owned());
        r.push("/var/lib/flatpak/exports/bin/org.videolan.VLC".to_owned());
    }
    assert(text::texts(r@) =~= vlc_paths(windows));
    r
}

/// Where VLC is installed when it is not on the search path.
pub fn vlc_candidates() -> (r: Vec<String>)
    ensures
        exists|windows: bool| text::texts(r@) == #[trigger] vlc_paths(windows),
{
    vlc_candidates_on(is_windows())
}

/// The arguments that VLC is launched with.
pub open spec fn vlc_arguments(windows: bool, rc_port: nat, intf: Seq<char>) -> Seq<Seq<char>> {
    let common = seq![
        "--extraintf"@,
        intf,
        "--rc-host"@,
        "127.0.0.1:"@ + number::decimal_of(rc_port),
        "--no-video-title-show"@,
        "--fullscreen"@,
        "--audio-language=en,eng,English"@,
        "--network-caching=5000"@,
        "--file-caching=3000"@,
        "--live-caching=3000"@,
        "--http-reconnect"@,
        "--clock-jitter=5000"@,
    ];
    if windows {
        common.push("--rc-quiet"@).push("--avcodec-hw=any"@)
    } else {
        common
    }
}

/// The arguments that VLC is launched with on the given platform. Linux builds know neither
/// `--rc-quiet` nor the hint for hardware decoding.
pub fn vlc_args_on(windows: bool, rc_port: u16, intf: &str) -> (r: Vec<String>)
    ensures
        text::texts(r@) == vlc_arguments(windows, rc_port as nat, intf@),
{
    let mut host = "127.0.0.1:".to_owned();
    host.append(decimal(rc_port as u64).as_str());
    let mut r: Vec<String> = Vec::new();
    r.push("--extraintf".to_owned());
    r.push(intf.to_owned());
    r.push("--rc-host".to_owned());
    r.push(host);
    r.push("--no-video-title-show".to_owned());
    r.push("--fullscreen".to_owned());
    r.push("--audio-language=en,eng,English".to_owned());
    r.push("--network-caching=5000".to_owned());
    r.push("--file-caching=3000".to_owned());
    r.push("--live-caching=3000".to_owned());
    r.push("--http-reconnect".to_owned());
    r.push("--clock-jitter=5000".to_owned());
    if windows {
        r.push("--rc-quiet".to_owned());
        r.push("--avcodec-hw=any".to_owned());
    }
    assert(text::texts(r@) =~= vlc_arguments(windows, rc_port as nat, intf@));
    r
}

/// The arguments that VLC is launched with. `intf` is `rc`, or `oldrc` where the module kept its
/// old name.
pub fn vlc_args(rc_port: u16, intf: &str) -> (r: Vec<String>)
    ensures
        exists|windows: bool|
            text::texts(r@) == #[trigger] vlc_arguments(windows, rc_port as nat, intf@),
{
    vlc_args_on(is_windows(), rc_port, intf)
}

// ---------------------------------------------------------------------------------------------
// Texts
// ---------------------------------------------------------------------------------------------
/// The `SERVER` header of SSDP messages.
pub open spec fn server_text(windows: bool) -> Seq<char> {
    if windows {
        "Windows/10.0 UPnP/1.0 playpnp/1.0"@
    } else {
        "Linux UPnP/1.0 playpnp/1.0"@
    }
}

/// The `SERVER` header of SSDP messages on the given platform.
pub fn server_header_on(windows: bool) -> (r: &'static str)
    ensures
        r@ == server_text(windows),
{
    if windows {
        "Windows/10.0 UPnP/1.0 playpnp/1.0"
    } else {
        "Linux UPnP/1.0 playpnp/1.0"
    }
}

/// The `SERVER` header of SSDP messages.
pub fn server_header() -> (r: &'static str)
    ensures
        exists|windows: bool| r@ == #[trigger] server_text(windows),
{
    server_header_on(is_windows())
}

/// Where the peer list lives, for people to read.
pub open spec fn peers_text(windows: bool) -> Seq<char> {
    if windows {
        "%APPDATA%\\playpnp\\peers.txt"@
    } else {
        "~/.config/playpnp/peers.txt"@
    }
}

/// Where the peer list lives on the given platform, for people to read.
pub fn peers_hint_on(windows: bool) -> (r: &'static str)
    ensures
        r@ == peers_text(windows),
{
    if windows {
        "%APPDATA%\\playpnp\\peers.txt"
    } else {
        "~/.config/playpnp/peers.txt"
    }
}

/// Where the peer list lives, for people to read.
pub fn peers_hint() -> (r: &'static str)
    ensures
        exists|windows: bool| r@ == #[trigger] peers_text(windows),
{
    peers_hint_on(is_windows())
}

// ---------------------------------------------------------------------------------------------
// Interfaces
// ---------------------------------------------------------------------------------------------
/// What the names of virtual and container interfaces hold.
pub open spec fn virtual_patterns() -> Seq<Seq<char>> {
    seq![
        "wsl"@,
        "hyper-v"@,
        "hyperv"@,
        "vmware"@,
        "virtualbox"@,
        "vbox"@,
        "docker"@,
        "veth"@,
        "virbr"@,
        "vibr"@,
        "lxc"@,
        "lxdbr"@,
        "br-"@,
        "wg"@,
        "tun"@,
    ]
}

/// The name, in small letters, is that of a virtual or container interface.
pub open spec fn virtual_name(name_lower: Seq<char>) -> bool {
    exists|i: int|
        0 <= i < virtual_patterns().len() && text::contains(
            name_lower,
            #[trigger] virtual_patterns()[i],
        )
}

fn known_virtual_patterns() -> (r: Vec<&'static str>)
    ensures
        r@.map_values(|p: &str| p@) == virtual_patterns(),
{
    let r: Vec<&'static str> = vec![
        "wsl",
        "hyper-v",
        "hyperv",
        "vmware",
        "virtualbox",
        "vbox",
        "docker",
        "veth",
        "virbr",
        "vibr",
        "lxc",
        "lxdbr",
        "br-",
        "wg",
        "tun",
    ];
    assert(r@.map_values(|p: &str| p@) =~= virtual_patterns());
    r
}

/// Is the name, in small letters, that of a virtual or container interface?
pub fn is_virtual_iface(name_lower: &str) -> (r: bool)
    ensures
        r == virtual_name(name_lower@),
{
    let patterns: Vec<&'static str> = known_virtual_patterns();
    for i in 0..patterns.len()
        invariant
            patterns@.map_values(|p: &str| p@) == virtual_patterns(),
            forall|k: int|
                0 <= k < i ==> !text::contains(name_lower@, #[trigger] virtual_patterns()[k]),
    {
        assert(patterns@.map_values(|p: &str| p@)[i as int] == patterns@[i as int]@);
        if has(name_lower, patterns[i]) {
            assert(text::contains(name_lower@, virtual_patterns()[i as int]));
            return true;
        }
    }
    false
}

// ---------------------------------------------------------------------------------------------
// Default gateway
// ---------------------------------------------------------------------------------------------
/// An address that a gateway can have.
pub open spec fn usable(ip: Option<Ipv4Addr>) -> bool {
    ip matches Some(gw) && !gw.unspecified() && !gw.loopback()
}

/// The gateway that one line of `route print` tells: the third of at least four words, where the
/// first two are `0.0.0.0`.
pub open spec fn printed_gateway(line: Seq<char>) -> Option<Ipv4Addr> {
    let w = text::words_of(line);
    if w.len() >= 4 && w[0] == "0.0.0.0"@ && w[1] == "0.0.0.0"@ && usable(net::ipv4_of(w[2])) {
        net::ipv4_of(w[2])
    } else {
        None
    }
}

/// The gateway behind the first `via` that has one.
pub open spec fn via_gateway(w: Seq<Seq<char>>) -> Option<Ipv4Addr>
    decreases w.len(),
{
    if w.len() < 2 {
        None
    } else if w[0] == "via"@ && usable(net::ipv4_of(w[1])) {
        net::ipv4_of(w[1])
    } else {
        via_gateway(w.drop_first())
    }
}

/// The number of at most 32 bits that hexadecimal digits stand for, with or without a plus sign
/// before them.
pub open spec fn hex_word_of(s: Seq<char>) -> Option<nat> {
    let d = number::without_plus(s);
    if d.len() > 0 && identity::all_hex(d) && identity::hex_value(d) <= u32::MAX {
        Some(identity::hex_value(d))
    } else {
        None
    }
}

/// The address whose octets are those of a number, the least significant first.
pub open spec fn reversed_address(n: nat) -> Ipv4Addr {
    Ipv4Addr {
        a: (n % 256) as u8,
        b: (n / 256 % 256) as u8,
        c: (n / 65536 % 256) as u8,
        d: (n / 16777216 % 256) as u8,
    }
}

/// The gateway that one line of `/proc/net/route` tells: the third word in hexadecimal, where the
/// second is the default destination.
pub open spec fn table_gateway(line: Seq<char>) -> Option<Ipv4Addr> {
    let w = text::words_of(line);
    if w.len() >= 3 && w[1] == "00000000"@ {
        match hex_word_of(w[2]) {
            Some(n) => if usable(Some(reversed_address(n))) {
                Some(reversed_address(n))
            } else {
                None
            },
            None => None,
        }
    } else {
        None
    }
}

/// The first gateway in what `route print 0.0.0.0` prints.
pub open spec fn route_print_gateway(output: Seq<char>) -> Option<Ipv4Addr> {
    text::first_some(text::lines_of(output), |l: Seq<char>| printed_gateway(l))
}

/// The first gateway in what `ip route show default` prints.
pub open spec fn ip_route_gateway(output: Seq<char>) -> Option<Ipv4Addr> {
    text::first_some(text::lines_of(output), |l: Seq<char>| via_gateway(text::words_of(l)))
}

/// The first gateway in `/proc/net/route`, behind its heading.
pub open spec fn proc_route_gateway(content: Seq<char>) -> Option<Ipv4Addr> {
    let l = text::lines_of(content);
    text::first_some(
        if l.len() > 0 {
            l.drop_first()
        } else {
            l
        },
        |l: Seq<char>| table_gateway(l),
    )
}

fn usable_address(s: &str) -> (r: Option<Ipv4Addr>)
    ensures
        r == (if usable(net::ipv4_of(s@)) {
            net::ipv4_of(s@)
        } else {
            None
        }),
{
    match parse_ipv4(s) {
        Some(gw) => if gw.is_unspecified() || gw.is_loopback() {
            None
        } else {
            Some(gw)
        },
        None => None,
    }
}

/// The first gateway in what `route print 0.0.0.0` prints.
pub fn gateway_in_route_print(output: &str) -> (r: Option<Ipv4Addr>)
    ensures
        r == route_print_gateway(output@),
{
    let all: Vec<String> = lines(output);
    let ghost l = text::lines_of(output@);
    let ghost f = |l: Seq<char>| printed_gateway(l);
    assert(l.skip(0) =~= l);
    for i in 0..all.len()
        invariant
            text::texts(all@) == l,
            f == (|l: Seq<char>| printed_gateway(l)),
            text::first_some(l, f) == route_print_gateway(output@),
            text::first_some(l.skip(i as int), f) == text::first_some(l, f),
    {
        assert(l[i as int] == all@[i as int]@);
        assert(l.skip(i as int).drop_first() =~= l.skip(i + 1));
        let w: Vec<String> = words(all[i].as_str());
        let ghost ws = text::words_of(all@[i as int]@);
        if w.len() >= 4 {
            assert(ws[0] == w@[0]@ && ws[1] == w@[1]@ && ws[2] == w@[2]@);
            if same(w[0].as_str(), "0.0.0.0") && same(w[1].as_str(), "0.0.0.0") {
                if let Some(gw) = usable_address(w[2].as_str()) {
                    return Some(gw);
                }
            }
        }
    }
    None
}

fn gateway_after_via(w: &Vec<String>) -> (r: Option<Ipv4Addr>)
    ensures
        r == via_gateway(text::texts(w@)),
{
    let ghost ws = text::texts(w@);
    let mut i: usize = 0;
    assert(ws.skip(0) =~= ws);
    while w.len() >= 2 && i < w.len() - 1
        invariant
            ws == text::texts(w@),
            i <= w@.len(),
            via_gateway(ws.skip(i as int)) == via_gateway(ws),
        decreases w@.len() - i,
    {
        assert(ws[i as int] == w@[i as int]@ && ws[i + 1] == w@[i + 1]@);
        assert(ws.skip(i as int).drop_first() =~= ws.skip(i + 1));
        if same(w[i].as_str(), "via") {
            if let Some(gw) = usable_address(w[i + 1].as_str()) {
                return Some(gw);
            }
        }
        i = i + 1;
    }
    None
}

/// The first gateway in what `ip route show default` prints.
pub fn gateway_in_ip_route(output: &str) -> (r: Option<Ipv4Addr>)
    ensures
        r == ip_route_gateway(output@),
{
    let all: Vec<String> = lines(output);
    let ghost l = text::lines_of(output@);
    let ghost f = |l: Seq<char>| via_gateway(text::words_of(l));
    assert(l.skip(0) =~= l);
    for i in 0..all.len()
        invariant
            text::texts(all@) == l,
            f == (|l: Seq<char>| via_gateway(text::words_of(l))),
            text::first_some(l, f) == ip_route_gateway(output@),
            text::first_some(l.skip(i as int), f) == text::first_some(l, f),
    {
        assert(l[i as int] == all@[i as int]@);
        assert(l.skip(i as int).drop_first() =~= l.skip(i + 1));
        if let Some(gw) = gateway_after_via(&words(all[i].as_str())) {
            return Some(gw);
        }
    }
    None
}

proof fn lemma_hex_grows(s: Seq<char>, k: int)
    requires
        0 <= k <= s.len(),
    ensures
        identity::hex_value(s.take(k)) <= identity::hex_value(s),
    decreases s.len(),
{
    if k == s.len() {
        assert(s.take(k) =~= s);
    } else {
        assert(s.drop_last().take(k) =~= s.take(k));
        lemma_hex_grows(s.drop_last(), k);
    }
}

fn hex_word(s: &str) -> (r: Option<u32>)
    ensures
        match (r, hex_word_of(s@)) {
            (Some(n), Some(m)) => n == m,
            (None, None) => true,
            _ => false,
        },
{
    let v: Vec<char> = chars_of(s);
    let from: usize = if v.len() > 0 && v[0] == '+' {
        1
    } else {
        0
    };
    let ghost d = v@.skip(from as int);
    assert(d =~= number::without_plus(s@));
    if from == v.len() {
        return None;
    }
    let mut n: u32 = 0;
    let mut i: usize = from;
    assert(d.take(0) =~= Seq::<char>::empty());
    while i < v.len()
        invariant
            d == v@.skip(from as int),
            d == number::without_plus(s@),
            from <= i <= v@.len(),
            n == identity::hex_value(d.take(i - from)),
            forall|k: int| 0 <= k < i - from ==> identity::is_hex(#[trigger] d[k]),
        decreases v@.len() - i,
    {
        let c: char = v[i];
        assert(c == d[i - from]);
        let x: u32 = if '0' <= c && c <= '9' {
            c as u32 - 48
        } else if 'a' <= c && c <= 'f' {
            c as u32 - 87
        } else if 'A' <= c && c <= 'F' {
            c as u32 - 55
        } else {
            assert(!identity::is_hex(d[i - from]));
            return None;
        };
        let next: u64 = n as u64 * 16 + x as u64;
        proof {
            assert(d.take(i - from + 1).drop_last() =~= d.take(i - from));
            assert(identity::hex_value(d.take(i - from + 1)) == next);
            lemma_hex_grows(d, i - from + 1);
        }
        if next > u32::MAX as u64 {
            return None;
        }
        n = next as u32;
        i = i + 1;
    }
    assert(d.take(d.len() as int) =~= d);
    Some(n)
}

/// The first gateway in `/proc/net/route`.
pub fn gateway_in_proc_route(content: &str) -> (r: Option<Ipv4Addr>)
    ensures
        r == proc_route_gateway(content@),
{
    let all: Vec<String> = lines(content);
    let ghost l = text::lines_of(content@);
    let ghost f = |l: Seq<char>| table_gateway(l);
    let ghost behind = if l.len() > 0 {
        l.drop_first()
    } else {
        l
    };
    if all.len() == 0 {
        return None;
    }
    assert(l.skip(1) =~= behind);
    for i in 1..all.len()
        invariant
            text::texts(all@) == l,
            f == (|l: Seq<char>| table_gateway(l)),
            text::first_some(behind, f) == proc_route_gateway(content@),
            text::first_some(l.skip(i as int), f) == text::first_some(behind, f),
    {
        assert(l[i as int] == all@[i as int]@);
        assert(l.skip(i as int).drop_first() =~= l.skip(i + 1));
        let w: Vec<String> = words(all[i].as_str());
        let ghost ws = text::words_of(all@[i as int]@);
        if w.len() >= 3 {
            assert(ws[1] == w@[1]@ && ws[2] == w@[2]@);
            if same(w[1].as_str(), "00000000") {
                if let Some(n) = hex_word(w[2].as_str()) {
                    let gw = Ipv4Addr {
                        a: (n % 256) as u8,
                        b: (n / 256 % 256) as u8,
                        c: (n / 65536 % 256) as u8,
                        d: (n / 16777216 % 256) as u8,
                    };
                    if !gw.is_unspecified() && !gw.is_loopback() {
                        return Some(gw);
                    }
                }
            }
        }
    }
    None
}

/// The default gateway: on Unix from `ip route show default`, else from `/proc/net/route`, and
/// on either platform from `route print 0.0.0.0`. Each is given if it could be had.
pub fn default_gateway(
    windows: bool,
    ip_route: Option<&[u8]>,
    proc_route: Option<&str>,
    route_print: Option<&[u8]>,
) -> (r: Option<Ipv4Addr>)
    ensures
        !windows && (ip_route matches Some(b) && ip_route_gateway(text::text_of(b@)) is Some) ==> r
            == ip_route_gateway(text::text_of(ip_route->0@)),
        !windows && !(ip_route matches Some(b) && ip_route_gateway(text::text_of(b@)) is Some) && (
        proc_route matches Some(s) && proc_route_gateway(s@) is Some) ==> r == proc_route_gateway(
            proc_route->0@,
        ),
        (windows || !(ip_route matches Some(b) && ip_route_gateway(text::text_of(b@)) is Some) && !(
        proc_route matches Some(s) && proc_route_gateway(s@) is Some)) ==> r == match route_print {
            Some(b) => route_print_gateway(text::text_of(b@)),
            None => None,
        },
{
    if !windows {
        if let Some(b) = ip_route {
            if let Some(gw) = gateway_in_ip_route(decode(b).as_str()) {
                return Some(gw);
            }
        }
        if let Some(s) = proc_route {
            if let Some(gw) = gateway_in_proc_route(s) {
                return Some(gw);
            }
        }
    }
    match route_print {
        Some(b) => gateway_in_route_print(decode(b).as_str()),
        None => None,
    }
}

// ---------------------------------------------------------------------------------------------
// Laws
// ---------------------------------------------------------------------------------------------
/// Which names are of virtual interfaces: those that hold one of these words, and no others.
pub proof fn lemma_virtual_words(name: Seq<char>)
    ensures
        virtual_name(name) <==> {
            ||| text::contains(name, "wsl"@)
            ||| text::contains(name, "hyper-v"@)
            ||| text::contains(name, "hyperv"@)
            ||| text::contains(name, "vmware"@)
            ||| text::contains(name, "virtualbox"@)
            ||| text::contains(name, "vbox"@)
            ||| text::contains(name, "docker"@)
            ||| text::contains(name, "veth"@)
            ||| text::contains(name, "virbr"@)
            ||| text::contains(name, "vibr"@)
            ||| text::contains(name, "lxc"@)
            ||| text::contains(name, "lxdbr"@)
            ||| text::contains(name, "br-"@)
            ||| text::contains(name, "wg"@)
            ||| text::contains(name, "tun"@)
        },
{
    let p = virtual_patterns();
    assert(p[0] == "wsl"@);
    assert(p[1] == "hyper-v"@);
    assert(p[2] == "hyperv"@);
    assert(p[3] == "vmware"@);
    assert(p[4] == "virtualbox"@);
    assert(p[5] == "vbox"@);
    assert(p[6] == "docker"@);
    assert(p[7] == "veth"@);
    assert(p[8] == "virbr"@);
    assert(p[9] == "vibr"@);
    assert(p[10] == "lxc"@);
    assert(p[11] == "lxdbr"@);
    assert(p[12] == "br-"@);
    assert(p[13] == "wg"@);
    assert(p[14] == "tun"@);
}

/// The configuration is kept below `APPDATA` on Windows; elsewhere below `XDG_CONFIG_HOME`, or else
/// below `.config` in the home directory; where none is given below the working directory.
pub proof fn lemma_config_path_is(
    appdata: Option<String>,
    xdg_config_home: Option<String>,
    home: Option<String>,
)
    ensures
        given(appdata) ==> config_path(true, appdata, xdg_config_home, home) == seq![
            appdata->0@,
            "playpnp"@,
        ],
        !given(appdata) ==> config_path(true, appdata, xdg_config_home, home) == seq![
            "."@,
            "playpnp"@,
        ],
        given(xdg_config_home) ==> config_path(false, appdata, xdg_config_home, home) == seq![
            xdg_config_home->0@,
            "playpnp"@,
        ],
        !given(xdg_config_home) && given(home) ==> config_path(
            false,
            appdata,
            xdg_config_home,
            home,
        ) == seq![home->0@, ".config"@, "playpnp"@],
        !given(xdg_config_home) && !given(home) ==> config_path(
            false,
            appdata,
            xdg_config_home,
            home,
        ) == seq!["."@, "playpnp"@],
        given(home) <==> home is Some && home->0@.len() > 0,
{
}

/// The machine is called by the first of its names that is not empty, and `PC` where all are.
pub proof fn lemma_host_name_is(
    computername: Option<String>,
    hostname: Option<String>,
    system: Option<String>,
    etc_hostname: Option<String>,
)
    ensures
        ({
            let told = host_name(computername, hostname, system, etc_hostname);
            let some = |v: Option<String>| v is Some && v->0@.len() > 0;
            let none = !some(computername) && !some(hostname) && !some(system);
            &&& some(computername) ==> told == computername->0@
            &&& !some(computername) && some(hostname) ==> told == hostname->0@
            &&& !some(computername) && !some(hostname) && some(system) ==> told == system->0@
            &&& none && etc_hostname is Some && text::trim_of(etc_hostname->0@).len() > 0 ==> told
                == text::trim_of(etc_hostname->0@)
            &&& none && (etc_hostname is None || text::trim_of(etc_hostname->0@).len() == 0)
                ==> told == "PC"@
        }),
{
}

/// VLC is launched with its remote control at the port on this machine.
pub proof fn lemma_vlc_is_controlled(windows: bool, rc_port: nat, intf: Seq<char>)
    ensures
        ({
            let args = vlc_arguments(windows, rc_port, intf);
            &&& args[0] == "--extraintf"@ && args[1] == intf
            &&& args[2] == "--rc-host"@ && args[3] == "127.0.0.1:"@ + number::decimal_of(rc_port)
            &&& args.contains("--fullscreen"@)
            &&& args.contains("--audio-language=en,eng,English"@)
            &&& windows ==> args.contains("--rc-quiet"@)
            &&& args.len() == if windows {
                14int
            } else {
                12int
            }
        }),
{
    let args = vlc_arguments(windows, rc_port, intf);
    assert(args[5] == "--fullscreen"@);
    assert(args[6] == "--audio-language=en,eng,English"@);
    if windows {
        assert(args[12] == "--rc-quiet"@);
    }
}

/// An address is opened by the command of the platform, which is given the address last.
pub proof fn lemma_url_is_opened(macos: bool, url: Seq<char>)
    ensures
        open_command(true, macos, url)[0] == "cmd"@,
        open_command(false, true, url)[0] == "open"@,
        open_command(false, false, url)[0] == "xdg-open"@,
        open_command(true, macos, url).last() == url,
        open_command(false, macos, url).last() == url,
        open_command(false, macos, url).len() == 2,
{
}

/// The default gateway is the address behind the first `via` of a line that leads outside.
pub proof fn lemma_gateway_behind_via(words: Seq<Seq<char>>, k: int, ip: Ipv4Addr)
    requires
        0 <= k < words.len() - 1,
        words[k] == "via"@,
        words[k + 1] == ip.dotted(),
        ip.a != 127,
        !(ip.a == 0 && ip.b == 0 && ip.c == 0 && ip.d == 0),
        forall|j: int| 0 <= j < k ==> #[trigger] words[j] != "via"@,
    ensures
        via_gateway(words) == Some(ip),
    decreases k,
{
    net::lemma_ipv4_reads_back(ip);
    if k > 0 {
        assert(words[0] != "via"@);
        let rest = words.drop_first();
        assert forall|j: int| 0 <= j < k - 1 implies #[trigger] rest[j] != "via"@ by {
            assert(words[j + 1] != "via"@);
        }
        lemma_gateway_behind_via(rest, k - 1, ip);
    }
}

/// A line `default via` and an address tells that address.
pub proof fn lemma_default_via(ip: Ipv4Addr, rest: Seq<char>)
    requires
        ip.a != 127,
        !(ip.a == 0 && ip.b == 0 && ip.c == 0 && ip.d == 0),
    ensures
        via_gateway(text::words_of("default via "@ + (ip.dotted().push(' ') + rest))) == Some(ip),
{
    reveal_strlit("default via ");
    reveal_strlit("default");
    reveal_strlit("via");
    net::lemma_dotted_is_word(ip);
    let tail = ip.dotted().push(' ') + rest;
    let line = "default via "@ + tail;
    assert(line =~= "default"@.push(' ') + ("via"@.push(' ') + tail));
    assert(text::free_of("default"@, text::CharSet::White));
    assert(text::free_of("via"@, text::CharSet::White));
    text::lemma_word_then("default"@, ' ', "via"@.push(' ') + tail);
    text::lemma_word_then("via"@, ' ', tail);
    text::lemma_word_then(ip.dotted(), ' ', rest);
    let words = text::words_of(line);
    assert(words =~= seq!["default"@, "via"@, ip.dotted()] + text::words_of(rest));
    assert("default"@.len() != "via"@.len());
    lemma_gateway_behind_via(words, 1, ip);
}

/// A line of `route print` tells the gateway in its third word, where the first two are 0.0.0.0.
pub proof fn lemma_printed_route(line: Seq<char>, ip: Ipv4Addr)
    requires
        text::words_of(line).len() >= 4,
        text::words_of(line)[2] == ip.dotted(),
        ip.a != 127,
        !(ip.a == 0 && ip.b == 0 && ip.c == 0 && ip.d == 0),
    ensures
        text::words_of(line)[0] == "0.0.0.0"@ && text::words_of(line)[1] == "0.0.0.0"@
            ==> printed_gateway(line) == Some(ip),
        text::words_of(line)[0] != "0.0.0.0"@ || text::words_of(line)[1] != "0.0.0.0"@
            ==> printed_gateway(line) is None,
{
    net::lemma_ipv4_reads_back(ip);
}

/// A line of the routing table tells the gateway as a hexadecimal word with its first octet last.
pub proof fn lemma_table_route(line: Seq<char>, ip: Ipv4Addr)
    requires
        text::words_of(line).len() >= 3,
        text::words_of(line)[2] == identity::hex_of(
            (ip.d * 0x100_0000 + ip.c * 0x1_0000 + ip.b * 0x100 + ip.a) as nat,
            8,
        ),
        ip.a != 127,
        !(ip.a == 0 && ip.b == 0 && ip.c == 0 && ip.d == 0),
    ensures
        text::words_of(line)[1] == "00000000"@ ==> table_gateway(line) == Some(ip),
        text::words_of(line)[1] != "00000000"@ ==> table_gateway(line) is None,
{
    let n = (ip.d * 0x100_0000 + ip.c * 0x1_0000 + ip.b * 0x100 + ip.a) as nat;
    lemma_address_turned(ip, n);
    identity::lemma_hex_word(n);
    let s = identity::hex_of(n, 8);
    assert(identity::is_hex(s[0]));
    assert(number::without_plus(s) == s);
}

proof fn lemma_address_turned(ip: Ipv4Addr, n: nat)
    requires
        n == ip.d * 0x100_0000 + ip.c * 0x1_0000 + ip.b * 0x100 + ip.a,
    ensures
        reversed_address(n) == ip,
        n <= u32::MAX,
{
    let x: int = ip.d * 0x100 + ip.c;
    let y: int = x * 0x100 + ip.b;
    assert(n == y * 0x100 + ip.a);
    assert(n % 256 == ip.a && n / 256 == y);
    assert(y % 256 == ip.b && y / 256 == x);
    assert(x % 256 == ip.c && x / 256 == ip.d);
    assert(n / 65536 == x);
    assert(n / 16777216 == ip.d);
}

/// The first line that tells a gateway counts; the first line of the routing table is its heading.
pub proof fn lemma_first_gateway_counts(output: Seq<char>, i: int)
    requires
        0 <= i < text::lines_of(output).len(),
    ensures
        ({
            let l = text::lines_of(output);
            &&& via_gateway(text::words_of(l[i])) is Some && (forall|j: int|
                0 <= j < i ==> via_gateway(text::words_of(#[trigger] l[j])) is None)
                ==> ip_route_gateway(output) == via_gateway(text::words_of(l[i]))
            &&& printed_gateway(l[i]) is Some && (forall|j: int|
                0 <= j < i ==> printed_gateway(#[trigger] l[j]) is None) ==> route_print_gateway(
                output,
            ) == printed_gateway(l[i])
            &&& i > 0 && table_gateway(l[i]) is Some && (forall|j: int|
                0 < j < i ==> table_gateway(#[trigger] l[j]) is None) ==> proc_route_gateway(output)
                == table_gateway(l[i])
        }),
{
    let l = text::lines_of(output);
    let via = |l: Seq<char>| via_gateway(text::words_of(l));
    let printed = |l: Seq<char>| printed_gateway(l);
    let table = |l: Seq<char>| table_gateway(l);
    if via_gateway(text::words_of(l[i])) is Some && (forall|j: int|
        0 <= j < i ==> via_gateway(text::words_of(#[trigger] l[j])) is None) {
        assert forall|j: int| 0 <= j < i implies #[trigger] via(l[j]) is None by {
            assert(via_gateway(text::words_of(l[j])) is None);
        }
        text::lemma_first_is(l, via, i);
    }
    if printed_gateway(l[i]) is Some && (forall|j: int|
        0 <= j < i ==> printed_gateway(#[trigger] l[j]) is None) {
        assert forall|j: int| 0 <= j < i implies #[trigger] printed(l[j]) is None by {
            assert(printed_gateway(l[j]) is None);
        }
        text::lemma_first_is(l, printed, i);
    }
    if i > 0 && table_gateway(l[i]) is Some && (forall|j: int|
        0 < j < i ==> table_gateway(#[trigger] l[j]) is None) {
        let rest = l.drop_first();
        assert forall|j: int| 0 <= j < i - 1 implies #[trigger] table(rest[j]) is None by {
            assert(table_gateway(l[j + 1]) is None);
        }
        assert(rest[i - 1] == l[i]);
        text::lemma_first_is(rest, table, i - 1);
    }
}

/// No address of this machine itself is a gateway, nor 0.0.0.0; any other is, whichever source
/// tells it.
pub proof fn lemma_gateways_lead_outside(ip: Ipv4Addr, words: Seq<Seq<char>>)
    requires
        words.len() == 2,
        words[0] == "via"@,
        words[1] == ip.dotted(),
    ensures
        usable(Some(ip)) <==> ip.a != 127 && !(ip.a == 0 && ip.b == 0 && ip.c == 0 && ip.d == 0),
        !usable(None),
        ip.a == 127 || (ip.a == 0 && ip.b == 0 && ip.c == 0 && ip.d == 0) ==> via_gateway(
            words,
        ) is None,
{
    net::lemma_ipv4_reads_back(ip);
    reveal_with_fuel(via_gateway, 2);
    assert(words.drop_first().len() == 1);
}

} // verus!
