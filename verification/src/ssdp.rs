//! Discovery: what the renderer announces of itself and how it answers searches.

use vstd::prelude::*;
use vstd::string::*;

use crate::config;
use crate::config::{EndpointModel, NetworkEndpoint, Peers, pick_ip_for_target, register_peer};
use crate::identity;
use crate::net::{IpAddr, Ipv4Addr};
use crate::number;
use crate::number::decimal;
use crate::platform;
use crate::platform::server_header_on;
use crate::state;
use crate::text;
use crate::text::{CharSet, equals_but_case, find, has, lines, lower, strict_text, strip, trim, upper};
use crate::time;
use crate::time::Duration;

verus! {

/// The port that SSDP uses.
pub const MULTICAST_PORT: u16 = 1900;

/// The seconds for which an announcement holds.
pub const MAX_AGE: u32 = 1800;

/// The address that SSDP multicasts to, 239.255.255.250.
pub open spec fn multicast_group() -> Ipv4Addr {
    Ipv4Addr { a: 239, b: 255, c: 255, d: 250 }
}

/// The address that SSDP multicasts to.
pub fn multicast_addr() -> (r: Ipv4Addr)
    ensures
        r == multicast_group(),
{
    Ipv4Addr { a: 239, b: 255, c: 255, d: 250 }
}

// ---------------------------------------------------------------------------------------------
// Messages
// ---------------------------------------------------------------------------------------------
/// What the renderer announces.
#[derive(Debug)]
pub struct SsdpServer {
    pub windows: bool,
    /// The unique device name.
    pub config_uuid: String,
    pub friendly_name: String,
    pub local_ip: IpAddr,
    pub http_port: u16,
}

/// What the renderer announces, with texts as sequences.
pub struct ServerModel {
    pub windows: bool,
    pub config_uuid: Seq<char>,
    pub friendly_name: Seq<char>,
    pub local_ip: IpAddr,
    pub http_port: u16,
}

impl View for SsdpServer {
    type V = ServerModel;

    open spec fn view(&self) -> ServerModel {
        ServerModel {
            windows: self.windows,
            config_uuid: self.config_uuid@,
            friendly_name: self.friendly_name@,
            local_ip: self.local_ip,
            http_port: self.http_port,
        }
    }
}

/// What is announced: the device, its name, its type, and the types of its services.
#[derive(Debug, Clone, Copy, PartialEq, Eq, Structural)]
pub enum Target {
    Root,
    Device,
    Renderer,
    AvTransport,
    RenderingControl,
    ConnectionManager,
}

/// The targets in the order in which they are announced.
pub open spec fn all_targets() -> Seq<Target> {
    seq![
        Target::Root,
        Target::Device,
        Target::Renderer,
        Target::AvTransport,
        Target::RenderingControl,
        Target::ConnectionManager,
    ]
}

impl ServerModel {
    /// The URL of the device description.
    pub open spec fn location(self, ip: Ipv4Addr) -> Seq<char> {
        "http://"@ + ip.dotted() + ":"@ + number::decimal_of(self.http_port as nat)
            + "/description.xml"@
    }

    /// The notification or search type of a target.
    pub open spec fn target_type(self, t: Target) -> Seq<char> {
        match t {
            Target::Root => "upnp:rootdevice"@,
            Target::Device => self.config_uuid,
            Target::Renderer => "urn:schemas-upnp-org:device:MediaRenderer:1"@,
            Target::AvTransport => "urn:schemas-upnp-org:service:AVTransport:1"@,
            Target::RenderingControl => "urn:schemas-upnp-org:service:RenderingControl:1"@,
            Target::ConnectionManager => "urn:schemas-upnp-org:service:ConnectionManager:1"@,
        }
    }

    /// The unique service name of a target.
    pub open spec fn usn(self, t: Target) -> Seq<char> {
        match t {
            Target::Device => self.config_uuid,
            _ => self.config_uuid + "::"@ + self.target_type(t),
        }
    }

    /// A `NOTIFY` message.
    pub open spec fn notify_text(
        self,
        ip: Ipv4Addr,
        nt: Seq<char>,
        usn: Seq<char>,
        nts: Seq<char>,
    ) -> Seq<char> {
        "NOTIFY * HTTP/1.1\r\nHOST: 239.255.255.250:1900\r\nCACHE-CONTROL: max-age=1800\r\nLOCATION: "@
            + self.location(ip) + "\r\nNT: "@ + nt + "\r\nNTS: "@ + nts + "\r\nSERVER: "@
            + platform::server_text(self.windows) + "\r\nUSN: "@ + usn
            + "\r\nBOOTID.UPNP.ORG: 1\r\nCONFIGID.UPNP.ORG: 1\r\n\r\n"@
    }

    /// The `NOTIFY` message for a target.
    pub open spec fn notice(self, ip: Ipv4Addr, t: Target, nts: Seq<char>) -> Seq<char> {
        self.notify_text(ip, self.target_type(t), self.usn(t), nts)
    }

    /// The `NOTIFY` messages for all targets.
    pub open spec fn notices(self, ip: Ipv4Addr, nts: Seq<char>) -> Seq<Seq<char>> {
        all_targets().map_values(|t: Target| self.notice(ip, t, nts))
    }

    /// The answer to a search for a target.
    pub open spec fn search_answer(self, ip: Ipv4Addr, t: Target) -> Seq<char> {
        "HTTP/1.1 200 OK\r\nCACHE-CONTROL: max-age=1800\r\nEXT:\r\nLOCATION: "@ + self.location(ip)
            + "\r\nSERVER: "@ + platform::server_text(self.windows) + "\r\nST: "@
            + self.target_type(t) + "\r\nUSN: "@ + self.usn(t)
            + "\r\nBOOTID.UPNP.ORG: 1\r\nCONFIGID.UPNP.ORG: 1\r\n\r\n"@
    }

    /// The target that a search for `st` finds, where `lower` is `st` in small letters.
    pub open spec fn found(self, st: Seq<char>, lower: Seq<char>) -> Option<Target> {
        if text::same_but_case(st, "ssdp:all"@) || text::same_but_case(st, "upnp:rootdevice"@) {
            Some(Target::Root)
        } else if text::same_but_case(st, self.config_uuid) {
            Some(Target::Device)
        } else if text::contains(lower, "mediarenderer"@) {
            Some(Target::Renderer)
        } else if text::contains(lower, "avtransport"@) {
            Some(Target::AvTransport)
        } else if text::contains(lower, "renderingcontrol"@) {
            Some(Target::RenderingControl)
        } else if text::contains(lower, "connectionmanager"@) {
            Some(Target::ConnectionManager)
        } else {
            None
        }
    }

    /// The answer to a search for `st`.
    pub open spec fn answer(self, st: Seq<char>, ip: Ipv4Addr) -> Option<Seq<char>> {
        let clean = unquoted(st);
        match self.found(clean, text::lower_of(clean)) {
            Some(t) => Some(self.search_answer(ip, t)),
            None => None,
        }
    }

    /// The answers to a search for everything: one for each target, by its own type.
    pub open spec fn all_answers(self, ip: Ipv4Addr) -> Seq<Option<Seq<char>>> {
        all_targets().map_values(|t: Target| self.answer(self.target_type(t), ip))
    }
}

/// A search type without white space and quotes round it.
pub open spec fn unquoted(st: Seq<char>) -> Seq<char> {
    text::strip_of(text::strip_of(text::trim_of(st), CharSet::One('"')), CharSet::One('\''))
}

fn unquote<'a>(st: &'a str) -> (r: &'a str)
    ensures
        r@ == unquoted(st@),
{
    strip(strip(trim(st), CharSet::One('"')), CharSet::One('\''))
}

impl SsdpServer {
    /// The announcements of a renderer on the given platform.
    pub fn on_platform(
        windows: bool,
        uuid: String,
        friendly_name: String,
        local_ip: IpAddr,
        http_port: u16,
    ) -> (r: SsdpServer)
        ensures
            r@ == (ServerModel {
                windows,
                config_uuid: uuid@,
                friendly_name: friendly_name@,
                local_ip,
                http_port,
            }),
    {
        SsdpServer { windows, config_uuid: uuid, friendly_name, local_ip, http_port }
    }

    /// The announcements of a renderer with the given unique device name, which describes itself at
    /// the given port.
    pub fn new(uuid: String, friendly_name: String, local_ip: IpAddr, http_port: u16) -> (r:
        SsdpServer)
        ensures
            r@ == (ServerModel {
                windows: r@.windows,
                config_uuid: uuid@,
                friendly_name: friendly_name@,
                local_ip,
                http_port,
            }),
    {
        SsdpServer::on_platform(platform::is_windows(), uuid, friendly_name, local_ip, http_port)
    }

    /// The URL of the device description.
    pub fn location_for_ip(&self, ip: Ipv4Addr) -> (r: String)
        ensures
            r@ == self@.location(ip),
    {
        let mut s = "http://".to_owned();
        s.append(ip.to_text().as_str());
        s.append(":");
        s.append(decimal(self.http_port as u64).as_str());
        s.append("/description.xml");
        s
    }

    fn type_of(&self, t: Target) -> (r: &str)
        ensures
            r@ == self@.target_type(t),
    {
        match t {
            Target::Root => "upnp:rootdevice",
            Target::Device => self.config_uuid.as_str(),
            Target::Renderer => "urn:schemas-upnp-org:device:MediaRenderer:1",
            Target::AvTransport => "urn:schemas-upnp-org:service:AVTransport:1",
            Target::RenderingControl => "urn:schemas-upnp-org:service:RenderingControl:1",
            Target::ConnectionManager => "urn:schemas-upnp-org:service:ConnectionManager:1",
        }
    }

    /// The unique service name of the target.
    pub fn usn_of(&self, t: Target) -> (r: String)
        ensures
            r@ == self@.usn(t),
    {
        let mut s = self.config_uuid.clone();
        if t != Target::Device {
            s.append("::");
            s.append(self.type_of(t));
        }
        s
    }

    pub fn usn_root(&self) -> (r: String)
        ensures
            r@ == self@.usn(Target::Root),
    {
        self.usn_of(Target::Root)
    }

    pub fn usn_renderer(&self) -> (r: String)
        ensures
            r@ == self@.usn(Target::Renderer),
    {
        self.usn_of(Target::Renderer)
    }

    pub fn usn_avtransport(&self) -> (r: String)
        ensures
            r@ == self@.usn(Target::AvTransport),
    {
        self.usn_of(Target::AvTransport)
    }

    pub fn usn_rendering(&self) -> (r: String)
        ensures
            r@ == self@.usn(Target::RenderingControl),
    {
        self.usn_of(Target::RenderingControl)
    }

    pub fn usn_connection(&self) -> (r: String)
        ensures
            r@ == self@.usn(Target::ConnectionManager),
    {
        self.usn_of(Target::ConnectionManager)
    }

    /// A `NOTIFY` message.
    pub fn notify_message_for_ip(&self, ip: Ipv4Addr, nt: &str, usn: &str, nts: &str) -> (r: String)
        ensures
            r@ == self@.notify_text(ip, nt@, usn@, nts@),
    {
        let mut s =
            "NOTIFY * HTTP/1.1\r\nHOST: 239.255.255.250:1900\r\nCACHE-CONTROL: max-age=1800\r\nLOCATION: ".to_owned();
        s.append(self.location_for_ip(ip).as_str());
        s.append("\r\nNT: ");
        s.append(nt);
        s.append("\r\nNTS: ");
        s.append(nts);
        s.append("\r\nSERVER: ");
        s.append(server_header_on(self.windows));
        s.append("\r\nUSN: ");
        s.append(usn);
        s.append("\r\nBOOTID.UPNP.ORG: 1\r\nCONFIGID.UPNP.ORG: 1\r\n\r\n");
        s
    }

    fn notice_for(&self, ip: Ipv4Addr, t: Target, nts: &str) -> (r: String)
        ensures
            r@ == self@.notice(ip, t, nts@),
    {
        self.notify_message_for_ip(ip, self.type_of(t), self.usn_of(t).as_str(), nts)
    }

    fn messages_for_ip(&self, ip: Ipv4Addr, nts: &str) -> (r: Vec<String>)
        ensures
            text::texts(r@) == self@.notices(ip, nts@),
    {
        let mut r: Vec<String> = Vec::new();
        r.push(self.notice_for(ip, Target::Root, nts));
        r.push(self.notice_for(ip, Target::Device, nts));
        r.push(self.notice_for(ip, Target::Renderer, nts));
        r.push(self.notice_for(ip, Target::AvTransport, nts));
        r.push(self.notice_for(ip, Target::RenderingControl, nts));
        r.push(self.notice_for(ip, Target::ConnectionManager, nts));
        assert(text::texts(r@) =~= self@.notices(ip, nts@));
        r
    }

    /// The messages that announce the renderer.
    pub fn alive_messages_for_ip(&self, ip: Ipv4Addr) -> (r: Vec<String>)
        ensures
            text::texts(r@) == self@.notices(ip, "ssdp:alive"@),
    {
        self.messages_for_ip(ip, "ssdp:alive")
    }

    /// The messages that take the announcement back.
    pub fn byebye_messages_for_ip(&self, ip: Ipv4Addr) -> (r: Vec<String>)
        ensures
            text::texts(r@) == self@.notices(ip, "ssdp:byebye"@),
    {
        self.messages_for_ip(ip, "ssdp:byebye")
    }

    // -----------------------------------------------------------------------------------------
    // Searches
    // -----------------------------------------------------------------------------------------
    /// The target that a search for `st` finds, where `lower` is `st` in small letters.
    pub fn target_for(&self, st: &str, lower: &str) -> (r: Option<Target>)
        ensures
            r == self@.found(st@, lower@),
    {
        if equals_but_case(st, "ssdp:all") || equals_but_case(st, "upnp:rootdevice") {
            Some(Target::Root)
        } else if equals_but_case(st, self.config_uuid.as_str()) {
            Some(Target::Device)
        } else if has(lower, "mediarenderer") {
            Some(Target::Renderer)
        } else if has(lower, "avtransport") {
            Some(Target::AvTransport)
        } else if has(lower, "renderingcontrol") {
            Some(Target::RenderingControl)
        } else if has(lower, "connectionmanager") {
            Some(Target::ConnectionManager)
        } else {
            None
        }
    }

    fn answer_for(&self, ip: Ipv4Addr, t: Target) -> (r: String)
        ensures
            r@ == self@.search_answer(ip, t),
    {
        let mut s =
            "HTTP/1.1 200 OK\r\nCACHE-CONTROL: max-age=1800\r\nEXT:\r\nLOCATION: ".to_owned();
        s.append(self.location_for_ip(ip).as_str());
        s.append("\r\nSERVER: ");
        s.append(server_header_on(self.windows));
        s.append("\r\nST: ");
        s.append(self.type_of(t));
        s.append("\r\nUSN: ");
        s.append(self.usn_of(t).as_str());
        s.append("\r\nBOOTID.UPNP.ORG: 1\r\nCONFIGID.UPNP.ORG: 1\r\n\r\n");
        s
    }

    /// The answer to a search for `st`, if the renderer has it.
    pub fn msearch_response_for_ip(&self, st: &str, ip: Ipv4Addr) -> (r: Option<String>)
        ensures
            match (r, self@.answer(st@, ip)) {
                (Some(x), Some(y)) => x@ == y,
                (None, None) => true,
                _ => false,
            },
    {
        let clean: &str = unquote(st);
        match self.target_for(clean, lower(clean).as_str()) {
            Some(t) => Some(self.answer_for(ip, t)),
            None => None,
        }
    }

    /// The answers to a search for everything, one for each target; nothing where a target is not
    /// found by its own type, which only a device name with quotes or white space round it can be.
    pub fn msearch_responses_for_all_for_ip(&self, ip: Ipv4Addr) -> (r: Option<Vec<String>>)
        ensures
            r matches Some(v) ==> self@.all_answers(ip) == text::texts(v@).map_values(
                |s: Seq<char>| Some(s),
            ),
            r is None ==> self@.all_answers(ip).contains(None),
    {
        let mut v: Vec<String> = Vec::new();
        let ghost all = self@.all_answers(ip);
        for i in 0..6
            invariant
                all == self@.all_answers(ip),
                v@.len() == i,
                forall|k: int| 0 <= k < i ==> all[k] == Some((#[trigger] v@[k])@),
        {
            let t: Target = match i {
                0 => Target::Root,
                1 => Target::Device,
                2 => Target::Renderer,
                3 => Target::AvTransport,
                4 => Target::RenderingControl,
                _ => Target::ConnectionManager,
            };
            assert(t == all_targets()[i as int]);
            match self.msearch_response_for_ip(self.type_of(t), ip) {
                Some(s) => {
                    v.push(s);
                },
                None => {
                    assert(all[i as int] is None);
                    return None;
                },
            }
        }
        assert(text::texts(v@).map_values(|s: Seq<char>| Some(s)) =~= all);
        Some(v)
    }
}

/// The value of the line `name: value`, where the name of the header matches in any case.
pub open spec fn header_in(line: Seq<char>, name: Seq<char>) -> Option<Seq<char>> {
    match text::find_of(line, ":"@) {
        Some(i) => if text::same_but_case(text::trim_of(line.take(i)), name) {
            Some(text::trim_of(line.skip(i + 1)))
        } else {
            None
        },
        None => None,
    }
}

/// The value of the first header of the name.
pub open spec fn header_of(message: Seq<char>, name: Seq<char>) -> Option<Seq<char>> {
    text::first_some(text::lines_of(message), |l: Seq<char>| header_in(l, name))
}

/// The value of the first header of the name.
pub fn extract_header(message: &str, name: &str) -> (r: Option<String>)
    ensures
        match (r, header_of(message@, name@)) {
            (Some(x), Some(y)) => x@ == y,
            (None, None) => true,
            _ => false,
        },
{
    proof {
        reveal_strlit(":");
    }
    let all: Vec<String> = lines(message);
    let ghost l = text::lines_of(message@);
    let ghost f = |l: Seq<char>| header_in(l, name@);
    assert(l.skip(0) =~= l);
    for i in 0..all.len()
        invariant
            text::texts(all@) == l,
            ":"@.len() == 1,
            f == (|l: Seq<char>| header_in(l, name@)),
            text::first_some(l, f) == header_of(message@, name@),
            text::first_some(l.skip(i as int), f) == text::first_some(l, f),
    {
        assert(l[i as int] == all@[i as int]@);
        assert(l.skip(i as int).drop_first() =~= l.skip(i + 1));
        let line: &str = all[i].as_str();
        if let Some(c) = find(line, ":") {
            let n: usize = line.unicode_len();
            assert(line@.subrange(0, c as int) =~= line@.take(c as int));
            assert(line@.subrange(c + 1, n as int) =~= line@.skip(c + 1));
            if equals_but_case(trim(line.substring_char(0, c)), name) {
                return Some(trim(line.substring_char(c + 1, n)).to_owned());
            }
        }
    }
    None
}

/// What a search asks for: its `ST` header, without quotes; empty where it has none.
pub open spec fn searched(message: Seq<char>) -> Seq<char> {
    unquoted(state::or_empty(header_of(message, "ST"@)))
}

impl ServerModel {
    /// The answers to a search, of which all must be had.
    pub open spec fn answers(self, message: Seq<char>, ip: Ipv4Addr) -> Seq<Option<Seq<char>>> {
        let st = searched(message);
        if text::same_but_case(st, "ssdp:all"@) {
            self.all_answers(ip)
        } else if self.answer(st, ip) is Some {
            seq![self.answer(st, ip)]
        } else {
            Seq::empty()
        }
    }
}

/// The peers after a message came from an address.
pub open spec fn met(peers: Set<Ipv4Addr>, from: IpAddr) -> Set<Ipv4Addr> {
    match from {
        IpAddr::V4(ip) => if config::is_remote(ip) {
            peers.insert(ip)
        } else {
            peers
        },
        IpAddr::V6 => peers,
    }
}

/// The datagram is a search: text that holds `M-SEARCH` in any case.
pub open spec fn is_search(data: Seq<u8>) -> bool {
    vstd::utf8::valid_utf8(data) && text::contains(
        text::upper_of(vstd::utf8::decode_utf8(data)),
        "M-SEARCH"@,
    )
}

/// Does a message, given in capital letters, hold a search?
pub fn holds_search(upper: &str) -> (r: bool)
    ensures
        r == text::contains(upper@, "M-SEARCH"@),
{
    has(upper, "M-SEARCH")
}

/// Is the datagram a search?
pub fn is_msearch(data: &[u8]) -> (r: bool)
    ensures
        r == is_search(data@),
{
    match strict_text(data) {
        Some(message) => holds_search(upper(message.as_str()).as_str()),
        None => false,
    }
}

impl SsdpServer {
    /// Takes a search from an address, which is remembered as a peer. Gives the answers to send
    /// back, which point to the local address that the sender can best reach; nothing where the
    /// device's own name cannot be searched for.
    pub fn handle_msearch(
        &self,
        message: &str,
        from: IpAddr,
        peers: &mut Peers,
        endpoints: &[NetworkEndpoint],
    ) -> (r: Option<Vec<String>>)
        ensures
            final(peers)@ == met(old(peers)@, from),
            r matches Some(v) ==> self@.answers(
                message@,
                config::picked_ip(config::models(endpoints@), from),
            ) == text::texts(v@).map_values(|s: Seq<char>| Some(s)),
            r is None ==> self@.answers(
                message@,
                config::picked_ip(config::models(endpoints@), from),
            ).contains(None),
    {
        proof {
            reveal_strlit("");
        }
        let st = match extract_header(message, "ST") {
            Some(s) => s,
            None => "".to_owned(),
        };
        let clean: &str = unquote(st.as_str());
        if let IpAddr::V4(ip) = from {
            register_peer(peers, ip);
        }
        let ip = pick_ip_for_target(endpoints, from);
        assert(clean@ == searched(message@)) by {
            assert(""@ =~= Seq::<char>::empty());
        }
        if equals_but_case(clean, "ssdp:all") {
            return self.msearch_responses_for_all_for_ip(ip);
        }
        let mut v: Vec<String> = Vec::new();
        if let Some(s) = self.msearch_response_for_ip(clean, ip) {
            v.push(s);
        }
        assert(text::texts(v@).map_values(|s: Seq<char>| Some(s)) =~= self@.answers(message@, ip));
        Some(v)
    }

    /// Takes a datagram from an address. Only a search is answered, and only its sender remembered
    /// as a peer.
    pub fn handle_datagram(
        &self,
        data: &[u8],
        from: IpAddr,
        peers: &mut Peers,
        endpoints: &[NetworkEndpoint],
    ) -> (r: Option<Vec<String>>)
        ensures
            !is_search(data@) ==> final(peers)@ == old(peers)@ && (r matches Some(v) && v@.len()
                == 0),
            is_search(data@) ==> final(peers)@ == met(old(peers)@, from),
            is_search(data@) && r is Some ==> self@.answers(
                vstd::utf8::decode_utf8(data@),
                config::picked_ip(config::models(endpoints@), from),
            ) == text::texts(r->0@).map_values(|s: Seq<char>| Some(s)),
            is_search(data@) && r is None ==> self@.answers(
                vstd::utf8::decode_utf8(data@),
                config::picked_ip(config::models(endpoints@), from),
            ).contains(None),
    {
        match strict_text(data) {
            Some(message) => if holds_search(upper(message.as_str()).as_str()) {
                self.handle_msearch(message.as_str(), from, peers, endpoints)
            } else {
                Some(Vec::new())
            },
            None => Some(Vec::new()),
        }
    }
}

// ---------------------------------------------------------------------------------------------
// Announcing
// ---------------------------------------------------------------------------------------------
/// Messages to send from one local address, all of them to each destination in turn.
#[derive(Debug)]
pub struct Dispatch {
    pub from: Ipv4Addr,
    pub to: Vec<Ipv4Addr>,
    pub messages: Vec<String>,
}

/// What a `Dispatch` holds.
pub struct DispatchModel {
    pub from: Ipv4Addr,
    pub to: Seq<Ipv4Addr>,
    pub messages: Seq<Seq<char>>,
}

impl View for Dispatch {
    type V = DispatchModel;

    open spec fn view(&self) -> DispatchModel {
        DispatchModel { from: self.from, to: self.to@, messages: text::texts(self.messages@) }
    }
}

/// What dispatches hold.
pub open spec fn plan_view(v: Seq<Dispatch>) -> Seq<DispatchModel> {
    v.map_values(|d: Dispatch| d@)
}

/// Where an endpoint's announcements go: the multicast group, the subnet's broadcast address, and
/// the gateway.
pub open spec fn destinations(e: EndpointModel) -> Seq<Ipv4Addr> {
    let group = seq![multicast_group()];
    let with_broadcast = match e.broadcast {
        Some(b) => group.push(b),
        None => group,
    };
    match e.gateway {
        Some(g) => with_broadcast.push(g),
        None => with_broadcast,
    }
}

impl ServerModel {
    /// The announcements of an endpoint.
    pub open spec fn endpoint_dispatch(self, e: EndpointModel, nts: Seq<char>) -> DispatchModel {
        DispatchModel {
            from: e.ip,
            to: destinations(e),
            messages: self.notices(e.ip, nts),
        }
    }

    /// The announcements of all endpoints.
    pub open spec fn plan(self, endpoints: Seq<EndpointModel>, nts: Seq<char>) -> Seq<
        DispatchModel,
    > {
        endpoints.map_values(|e: EndpointModel| self.endpoint_dispatch(e, nts))
    }

    /// The announcements to peers: from Tailscale's address, else from the first; none where there
    /// are no peers or no endpoints.
    pub open spec fn peer_dispatch(self, endpoints: Seq<EndpointModel>, peers: Seq<Ipv4Addr>) -> Option<
        DispatchModel,
    > {
        let source = state::either(
            config::first_ip(endpoints, |e: EndpointModel| e.is_tailscale),
            config::first_ip(endpoints, |e: EndpointModel| true),
        );
        match source {
            Some(ip) => if peers.len() > 0 {
                Some(
                    DispatchModel {
                        from: ip,
                        to: peers,
                        messages: self.notices(ip, "ssdp:alive"@),
                    },
                )
            } else {
                None
            },
            None => None,
        }
    }
}

fn destinations_of(e: &NetworkEndpoint) -> (r: Vec<Ipv4Addr>)
    ensures
        r@ == destinations(e@),
{
    let mut r: Vec<Ipv4Addr> = Vec::new();
    r.push(multicast_addr());
    assert(r@ =~= seq![multicast_group()]);
    if let Some(b) = e.broadcast {
        r.push(b);
    }
    if let Some(g) = e.gateway {
        r.push(g);
    }
    r
}

/// The local address that peers are notified from: Tailscale's, else the first.
fn peer_source(endpoints: &[NetworkEndpoint]) -> (r: Option<Ipv4Addr>)
    ensures
        r == state::either(
            config::first_ip(config::models(endpoints@), |e: EndpointModel| e.is_tailscale),
            config::first_ip(config::models(endpoints@), |e: EndpointModel| true),
        ),
{
    let ghost m = config::models(endpoints@);
    let ghost kind = |e: EndpointModel| e.is_tailscale;
    let ghost f = |e: EndpointModel|
        if kind(e) {
            Some(e.ip)
        } else {
            None
        };
    assert(m.skip(0) =~= m);
    for i in 0..endpoints.len()
        invariant
            m == config::models(endpoints@),
            kind == (|e: EndpointModel| e.is_tailscale),
            f == (|e: EndpointModel|
                if kind(e) {
                    Some(e.ip)
                } else {
                    None
                }),
            config::first_ip(m, kind) == text::first_some(m, f),
            text::first_some(m.skip(i as int), f) == text::first_some(m, f),
    {
        assert(m[i as int] == endpoints@[i as int]@);
        assert(m.skip(i as int).drop_first() =~= m.skip(i + 1));
        if endpoints[i].is_tailscale {
            return Some(endpoints[i].ip);
        }
    }
    if endpoints.len() > 0 {
        assert(m[0] == endpoints@[0]@);
        Some(endpoints[0].ip)
    } else {
        None
    }
}

impl SsdpServer {
    fn plan_for(&self, endpoints: &[NetworkEndpoint], nts: &str) -> (r: Vec<Dispatch>)
        ensures
            plan_view(r@) == self@.plan(config::models(endpoints@), nts@),
    {
        let ghost m = config::models(endpoints@);
        let mut r: Vec<Dispatch> = Vec::new();
        for i in 0..endpoints.len()
            invariant
                m == config::models(endpoints@),
                plan_view(r@) == self@.plan(m.take(i as int), nts@),
        {
            let e: &NetworkEndpoint = &endpoints[i];
            assert(m[i as int] == e@);
            let d = Dispatch {
                from: e.ip,
                to: destinations_of(e),
                messages: self.messages_for_ip(e.ip, nts),
            };
            let ghost model = d@;
            let ghost before = r@;
            r.push(d);
            assert(plan_view(r@) =~= plan_view(before).push(model));
            assert(self@.plan(m.take(i + 1), nts@) =~= self@.plan(m.take(i as int), nts@).push(
                model,
            ));
        }
        assert(m.take(m.len() as int) =~= m);
        r
    }

    /// What announces the renderer on all endpoints.
    pub fn alive_plan(&self, endpoints: &[NetworkEndpoint]) -> (r: Vec<Dispatch>)
        ensures
            plan_view(r@) == self@.plan(config::models(endpoints@), "ssdp:alive"@),
    {
        self.plan_for(endpoints, "ssdp:alive")
    }

    /// What takes the announcements back on all endpoints.
    pub fn byebye_plan(&self, endpoints: &[NetworkEndpoint]) -> (r: Vec<Dispatch>)
        ensures
            plan_view(r@) == self@.plan(config::models(endpoints@), "ssdp:byebye"@),
    {
        self.plan_for(endpoints, "ssdp:byebye")
    }

    /// What announces the renderer to peers.
    pub fn peer_plan(&self, endpoints: &[NetworkEndpoint], peers: &Vec<Ipv4Addr>) -> (r: Option<
        Dispatch,
    >)
        ensures
            match (r, self@.peer_dispatch(config::models(endpoints@), peers@)) {
                (Some(x), Some(y)) => x@ == y,
                (None, None) => true,
                _ => false,
            },
    {
        match peer_source(endpoints) {
            Some(ip) => if peers.len() > 0 {
                let to: Vec<Ipv4Addr> = peers.clone();
                assert(to@ =~= peers@);
                Some(Dispatch { from: ip, to, messages: self.alive_messages_for_ip(ip) })
            } else {
                None
            },
            None => None,
        }
    }
}

/// The milliseconds before the announcement with the number `n`: three in quick succession, then
/// one every 30 s.
pub open spec fn announce_millis(n: nat) -> nat {
    if n == 0 {
        0
    } else if n < 3 {
        250
    } else {
        30000
    }
}

/// How long to wait before the announcement with the number `n`, counted from 0.
pub fn announce_delay(n: u64) -> (r: Duration)
    ensures
        r@ == time::millis(announce_millis(n as nat)),
{
    if n == 0 {
        Duration::zero()
    } else if n < 3 {
        Duration::from_millis(250)
    } else {
        Duration::from_millis(30000)
    }
}

// ---------------------------------------------------------------------------------------------
// Laws
// ---------------------------------------------------------------------------------------------
/// What is said good-bye to is what was announced: on every endpoint the same messages go to the
/// same destinations, but for their sub-type.
pub proof fn lemma_byebye_mirrors_alive(s: ServerModel, endpoints: Seq<EndpointModel>, i: int, t: int)
    requires
        0 <= i < endpoints.len(),
        0 <= t < all_targets().len(),
    ensures
        ({
            let alive = s.plan(endpoints, "ssdp:alive"@);
            let byebye = s.plan(endpoints, "ssdp:byebye"@);
            let target = all_targets()[t];
            &&& alive.len() == byebye.len() == endpoints.len()
            &&& alive[i].from == endpoints[i].ip
            &&& byebye[i].from == endpoints[i].ip
            &&& alive[i].to == byebye[i].to
            &&& alive[i].messages[t] == s.notice(endpoints[i].ip, target, "ssdp:alive"@)
            &&& byebye[i].messages[t] == s.notice(endpoints[i].ip, target, "ssdp:byebye"@)
        }),
{
}

/// Every endpoint announces to the multicast group, and to its broadcast address and its gateway
/// where it has them: so a phone whose hotspot blocks multicast is reached at the gateway.
pub proof fn lemma_gateway_is_notified(s: ServerModel, endpoints: Seq<EndpointModel>, i: int)
    requires
        0 <= i < endpoints.len(),
    ensures
        ({
            let to = s.plan(endpoints, "ssdp:alive"@)[i].to;
            &&& to.contains(multicast_group())
            &&& endpoints[i].broadcast matches Some(b) ==> to.contains(b)
            &&& endpoints[i].gateway matches Some(g) ==> to.contains(g)
        }),
{
    let e = endpoints[i];
    let to = destinations(e);
    assert(to[0] == multicast_group());
    if e.broadcast is Some {
        assert(to[1] == e.broadcast->0);
        if e.gateway is Some {
            assert(to[2] == e.gateway->0);
        }
    } else if e.gateway is Some {
        assert(to[1] == e.gateway->0);
    }
}

/// A text that begins with `u` and ends with no quote or white space has nothing to unquote.
proof fn lemma_unquoted_keeps(s: Seq<char>)
    requires
        s.len() > 0,
        s[0] == 'u',
        !text::is_white(s.last()) && s.last() != '"' && s.last() != '\'',
    ensures
        unquoted(s) == s,
{
    text::lemma_strip_keeps(s, CharSet::White);
    text::lemma_strip_keeps(s, CharSet::One('"'));
    text::lemma_strip_keeps(s, CharSet::One('\''));
}

/// Texts of different lengths differ in more than case.
proof fn lemma_lengths_differ(a: Seq<char>, b: Seq<char>)
    requires
        a.len() != b.len(),
    ensures
        !text::same_but_case(a, b),
{
    assert(text::ascii_lower_of(a).len() == a.len());
    assert(text::ascii_lower_of(b).len() == b.len());
}

/// A text holds no `pat` where no place has its `k`-th character and the one behind it.
proof fn lemma_lacks(s: Seq<char>, pat: Seq<char>, k: int)
    requires
        0 <= k,
        k + 1 < pat.len(),
        forall|i: int|
            0 <= i < s.len() - 1 && #[trigger] s[i] == pat[k] ==> s[i + 1] != pat[k + 1],
    ensures
        !text::contains(s, pat),
{
    if text::contains(s, pat) {
        let j = choose|j: int| text::occurs_at(s, pat, j);
        assert(s.subrange(j, j + pat.len())[k] == s[j + k]);
        assert(s.subrange(j, j + pat.len())[k + 1] == s[j + k + 1]);
    }
}

/// A device that is named by a UUID.
pub open spec fn names_device(s: ServerModel, v: u128) -> bool {
    s.config_uuid == "uuid:"@ + identity::uuid_text(v)
}

proof fn lemma_device_found(s: ServerModel, v: u128)
    requires
        names_device(s, v),
    ensures
        s.config_uuid.len() == 41,
        unquoted(s.config_uuid) == s.config_uuid,
        s.found(s.config_uuid, text::lower_of(s.config_uuid)) == Some(Target::Device),
{
    identity::lemma_uuid_text_chars(v);
    reveal_strlit("uuid:");
    reveal_strlit("ssdp:all");
    reveal_strlit("upnp:rootdevice");
    let u = s.config_uuid;
    assert(u.last() == identity::uuid_text(v)[35]);
    lemma_unquoted_keeps(u);
    lemma_lengths_differ(u, "ssdp:all"@);
    lemma_lengths_differ(u, "upnp:rootdevice"@);
}

/// The types of the device and of its services are found.
proof fn lemma_types_found(s: ServerModel, t: Target)
    requires
        s.config_uuid.len() == 41,
        t != Target::Device,
    ensures
        unquoted(s.target_type(t)) == s.target_type(t),
        s.found(s.target_type(t), text::lower_of(s.target_type(t))) == Some(t),
{
    let st = s.target_type(t);
    let l = text::ascii_lower_of(st);
    reveal_strlit("ssdp:all");
    reveal_strlit("upnp:rootdevice");
    reveal_strlit("urn:schemas-upnp-org:device:MediaRenderer:1");
    reveal_strlit("urn:schemas-upnp-org:service:AVTransport:1");
    reveal_strlit("urn:schemas-upnp-org:service:RenderingControl:1");
    reveal_strlit("urn:schemas-upnp-org:service:ConnectionManager:1");
    reveal_strlit("mediarenderer");
    reveal_strlit("avtransport");
    reveal_strlit("renderingcontrol");
    reveal_strlit("connectionmanager");
    lemma_unquoted_keeps(st);
    if t != Target::Root {
        lemma_lengths_differ(st, "ssdp:all"@);
        lemma_lengths_differ(st, "upnp:rootdevice"@);
        lemma_lengths_differ(st, s.config_uuid);
        assert(text::all_ascii(st));
        match t {
            Target::Renderer => {
                assert(l.subrange(28, 41) =~= "mediarenderer"@);
                assert(text::occurs_at(l, "mediarenderer"@, 28));
            },
            Target::AvTransport => {
                lemma_lacks(l, "mediarenderer"@, 0);
                assert(l.subrange(29, 40) =~= "avtransport"@);
                assert(text::occurs_at(l, "avtransport"@, 29));
            },
            Target::RenderingControl => {
                lemma_lacks(l, "mediarenderer"@, 0);
                lemma_lacks(l, "avtransport"@, 0);
                assert(l.subrange(29, 45) =~= "renderingcontrol"@);
                assert(text::occurs_at(l, "renderingcontrol"@, 29));
            },
            _ => {
                lemma_lacks(l, "mediarenderer"@, 0);
                lemma_lacks(l, "avtransport"@, 0);
                lemma_lacks(l, "renderingcontrol"@, 3);
                assert(l.subrange(29, 46) =~= "connectionmanager"@);
                assert(text::occurs_at(l, "connectionmanager"@, 29));
            },
        }
    }
}

/// Whatever a device that is named by a UUID announces can be searched for: a search for the type
/// of a target is answered with that type and the unique service name of that target.
pub proof fn lemma_announced_is_found(s: ServerModel, v: u128, t: Target, ip: Ipv4Addr)
    requires
        names_device(s, v),
    ensures
        s.answer(s.target_type(t), ip) == Some(s.search_answer(ip, t)),
{
    lemma_device_found(s, v);
    if t != Target::Device {
        lemma_types_found(s, t);
    }
}

/// A search for everything of a device that is named by a UUID has one answer for each target.
pub proof fn lemma_search_for_all(s: ServerModel, v: u128, ip: Ipv4Addr)
    requires
        names_device(s, v),
    ensures
        s.all_answers(ip) == all_targets().map_values(|t: Target| Some(s.search_answer(ip, t))),
        !s.all_answers(ip).contains(None),
{
    assert forall|i: int| 0 <= i < all_targets().len() implies #[trigger] s.all_answers(ip)[i]
        == Some(s.search_answer(ip, all_targets()[i])) by {
        lemma_announced_is_found(s, v, all_targets()[i], ip);
    }
    assert(s.all_answers(ip) =~= all_targets().map_values(
        |t: Target| Some(s.search_answer(ip, t)),
    ));
}

/// The message holds the line of a header.
pub open spec fn holds_line(message: Seq<char>, name: Seq<char>, value: Seq<char>) -> bool {
    text::contains(message, "\r\n"@ + name + ": "@ + value + "\r\n"@)
}

proof fn lemma_answer_lines(s: ServerModel, ip: Ipv4Addr, t: Target)
    ensures
        holds_line(s.search_answer(ip, t), "LOCATION"@, s.location(ip)),
        holds_line(s.search_answer(ip, t), "SERVER"@, platform::server_text(s.windows)),
        holds_line(s.search_answer(ip, t), "ST"@, s.target_type(t)),
        holds_line(s.search_answer(ip, t), "USN"@, s.usn(t)),
{
    reveal_strlit("HTTP/1.1 200 OK\r\nCACHE-CONTROL: max-age=1800\r\nEXT:\r\nLOCATION: ");
    reveal_strlit("\r\nSERVER: ");
    reveal_strlit("\r\nST: ");
    reveal_strlit("\r\nUSN: ");
    reveal_strlit("\r\nBOOTID.UPNP.ORG: 1\r\nCONFIGID.UPNP.ORG: 1\r\n\r\n");
    reveal_strlit("\r\n");
    reveal_strlit(": ");
    reveal_strlit("LOCATION");
    reveal_strlit("SERVER");
    reveal_strlit("ST");
    reveal_strlit("USN");
    reveal_strlit("\r\nLOCATION: ");
    let p0 = "HTTP/1.1 200 OK\r\nCACHE-CONTROL: max-age=1800\r\nEXT:\r\nLOCATION: "@;
    let p1 = s.location(ip);
    let p2 = "\r\nSERVER: "@;
    let p3 = platform::server_text(s.windows);
    let p4 = "\r\nST: "@;
    let p5 = s.target_type(t);
    let p6 = "\r\nUSN: "@;
    let p7 = s.usn(t);
    let p8 = "\r\nBOOTID.UPNP.ORG: 1\r\nCONFIGID.UPNP.ORG: 1\r\n\r\n"@;
    let whole = s.search_answer(ip, t);
    assert("\r\nLOCATION: "@ =~= "\r\n"@ + "LOCATION"@ + ": "@);
    assert(whole =~= (Seq::<char>::empty()) + p0 + p1 + p2 + (p3 + p4 + p5 + p6 + p7 + p8));
    assert(p0.skip(p0.len() - "\r\nLOCATION: "@.len()) =~= "\r\nLOCATION: "@);
    assert(p2.subrange(0, "\r\n"@.len() as int) =~= "\r\n"@);
    text::lemma_contains_between(
        Seq::<char>::empty(),
        p0,
        p1,
        p2,
        p3 + p4 + p5 + p6 + p7 + p8,
        "\r\nLOCATION: "@,
        "\r\n"@,
    );
    assert("\r\nSERVER: "@ =~= "\r\n"@ + "SERVER"@ + ": "@);
    assert(whole =~= (p0 + p1) + p2 + p3 + p4 + (p5 + p6 + p7 + p8));
    assert(p2.skip(p2.len() - "\r\nSERVER: "@.len()) =~= "\r\nSERVER: "@);
    assert(p4.subrange(0, "\r\n"@.len() as int) =~= "\r\n"@);
    text::lemma_contains_between(p0 + p1, p2, p3, p4, p5 + p6 + p7 + p8, "\r\nSERVER: "@, "\r\n"@);
    assert("\r\nST: "@ =~= "\r\n"@ + "ST"@ + ": "@);
    assert(whole =~= (p0 + p1 + p2 + p3) + p4 + p5 + p6 + (p7 + p8));
    assert(p4.skip(p4.len() - "\r\nST: "@.len()) =~= "\r\nST: "@);
    assert(p6.subrange(0, "\r\n"@.len() as int) =~= "\r\n"@);
    text::lemma_contains_between(p0 + p1 + p2 + p3, p4, p5, p6, p7 + p8, "\r\nST: "@, "\r\n"@);
    assert("\r\nUSN: "@ =~= "\r\n"@ + "USN"@ + ": "@);
    assert(whole =~= (p0 + p1 + p2 + p3 + p4 + p5) + p6 + p7 + p8 + (Seq::<char>::empty()));
    assert(p6.skip(p6.len() - "\r\nUSN: "@.len()) =~= "\r\nUSN: "@);
    assert(p8.subrange(0, "\r\n"@.len() as int) =~= "\r\n"@);
    text::lemma_contains_between(
        p0 + p1 + p2 + p3 + p4 + p5,
        p6,
        p7,
        p8,
        Seq::<char>::empty(),
        "\r\nUSN: "@,
        "\r\n"@,
    );
}

proof fn lemma_notice_lines(s: ServerModel, ip: Ipv4Addr, t: Target, nts: Seq<char>)
    ensures
        holds_line(s.notice(ip, t, nts), "LOCATION"@, s.location(ip)),
        holds_line(s.notice(ip, t, nts), "NT"@, s.target_type(t)),
        holds_line(s.notice(ip, t, nts), "NTS"@, nts),
        holds_line(s.notice(ip, t, nts), "SERVER"@, platform::server_text(s.windows)),
        holds_line(s.notice(ip, t, nts), "USN"@, s.usn(t)),
{
    reveal_strlit(
        "NOTIFY * HTTP/1.1\r\nHOST: 239.255.255.250:1900\r\nCACHE-CONTROL: max-age=1800\r\nLOCATION: ",
    );
    reveal_strlit("\r\nNT: ");
    reveal_strlit("\r\nNTS: ");
    reveal_strlit("\r\nSERVER: ");
    reveal_strlit("\r\nUSN: ");
    reveal_strlit("\r\nBOOTID.UPNP.ORG: 1\r\nCONFIGID.UPNP.ORG: 1\r\n\r\n");
    reveal_strlit("\r\n");
    reveal_strlit(": ");
    reveal_strlit("LOCATION");
    reveal_strlit("NT");
    reveal_strlit("NTS");
    reveal_strlit("SERVER");
    reveal_strlit("USN");
    reveal_strlit("\r\nLOCATION: ");
    let p0 = "NOTIFY * HTTP/1.1\r\nHOST: 239.255.255.250:1900\r\nCACHE-CONTROL: max-age=1800\r\nLOCATION: "@;
    let p1 = s.location(ip);
    let p2 = "\r\nNT: "@;
    let p3 = s.target_type(t);
    let p4 = "\r\nNTS: "@;
    let p5 = nts;
    let p6 = "\r\nSERVER: "@;
    let p7 = platform::server_text(s.windows);
    let p8 = "\r\nUSN: "@;
    let p9 = s.usn(t);
    let p10 = "\r\nBOOTID.UPNP.ORG: 1\r\nCONFIGID.UPNP.ORG: 1\r\n\r\n"@;
    let whole = s.notice(ip, t, nts);
    assert("\r\nLOCATION: "@ =~= "\r\n"@ + "LOCATION"@ + ": "@);
    assert(whole =~= (Seq::<char>::empty()) + p0 + p1 + p2 + (p3 + p4 + p5 + p6 + p7 + p8 + p9 + p10));
    assert(p0.skip(p0.len() - "\r\nLOCATION: "@.len()) =~= "\r\nLOCATION: "@);
    assert(p2.subrange(0, "\r\n"@.len() as int) =~= "\r\n"@);
    text::lemma_contains_between(
        Seq::<char>::empty(),
        p0,
        p1,
        p2,
        p3 + p4 + p5 + p6 + p7 + p8 + p9 + p10,
        "\r\nLOCATION: "@,
        "\r\n"@,
    );
    assert("\r\nNT: "@ =~= "\r\n"@ + "NT"@ + ": "@);
    assert(whole =~= (p0 + p1) + p2 + p3 + p4 + (p5 + p6 + p7 + p8 + p9 + p10));
    assert(p2.skip(p2.len() - "\r\nNT: "@.len()) =~= "\r\nNT: "@);
    assert(p4.subrange(0, "\r\n"@.len() as int) =~= "\r\n"@);
    text::lemma_contains_between(
        p0 + p1,
        p2,
        p3,
        p4,
        p5 + p6 + p7 + p8 + p9 + p10,
        "\r\nNT: "@,
        "\r\n"@,
    );
    assert("\r\nNTS: "@ =~= "\r\n"@ + "NTS"@ + ": "@);
    assert(whole =~= (p0 + p1 + p2 + p3) + p4 + p5 + p6 + (p7 + p8 + p9 + p10));
    assert(p4.skip(p4.len() - "\r\nNTS: "@.len()) =~= "\r\nNTS: "@);
    assert(p6.subrange(0, "\r\n"@.len() as int) =~= "\r\n"@);
    text::lemma_contains_between(
        p0 + p1 + p2 + p3,
        p4,
        p5,
        p6,
        p7 + p8 + p9 + p10,
        "\r\nNTS: "@,
        "\r\n"@,
    );
    assert("\r\nSERVER: "@ =~= "\r\n"@ + "SERVER"@ + ": "@);
    assert(whole =~= (p0 + p1 + p2 + p3 + p4 + p5) + p6 + p7 + p8 + (p9 + p10));
    assert(p6.skip(p6.len() - "\r\nSERVER: "@.len()) =~= "\r\nSERVER: "@);
    assert(p8.subrange(0, "\r\n"@.len() as int) =~= "\r\n"@);
    text::lemma_contains_between(
        p0 + p1 + p2 + p3 + p4 + p5,
        p6,
        p7,
        p8,
        p9 + p10,
        "\r\nSERVER: "@,
        "\r\n"@,
    );
    assert("\r\nUSN: "@ =~= "\r\n"@ + "USN"@ + ": "@);
    assert(whole =~= (p0 + p1 + p2 + p3 + p4 + p5 + p6 + p7) + p8 + p9 + p10 + (Seq::<char>::empty()));
    assert(p8.skip(p8.len() - "\r\nUSN: "@.len()) =~= "\r\nUSN: "@);
    assert(p10.subrange(0, "\r\n"@.len() as int) =~= "\r\n"@);
    text::lemma_contains_between(
        p0 + p1 + p2 + p3 + p4 + p5 + p6 + p7,
        p8,
        p9,
        p10,
        Seq::<char>::empty(),
        "\r\nUSN: "@,
        "\r\n"@,
    );
}

/// The message tells one target: its type under `name`, its unique service name, and where the
/// device describes itself.
pub open spec fn tells_target(
    message: Seq<char>,
    name: Seq<char>,
    s: ServerModel,
    t: Target,
    ip: Ipv4Addr,
) -> bool {
    let kind = match t {
        Target::Root => "upnp:rootdevice"@,
        Target::Device => s.config_uuid,
        Target::Renderer => "urn:schemas-upnp-org:device:MediaRenderer:1"@,
        Target::AvTransport => "urn:schemas-upnp-org:service:AVTransport:1"@,
        Target::RenderingControl => "urn:schemas-upnp-org:service:RenderingControl:1"@,
        Target::ConnectionManager => "urn:schemas-upnp-org:service:ConnectionManager:1"@,
    };
    let unique = if t == Target::Device {
        s.config_uuid
    } else {
        s.config_uuid + "::"@ + kind
    };
    &&& holds_line(message, name, kind)
    &&& holds_line(message, "USN"@, unique)
    &&& holds_line(
        message,
        "LOCATION"@,
        "http://"@ + ip.dotted() + ":"@ + number::decimal_of(s.http_port as nat)
            + "/description.xml"@,
    )
}

/// A search for the type of a target, in quotes or without, has exactly one answer, and that tells
/// this target: its own type in `ST` and its own name in `USN`.
pub proof fn lemma_search_is_answered(
    s: ServerModel,
    v: u128,
    t: Target,
    message: Seq<char>,
    ip: Ipv4Addr,
)
    requires
        names_device(s, v),
        ({
            let st = header_of(message, "ST"@);
            ||| st == Some(s.target_type(t))
            ||| st == Some("\""@ + s.target_type(t) + "\""@)
            ||| st == Some("'"@ + s.target_type(t) + "'"@)
        }),
    ensures
        s.answers(message, ip).len() == 1,
        s.answers(message, ip)[0] matches Some(told) && tells_target(told, "ST"@, s, t, ip),
{
    let kind = s.target_type(t);
    lemma_device_found(s, v);
    if t != Target::Device {
        lemma_types_found(s, t);
    }
    identity::lemma_uuid_text_chars(v);
    reveal_strlit("uuid:");
    reveal_strlit("ssdp:all");
    reveal_strlit("upnp:rootdevice");
    reveal_strlit("urn:schemas-upnp-org:device:MediaRenderer:1");
    reveal_strlit("urn:schemas-upnp-org:service:AVTransport:1");
    reveal_strlit("urn:schemas-upnp-org:service:RenderingControl:1");
    reveal_strlit("urn:schemas-upnp-org:service:ConnectionManager:1");
    lemma_lengths_differ(kind, "ssdp:all"@);
    lemma_quotes_go(kind);
    assert(searched(message) == kind);
    lemma_answer_lines(s, ip, t);
}

proof fn lemma_quotes_go(kind: Seq<char>)
    requires
        kind.len() > 0,
        kind[0] == 'u',
        !text::is_white(kind.last()) && kind.last() != '"' && kind.last() != '\'',
    ensures
        unquoted("\""@ + kind + "\""@) == kind,
        unquoted("'"@ + kind + "'"@) == kind,
        unquoted(kind) == kind,
{
    reveal_strlit("\"");
    lemma_unquoted_keeps(kind);
    let quoted = "\""@ + kind + "\""@;
    text::lemma_strip_keeps(quoted, CharSet::White);
    text::lemma_strip_is("\""@, kind, "\""@, CharSet::One('"'));
    text::lemma_strip_keeps(kind, CharSet::One('\''));
    reveal_strlit("'");
    let single = "'"@ + kind + "'"@;
    text::lemma_strip_keeps(single, CharSet::White);
    text::lemma_strip_keeps(single, CharSet::One('"'));
    text::lemma_strip_is("'"@, kind, "'"@, CharSet::One('\''));
}

/// A search for everything, in any case, has one answer for each of the six targets, in order, and
/// each tells its own target.
pub proof fn lemma_search_for_all_is_answered(
    s: ServerModel,
    v: u128,
    message: Seq<char>,
    ip: Ipv4Addr,
    i: int,
)
    requires
        names_device(s, v),
        text::same_but_case(searched(message), "ssdp:all"@),
        0 <= i < 6,
    ensures
        s.answers(message, ip).len() == 6,
        s.answers(message, ip)[i] matches Some(told) && tells_target(
            told,
            "ST"@,
            s,
            if i == 0 {
                Target::Root
            } else if i == 1 {
                Target::Device
            } else if i == 2 {
                Target::Renderer
            } else if i == 3 {
                Target::AvTransport
            } else if i == 4 {
                Target::RenderingControl
            } else {
                Target::ConnectionManager
            },
            ip,
        ),
{
    lemma_search_for_all(s, v, ip);
    let t = all_targets()[i];
    lemma_answer_lines(s, ip, t);
    assert(s.all_answers(ip)[i] == Some(s.search_answer(ip, t)));
}

/// A search that names the kind of a target in other words, such as another version, is answered
/// with the target that the renderer has.
pub proof fn lemma_search_by_kind(s: ServerModel, v: u128, message: Seq<char>, ip: Ipv4Addr)
    requires
        names_device(s, v),
        !text::same_but_case(searched(message), "ssdp:all"@),
        !text::same_but_case(searched(message), "upnp:rootdevice"@),
        !text::same_but_case(searched(message), s.config_uuid),
        unquoted(searched(message)) == searched(message),
    ensures
        ({
            let st = text::lower_of(searched(message));
            let device = text::contains(st, "mediarenderer"@);
            let transport = !device && text::contains(st, "avtransport"@);
            let sound = !device && !transport && text::contains(st, "renderingcontrol"@);
            let manager = !device && !transport && !sound && text::contains(
                st,
                "connectionmanager"@,
            );
            let all = s.answers(message, ip);
            &&& device ==> all.len() == 1 && (all[0] matches Some(told) && tells_target(
                told,
                "ST"@,
                s,
                Target::Renderer,
                ip,
            ))
            &&& transport ==> all.len() == 1 && (all[0] matches Some(told) && tells_target(
                told,
                "ST"@,
                s,
                Target::AvTransport,
                ip,
            ))
            &&& sound ==> all.len() == 1 && (all[0] matches Some(told) && tells_target(
                told,
                "ST"@,
                s,
                Target::RenderingControl,
                ip,
            ))
            &&& manager ==> all.len() == 1 && (all[0] matches Some(told) && tells_target(
                told,
                "ST"@,
                s,
                Target::ConnectionManager,
                ip,
            ))
            &&& !device && !transport && !sound && !manager ==> all.len() == 0
        }),
{
    lemma_answer_lines(s, ip, Target::Renderer);
    lemma_answer_lines(s, ip, Target::AvTransport);
    lemma_answer_lines(s, ip, Target::RenderingControl);
    lemma_answer_lines(s, ip, Target::ConnectionManager);
}

/// Every announcement of an endpoint tells one of the six targets, at the address of that endpoint,
/// and whether the device is there or leaves.
pub proof fn lemma_announcement_tells(
    s: ServerModel,
    endpoints: Seq<EndpointModel>,
    i: int,
    k: int,
    nts: Seq<char>,
)
    requires
        0 <= i < endpoints.len(),
        0 <= k < 6,
    ensures
        ({
            let told = s.plan(endpoints, nts)[i];
            let t = if k == 0 {
                Target::Root
            } else if k == 1 {
                Target::Device
            } else if k == 2 {
                Target::Renderer
            } else if k == 3 {
                Target::AvTransport
            } else if k == 4 {
                Target::RenderingControl
            } else {
                Target::ConnectionManager
            };
            &&& s.plan(endpoints, nts).len() == endpoints.len()
            &&& told.from == endpoints[i].ip
            &&& told.messages.len() == 6
            &&& tells_target(told.messages[k], "NT"@, s, t, endpoints[i].ip)
            &&& holds_line(told.messages[k], "NTS"@, nts)
        }),
{
    lemma_notice_lines(s, endpoints[i].ip, all_targets()[k], nts);
}

/// An endpoint announces to the group 239.255.255.250 first, to its broadcast address and its
/// gateway where it has them, and to no other address.
pub proof fn lemma_destinations_are(
    s: ServerModel,
    endpoints: Seq<EndpointModel>,
    i: int,
    nts: Seq<char>,
)
    requires
        0 <= i < endpoints.len(),
    ensures
        ({
            let e = endpoints[i];
            let to = s.plan(endpoints, nts)[i].to;
            let group = Ipv4Addr { a: 239, b: 255, c: 255, d: 250 };
            &&& to[0] == group
            &&& forall|x: Ipv4Addr|
                #[trigger] to.contains(x) <==> x == group || e.broadcast == Some(x) || e.gateway
                    == Some(x)
            &&& to.len() <= 3
        }),
{
    let e = endpoints[i];
    let to = destinations(e);
    lemma_gateway_is_notified(s, endpoints, i);
    assert(s.plan(endpoints, nts)[i].to == to);
    assert(s.plan(endpoints, "ssdp:alive"@)[i].to == to);
}

/// Peers are told from the first address of Tailscale, and where there is none from the first of
/// all; what they are told is what is announced there.
pub proof fn lemma_peers_are_told(
    s: ServerModel,
    endpoints: Seq<EndpointModel>,
    peers: Seq<Ipv4Addr>,
    i: int,
)
    requires
        0 <= i < endpoints.len(),
        endpoints[i].is_tailscale || i == 0,
        endpoints[i].is_tailscale ==> forall|j: int|
            0 <= j < i ==> !(#[trigger] endpoints[j]).is_tailscale,
        !endpoints[i].is_tailscale ==> forall|j: int|
            0 <= j < endpoints.len() ==> !(#[trigger] endpoints[j]).is_tailscale,
    ensures
        peers.len() == 0 ==> s.peer_dispatch(endpoints, peers) is None,
        peers.len() > 0 ==> (s.peer_dispatch(endpoints, peers) matches Some(d) && d.from
            == endpoints[i].ip && d.to == peers && d.messages == s.plan(
            endpoints,
            "ssdp:alive"@,
        )[i].messages),
        s.peer_dispatch(Seq::empty(), peers) is None,
{
    let kind = |e: EndpointModel| e.is_tailscale;
    let all = |e: EndpointModel| true;
    let f = |e: EndpointModel|
        if kind(e) {
            Some(e.ip)
        } else {
            None
        };
    let g = |e: EndpointModel|
        if all(e) {
            Some(e.ip)
        } else {
            None
        };
    text::lemma_first_is(endpoints, g, 0);
    if endpoints[i].is_tailscale {
        assert forall|j: int| 0 <= j < i implies #[trigger] f(endpoints[j]) is None by {
            assert(!endpoints[j].is_tailscale);
        }
        text::lemma_first_is(endpoints, f, i);
    } else {
        assert forall|j: int| 0 <= j < endpoints.len() implies #[trigger] f(
            endpoints[j],
        ) is None by {
            assert(!endpoints[j].is_tailscale);
        }
        text::lemma_none_is(endpoints, f);
    }
}

/// Announcing begins at once, goes on twice after a quarter of a second, and then every 30 s.
pub proof fn lemma_announcing_times(n: nat)
    ensures
        announce_millis(0) == 0,
        announce_millis(1) == 250,
        announce_millis(2) == 250,
        n >= 3 ==> announce_millis(n) == 30_000,
{
}

/// Who searches is remembered, but for this machine itself and for no address; nobody is forgotten.
pub proof fn lemma_searchers_are_met(peers: Set<Ipv4Addr>, ip: Ipv4Addr, other: Ipv4Addr)
    ensures
        met(peers, IpAddr::V6) == peers,
        peers.contains(other) ==> met(peers, IpAddr::V4(ip)).contains(other),
        ip.a != 127 && !(ip.a == 0 && ip.b == 0 && ip.c == 0 && ip.d == 0) ==> met(
            peers,
            IpAddr::V4(ip),
        ).contains(ip),
        ip.a == 127 || (ip.a == 0 && ip.b == 0 && ip.c == 0 && ip.d == 0) ==> met(
            peers,
            IpAddr::V4(ip),
        ) == peers,
        met(peers, IpAddr::V4(ip)).contains(other) ==> peers.contains(other) || other == ip,
{
}

/// A line names a header before its first colon, in any case, and gives its value behind it,
/// without white space round either.
pub proof fn lemma_header_line(name: Seq<char>, rest: Seq<char>, asked: Seq<char>)
    requires
        text::free_of(name, CharSet::One(':')),
        name.len() > 0 ==> !text::is_white(name[0]) && !text::is_white(name.last()),
    ensures
        text::same_but_case(name, asked) ==> header_in(name + ":"@ + rest, asked) == Some(
            text::trim_of(rest),
        ),
        !text::same_but_case(name, asked) ==> header_in(name + ":"@ + rest, asked) is None,
        header_in(name, asked) is None,
{
    reveal_strlit(":");
    let line = name + ":"@ + rest;
    let k = name.len() as int;
    assert(line.subrange(k, k + 1) =~= ":"@);
    assert forall|j: int| 0 <= j < k implies !text::occurs_at(line, ":"@, j) by {
        if text::occurs_at(line, ":"@, j) {
            assert(line.subrange(j, j + 1)[0] == name[j]);
            assert(!CharSet::One(':').has(name[j]));
        }
    }
    text::lemma_find_is(line, ":"@, k);
    assert(line.take(k) =~= name);
    assert(line.skip(k + 1) =~= rest);
    text::lemma_strip_keeps(name, CharSet::White);
    if text::contains(name, ":"@) {
        let j = choose|j: int| text::occurs_at(name, ":"@, j);
        assert(name.subrange(j, j + 1)[0] == name[j]);
        assert(!CharSet::One(':').has(name[j]));
    }
}

/// Of several headers of one name the first counts, on whichever line of the message it stands.
pub proof fn lemma_first_header_counts(message: Seq<char>, i: int, name: Seq<char>)
    requires
        0 <= i < text::lines_of(message).len(),
        header_in(text::lines_of(message)[i], name) is Some,
        forall|j: int|
            0 <= j < i ==> #[trigger] header_in(text::lines_of(message)[j], name) is None,
    ensures
        header_of(message, name) == header_in(text::lines_of(message)[i], name),
{
    let f = |l: Seq<char>| header_in(l, name);
    let all = text::lines_of(message);
    assert forall|j: int| 0 <= j < i implies #[trigger] f(all[j]) is None by {
        assert(header_in(all[j], name) is None);
    }
    text::lemma_first_is(all, f, i);
}

/// A datagram of ASCII text that holds `M-SEARCH`, in any case, is a search.
pub proof fn lemma_search_in_any_case(
    data: Seq<u8>,
    before: Seq<char>,
    word: Seq<char>,
    after: Seq<char>,
)
    requires
        vstd::utf8::valid_utf8(data),
        vstd::utf8::decode_utf8(data) == before + word + after,
        text::all_ascii(before + word + after),
        text::same_but_case(word, "M-SEARCH"@),
    ensures
        is_search(data),
{
    reveal_strlit("M-SEARCH");
    let pat = "M-SEARCH"@;
    let message = before + word + after;
    assert(text::ascii_lower_of(word).len() == text::ascii_lower_of(pat).len());
    let up = text::ascii_upper_of(word);
    assert forall|i: int| 0 <= i < 8 implies up[i] == #[trigger] pat[i] by {
        assert(text::ascii_lower_of(word)[i] == text::lower_char(word[i]));
        assert(text::ascii_lower_of(pat)[i] == text::lower_char(pat[i]));
    }
    assert(up =~= pat);
    assert(text::ascii_upper_of(message) =~= text::ascii_upper_of(before) + up
        + text::ascii_upper_of(after));
    text::lemma_contains_part(
        text::ascii_upper_of(before),
        up,
        text::ascii_upper_of(after),
    );
}

/// What is no text, and ASCII text without the word, is no search.
pub proof fn lemma_other_datagrams(data: Seq<u8>)
    ensures
        !vstd::utf8::valid_utf8(data) ==> !is_search(data),
        vstd::utf8::valid_utf8(data) && text::all_ascii(vstd::utf8::decode_utf8(data))
            && !text::contains(
            text::ascii_upper_of(vstd::utf8::decode_utf8(data)),
            "M-SEARCH"@,
        ) ==> !is_search(data),
{
}

} // verus!
