//! What the renderer answers over HTTP.

use vstd::prelude::*;
use vstd::string::*;

use crate::config::{Peers, register_peer};
use crate::config;
use crate::net;
use crate::net::{Ipv4Addr, parse_ipv4};
use crate::number;
use crate::number::decimal;
use crate::text;
use crate::text::trim;
use crate::xml;

pub mod control;
pub mod dashboard;
pub mod events;

verus! {

/// An answer to an HTTP request.
#[derive(Debug)]
pub struct Response {
    pub status: u16,
    pub headers: Vec<(&'static str, String)>,
    pub body: String,
}

/// What a `Response` holds.
pub struct ResponseModel {
    pub status: u16,
    pub headers: Seq<(Seq<char>, Seq<char>)>,
    pub body: Seq<char>,
}

impl View for Response {
    type V = ResponseModel;

    open spec fn view(&self) -> ResponseModel {
        ResponseModel {
            status: self.status,
            headers: self.headers@.map_values(|h: (&'static str, String)| (h.0@, h.1@)),
            body: self.body@,
        }
    }
}

/// The base of the URLs in the device description: the host that the request names, else the
/// address and the port of the renderer.
pub open spec fn base_of(host: Seq<char>, local_ip: Ipv4Addr, http_port: u16) -> Seq<char> {
    if host.len() > 0 {
        "http://"@ + host + "/"@
    } else {
        "http://"@ + local_ip.dotted() + ":"@ + number::decimal_of(http_port as nat) + "/"@
    }
}

/// The base of the URLs in the device description, for a request with the given `Host` header.
pub fn base_url(host: &str, local_ip: Ipv4Addr, http_port: u16) -> (r: String)
    ensures
        r@ == base_of(host@, local_ip, http_port),
{
    let mut s = "http://".to_owned();
    if !host.is_empty() {
        s.append(host);
    } else {
        s.append(local_ip.to_text().as_str());
        s.append(":");
        s.append(decimal(http_port as u64).as_str());
    }
    s.append("/");
    s
}

/// The device description answers from the request's own host: the host that the request names is
/// the base of its URLs, and where it is presented.
pub proof fn lemma_description_names_host(
    host: Seq<char>,
    local_ip: Ipv4Addr,
    http_port: u16,
    friendly_name: Seq<char>,
    udn: Seq<char>,
)
    requires
        host.len() > 0,
    ensures
        text::contains(
            xml::description_of(base_of(host, local_ip, http_port), friendly_name, udn),
            "<URLBase>http://"@ + host + "/</URLBase>"@,
        ),
        text::contains(
            xml::description_of(base_of(host, local_ip, http_port), friendly_name, udn),
            "<presentationURL>http://"@ + host + "/</presentationURL>"@,
        ),
{
    let base = base_of(host, local_ip, http_port);
    let whole = xml::description_of(base, friendly_name, udn);
    let told = "<URLBase>http://"@ + host + "/</URLBase>"@;
    reveal_strlit("http://");
    reveal_strlit("/");
    reveal_strlit("<URLBase>http://");
    reveal_strlit("/</URLBase>");
    reveal_strlit(
        "<?xml version=\"1.0\"?>
<root xmlns=\"urn:schemas-upnp-org:device-1-0\">
  <specVersion><major>1</major><minor>0</minor></specVersion>
  <URLBase>",
    );
    reveal_strlit(
        "</URLBase>
  <device>
    <deviceType>urn:schemas-upnp-org:device:MediaRenderer:1</deviceType>
    <friendlyName>",
    );
    assert(xml::slashed(base) == base);
    let head = "<?xml version=\"1.0\"?>
<root xmlns=\"urn:schemas-upnp-org:device-1-0\">
  <specVersion><major>1</major><minor>0</minor></specVersion>
  <URLBase>"@;
    let i = head.len() - 9;
    assert(whole.subrange(i, i + told.len()) =~= told);
    assert(text::occurs_at(whole, told, i));
    reveal_strlit("<presentationURL>http://");
    reveal_strlit("/</presentationURL>");
    reveal_strlit(
        "</UDN>
    <presentationURL>",
    );
    reveal_strlit(
        "</presentationURL>
    <serviceList>
      <service>
        <serviceType>urn:schemas-upnp-org:service:AVTransport:1</serviceType>
        <serviceId>urn:upnp-org:serviceId:AVTransport</serviceId>
        <SCPDURL>/AVTransport/scpd.xml</SCPDURL>
        <controlURL>/AVTransport/control</controlURL>
        <eventSubURL>/AVTransport/event</eventSubURL>
      </service>
      <service>
        <serviceType>urn:schemas-upnp-org:service:RenderingControl:1</serviceType>
        <serviceId>urn:upnp-org:serviceId:RenderingControl</serviceId>
        <SCPDURL>/RenderingControl/scpd.xml</SCPDURL>
        <controlURL>/RenderingControl/control</controlURL>
        <eventSubURL>/RenderingControl/event</eventSubURL>
      </service>
      <service>
        <serviceType>urn:schemas-upnp-org:service:ConnectionManager:1</serviceType>
        <serviceId>urn:upnp-org:serviceId:ConnectionManager</serviceId>
        <SCPDURL>/ConnectionManager/scpd.xml</SCPDURL>
        <controlURL>/ConnectionManager/control</controlURL>
        <eventSubURL>/ConnectionManager/event</eventSubURL>
      </service>
    </serviceList>
  </device>
</root>",
    );
    let presented = "<presentationURL>http://"@ + host + "/</presentationURL>"@;
    let lead = head + base + "</URLBase>
  <device>
    <deviceType>urn:schemas-upnp-org:device:MediaRenderer:1</deviceType>
    <friendlyName>"@ + xml::escape_of(friendly_name) + "</friendlyName>
    <manufacturer>playpnp</manufacturer>
    <manufacturerURL>https://github.com/playpnp/playpnp</manufacturerURL>
    <modelDescription>DLNA MediaRenderer for Windows</modelDescription>
    <modelName>playpnp</modelName>
    <modelNumber>1</modelNumber>
    <modelURL>https://github.com/playpnp/playpnp</modelURL>
    <serialNumber>1</serialNumber>
    <UDN>"@ + udn + "</UDN>
    <presentationURL>"@;
    let k = lead.len() - 17;
    assert(whole.subrange(k, k + presented.len()) =~= presented);
    assert(text::occurs_at(whole, presented, k));
}

/// The query of a request to add a peer.
#[derive(Debug)]
pub struct PeerParam {
    pub ip: Option<String>,
}

/// The address that a query names, if it names one.
pub open spec fn queried_ip(param: PeerParam) -> Option<Ipv4Addr> {
    match param.ip {
        Some(s) => net::ipv4_of(text::trim_of(s@)),
        None => None,
    }
}

/// Remembers the peer that the query names, if it names one.
pub fn api_add_peer(peers: &mut Peers, param: &PeerParam)
    ensures
        final(peers)@ == match queried_ip(*param) {
            Some(ip) => if config::is_remote(ip) {
                old(peers)@.insert(ip)
            } else {
                old(peers)@
            },
            None => old(peers)@,
        },
{
    if let Some(s) = &param.ip {
        if let Some(ip) = parse_ipv4(trim(s.as_str())) {
            register_peer(peers, ip);
        }
    }
}

/// Without a `Host` header the device is reached at its own address and port.
pub proof fn lemma_description_names_address(
    local_ip: Ipv4Addr,
    http_port: u16,
    friendly_name: Seq<char>,
    udn: Seq<char>,
)
    ensures
        ({
            let told = "http://"@ + local_ip.dotted() + ":"@ + number::decimal_of(
                http_port as nat,
            ) + "/"@;
            let whole = xml::description_of(
                base_of(Seq::empty(), local_ip, http_port),
                friendly_name,
                udn,
            );
            &&& text::contains(whole, "<URLBase>"@ + told + "</URLBase>"@)
            &&& text::contains(whole, "<presentationURL>"@ + told + "</presentationURL>"@)
        }),
{
    reveal_strlit("/");
    let base = base_of(Seq::empty(), local_ip, http_port);
    assert(base.last() == '/');
    xml::lemma_description_tells(base, friendly_name, udn);
}

/// A query names a peer by its address, whatever white space is round it.
pub proof fn lemma_query_names_peer(
    param: PeerParam,
    left: Seq<char>,
    ip: Ipv4Addr,
    right: Seq<char>,
)
    requires
        param.ip matches Some(s) && s@ == left + ip.dotted() + right,
        forall|i: int| 0 <= i < left.len() ==> text::is_white(#[trigger] left[i]),
        forall|i: int| 0 <= i < right.len() ==> text::is_white(#[trigger] right[i]),
    ensures
        queried_ip(param) == Some(ip),
{
    net::lemma_dotted_is_word(ip);
    net::lemma_ipv4_reads_back(ip);
    let t = ip.dotted();
    assert(!text::CharSet::White.has(t[0]));
    assert(!text::CharSet::White.has(t[t.len() - 1]));
    assert forall|i: int| 0 <= i < left.len() implies text::CharSet::White.has(
        #[trigger] left[i],
    ) by {
        assert(text::is_white(left[i]));
    }
    assert forall|i: int| 0 <= i < right.len() implies text::CharSet::White.has(
        #[trigger] right[i],
    ) by {
        assert(text::is_white(right[i]));
    }
    text::lemma_strip_is(left, t, right, text::CharSet::White);
}

} // verus!
