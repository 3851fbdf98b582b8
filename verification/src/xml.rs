//! The XML that the renderer sends and what it reads from SOAP requests.

use vstd::prelude::*;
use vstd::string::*;

use crate::config::Config;
use crate::number;
use crate::number::decimal;
use crate::state;
use crate::state::{AVState, format_time};
use crate::text;
use crate::text::{CharSet, chars_of, find, rest_after_last, strip, trim};
use crate::time;

verus! {

// ---------------------------------------------------------------------------------------------
// Escaping
// ---------------------------------------------------------------------------------------------
/// A character as XML text writes it.
pub open spec fn escaped_char(c: char, apostrophe: bool) -> Seq<char> {
    if c == '&' {
        "&amp;"@
    } else if c == '<' {
        "&lt;"@
    } else if c == '>' {
        "&gt;"@
    } else if c == '"' {
        "&quot;"@
    } else if c == '\'' && apostrophe {
        "&apos;"@
    } else {
        seq![c]
    }
}

/// A text as XML writes it; apostrophes are escaped only if `apostrophe` holds.
pub open spec fn escaped(s: Seq<char>, apostrophe: bool) -> Seq<char>
    decreases s.len(),
{
    if s.len() == 0 {
        Seq::empty()
    } else {
        escaped(s.drop_last(), apostrophe) + escaped_char(s.last(), apostrophe)
    }
}

/// A text with all five special characters escaped.
pub open spec fn escape_of(s: Seq<char>) -> Seq<char> {
    escaped(s, true)
}

fn escape_with(s: &str, apostrophe: bool) -> (r: String)
    ensures
        r@ == escaped(s@, apostrophe),
{
    let v: Vec<char> = chars_of(s);
    let mut out = String::new();
    assert(s@.take(0) =~= Seq::<char>::empty());
    for i in 0..v.len()
        invariant
            v@ == s@,
            out@ == escaped(s@.take(i as int), apostrophe),
    {
        let c: char = v[i];
        let ghost before = out@;
        if c == '&' {
            out.append("&amp;");
        } else if c == '<' {
            out.append("&lt;");
        } else if c == '>' {
            out.append("&gt;");
        } else if c == '"' {
            out.append("&quot;");
        } else if c == '\'' && apostrophe {
            out.append("&apos;");
        } else {
            out.push(c);
            assert(out@ =~= before + seq![c]);
        }
        assert(s@.take(i + 1).drop_last() =~= s@.take(i as int));
    }
    assert(s@.take(s@.len() as int) =~= s@);
    out
}

/// The text with `&`, `<`, `>`, `"` and `'` escaped.
pub fn escape_xml(s: &str) -> (r: String)
    ensures
        r@ == escape_of(s@),
{
    escape_with(s, true)
}

/// The text with `&`, `<`, `>` and `"` escaped.
pub fn xml_escape(s: &str) -> (r: String)
    ensures
        r@ == escaped(s@, false),
{
    escape_with(s, false)
}

// ---------------------------------------------------------------------------------------------
// Device description
// ---------------------------------------------------------------------------------------------
/// `base` with a slash at its end.
pub open spec fn slashed(base: Seq<char>) -> Seq<char> {
    if base.len() > 0 && base.last() == '/' {
        base
    } else {
        base + "/"@
    }
}

/// The device description of a renderer that is reached at `base`.
pub open spec fn description_of(base: Seq<char>, friendly_name: Seq<char>, udn: Seq<char>) -> Seq<
    char,
> {
    "<?xml version=\"1.0\"?>
<root xmlns=\"urn:schemas-upnp-org:device-1-0\">
  <specVersion><major>1</major><minor>0</minor></specVersion>
  <URLBase>"@ + slashed(base) + "</URLBase>
  <device>
    <deviceType>urn:schemas-upnp-org:device:MediaRenderer:1</deviceType>
    <friendlyName>"@ + escape_of(friendly_name) + "</friendlyName>
    <manufacturer>playpnp</manufacturer>
    <manufacturerURL>https://github.com/playpnp/playpnp</manufacturerURL>
    <modelDescription>DLNA MediaRenderer for Windows</modelDescription>
    <modelName>playpnp</modelName>
    <modelNumber>1</modelNumber>
    <modelURL>https://github.com/playpnp/playpnp</modelURL>
    <serialNumber>1</serialNumber>
    <UDN>"@ + udn + "</UDN>
    <presentationURL>"@ + slashed(base) + "</presentationURL>
    <serviceList>
      <service>
        <serviceType>urn:schemas-upnp-org:service:AVTransport:1</serviceType>
        <serviceId>urn:upnp-org:serviceId:AVTransport</serviceId>
        <SCPDURL>/AVTransport/scpd.xml</SCPDURL>
        <controlURL>/AVTransport/control</controlURL>
        <eventSubURL>/AVTransport/event</eventSubURL>
      </service>
      <service>
        <serviceType>urn:schemas-upnp-org:service:RenderingControl:1</serviceType>
        <serviceId>urn:upnp-org:serviceId:RenderingControl</serviceId>
        <SCPDURL>/RenderingControl/scpd.xml</SCPDURL>
        <controlURL>/RenderingControl/control</controlURL>
        <eventSubURL>/RenderingControl/event</eventSubURL>
      </service>
      <service>
        <serviceType>urn:schemas-upnp-org:service:ConnectionManager:1</serviceType>
        <serviceId>urn:upnp-org:serviceId:ConnectionManager</serviceId>
        <SCPDURL>/ConnectionManager/scpd.xml</SCPDURL>
        <controlURL>/ConnectionManager/control</controlURL>
        <eventSubURL>/ConnectionManager/event</eventSubURL>
      </service>
    </serviceList>
  </device>
</root>"@
}

/// The device description of the renderer; control points resolve its URLs against `base_url`.
pub fn device_description(config: &Config, base_url: &str) -> (r: String)
    ensures
        r@ == description_of(base_url@, config.friendly_name@, config.device_name()),
{
    let n: usize = base_url.unicode_len();
    let mut base = base_url.to_owned();
    if n == 0 || base_url.get_char(n - 1) != '/' {
        base.append("/");
    }
    let mut s = "<?xml version=\"1.0\"?>
<root xmlns=\"urn:schemas-upnp-org:device-1-0\">
  <specVersion><major>1</major><minor>0</minor></specVersion>
  <URLBase>".to_owned();
    s.append(base.as_str());
    s.append("</URLBase>
  <device>
    <deviceType>urn:schemas-upnp-org:device:MediaRenderer:1</deviceType>
    <friendlyName>");
    s.append(escape_xml(config.friendly_name.as_str()).as_str());
    s.append("</friendlyName>
    <manufacturer>playpnp</manufacturer>
    <manufacturerURL>https://github.com/playpnp/playpnp</manufacturerURL>
    <modelDescription>DLNA MediaRenderer for Windows</modelDescription>
    <modelName>playpnp</modelName>
    <modelNumber>1</modelNumber>
    <modelURL>https://github.com/playpnp/playpnp</modelURL>
    <serialNumber>1</serialNumber>
    <UDN>");
    s.append(config.udn().as_str());
    s.append("</UDN>
    <presentationURL>");
    s.append(base.as_str());
    s.append("</presentationURL>
    <serviceList>
      <service>
        <serviceType>urn:schemas-upnp-org:service:AVTransport:1</serviceType>
        <serviceId>urn:upnp-org:serviceId:AVTransport</serviceId>
        <SCPDURL>/AVTransport/scpd.xml</SCPDURL>
        <controlURL>/AVTransport/control</controlURL>
        <eventSubURL>/AVTransport/event</eventSubURL>
      </service>
      <service>
        <serviceType>urn:schemas-upnp-org:service:RenderingControl:1</serviceType>
        <serviceId>urn:upnp-org:serviceId:RenderingControl</serviceId>
        <SCPDURL>/RenderingControl/scpd.xml</SCPDURL>
        <controlURL>/RenderingControl/control</controlURL>
        <eventSubURL>/RenderingControl/event</eventSubURL>
      </service>
      <service>
        <serviceType>urn:schemas-upnp-org:service:ConnectionManager:1</serviceType>
        <serviceId>urn:upnp-org:serviceId:ConnectionManager</serviceId>
        <SCPDURL>/ConnectionManager/scpd.xml</SCPDURL>
        <controlURL>/ConnectionManager/control</controlURL>
        <eventSubURL>/ConnectionManager/event</eventSubURL>
      </service>
    </serviceList>
  </device>
</root>");
    s
}

// ---------------------------------------------------------------------------------------------
// SOAP
// ---------------------------------------------------------------------------------------------
pub open spec fn envelope_of(body: Seq<char>) -> Seq<char> {
    "<?xml version=\"1.0\"?><s:Envelope xmlns:s=\"http://schemas.xmlsoap.org/soap/envelope/\" s:encodingStyle=\"http://schemas.xmlsoap.org/soap/encoding/\"><s:Body>"@
        + body + "</s:Body></s:Envelope>"@
}

/// The SOAP envelope round a body.
pub fn soap_envelope(body: &str) -> (r: String)
    ensures
        r@ == envelope_of(body@),
{
    let mut s =
        "<?xml version=\"1.0\"?><s:Envelope xmlns:s=\"http://schemas.xmlsoap.org/soap/envelope/\" s:encodingStyle=\"http://schemas.xmlsoap.org/soap/encoding/\"><s:Body>".to_owned();
    s.append(body);
    s.append("</s:Body></s:Envelope>");
    s
}

pub open spec fn fault_of(code: nat, description: Seq<char>) -> Seq<char> {
    envelope_of(
        "<s:Fault><faultcode>s:Client</faultcode><faultstring>UPnPError</faultstring><detail><UPnPError xmlns=\"urn:schemas-upnp-org:control-1-0\"><errorCode>"@
            + number::decimal_of(code) + "</errorCode><errorDescription>"@ + escape_of(description)
            + "</errorDescription></UPnPError></detail></s:Fault>"@,
    )
}

/// The SOAP message that tells a UPnP error.
pub fn soap_fault(code: u32, description: &str) -> (r: String)
    ensures
        r@ == fault_of(code as nat, description@),
{
    let mut s =
        "<s:Fault><faultcode>s:Client</faultcode><faultstring>UPnPError</faultstring><detail><UPnPError xmlns=\"urn:schemas-upnp-org:control-1-0\"><errorCode>".to_owned();
    s.append(decimal(code as u64).as_str());
    s.append("</errorCode><errorDescription>");
    s.append(escape_xml(description).as_str());
    s.append("</errorDescription></UPnPError></detail></s:Fault>");
    soap_envelope(s.as_str())
}

pub open spec fn response_of(action: Seq<char>, service: Seq<char>, inner: Seq<char>) -> Seq<char> {
    envelope_of(
        "<u:"@ + action + "Response xmlns:u=\""@ + service + "\">"@ + inner + "</u:"@ + action
            + "Response>"@,
    )
}

/// The SOAP message that answers an action.
pub fn soap_response(action: &str, service: &str, inner: &str) -> (r: String)
    ensures
        r@ == response_of(action@, service@, inner@),
{
    let mut s = "<u:".to_owned();
    s.append(action);
    s.append("Response xmlns:u=\"");
    s.append(service);
    s.append("\">");
    s.append(inner);
    s.append("</u:");
    s.append(action);
    s.append("Response>");
    soap_envelope(s.as_str())
}

/// The action in a `SOAPAction` header: what follows the last `#`, else the last `/`, else all of
/// it, without quotes round it.
pub open spec fn action_of(header: Seq<char>) -> Seq<char> {
    let h = text::strip_of(
        text::strip_of(text::trim_of(header), CharSet::One('"')),
        CharSet::One('\''),
    );
    match text::after_last(h, '#') {
        Some(a) => a,
        None => match text::after_last(h, '/') {
            Some(a) => a,
            None => h,
        },
    }
}

/// The action in a `SOAPAction` header.
pub fn parse_soap_action(header: &str) -> (r: Option<String>)
    ensures
        r matches Some(a) && a@ == action_of(header@),
{
    let h: &str = strip(strip(trim(header), CharSet::One('"')), CharSet::One('\''));
    if let Some(a) = rest_after_last(h, '#') {
        return Some(a.to_owned());
    }
    if let Some(a) = rest_after_last(h, '/') {
        return Some(a.to_owned());
    }
    Some(h.to_owned())
}

/// The trimmed text of `rest` up to the first closing tag, the plain one before those with the
/// prefixes `u:` and `s:`.
pub open spec fn up_to_close(rest: Seq<char>, tag: Seq<char>) -> Option<Seq<char>> {
    match text::find_of(rest, "</"@ + tag + ">"@) {
        Some(e) => Some(text::trim_of(rest.take(e))),
        None => match text::find_of(rest, "</u:"@ + tag + ">"@) {
            Some(e) => Some(text::trim_of(rest.take(e))),
            None => match text::find_of(rest, "</s:"@ + tag + ">"@) {
                Some(e) => Some(text::trim_of(rest.take(e))),
                None => None,
            },
        },
    }
}

/// The character ends the name in a tag.
pub open spec fn ends_name(c: char) -> bool {
    c == '>' || c == '/' || text::is_white(c)
}

/// A tag that begins with `open`, and whose name ends there, stands in `body` at position `i`.
pub open spec fn opens_at(body: Seq<char>, open: Seq<char>, i: int) -> bool {
    &&& text::occurs_at(body, open, i)
    &&& i + open.len() < body.len()
    &&& ends_name(body[i + open.len()])
}

/// `i` is the first position of such a tag.
pub open spec fn first_opens_at(body: Seq<char>, open: Seq<char>, i: int) -> bool {
    &&& opens_at(body, open, i)
    &&& forall|j: int| 0 <= j < i ==> !opens_at(body, open, j)
}

/// The first position of a tag that begins with `open`, and whose name ends there, if there is one.
pub open spec fn opening_of(body: Seq<char>, open: Seq<char>) -> Option<int> {
    if exists|i: int| opens_at(body, open, i) {
        Some(choose|i: int| first_opens_at(body, open, i))
    } else {
        None
    }
}

/// The content of the first element whose tag begins with `open`, and whose name ends there.
pub open spec fn content_after(body: Seq<char>, open: Seq<char>, tag: Seq<char>) -> Option<
    Seq<char>,
> {
    match opening_of(body, open) {
        Some(i) => match text::find_of(body.skip(i), ">"@) {
            Some(gt) => up_to_close(body.skip(i + gt + 1), tag),
            None => None,
        },
        None => None,
    }
}

/// The content of an element of the name `tag`, without a prefix, or with `u:`, or with `s:`. An
/// element of a longer name is another one.
pub open spec fn tag_content(body: Seq<char>, tag: Seq<char>) -> Option<Seq<char>> {
    state::either(
        content_after(body, "<"@ + tag, tag),
        state::either(
            content_after(body, "<u:"@ + tag, tag),
            content_after(body, "<s:"@ + tag, tag),
        ),
    )
}

/// There is no such element, but there is `<tag>` and from there on `</tag>`: the closing tag then
/// begins inside the opening one, so there is no content between them.
pub open spec fn tag_overlaps(body: Seq<char>, tag: Seq<char>) -> bool {
    &&& tag_content(body, tag) is None
    &&& text::find_of(body, "<"@ + tag + ">"@) matches Some(i) && text::find_of(
        body.skip(i),
        "</"@ + tag + ">"@,
    ) is Some
}

fn find_close(rest: &str, prefix: &str, tag: &str) -> (r: Option<String>)
    ensures
        match (r, text::find_of(rest@, prefix@ + tag@ + ">"@)) {
            (Some(x), Some(e)) => x@ == text::trim_of(rest@.take(e)),
            (None, None) => true,
            _ => false,
        },
{
    let mut close = prefix.to_owned();
    close.append(tag);
    close.append(">");
    match find(rest, close.as_str()) {
        Some(e) => {
            assert(rest@.subrange(0, e as int) =~= rest@.take(e as int));
            Some(trim(rest.substring_char(0, e)).to_owned())
        },
        None => None,
    }
}

proof fn lemma_first_opening(body: Seq<char>, open: Seq<char>, i: int)
    requires
        opens_at(body, open, i),
    ensures
        exists|k: int| first_opens_at(body, open, k) && k <= i,
    decreases i,
{
    if exists|j: int| 0 <= j < i && opens_at(body, open, j) {
        let j = choose|j: int| 0 <= j < i && opens_at(body, open, j);
        lemma_first_opening(body, open, j);
    } else {
        assert(first_opens_at(body, open, i));
    }
}

/// A first position is what `opening_of` gives.
proof fn lemma_opening_is(body: Seq<char>, open: Seq<char>, i: int)
    requires
        first_opens_at(body, open, i),
    ensures
        opening_of(body, open) == Some(i),
{
    let k = choose|k: int| first_opens_at(body, open, k);
    assert(first_opens_at(body, open, k));
    assert(k == i);
}

/// The first position of a tag that begins with `open`, and whose name ends there.
fn find_opening(body: &str, open: &str) -> (r: Option<usize>)
    requires
        open@.len() > 0,
    ensures
        match (r, opening_of(body@, open@)) {
            (Some(i), Some(k)) => i == k && opens_at(body@, open@, k),
            (None, None) => true,
            _ => false,
        },
{
    let n: usize = body.unicode_len();
    let m: usize = open.unicode_len();
    let mut from: usize = 0;
    loop
        invariant
            n == body@.len(),
            m == open@.len(),
            m > 0,
            from <= n,
            forall|j: int| 0 <= j < from ==> !opens_at(body@, open@, j),
        decreases n - from,
    {
        let rest: &str = body.substring_char(from, n);
        let found: Option<usize> = find(rest, open);
        proof {
            assert(rest@ =~= body@.skip(from as int));
            assert forall|j: int| from <= j && text::occurs_at(body@, open@, j) implies
                text::occurs_at(rest@, open@, j - from) by {
                assert(rest@.subrange(j - from, j - from + m) =~= body@.subrange(j, j + m));
            }
        }
        match found {
            Some(k) => {
                let i: usize = from + k;
                assert(body@.subrange(i as int, i + m) =~= rest@.subrange(k as int, k + m));
                assert forall|j: int| 0 <= j < i implies !opens_at(body@, open@, j) by {
                    if from <= j && opens_at(body@, open@, j) {
                        assert(text::occurs_at(rest@, open@, j - from));
                    }
                }
                if i + m < n {
                    let c: char = body.get_char(i + m);
                    if c == '>' || c == '/' || CharSet::White.has_char(c) {
                        proof {
                            lemma_opening_is(body@, open@, i as int);
                        }
                        return Some(i);
                    }
                }
                from = i + 1;
            },
            None => {
                assert forall|j: int| !opens_at(body@, open@, j) by {
                    if opens_at(body@, open@, j) {
                        assert(text::occurs_at(rest@, open@, j - from));
                    }
                }
                return None;
            },
        }
    }
}

fn find_content(body: &str, prefix: &str, tag: &str) -> (r: Option<String>)
    requires
        prefix@.len() > 0,
    ensures
        match (r, content_after(body@, prefix@ + tag@, tag@)) {
            (Some(x), Some(y)) => x@ == y,
            (None, None) => true,
            _ => false,
        },
{
    let mut open = prefix.to_owned();
    open.append(tag);
    let n: usize = body.unicode_len();
    match find_opening(body, open.as_str()) {
        Some(i) => {
            let from_open: &str = body.substring_char(i, n);
            assert(from_open@ =~= body@.skip(i as int));
            match find(from_open, ">") {
                Some(gt) => {
                    proof {
                        reveal_strlit(">");
                    }
                    let rest: &str = body.substring_char(i + gt + 1, n);
                    assert(rest@ =~= body@.skip(i + gt + 1));
                    if let Some(x) = find_close(rest, "</", tag) {
                        return Some(x);
                    }
                    if let Some(x) = find_close(rest, "</u:", tag) {
                        return Some(x);
                    }
                    find_close(rest, "</s:", tag)
                },
                None => None,
            }
        },
        None => None,
    }
}

/// The trimmed content of the element of the name `tag`.
///
/// The tag must not be one that overlaps with its own closing tag in the body; no tag without `>`
/// does.
pub fn extract_tag(body: &str, tag: &str) -> (r: Option<String>)
    requires
        !tag_overlaps(body@, tag@),
    ensures
        match (r, tag_content(body@, tag@)) {
            (Some(x), Some(y)) => x@ == y,
            (None, None) => true,
            _ => false,
        },
{
    proof {
        reveal_strlit("<");
        reveal_strlit("<u:");
        reveal_strlit("<s:");
    }
    if let Some(x) = find_content(body, "<", tag) {
        return Some(x);
    }
    if let Some(x) = find_content(body, "<u:", tag) {
        return Some(x);
    }
    find_content(body, "<s:", tag)
}

// ---------------------------------------------------------------------------------------------
// Events
// ---------------------------------------------------------------------------------------------
/// A length as UPnP tells it; a length under a second counts as unknown.
pub open spec fn length_text(nanos: nat) -> Seq<char> {
    if time::whole_secs(nanos) == 0 {
        "00:00:00"@
    } else {
        state::clock_text(time::whole_secs(nanos))
    }
}

/// The length as UPnP tells it; a length under a second counts as unknown.
pub fn format_length(d: crate::time::Duration) -> (r: String)
    ensures
        r@ == length_text(d@),
{
    if d.as_secs() == 0 {
        "00:00:00".to_owned()
    } else {
        format_time(d)
    }
}

/// The state variables of AVTransport, as an event tells them.
pub open spec fn avtransport_event(state: state::AvModel) -> Seq<char> {
    let rel = state::clock_text(time::whole_secs(state.position));
    "<Event xmlns=\"urn:schemas-upnp-org:metadata-1-0/AVT/\"><InstanceID val=\"0\"><TransportState val=\""@
        + state.transport_state.name() + "\"/><CurrentTrackURI val=\""@ + escape_of(
        state.current_uri,
    ) + "\"/><CurrentTrackDuration val=\""@ + length_text(state.duration)
        + "\"/><RelativeTimePosition val=\""@ + rel + "\"/><AbsoluteTimePosition val=\""@ + rel
        + "\"/><CurrentTransportActions val=\"Play,Stop,Pause,Seek,Next,Previous\"/><TransportStatus val=\"OK\"/></InstanceID></Event>"@
}

/// The `LastChange` value of AVTransport: the event, escaped.
pub fn avtransport_last_change(state: &AVState) -> (r: String)
    ensures
        r@ == escape_of(avtransport_event(state@)),
{
    let rel = format_time(state.position);
    let mut s =
        "<Event xmlns=\"urn:schemas-upnp-org:metadata-1-0/AVT/\"><InstanceID val=\"0\"><TransportState val=\"".to_owned();
    s.append(state.transport_state.as_str());
    s.append("\"/><CurrentTrackURI val=\"");
    s.append(escape_xml(state.current_uri.as_str()).as_str());
    s.append("\"/><CurrentTrackDuration val=\"");
    s.append(format_length(state.duration).as_str());
    s.append("\"/><RelativeTimePosition val=\"");
    s.append(rel.as_str());
    s.append("\"/><AbsoluteTimePosition val=\"");
    s.append(rel.as_str());
    s.append(
        "\"/><CurrentTransportActions val=\"Play,Stop,Pause,Seek,Next,Previous\"/><TransportStatus val=\"OK\"/></InstanceID></Event>",
    );
    escape_xml(s.as_str())
}

/// A truth value as UPnP writes it.
pub open spec fn bool_text(b: bool) -> Seq<char> {
    if b {
        "1"@
    } else {
        "0"@
    }
}

/// The truth value as UPnP writes it.
pub fn format_bool(b: bool) -> (r: &'static str)
    ensures
        r@ == bool_text(b),
{
    if b {
        "1"
    } else {
        "0"
    }
}

/// The state variables of RenderingControl, as an event tells them.
pub open spec fn rendering_event(volume: nat, mute: bool) -> Seq<char> {
    "<Event xmlns=\"urn:schemas-upnp-org:metadata-1-0/RCS/\"><InstanceID val=\"0\"><Volume channel=\"Master\" val=\""@
        + number::decimal_of(volume) + "\"/><Mute channel=\"Master\" val=\""@ + bool_text(mute)
        + "\"/></InstanceID></Event>"@
}

/// The `LastChange` value of RenderingControl: the event, escaped.
pub fn rendering_last_change(state: &AVState) -> (r: String)
    ensures
        r@ == escape_of(rendering_event(state.volume as nat, state.mute)),
{
    let mut s =
        "<Event xmlns=\"urn:schemas-upnp-org:metadata-1-0/RCS/\"><InstanceID val=\"0\"><Volume channel=\"Master\" val=\"".to_owned();
    s.append(decimal(state.volume as u64).as_str());
    s.append("\"/><Mute channel=\"Master\" val=\"");
    s.append(format_bool(state.mute));
    s.append("\"/></InstanceID></Event>");
    escape_xml(s.as_str())
}

// ---------------------------------------------------------------------------------------------
// Laws
// ---------------------------------------------------------------------------------------------
/// A tag without `>` never overlaps with its own closing tag.
pub proof fn lemma_plain_tag(body: Seq<char>, tag: Seq<char>)
    requires
        !tag.contains('>'),
    ensures
        !tag_overlaps(body, tag),
{
    reveal_strlit("<");
    reveal_strlit("</");
    reveal_strlit(">");
    let open = "<"@ + tag;
    let whole = "<"@ + tag + ">"@;
    let close = "</"@ + tag + ">"@;
    if tag_overlaps(body, tag) {
        let i = text::find_of(body, whole)->0;
        let e = text::find_of(body.skip(i), close)->0;
        text::lemma_find_some(body, whole);
        text::lemma_find_some(body.skip(i), close);
        let end = i + tag.len() + 1;
        assert(body.subrange(i, i + whole.len())[(tag.len() + 1) as int] == body[end]);
        assert(body[end] == '>');
        // The closing tag lies behind the opening one.
        if e < tag.len() + 2 {
            let k = tag.len() + 1 - e;
            assert(body.skip(i).subrange(e, e + close.len())[k] == body[end]);
            assert(close[k] == '>');
            if k >= 2 {
                assert(close[k] == tag[k - 2]);
                assert(tag.contains(tag[k - 2]));
            }
            assert(false);
        }
        // So it is found behind the first opening tag.

        assert(body.subrange(i, i + open.len()) =~= open) by {
            assert(body.subrange(i, i + whole.len()).take(open.len() as int) =~= open);
        }
        assert(text::occurs_at(body, open, i));
        assert(opens_at(body, open, i));
        lemma_first_opening(body, open, i);
        let start = choose|k: int| first_opens_at(body, open, k) && k <= i;
        lemma_opening_is(body, open, start);
        let rest = body.skip(start);
        assert(rest.subrange(end - start, end - start + 1) =~= ">"@);
        assert(text::occurs_at(rest, ">"@, end - start));
        text::lemma_find_some(rest, ">"@);
        let gt = text::find_of(rest, ">"@)->0;
        assert(gt <= end - start);
        let inner = body.skip(start + gt + 1);
        let p = i + e - (start + gt + 1);
        assert(inner.subrange(p, p + close.len()) =~= body.skip(i).subrange(e, e + close.len()));
        assert(text::occurs_at(inner, close, p));
        assert(up_to_close(inner, tag) is Some);
        assert(false);
    }
}

/// An argument of a SOAP request is read back: of a body that holds `<tag>value</tag>`, where no
/// element of that name comes before and the value holds no markup, the trimmed value.
pub proof fn lemma_argument_reads_back(
    before: Seq<char>,
    tag: Seq<char>,
    value: Seq<char>,
    after: Seq<char>,
)
    requires
        !tag.contains('<'),
        !tag.contains('>'),
        !value.contains('<'),
        opening_of(before, "<"@ + tag) is None,
    ensures
        tag_content(
            before + ("<"@ + tag + ">"@) + value + ("</"@ + tag + ">"@) + after,
            tag,
        ) == Some(text::trim_of(value)),
{
    reveal_strlit("<");
    reveal_strlit("</");
    reveal_strlit(">");
    let open = "<"@ + tag;
    let whole = "<"@ + tag + ">"@;
    let close = "</"@ + tag + ">"@;
    let body = before + whole + value + close + after;
    let n = before.len() as int;
    // The opening tag is the first.
    assert(body.subrange(n, n + open.len()) =~= open);
    assert(body[n + open.len()] == '>');
    assert(body[n] == '<');
    assert forall|j: int| 0 <= j < n implies !opens_at(body, open, j) by {
        if opens_at(body, open, j) {
            if j + open.len() <= n {
                assert(before.subrange(j, j + open.len()) =~= body.subrange(j, j + open.len()));
                assert(j + open.len() < n);
                assert(before[j + open.len()] == body[j + open.len()]);
                assert(opens_at(before, open, j));
            } else {
                assert(body.subrange(j, j + open.len())[n - j] == body[n]);
                assert(open[n - j] == tag[n - j - 1]);
                assert(tag.contains(tag[n - j - 1]));
            }
        }
    }
    lemma_opening_is(body, open, n);
    // It ends with the bracket behind the name.
    let rest = body.skip(n);
    let gt = (tag.len() + 1) as int;
    assert(rest.subrange(gt, gt + 1) =~= ">"@);
    assert forall|j: int| 0 <= j < gt implies !text::occurs_at(rest, ">"@, j) by {
        if text::occurs_at(rest, ">"@, j) {
            assert(rest.subrange(j, j + 1)[0] == rest[j]);
            assert(rest[j] == whole[j]);
            if j > 0 {
                assert(whole[j] == tag[j - 1]);
                assert(tag.contains(tag[j - 1]));
            }
        }
    }
    text::lemma_find_is(rest, ">"@, gt);
    // The value ends with the first closing tag.
    let inner = body.skip(n + gt + 1);
    let m = value.len() as int;
    assert(inner =~= value + close + after);
    assert(inner.subrange(m, m + close.len()) =~= close);
    assert forall|j: int| 0 <= j < m implies !text::occurs_at(inner, close, j) by {
        if text::occurs_at(inner, close, j) {
            assert(inner.subrange(j, j + close.len())[0] == inner[j]);
            assert(inner[j] == value[j]);
            assert(value.contains(value[j]));
        }
    }
    text::lemma_find_is(inner, close, m);
    assert(inner.take(m) =~= value);
}

proof fn lemma_escape_char(c: char)
    ensures
        forall|i: int|
            0 <= i < escaped_char(c, true).len() ==> !is_special(
                #[trigger] escaped_char(c, true)[i],
            ),
{
    reveal_strlit("&amp;");
    reveal_strlit("&lt;");
    reveal_strlit("&gt;");
    reveal_strlit("&quot;");
    reveal_strlit("&apos;");
}

/// An angle bracket or a quote.
pub open spec fn is_special(c: char) -> bool {
    c == '<' || c == '>' || c == '"' || c == '\''
}

/// Escaped text holds neither angle brackets nor quotes, so it can stand in an element and in an
/// attribute.
pub proof fn lemma_escape_hides_markup(s: Seq<char>, i: int)
    requires
        0 <= i < escape_of(s).len(),
    ensures
        !is_special(escape_of(s)[i]),
    decreases s.len(),
{
    if s.len() > 0 {
        let before = escaped(s.drop_last(), true);
        lemma_escape_char(s.last());
        if i < before.len() {
            lemma_escape_hides_markup(s.drop_last(), i);
        } else {
            assert(!is_special(escaped_char(s.last(), true)[i - before.len()]));
        }
    }
}

/// How often a character stands in a text.
pub open spec fn char_count(s: Seq<char>, c: char) -> nat
    decreases s.len(),
{
    if s.len() == 0 {
        0
    } else {
        char_count(s.drop_last(), c) + if s.last() == c {
            1nat
        } else {
            0nat
        }
    }
}

proof fn lemma_count_concat(a: Seq<char>, b: Seq<char>, c: char)
    ensures
        char_count(a + b, c) == char_count(a, c) + char_count(b, c),
    decreases b.len(),
{
    if b.len() == 0 {
        assert(a + b =~= a);
    } else {
        lemma_count_concat(a, b.drop_last(), c);
        assert((a + b).drop_last() =~= a + b.drop_last());
    }
}

proof fn lemma_count_none(s: Seq<char>, c: char)
    requires
        forall|i: int| 0 <= i < s.len() ==> #[trigger] s[i] != c,
    ensures
        char_count(s, c) == 0,
    decreases s.len(),
{
    if s.len() > 0 {
        assert(s[s.len() - 1] != c);
        assert forall|i: int| 0 <= i < s.drop_last().len() implies #[trigger] s.drop_last()[i]
            != c by {
            assert(s[i] != c);
        }
        lemma_count_none(s.drop_last(), c);
    }
}

/// At position `i` of `s` stands an element `<tag>content</tag>`, and nowhere else a tag that begins
/// with that name.
pub open spec fn sole_element_at(s: Seq<char>, tag: Seq<char>, content: Seq<char>, i: int) -> bool {
    &&& text::occurs_at(s, "<"@ + tag + ">"@ + content + "</"@ + tag + ">"@, i)
    &&& forall|j: int| #[trigger] text::occurs_at(s, "<"@ + tag, j) ==> j == i
    &&& forall|j: int| #[trigger]
        text::occurs_at(s, "</"@ + tag, j) ==> j == i + tag.len() + 2 + content.len()
}

/// One element of `s` has the name `tag`, without attributes, and its text is `content`.
pub open spec fn sole_element(s: Seq<char>, tag: Seq<char>, content: Seq<char>) -> bool {
    exists|i: int| sole_element_at(s, tag, content, i)
}

/// The three fixed parts of a fault, round its code and its description.
spec fn fault_head() -> Seq<char> {
    "<?xml version=\"1.0\"?><s:Envelope xmlns:s=\"http://schemas.xmlsoap.org/soap/envelope/\" s:encodingStyle=\"http://schemas.xmlsoap.org/soap/encoding/\"><s:Body>"@
        + "<s:Fault><faultcode>s:Client</faultcode><faultstring>UPnPError</faultstring><detail><UPnPError xmlns=\"urn:schemas-upnp-org:control-1-0\"><errorCode>"@
}

spec fn fault_middle() -> Seq<char> {
    "</errorCode><errorDescription>"@
}

spec fn fault_tail() -> Seq<char> {
    "</errorDescription></UPnPError></detail></s:Fault>"@ + "</s:Body></s:Envelope>"@
}

/// A character in the head of a fault that begins a tag: only that of the code's tag has an `e`
/// behind it, and none ends an element whose name begins with `e`.
proof fn lemma_head_tags(j: int)
    requires
        0 <= j < fault_head().len(),
        fault_head()[j] == '<',
    ensures
        ({
            let p = fault_head();
            let at = p.len() - 11;
            &&& j <= at
            &&& p.subrange(at, p.len() as int) == "<errorCode>"@
            &&& j < at ==> p[j + 1] != 'e' && !(p[j + 1] == '/' && p[j + 2] == 'e')
        }),
{
    reveal_strlit(
        "<?xml version=\"1.0\"?><s:Envelope xmlns:s=\"http://schemas.xmlsoap.org/soap/envelope/\" s:encodingStyle=\"http://schemas.xmlsoap.org/soap/encoding/\"><s:Body>",
    );
    reveal_strlit(
        "<s:Fault><faultcode>s:Client</faultcode><faultstring>UPnPError</faultstring><detail><UPnPError xmlns=\"urn:schemas-upnp-org:control-1-0\"><errorCode>",
    );
    reveal_strlit("<errorCode>");
    let a = "<?xml version=\"1.0\"?><s:Envelope xmlns:s=\"http://schemas.xmlsoap.org/soap/envelope/\" s:encodingStyle=\"http://schemas.xmlsoap.org/soap/encoding/\"><s:Body>"@;
    let b = "<s:Fault><faultcode>s:Client</faultcode><faultstring>UPnPError</faultstring><detail><UPnPError xmlns=\"urn:schemas-upnp-org:control-1-0\"><errorCode>"@;
    let p = fault_head();
    assert(p.subrange(p.len() - 11, p.len() as int) =~= "<errorCode>"@);
    if j < a.len() {
        assert(p[j] == a[j]);
        assert(j + 2 < a.len());
        assert(p[j + 1] == a[j + 1] && p[j + 2] == a[j + 2]);
    } else {
        assert(p[j] == b[j - a.len()]);
        assert(j + 2 < p.len());
        assert(p[j + 1] == b[j - a.len() + 1] && p[j + 2] == b[j - a.len() + 2]);
    }
}

/// Where a fault's `<` stand: that of the tag of its code, those of the two tags between the code
/// and the description, that behind the description, and others that begin no tag of either.
proof fn lemma_fault_tags(code: nat, description: Seq<char>, j: int)
    requires
        0 <= j < fault_of(code, description).len(),
        fault_of(code, description)[j] == '<',
    ensures
        ({
            let s = fault_of(code, description);
            let at = fault_head().len() - 11;
            let gap = fault_head().len() + number::decimal_of(code).len();
            let end = gap + 30 + escape_of(description).len();
            ||| j == at && s[j + 1] == 'e' && s[j + 6] == 'C'
            ||| j == gap && s[j + 1] == '/' && s[j + 7] == 'C'
            ||| j == gap + 12 && s[j + 1] == 'e' && s[j + 6] == 'D'
            ||| j == end && s[j + 1] == '/' && s[j + 7] == 'D'
            ||| s[j + 1] != 'e' && !(s[j + 1] == '/' && s[j + 2] == 'e')
        }),
{
    let s = fault_of(code, description);
    let (p, d, m, x, t) = (
        fault_head(),
        number::decimal_of(code),
        fault_middle(),
        escape_of(description),
        fault_tail(),
    );
    lemma_fault_parts(code, description);
    reveal_strlit("</errorCode><errorDescription>");
    reveal_strlit("</errorDescription></UPnPError></detail></s:Fault>");
    reveal_strlit("</s:Body></s:Envelope>");
    let gap = (p.len() + d.len()) as int;
    let end = gap + 30 + x.len();
    if j < p.len() {
        assert(s[j] == p[j]);
        lemma_head_tags(j);
        assert(s[j + 1] == p[j + 1] && s[j + 2] == p[j + 2] && s[j + 6] == p[j + 6]);
        if j == p.len() - 11 {
            reveal_strlit("<errorCode>");
            assert(p.subrange(j, p.len() as int)[1] == p[j + 1]);
            assert(p.subrange(j, p.len() as int)[6] == p[j + 6]);
        }
    } else if j < gap {
        assert(s[j] == d[j - p.len()]);
        number::lemma_decimal_reads_back(code);
        assert(text::is_digit(d[j - p.len()]));
    } else if j < gap + 30 {
        assert(s[j] == m[j - gap]);
        assert(j - gap == 0 || j - gap == 12);
        assert(s[j + 1] == m[j - gap + 1] && s[j + 6] == m[j - gap + 6] && s[j + 7] == m[j - gap
            + 7]);
    } else if j < end {
        assert(s[j] == x[j - gap - 30]);
        lemma_escape_hides_markup(description, j - gap - 30);
    } else {
        assert(s[j] == t[j - end]);
        assert(j - end + 8 <= t.len());
        assert(s[j + 1] == t[j - end + 1] && s[j + 2] == t[j - end + 2] && s[j + 7] == t[j - end
            + 7]);
    }
}

proof fn lemma_fault_parts(code: nat, description: Seq<char>)
    ensures
        fault_of(code, description) == fault_head() + number::decimal_of(code) + fault_middle()
            + escape_of(description) + fault_tail(),
{
    assert(fault_of(code, description) =~= fault_head() + number::decimal_of(code) + fault_middle()
        + escape_of(description) + fault_tail());
}

/// A fault tells one code and one description: the text of its one `errorCode` element is the code
/// in decimal, and that of its one `errorDescription` element the description, escaped.
pub proof fn lemma_fault_tells_one(code: nat, description: Seq<char>)
    ensures
        sole_element(fault_of(code, description), "errorCode"@, number::decimal_of(code)),
        sole_element(
            fault_of(code, description),
            "errorDescription"@,
            escape_of(description),
        ),
{
    let s = fault_of(code, description);
    let (p, d, m, x, t) = (
        fault_head(),
        number::decimal_of(code),
        fault_middle(),
        escape_of(description),
        fault_tail(),
    );
    lemma_fault_parts(code, description);
    reveal_strlit("<");
    reveal_strlit("</");
    reveal_strlit(">");
    reveal_strlit("errorCode");
    reveal_strlit("errorDescription");
    reveal_strlit("<errorCode>");
    reveal_strlit("</errorCode><errorDescription>");
    reveal_strlit("</errorDescription></UPnPError></detail></s:Fault>");
    let at = p.len() - 11;
    let gap = (p.len() + d.len()) as int;
    let end = gap + 30 + x.len();
    assert(at >= 0 && p.subrange(at, p.len() as int) == "<errorCode>"@) by {
        reveal_strlit(
            "<s:Fault><faultcode>s:Client</faultcode><faultstring>UPnPError</faultstring><detail><UPnPError xmlns=\"urn:schemas-upnp-org:control-1-0\"><errorCode>",
        );
        assert(p.subrange(at, p.len() as int) =~= "<errorCode>"@);
    }
    // The code.
    let tag = "errorCode"@;
    let whole = "<"@ + tag + ">"@ + d + "</"@ + tag + ">"@;
    assert(p =~= p.take(at) + "<errorCode>"@);
    assert("<"@ + tag + ">"@ =~= "<errorCode>"@);
    assert(m.take(12) =~= "</"@ + tag + ">"@);
    assert(whole =~= "<errorCode>"@ + d + m.take(12));
    assert(s =~= p.take(at) + whole + m.skip(12) + x + t);
    assert(s.subrange(at, at + whole.len()) =~= whole);
    assert forall|j: int| #[trigger] text::occurs_at(s, "<"@ + tag, j) implies j == at by {
        assert(s.subrange(j, j + 10)[0] == s[j]);
        assert(s.subrange(j, j + 10)[1] == s[j + 1]);
        assert(s.subrange(j, j + 10)[6] == s[j + 6]);
        lemma_fault_tags(code, description, j);
    }
    assert forall|j: int| #[trigger] text::occurs_at(s, "</"@ + tag, j) implies j == gap by {
        assert(s.subrange(j, j + 11)[0] == s[j]);
        assert(s.subrange(j, j + 11)[1] == s[j + 1]);
        assert(s.subrange(j, j + 11)[2] == s[j + 2]);
        assert(s.subrange(j, j + 11)[7] == s[j + 7]);
        lemma_fault_tags(code, description, j);
    }
    assert(sole_element_at(s, tag, d, at));
    // The description.
    let tag = "errorDescription"@;
    let whole = "<"@ + tag + ">"@ + x + "</"@ + tag + ">"@;
    assert(s.subrange(gap + 12, gap + 12 + whole.len()) =~= whole);
    assert forall|j: int| #[trigger] text::occurs_at(s, "<"@ + tag, j) implies j == gap + 12 by {
        assert(s.subrange(j, j + 17)[0] == s[j]);
        assert(s.subrange(j, j + 17)[1] == s[j + 1]);
        assert(s.subrange(j, j + 17)[6] == s[j + 6]);
        lemma_fault_tags(code, description, j);
    }
    assert forall|j: int| #[trigger] text::occurs_at(s, "</"@ + tag, j) implies j == end by {
        assert(s.subrange(j, j + 18)[0] == s[j]);
        assert(s.subrange(j, j + 18)[1] == s[j + 1]);
        assert(s.subrange(j, j + 18)[2] == s[j + 2]);
        assert(s.subrange(j, j + 18)[7] == s[j + 7]);
        lemma_fault_tags(code, description, j);
    }
    assert(sole_element_at(s, tag, x, gap + 12));
}

proof fn lemma_fault_brackets(code: nat, description: Seq<char>)
    ensures
        char_count(fault_of(code, description), '<') == char_count(fault_head(), '<') + char_count(
            fault_middle(),
            '<',
        ) + char_count(fault_tail(), '<'),
{
    let (p, d, m, x, t) = (
        fault_head(),
        number::decimal_of(code),
        fault_middle(),
        escape_of(description),
        fault_tail(),
    );
    lemma_fault_parts(code, description);
    lemma_count_concat(p, d, '<');
    lemma_count_concat(p + d, m, '<');
    lemma_count_concat(p + d + m, x, '<');
    lemma_count_concat(p + d + m + x, t, '<');
    number::lemma_decimal_reads_back(code);
    assert forall|i: int| 0 <= i < d.len() implies #[trigger] d[i] != '<' by {
        assert(text::is_digit(d[i]));
    }
    assert forall|i: int| 0 <= i < x.len() implies #[trigger] x[i] != '<' by {
        lemma_escape_hides_markup(description, i);
    }
    lemma_count_none(d, '<');
    lemma_count_none(x, '<');
}

/// A description cannot add markup to a fault: whatever the code and the description, the number of
/// `<` is the same.
pub proof fn lemma_fault_markup_is_fixed(
    code: nat,
    description: Seq<char>,
    other_code: nat,
    other_description: Seq<char>,
)
    ensures
        char_count(fault_of(code, description), '<') == char_count(
            fault_of(other_code, other_description),
            '<',
        ),
{
    lemma_fault_brackets(code, description);
    lemma_fault_brackets(other_code, other_description);
}

// Escaping is undone by unescaping: the five replacements turn the token of each character step by
// step back into the character.

/// The token of a character after the first `step` replacements have undone theirs.
spec fn token(c: char, step: nat, apostrophe: bool) -> Seq<char> {
    if c == '<' && step >= 1 || c == '>' && step >= 2 || c == '&' && step >= 3 || c == '"' && step
        >= 4 || c == '\'' && step >= 5 {
        seq![c]
    } else {
        escaped_char(c, apostrophe)
    }
}

/// The tokens of a text, one behind the other.
spec fn tokens(s: Seq<char>, step: nat, apostrophe: bool) -> Seq<char>
    decreases s.len(),
{
    if s.len() == 0 {
        Seq::empty()
    } else {
        token(s[0], step, apostrophe) + tokens(s.drop_first(), step, apostrophe)
    }
}

/// The entity that the replacement with the number `step` looks for.
spec fn entity(step: nat) -> Seq<char> {
    if step == 0 {
        "&lt;"@
    } else if step == 1 {
        "&gt;"@
    } else if step == 2 {
        "&amp;"@
    } else if step == 3 {
        "&quot;"@
    } else {
        "&apos;"@
    }
}

/// The character that the replacement with the number `step` writes.
spec fn restored(step: nat) -> char {
    if step == 0 {
        '<'
    } else if step == 1 {
        '>'
    } else if step == 2 {
        '&'
    } else if step == 3 {
        '"'
    } else {
        '\''
    }
}

proof fn lemma_escaped_tokens(s: Seq<char>, apostrophe: bool)
    ensures
        escaped(s, apostrophe) == tokens(s, 0, apostrophe),
    decreases s.len(),
{
    if s.len() == 1 {
        assert(s.drop_last() =~= Seq::<char>::empty());
        assert(s.drop_first() =~= Seq::<char>::empty());
        reveal_with_fuel(escaped, 2);
        reveal_with_fuel(tokens, 2);
        assert(escaped(s, apostrophe) =~= tokens(s, 0, apostrophe));
    } else if s.len() > 1 {
        let first = s.drop_last();
        lemma_escaped_tokens(first, apostrophe);
        lemma_tokens_last(s, 0, apostrophe);
    }
}

proof fn lemma_tokens_last(s: Seq<char>, step: nat, apostrophe: bool)
    requires
        s.len() > 0,
    ensures
        tokens(s, step, apostrophe) == tokens(s.drop_last(), step, apostrophe) + token(s.last(), step, apostrophe),
    decreases s.len(),
{
    if s.len() == 1 {
        assert(s.drop_last() =~= Seq::<char>::empty());
        assert(s.drop_first() =~= Seq::<char>::empty());
        reveal_with_fuel(tokens, 2);
        assert(tokens(s, step, apostrophe) =~= tokens(s.drop_last(), step, apostrophe) + token(s.last(), step, apostrophe));
    } else {
        let rest = s.drop_first();
        lemma_tokens_last(rest, step, apostrophe);
        assert(rest.drop_last() =~= s.drop_last().drop_first());
        assert(tokens(s, step, apostrophe) =~= tokens(s.drop_last(), step, apostrophe) + token(s.last(), step, apostrophe));
    }
}

/// What no `pat` begins in stays at the front of a replacement.
proof fn lemma_replace_behind(a: Seq<char>, b: Seq<char>, from: Seq<char>, to: Seq<char>)
    requires
        from.len() > 0,
        forall|j: int| 0 <= j < a.len() ==> !#[trigger] text::occurs_at(a + b, from, j),
    ensures
        text::replace_of(a + b, from, to) == a + text::replace_of(b, from, to),
{
    let s = a + b;
    let n = a.len() as int;
    assert forall|j: int| n <= j implies #[trigger] text::occurs_at(s, from, j) == text::occurs_at(
        b,
        from,
        j - n,
    ) by {
        if j + from.len() <= s.len() {
            assert(s.subrange(j, j + from.len()) =~= b.subrange(j - n, j - n + from.len()));
        }
    }
    text::lemma_find_some(b, from);
    text::lemma_find_some(s, from);
    match text::find_of(b, from) {
        Some(i) => {
            assert(text::occurs_at(s, from, i + n));
            assert forall|j: int| 0 <= j < i + n implies !text::occurs_at(s, from, j) by {
                if j >= n {
                    assert(!text::occurs_at(b, from, j - n));
                }
            }
            text::lemma_find_is(s, from, i + n);
            assert(s.take(i + n) =~= a + b.take(i));
            assert(s.skip(i + n + from.len()) =~= b.skip(i + from.len()));
            assert(text::replace_of(s, from, to) =~= a + text::replace_of(b, from, to));
        },
        None => {
            if text::contains(s, from) {
                let j = choose|j: int| text::occurs_at(s, from, j);
                assert(j >= n);
                assert(text::occurs_at(b, from, j - n));
            }
            assert(text::replace_of(s, from, to) =~= a + text::replace_of(b, from, to));
        },
    }
}

/// A `pat` at the front is replaced, and the rest for itself.
proof fn lemma_replace_front(b: Seq<char>, from: Seq<char>, to: Seq<char>)
    requires
        from.len() > 0,
    ensures
        text::replace_of(from + b, from, to) == to + text::replace_of(b, from, to),
{
    let s = from + b;
    assert(s.subrange(0, from.len() as int) =~= from);
    text::lemma_find_is(s, from, 0);
    assert(s.take(0) =~= Seq::<char>::empty());
    assert(s.skip(from.len() as int) =~= b);
    assert(text::replace_of(s, from, to) =~= to + text::replace_of(b, from, to));
}

/// Where plain letters stand in the tokens, they stand in the text.
proof fn lemma_letters_stand(s: Seq<char>, step: nat, apostrophe: bool, word: Seq<char>)
    requires
        step <= 5,
        forall|i: int| 0 <= i < word.len() ==> #[trigger] word[i] != '&',
        text::starts_with(tokens(s, step, apostrophe), word),
        forall|i: int| 0 <= i < word.len() ==> !is_special(#[trigger] word[i]),
    ensures
        text::starts_with(s, word),
    decreases word.len(),
{
    let t = tokens(s, step, apostrophe);
    if word.len() > 0 {
        assert(t.subrange(0, word.len() as int)[0] == t[0]);
        assert(s.len() > 0);
        let c = s[0];
        let rest = s.drop_first();
        reveal_strlit("&amp;");
        reveal_strlit("&lt;");
        reveal_strlit("&gt;");
        reveal_strlit("&quot;");
        reveal_strlit("&apos;");
        assert(token(c, step, apostrophe)[0] == t[0]);
        assert(t[0] == word[0]);
        assert(token(c, step, apostrophe) == seq![c]);
        let tail = word.drop_first();
        assert(t =~= seq![c] + tokens(rest, step, apostrophe));
        assert(tokens(rest, step, apostrophe).subrange(0, tail.len() as int) =~= tail) by {
            assert forall|i: int| 0 <= i < tail.len() implies #[trigger] tokens(rest, step, apostrophe)[i]
                == tail[i] by {
                assert(t.subrange(0, word.len() as int)[i + 1] == t[i + 1]);
            }
        }
        lemma_letters_stand(rest, step, apostrophe, tail);
        assert(s.subrange(0, word.len() as int) =~= word) by {
            assert forall|i: int| 0 <= i < word.len() implies s[i] == word[i] by {
                if i > 0 {
                    assert(rest.subrange(0, tail.len() as int)[i - 1] == rest[i - 1]);
                    assert(tail[i - 1] == word[i]);
                }
            }
        }
    } else {
        assert(s.subrange(0, 0) =~= word);
    }
}

/// The text holds neither of the two entities that are resolved after `&amp;`.
pub open spec fn lacks_quote_entities(s: Seq<char>) -> bool {
    !text::contains(s, "&quot;"@) && !text::contains(s, "&apos;"@)
}

proof fn lemma_lacks_in_rest(s: Seq<char>)
    requires
        s.len() > 0,
        lacks_quote_entities(s),
    ensures
        lacks_quote_entities(s.drop_first()),
{
    let rest = s.drop_first();
    if text::contains(rest, "&quot;"@) {
        let i = choose|i: int| text::occurs_at(rest, "&quot;"@, i);
        assert(s.subrange(i + 1, i + 1 + "&quot;"@.len()) =~= rest.subrange(
            i,
            i + "&quot;"@.len(),
        ));
        assert(text::occurs_at(s, "&quot;"@, i + 1));
    }
    if text::contains(rest, "&apos;"@) {
        let i = choose|i: int| text::occurs_at(rest, "&apos;"@, i);
        assert(s.subrange(i + 1, i + 1 + "&apos;"@.len()) =~= rest.subrange(
            i,
            i + "&apos;"@.len(),
        ));
        assert(text::occurs_at(s, "&apos;"@, i + 1));
    }
}

/// No entity begins in a token that the step leaves as it is.
proof fn lemma_no_entity_begins(s: Seq<char>, step: nat, apostrophe: bool, j: int)
    requires
        s.len() > 0,
        step < 5,
        lacks_quote_entities(s),
        s[0] == restored(step) ==> step == 4 && !apostrophe,
        0 <= j < token(s[0], step, apostrophe).len(),
    ensures
        !text::occurs_at(tokens(s, step, apostrophe), entity(step), j),
{
    let c = s[0];
    let t = token(c, step, apostrophe);
    let all = tokens(s, step, apostrophe);
    let e = entity(step);
    reveal_strlit("&amp;");
    reveal_strlit("&lt;");
    reveal_strlit("&gt;");
    reveal_strlit("&quot;");
    reveal_strlit("&apos;");
    if text::occurs_at(all, e, j) {
        assert(all.subrange(j, j + e.len())[0] == all[j]);
        assert(all[j] == t[j]);
        assert(t[j] == '&');
        assert(j == 0);
        assert(all.subrange(0, e.len() as int)[1] == all[1]);
        assert(all.subrange(0, e.len() as int)[2] == all[2]);
        if t.len() > 1 {
            assert(all[1] == t[1]);
            assert(all[2] == t[2]);
            assert(false);
        } else {
            // The character is an ampersand that stands for itself already.
            assert(c == '&' && step >= 3);
            let rest = s.drop_first();
            let word = e.drop_first();
            assert(tokens(rest, step, apostrophe).subrange(0, word.len() as int) =~= word) by {
                assert forall|i: int| 0 <= i < word.len() implies #[trigger] tokens(rest, step, apostrophe)[i]
                    == word[i] by {
                    assert(all.subrange(0, e.len() as int)[i + 1] == all[i + 1]);
                }
            }
            lemma_letters_stand(rest, step, apostrophe, word);
            assert(s.subrange(0, e.len() as int) =~= e) by {
                assert forall|i: int| 0 <= i < e.len() implies s[i] == e[i] by {
                    if i > 0 {
                        assert(rest.subrange(0, word.len() as int)[i - 1] == rest[i - 1]);
                        assert(word[i - 1] == e[i]);
                    }
                }
            }
            assert(text::occurs_at(s, e, 0));
        }
    }
}

/// One replacement takes the tokens one step further.
proof fn lemma_replace_step(s: Seq<char>, step: nat, apostrophe: bool)
    requires
        step < 5,
        lacks_quote_entities(s),
    ensures
        text::replace_of(tokens(s, step, apostrophe), entity(step), seq![restored(step)]) == tokens(
            s, step + 1, apostrophe),
    decreases s.len(),
{
    let e = entity(step);
    let to = seq![restored(step)];
    reveal_strlit("&amp;");
    reveal_strlit("&lt;");
    reveal_strlit("&gt;");
    reveal_strlit("&quot;");
    reveal_strlit("&apos;");
    if s.len() == 0 {
        assert(!text::contains(Seq::<char>::empty(), e));
    } else {
        let rest = s.drop_first();
        lemma_lacks_in_rest(s);
        lemma_replace_step(rest, step, apostrophe);
        if s[0] == restored(step) && (step != 4 || apostrophe) {
            assert(token(s[0], step, apostrophe) == e);
            lemma_replace_front(tokens(rest, step, apostrophe), e, to);
            assert(token(s[0], step + 1, apostrophe) == to);
        } else {
            assert(token(s[0], step + 1, apostrophe) == token(s[0], step, apostrophe));
            assert forall|j: int| 0 <= j < token(s[0], step, apostrophe).len() implies !#[trigger]
                text::occurs_at(token(s[0], step, apostrophe) + tokens(rest, step, apostrophe), e, j) by {
                lemma_no_entity_begins(s, step, apostrophe, j);
            }
            lemma_replace_behind(token(s[0], step, apostrophe), tokens(rest, step, apostrophe), e, to);
        }
    }
}

proof fn lemma_tokens_restored(s: Seq<char>, apostrophe: bool)
    ensures
        tokens(s, 5, apostrophe) == s,
    decreases s.len(),
{
    if s.len() > 0 {
        lemma_tokens_restored(s.drop_first(), apostrophe);
        assert(tokens(s, 5, apostrophe) =~= s);
    } else {
        assert(tokens(s, 5, apostrophe) =~= s);
    }
}

/// Unescaping gives an escaped text back, unless the text itself holds `&quot;` or `&apos;`.
pub proof fn lemma_escape_undone(s: Seq<char>, apostrophe: bool)
    requires
        lacks_quote_entities(s),
    ensures
        state::unescape_of(escaped(s, apostrophe)) == s,
{
    lemma_escaped_tokens(s, apostrophe);
    lemma_replace_step(s, 0, apostrophe);
    lemma_replace_step(s, 1, apostrophe);
    lemma_replace_step(s, 2, apostrophe);
    lemma_replace_step(s, 3, apostrophe);
    lemma_replace_step(s, 4, apostrophe);
    lemma_tokens_restored(s, apostrophe);
    reveal_strlit("<");
    reveal_strlit(">");
    reveal_strlit("&");
    reveal_strlit("\"");
    reveal_strlit("'");
    assert("<"@ =~= seq!['<']);
    assert(">"@ =~= seq!['>']);
    assert("&"@ =~= seq!['&']);
    assert("\""@ =~= seq!['"']);
    assert("'"@ =~= seq!['\'']);
}

/// Escaped text holds no angle bracket, whether or not apostrophes are escaped.
pub proof fn lemma_escape_hides_tags(s: Seq<char>, apostrophe: bool)
    ensures
        !escaped(s, apostrophe).contains('<'),
        !escaped(s, apostrophe).contains('>'),
    decreases s.len(),
{
    if s.len() > 0 {
        let before = escaped(s.drop_last(), apostrophe);
        let last = escaped_char(s.last(), apostrophe);
        lemma_escape_hides_tags(s.drop_last(), apostrophe);
        reveal_strlit("&amp;");
        reveal_strlit("&lt;");
        reveal_strlit("&gt;");
        reveal_strlit("&quot;");
        reveal_strlit("&apos;");
        assert forall|i: int| 0 <= i < escaped(s, apostrophe).len() implies escaped(
            s,
            apostrophe,
        )[i] != '<' && escaped(s, apostrophe)[i] != '>' by {
            if i < before.len() {
                assert(before.contains(before[i]));
            } else {
                assert(escaped(s, apostrophe)[i] == last[i - before.len()]);
            }
        }
    }
}

/// The title in DIDL-Lite that is escaped once is read: the trimmed text of the first `dc:title`
/// element, where it is not empty and holds no markup.
pub proof fn lemma_title_reads_back(before: Seq<char>, title: Seq<char>, after: Seq<char>)
    requires
        !text::contains(before, "<dc:title>"@),
        !title.contains('<'),
        text::trim_of(title).len() > 0,
        lacks_quote_entities(before + "<dc:title>"@ + title + "</dc:title>"@ + after),
    ensures
        state::or_empty(
            state::title_in(
                state::unescape_of(
                    escape_of(before + "<dc:title>"@ + title + "</dc:title>"@ + after),
                ),
            ),
        ) == text::trim_of(title),
{
    reveal_strlit("<dc:title>");
    reveal_strlit("</dc:title>");
    let s = before + "<dc:title>"@ + title + "</dc:title>"@ + after;
    lemma_escape_undone(s, true);
    state::lemma_element_reads_back(before, "<dc:title>"@, title, "</dc:title>"@, after);
}

// ---------------------------------------------------------------------------------------------
// Elements
// ---------------------------------------------------------------------------------------------
/// An element with its content.
pub open spec fn element(tag: Seq<char>, content: Seq<char>) -> Seq<char> {
    "<"@ + tag + ">"@ + content + ("</"@ + tag + ">"@)
}

/// Elements one after the other, each a name and a content.
pub open spec fn elements(list: Seq<(Seq<char>, Seq<char>)>) -> Seq<char>
    decreases list.len(),
{
    if list.len() == 0 {
        Seq::empty()
    } else {
        let (tag, content) = list.last();
        elements(list.drop_last()) + element(tag, content)
    }
}

/// A name without brackets, slashes or white space.
pub open spec fn plain_name(tag: Seq<char>) -> bool {
    tag.len() > 0 && forall|i: int|
        0 <= i < tag.len() ==> (#[trigger] tag[i]) != '<' && tag[i] != '>' && tag[i] != '/'
            && !text::is_white(tag[i])
}

/// Plain names, and contents without an opening bracket.
pub open spec fn plain_elements(list: Seq<(Seq<char>, Seq<char>)>) -> bool {
    forall|i: int|
        #![trigger list[i]]
        0 <= i < list.len() ==> {
            let (tag, content) = list[i];
            plain_name(tag) && !content.contains('<')
        }
}

/// One more element comes behind the others.
pub proof fn lemma_elements_push(
    list: Seq<(Seq<char>, Seq<char>)>,
    tag: Seq<char>,
    content: Seq<char>,
)
    ensures
        elements(list.push((tag, content))) == elements(list) + element(tag, content),
{
    assert(list.push((tag, content)).drop_last() =~= list);
}

proof fn lemma_elements_split(list: Seq<(Seq<char>, Seq<char>)>, i: int)
    requires
        0 <= i < list.len(),
    ensures
        ({
            let (tag, content) = list[i];
            elements(list) == elements(list.take(i)) + element(tag, content) + elements(
                list.skip(i + 1),
            )
        }),
    decreases list.len(),
{
    let n = list.len() - 1;
    if i == n {
        assert(list.take(i) =~= list.drop_last());
        assert(list.skip(i + 1) =~= Seq::<(Seq<char>, Seq<char>)>::empty());
        assert(elements(list) =~= elements(list) + elements(list.skip(i + 1)));
    } else {
        let short = list.drop_last();
        lemma_elements_split(short, i);
        assert(short.take(i) =~= list.take(i));
        let rest = list.skip(i + 1);
        assert(short.skip(i + 1) =~= rest.drop_last());
        let (tag, content) = list[i];
        let (last_tag, last_content) = list.last();
        assert(rest.last() == list.last());
        let a = elements(list.take(i)) + element(tag, content);
        let b = elements(rest.drop_last());
        let c = element(last_tag, last_content);
        assert(a + b + c =~= a + (b + c));
    }
}

proof fn lemma_no_such_element(list: Seq<(Seq<char>, Seq<char>)>, tag: Seq<char>)
    requires
        plain_elements(list),
        plain_name(tag),
        forall|k: int|
            #![trigger list[k]]
            0 <= k < list.len() ==> {
                let (name, _) = list[k];
                name != tag
            },
    ensures
        opening_of(elements(list), "<"@ + tag) is None,
    decreases list.len(),
{
    reveal_strlit("<");
    reveal_strlit("</");
    reveal_strlit(">");
    let open = "<"@ + tag;
    let body = elements(list);
    if list.len() == 0 {
        assert forall|j: int| !opens_at(body, open, j) by {}
    } else {
        let short = list.drop_last();
        assert forall|k: int| 0 <= k < short.len() implies {
            let (name, content) = #[trigger] short[k];
            plain_name(name) && !content.contains('<') && name != tag
        } by {
            assert(short[k] == list[k]);
        }
        lemma_no_such_element(short, tag);
        let (name, content) = list[list.len() - 1];
        let e = elements(short);
        let el = element(name, content);
        let n = e.len() as int;
        let m = name.len() as int;
        assert(body == e + el);
        assert(plain_name(name) && !content.contains('<') && name != tag);
        assert forall|j: int| !opens_at(body, open, j) by {
            if opens_at(body, open, j) {
                assert(body.subrange(j, j + open.len()) == open);
                assert(open[0] == '<' && body[j] == open[0]);
                if j < n {
                    if j + open.len() > n {
                        assert(body.subrange(j, j + open.len())[n - j] == body[n]);
                        assert(body[n] == '<');
                        assert(open[n - j] == tag[n - j - 1]);
                    } else if j + open.len() == n {
                        assert(body[n] == el[0]);
                    } else {
                        assert(e.subrange(j, j + open.len()) =~= open);
                        assert(e[j + open.len()] == body[j + open.len()]);
                        assert(opens_at(e, open, j));
                    }
                } else {
                    let i = j - n;
                    assert(body[j] == el[i]);
                    assert forall|k: int| 0 <= k < open.len() implies el[i + k]
                        == #[trigger] open[k] by {
                        assert(body.subrange(j, j + open.len())[k] == body[j + k]);
                    }
                    if i == 0 {
                        assert forall|k: int| 0 <= k < m && k < tag.len() implies name[k]
                            == tag[k] by {
                            assert(el[k + 1] == open[k + 1]);
                            assert(el[k + 1] == name[k]);
                        }
                        let end = body[j + open.len()];
                        assert(end == el[open.len() as int]);
                        if tag.len() < m {
                            assert(el[open.len() as int] == name[tag.len() as int]);
                        } else if tag.len() > m {
                            assert(el[m + 1] == '>');
                            assert(open[m + 1] == tag[m]);
                        } else {
                            assert(name =~= tag);
                        }
                    } else if i <= m {
                        assert(el[i] == name[i - 1]);
                    } else if i == m + 1 {
                        assert(el[i] == '>');
                    } else if i < m + 2 + content.len() {
                        assert(el[i] == content[i - m - 2]);
                        assert(content.contains(content[i - m - 2]));
                    } else if i == m + 2 + content.len() {
                        assert(el[i + 1] == '/');
                        assert(el[i + 1] == open[1]);
                        assert(open[1] == tag[0]);
                    } else if i < 2 * m + 4 + content.len() {
                        let k = i - (m + 4 + content.len());
                        assert(k >= 0 ==> el[i] == name[k]);
                        assert(k < 0 ==> el[i] == '/');
                    } else {
                        assert(el[i] == '>');
                    }
                }
            }
        }
    }
}

/// The content of each element is found under its name, trimmed; of several of one name the first
/// counts.
pub proof fn lemma_elements_read_back(list: Seq<(Seq<char>, Seq<char>)>, i: int)
    requires
        plain_elements(list),
        0 <= i < list.len(),
        forall|k: int|
            #![trigger list[k]]
            0 <= k < i ==> {
                let (name, _) = list[k];
                let (tag, _) = list[i];
                name != tag
            },
    ensures
        ({
            let (tag, content) = list[i];
            tag_content(elements(list), tag) == Some(text::trim_of(content))
        }),
{
    let (tag, content) = list[i];
    let before = list.take(i);
    assert(plain_name(tag) && !content.contains('<'));
    lemma_elements_split(list, i);
    assert forall|k: int| 0 <= k < before.len() implies {
        let (name, c) = #[trigger] before[k];
        plain_name(name) && !c.contains('<') && name != tag
    } by {
        assert(before[k] == list[k]);
    }
    lemma_no_such_element(before, tag);
    if tag.contains('<') {
        let k = choose|k: int| 0 <= k < tag.len() && tag[k] == '<';
        assert(tag[k] == '<');
    }
    if tag.contains('>') {
        let k = choose|k: int| 0 <= k < tag.len() && tag[k] == '>';
        assert(tag[k] == '>');
    }
    let a = elements(before);
    let after = elements(list.skip(i + 1));
    lemma_argument_reads_back(a, tag, content, after);
    let open = "<"@ + tag + ">"@;
    let close = "</"@ + tag + ">"@;
    assert(a + (open + content + close) + after =~= a + open + content + close + after);
}

/// The event of AVTransport tells the transport state, the media, its length and the position, each
/// as the value of its own variable.
pub proof fn lemma_transport_event_tells(av: state::AvModel)
    ensures
        text::contains(avtransport_event(av), "<TransportState val=\""@ + av.transport_state.name() + "\"/>"@),
        text::contains(avtransport_event(av), "<CurrentTrackURI val=\""@ + escape_of(av.current_uri) + "\"/>"@),
        text::contains(avtransport_event(av), "<CurrentTrackDuration val=\""@ + length_text(av.duration) + "\"/>"@),
        text::contains(avtransport_event(av), "<RelativeTimePosition val=\""@ + state::clock_text(time::whole_secs(av.position)) + "\"/>"@),
        text::contains(avtransport_event(av), "<AbsoluteTimePosition val=\""@ + state::clock_text(time::whole_secs(av.position)) + "\"/>"@),
{
    let p0 = "<Event xmlns=\"urn:schemas-upnp-org:metadata-1-0/AVT/\"><InstanceID val=\"0\"><TransportState val=\""@;
    let p1 = av.transport_state.name();
    let p2 = "\"/><CurrentTrackURI val=\""@;
    let p3 = escape_of(av.current_uri);
    let p4 = "\"/><CurrentTrackDuration val=\""@;
    let p5 = length_text(av.duration);
    let p6 = "\"/><RelativeTimePosition val=\""@;
    let p7 = state::clock_text(time::whole_secs(av.position));
    let p8 = "\"/><AbsoluteTimePosition val=\""@;
    let p9 = state::clock_text(time::whole_secs(av.position));
    let p10 = "\"/><CurrentTransportActions val=\"Play,Stop,Pause,Seek,Next,Previous\"/><TransportStatus val=\"OK\"/></InstanceID></Event>"@;
    reveal_strlit(
        "<Event xmlns=\"urn:schemas-upnp-org:metadata-1-0/AVT/\"><InstanceID val=\"0\"><TransportState val=\"",
    );
    reveal_strlit("\"/><CurrentTrackURI val=\"");
    reveal_strlit("\"/><CurrentTrackDuration val=\"");
    reveal_strlit("\"/><RelativeTimePosition val=\"");
    reveal_strlit("\"/><AbsoluteTimePosition val=\"");
    reveal_strlit(
        "\"/><CurrentTransportActions val=\"Play,Stop,Pause,Seek,Next,Previous\"/><TransportStatus val=\"OK\"/></InstanceID></Event>",
    );
    reveal_strlit("<TransportState val=\"");
    reveal_strlit("<CurrentTrackURI val=\"");
    reveal_strlit("<CurrentTrackDuration val=\"");
    reveal_strlit("<RelativeTimePosition val=\"");
    reveal_strlit("<AbsoluteTimePosition val=\"");
    reveal_strlit("\"/>");
    let whole = avtransport_event(av);
    assert(whole =~= (Seq::<char>::empty()) + p0 + p1 + p2 + (p3 + p4 + p5 + p6 + p7 + p8 + p9 + p10));
    assert(p0.skip(p0.len() - "<TransportState val=\""@.len()) =~= "<TransportState val=\""@);
    assert(p2.subrange(0, "\"/>"@.len() as int) =~= "\"/>"@);
    text::lemma_contains_between(
        Seq::<char>::empty(),
        p0,
        p1,
        p2,
        p3 + p4 + p5 + p6 + p7 + p8 + p9 + p10,
        "<TransportState val=\""@,
        "\"/>"@,
    );
    assert(whole =~= (p0 + p1) + p2 + p3 + p4 + (p5 + p6 + p7 + p8 + p9 + p10));
    assert(p2.skip(p2.len() - "<CurrentTrackURI val=\""@.len()) =~= "<CurrentTrackURI val=\""@);
    assert(p4.subrange(0, "\"/>"@.len() as int) =~= "\"/>"@);
    text::lemma_contains_between(
        p0 + p1,
        p2,
        p3,
        p4,
        p5 + p6 + p7 + p8 + p9 + p10,
        "<CurrentTrackURI val=\""@,
        "\"/>"@,
    );
    assert(whole =~= (p0 + p1 + p2 + p3) + p4 + p5 + p6 + (p7 + p8 + p9 + p10));
    assert(p4.skip(p4.len() - "<CurrentTrackDuration val=\""@.len()) =~= "<CurrentTrackDuration val=\""@);
    assert(p6.subrange(0, "\"/>"@.len() as int) =~= "\"/>"@);
    text::lemma_contains_between(
        p0 + p1 + p2 + p3,
        p4,
        p5,
        p6,
        p7 + p8 + p9 + p10,
        "<CurrentTrackDuration val=\""@,
        "\"/>"@,
    );
    assert(whole =~= (p0 + p1 + p2 + p3 + p4 + p5) + p6 + p7 + p8 + (p9 + p10));
    assert(p6.skip(p6.len() - "<RelativeTimePosition val=\""@.len()) =~= "<RelativeTimePosition val=\""@);
    assert(p8.subrange(0, "\"/>"@.len() as int) =~= "\"/>"@);
    text::lemma_contains_between(
        p0 + p1 + p2 + p3 + p4 + p5,
        p6,
        p7,
        p8,
        p9 + p10,
        "<RelativeTimePosition val=\""@,
        "\"/>"@,
    );
    assert(whole =~= (p0 + p1 + p2 + p3 + p4 + p5 + p6 + p7) + p8 + p9 + p10 + (Seq::<char>::empty()));
    assert(p8.skip(p8.len() - "<AbsoluteTimePosition val=\""@.len()) =~= "<AbsoluteTimePosition val=\""@);
    assert(p10.subrange(0, "\"/>"@.len() as int) =~= "\"/>"@);
    text::lemma_contains_between(
        p0 + p1 + p2 + p3 + p4 + p5 + p6 + p7,
        p8,
        p9,
        p10,
        Seq::<char>::empty(),
        "<AbsoluteTimePosition val=\""@,
        "\"/>"@,
    );
}

/// The event of RenderingControl tells the volume, and 1 or 0 for sound that is muted or not.
pub proof fn lemma_sound_event_tells(volume: nat, mute: bool)
    ensures
        text::contains(rendering_event(volume, mute), "<Volume channel=\"Master\" val=\""@ + number::decimal_of(volume) + "\"/>"@),
        text::contains(rendering_event(volume, mute), "<Mute channel=\"Master\" val=\""@ + (if mute { "1"@ } else { "0"@ }) + "\"/>"@),
{
    let p0 = "<Event xmlns=\"urn:schemas-upnp-org:metadata-1-0/RCS/\"><InstanceID val=\"0\"><Volume channel=\"Master\" val=\""@;
    let p1 = number::decimal_of(volume);
    let p2 = "\"/><Mute channel=\"Master\" val=\""@;
    let p3 = (if mute { "1"@ } else { "0"@ });
    let p4 = "\"/></InstanceID></Event>"@;
    reveal_strlit(
        "<Event xmlns=\"urn:schemas-upnp-org:metadata-1-0/RCS/\"><InstanceID val=\"0\"><Volume channel=\"Master\" val=\"",
    );
    reveal_strlit("\"/><Mute channel=\"Master\" val=\"");
    reveal_strlit("\"/></InstanceID></Event>");
    reveal_strlit("<Volume channel=\"Master\" val=\"");
    reveal_strlit("<Mute channel=\"Master\" val=\"");
    reveal_strlit("\"/>");
    let whole = rendering_event(volume, mute);
    assert(whole =~= (Seq::<char>::empty()) + p0 + p1 + p2 + (p3 + p4));
    assert(p0.skip(p0.len() - "<Volume channel=\"Master\" val=\""@.len()) =~= "<Volume channel=\"Master\" val=\""@);
    assert(p2.subrange(0, "\"/>"@.len() as int) =~= "\"/>"@);
    text::lemma_contains_between(
        Seq::<char>::empty(),
        p0,
        p1,
        p2,
        p3 + p4,
        "<Volume channel=\"Master\" val=\""@,
        "\"/>"@,
    );
    assert(whole =~= (p0 + p1) + p2 + p3 + p4 + (Seq::<char>::empty()));
    assert(p2.skip(p2.len() - "<Mute channel=\"Master\" val=\""@.len()) =~= "<Mute channel=\"Master\" val=\""@);
    assert(p4.subrange(0, "\"/>"@.len() as int) =~= "\"/>"@);
    text::lemma_contains_between(
        p0 + p1,
        p2,
        p3,
        p4,
        Seq::<char>::empty(),
        "<Mute channel=\"Master\" val=\""@,
        "\"/>"@,
    );
}

/// The device description tells the address, with a slash at its end, the name, escaped, and the
/// UDN, each in its own element.
pub proof fn lemma_description_tells(base: Seq<char>, friendly_name: Seq<char>, udn: Seq<char>)
    ensures
        text::contains(description_of(base, friendly_name, udn), "<URLBase>"@ + slashed(base) + "</URLBase>"@),
        text::contains(description_of(base, friendly_name, udn), "<friendlyName>"@ + escape_of(friendly_name) + "</friendlyName>"@),
        text::contains(description_of(base, friendly_name, udn), "<UDN>"@ + udn + "</UDN>"@),
        text::contains(description_of(base, friendly_name, udn), "<presentationURL>"@ + slashed(base) + "</presentationURL>"@),
{
    let p0 = "<?xml version=\"1.0\"?>
<root xmlns=\"urn:schemas-upnp-org:device-1-0\">
  <specVersion><major>1</major><minor>0</minor></specVersion>
  <URLBase>"@;
    let p1 = slashed(base);
    let p2 = "</URLBase>
  <device>
    <deviceType>urn:schemas-upnp-org:device:MediaRenderer:1</deviceType>
    <friendlyName>"@;
    let p3 = escape_of(friendly_name);
    let p4 = "</friendlyName>
    <manufacturer>playpnp</manufacturer>
    <manufacturerURL>https://github.com/playpnp/playpnp</manufacturerURL>
    <modelDescription>DLNA MediaRenderer for Windows</modelDescription>
    <modelName>playpnp</modelName>
    <modelNumber>1</modelNumber>
    <modelURL>https://github.com/playpnp/playpnp</modelURL>
    <serialNumber>1</serialNumber>
    <UDN>"@;
    let p5 = udn;
    let p6 = "</UDN>
    <presentationURL>"@;
    let p7 = slashed(base);
    let p8 = "</presentationURL>
    <serviceList>
      <service>
        <serviceType>urn:schemas-upnp-org:service:AVTransport:1</serviceType>
        <serviceId>urn:upnp-org:serviceId:AVTransport</serviceId>
        <SCPDURL>/AVTransport/scpd.xml</SCPDURL>
        <controlURL>/AVTransport/control</controlURL>
        <eventSubURL>/AVTransport/event</eventSubURL>
      </service>
      <service>
        <serviceType>urn:schemas-upnp-org:service:RenderingControl:1</serviceType>
        <serviceId>urn:upnp-org:serviceId:RenderingControl</serviceId>
        <SCPDURL>/RenderingControl/scpd.xml</SCPDURL>
        <controlURL>/RenderingControl/control</controlURL>
        <eventSubURL>/RenderingControl/event</eventSubURL>
      </service>
      <service>
        <serviceType>urn:schemas-upnp-org:service:ConnectionManager:1</serviceType>
        <serviceId>urn:upnp-org:serviceId:ConnectionManager</serviceId>
        <SCPDURL>/ConnectionManager/scpd.xml</SCPDURL>
        <controlURL>/ConnectionManager/control</controlURL>
        <eventSubURL>/ConnectionManager/event</eventSubURL>
      </service>
    </serviceList>
  </device>
</root>"@;
    reveal_strlit("<?xml version=\"1.0\"?>
<root xmlns=\"urn:schemas-upnp-org:device-1-0\">
  <specVersion><major>1</major><minor>0</minor></specVersion>
  <URLBase>");
    reveal_strlit("</URLBase>
  <device>
    <deviceType>urn:schemas-upnp-org:device:MediaRenderer:1</deviceType>
    <friendlyName>");
    reveal_strlit("</friendlyName>
    <manufacturer>playpnp</manufacturer>
    <manufacturerURL>https://github.com/playpnp/playpnp</manufacturerURL>
    <modelDescription>DLNA MediaRenderer for Windows</modelDescription>
    <modelName>playpnp</modelName>
    <modelNumber>1</modelNumber>
    <modelURL>https://github.com/playpnp/playpnp</modelURL>
    <serialNumber>1</serialNumber>
    <UDN>");
    reveal_strlit("</UDN>
    <presentationURL>");
    reveal_strlit("</presentationURL>
    <serviceList>
      <service>
        <serviceType>urn:schemas-upnp-org:service:AVTransport:1</serviceType>
        <serviceId>urn:upnp-org:serviceId:AVTransport</serviceId>
        <SCPDURL>/AVTransport/scpd.xml</SCPDURL>
        <controlURL>/AVTransport/control</controlURL>
        <eventSubURL>/AVTransport/event</eventSubURL>
      </service>
      <service>
        <serviceType>urn:schemas-upnp-org:service:RenderingControl:1</serviceType>
        <serviceId>urn:upnp-org:serviceId:RenderingControl</serviceId>
        <SCPDURL>/RenderingControl/scpd.xml</SCPDURL>
        <controlURL>/RenderingControl/control</controlURL>
        <eventSubURL>/RenderingControl/event</eventSubURL>
      </service>
      <service>
        <serviceType>urn:schemas-upnp-org:service:ConnectionManager:1</serviceType>
        <serviceId>urn:upnp-org:serviceId:ConnectionManager</serviceId>
        <SCPDURL>/ConnectionManager/scpd.xml</SCPDURL>
        <controlURL>/ConnectionManager/control</controlURL>
        <eventSubURL>/ConnectionManager/event</eventSubURL>
      </service>
    </serviceList>
  </device>
</root>");
    reveal_strlit("<URLBase>");
    reveal_strlit("<friendlyName>");
    reveal_strlit("<UDN>");
    reveal_strlit("<presentationURL>");
    reveal_strlit("</URLBase>");
    reveal_strlit("</friendlyName>");
    reveal_strlit("</UDN>");
    reveal_strlit("</presentationURL>");
    let whole = description_of(base, friendly_name, udn);
    assert(whole =~= (Seq::<char>::empty()) + p0 + p1 + p2 + (p3 + p4 + p5 + p6 + p7 + p8));
    assert(p0.skip(p0.len() - "<URLBase>"@.len()) =~= "<URLBase>"@);
    assert(p2.subrange(0, "</URLBase>"@.len() as int) =~= "</URLBase>"@);
    text::lemma_contains_between(
        Seq::<char>::empty(),
        p0,
        p1,
        p2,
        p3 + p4 + p5 + p6 + p7 + p8,
        "<URLBase>"@,
        "</URLBase>"@,
    );
    assert(whole =~= (p0 + p1) + p2 + p3 + p4 + (p5 + p6 + p7 + p8));
    assert(p2.skip(p2.len() - "<friendlyName>"@.len()) =~= "<friendlyName>"@);
    assert(p4.subrange(0, "</friendlyName>"@.len() as int) =~= "</friendlyName>"@);
    text::lemma_contains_between(
        p0 + p1,
        p2,
        p3,
        p4,
        p5 + p6 + p7 + p8,
        "<friendlyName>"@,
        "</friendlyName>"@,
    );
    assert(whole =~= (p0 + p1 + p2 + p3) + p4 + p5 + p6 + (p7 + p8));
    assert(p4.skip(p4.len() - "<UDN>"@.len()) =~= "<UDN>"@);
    assert(p6.subrange(0, "</UDN>"@.len() as int) =~= "</UDN>"@);
    text::lemma_contains_between(p0 + p1 + p2 + p3, p4, p5, p6, p7 + p8, "<UDN>"@, "</UDN>"@);
    assert(whole =~= (p0 + p1 + p2 + p3 + p4 + p5) + p6 + p7 + p8 + (Seq::<char>::empty()));
    assert(p6.skip(p6.len() - "<presentationURL>"@.len()) =~= "<presentationURL>"@);
    assert(p8.subrange(0, "</presentationURL>"@.len() as int) =~= "</presentationURL>"@);
    text::lemma_contains_between(
        p0 + p1 + p2 + p3 + p4 + p5,
        p6,
        p7,
        p8,
        Seq::<char>::empty(),
        "<presentationURL>"@,
        "</presentationURL>"@,
    );
}

/// Escaping goes character by character: the five special ones become their entities, the
/// apostrophe only where that is asked for, and any other stays.
pub proof fn lemma_escape_by_character(a: Seq<char>, c: char, b: Seq<char>, apostrophe: bool)
    ensures
        escaped(a.push(c) + b, apostrophe) == escaped(a, apostrophe) + (if c == '<' {
            "&lt;"@
        } else if c == '>' {
            "&gt;"@
        } else if c == '&' {
            "&amp;"@
        } else if c == '"' {
            "&quot;"@
        } else if apostrophe && c == '\'' {
            "&apos;"@
        } else {
            seq![c]
        }) + escaped(b, apostrophe),
    decreases b.len(),
{
    let s = a.push(c) + b;
    if b.len() == 0 {
        assert(s =~= a.push(c));
        assert(s.drop_last() =~= a);
        assert(escaped(s, apostrophe) =~= escaped(s, apostrophe) + escaped(b, apostrophe));
    } else {
        lemma_escape_by_character(a, c, b.drop_last(), apostrophe);
        assert(s.drop_last() =~= a.push(c) + b.drop_last());
        assert(s.last() == b.last());
        let head = escaped(a, apostrophe) + escaped_char(c, apostrophe);
        let mid = escaped(b.drop_last(), apostrophe);
        let tail = escaped_char(b.last(), apostrophe);
        assert(head + mid + tail =~= head + (mid + tail));
    }
}

/// What an envelope is made for is its body.
pub proof fn lemma_envelope_holds(body: Seq<char>)
    ensures
        text::contains(envelope_of(body), "<s:Body>"@ + body + "</s:Body>"@),
        text::contains(envelope_of(body), body),
{
    let head =
        "<?xml version=\"1.0\"?><s:Envelope xmlns:s=\"http://schemas.xmlsoap.org/soap/envelope/\" s:encodingStyle=\"http://schemas.xmlsoap.org/soap/encoding/\"><s:Body>"@;
    let tail = "</s:Body></s:Envelope>"@;
    let none = Seq::<char>::empty();
    reveal_strlit(
        "<?xml version=\"1.0\"?><s:Envelope xmlns:s=\"http://schemas.xmlsoap.org/soap/envelope/\" s:encodingStyle=\"http://schemas.xmlsoap.org/soap/encoding/\"><s:Body>",
    );
    reveal_strlit("</s:Body></s:Envelope>");
    reveal_strlit("<s:Body>");
    reveal_strlit("</s:Body>");
    assert(head.skip(head.len() - 8) =~= "<s:Body>"@);
    assert(tail.subrange(0, 9) =~= "</s:Body>"@);
    assert(envelope_of(body) =~= none + head + body + tail + none);
    text::lemma_contains_between(none, head, body, tail, none, "<s:Body>"@, "</s:Body>"@);
    text::lemma_contains_part(head, body, tail);
}

/// A `SOAPAction` header names the action behind its last `#`, in quotes or without.
pub proof fn lemma_header_names_action(service: Seq<char>, action: Seq<char>)
    requires
        service.len() > 0,
        action.len() > 0,
        text::free_of(action, CharSet::One('#')),
        !text::is_white(service[0]) && service[0] != '"' && service[0] != '\'',
        !text::is_white(action.last()) && action.last() != '"' && action.last() != '\'',
    ensures
        action_of(service + "#"@ + action) == action,
        action_of("\""@ + (service + "#"@ + action) + "\""@) == action,
{
    reveal_strlit("#");
    reveal_strlit("\"");
    let none = Seq::<char>::empty();
    let h = service + "#"@ + action;
    let quoted = "\""@ + h + "\""@;
    assert(h[0] == service[0] && h.last() == action.last());
    text::lemma_strip_keeps(h, CharSet::White);
    text::lemma_strip_keeps(h, CharSet::One('"'));
    text::lemma_strip_keeps(h, CharSet::One('\''));
    text::lemma_strip_keeps(quoted, CharSet::White);
    text::lemma_strip_is("\""@, h, "\""@, CharSet::One('"'));
    assert(h =~= service.push('#') + action);
    text::lemma_after_last_is(service, '#', action);
}

/// A text that ends with elements but for the last closing tag goes on with that tag and the next
/// opening one.
pub proof fn lemma_elements_next(
    list: Seq<(Seq<char>, Seq<char>)>,
    text: Seq<char>,
    close: Seq<char>,
    joint: Seq<char>,
    tag: Seq<char>,
    content: Seq<char>,
)
    requires
        text + close == elements(list),
        joint == close + ("<"@ + tag + ">"@),
    ensures
        text + joint + content + ("</"@ + tag + ">"@) == elements(list.push((tag, content))),
{
    lemma_elements_push(list, tag, content);
    let open = "<"@ + tag + ">"@;
    let end = "</"@ + tag + ">"@;
    assert(text + (close + open) + content + end =~= (text + close) + (open + content + end));
}

proof fn lemma_content_is(
    before: Seq<char>,
    open: Seq<char>,
    attributes: Seq<char>,
    rest: Seq<char>,
    tag: Seq<char>,
)
    requires
        open.len() > 0,
        open[0] == '<',
        forall|i: int| 1 <= i < open.len() ==> #[trigger] open[i] != '<',
        !open.contains('>'),
        !attributes.contains('>'),
        attributes.len() > 0 ==> ends_name(attributes[0]),
        opening_of(before, open) is None,
    ensures
        content_after(before + (open + attributes + ">"@ + rest), open, tag) == up_to_close(
            rest,
            tag,
        ),
{
    reveal_strlit(">");
    let element = open + attributes + ">"@ + rest;
    let body = before + element;
    let n = before.len() as int;
    let k = open.len() as int;
    assert(body.subrange(n, n + k) =~= open);
    assert(body[n + k] == element[k]);
    assert(element[k] == if attributes.len() > 0 {
        attributes[0]
    } else {
        '>'
    });
    assert(body[n] == '<');
    assert forall|j: int| 0 <= j < n implies !opens_at(body, open, j) by {
        if opens_at(body, open, j) {
            if j + k < n {
                assert(before.subrange(j, j + k) =~= body.subrange(j, j + k));
                assert(before[j + k] == body[j + k]);
                assert(opens_at(before, open, j));
            } else if j + k == n {
                assert(body[j + k] == '<');
            } else {
                assert(body.subrange(j, j + k)[n - j] == body[n]);
                assert(open[n - j] == '<');
            }
        }
    }
    lemma_opening_is(body, open, n);
    let behind = body.skip(n);
    let gt = k + attributes.len();
    assert(behind =~= element);
    assert(element.subrange(gt, gt + 1) =~= ">"@);
    assert forall|j: int| 0 <= j < gt implies !text::occurs_at(element, ">"@, j) by {
        if text::occurs_at(element, ">"@, j) {
            assert(element.subrange(j, j + 1)[0] == element[j]);
            if j < k {
                assert(element[j] == open[j]);
                assert(open.contains(open[j]));
            } else {
                assert(element[j] == attributes[j - k]);
                assert(attributes.contains(attributes[j - k]));
            }
        }
    }
    text::lemma_find_is(element, ">"@, gt);
    assert(body.skip(n + gt + 1) =~= rest);
}

proof fn lemma_close_is(value: Seq<char>, close: Seq<char>, after: Seq<char>)
    requires
        !value.contains('<'),
        close.len() > 0,
        close[0] == '<',
    ensures
        text::find_of(value + (close + after), close) == Some(value.len() as int),
        (value + (close + after)).take(value.len() as int) == value,
{
    let rest = value + (close + after);
    let m = value.len() as int;
    assert(rest.subrange(m, m + close.len()) =~= close);
    assert forall|j: int| 0 <= j < m implies !text::occurs_at(rest, close, j) by {
        if text::occurs_at(rest, close, j) {
            assert(rest.subrange(j, j + close.len())[0] == value[j]);
            assert(value.contains(value[j]));
        }
    }
    text::lemma_find_is(rest, close, m);
    assert(rest.take(m) =~= value);
}

proof fn lemma_no_close(value: Seq<char>, tail: Seq<char>, close: Seq<char>)
    requires
        !value.contains('<'),
        close.len() > 0,
        close[0] == '<',
        !text::contains(tail, close),
    ensures
        text::find_of(value + tail, close) is None,
{
    let rest = value + tail;
    let m = value.len() as int;
    if text::contains(rest, close) {
        let j = choose|j: int| text::occurs_at(rest, close, j);
        assert(rest.subrange(j, j + close.len())[0] == rest[j]);
        if j < m {
            assert(value.contains(value[j]));
        } else {
            assert(tail.subrange(j - m, j - m + close.len()) =~= rest.subrange(j, j + close.len()));
            assert(text::occurs_at(tail, close, j - m));
        }
    }
}

/// The content of an element is found whether its tag has attributes or not.
pub proof fn lemma_attributes_do_not_count(
    before: Seq<char>,
    tag: Seq<char>,
    attributes: Seq<char>,
    value: Seq<char>,
    after: Seq<char>,
)
    requires
        plain_name(tag),
        !value.contains('<'),
        !attributes.contains('>'),
        attributes.len() > 0 ==> attributes[0] == ' ' || attributes[0] == '/' || attributes[0]
            == '\n',
        opening_of(before, "<"@ + tag) is None,
    ensures
        tag_content(
            before + ("<"@ + tag + attributes + ">"@ + (value + ("</"@ + tag + ">"@ + after))),
            tag,
        ) == Some(text::trim_of(value)),
{
    reveal_strlit("<");
    reveal_strlit("</");
    reveal_strlit(">");
    lemma_open_is_plain("<"@, tag);
    let close = "</"@ + tag + ">"@;
    lemma_content_is(before, "<"@ + tag, attributes, value + (close + after), tag);
    lemma_close_is(value, close, after);
}

proof fn lemma_open_is_plain(prefix: Seq<char>, tag: Seq<char>)
    requires
        prefix == "<"@ || prefix == "<u:"@ || prefix == "<s:"@,
        plain_name(tag),
    ensures
        (prefix + tag)[0] == '<',
        forall|i: int| 1 <= i < (prefix + tag).len() ==> #[trigger] (prefix + tag)[i] != '<',
        !(prefix + tag).contains('>'),
{
    reveal_strlit("<");
    reveal_strlit("<u:");
    reveal_strlit("<s:");
    let open = prefix + tag;
    assert forall|i: int| 0 <= i < open.len() implies (i > 0 ==> #[trigger] open[i] != '<')
        && open[i] != '>' by {
        if i >= prefix.len() {
            assert(open[i] == tag[i - prefix.len()]);
        }
    }
    if open.contains('>') {
        let i = choose|i: int| 0 <= i < open.len() && open[i] == '>';
        assert(open[i] != '>');
    }
}

/// The content of an element is found with the prefix `u:` too, and with `s:`, where no element of
/// the name comes before it in the order of these forms.
pub proof fn lemma_prefixes_do_not_count(
    before: Seq<char>,
    tag: Seq<char>,
    attributes: Seq<char>,
    value: Seq<char>,
    after: Seq<char>,
)
    requires
        plain_name(tag),
        !value.contains('<'),
        !attributes.contains('>'),
        attributes.len() > 0 ==> ends_name(attributes[0]),
    ensures
        ({
            let close = "</u:"@ + tag + ">"@;
            let body = before + ("<u:"@ + tag + attributes + ">"@ + (value + (close + after)));
            content_after(body, "<"@ + tag, tag) is None && opening_of(before, "<u:"@ + tag) is None
                && !text::contains(close + after, "</"@ + tag + ">"@) ==> tag_content(body, tag)
                == Some(text::trim_of(value))
        }),
        ({
            let close = "</s:"@ + tag + ">"@;
            let body = before + ("<s:"@ + tag + attributes + ">"@ + (value + (close + after)));
            content_after(body, "<"@ + tag, tag) is None && content_after(
                body,
                "<u:"@ + tag,
                tag,
            ) is None && opening_of(before, "<s:"@ + tag) is None && !text::contains(
                close + after,
                "</"@ + tag + ">"@,
            ) && !text::contains(close + after, "</u:"@ + tag + ">"@) ==> tag_content(body, tag)
                == Some(text::trim_of(value))
        }),
{
    reveal_strlit("</");
    reveal_strlit("</u:");
    reveal_strlit("</s:");
    lemma_open_is_plain("<u:"@, tag);
    lemma_open_is_plain("<s:"@, tag);
    let plain = "</"@ + tag + ">"@;
    let closed_u = "</u:"@ + tag + ">"@;
    let closed_s = "</s:"@ + tag + ">"@;
    if opening_of(before, "<u:"@ + tag) is None && !text::contains(closed_u + after, plain) {
        lemma_content_is(before, "<u:"@ + tag, attributes, value + (closed_u + after), tag);
        lemma_no_close(value, closed_u + after, plain);
        lemma_close_is(value, closed_u, after);
    }
    if opening_of(before, "<s:"@ + tag) is None && !text::contains(closed_s + after, plain)
        && !text::contains(closed_s + after, closed_u) {
        lemma_content_is(before, "<s:"@ + tag, attributes, value + (closed_s + after), tag);
        lemma_no_close(value, closed_s + after, plain);
        lemma_no_close(value, closed_s + after, closed_u);
        lemma_close_is(value, closed_s, after);
    }
}

/// A `SOAPAction` header without a `#` names the action behind its last slash; one without either
/// is the name itself.
pub proof fn lemma_short_header_names_action(service: Seq<char>, action: Seq<char>)
    requires
        action.len() > 0,
        text::free_of(service, CharSet::One('#')),
        text::free_of(action, CharSet::One('#')),
        text::free_of(action, CharSet::One('/')),
        service.len() > 0 ==> !text::is_white(service[0]) && service[0] != '"' && service[0]
            != '\'',
        !text::is_white(action[0]) && action[0] != '"' && action[0] != '\'',
        !text::is_white(action.last()) && action.last() != '"' && action.last() != '\'',
    ensures
        action_of(service.push('/') + action) == action,
        action_of(action) == action,
{
    let h = service.push('/') + action;
    assert(h[0] == if service.len() > 0 {
        service[0]
    } else {
        '/'
    });
    assert(h.last() == action.last());
    text::lemma_strip_keeps(h, CharSet::White);
    text::lemma_strip_keeps(h, CharSet::One('"'));
    text::lemma_strip_keeps(h, CharSet::One('\''));
    text::lemma_strip_keeps(action, CharSet::White);
    text::lemma_strip_keeps(action, CharSet::One('"'));
    text::lemma_strip_keeps(action, CharSet::One('\''));
    text::lemma_after_last_is(service, '/', action);
    let hash = CharSet::One('#');
    assert(!h.contains('#')) by {
        if h.contains('#') {
            let i = choose|i: int| 0 <= i < h.len() && h[i] == '#';
            if i < service.len() {
                assert(!hash.has(service[i]));
            } else if i > service.len() {
                assert(!hash.has(action[i - service.len() - 1]));
            }
        }
    }
    assert(!action.contains('#') && !action.contains('/')) by {
        if action.contains('#') {
            let i = choose|i: int| 0 <= i < action.len() && action[i] == '#';
            assert(!hash.has(action[i]));
        }
        if action.contains('/') {
            let i = choose|i: int| 0 <= i < action.len() && action[i] == '/';
            assert(!CharSet::One('/').has(action[i]));
        }
    }
}

} // verus!
