use playpnp::config::Config;
use playpnp::state::{TransportState, new_shared_state, unescape};
use playpnp::time::Duration;
use playpnp::xml::{
    avtransport_last_change, device_description, escape_xml, extract_tag, format_bool,
    format_length, parse_soap_action, rendering_last_change, soap_envelope, soap_fault,
    soap_response, xml_escape,
};

#[test]
fn test_parse_soap_action() {
    assert_eq!(
        parse_soap_action("\"urn:schemas-upnp-org:service:AVTransport:1#Play\""),
        Some("Play".into())
    );
    assert_eq!(
        parse_soap_action("urn:schemas-upnp-org:service:AVTransport:1#SetAVTransportURI"),
        Some("SetAVTransportURI".into())
    );
}

#[test]
fn soap_action_without_a_hash() {
    assert_eq!(parse_soap_action(" 'a/b/Stop' "), Some("Stop".into()));
    assert_eq!(parse_soap_action("Stop"), Some("Stop".into()));
    assert_eq!(parse_soap_action("a#b#c/d"), Some("c/d".into()));
    assert_eq!(parse_soap_action(""), Some("".into()));
}

#[test]
fn test_extract_tag() {
    let body = r#"<s:Envelope><s:Body><u:SetAVTransportURI xmlns:u="urn:schemas-upnp-org:service:AVTransport:1"><InstanceID>0</InstanceID><CurrentURI>http://example.com/video.mp4</CurrentURI></u:SetAVTransportURI></s:Body></s:Envelope>"#;
    assert_eq!(extract_tag(body, "InstanceID"), Some("0".into()));
    assert_eq!(
        extract_tag(body, "CurrentURI"),
        Some("http://example.com/video.mp4".into())
    );
}

#[test]
fn tags_with_prefixes_and_attributes() {
    assert_eq!(extract_tag("<u:A x=\"1\"> v </u:A>", "A"), Some("v".into()));
    assert_eq!(extract_tag("<s:A>v</A>", "A"), Some("v".into()));
    assert_eq!(extract_tag("<A>v</s:A>", "A"), Some("v".into()));
    assert_eq!(extract_tag("<A>v", "A"), None);
    assert_eq!(extract_tag("v</A>", "A"), None);
    // An element of a longer name is another one.
    assert_eq!(extract_tag("<AB>1</AB><A>2</A>", "A"), Some("2".into()));
    assert_eq!(extract_tag("<AB>1</AB>", "A"), None);
    assert_eq!(
        extract_tag(
            "<CurrentURIMetaData>m</CurrentURIMetaData><CurrentURI>u</CurrentURI>",
            "CurrentURI"
        ),
        Some("u".into())
    );
    assert_eq!(extract_tag("<uA>1</uA><u:AB/><u:A\n>2</u:A>", "A"), Some("2".into()));
}

#[test]
fn escaping_and_its_undoing() {
    let s = "a&b<c>d\"e'f";
    assert_eq!(escape_xml(s), "a&amp;b&lt;c&gt;d&quot;e&apos;f");
    assert_eq!(xml_escape(s), "a&amp;b&lt;c&gt;d&quot;e'f");
    assert_eq!(unescape(&escape_xml(s)), s);
    assert_eq!(unescape(&xml_escape(s)), s);
    assert_eq!(unescape(&escape_xml("&lt;&amp;")), "&lt;&amp;");
    // The text of a quote's entity does not survive.
    assert_eq!(unescape(&escape_xml("&quot;")), "\"");
}

#[test]
fn a_fault_tells_one_code_and_one_description() {
    let plain = soap_fault(0, "").matches('<').count();
    for (code, description, escaped) in [
        (402, "Invalid Args", "Invalid Args"),
        (
            4294967295,
            "</errorDescription><errorCode>9</errorCode>",
            "&lt;/errorDescription&gt;&lt;errorCode&gt;9&lt;/errorCode&gt;",
        ),
        (7, " & ", " &amp; "),
    ] {
        let fault = soap_fault(code, description);
        assert_eq!(fault.matches('<').count(), plain);
        for tag in ["errorCode", "errorDescription"] {
            assert_eq!(fault.matches(&format!("<{}", tag)).count(), 1);
            assert_eq!(fault.matches(&format!("</{}", tag)).count(), 1);
        }
        assert!(fault.contains(&format!("<errorCode>{}</errorCode>", code)));
        assert!(fault.contains(&format!("<errorDescription>{}</errorDescription>", escaped)));
    }
}

#[test]
fn soap_messages() {
    assert_eq!(
        soap_envelope("x"),
        "<?xml version=\"1.0\"?><s:Envelope xmlns:s=\"http://schemas.xmlsoap.org/soap/envelope/\" s:encodingStyle=\"http://schemas.xmlsoap.org/soap/encoding/\"><s:Body>x</s:Body></s:Envelope>"
    );
    let fault = soap_fault(402, "a<b");
    assert!(fault.contains("<errorCode>402</errorCode>"));
    assert!(fault.contains("<errorDescription>a&lt;b</errorDescription>"));
    assert!(
        soap_response("Play", "urn:x", "<A>1</A>")
            .contains("<s:Body><u:PlayResponse xmlns:u=\"urn:x\"><A>1</A></u:PlayResponse></s:Body>")
    );
}

#[test]
fn description_names_the_device() {
    let config = Config::load(0x0123456789abcdef0123456789abcdef, "A&B");
    let d = device_description(&config, "http://10.0.0.1:80");
    assert!(d.contains("<URLBase>http://10.0.0.1:80/</URLBase>"));
    assert!(d.contains("<presentationURL>http://10.0.0.1:80/</presentationURL>"));
    assert!(d.contains("<friendlyName>playpnp (A&amp;B)</friendlyName>"));
    assert!(d.contains("<UDN>uuid:01234567-89ab-cdef-0123-456789abcdef</UDN>"));
    assert!(d.starts_with("<?xml version=\"1.0\"?>\n<root xmlns"));
    assert!(d.ends_with("  </device>\n</root>"));
    assert_eq!(d, device_description(&config, "http://10.0.0.1:80/"));
}

#[test]
fn last_change_events() {
    let mut av = new_shared_state(Duration::zero());
    av.current_uri = "http://a/?x=1&y='2'".to_string();
    av.transport_state = TransportState::Playing;
    av.position = Duration::from_secs(61);
    let event = unescape(&avtransport_last_change(&av));
    assert!(event.starts_with("<Event xmlns=\"urn:schemas-upnp-org:metadata-1-0/AVT/\">"));
    assert!(event.contains("<TransportState val=\"PLAYING\"/>"));
    assert!(event.contains("<CurrentTrackDuration val=\"00:00:00\"/>"));
    assert!(event.contains("<RelativeTimePosition val=\"0:01:01\"/>"));
    assert!(!avtransport_last_change(&av).contains('<'));
    av.duration = Duration::from_secs(3600);
    assert!(unescape(&avtransport_last_change(&av)).contains("<CurrentTrackDuration val=\"1:00:00\"/>"));
    av.mute = true;
    av.volume = 7;
    assert_eq!(
        unescape(&rendering_last_change(&av)),
        "<Event xmlns=\"urn:schemas-upnp-org:metadata-1-0/RCS/\"><InstanceID val=\"0\"><Volume channel=\"Master\" val=\"7\"/><Mute channel=\"Master\" val=\"1\"/></InstanceID></Event>"
    );
    assert_eq!(format_bool(false), "0");
    assert_eq!(format_length(Duration::from_millis(999)), "00:00:00");
    assert_eq!(format_length(Duration::from_millis(1000)), "0:00:01");
}
