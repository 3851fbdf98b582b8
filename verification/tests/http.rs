use playpnp::config::{Config, NetworkEndpoint, Peers, get_registered_peers};
use playpnp::http::control::{
    ControlStep, PlayerCommand, PlayerReport, Service, apply_poll, control, control_response,
    control_text, finish_transport, handle_avtransport, handle_connection_manager,
    handle_rendering, is_action_too_long, is_true, poll_interval, requested_action, service_of,
    transport_state_for_player,
};
use playpnp::http::dashboard::dashboard;
use playpnp::http::events::{
    EventMethod, SubscribeRequest, Subscriptions, Topic, event_method, handle_subscribe,
    handle_unsubscribe, initial_event, notify_avtransport, notify_rendering, parse_timeout,
    subscribe_as, timeout_in, unsupported_method,
};
use playpnp::http::{PeerParam, api_add_peer, base_url};
use playpnp::net::Ipv4Addr;
use playpnp::player::PlaybackState;
use playpnp::state::{AVState, TransportState, new_shared_state};
use playpnp::time::Duration;
use playpnp::xml::device_description;

fn secs(n: u64) -> Duration {
    Duration::from_secs(n)
}

fn fresh() -> AVState {
    new_shared_state(Duration::zero())
}

fn ok(step: ControlStep) -> String {
    match step {
        ControlStep::Answer(Ok(s)) => s,
        other => panic!("{:?}", other),
    }
}

fn err(step: ControlStep) -> (u32, String) {
    match step {
        ControlStep::Answer(Err(e)) => e,
        other => panic!("{:?}", other),
    }
}

const SET: &str = "<u:SetAVTransportURI><InstanceID>0</InstanceID><CurrentURI>http://h/d/film.mp4?x=1&amp;y</CurrentURI><CurrentURIMetaData>&lt;dc:title&gt;Film&lt;/dc:title&gt;&lt;upnp:artist&gt;Ann&lt;/upnp:artist&gt;&lt;res duration=&quot;0:01:40&quot;&gt;</CurrentURIMetaData></u:SetAVTransportURI>";

#[test]
fn media_is_set_and_told() {
    let mut av = fresh();
    av.duration = secs(999);
    av.position = secs(9);
    av.transport_state = TransportState::Playing;
    av.last_change_seq = u32::MAX;
    match handle_avtransport(&mut av, "SetAVTransportURI", SET, secs(3)) {
        ControlStep::SetUri(uri, title) => {
            assert_eq!(uri, "http://h/d/film.mp4?x=1&amp;y");
            assert_eq!(title, "Ann - Film");
        }
        other => panic!("{:?}", other),
    }
    assert_eq!(av.transport_state, TransportState::Stopped);
    assert_eq!((av.position, av.duration), (Duration::zero(), secs(100)));
    assert_eq!((av.title.as_str(), av.last_change_seq, av.last_updated), ("Ann - Film", 0, secs(3)));
    let info = ok(handle_avtransport(&mut av, "GetMediaInfo", "", secs(4)));
    assert!(info.starts_with("<NrTracks>1</NrTracks><MediaDuration>0:01:40</MediaDuration><CurrentURI>http://h/d/film.mp4?x=1&amp;amp;y</CurrentURI>"));
    assert!(info.ends_with("<WriteStatus>NOT_IMPLEMENTED</WriteStatus>"));
}

#[test]
fn titles_fall_back_to_the_uri() {
    let title = |uri: &str, didl: &str| {
        let body = format!("<CurrentURI>{}</CurrentURI><CurrentURIMetaData>{}</CurrentURIMetaData>", uri, didl);
        let mut av = fresh();
        match handle_avtransport(&mut av, "SetAVTransportURI", &body, secs(0)) {
            ControlStep::SetUri(_, title) => title,
            other => panic!("{:?}", other),
        }
    };
    assert_eq!(title("http://h/film.mp4?x", ""), "film.mp4");
    assert_eq!(title("film", ""), "");
    assert_eq!(title("http://h/f", "&lt;artist&gt;Ann&lt;/artist&gt;"), "Ann");
    assert_eq!(title("http://h/f", "&lt;title&gt;T&lt;/title&gt;"), "T");
}

#[test]
fn media_without_a_uri_is_refused() {
    let mut av = fresh();
    let body = "<CurrentURI> </CurrentURI><CurrentURIMetaData>duration=&quot;18446744073709551615:00:00&quot;</CurrentURIMetaData>";
    assert!(!is_action_too_long(&av, "SetAVTransportURI", body, secs(0)));
    assert_eq!(
        err(handle_avtransport(&mut av, "SetAVTransportURI", body, secs(0))),
        (402, "Invalid Args".to_string())
    );
    assert_eq!(av.last_change_seq, 0);
}

#[test]
fn transport_queries() {
    let mut av = fresh();
    assert_eq!(
        ok(handle_avtransport(&mut av, "GetTransportInfo", "", secs(0))),
        "<CurrentTransportState>STOPPED</CurrentTransportState><CurrentTransportStatus>OK</CurrentTransportStatus><CurrentSpeed>1</CurrentSpeed>"
    );
    assert_eq!(
        ok(handle_avtransport(&mut av, "GetDeviceCapabilities", "", secs(0))),
        "<PlayMedia>NETWORK</PlayMedia><RecMedia>NOT_IMPLEMENTED</RecMedia><RecQualityModes>NOT_IMPLEMENTED</RecQualityModes>"
    );
    assert_eq!(
        ok(handle_avtransport(&mut av, "GetTransportSettings", "", secs(0))),
        "<PlayMode>NORMAL</PlayMode><RecQualityMode>NOT_IMPLEMENTED</RecQualityMode>"
    );
    for a in ["SetNextAVTransportURI", "Next", "Previous", "SetPlayMode"] {
        assert_eq!(ok(handle_avtransport(&mut av, a, "", secs(0))), "");
    }
    for (s, actions) in [
        (TransportState::Playing, "Play,Stop,Pause,Seek"),
        (TransportState::PausedPlayback, "Play,Stop,Seek"),
        (TransportState::Stopped, "Play"),
        (TransportState::Transitioning, "Stop"),
        (TransportState::NoMediaPresent, ""),
    ] {
        av.transport_state = s;
        assert_eq!(
            ok(handle_avtransport(&mut av, "GetCurrentTransportActions", "", secs(0))),
            format!("<Actions>{}</Actions>", actions)
        );
    }
    assert_eq!(
        err(handle_avtransport(&mut av, "Fly", "", secs(0))),
        (401, "Invalid Action Fly".to_string())
    );
}

#[test]
fn the_position_is_told_with_care() {
    let mut av = fresh();
    av.transport_state = TransportState::Playing;
    av.position = Duration::from_millis(10_100);
    av.last_updated = secs(100);
    let at = |av: &mut AVState, now| {
        let s = ok(handle_avtransport(av, "GetPositionInfo", "", now));
        let a = s.find("<RelTime>").unwrap() + 9;
        let b = s.find("</RelTime>").unwrap();
        (s[a..b].to_string(), s)
    };
    assert_eq!(at(&mut av, secs(100)).0, "0:00:10");
    // However long nothing was heard, the position is at most 950 ms ahead.
    assert_eq!(at(&mut av, secs(200)).0, "0:00:11");
    av.position = Duration::from_millis(10_049);
    assert_eq!(at(&mut av, secs(200)).0, "0:00:10");
    av.duration = secs(10);
    let (rel, all) = at(&mut av, secs(200));
    assert_eq!(rel, "0:00:10");
    assert!(all.starts_with("<Track>0</Track><TrackDuration>0:00:10</TrackDuration><TrackMetaData></TrackMetaData><TrackURI></TrackURI>"));
    assert!(all.ends_with("<AbsTime>0:00:10</AbsTime><RelCount>2147483647</RelCount><AbsCount>2147483647</AbsCount>"));
    av.transport_state = TransportState::PausedPlayback;
    av.position = secs(3);
    av.duration = Duration::from_millis(500);
    let (rel, all) = at(&mut av, secs(200));
    assert_eq!(rel, "0:00:00");
    assert!(all.contains("<TrackDuration>0:00:00</TrackDuration>"));
    av.duration = Duration::zero();
    assert!(at(&mut av, secs(200)).1.contains("<TrackDuration>00:00:00</TrackDuration>"));
    av.transport_state = TransportState::Playing;
    av.position = Duration::from_parts(u64::MAX, 999_999_999).unwrap();
    assert!(is_action_too_long(&av, "GetPositionInfo", "", secs(200)));
    assert!(control(&mut av, "/AVTransport/control", Some("#GetPositionInfo"), b"", secs(200)).is_none());
}

#[test]
fn commands_for_the_player() {
    let mut av = fresh();
    assert_eq!(
        err(handle_avtransport(&mut av, "Play", "", secs(0))),
        (701, "Transition not available".to_string())
    );
    av.current_uri = "u".to_string();
    for (a, c) in [
        ("Play", PlayerCommand::Play),
        ("Stop", PlayerCommand::Stop),
        ("Pause", PlayerCommand::Pause),
    ] {
        assert!(
            matches!(handle_avtransport(&mut av, a, "", secs(0)), ControlStep::Transport(x) if x == c)
        );
    }
    let seek = |unit: &str, target: &str| {
        let body = format!("<Unit>{}</Unit><Target>{}</Target>", unit, target);
        handle_avtransport(&mut fresh(), "Seek", &body, secs(0))
    };
    assert!(matches!(
        seek("rel_time", "0:01:00.5"),
        ControlStep::Transport(PlayerCommand::Seek(d)) if d == Duration::from_millis(60_500)
    ));
    assert!(matches!(seek("ABS_TIME", "0:00:00"), ControlStep::Transport(_)));
    assert_eq!(err(seek("TRACK_NR", "0:01:00")), (402, "Invalid Args".to_string()));
    assert_eq!(err(seek("REL_TIME", "soon")), (402, "Invalid Args".to_string()));
    assert!(is_action_too_long(
        &av,
        "Seek",
        "<Unit>REL_TIME</Unit><Target>18446744073709551615:00:00</Target>",
        secs(0)
    ));
}

#[test]
fn reports_of_the_player() {
    let mut av = fresh();
    av.current_uri = "u".to_string();
    av.duration = secs(50);
    let done = |s, p, d| PlayerReport::Done(s, secs(p), secs(d));
    let r = finish_transport(&mut av, PlayerCommand::Play, done(PlaybackState::Transitioning, 1, 0), secs(9));
    assert_eq!(r, Ok("".to_string()));
    assert_eq!(av.transport_state, TransportState::Transitioning);
    assert_eq!((av.position, av.duration, av.last_updated), (secs(1), secs(50), secs(9)));
    assert_eq!(av.last_change_seq, 1);
    let r = finish_transport(&mut av, PlayerCommand::Seek(secs(7)), done(PlaybackState::Playing, 7, 60), secs(9));
    assert!(r.is_ok());
    assert_eq!(av.transport_state, TransportState::Transitioning);
    assert_eq!(av.duration, secs(60));
    av.current_uri.clear();
    let _ = finish_transport(&mut av, PlayerCommand::Stop, done(PlaybackState::Stopped, 0, 0), secs(9));
    assert_eq!(av.transport_state, TransportState::NoMediaPresent);
    for (c, w) in [
        (PlayerCommand::Stop, "stop"),
        (PlayerCommand::Play, "play"),
        (PlayerCommand::Pause, "pause"),
        (PlayerCommand::Seek(secs(1)), "seek"),
    ] {
        assert_eq!(
            finish_transport(&mut av, c, PlayerReport::Failed("why".to_string()), secs(10)),
            Err((501, format!("VLC {} failed: why", w)))
        );
    }
    assert_eq!(
        finish_transport(&mut av, PlayerCommand::Pause, PlayerReport::Unavailable, secs(10)),
        Err((501, "VLC player unavailable".to_string()))
    );
    assert_eq!(av.last_updated, secs(9));
}

#[test]
fn sound_is_set_and_read() {
    let mut av = fresh();
    let set = |av: &mut AVState, v: &str| {
        let body = format!("<DesiredVolume>{}</DesiredVolume>", v);
        match handle_rendering(av, "SetVolume", &body) {
            ControlStep::SetVolume(v) => v,
            other => panic!("{:?}", other),
        }
    };
    assert_eq!(set(&mut av, "33"), 33);
    assert_eq!(ok(handle_rendering(&mut av, "GetVolume", "")), "<CurrentVolume>33</CurrentVolume>");
    assert_eq!(set(&mut av, "101"), 100);
    assert_eq!(set(&mut av, "256"), 50);
    assert_eq!(set(&mut av, "loud"), 50);
    let mute = |av: &mut AVState, v: &str| {
        let body = format!("<DesiredMute>{}</DesiredMute>", v);
        match handle_rendering(av, "SetMute", &body) {
            ControlStep::SetMute(m) => m,
            other => panic!("{:?}", other),
        }
    };
    assert!(mute(&mut av, "1") && mute(&mut av, "TRUE"));
    assert_eq!(ok(handle_rendering(&mut av, "GetMute", "")), "<CurrentMute>1</CurrentMute>");
    assert!(!mute(&mut av, "0") && !mute(&mut av, "yes") && !mute(&mut av, ""));
    assert_eq!(ok(handle_rendering(&mut av, "GetMute", "")), "<CurrentMute>0</CurrentMute>");
    assert!(is_true("TRUE", "true") && !is_true("TRUE", "TRUE"));
    for a in ["ListPresets", "SelectPreset"] {
        assert_eq!(
            ok(handle_rendering(&mut av, a, "")),
            "<CurrentPresetNameList></CurrentPresetNameList>"
        );
    }
    assert_eq!(err(handle_rendering(&mut av, "", "")), (401, "Invalid Action ".to_string()));
}

#[test]
fn connections() {
    assert!(ok(handle_connection_manager("GetProtocolInfo")).starts_with("<Source></Source><Sink>http-get:*:video/mp4:*,"));
    assert_eq!(ok(handle_connection_manager("GetCurrentConnectionIDs")), "<ConnectionIDs>0</ConnectionIDs>");
    assert!(ok(handle_connection_manager("GetCurrentConnectionInfo")).contains("<PeerConnectionID>-1</PeerConnectionID>"));
    assert_eq!(err(handle_connection_manager("X")), (401, "Invalid Action X".to_string()));
}

#[test]
fn requests_are_routed_and_answered() {
    assert_eq!(service_of("/AVTransport/control"), Service::AvTransport);
    assert_eq!(service_of("/RenderingControl/control"), Service::RenderingControl);
    assert_eq!(service_of("/ConnectionManager/control"), Service::ConnectionManager);
    assert_eq!(service_of("/"), Service::Unknown);
    let play = "<s:Body><u:Play xmlns:u=\"x\"><u:Stop/></u:Play></s:Body>";
    assert_eq!(requested_action(Some("\"urn:x#GetVolume\""), play), "GetVolume");
    // Without a header that names an action, the body's first element does.
    for header in [None, Some(""), Some("\"\""), Some("urn:x#")] {
        assert_eq!(requested_action(header, play), "Play");
        assert_eq!(requested_action(header, "<u:Stop/>"), "Stop");
        assert_eq!(requested_action(header, "<u:Stop>"), "Stop");
        assert_eq!(requested_action(header, "<u:Stop"), "");
        assert_eq!(requested_action(header, "<Play>"), "");
    }
    let mut av = fresh();
    let step = control(&mut av, "/RenderingControl/control", Some("\"urn:x#GetVolume\""), b"", secs(0));
    assert_eq!(ok(step.unwrap()), "<CurrentVolume>50</CurrentVolume>");
    av.current_uri = "u".to_string();
    let step = control(&mut av, "/AVTransport/control", None, play.as_bytes(), secs(0));
    assert!(matches!(step, Some(ControlStep::Transport(PlayerCommand::Play))));
    let step = control(&mut av, "/AVTransport/control", None, b"", secs(0));
    assert_eq!(err(step.unwrap()), (401, "Invalid Action ".to_string()));
    let body = b"<DesiredVolume>\xff9</DesiredVolume>";
    let step = control(&mut av, "/RenderingControl/control", Some("#SetVolume"), body, secs(0));
    assert!(matches!(step, Some(ControlStep::SetVolume(50))));
    assert_eq!(
        err(control_text(&mut av, Service::Unknown, "Play", "", secs(0))),
        (500, "Unknown service".to_string())
    );
    let r = control_response(Service::RenderingControl, "GetVolume", &Ok("<A/>".to_string()));
    assert_eq!(r.status, 200);
    assert_eq!(r.headers[0], ("Content-Type", "text/xml; charset=\"utf-8\"".to_string()));
    assert_eq!(r.headers[1], ("EXT", "".to_string()));
    assert!(r.body.contains("<u:GetVolumeResponse xmlns:u=\"urn:schemas-upnp-org:service:RenderingControl:1\"><A/></u:GetVolumeResponse>"));
    let r = control_response(Service::Unknown, "X", &Err((401, "Invalid Action X".to_string())));
    assert_eq!((r.status, r.headers.len()), (500, 1));
    assert!(r.body.contains("<errorCode>401</errorCode>"));
}

#[test]
fn polling_changes_the_state() {
    assert_eq!(
        transport_state_for_player(PlaybackState::Playing, false),
        TransportState::NoMediaPresent
    );
    assert_eq!(poll_interval(PlaybackState::Playing), Duration::from_millis(500));
    assert_eq!(poll_interval(PlaybackState::Transitioning), Duration::from_millis(500));
    assert_eq!(poll_interval(PlaybackState::Paused), Duration::from_millis(1000));
    assert_eq!(poll_interval(PlaybackState::Stopped), Duration::from_millis(2500));
    let mut av = fresh();
    av.current_uri = "u".to_string();
    assert!(apply_poll(&mut av, PlaybackState::Playing, secs(3), secs(9), secs(1)));
    assert!(!apply_poll(&mut av, PlaybackState::Playing, secs(4), secs(0), secs(2)));
    assert_eq!((av.position, av.duration, av.last_change_seq), (secs(4), secs(9), 1));
    assert_eq!(av.transport_state, TransportState::Playing);
    // Pausing in VLC's own window is seen.
    assert!(apply_poll(&mut av, PlaybackState::Paused, secs(4), secs(9), secs(3)));
    assert_eq!(av.transport_state, TransportState::PausedPlayback);
}

fn request(callback: Option<&str>, sid: Option<&str>, timeout: Option<&str>) -> SubscribeRequest {
    SubscribeRequest {
        callback: callback.map(|s| s.to_string()),
        nt: None,
        timeout: timeout.map(|s| s.to_string()),
        sid: sid.map(|s| s.to_string()),
        path: "/AVTransport/event".to_string(),
    }
}

#[test]
fn timeouts() {
    assert_eq!(parse_timeout("Second-300"), 300);
    assert_eq!(parse_timeout("Second-infinite"), 1800);
    assert_eq!(parse_timeout("INFINITE-7"), 1800);
    assert_eq!(parse_timeout("300"), 1800);
    assert_eq!(parse_timeout("Second-"), 1800);
    assert_eq!(parse_timeout("a-b-3"), 1800);
    assert_eq!(parse_timeout("Second-18446744073709551616"), 1800);
    assert_eq!(timeout_in("X-5", "infinite"), 1800);
    assert_eq!(timeout_in("X-5", "x-5"), 5);
}

#[test]
fn subscribing_renewing_and_ending() {
    let av = fresh();
    let mut subs = Subscriptions::new();
    let (r, first) = handle_subscribe(&mut subs, &request(Some(" <http://1.2.3.4:5/n> "), None, Some("Second-60")), &av);
    assert_eq!(r.status, 200);
    let (sid, body) = first.unwrap();
    assert_eq!(r.headers[0], ("SID", sid.clone()));
    assert_eq!(r.headers[1], ("TIMEOUT", "Second-60".to_string()));
    assert_eq!((sid.len(), &sid[..5]), (41, "uuid:"));
    assert!(body.contains("<LastChange>&lt;Event"));
    let sub = subs.get(&sid).unwrap();
    assert_eq!(sub.callback, "http://1.2.3.4:5/n");
    assert_eq!((sub.nt.as_str(), sub.timeout_secs, sub.seq), ("upnp:event", 60, 0));

    let (r, first) = handle_subscribe(&mut subs, &request(None, Some(&sid), None), &av);
    assert_eq!((r.status, r.headers.len()), (200, 2));
    assert!(first.is_none());
    assert_eq!(subs.get(&sid).unwrap().timeout_secs, 1800);

    let (r, _) = handle_subscribe(&mut subs, &request(Some("<http://x>"), Some("uuid:none"), None), &av);
    assert_eq!((r.status, r.body.as_str()), (412, "Invalid SID"));
    let (r, _) = handle_subscribe(&mut subs, &request(None, None, None), &av);
    assert_eq!((r.status, r.body.as_str()), (400, "Missing CALLBACK"));

    assert_eq!(handle_unsubscribe(&mut subs, None).status, 400);
    assert_eq!(handle_unsubscribe(&mut subs, Some("")).body, "Missing SID");
    assert_eq!(handle_unsubscribe(&mut subs, Some("uuid:none")).status, 412);
    assert_eq!(handle_unsubscribe(&mut subs, Some(&sid)).status, 200);
    assert!(subs.get(&sid).is_none());
    assert_eq!(handle_unsubscribe(&mut subs, Some(&sid)).status, 412);
    assert_eq!(unsupported_method().body, "Unsupported method");
    assert_eq!(event_method("SUBSCRIBE"), EventMethod::Subscribe);
    assert_eq!(event_method("UNSUBSCRIBE"), EventMethod::Unsubscribe);
    assert_eq!(event_method("GET"), EventMethod::Unsupported);
}

#[test]
fn events_are_numbered() {
    let av = fresh();
    let mut subs = Subscriptions::new();
    let (_, first) = subscribe_as(&mut subs, &request(Some("<http://1.2.3.4:5/n>,<http://x>"), None, None), &av, 5);
    let (sid, body) = first.unwrap();
    assert_eq!(sid, "uuid:00000000-0000-0000-0000-000000000005");
    let n = subs.notify(&sid, &body).unwrap();
    assert_eq!(n.url, "http://1.2.3.4:5/n");
    assert_eq!(n.headers[0], ("HOST", "1.2.3.4:5".to_string()));
    assert_eq!(n.headers[5], ("SEQ", "0".to_string()));
    assert_eq!(n.body, body);
    assert!(subs.notify("uuid:none", "").is_none());

    let sent = notify_avtransport(&mut subs, &av);
    assert_eq!(sent.len(), 1);
    assert_eq!(sent[0].headers[3], ("SEQ", "1".to_string()));
    assert_eq!(sent[0].headers[4].0, "CONTENT-TYPE");
    assert_eq!(sent[0].body, initial_event("/AVTransport/event", &av));
    let sent = notify_rendering(&mut subs, &av);
    assert_eq!(sent[0].headers[3], ("SEQ", "2".to_string()));
    // Changes of the sound go to the URL as it stands.
    assert_eq!(sent[0].url, "http://1.2.3.4:5/n>");
    assert_eq!(subs.get(&sid).unwrap().seq, 3);
}

#[test]
fn transport_events_skip_what_has_no_callback() {
    let av = fresh();
    let mut subs = Subscriptions::new();
    subscribe_as(&mut subs, &request(Some("<>"), None, None), &av, 1);
    subscribe_as(&mut subs, &request(Some("http://a"), None, None), &av, 2);
    subscribe_as(&mut subs, &request(Some("http://b"), None, None), &av, 2);
    assert!(subs.can_count(Topic::Transport) && subs.can_count(Topic::Sound));
    let sent = notify_avtransport(&mut subs, &av);
    assert_eq!(sent.iter().map(|n| n.url.as_str()).collect::<Vec<_>>(), ["http://b"]);
    assert_eq!(notify_rendering(&mut subs, &av).len(), 2);
}

#[test]
fn first_events_by_service() {
    let av = fresh();
    assert!(initial_event("/RenderingControl/event", &av).contains("RCS/"));
    assert!(initial_event("/ConnectionManager/event", &av).contains("<SinkProtocolInfo>http-get:*:*:*</SinkProtocolInfo>"));
}

#[test]
fn the_base_of_urls() {
    let ip = Ipv4Addr::new(10, 0, 0, 1);
    assert_eq!(base_url("phone:80", ip, 5), "http://phone:80/");
    assert_eq!(base_url("", ip, 5), "http://10.0.0.1:5/");
    let config = Config::load(7, "box");
    for host in ["phone:80", ""] {
        let base = base_url(host, ip, 5);
        let description = device_description(&config, &base);
        assert!(description.contains(&format!("<URLBase>{}</URLBase>", base)));
        assert!(description.contains(&format!("<presentationURL>{}</presentationURL>", base)));
    }
}

#[test]
fn peers_are_added_by_query() {
    let mut peers = Peers::new();
    for s in [Some(" 10.0.0.1 "), Some("x"), Some("127.0.0.1"), None] {
        api_add_peer(&mut peers, &PeerParam { ip: s.map(|s| s.to_string()) });
    }
    assert_eq!(get_registered_peers(&peers), [Ipv4Addr::new(10, 0, 0, 1)]);
}

#[test]
fn the_dashboard() {
    let mut av = fresh();
    let endpoint = |name: &str, d, ts, primary| NetworkEndpoint {
        name: name.to_string(),
        ip: Ipv4Addr::new(10, 0, 0, d),
        netmask: None,
        broadcast: None,
        gateway: None,
        is_tailscale: ts,
        is_primary: primary,
    };
    let endpoints = [endpoint("a", 1, false, true), endpoint("b", 2, true, true), endpoint("c", 3, false, false)];
    let page = dashboard("Box", &av, &endpoints, &[], 80, "h");
    assert!(page.starts_with("<!DOCTYPE html>\n<html>"));
    assert!(page.contains("<title>Box - DLNA Renderer</title>"));
    assert!(page.contains("<strong>Track:</strong> No media playing"));
    assert!(page.contains("<span class=\"status-badge\">STOPPED</span> <span style=\"margin-left:10px;\">0:00:00/0:00:00</span>"));
    assert!(page.contains("<ul><li><strong>a</strong>: <code>http://10.0.0.1:80/description.xml</code> <span style=\"color:#2979ff;\">[Primary/Hotspot]</span></li><li><strong>b</strong>: <code>http://10.0.0.2:80/description.xml</code> <span style=\"color:#00c853;\">[Tailscale]</span></li><li><strong>c</strong>: <code>http://10.0.0.3:80/description.xml</code> </li></ul>"));
    assert!(page.contains("<ul><li><em>No Tailscale peers detected yet.</em></li></ul>"));
    assert!(page.contains("Current request host: <code>h</code>"));
    assert!(page.contains("body { font-family: -apple-system,"));
    av.title = "Film".to_string();
    let page = dashboard("Box", &av, &[], &[Ipv4Addr::new(1, 2, 3, 4)], 80, "h");
    assert!(page.contains("<strong>Track:</strong> Film"));
    assert!(page.contains("<ul><li><code>1.2.3.4</code> (notified via unicast)</li></ul>"));
    assert!(page.contains("<strong>Volume:</strong> 50%"));
    assert!(page.ends_with("</body>\n</html>"));
}
