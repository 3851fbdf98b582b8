use playpnp::state::{
    AVState, TransportState, extract_artist_from_didl, extract_duration_from_didl,
    extract_title_from_didl, format_time, is_didl_duration_too_long, is_time_too_long,
    new_shared_state, parse_time, unescape,
};
use playpnp::time::Duration;

#[test]
fn parses_fractional_upnp_time() {
    assert_eq!(
        parse_time("1:02:03.5"),
        Some(Duration::from_millis(3_723_500))
    );
    assert_eq!(parse_time("0:00:01.25"), Some(Duration::from_millis(1_250)));
    assert_eq!(parse_time("0:00:01"), Some(Duration::from_secs(1)));
}

#[test]
fn rejects_what_is_no_time() {
    for s in [
        "", "1:02", "1:2:3:4", "a:00:00", "0:00:", "0:00:x", "0:00:01.x", "-1:00:00", "0:00: 1",
    ] {
        assert_eq!(parse_time(s), None, "{}", s);
    }
    assert_eq!(parse_time("+1:+2:+3"), Some(Duration::from_secs(3723)));
    assert_eq!(parse_time("0:00:01."), Some(Duration::from_secs(1)));
    assert_eq!(parse_time("0:00:01.9999"), Some(Duration::from_millis(1_999)));
    assert_eq!(parse_time("0:90:00"), Some(Duration::from_secs(5400)));
    // A sign may stand where a digit of the fraction does.
    assert_eq!(parse_time("0:00:00.+5"), Some(Duration::from_millis(50)));
}

#[test]
fn too_long_times_are_told_apart() {
    assert!(is_time_too_long("18446744073709551615:00:00"));
    assert!(!is_time_too_long("0:00:18446744073709551615"));
    assert!(is_time_too_long("0:01:18446744073709551615"));
    assert!(!is_time_too_long("18446744073709551616:00:00"));
    assert!(is_didl_duration_too_long(
        "duration=\"18446744073709551615:00:00\""
    ));
    assert!(!is_didl_duration_too_long("duration=\"1:00:00\""));
}

#[test]
fn formats_times() {
    assert_eq!(format_time(Duration::from_secs(0)), "0:00:00");
    assert_eq!(format_time(Duration::from_millis(59_999)), "0:00:59");
    assert_eq!(format_time(Duration::from_secs(3723)), "1:02:03");
    assert_eq!(format_time(Duration::from_secs(360_000)), "100:00:00");
}

#[test]
fn a_time_reads_back() {
    for n in [0, 1, 59, 60, 3599, 3600, 86_399, 1_000_000, u64::MAX] {
        let d = Duration::from_secs(n);
        assert_eq!(parse_time(&format_time(d)), Some(d));
    }
}

#[test]
fn names_of_transport_states() {
    assert_eq!(TransportState::Stopped.as_str(), "STOPPED");
    assert_eq!(TransportState::Playing.as_str(), "PLAYING");
    assert_eq!(TransportState::PausedPlayback.as_str(), "PAUSED_PLAYBACK");
    assert_eq!(TransportState::Transitioning.as_str(), "TRANSITIONING");
    assert_eq!(TransportState::NoMediaPresent.as_str(), "NO_MEDIA_PRESENT");
}

#[test]
fn a_renderer_starts_without_media() {
    let now = Duration::from_secs(7);
    let av: AVState = new_shared_state(now);
    assert_eq!(av.transport_state, TransportState::Stopped);
    assert_eq!(av.current_uri, "");
    assert_eq!(av.volume, 50);
    assert!(!av.mute && av.seekable);
    assert_eq!(av.last_updated, now);
    assert!(av.duration.is_zero() && av.position.is_zero());
}

#[test]
fn unescapes_in_order() {
    assert_eq!(unescape("&lt;a b=&quot;c&apos;&quot;&gt;"), "<a b=\"c'\">");
    assert_eq!(unescape("&amp;lt;"), "&lt;");
    // `&amp;` is resolved before the quotes.
    assert_eq!(unescape("&amp;quot;"), "\"");
}

#[test]
fn reads_didl() {
    let didl = "&lt;DIDL-Lite&gt;&lt;item&gt;&lt;dc:title&gt; Film &amp;amp; More &lt;/dc:title&gt;\
                &lt;upnp:artist&gt;Ann&lt;/upnp:artist&gt;\
                &lt;res duration=&quot;1:02:03.5&quot;&gt;u&lt;/res&gt;&lt;/item&gt;";
    assert_eq!(extract_title_from_didl(didl), "Film &amp; More");
    assert_eq!(extract_artist_from_didl(didl), "Ann");
    assert_eq!(
        extract_duration_from_didl(didl),
        Some(Duration::from_millis(3_723_500))
    );
}

#[test]
fn didl_falls_back() {
    assert_eq!(
        extract_title_from_didl("<dc:title> </dc:title><title>T</title>"),
        "T"
    );
    assert_eq!(extract_title_from_didl("<title>T"), "");
    assert_eq!(extract_title_from_didl(""), "");
    assert_eq!(
        extract_artist_from_didl("<artist>C</artist><dc:creator>B</dc:creator>"),
        "B"
    );
    assert_eq!(extract_artist_from_didl("<artist>C</artist>"), "C");
    assert_eq!(extract_artist_from_didl("<dc:creator></dc:creator>"), "");
    assert_eq!(extract_duration_from_didl("duration=\"soon\""), None);
    assert_eq!(extract_duration_from_didl("duration=\"1:00:00"), None);
    assert_eq!(extract_duration_from_didl(""), None);
}
