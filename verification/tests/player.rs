use playpnp::player::external::{
    Phase, VlcPlayer, choose_state, find_best_audio_track, find_best_subtitle_track, parse_rc_bool,
    parse_rc_seconds, parse_vlc_state, rate_description, take_reply_line,
};
use playpnp::player::mock::MockPlayer;
use playpnp::player::{
    Action, Event, MediaPlayer, PlaybackState, create_player, find_vlc, find_vlc_on, which,
};
use playpnp::time::Duration;

fn lines(values: &[&str]) -> Vec<String> {
    values.iter().map(|value| (*value).to_string()).collect()
}

fn secs(n: u64) -> Duration {
    Duration::from_secs(n)
}

#[test]
fn parses_vlc_numeric_states() {
    assert_eq!(
        parse_vlc_state(&lines(&["status change: ( state: 3 )"])),
        Some(PlaybackState::Playing)
    );
    assert_eq!(
        parse_vlc_state(&lines(&["status change: ( state: 4 )"])),
        Some(PlaybackState::Paused)
    );
    assert_eq!(
        parse_vlc_state(&lines(&["status change: ( stop state: 5 )"])),
        Some(PlaybackState::Stopped)
    );
    assert_eq!(
        parse_vlc_state(&lines(&["status change: ( state: 2 )"])),
        Some(PlaybackState::Transitioning)
    );
}

#[test]
fn parses_vlc_text_states() {
    assert_eq!(
        parse_vlc_state(&lines(&["buffering network input"])),
        Some(PlaybackState::Transitioning)
    );
    assert_eq!(
        parse_vlc_state(&lines(&["playing"])),
        Some(PlaybackState::Playing)
    );
    assert_eq!(parse_vlc_state(&lines(&["unknown response"])), None);
}

#[test]
fn the_last_numeric_state_counts() {
    assert_eq!(
        parse_vlc_state(&lines(&["( state: 3 )", "( STATE: 4 )", "playing"])),
        Some(PlaybackState::Paused)
    );
    // A number that no state has hides the words.
    assert_eq!(parse_vlc_state(&lines(&["playing", "state: 9"])), None);
    // No number, or one that is too large, does not.
    assert_eq!(
        parse_vlc_state(&lines(&["state: 3", "state: 999", "state: x"])),
        Some(PlaybackState::Playing)
    );
    assert_eq!(
        parse_vlc_state(&lines(&["Ended"])),
        Some(PlaybackState::Stopped)
    );
    assert_eq!(
        parse_vlc_state(&lines(&["is paused"])),
        Some(PlaybackState::Paused)
    );
    assert_eq!(parse_vlc_state(&[]), None);
}

#[test]
fn test_position_capped_during_stall() {
    let now = secs(1000);
    let mut player = VlcPlayer::new(now);
    player.state = PlaybackState::Playing;
    player.position = Duration::from_secs(10);
    player.duration = Duration::from_secs(100);
    // Simulate a 5-second Wi-Fi stall/rebuffering
    player.last_pos_time = now.since(&Duration::from_secs(5));

    let (pos, _) = player.get_position(now);
    // Extrapolation must be capped under 1s (10s + 950ms) rather than drifting to 15s
    assert!(!Duration::from_millis(10950).less_than(&pos));
    assert!(!pos.less_than(&Duration::from_secs(10)));
    assert_eq!(pos, Duration::from_millis(10950));
}

#[test]
fn test_find_best_subtitle_track() {
    // Case 1: Both SDH English and regular English -> choose SDH English
    let sample_both = lines(&[
        "+----[ Subtitles track ]",
        "| -1 - Disable",
        "| 1 - English [eng]",
        "| 2 - English (SDH) [eng]",
        "| 3 - Spanish [spa]",
        "+----[ end of stream info ]",
    ]);
    assert_eq!(find_best_subtitle_track(&sample_both), Some(2));

    // Case 2: Only regular English -> choose English
    let sample_eng_only = lines(&[
        "+----[ Subtitles track ]",
        "| -1 - Disable",
        "| 1* - English [eng]",
        "| 2 - French [fre]",
        "+----[ end of stream info ]",
    ]);
    assert_eq!(find_best_subtitle_track(&sample_eng_only), Some(1));

    // Case 3: No English at all -> choose None (do not set)
    let sample_no_eng = lines(&[
        "+----[ Subtitles track ]",
        "| -1 - Disable",
        "| 1 - Spanish [spa]",
        "| 2 - Japanese [jpn]",
        "+----[ end of stream info ]",
    ]);
    assert_eq!(find_best_subtitle_track(&sample_no_eng), None);
}

#[test]
fn test_find_best_audio_track() {
    // Case 1: Multiple audio tracks with English
    let sample = lines(&[
        "+----[ Audio track ]",
        "| -1 - Disable",
        "| 1 - Hindi [hin]",
        "| 2* - English [eng]",
        "| 3 - Spanish [spa]",
        "+----[ end of stream info ]",
    ]);
    assert_eq!(find_best_audio_track(&sample), Some(2));

    // Case 2: No English audio track -> returns None
    let sample_no_eng = lines(&[
        "+----[ Audio track ]",
        "| -1 - Disable",
        "| 1 - Japanese [jpn]",
        "+----[ end of stream info ]",
    ]);
    assert_eq!(find_best_audio_track(&sample_no_eng), None);
}

#[test]
fn tracks_are_matched_in_any_case() {
    assert_eq!(find_best_audio_track(&lines(&["-1 - english", "|  * 7* - ENGLISH É"])), Some(7));
    assert_eq!(find_best_audio_track(&lines(&["| x - english", "| 3-english"])), None);
    assert_eq!(rate_description("english sdh"), (true, true));
    assert_eq!(rate_description("engine"), (false, false));
    for desc in ["eng", "[eng]", "track 1 eng", "eng (sdh)", "eng2", "bengali [eng]", "（eng）"] {
        assert!(rate_description(desc).0, "{}", desc);
    }
    for desc in ["bengali [ben]", "beng", "engl", "\u{e9}eng", "eng\u{1ebf}", "en", ""] {
        assert!(!rate_description(desc).0, "{}", desc);
    }
    assert_eq!(rate_description("sdh"), (false, true));
}

#[test]
fn other_languages_are_left_alone() {
    let bengali = lines(&["| -1 - Disable", "| 1 - Bengali [ben]"]);
    assert_eq!(find_best_subtitle_track(&bengali), None);
    assert_eq!(find_best_audio_track(&bengali), None);
    let both = lines(&["| 1 - Bengali [ben] SDH", "| 2 - Track 2 - [ENG]", "| 3 - Bengali"]);
    assert_eq!(find_best_subtitle_track(&both), Some(2));
    assert_eq!(find_best_audio_track(&both), Some(2));
}

#[test]
fn replies_with_numbers() {
    assert_eq!(parse_rc_seconds(&lines(&["x", " 12 ", "13"])), Some(secs(12)));
    assert_eq!(parse_rc_seconds(&lines(&["x"])), None);
    assert_eq!(parse_rc_bool(&lines(&["1", " 0 ", "2"])), Some(false));
    assert_eq!(parse_rc_bool(&lines(&["true"])), None);
}

#[test]
fn replies_end_where_vlc_ends_them() {
    let mut reply = Vec::new();
    assert!(!take_reply_line("status", "\r\n", &mut reply));
    assert!(!take_reply_line("status", " 12\r\n", &mut reply));
    assert!(take_reply_line("status", "status: returned 0 (no error)\n", &mut reply));
    assert!(take_reply_line("strack", "+----[ end of stream info ]\n", &mut reply));
    assert!(!take_reply_line("get_time", "\n", &mut reply));
    assert!(!take_reply_line("get_time", "1:2\n", &mut reply));
    assert!(take_reply_line("get_time", "34\n", &mut reply));
    assert_eq!(
        reply,
        ["12", "status: returned 0 (no error)", "+----[ end of stream info ]", "1:2", "34"]
    );
}

#[test]
fn the_state_to_go_on_with() {
    let (stopped, playing, paused, transitioning) = (
        PlaybackState::Stopped,
        PlaybackState::Playing,
        PlaybackState::Paused,
        PlaybackState::Transitioning,
    );
    let all = [stopped, playing, paused, transitioning];
    for state in all {
        for active in [None, Some(true), Some(false)] {
            assert_eq!(
                choose_state(state, Some(transitioning), active, false, false),
                Some(transitioning)
            );
            assert_eq!(
                choose_state(state, Some(transitioning), active, true, false),
                Some(stopped)
            );
        }
        let kept = if state == paused { paused } else { playing };
        assert_eq!(choose_state(state, Some(stopped), Some(true), false, false), Some(kept));
        assert_eq!(choose_state(state, None, Some(true), false, false), Some(kept));
        assert_eq!(choose_state(state, Some(paused), Some(true), false, false), Some(paused));
        assert_eq!(choose_state(state, Some(playing), None, false, false), Some(playing));
        assert_eq!(choose_state(state, None, None, false, false), None);
    }
    for reported in [Some(stopped), Some(playing), Some(paused)] {
        assert_eq!(
            choose_state(transitioning, reported, Some(false), false, true),
            Some(transitioning)
        );
        assert_eq!(
            choose_state(transitioning, reported, Some(false), false, false),
            Some(stopped)
        );
    }
    assert_eq!(choose_state(transitioning, None, Some(false), false, false), Some(transitioning));
    assert_eq!(choose_state(transitioning, None, Some(false), true, false), Some(stopped));
    assert_eq!(choose_state(playing, None, Some(false), false, false), Some(stopped));
}

/// Stands in for VLC: logs what it is told and replies from a script.
struct Vlc {
    log: Vec<String>,
    replies: Vec<(&'static str, Vec<String>)>,
    launches: bool,
    connects: bool,
    exited: bool,
    broken: Option<&'static str>,
}

impl Vlc {
    fn new() -> Vlc {
        Vlc {
            log: Vec::new(),
            replies: Vec::new(),
            launches: true,
            connects: true,
            exited: false,
            broken: None,
        }
    }

    fn drive(&mut self, player: &mut VlcPlayer, first: Action, now: Duration) -> Result<(), String> {
        let mut action = first;
        loop {
            let event = match action {
                Action::Done => return Ok(()),
                Action::Failed(e) => return Err(e),
                Action::Open(_) => panic!("VLC opens no windows of its own"),
                Action::Check => {
                    self.log.push("check".to_string());
                    Event::Exited(self.exited)
                }
                Action::Connect => {
                    self.log.push("connect".to_string());
                    Event::Connected(self.connects)
                }
                Action::Kill => {
                    self.log.push("kill".to_string());
                    Event::Killed
                }
                Action::Launch(args) => {
                    self.log.push(format!("launch {}", args[3]));
                    self.exited = false;
                    Event::Launched(self.launches)
                }
                Action::Tell(c) => {
                    let ok = self.broken != Some(c.as_str());
                    self.log.push(c);
                    Event::Sent(ok)
                }
                Action::Ask(c) => {
                    let alive = self.broken != Some(c.as_str());
                    let reply = self
                        .replies
                        .iter()
                        .find(|(k, _)| *k == c)
                        .map(|(_, v)| v.clone())
                        .unwrap_or_default();
                    self.log.push(c);
                    Event::Reply(reply, alive)
                }
            };
            action = player.resume(event, now);
        }
    }

    fn script(&mut self, replies: &[(&'static str, &[&str])]) {
        self.replies = replies.iter().map(|(k, v)| (*k, lines(v))).collect();
        self.log.clear();
    }
}

fn playing(now: Duration) -> (VlcPlayer, Vlc) {
    let mut player = VlcPlayer::on_platform(false, now);
    let mut vlc = Vlc::new();
    let a = player.set_uri("http://a/v.mp4".to_string(), "v".to_string(), now);
    vlc.drive(&mut player, a, now).unwrap();
    let a = player.play(now);
    vlc.drive(&mut player, a, now).unwrap();
    (player, vlc)
}

#[test]
fn play_launches_vlc_and_adds_the_media() {
    let (player, vlc) = playing(secs(100));
    assert_eq!(
        vlc.log,
        ["launch 127.0.0.1:52422", "connect", "volume 256", "clear", "add http://a/v.mp4"]
    );
    assert_eq!(player.get_state(), PlaybackState::Transitioning);
    assert_eq!(player.current_uri(), "http://a/v.mp4");
    assert_eq!(player.phase, Phase::Idle);
}

#[test]
fn play_is_idempotent_and_reuses_vlc() {
    let now = secs(100);
    let (mut player, mut vlc) = playing(now);
    vlc.log.clear();
    let a = player.play(now);
    vlc.drive(&mut player, a, now).unwrap();
    assert_eq!(vlc.log, ["check"]);
    // Other media clears the playlist and is loaded into the same process.
    vlc.log.clear();
    let a = player.set_uri("http://b".to_string(), "b".to_string(), now);
    vlc.drive(&mut player, a, now).unwrap();
    let a = player.play(now);
    vlc.drive(&mut player, a, now).unwrap();
    assert_eq!(vlc.log, ["stop", "clear", "check", "clear", "add http://b"]);
}

#[test]
fn requests_without_media_fail() {
    let now = secs(1);
    let mut player = VlcPlayer::on_platform(false, now);
    let mut vlc = Vlc::new();
    let a = player.play(now);
    assert_eq!(vlc.drive(&mut player, a, now), Err("No URI set".to_string()));
    let a = player.seek(secs(5), now);
    assert_eq!(vlc.drive(&mut player, a, now), Err("No URI set".to_string()));
    let a = player.pause(now);
    assert_eq!(vlc.drive(&mut player, a, now), Ok(()));
    assert!(vlc.log.is_empty());
}

#[test]
fn vlc_that_cannot_be_had() {
    let now = secs(1);
    let mut player = VlcPlayer::on_platform(false, now);
    let mut vlc = Vlc::new();
    let a = player.set_uri("u".to_string(), "t".to_string(), now);
    vlc.drive(&mut player, a, now).unwrap();
    vlc.launches = false;
    let a = player.play(now);
    assert_eq!(vlc.drive(&mut player, a, now), Err("VLC is not available".to_string()));
    vlc.launches = true;
    vlc.connects = false;
    vlc.log.clear();
    let a = player.play(now);
    assert_eq!(vlc.drive(&mut player, a, now), Err("VLC is not available".to_string()));
    assert_eq!(vlc.log, ["launch 127.0.0.1:52422", "connect", "kill"]);
    assert!(!player.running && !player.connected);
}

#[test]
fn a_lost_connection_ends_the_process() {
    let now = secs(1);
    let (mut player, mut vlc) = playing(now);
    vlc.broken = Some("pause");
    vlc.log.clear();
    let a = player.pause(now);
    assert_eq!(
        vlc.drive(&mut player, a, now),
        Err("VLC remote-control connection was lost".to_string())
    );
    assert_eq!(vlc.log, ["pause", "kill"]);
    assert_eq!(player.get_state(), PlaybackState::Stopped);
    assert!(!player.running);
}

#[test]
fn vlc_that_was_closed_is_launched_again() {
    let now = secs(1);
    let (mut player, mut vlc) = playing(now);
    vlc.exited = true;
    vlc.log.clear();
    let a = player.play(now);
    vlc.drive(&mut player, a, now).unwrap();
    assert_eq!(vlc.log[0], "check");
    assert_eq!(vlc.log[1], "launch 127.0.0.1:52422");
    // Where only the connection is gone, the process is kept.
    player.connected = false;
    vlc.log.clear();
    let a = player.play(now);
    vlc.drive(&mut player, a, now).unwrap();
    assert_eq!(vlc.log, ["check", "connect"]);
    player.connected = false;
    vlc.connects = false;
    vlc.log.clear();
    let a = player.play(now);
    assert!(vlc.drive(&mut player, a, now).is_err());
    assert_eq!(
        vlc.log,
        ["check", "connect", "kill", "launch 127.0.0.1:52422", "connect", "kill"]
    );
}

#[test]
fn pausing_and_resuming_toggles() {
    let now = secs(1);
    let (mut player, mut vlc) = playing(now);
    vlc.log.clear();
    let a = player.pause(now);
    vlc.drive(&mut player, a, now).unwrap();
    assert_eq!(player.get_state(), PlaybackState::Paused);
    let a = player.play(now);
    vlc.drive(&mut player, a, now).unwrap();
    assert_eq!(player.get_state(), PlaybackState::Playing);
    assert_eq!(vlc.log, ["pause", "check", "pause"]);
}

#[test]
fn volume_is_scaled_and_capped() {
    let now = secs(1);
    let (mut player, mut vlc) = playing(now);
    vlc.log.clear();
    for v in [0, 50, 99, 100, 255] {
        let a = player.set_volume(v);
        vlc.drive(&mut player, a, now).unwrap();
    }
    assert_eq!(player.volume, 100);
    let a = player.set_mute(true);
    vlc.drive(&mut player, a, now).unwrap();
    let a = player.set_mute(false);
    vlc.drive(&mut player, a, now).unwrap();
    assert_eq!(
        vlc.log,
        ["volume 0", "volume 128", "volume 253", "volume 256", "volume 256", "volume 0", "volume 256"]
    );
    assert!(!player.mute);
}

#[test]
fn seeks_stay_within_the_media() {
    let now = secs(1);
    let (mut player, mut vlc) = playing(now);
    player.duration = secs(100);
    vlc.log.clear();
    let a = player.seek(secs(500), now);
    vlc.drive(&mut player, a, now).unwrap();
    assert_eq!(vlc.log, ["seek 100"]);
    assert_eq!(player.position, secs(100));
    assert_eq!(player.pending_seek, Some((secs(100), now)));
    // Before VLC runs, a seek waits for it.
    let mut later = VlcPlayer::on_platform(false, now);
    let mut vlc = Vlc::new();
    for a in [later.set_uri("u".to_string(), "t".to_string(), now)] {
        vlc.drive(&mut later, a, now).unwrap();
    }
    let a = later.seek(secs(7), now);
    vlc.drive(&mut later, a, now).unwrap();
    let a = later.play(now);
    vlc.drive(&mut later, a, now).unwrap();
    assert_eq!(vlc.log.last().unwrap(), "seek 7");
}

#[test]
fn polling_takes_over_what_vlc_tells() {
    let (mut player, mut vlc) = playing(secs(100));
    vlc.script(&[
        ("status", &["( state: 3 )"]),
        ("is_playing", &["1"]),
        ("strack", &["| 4 - English SDH"]),
        ("atrack", &["| 1 - Hindi"]),
        ("get_time", &["12"]),
        ("get_length", &["90"]),
    ]);
    let now = secs(101);
    let a = player.poll_sync(now);
    vlc.drive(&mut player, a, now).unwrap();
    assert_eq!(
        vlc.log,
        ["status", "is_playing", "strack", "strack 4", "atrack", "get_time", "get_length"]
    );
    assert_eq!(player.get_state(), PlaybackState::Playing);
    assert!(player.subtitles_checked && player.audio_checked);
    assert_eq!(player.get_position(now), (secs(12), secs(90)));
    // Tracks and the length are not asked for again.
    vlc.script(&[("status", &[]), ("is_playing", &["1"]), ("get_time", &["13"])]);
    let a = player.poll_sync(now);
    vlc.drive(&mut player, a, now).unwrap();
    assert_eq!(vlc.log, ["status", "is_playing", "get_time"]);
    // Unless other media is loaded.
    vlc.script(&[
        ("status", &["( New Input: file )"]),
        ("is_playing", &["1"]),
        ("get_time", &["0"]),
    ]);
    let a = player.poll_sync(now);
    vlc.drive(&mut player, a, now).unwrap();
    assert_eq!(vlc.log, ["status", "is_playing", "strack", "atrack", "get_time"]);
    // A clock that falls to zero from over 3 s is not believed.
    assert_eq!(player.position, secs(13));
}

#[test]
fn vlc_that_idles_is_closed() {
    let (mut player, mut vlc) = playing(secs(100));
    vlc.script(&[("status", &["( state: 5 )"]), ("is_playing", &["0"]), ("get_time", &[])]);
    let later = secs(110);
    let a = player.poll_sync(later);
    vlc.drive(&mut player, a, later).unwrap();
    assert_eq!(player.get_state(), PlaybackState::Stopped);
    assert_eq!(player.stopped_at, Some(later));
    vlc.log.clear();
    let a = player.poll_sync(secs(113));
    vlc.drive(&mut player, a, secs(113)).unwrap();
    assert!(!vlc.log.contains(&"quit".to_string()));
    vlc.log.clear();
    let a = player.poll_sync(secs(114));
    vlc.drive(&mut player, a, secs(114)).unwrap();
    assert_eq!(vlc.log, ["status", "is_playing", "quit", "kill"]);
    assert!(!player.running && player.stopped_at.is_none());
    let a = player.poll_sync(secs(115));
    assert!(matches!(a, Action::Done));
}

#[test]
fn a_connection_that_breaks_while_polling() {
    for command in ["status", "is_playing", "strack", "atrack", "get_time", "get_length"] {
        let (mut player, mut vlc) = playing(secs(100));
        vlc.script(&[("status", &["( state: 3 )"]), ("is_playing", &["1"]), ("get_time", &["1"])]);
        vlc.broken = Some(command);
        let a = player.poll_sync(secs(101));
        assert_eq!(vlc.drive(&mut player, a, secs(101)), Ok(()));
        assert_eq!(vlc.log.last().unwrap(), "kill", "{}", command);
        assert_eq!(player.get_state(), PlaybackState::Stopped);
        assert!(!player.connected && !player.running);
    }
}

#[test]
fn samples_are_held_to_a_seek_that_settles() {
    let (mut player, mut vlc) = playing(secs(100));
    player.duration = secs(1000);
    player.state = PlaybackState::Playing;
    player.subtitles_checked = true;
    player.audio_checked = true;
    let a = player.seek(secs(500), secs(100));
    vlc.drive(&mut player, a, secs(100)).unwrap();
    let reply: &[(&'static str, &[&str])] =
        &[("status", &["( state: 3 )"]), ("is_playing", &["1"]), ("get_time", &["7"])];
    vlc.script(reply);
    let soon = Duration::from_millis(101_199);
    let a = player.poll_sync(soon);
    vlc.drive(&mut player, a, soon).unwrap();
    assert_eq!(player.position, secs(500));
    let late = Duration::from_millis(101_200);
    let a = player.poll_sync(late);
    vlc.drive(&mut player, a, late).unwrap();
    assert_eq!(player.position, secs(7));
    assert!(player.pending_seek.is_none());
}

#[test]
fn stopping_rewinds() {
    let now = secs(5);
    let (mut player, mut vlc) = playing(now);
    player.position = secs(44);
    vlc.log.clear();
    let a = player.stop(now);
    vlc.drive(&mut player, a, now).unwrap();
    assert_eq!(vlc.log, ["stop"]);
    assert_eq!(player.get_position(now), (Duration::zero(), Duration::zero()));
    assert_eq!(player.loaded_uri, None);
}

#[test]
fn a_position_that_is_too_large_is_told() {
    let mut player = create_player(Duration::zero());
    player.state = PlaybackState::Playing;
    player.position = Duration::from_parts(u64::MAX, 999_999_999).unwrap();
    assert!(player.position_fits(Duration::zero()));
    assert!(!player.position_fits(Duration::from_millis(1)));
}

#[test]
fn the_mock_keeps_the_time() {
    let mut p = MockPlayer::new();
    assert!(matches!(p.play(secs(1)), Action::Failed(e) if e == "no uri set"));
    p.set_uri("u".to_string(), "t".to_string(), secs(1));
    assert!(matches!(p.play(secs(10)), Action::Open(u) if u == "u"));
    assert!(matches!(p.play(secs(11)), Action::Done));
    assert_eq!(p.get_position(secs(14)).0, secs(4));
    p.pause(secs(15));
    assert_eq!(p.get_state(), PlaybackState::Paused);
    assert_eq!(p.get_position(secs(99)).0, secs(5));
    p.play(secs(20));
    assert_eq!(p.get_position(secs(21)).0, secs(6));
    p.seek(secs(60), secs(22));
    assert_eq!(p.get_position(secs(23)).0, secs(61));
    p.uri_duration = secs(30);
    assert_eq!(p.get_position(secs(24)), (secs(30), secs(30)));
    p.set_volume(200);
    p.set_mute(true);
    assert_eq!((p.volume, p.mute), (100, true));
    assert!(matches!(p.poll_sync(secs(25)), Action::Done));
    p.stop(secs(26));
    assert_eq!(p.get_position(secs(27)).0, Duration::zero());
    assert_eq!(p.current_uri(), "u");
    assert!(p.position_fits(secs(28)));
}

#[test]
fn vlc_is_looked_for() {
    assert_eq!(which("vlc", &[(false, false), (false, true)]), Some((1, "vlc".to_string())));
    assert_eq!(which("vlc", &[(true, true)]), Some((0, "vlc.exe".to_string())));
    assert_eq!(which("vlc", &[]), None);
    let existing = lines(&["/snap/bin/vlc", "/usr/local/bin/vlc"]);
    assert_eq!(find_vlc_on(false, None, &existing), Some("/usr/local/bin/vlc".to_string()));
    assert_eq!(find_vlc_on(true, None, &existing), None);
    assert_eq!(find_vlc(Some("/x".to_string()), &existing), Some("/x".to_string()));
    assert_eq!(find_vlc(None, &[]), None);
}
