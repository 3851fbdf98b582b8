//! VLC, driven through its remote-control interface.

use vstd::prelude::*;
use vstd::string::*;

use crate::number;
use crate::number::{decimal, signed, unsigned};
use crate::platform;
use crate::platform::vlc_args_on;
use crate::player::{Action, ActionModel, Event, MediaPlayer, PlaybackState};
use crate::state;
use crate::text;
use crate::text::{CharSet, ascii_lower, begins, chars_of, find, has, join, lower, same, strip, trim, trim_start};
use crate::time;
use crate::time::Duration;

verus! {

broadcast use crate::time::lemma_duration_view;

// ---------------------------------------------------------------------------------------------
// Replies of the remote control
// ---------------------------------------------------------------------------------------------
/// The whole seconds that a line tells.
pub open spec fn seconds_in(line: Seq<char>) -> Option<nat> {
    number::unsigned_of(text::trim_of(line), u64::MAX as nat)
}

/// The seconds in the first line that is a number.
pub open spec fn rc_seconds(lines: Seq<Seq<char>>) -> Option<nat> {
    text::first_some(lines, |l: Seq<char>| seconds_in(l))
}

/// The span of the seconds in the first line that is a number.
pub fn parse_rc_seconds(lines: &[String]) -> (r: Option<Duration>)
    ensures
        match (r, rc_seconds(text::texts(lines@))) {
            (Some(d), Some(n)) => d@ == time::secs(n),
            (None, None) => true,
            _ => false,
        },
{
    let ghost l = text::texts(lines@);
    let ghost f = |l: Seq<char>| seconds_in(l);
    assert(l.skip(0) =~= l);
    for i in 0..lines.len()
        invariant
            l == text::texts(lines@),
            f == (|l: Seq<char>| seconds_in(l)),
            text::first_some(l, f) == rc_seconds(l),
            text::first_some(l.skip(i as int), f) == text::first_some(l, f),
    {
        assert(l[i as int] == lines@[i as int]@);
        assert(l.skip(i as int).drop_first() =~= l.skip(i + 1));
        if let Some(n) = unsigned(trim(lines[i].as_str()), u64::MAX) {
            return Some(Duration::from_secs(n));
        }
    }
    None
}

/// The truth value that a line tells.
pub open spec fn bool_in(line: Seq<char>) -> Option<bool> {
    if text::trim_of(line) == "0"@ {
        Some(false)
    } else if text::trim_of(line) == "1"@ {
        Some(true)
    } else {
        None
    }
}

/// The truth value in the last line that is one.
pub open spec fn rc_bool(lines: Seq<Seq<char>>) -> Option<bool> {
    text::last_some(lines, |l: Seq<char>| bool_in(l))
}

/// The truth value in the last line that is one.
pub fn parse_rc_bool(lines: &[String]) -> (r: Option<bool>)
    ensures
        r == rc_bool(text::texts(lines@)),
{
    let ghost l = text::texts(lines@);
    let ghost f = |l: Seq<char>| bool_in(l);
    let mut i: usize = lines.len();
    assert(l.take(l.len() as int) =~= l);
    while i > 0
        invariant
            l == text::texts(lines@),
            i <= lines@.len(),
            f == (|l: Seq<char>| bool_in(l)),
            text::last_some(l, f) == rc_bool(l),
            text::last_some(l.take(i as int), f) == text::last_some(l, f),
        decreases i,
    {
        i = i - 1;
        assert(l[i as int] == lines@[i as int]@);
        assert(l.take(i + 1).drop_last() =~= l.take(i as int));
        let t: &str = trim(lines[i].as_str());
        if same(t, "0") {
            return Some(false);
        }
        if same(t, "1") {
            return Some(true);
        }
    }
    None
}

/// How many digits a text begins with.
pub open spec fn digit_count(s: Seq<char>) -> nat
    decreases s.len(),
{
    if s.len() > 0 && text::is_digit(s[0]) {
        1 + digit_count(s.drop_first())
    } else {
        0
    }
}

/// The digits that a text begins with.
pub open spec fn leading_digits(s: Seq<char>) -> Seq<char> {
    s.take(digit_count(s) as int)
}

/// The number behind the first `state:` of a line, in any case.
pub open spec fn state_code(line: Seq<char>) -> Option<nat> {
    let l = text::ascii_lower_of(line);
    match text::find_of(l, "state:"@) {
        Some(i) => number::unsigned_of(
            leading_digits(text::trim_start_of(l.skip(i + 6), CharSet::White)),
            255,
        ),
        None => None,
    }
}

/// The state that a number stands for.
pub open spec fn state_of_code(code: nat) -> Option<PlaybackState> {
    if code == 1 || code == 2 {
        Some(PlaybackState::Transitioning)
    } else if code == 3 {
        Some(PlaybackState::Playing)
    } else if code == 4 {
        Some(PlaybackState::Paused)
    } else if code == 0 || code == 5 || code == 6 || code == 7 {
        Some(PlaybackState::Stopped)
    } else {
        None
    }
}

/// The state that a text in small letters tells in words.
pub open spec fn state_in_words(t: Seq<char>) -> Option<PlaybackState> {
    if text::contains(t, "buffer"@) || text::contains(t, "opening"@) {
        Some(PlaybackState::Transitioning)
    } else if text::contains(t, "playing"@) {
        Some(PlaybackState::Playing)
    } else if text::contains(t, "paused"@) {
        Some(PlaybackState::Paused)
    } else if text::contains(t, "stopped"@) || text::contains(t, "ended"@) || text::contains(
        t,
        "error"@,
    ) {
        Some(PlaybackState::Stopped)
    } else {
        None
    }
}

/// The state that a reply tells: by the last number behind `state:`, else in words.
pub open spec fn vlc_state(lines: Seq<Seq<char>>) -> Option<PlaybackState> {
    match text::last_some(lines, |l: Seq<char>| state_code(l)) {
        Some(code) => state_of_code(code),
        None => state_in_words(text::ascii_lower_of(text::join_of(lines, " "@))),
    }
}

fn digits_at_start<'a>(s: &'a str) -> (r: &'a str)
    ensures
        r@ == leading_digits(s@),
{
    let v: Vec<char> = chars_of(s);
    let mut i: usize = 0;
    assert(s@.skip(0) =~= s@);
    while i < v.len() && '0' <= v[i] && v[i] <= '9'
        invariant
            v@ == s@,
            i <= v@.len(),
            i + digit_count(s@.skip(i as int)) == digit_count(s@),
        decreases v@.len() - i,
    {
        assert(s@.skip(i as int).drop_first() =~= s@.skip(i + 1));
        i = i + 1;
    }
    assert(s@.subrange(0, i as int) =~= leading_digits(s@));
    s.substring_char(0, i)
}

fn code_in(line: &str) -> (r: Option<u64>)
    ensures
        match (r, state_code(line@)) {
            (Some(n), Some(m)) => n == m,
            (None, None) => true,
            _ => false,
        },
{
    proof {
        reveal_strlit("state:");
    }
    let l = ascii_lower(line);
    match find(l.as_str(), "state:") {
        Some(i) => {
            let n: usize = l.as_str().unicode_len();
            let rest: &str = l.as_str().substring_char(i + 6, n);
            assert(rest@ =~= l@.skip(i + 6));
            unsigned(digits_at_start(trim_start(rest, CharSet::White)), 255)
        },
        None => None,
    }
}

/// The state that a reply to `status` tells. Of several lines with a state the last counts.
pub fn parse_vlc_state(lines: &[String]) -> (r: Option<PlaybackState>)
    ensures
        r == vlc_state(text::texts(lines@)),
{
    let ghost l = text::texts(lines@);
    let ghost f = |l: Seq<char>| state_code(l);
    let mut i: usize = lines.len();
    assert(l.take(l.len() as int) =~= l);
    while i > 0
        invariant
            l == text::texts(lines@),
            i <= lines@.len(),
            f == (|l: Seq<char>| state_code(l)),
            vlc_state(l) == match text::last_some(l, f) {
                Some(code) => state_of_code(code),
                None => state_in_words(text::ascii_lower_of(text::join_of(l, " "@))),
            },
            text::last_some(l.take(i as int), f) == text::last_some(l, f),
        decreases i,
    {
        i = i - 1;
        assert(l[i as int] == lines@[i as int]@);
        assert(l.take(i + 1).drop_last() =~= l.take(i as int));
        if let Some(code) = code_in(lines[i].as_str()) {
            return match code {
                1 | 2 => Some(PlaybackState::Transitioning),
                3 => Some(PlaybackState::Playing),
                4 => Some(PlaybackState::Paused),
                0 | 5 | 6 | 7 => Some(PlaybackState::Stopped),
                _ => None,
            };
        }
    }
    let t = ascii_lower(join(lines, " ").as_str());
    let s: &str = t.as_str();
    if has(s, "buffer") || has(s, "opening") {
        Some(PlaybackState::Transitioning)
    } else if has(s, "playing") {
        Some(PlaybackState::Playing)
    } else if has(s, "paused") {
        Some(PlaybackState::Paused)
    } else if has(s, "stopped") || has(s, "ended") || has(s, "error") {
        Some(PlaybackState::Stopped)
    } else {
        None
    }
}

/// The line ends the reply to a command.
pub open spec fn ends_reply(line: Seq<char>) -> bool {
    text::starts_with(text::trim_of(line), "status: returned"@) || text::contains(
        text::trim_of(line),
        "end of stream info"@,
    )
}

/// The command is answered by one number.
pub open spec fn answered_by_number(cmd: Seq<char>) -> bool {
    cmd == "is_playing"@ || cmd == "get_time"@ || cmd == "get_length"@
}

fn is_number(s: &str) -> (r: bool)
    ensures
        r == number::all_digits(s@),
{
    let v: Vec<char> = chars_of(s);
    for i in 0..v.len()
        invariant
            v@ == s@,
            forall|k: int| 0 <= k < i ==> text::is_digit(#[trigger] v@[k]),
    {
        if v[i] < '0' || v[i] > '9' {
            assert(!text::is_digit(s@[i as int]));
            return false;
        }
    }
    true
}

/// Adds a line to the reply to a command, unless it is blank. Is the reply complete?
pub fn take_reply_line(cmd: &str, line: &str, reply: &mut Vec<String>) -> (r: bool)
    ensures
        text::trim_of(line@).len() == 0 ==> final(reply)@ == old(reply)@,
        text::trim_of(line@).len() > 0 ==> text::texts(final(reply)@) == text::texts(
            old(reply)@,
        ).push(text::trim_of(line@)),
        r == (ends_reply(line@) || (answered_by_number(cmd@) && text::trim_of(line@).len() > 0
            && number::all_digits(text::trim_of(line@)))),
{
    let t: &str = trim(line);
    let ended: bool = begins(t, "status: returned") || has(t, "end of stream info");
    if t.is_empty() {
        return ended;
    }
    let ghost before = reply@;
    reply.push(t.to_owned());
    assert(text::texts(reply@) =~= text::texts(before).push(t@));
    ended || ((same(cmd, "is_playing") || same(cmd, "get_time") || same(cmd, "get_length"))
        && is_number(t))
}

// ---------------------------------------------------------------------------------------------
// Tracks
// ---------------------------------------------------------------------------------------------
/// The number and the description of a track that a line `| n - description` lists; numbers below
/// zero stand for no track.
pub open spec fn track_of(line: Seq<char>) -> Option<(int, Seq<char>)> {
    let t = text::trim_of(line);
    let clean = text::trim_of(
        if t.len() > 0 && t[0] == '|' {
            t.skip(1)
        } else {
            t
        },
    );
    match text::find_of(clean, " - "@) {
        Some(i) => match number::signed_of(
            text::trim_of(text::strip_of(text::trim_of(clean.take(i)), CharSet::One('*'))),
        ) {
            Some(id) => if id >= 0 {
                Some((id, clean.skip(i + 3)))
            } else {
                None
            },
            None => None,
        },
        None => None,
    }
}

/// A letter of the Latin script, with or without a mark.
pub open spec fn is_latin_letter(c: char) -> bool {
    let n = c as u32;
    ||| 'a' <= c <= 'z'
    ||| 'A' <= c <= 'Z'
    ||| 0xc0 <= n <= 0x24f && n != 0xd7 && n != 0xf7
    ||| 0x1e00 <= n <= 0x1eff
}

/// `word` stands in `s` at position `i`, with no letter directly before or after it.
pub open spec fn word_at(s: Seq<char>, word: Seq<char>, i: int) -> bool {
    &&& text::occurs_at(s, word, i)
    &&& i > 0 ==> !is_latin_letter(s[i - 1])
    &&& i + word.len() < s.len() ==> !is_latin_letter(s[i + word.len()])
}

/// `word` stands in `s` as a word of its own.
pub open spec fn has_word(s: Seq<char>, word: Seq<char>) -> bool {
    exists|i: int| word_at(s, word, i)
}

/// A description in small letters tells of English: by that name, or by the code `eng`.
pub open spec fn is_english(desc: Seq<char>) -> bool {
    text::contains(desc, "english"@) || has_word(desc, "eng"@)
}

/// A description in small letters tells of subtitles for the deaf and hard of hearing.
pub open spec fn is_sdh(desc: Seq<char>) -> bool {
    text::contains(desc, "sdh"@)
}

/// The number of the English track that a line lists, with SDH if that is asked for.
pub open spec fn english_track(line: Seq<char>, sdh: bool) -> Option<int> {
    match track_of(line) {
        Some((id, desc)) => if is_english(text::lower_of(desc)) && (sdh ==> is_sdh(
            text::lower_of(desc),
        )) {
            Some(id)
        } else {
            None
        },
        None => None,
    }
}

/// The first English track, with SDH if that is asked for.
pub open spec fn first_english(lines: Seq<Seq<char>>, sdh: bool) -> Option<int> {
    text::first_some(lines, |l: Seq<char>| english_track(l, sdh))
}

/// The subtitles to show: the first English track with SDH, else the first English track.
pub open spec fn best_subtitle(lines: Seq<Seq<char>>) -> Option<int> {
    state::either(first_english(lines, true), first_english(lines, false))
}

fn is_letter(c: char) -> (r: bool)
    ensures
        r == is_latin_letter(c),
{
    let n: u32 = c as u32;
    ('a' <= c && c <= 'z') || ('A' <= c && c <= 'Z') || (0xc0 <= n && n <= 0x24f && n != 0xd7 && n
        != 0xf7) || (0x1e00 <= n && n <= 0x1eff)
}

/// Does the word stand in the text as a word of its own?
fn holds_word(s: &str, word: &str) -> (r: bool)
    requires
        word@.len() > 0,
    ensures
        r == has_word(s@, word@),
{
    let v: Vec<char> = chars_of(s);
    let n: usize = v.len();
    let m: usize = word.unicode_len();
    for i in 0..n
        invariant
            v@ == s@,
            n == v@.len(),
            m == word@.len(),
            m > 0,
            forall|j: int| 0 <= j < i ==> !word_at(s@, word@, j),
    {
        if m <= n - i && same(s.substring_char(i, i + m), word) && (i == 0 || !is_letter(v[i - 1]))
            && (i + m == n || !is_letter(v[i + m])) {
            assert(word_at(s@, word@, i as int));
            return true;
        }
    }
    assert forall|j: int| !word_at(s@, word@, j) by {}
    false
}

/// The description in small letters: is it of English, and with SDH?
pub fn rate_description(desc_lower: &str) -> (r: (bool, bool))
    ensures
        r == (is_english(desc_lower@), is_sdh(desc_lower@)),
{
    proof {
        reveal_strlit("eng");
    }
    (has(desc_lower, "english") || holds_word(desc_lower, "eng"), has(desc_lower, "sdh"))
}

fn english_in(line: &str, sdh: bool) -> (r: Option<i32>)
    ensures
        match (r, english_track(line@, sdh)) {
            (Some(n), Some(m)) => n == m && n >= 0,
            (None, None) => true,
            _ => false,
        },
{
    proof {
        reveal_strlit(" - ");
    }
    let t: &str = trim(line);
    let n: usize = t.unicode_len();
    let clean: &str = if n > 0 && t.get_char(0) == '|' {
        assert(t@.subrange(1, n as int) =~= t@.skip(1));
        trim(t.substring_char(1, n))
    } else {
        trim(t)
    };
    match find(clean, " - ") {
        Some(i) => {
            let m: usize = clean.unicode_len();
            assert(clean@.subrange(0, i as int) =~= clean@.take(i as int));
            assert(clean@.subrange(i + 3, m as int) =~= clean@.skip(i + 3));
            let id: &str = trim(strip(trim(clean.substring_char(0, i)), CharSet::One('*')));
            match signed(id) {
                Some(id) => {
                    if id < 0 {
                        return None;
                    }
                    let desc = lower(clean.substring_char(i + 3, m));
                    let (eng, for_deaf) = rate_description(desc.as_str());
                    if eng && (!sdh || for_deaf) {
                        Some(id)
                    } else {
                        None
                    }
                },
                None => None,
            }
        },
        None => None,
    }
}

fn find_english(lines: &[String], sdh: bool) -> (r: Option<i32>)
    ensures
        match (r, first_english(text::texts(lines@), sdh)) {
            (Some(n), Some(m)) => n == m && n >= 0,
            (None, None) => true,
            _ => false,
        },
{
    let ghost l = text::texts(lines@);
    let ghost f = |l: Seq<char>| english_track(l, sdh);
    assert(l.skip(0) =~= l);
    for i in 0..lines.len()
        invariant
            l == text::texts(lines@),
            f == (|l: Seq<char>| english_track(l, sdh)),
            text::first_some(l, f) == first_english(l, sdh),
            text::first_some(l.skip(i as int), f) == text::first_some(l, f),
    {
        assert(l[i as int] == lines@[i as int]@);
        assert(l.skip(i as int).drop_first() =~= l.skip(i + 1));
        if let Some(id) = english_in(lines[i].as_str(), sdh) {
            return Some(id);
        }
    }
    None
}

/// The subtitles to show, of those that a reply to `strack` lists: the first English track with
/// SDH, else the first English track, else none.
pub fn find_best_subtitle_track(lines: &[String]) -> (r: Option<i32>)
    ensures
        match (r, best_subtitle(text::texts(lines@))) {
            (Some(n), Some(m)) => n == m && n >= 0,
            (None, None) => true,
            _ => false,
        },
{
    match find_english(lines, true) {
        Some(id) => Some(id),
        None => find_english(lines, false),
    }
}

/// The sound to play, of the tracks that a reply to `atrack` lists: the first English one.
pub fn find_best_audio_track(lines: &[String]) -> (r: Option<i32>)
    ensures
        match (r, first_english(text::texts(lines@), false)) {
            (Some(n), Some(m)) => n == m && n >= 0,
            (None, None) => true,
            _ => false,
        },
{
    find_english(lines, false)
}

// ---------------------------------------------------------------------------------------------
// The player
// ---------------------------------------------------------------------------------------------
/// What the outcome of the action under way leads to.
#[derive(Debug, Clone, Copy, PartialEq, Eq, Structural)]
pub enum Phase {
    /// No action is under way.
    Idle,
    /// The last command of a request; it is done whatever comes of it.
    Last,
    /// `stop` before the playlist is cleared for other media.
    Clearing,
    /// Has the process ended?
    Checking,
    /// The remote control of the running process is connected again.
    Reattaching,
    /// The process is ended so that another can be launched.
    Replacing,
    Launching,
    /// The remote control of the launched process is connected.
    Attaching,
    /// The volume of the launched process is set.
    Tuning,
    /// The launched process, which could not be connected, is ended.
    Abandoning,
    Resuming,
    Pausing,
    Seeking,
    /// The playlist is cleared before the media is added.
    Emptying,
    Adding,
    /// The process of a lost connection is ended; the request failed.
    Failing,
    /// The process is ended; the request is done.
    Leaving,
    /// `status` is asked.
    Status,
    /// `is_playing` is asked.
    Active,
    /// `quit` is told.
    Quitting,
    /// The subtitle tracks are asked.
    Subtitles,
    /// The subtitle track is set.
    SubtitleSet,
    /// The sound tracks are asked.
    Audio,
    /// The sound track is set.
    AudioSet,
    /// `get_time` is asked.
    Clock,
    /// `get_length` is asked.
    Length,
}

/// A VLC process and what is known of it.
#[derive(Debug)]
pub struct VlcPlayer {
    pub windows: bool,
    /// There is a process.
    pub running: bool,
    /// Its remote control is connected.
    pub connected: bool,
    pub rc_port: u16,
    pub uri: String,
    pub title: String,
    /// The media that VLC was given.
    pub loaded_uri: Option<String>,
    /// Zero while the length is not known.
    pub duration: Duration,
    pub position: Duration,
    /// The clock when `position` was set.
    pub last_pos_time: Duration,
    /// The target of a seek that VLC may not have followed yet, and the clock when it was asked.
    pub pending_seek: Option<(Duration, Duration)>,
    pub state: PlaybackState,
    /// 0 to 100.
    pub volume: u8,
    pub mute: bool,
    /// The clock when media was loaded, until it plays.
    pub transition_start: Option<Duration>,
    pub subtitles_checked: bool,
    pub audio_checked: bool,
    /// The clock when playback stopped.
    pub stopped_at: Option<Duration>,
    pub phase: Phase,
    /// The reply to `status`, until `is_playing` is answered.
    pub heard: Vec<String>,
    /// The target of the seek under way.
    pub seek_target: Duration,
}

/// What a `VlcPlayer` holds.
pub struct VlcModel {
    pub windows: bool,
    pub running: bool,
    pub connected: bool,
    pub rc_port: u16,
    pub uri: Seq<char>,
    pub title: Seq<char>,
    pub loaded_uri: Option<Seq<char>>,
    pub duration: nat,
    pub position: nat,
    pub last_pos_time: nat,
    pub pending_seek: Option<(nat, nat)>,
    pub state: PlaybackState,
    pub volume: u8,
    pub mute: bool,
    pub transition_start: Option<nat>,
    pub subtitles_checked: bool,
    pub audio_checked: bool,
    pub stopped_at: Option<nat>,
    pub phase: Phase,
    pub heard: Seq<Seq<char>>,
    pub seek_target: nat,
}

impl View for VlcPlayer {
    type V = VlcModel;

    open spec fn view(&self) -> VlcModel {
        VlcModel {
            windows: self.windows,
            running: self.running,
            connected: self.connected,
            rc_port: self.rc_port,
            uri: self.uri@,
            title: self.title@,
            loaded_uri: match self.loaded_uri {
                Some(u) => Some(u@),
                None => None,
            },
            duration: self.duration@,
            position: self.position@,
            last_pos_time: self.last_pos_time@,
            pending_seek: match self.pending_seek {
                Some((target, issued)) => Some((target@, issued@)),
                None => None,
            },
            state: self.state,
            volume: self.volume,
            mute: self.mute,
            transition_start: time::reading(self.transition_start),
            subtitles_checked: self.subtitles_checked,
            audio_checked: self.audio_checked,
            stopped_at: time::reading(self.stopped_at),
            phase: self.phase,
            heard: text::texts(self.heard@),
            seek_target: self.seek_target@,
        }
    }
}

/// A player without media or process, at the clock reading `now`.
pub open spec fn new_player(windows: bool, now: nat) -> VlcModel {
    VlcModel {
        windows,
        running: false,
        connected: false,
        rc_port: 52422,
        uri: Seq::empty(),
        title: Seq::empty(),
        loaded_uri: None,
        duration: 0,
        position: 0,
        last_pos_time: now,
        pending_seek: None,
        state: PlaybackState::Stopped,
        volume: 100,
        mute: false,
        transition_start: None,
        subtitles_checked: false,
        audio_checked: false,
        stopped_at: None,
        phase: Phase::Idle,
        heard: Seq::empty(),
        seek_target: 0,
    }
}

/// A volume from 0 to 100 on VLC's scale, where 256 is full.
pub open spec fn vlc_volume(volume: u8) -> nat {
    (volume as nat * 256) / 100
}

/// `volume`, at most 100.
pub open spec fn capped_volume(volume: u8) -> u8 {
    if volume <= 100 {
        volume
    } else {
        100
    }
}

/// How long `start` is past at the reading `now`; nothing where there is none.
pub open spec fn elapsed(start: Option<nat>, now: nat) -> nat {
    match start {
        Some(t) => time::minus(now, t),
        None => 0,
    }
}

/// The state to go on with, from the state so far, the state that VLC reports and whether it says
/// that it plays (or is paused). Nothing to go by leaves the state as it is.
///
/// `timed_out`: the media has been loading for over 35 s. `just_started`: for under 3 s.
pub open spec fn next_state(
    state: PlaybackState,
    reported: Option<PlaybackState>,
    active: Option<bool>,
    timed_out: bool,
    just_started: bool,
) -> Option<PlaybackState> {
    let loading = state == PlaybackState::Transitioning;
    // What an active input is, where the report is stale or missing.
    let active_state = if state == PlaybackState::Paused {
        PlaybackState::Paused
    } else {
        PlaybackState::Playing
    };
    match (reported, active) {
        (Some(PlaybackState::Transitioning), _) => Some(
            if timed_out {
                PlaybackState::Stopped
            } else {
                PlaybackState::Transitioning
            },
        ),
        (Some(PlaybackState::Stopped), Some(true)) => Some(active_state),
        (Some(s), Some(true)) => Some(s),
        (Some(PlaybackState::Stopped), None) | (Some(_), Some(false)) => Some(
            if loading && just_started {
                PlaybackState::Transitioning
            } else {
                PlaybackState::Stopped
            },
        ),
        (Some(s), None) => Some(s),
        (None, Some(false)) => Some(
            if loading && !timed_out {
                PlaybackState::Transitioning
            } else {
                PlaybackState::Stopped
            },
        ),
        (None, Some(true)) => Some(active_state),
        (None, None) => None,
    }
}

/// A line of the reply to `status` tells that other media is loaded.
pub open spec fn tells_new_input(lines: Seq<Seq<char>>) -> bool {
    exists|i: int|
        0 <= i < lines.len() && text::contains(
            text::ascii_lower_of(#[trigger] lines[i]),
            "new input:"@,
        )
}

impl VlcModel {
    /// No action is under way.
    pub open spec fn rested(self) -> VlcModel {
        VlcModel { phase: Phase::Idle, ..self }
    }

    pub open spec fn done(self) -> (VlcModel, ActionModel) {
        (self.rested(), ActionModel::Done)
    }

    pub open spec fn failed(self, reason: Seq<char>) -> (VlcModel, ActionModel) {
        (self.rested(), ActionModel::Failed(reason))
    }

    pub open spec fn tell(self, command: Seq<char>, phase: Phase) -> (VlcModel, ActionModel) {
        (VlcModel { phase, ..self }, ActionModel::Tell(command))
    }

    pub open spec fn ask(self, command: Seq<char>, phase: Phase) -> (VlcModel, ActionModel) {
        (VlcModel { phase, ..self }, ActionModel::Ask(command))
    }

    /// Tells a command, if there is a connection, and is done with it.
    pub open spec fn tell_last(self, command: Seq<char>) -> (VlcModel, ActionModel) {
        if self.connected {
            self.tell(command, Phase::Last)
        } else {
            self.done()
        }
    }

    /// The connection stands only if it did and the last command got through.
    pub open spec fn after_sending(self, ok: bool) -> VlcModel {
        VlcModel { connected: self.connected && ok, ..self }
    }

    /// The process and the connection are gone, and what VLC had loaded with them.
    pub open spec fn lost(self) -> VlcModel {
        VlcModel {
            running: false,
            connected: false,
            loaded_uri: None,
            pending_seek: None,
            state: PlaybackState::Stopped,
            transition_start: None,
            subtitles_checked: false,
            audio_checked: false,
            ..self
        }
    }

    /// Gives the connection up and ends the process; the request failed, or is done.
    pub open spec fn give_up(self, failed: bool) -> (VlcModel, ActionModel) {
        if self.running {
            (
                VlcModel {
                    phase: if failed {
                        Phase::Failing
                    } else {
                        Phase::Leaving
                    },
                    ..self.lost()
                },
                ActionModel::Kill,
            )
        } else if failed {
            self.lost().failed("VLC remote-control connection was lost"@)
        } else {
            self.lost().done()
        }
    }

    // Setting the media.

    /// Other media is set; nothing of the old is kept but the volume.
    pub open spec fn replaced(self, uri: Seq<char>, title: Seq<char>, now: nat) -> VlcModel {
        VlcModel {
            uri,
            title,
            loaded_uri: None,
            position: 0,
            duration: 0,
            last_pos_time: now,
            pending_seek: None,
            state: PlaybackState::Stopped,
            transition_start: None,
            subtitles_checked: false,
            audio_checked: false,
            ..self
        }
    }

    pub open spec fn set_uri_step(self, uri: Seq<char>, title: Seq<char>, now: nat) -> (
        VlcModel,
        ActionModel,
    ) {
        if self.uri != uri && self.connected {
            self.replaced(uri, title, now).tell("stop"@, Phase::Clearing)
        } else {
            self.replaced(uri, title, now).done()
        }
    }

    // Having a process that is connected.

    /// The process has ended.
    pub open spec fn ended(self) -> VlcModel {
        VlcModel {
            running: false,
            connected: false,
            loaded_uri: None,
            pending_seek: None,
            state: PlaybackState::Stopped,
            transition_start: None,
            ..self
        }
    }

    pub open spec fn launch(self) -> (VlcModel, ActionModel) {
        (
            VlcModel { running: false, connected: false, phase: Phase::Launching, ..self },
            ActionModel::Launch(platform::vlc_arguments(self.windows, self.rc_port as nat, "rc"@)),
        )
    }

    pub open spec fn play_step(self) -> (VlcModel, ActionModel) {
        if self.uri.len() == 0 {
            self.failed("No URI set"@)
        } else if self.running {
            (VlcModel { phase: Phase::Checking, ..self }, ActionModel::Check)
        } else {
            self.launch()
        }
    }

    pub open spec fn exited_step(self, gone: bool) -> (VlcModel, ActionModel) {
        if gone {
            self.ended().launch()
        } else if self.connected {
            self.start_step()
        } else {
            (VlcModel { phase: Phase::Reattaching, ..self }, ActionModel::Connect)
        }
    }

    pub open spec fn reattached_step(self, ok: bool) -> (VlcModel, ActionModel) {
        if ok {
            VlcModel { connected: true, ..self }.start_step()
        } else {
            (
                VlcModel { running: false, connected: false, phase: Phase::Replacing, ..self },
                ActionModel::Kill,
            )
        }
    }

    pub open spec fn launched_step(self, ok: bool) -> (VlcModel, ActionModel) {
        if ok {
            (VlcModel { running: true, phase: Phase::Attaching, ..self }, ActionModel::Connect)
        } else {
            self.failed("VLC is not available"@)
        }
    }

    pub open spec fn attached_step(self, ok: bool) -> (VlcModel, ActionModel) {
        if ok {
            VlcModel { connected: true, ..self }.ask(
                "volume "@ + number::decimal_of(vlc_volume(self.volume)),
                Phase::Tuning,
            )
        } else {
            (VlcModel { running: false, phase: Phase::Abandoning, ..self }, ActionModel::Kill)
        }
    }

    // Playing, with a process that is connected.

    /// Resumes what is paused; leaves alone what plays or loads; else loads the media.
    pub open spec fn start_step(self) -> (VlcModel, ActionModel) {
        if self.state == PlaybackState::Paused {
            if self.connected {
                self.tell("pause"@, Phase::Resuming)
            } else {
                self.give_up(true)
            }
        } else if self.state != PlaybackState::Stopped && self.loaded_uri == Some(self.uri) {
            self.done()
        } else if self.connected {
            self.tell("clear"@, Phase::Emptying)
        } else {
            self.give_up(true)
        }
    }

    pub open spec fn emptied_step(self, ok: bool) -> (VlcModel, ActionModel) {
        if self.connected && ok {
            self.tell("add "@ + self.uri, Phase::Adding)
        } else {
            self.give_up(true)
        }
    }

    /// VLC was given the media and loads it.
    pub open spec fn loading(self, now: nat) -> VlcModel {
        VlcModel {
            loaded_uri: Some(self.uri),
            state: PlaybackState::Transitioning,
            transition_start: Some(now),
            stopped_at: None,
            last_pos_time: now,
            subtitles_checked: false,
            audio_checked: false,
            ..self
        }
    }

    pub open spec fn added_step(self, ok: bool, now: nat) -> (VlcModel, ActionModel) {
        if !ok {
            self.give_up(true)
        } else {
            match self.pending_seek {
                Some((target, _)) => VlcModel {
                    pending_seek: Some((target, now)),
                    ..self.loading(now)
                }.tell_last("seek "@ + number::decimal_of(time::whole_secs(target))),
                None => self.loading(now).done(),
            }
        }
    }

    /// Playback goes on, or rests, from here.
    pub open spec fn switched(self, state: PlaybackState, ok: bool, now: nat) -> (
        VlcModel,
        ActionModel,
    ) {
        if ok {
            VlcModel { state, last_pos_time: now, ..self }.done()
        } else {
            self.give_up(true)
        }
    }

    // The other requests.

    pub open spec fn pause_step(self) -> (VlcModel, ActionModel) {
        if self.state == PlaybackState::Playing || self.state == PlaybackState::Transitioning {
            if self.connected {
                self.tell("pause"@, Phase::Pausing)
            } else {
                self.give_up(true)
            }
        } else {
            self.done()
        }
    }

    pub open spec fn stop_step(self, now: nat) -> (VlcModel, ActionModel) {
        VlcModel {
            state: PlaybackState::Stopped,
            stopped_at: Some(now),
            position: 0,
            last_pos_time: now,
            pending_seek: None,
            loaded_uri: None,
            transition_start: None,
            subtitles_checked: false,
            audio_checked: false,
            ..self
        }.tell_last("stop"@)
    }

    /// A target within the media, where its length is known.
    pub open spec fn clamped(self, target: nat) -> nat {
        if self.duration > 0 {
            time::lesser(target, self.duration)
        } else {
            target
        }
    }

    /// The position is the target, until VLC tells another.
    pub open spec fn sought(self, target: nat, now: nat) -> VlcModel {
        VlcModel {
            position: target,
            last_pos_time: now,
            pending_seek: Some((target, now)),
            ..self
        }
    }

    pub open spec fn seek_step(self, target: nat, now: nat) -> (VlcModel, ActionModel) {
        let t = self.clamped(target);
        if self.uri.len() == 0 {
            self.failed("No URI set"@)
        } else if self.connected {
            VlcModel { seek_target: t, ..self }.tell(
                "seek "@ + number::decimal_of(time::whole_secs(t)),
                Phase::Seeking,
            )
        } else {
            VlcModel { seek_target: t, ..self }.sought(t, now).done()
        }
    }

    pub open spec fn sought_step(self, ok: bool, now: nat) -> (VlcModel, ActionModel) {
        if ok {
            self.sought(self.seek_target, now).done()
        } else {
            self.give_up(true)
        }
    }

    pub open spec fn volume_step(self, volume: u8) -> (VlcModel, ActionModel) {
        VlcModel { volume: capped_volume(volume), ..self }.tell_last(
            "volume "@ + number::decimal_of(vlc_volume(capped_volume(volume))),
        )
    }

    pub open spec fn mute_step(self, mute: bool) -> (VlcModel, ActionModel) {
        VlcModel { mute, ..self }.tell_last(
            if mute {
                "volume 0"@
            } else {
                "volume "@ + number::decimal_of(vlc_volume(self.volume))
            },
        )
    }

    // Keeping up with VLC.

    pub open spec fn poll_step(self) -> (VlcModel, ActionModel) {
        if self.connected {
            self.ask("status"@, Phase::Status)
        } else {
            self.done()
        }
    }

    pub open spec fn status_step(self, lines: Seq<Seq<char>>, alive: bool) -> (
        VlcModel,
        ActionModel,
    ) {
        if alive {
            VlcModel { heard: lines, ..self }.ask("is_playing"@, Phase::Active)
        } else {
            self.give_up(false)
        }
    }

    /// The state is the one that VLC tells.
    pub open spec fn observed(self, state: PlaybackState, now: nat) -> VlcModel {
        let new = VlcModel { state, ..self };
        if state == self.state {
            new
        } else if state == PlaybackState::Playing {
            VlcModel { transition_start: None, stopped_at: None, last_pos_time: now, ..new }
        } else if state == PlaybackState::Transitioning {
            VlcModel { stopped_at: None, subtitles_checked: false, audio_checked: false, ..new }
        } else if state == PlaybackState::Stopped {
            VlcModel { stopped_at: Some(now), ..new }
        } else {
            new
        }
    }

    /// What the replies to `status` and `is_playing` make of the player.
    pub open spec fn synced(self, lines: Seq<Seq<char>>, now: nat) -> VlcModel {
        let since = elapsed(self.transition_start, now);
        match next_state(
            self.state,
            vlc_state(self.heard),
            rc_bool(lines),
            self.transition_start is Some && since > time::secs(35),
            self.transition_start is Some && since < time::secs(3),
        ) {
            Some(state) => self.observed(state, now),
            None => self,
        }
    }

    /// VLC has been stopped for over 3 s.
    pub open spec fn idles(self, now: nat) -> bool {
        self.state == PlaybackState::Stopped && self.stopped_at is Some && elapsed(
            self.stopped_at,
            now,
        ) > time::secs(3)
    }

    pub open spec fn active_step(self, lines: Seq<Seq<char>>, alive: bool, now: nat) -> (
        VlcModel,
        ActionModel,
    ) {
        let p = self.synced(lines, now);
        if !alive {
            self.give_up(false)
        } else if p.idles(now) {
            p.tell("quit"@, Phase::Quitting)
        } else if tells_new_input(self.heard) {
            VlcModel { subtitles_checked: false, audio_checked: false, ..p }.subtitles_due()
        } else {
            p.subtitles_due()
        }
    }

    pub open spec fn subtitles_due(self) -> (VlcModel, ActionModel) {
        if self.state == PlaybackState::Playing && !self.subtitles_checked {
            self.ask("strack"@, Phase::Subtitles)
        } else {
            self.audio_due()
        }
    }

    /// The track is told, if there is one; tracks need no second look once there were any.
    pub open spec fn subtitles_step(self, lines: Seq<Seq<char>>, alive: bool) -> (
        VlcModel,
        ActionModel,
    ) {
        let p = VlcModel {
            connected: alive,
            subtitles_checked: self.subtitles_checked || lines.len() > 0,
            ..self
        };
        match best_subtitle(lines) {
            Some(id) => if alive {
                p.tell("strack "@ + number::decimal_of(id as nat), Phase::SubtitleSet)
            } else {
                p.audio_due()
            },
            None => p.audio_due(),
        }
    }

    pub open spec fn audio_due(self) -> (VlcModel, ActionModel) {
        if self.state == PlaybackState::Playing && !self.audio_checked && self.connected {
            self.ask("atrack"@, Phase::Audio)
        } else {
            self.clock_due()
        }
    }

    pub open spec fn audio_step(self, lines: Seq<Seq<char>>, alive: bool) -> (
        VlcModel,
        ActionModel,
    ) {
        let p = VlcModel {
            connected: alive,
            audio_checked: self.audio_checked || lines.len() > 0,
            ..self
        };
        match first_english(lines, false) {
            Some(id) => if alive {
                p.tell("atrack "@ + number::decimal_of(id as nat), Phase::AudioSet)
            } else {
                p.clock_due()
            },
            None => p.clock_due(),
        }
    }

    pub open spec fn clock_due(self) -> (VlcModel, ActionModel) {
        if self.connected {
            self.ask("get_time"@, Phase::Clock)
        } else {
            self.give_up(false)
        }
    }

    /// A seek was asked under 1.2 s ago.
    pub open spec fn settling(self, now: nat) -> bool {
        self.pending_seek matches Some((_, issued)) && time::minus(now, issued) < time::millis(1200)
    }

    /// The position that VLC tells is taken over. While a seek settles it must be within 2 s of the
    /// target; else it must not fall back by over 2 s while the media loads, nor to zero from over
    /// 3 s.
    pub open spec fn accepts(self, sample: nat, now: nat) -> bool {
        if self.settling(now) {
            let (target, _) = self.pending_seek->0;
            time::minus(target, sample) + time::minus(sample, target) <= time::secs(2)
        } else if self.state == PlaybackState::Transitioning && sample + time::secs(2)
            < self.position {
            false
        } else {
            !(sample == 0 && self.position > time::secs(3))
        }
    }

    pub open spec fn sampled(self, lines: Seq<Seq<char>>, now: nat) -> VlcModel {
        match rc_seconds(lines) {
            Some(n) => if self.accepts(time::secs(n), now) {
                VlcModel {
                    position: time::secs(n),
                    pending_seek: None,
                    last_pos_time: now,
                    ..self
                }
            } else {
                self
            },
            None => self,
        }
    }

    pub open spec fn clock_step(self, lines: Seq<Seq<char>>, alive: bool, now: nat) -> (
        VlcModel,
        ActionModel,
    ) {
        if !alive {
            self.give_up(false)
        } else if time::whole_secs(self.duration) == 0 {
            self.sampled(lines, now).ask("get_length"@, Phase::Length)
        } else {
            self.sampled(lines, now).done()
        }
    }

    pub open spec fn length_step(self, lines: Seq<Seq<char>>, alive: bool) -> (
        VlcModel,
        ActionModel,
    ) {
        if !alive {
            self.give_up(false)
        } else {
            match rc_seconds(lines) {
                Some(n) => if n > 0 {
                    VlcModel { duration: time::secs(n), ..self }.done()
                } else {
                    self.done()
                },
                None => self.done(),
            }
        }
    }

    // Outcomes.

    /// The event is an outcome of the action under way.
    pub open spec fn awaits(self, event: Event) -> bool {
        match event {
            Event::Exited(_) => self.phase == Phase::Checking,
            Event::Connected(_) => self.phase == Phase::Reattaching || self.phase
                == Phase::Attaching,
            Event::Killed => self.phase == Phase::Replacing || self.phase == Phase::Abandoning
                || self.phase == Phase::Failing || self.phase == Phase::Leaving,
            Event::Launched(_) => self.phase == Phase::Launching,
            Event::Sent(_) => self.phase == Phase::Last || self.phase == Phase::Clearing
                || self.phase == Phase::Resuming || self.phase == Phase::Pausing || self.phase
                == Phase::Seeking || self.phase == Phase::Emptying || self.phase == Phase::Adding
                || self.phase == Phase::Quitting || self.phase == Phase::SubtitleSet || self.phase
                == Phase::AudioSet,
            Event::Reply(_, _) => self.phase == Phase::Tuning || self.phase == Phase::Status
                || self.phase == Phase::Active || self.phase == Phase::Subtitles || self.phase
                == Phase::Audio || self.phase == Phase::Clock || self.phase == Phase::Length,
        }
    }

    pub open spec fn killed_step(self) -> (VlcModel, ActionModel) {
        match self.phase {
            Phase::Replacing => self.launch(),
            Phase::Abandoning => self.failed("VLC is not available"@),
            Phase::Failing => self.failed("VLC remote-control connection was lost"@),
            _ => self.done(),
        }
    }

    pub open spec fn sent_step(self, ok: bool, now: nat) -> (VlcModel, ActionModel) {
        match self.phase {
            Phase::Clearing => self.after_sending(ok).tell_last("clear"@),
            Phase::Resuming => self.switched(PlaybackState::Playing, ok, now),
            Phase::Pausing => self.switched(PlaybackState::Paused, ok, now),
            Phase::Seeking => self.sought_step(ok, now),
            Phase::Emptying => self.emptied_step(ok),
            Phase::Adding => self.added_step(ok, now),
            Phase::Quitting => VlcModel { stopped_at: None, ..self }.give_up(false),
            Phase::SubtitleSet => self.after_sending(ok).audio_due(),
            Phase::AudioSet => self.after_sending(ok).clock_due(),
            _ => self.after_sending(ok).done(),
        }
    }

    pub open spec fn reply_step(self, lines: Seq<Seq<char>>, alive: bool, now: nat) -> (
        VlcModel,
        ActionModel,
    ) {
        match self.phase {
            Phase::Tuning => VlcModel { connected: alive, ..self }.start_step(),
            Phase::Status => self.status_step(lines, alive),
            Phase::Active => self.active_step(lines, alive, now),
            Phase::Subtitles => self.subtitles_step(lines, alive),
            Phase::Audio => self.audio_step(lines, alive),
            Phase::Clock => self.clock_step(lines, alive, now),
            _ => self.length_step(lines, alive),
        }
    }

    /// What the outcome of the action under way leads to.
    pub open spec fn resumed(self, event: Event, now: nat) -> (VlcModel, ActionModel) {
        match event {
            Event::Exited(gone) => self.exited_step(gone),
            Event::Connected(ok) => if self.phase == Phase::Attaching {
                self.attached_step(ok)
            } else {
                self.reattached_step(ok)
            },
            Event::Killed => self.killed_step(),
            Event::Launched(ok) => self.launched_step(ok),
            Event::Sent(ok) => self.sent_step(ok, now),
            Event::Reply(lines, alive) => self.reply_step(text::texts(lines@), alive, now),
        }
    }

    // Telling the position.

    /// The position: while the media plays it grows with the clock, by at most 950 ms beyond what
    /// VLC told, and not beyond the end.
    pub open spec fn estimated(self, now: nat) -> nat {
        if self.state == PlaybackState::Playing {
            let e = self.position + time::lesser(
                time::minus(now, self.last_pos_time),
                time::millis(950),
            );
            if time::whole_secs(self.duration) > 0 && e > self.duration {
                self.duration
            } else {
                e
            }
        } else {
            self.position
        }
    }

    /// The position, before it is held to the length, is not too large.
    pub open spec fn estimate_fits(self, now: nat) -> bool {
        self.state == PlaybackState::Playing ==> self.position + time::lesser(
            time::minus(now, self.last_pos_time),
            time::millis(950),
        ) <= time::MAX_NANOS
    }
}

fn command(words: &str, n: u64) -> (r: String)
    ensures
        r@ == words@ + number::decimal_of(n as nat),
{
    let mut s = words.to_owned();
    s.append(decimal(n).as_str());
    s
}

fn scaled_volume(volume: u8) -> (r: u64)
    ensures
        r == vlc_volume(volume),
{
    (volume as u64 * 256) / 100
}

/// The state to go on with, from the state so far, the state that VLC reports and whether it says
/// that it plays (or is paused).
pub fn choose_state(
    state: PlaybackState,
    reported: Option<PlaybackState>,
    active: Option<bool>,
    timed_out: bool,
    just_started: bool,
) -> (r: Option<PlaybackState>)
    ensures
        r == next_state(state, reported, active, timed_out, just_started),
{
    let loading: bool = state == PlaybackState::Transitioning;
    match (reported, active) {
        (Some(PlaybackState::Transitioning), _) => if timed_out {
            Some(PlaybackState::Stopped)
        } else {
            Some(PlaybackState::Transitioning)
        },
        (Some(PlaybackState::Stopped), Some(true)) | (None, Some(true)) => if state
            == PlaybackState::Paused {
            Some(PlaybackState::Paused)
        } else {
            Some(PlaybackState::Playing)
        },
        (Some(s), Some(true)) => Some(s),
        (Some(PlaybackState::Stopped), None) | (Some(_), Some(false)) => if loading
            && just_started {
            Some(PlaybackState::Transitioning)
        } else {
            Some(PlaybackState::Stopped)
        },
        (Some(s), None) => Some(s),
        (None, Some(false)) => if loading && !timed_out {
            Some(PlaybackState::Transitioning)
        } else {
            Some(PlaybackState::Stopped)
        },
        (None, None) => None,
    }
}

fn hears_new_input(lines: &Vec<String>) -> (r: bool)
    ensures
        r == tells_new_input(text::texts(lines@)),
{
    let ghost l = text::texts(lines@);
    for i in 0..lines.len()
        invariant
            l == text::texts(lines@),
            forall|k: int|
                0 <= k < i ==> !text::contains(
                    text::ascii_lower_of(#[trigger] l[k]),
                    "new input:"@,
                ),
    {
        assert(l[i as int] == lines@[i as int]@);
        if has(ascii_lower(lines[i].as_str()).as_str(), "new input:") {
            return true;
        }
    }
    false
}

impl VlcPlayer {
    /// A player without media or process, on the given platform.
    pub fn on_platform(windows: bool, now: Duration) -> (r: VlcPlayer)
        ensures
            r@ == new_player(windows, now@),
    {
        let r = VlcPlayer {
            windows,
            running: false,
            connected: false,
            rc_port: 52422,
            uri: String::new(),
            title: String::new(),
            loaded_uri: None,
            duration: Duration::zero(),
            position: Duration::zero(),
            last_pos_time: now,
            pending_seek: None,
            state: PlaybackState::Stopped,
            volume: 100,
            mute: false,
            transition_start: None,
            subtitles_checked: false,
            audio_checked: false,
            stopped_at: None,
            phase: Phase::Idle,
            heard: Vec::new(),
            seek_target: Duration::zero(),
        };
        assert(r@.heard =~= Seq::<Seq<char>>::empty());
        r
    }

    /// A player without media or process.
    pub fn new(now: Duration) -> (r: VlcPlayer)
        ensures
            exists|windows: bool| r@ == #[trigger] new_player(windows, now@),
    {
        VlcPlayer::on_platform(platform::is_windows(), now)
    }

    fn done(&mut self) -> (r: Action)
        ensures
            (final(self)@, r@) == old(self)@.done(),
    {
        self.phase = Phase::Idle;
        Action::Done
    }

    fn failed(&mut self, reason: &str) -> (r: Action)
        ensures
            (final(self)@, r@) == old(self)@.failed(reason@),
    {
        self.phase = Phase::Idle;
        Action::Failed(reason.to_owned())
    }

    fn tell(&mut self, command: String, phase: Phase) -> (r: Action)
        ensures
            (final(self)@, r@) == old(self)@.tell(command@, phase),
    {
        self.phase = phase;
        Action::Tell(command)
    }

    fn ask(&mut self, command: String, phase: Phase) -> (r: Action)
        ensures
            (final(self)@, r@) == old(self)@.ask(command@, phase),
    {
        self.phase = phase;
        Action::Ask(command)
    }

    fn tell_last(&mut self, command: String) -> (r: Action)
        ensures
            (final(self)@, r@) == old(self)@.tell_last(command@),
    {
        if self.connected {
            self.tell(command, Phase::Last)
        } else {
            self.done()
        }
    }

    /// Forgets the process and the connection; the process has to be ended.
    fn disconnect(&mut self)
        ensures
            final(self)@ == old(self)@.lost(),
    {
        self.running = false;
        self.connected = false;
        self.loaded_uri = None;
        self.pending_seek = None;
        self.state = PlaybackState::Stopped;
        self.transition_start = None;
        self.subtitles_checked = false;
        self.audio_checked = false;
    }

    fn give_up(&mut self, failed: bool) -> (r: Action)
        ensures
            (final(self)@, r@) == old(self)@.give_up(failed),
    {
        let running: bool = self.running;
        self.disconnect();
        if running {
            self.phase = if failed {
                Phase::Failing
            } else {
                Phase::Leaving
            };
            Action::Kill
        } else if failed {
            self.failed("VLC remote-control connection was lost")
        } else {
            self.done()
        }
    }

    fn launch(&mut self) -> (r: Action)
        ensures
            (final(self)@, r@) == old(self)@.launch(),
    {
        self.running = false;
        self.connected = false;
        self.phase = Phase::Launching;
        Action::Launch(vlc_args_on(self.windows, self.rc_port, "rc"))
    }

    fn take_exited(&mut self, gone: bool) -> (r: Action)
        ensures
            (final(self)@, r@) == old(self)@.exited_step(gone),
    {
        if gone {
            self.running = false;
            self.connected = false;
            self.loaded_uri = None;
            self.pending_seek = None;
            self.state = PlaybackState::Stopped;
            self.transition_start = None;
            self.launch()
        } else if self.connected {
            self.start()
        } else {
            self.phase = Phase::Reattaching;
            Action::Connect
        }
    }

    fn take_connected(&mut self, ok: bool) -> (r: Action)
        ensures
            (final(self)@, r@) == (if old(self)@.phase == Phase::Attaching {
                old(self)@.attached_step(ok)
            } else {
                old(self)@.reattached_step(ok)
            }),
    {
        if self.phase == Phase::Attaching {
            if ok {
                self.connected = true;
                let volume: u64 = scaled_volume(self.volume);
                self.ask(command("volume ", volume), Phase::Tuning)
            } else {
                self.running = false;
                self.phase = Phase::Abandoning;
                Action::Kill
            }
        } else if ok {
            self.connected = true;
            self.start()
        } else {
            self.running = false;
            self.connected = false;
            self.phase = Phase::Replacing;
            Action::Kill
        }
    }

    fn take_launched(&mut self, ok: bool) -> (r: Action)
        ensures
            (final(self)@, r@) == old(self)@.launched_step(ok),
    {
        if ok {
            self.running = true;
            self.phase = Phase::Attaching;
            Action::Connect
        } else {
            self.failed("VLC is not available")
        }
    }

    /// Has VLC been given the media?
    fn is_loaded(&self) -> (r: bool)
        ensures
            r == (self@.loaded_uri == Some(self@.uri)),
    {
        match &self.loaded_uri {
            Some(u) => same(u.as_str(), self.uri.as_str()),
            None => false,
        }
    }

    fn start(&mut self) -> (r: Action)
        ensures
            (final(self)@, r@) == old(self)@.start_step(),
    {
        if self.state == PlaybackState::Paused {
            if self.connected {
                self.tell("pause".to_owned(), Phase::Resuming)
            } else {
                self.give_up(true)
            }
        } else if self.state != PlaybackState::Stopped && self.is_loaded() {
            self.done()
        } else if self.connected {
            self.tell("clear".to_owned(), Phase::Emptying)
        } else {
            self.give_up(true)
        }
    }

    fn add(&mut self, ok: bool) -> (r: Action)
        ensures
            (final(self)@, r@) == old(self)@.emptied_step(ok),
    {
        if self.connected && ok {
            let mut s = "add ".to_owned();
            s.append(self.uri.as_str());
            self.tell(s, Phase::Adding)
        } else {
            self.give_up(true)
        }
    }

    fn take_added(&mut self, ok: bool, now: Duration) -> (r: Action)
        ensures
            (final(self)@, r@) == old(self)@.added_step(ok, now@),
    {
        if !ok {
            return self.give_up(true);
        }
        self.loaded_uri = Some(self.uri.clone());
        self.state = PlaybackState::Transitioning;
        self.transition_start = Some(now);
        self.stopped_at = None;
        self.last_pos_time = now;
        self.subtitles_checked = false;
        self.audio_checked = false;
        match self.pending_seek {
            Some((target, _)) => {
                self.pending_seek = Some((target, now));
                self.tell_last(command("seek ", target.as_secs()))
            },
            None => self.done(),
        }
    }

    fn switch(&mut self, state: PlaybackState, ok: bool, now: Duration) -> (r: Action)
        ensures
            (final(self)@, r@) == old(self)@.switched(state, ok, now@),
    {
        if ok {
            self.state = state;
            self.last_pos_time = now;
            self.done()
        } else {
            self.give_up(true)
        }
    }

    fn take_killed(&mut self) -> (r: Action)
        ensures
            (final(self)@, r@) == old(self)@.killed_step(),
    {
        match self.phase {
            Phase::Replacing => self.launch(),
            Phase::Abandoning => self.failed("VLC is not available"),
            Phase::Failing => self.failed("VLC remote-control connection was lost"),
            _ => self.done(),
        }
    }

    fn take_sent(&mut self, ok: bool, now: Duration) -> (r: Action)
        ensures
            (final(self)@, r@) == old(self)@.sent_step(ok, now@),
    {
        match self.phase {
            Phase::Clearing => {
                self.connected = self.connected && ok;
                self.tell_last("clear".to_owned())
            },
            Phase::Resuming => self.switch(PlaybackState::Playing, ok, now),
            Phase::Pausing => self.switch(PlaybackState::Paused, ok, now),
            Phase::Seeking => {
                if ok {
                    let target = self.seek_target;
                    self.position = target;
                    self.last_pos_time = now;
                    self.pending_seek = Some((target, now));
                    self.done()
                } else {
                    self.give_up(true)
                }
            },
            Phase::Emptying => self.add(ok),
            Phase::Adding => self.take_added(ok, now),
            Phase::Quitting => {
                self.stopped_at = None;
                self.give_up(false)
            },
            Phase::SubtitleSet => {
                self.connected = self.connected && ok;
                self.look_for_audio()
            },
            Phase::AudioSet => {
                self.connected = self.connected && ok;
                self.ask_clock()
            },
            _ => {
                self.connected = self.connected && ok;
                self.done()
            },
        }
    }

    /// Takes the state over that VLC tells.
    fn observe(&mut self, state: PlaybackState, now: Duration)
        ensures
            final(self)@ == old(self)@.observed(state, now@),
    {
        if self.state != state {
            if state == PlaybackState::Playing {
                self.transition_start = None;
                self.stopped_at = None;
                self.last_pos_time = now;
            } else if state == PlaybackState::Transitioning {
                self.stopped_at = None;
                self.subtitles_checked = false;
                self.audio_checked = false;
            } else if state == PlaybackState::Stopped {
                self.stopped_at = Some(now);
            }
        }
        self.state = state;
    }

    /// Takes over what the replies to `status` and `is_playing` tell.
    fn sync_state(&mut self, active: &Vec<String>, now: Duration)
        ensures
            final(self)@ == old(self)@.synced(text::texts(active@), now@),
    {
        let reported = parse_vlc_state(self.heard.as_slice());
        let playing = parse_rc_bool(active.as_slice());
        let (timed_out, just_started) = match self.transition_start {
            Some(start) => {
                let since = now.since(&start);
                (
                    Duration::from_secs(35).less_than(&since),
                    since.less_than(&Duration::from_secs(3)),
                )
            },
            None => (false, false),
        };
        if let Some(state) = choose_state(self.state, reported, playing, timed_out, just_started) {
            self.observe(state, now);
        }
    }

    fn idle_too_long(&self, now: Duration) -> (r: bool)
        ensures
            r == self@.idles(now@),
    {
        match self.stopped_at {
            Some(t) => self.state == PlaybackState::Stopped && Duration::from_secs(3).less_than(
                &now.since(&t),
            ),
            None => false,
        }
    }

    fn take_active(&mut self, lines: &Vec<String>, alive: bool, now: Duration) -> (r: Action)
        ensures
            (final(self)@, r@) == old(self)@.active_step(text::texts(lines@), alive, now@),
    {
        if !alive {
            return self.give_up(false);
        }
        let new_input: bool = hears_new_input(&self.heard);
        self.sync_state(lines, now);
        if self.idle_too_long(now) {
            return self.tell("quit".to_owned(), Phase::Quitting);
        }
        if new_input {
            self.subtitles_checked = false;
            self.audio_checked = false;
        }
        self.look_for_subtitles()
    }

    fn look_for_subtitles(&mut self) -> (r: Action)
        ensures
            (final(self)@, r@) == old(self)@.subtitles_due(),
    {
        if self.state == PlaybackState::Playing && !self.subtitles_checked {
            self.ask("strack".to_owned(), Phase::Subtitles)
        } else {
            self.look_for_audio()
        }
    }

    fn take_subtitles(&mut self, lines: &Vec<String>, alive: bool) -> (r: Action)
        ensures
            (final(self)@, r@) == old(self)@.subtitles_step(text::texts(lines@), alive),
    {
        self.connected = alive;
        self.subtitles_checked = self.subtitles_checked || lines.len() > 0;
        match find_best_subtitle_track(lines.as_slice()) {
            Some(id) => if alive {
                self.tell(command("strack ", id as u64), Phase::SubtitleSet)
            } else {
                self.look_for_audio()
            },
            None => self.look_for_audio(),
        }
    }

    fn look_for_audio(&mut self) -> (r: Action)
        ensures
            (final(self)@, r@) == old(self)@.audio_due(),
    {
        if self.state == PlaybackState::Playing && !self.audio_checked && self.connected {
            self.ask("atrack".to_owned(), Phase::Audio)
        } else {
            self.ask_clock()
        }
    }

    fn take_audio(&mut self, lines: &Vec<String>, alive: bool) -> (r: Action)
        ensures
            (final(self)@, r@) == old(self)@.audio_step(text::texts(lines@), alive),
    {
        self.connected = alive;
        self.audio_checked = self.audio_checked || lines.len() > 0;
        match find_best_audio_track(lines.as_slice()) {
            Some(id) => if alive {
                self.tell(command("atrack ", id as u64), Phase::AudioSet)
            } else {
                self.ask_clock()
            },
            None => self.ask_clock(),
        }
    }

    fn ask_clock(&mut self) -> (r: Action)
        ensures
            (final(self)@, r@) == old(self)@.clock_due(),
    {
        if self.connected {
            self.ask("get_time".to_owned(), Phase::Clock)
        } else {
            self.give_up(false)
        }
    }

    fn accepts_sample(&self, sample: Duration, now: Duration) -> (r: bool)
        ensures
            r == self@.accepts(sample@, now@),
    {
        if let Some((target, issued)) = self.pending_seek {
            if now.since(&issued).less_than(&Duration::from_millis(1200)) {
                return !Duration::from_secs(2).less_than(&target.abs_diff(&sample));
            }
        }
        if self.state == PlaybackState::Transitioning {
            if Duration::from_secs(2).less_than(&self.position.since(&sample)) {
                return false;
            }
        }
        !(sample.is_zero() && Duration::from_secs(3).less_than(&self.position))
    }

    fn take_clock(&mut self, lines: &Vec<String>, alive: bool, now: Duration) -> (r: Action)
        ensures
            (final(self)@, r@) == old(self)@.clock_step(text::texts(lines@), alive, now@),
    {
        if !alive {
            return self.give_up(false);
        }
        if let Some(sample) = parse_rc_seconds(lines.as_slice()) {
            if self.accepts_sample(sample, now) {
                self.position = sample;
                self.pending_seek = None;
                self.last_pos_time = now;
            }
        }
        if self.duration.as_secs() == 0 {
            self.ask("get_length".to_owned(), Phase::Length)
        } else {
            self.done()
        }
    }

    fn take_length(&mut self, lines: &Vec<String>, alive: bool) -> (r: Action)
        ensures
            (final(self)@, r@) == old(self)@.length_step(text::texts(lines@), alive),
    {
        if !alive {
            return self.give_up(false);
        }
        if let Some(length) = parse_rc_seconds(lines.as_slice()) {
            if !length.is_zero() {
                self.duration = length;
            }
        }
        self.done()
    }

    fn take_reply(&mut self, lines: Vec<String>, alive: bool, now: Duration) -> (r: Action)
        ensures
            (final(self)@, r@) == old(self)@.reply_step(text::texts(lines@), alive, now@),
    {
        match self.phase {
            Phase::Tuning => {
                self.connected = alive;
                self.start()
            },
            Phase::Status => {
                if alive {
                    self.heard = lines;
                    self.ask("is_playing".to_owned(), Phase::Active)
                } else {
                    self.give_up(false)
                }
            },
            Phase::Active => self.take_active(&lines, alive, now),
            Phase::Subtitles => self.take_subtitles(&lines, alive),
            Phase::Audio => self.take_audio(&lines, alive),
            Phase::Clock => self.take_clock(&lines, alive, now),
            _ => self.take_length(&lines, alive),
        }
    }

    /// Goes on with the request under way, whose last action had the given outcome.
    pub fn resume(&mut self, event: Event, now: Duration) -> (r: Action)
        requires
            old(self)@.awaits(event),
        ensures
            (final(self)@, r@) == old(self)@.resumed(event, now@),
    {
        match event {
            Event::Exited(gone) => self.take_exited(gone),
            Event::Connected(ok) => self.take_connected(ok),
            Event::Killed => self.take_killed(),
            Event::Launched(ok) => self.take_launched(ok),
            Event::Sent(ok) => self.take_sent(ok, now),
            Event::Reply(lines, alive) => self.take_reply(lines, alive, now),
        }
    }
}

impl MediaPlayer for VlcPlayer {
    open spec fn busy(&self) -> bool {
        self.phase != Phase::Idle
    }

    open spec fn media(&self) -> Seq<char> {
        self.uri@
    }

    open spec fn playback(&self) -> PlaybackState {
        self.state
    }

    open spec fn pausable(&self, now: Duration) -> bool {
        true
    }

    open spec fn placed(&self, now: Duration) -> bool {
        self@.estimate_fits(now@)
    }

    /// Replaces the media; VLC's playlist is cleared of other media, so that it cannot resume.
    fn set_uri(&mut self, uri: String, title: String, now: Duration) -> (r: Action)
        ensures
            (final(self)@, r@) == old(self)@.set_uri_step(uri@, title@, now@),
    {
        let other: bool = !same(self.uri.as_str(), uri.as_str());
        self.uri = uri;
        self.title = title;
        self.loaded_uri = None;
        self.position = Duration::zero();
        self.duration = Duration::zero();
        self.last_pos_time = now;
        self.pending_seek = None;
        self.state = PlaybackState::Stopped;
        self.transition_start = None;
        self.subtitles_checked = false;
        self.audio_checked = false;
        if other && self.connected {
            self.tell("stop".to_owned(), Phase::Clearing)
        } else {
            self.done()
        }
    }

    fn play(&mut self, now: Duration) -> (r: Action)
        ensures
            (final(self)@, r@) == old(self)@.play_step(),
    {
        if self.uri.as_str().is_empty() {
            self.failed("No URI set")
        } else if self.running {
            self.phase = Phase::Checking;
            Action::Check
        } else {
            self.launch()
        }
    }

    fn pause(&mut self, now: Duration) -> (r: Action)
        ensures
            (final(self)@, r@) == old(self)@.pause_step(),
    {
        if self.state == PlaybackState::Playing || self.state == PlaybackState::Transitioning {
            if self.connected {
                self.tell("pause".to_owned(), Phase::Pausing)
            } else {
                self.give_up(true)
            }
        } else {
            self.done()
        }
    }

    fn stop(&mut self, now: Duration) -> (r: Action)
        ensures
            (final(self)@, r@) == old(self)@.stop_step(now@),
    {
        self.state = PlaybackState::Stopped;
        self.stopped_at = Some(now);
        self.position = Duration::zero();
        self.last_pos_time = now;
        self.pending_seek = None;
        self.loaded_uri = None;
        self.transition_start = None;
        self.subtitles_checked = false;
        self.audio_checked = false;
        self.tell_last("stop".to_owned())
    }

    fn seek(&mut self, target: Duration, now: Duration) -> (r: Action)
        ensures
            (final(self)@, r@) == old(self)@.seek_step(target@, now@),
    {
        if self.uri.as_str().is_empty() {
            return self.failed("No URI set");
        }
        let target = if self.duration.is_zero() {
            target
        } else {
            target.min(&self.duration)
        };
        self.seek_target = target;
        if self.connected {
            self.tell(command("seek ", target.as_secs()), Phase::Seeking)
        } else {
            self.position = target;
            self.last_pos_time = now;
            self.pending_seek = Some((target, now));
            self.done()
        }
    }

    fn set_volume(&mut self, vol: u8) -> (r: Action)
        ensures
            (final(self)@, r@) == old(self)@.volume_step(vol),
    {
        self.volume = if vol <= 100 {
            vol
        } else {
            100
        };
        let volume: u64 = scaled_volume(self.volume);
        self.tell_last(command("volume ", volume))
    }

    fn set_mute(&mut self, mute: bool) -> (r: Action)
        ensures
            (final(self)@, r@) == old(self)@.mute_step(mute),
    {
        self.mute = mute;
        if mute {
            self.tell_last("volume 0".to_owned())
        } else {
            let volume: u64 = scaled_volume(self.volume);
            self.tell_last(command("volume ", volume))
        }
    }

    fn position_fits(&self, now: Duration) -> (r: bool) {
        if self.state == PlaybackState::Playing {
            let ahead = now.since(&self.last_pos_time).min(&Duration::from_millis(950));
            self.position.checked_plus(&ahead).is_some()
        } else {
            true
        }
    }

    fn get_position(&self, now: Duration) -> (r: (Duration, Duration))
        ensures
            r.0@ == self@.estimated(now@),
            r.1@ == self@.duration,
    {
        if self.state == PlaybackState::Playing {
            let ahead = now.since(&self.last_pos_time).min(&Duration::from_millis(950));
            let estimated = self.position.plus(&ahead);
            if self.duration.as_secs() > 0 && self.duration.less_than(&estimated) {
                (self.duration, self.duration)
            } else {
                (estimated, self.duration)
            }
        } else {
            (self.position, self.duration)
        }
    }

    fn get_state(&self) -> (r: PlaybackState) {
        self.state
    }

    fn current_uri(&self) -> (r: String) {
        self.uri.clone()
    }

    fn poll_sync(&mut self, now: Duration) -> (r: Action)
        ensures
            (final(self)@, r@) == old(self)@.poll_step(),
    {
        if self.connected {
            self.ask("status".to_owned(), Phase::Status)
        } else {
            self.done()
        }
    }
}

// ---------------------------------------------------------------------------------------------
// Laws
// ---------------------------------------------------------------------------------------------
/// Buffering is never taken for a stop, until it has lasted too long.
pub proof fn lemma_buffering_is_no_stop(
    state: PlaybackState,
    active: Option<bool>,
    just_started: bool,
)
    ensures
        next_state(state, Some(PlaybackState::Transitioning), active, false, just_started) == Some(
            PlaybackState::Transitioning,
        ),
        next_state(PlaybackState::Transitioning, None, Some(false), false, just_started) == Some(
            PlaybackState::Transitioning,
        ),
{
}

/// A stale report of a stop does not override that VLC has an active input.
pub proof fn lemma_stale_stop(state: PlaybackState, timed_out: bool, just_started: bool)
    ensures
        next_state(
            state,
            Some(PlaybackState::Stopped),
            Some(true),
            timed_out,
            just_started,
        ) == Some(
            if state == PlaybackState::Paused {
                PlaybackState::Paused
            } else {
                PlaybackState::Playing
            },
        ),
{
}

/// The position that is told never races ahead: it is at most 950 ms beyond what VLC told, and not
/// beyond the end of media of a second or more.
pub proof fn lemma_position_capped(p: VlcModel, now: nat)
    ensures
        p.estimated(now) <= p.position + time::millis(950),
        p.state == PlaybackState::Playing && time::whole_secs(p.duration) > 0 ==> p.estimated(now)
            <= p.duration,
        p.state != PlaybackState::Playing ==> p.estimated(now) == p.position,
{
}

/// The position that is told is not behind what VLC told, within the media.
pub proof fn lemma_position_not_behind(p: VlcModel, now: nat)
    requires
        time::whole_secs(p.duration) > 0 ==> p.position <= p.duration,
    ensures
        p.estimated(now) >= p.position,
{
}

/// The volume that VLC is told is at most full.
pub proof fn lemma_volume_scale(volume: u8)
    ensures
        vlc_volume(capped_volume(volume)) <= 256,
        vlc_volume(100) == 256,
        vlc_volume(0) == 0,
{
}

impl VlcModel {
    /// What holds between requests and while one is under way: a connection has a process, a
    /// command is told only through a connection, and a process is launched only where there is
    /// none.
    pub open spec fn consistent(self) -> bool {
        &&& self.volume <= 100
        &&& self.connected ==> self.running
        &&& match self.phase {
            Phase::Idle => true,
            Phase::Checking => self.running,
            Phase::Reattaching | Phase::Attaching => self.running && !self.connected,
            Phase::Replacing
            | Phase::Launching
            | Phase::Abandoning
            | Phase::Failing
            | Phase::Leaving => !self.running,
            _ => self.connected,
        }
    }
}

/// A step keeps to the protocol: the player awaits the outcomes of the action that it gives, and no
/// others; it is consistent; and it asks for a launch only where no process runs.
pub open spec fn sound_step(step: (VlcModel, ActionModel)) -> bool {
    &&& step.0.consistent()
    &&& step.1.unfinished() == (step.0.phase != Phase::Idle)
    &&& forall|e: Event| step.0.awaits(e) == #[trigger] step.1.suits(e)
    &&& step.1 is Launch ==> !step.0.running
    &&& step.1 is Tell || step.1 is Ask ==> step.0.connected
}

/// A new player is consistent.
pub proof fn lemma_new_player_consistent(windows: bool, now: nat)
    ensures
        new_player(windows, now).consistent(),
{
}

/// Every request that a consistent player takes is a sound step.
pub proof fn lemma_requests_sound(
    p: VlcModel,
    uri: Seq<char>,
    title: Seq<char>,
    target: nat,
    volume: u8,
    mute: bool,
    now: nat,
)
    requires
        p.consistent(),
        p.phase == Phase::Idle,
    ensures
        sound_step(p.set_uri_step(uri, title, now)),
        sound_step(p.play_step()),
        sound_step(p.pause_step()),
        sound_step(p.stop_step(now)),
        sound_step(p.seek_step(target, now)),
        sound_step(p.volume_step(volume)),
        sound_step(p.mute_step(mute)),
        sound_step(p.poll_step()),
{
}

/// The ways in which steps end are sound.
proof fn lemma_tails_sound(p: VlcModel)
    requires
        p.volume <= 100,
        p.connected ==> p.running,
    ensures
        sound_step(p.done()),
        sound_step(p.give_up(true)),
        sound_step(p.give_up(false)),
        sound_step(p.start_step()),
        sound_step(p.clock_due()),
        sound_step(p.audio_due()),
        p.connected ==> sound_step(p.subtitles_due()),
{
}

proof fn lemma_reply_sound(p: VlcModel, lines: Seq<Seq<char>>, alive: bool, now: nat)
    requires
        p.consistent(),
        p.phase == Phase::Tuning || p.phase == Phase::Status || p.phase == Phase::Active || p.phase
            == Phase::Subtitles || p.phase == Phase::Audio || p.phase == Phase::Clock || p.phase
            == Phase::Length,
    ensures
        sound_step(p.reply_step(lines, alive, now)),
{
    lemma_tails_sound(p);
    lemma_tails_sound(VlcModel { connected: alive, ..p });
    match p.phase {
        Phase::Active => {
            let q = p.synced(lines, now);
            assert(q.volume <= 100 && q.connected && q.running);
            lemma_tails_sound(q);
            lemma_tails_sound(VlcModel { subtitles_checked: false, audio_checked: false, ..q });
        },
        Phase::Subtitles => {
            lemma_tails_sound(
                VlcModel {
                    connected: alive,
                    subtitles_checked: p.subtitles_checked || lines.len() > 0,
                    ..p
                },
            );
        },
        Phase::Audio => {
            lemma_tails_sound(
                VlcModel {
                    connected: alive,
                    audio_checked: p.audio_checked || lines.len() > 0,
                    ..p
                },
            );
        },
        Phase::Clock => {
            let q = p.sampled(lines, now);
            assert(q.volume <= 100 && q.connected && q.running);
            lemma_tails_sound(q);
        },
        _ => {},
    }
}

/// Every outcome that a consistent player takes leads to a sound step. So a request can always be
/// driven on with the outcomes of its actions, there is never a second VLC process, and no command
/// is told without a connection.
pub proof fn lemma_outcomes_sound(p: VlcModel, event: Event, now: nat)
    requires
        p.consistent(),
        p.awaits(event),
    ensures
        sound_step(p.resumed(event, now)),
{
    match event {
        Event::Exited(_) => {
            lemma_tails_sound(p);
        },
        Event::Connected(_) => {
            lemma_tails_sound(VlcModel { connected: true, ..p });
        },
        Event::Killed => {},
        Event::Launched(_) => {},
        Event::Sent(ok) => {
            lemma_tails_sound(p);
            lemma_tails_sound(p.after_sending(ok));
            lemma_tails_sound(VlcModel { stopped_at: None, ..p });
        },
        Event::Reply(lines, alive) => {
            lemma_reply_sound(p, text::texts(lines@), alive, now);
        },
    }
}

/// How many outcomes a request still takes, at most.
pub open spec fn outcomes_left(phase: Phase) -> nat {
    match phase {
        Phase::Idle => 0,
        Phase::Last | Phase::Abandoning | Phase::Failing | Phase::Leaving => 1,
        Phase::Clearing
        | Phase::Resuming
        | Phase::Pausing
        | Phase::Seeking
        | Phase::Adding
        | Phase::Quitting
        | Phase::Length => 2,
        Phase::Emptying | Phase::Clock => 3,
        Phase::Tuning | Phase::AudioSet => 4,
        Phase::Attaching | Phase::Audio => 5,
        Phase::Launching | Phase::SubtitleSet => 6,
        Phase::Replacing | Phase::Subtitles => 7,
        Phase::Reattaching | Phase::Active => 8,
        Phase::Checking | Phase::Status => 9,
    }
}

proof fn lemma_sent_ends(p: VlcModel, ok: bool, now: nat)
    requires
        p.awaits(Event::Sent(ok)),
    ensures
        outcomes_left(p.sent_step(ok, now).0.phase) < outcomes_left(p.phase),
{
}

proof fn lemma_reply_ends(p: VlcModel, lines: Seq<Seq<char>>, alive: bool, now: nat)
    requires
        p.phase == Phase::Tuning || p.phase == Phase::Status || p.phase == Phase::Active || p.phase
            == Phase::Subtitles || p.phase == Phase::Audio || p.phase == Phase::Clock || p.phase
            == Phase::Length,
    ensures
        outcomes_left(p.reply_step(lines, alive, now).0.phase) < outcomes_left(p.phase),
{
}

/// Every outcome brings the request nearer to its end.
pub proof fn lemma_requests_end(p: VlcModel, event: Event, now: nat)
    requires
        p.awaits(event),
    ensures
        outcomes_left(p.resumed(event, now).0.phase) < outcomes_left(p.phase),
{
    match event {
        Event::Exited(_) => {},
        Event::Connected(_) => {},
        Event::Killed => {},
        Event::Launched(_) => {},
        Event::Sent(ok) => {
            lemma_sent_ends(p, ok, now);
        },
        Event::Reply(lines, alive) => {
            lemma_reply_ends(p, text::texts(lines@), alive, now);
        },
    }
}

/// `Play` is idempotent: media that VLC plays or loads is left alone.
pub proof fn lemma_play_idempotent(p: VlcModel)
    requires
        p.state == PlaybackState::Playing || p.state == PlaybackState::Transitioning,
        p.loaded_uri == Some(p.uri),
        p.connected,
    ensures
        p.exited_step(false) == p.done(),
{
}

/// VLC is authoritative: playing or pausing that it reports of an active input is taken over,
/// whatever the state was.
pub proof fn lemma_vlc_is_authoritative(
    state: PlaybackState,
    reported: PlaybackState,
    timed_out: bool,
    just_started: bool,
)
    requires
        reported == PlaybackState::Playing || reported == PlaybackState::Paused,
    ensures
        next_state(state, Some(reported), Some(true), timed_out, just_started) == Some(reported),
{
}

/// VLC that was closed is seen to have stopped: a poll whose connection is lost ends in a stopped
/// player without process or connection, which the next `Play` launches anew.
pub proof fn lemma_closed_is_stopped(p: VlcModel, lines: Seq<Seq<char>>, now: nat)
    requires
        p.phase == Phase::Status || p.phase == Phase::Active || p.phase == Phase::Clock || p.phase
            == Phase::Length,
    ensures
        ({
            let q = p.reply_step(lines, false, now).0;
            &&& q.state == PlaybackState::Stopped
            &&& !q.running && !q.connected
            &&& q.loaded_uri is None
            &&& q.uri == p.uri
            &&& q.uri.len() > 0 ==> q.play_step() == q.launch()
        }),
{
}

/// VLC is closed once it has been stopped for over 3 s, and only then: it is told to quit, and then
/// its process is ended.
pub proof fn lemma_idle_is_closed(p: VlcModel, lines: Seq<Seq<char>>, ok: bool, now: nat)
    requires
        p.running,
        p.connected,
        p.phase == Phase::Active,
    ensures
        ({
            let (q, action) = p.active_step(lines, true, now);
            &&& action is Tell <==> p.synced(lines, now).idles(now)
            &&& action is Tell ==> action == ActionModel::Tell("quit"@) && q.sent_step(ok, now).1
                is Kill && !q.sent_step(ok, now).0.running
        }),
{
}

/// One process serves all media: while it runs and is connected, `Play` launches no other.
pub proof fn lemma_process_reused(p: VlcModel)
    requires
        p.running,
        p.connected,
        p.uri.len() > 0,
    ensures
        p.play_step().1 is Check,
        !(p.exited_step(false).1 is Launch),
        p.exited_step(false).0.running,
{
}

/// Tracks are left alone where none is English: VLC is told none.
pub proof fn lemma_tracks_left_alone(p: VlcModel, lines: Seq<Seq<char>>, alive: bool)
    requires
        first_english(lines, false) is None,
    ensures
        best_subtitle(lines) is None,
        !(p.subtitles_step(lines, alive).1 is Tell),
        !(p.audio_step(lines, alive).1 is Tell),
{
    lemma_subtitle_choice(lines);
    let plain = |l: Seq<char>| english_track(l, false);
    text::lemma_first_some(lines, plain);
    if best_subtitle(lines) is Some {
        let i = choose|i: int|
            0 <= i < lines.len() && #[trigger] english_track(lines[i], false) is Some;
        assert(plain(lines[i]) is None);
    }
}

/// Setting media is a replacement: nothing is loaded, the position and the length start anew, and
/// what plays next is loaded from an empty playlist instead of resuming.
pub proof fn lemma_set_uri_replaces(p: VlcModel, uri: Seq<char>, title: Seq<char>, now: nat)
    ensures
        ({
            let q = p.set_uri_step(uri, title, now).0;
            &&& q.uri == uri
            &&& q.loaded_uri is None
            &&& q.position == 0 && q.duration == 0
            &&& q.state == PlaybackState::Stopped
            &&& q.connected ==> q.start_step() == q.tell("clear"@, Phase::Emptying)
        }),
{
}

/// A seek never leaves the media, where its length is known.
pub proof fn lemma_seek_clamped(p: VlcModel, target: nat, now: nat)
    requires
        p.uri.len() > 0,
        p.duration > 0,
    ensures
        p.connected ==> p.seek_step(target, now).0.sought_step(true, now).0.position <= p.duration,
        !p.connected ==> p.seek_step(target, now).0.position <= p.duration,
        target <= p.duration && p.connected ==> p.seek_step(target, now).0.sought_step(
            true,
            now,
        ).0.position == target,
{
}

/// While the media loads, what VLC tells never moves the position back by over 2 s, unless a seek
/// is settling; and while a seek settles, the position stays within 2 s of its target.
pub proof fn lemma_no_jump_back(p: VlcModel, lines: Seq<Seq<char>>, now: nat)
    ensures
        p.state == PlaybackState::Transitioning && !p.settling(now) ==> p.sampled(
            lines,
            now,
        ).position + time::secs(2) >= p.position,
        p.settling(now) && p.pending_seek == Some((p.position, p.last_pos_time)) ==> {
            let new = p.sampled(lines, now).position;
            time::minus(new, p.position) + time::minus(p.position, new) <= time::secs(2)
        },
{
}

/// Subtitles are chosen if and only if there is an English track, and with SDH if any English track
/// has it; a chosen track is one that is listed, never the entry for no track.
pub proof fn lemma_subtitle_choice(lines: Seq<Seq<char>>)
    ensures
        best_subtitle(lines) is Some <==> exists|i: int|
            0 <= i < lines.len() && #[trigger] english_track(lines[i], false) is Some,
        best_subtitle(lines) matches Some(id) ==> id >= 0 && exists|i: int|
            0 <= i < lines.len() && #[trigger] english_track(lines[i], false) == Some(id),
        (exists|i: int| 0 <= i < lines.len() && #[trigger] english_track(lines[i], true) is Some)
            ==> exists|i: int|
            0 <= i < lines.len() && #[trigger] english_track(lines[i], true) == best_subtitle(
                lines,
            ),
{
    let plain = |l: Seq<char>| english_track(l, false);
    let sdh = |l: Seq<char>| english_track(l, true);
    text::lemma_first_some(lines, plain);
    text::lemma_first_some(lines, sdh);
    assert forall|i: int| 0 <= i < lines.len() && #[trigger] english_track(
        lines[i],
        true,
    ) is Some implies english_track(lines[i], false) == english_track(lines[i], true) by {}
    if first_english(lines, true) is Some {
        let i = choose|i: int|
            0 <= i < lines.len() && #[trigger] sdh(lines[i]) == first_english(lines, true);
        assert(english_track(lines[i], true) == first_english(lines, true));
        assert(english_track(lines[i], false) is Some);
    } else if first_english(lines, false) is Some {
        let i = choose|i: int|
            0 <= i < lines.len() && #[trigger] plain(lines[i]) == first_english(lines, false);
        assert(english_track(lines[i], false) == first_english(lines, false));
    }
    if exists|i: int| 0 <= i < lines.len() && #[trigger] english_track(lines[i], false) is Some {
        let i = choose|i: int|
            0 <= i < lines.len() && #[trigger] english_track(lines[i], false) is Some;
        assert(plain(lines[i]) is Some);
    }
    if exists|i: int| 0 <= i < lines.len() && #[trigger] english_track(lines[i], true) is Some {
        let i = choose|i: int|
            0 <= i < lines.len() && #[trigger] english_track(lines[i], true) is Some;
        assert(sdh(lines[i]) is Some);
    }
}

proof fn lemma_skip_nothing<A, B>(a: Seq<A>, x: A, b: Seq<A>, f: spec_fn(A) -> Option<B>)
    requires
        f(x) is None,
    ensures
        text::first_some(a.push(x) + b, f) == text::first_some(a + b, f),
    decreases a.len(),
{
    let long = a.push(x) + b;
    let short = a + b;
    if a.len() == 0 {
        assert(long.drop_first() =~= b);
        assert(short =~= b);
    } else {
        assert(long.drop_first() =~= a.drop_first().push(x) + b);
        assert(short.drop_first() =~= a.drop_first() + b);
        lemma_skip_nothing(a.drop_first(), x, b, f);
    }
}

/// A line that lists no English track does not count, wherever it stands: neither the subtitles nor
/// the sound that are chosen depend on it.
pub proof fn lemma_other_tracks_do_not_count(
    before: Seq<Seq<char>>,
    line: Seq<char>,
    after: Seq<Seq<char>>,
)
    requires
        english_track(line, false) is None,
    ensures
        best_subtitle(before.push(line) + after) == best_subtitle(before + after),
        first_english(before.push(line) + after, false) == first_english(before + after, false),
{
    lemma_skip_nothing(before, line, after, |l: Seq<char>| english_track(l, false));
    lemma_skip_nothing(before, line, after, |l: Seq<char>| english_track(l, true));
}

/// VLC's clock is authoritative. What it answers is taken over to the second, whether it is ahead
/// of or behind the old position, except where one of these holds: a seek was asked under 1.2 s ago
/// and the answer is over 2 s from its target; no such seek, the media loads, and the answer is
/// over 2 s behind; no such seek, and the answer is zero from over 3 s. Then the position stays.
pub proof fn lemma_clock_is_authoritative(p: VlcModel, reply: Vec<String>, n: nat, now: nat)
    requires
        p.phase == Phase::Clock,
        rc_seconds(text::texts(reply@)) == Some(n),
    ensures
        ({
            let q = p.resumed(Event::Reply(reply, true), now).0;
            let told = n * 1_000_000_000;
            let old = p.position;
            let taken = q.position == told && q.last_pos_time == now && q.pending_seek is None;
            let kept = q.position == old && q.last_pos_time == p.last_pos_time && q.pending_seek
                == p.pending_seek;
            let loads = p.state == PlaybackState::Transitioning;
            let seeks = p.pending_seek matches Some((_, asked)) && now < asked + 1_200_000_000;
            let (target, _) = p.pending_seek->0;
            &&& q.state == p.state && q.running == p.running
            &&& seeks && told <= target + 2_000_000_000 && target <= told + 2_000_000_000 ==> taken
            &&& seeks && (told > target + 2_000_000_000 || target > told + 2_000_000_000) ==> kept
            &&& !seeks && !loads && n > 0 ==> taken
            &&& !seeks && loads && n > 0 && told + 2_000_000_000 >= old ==> taken
            &&& !seeks && loads && told + 2_000_000_000 < old ==> kept
            &&& !seeks && n == 0 && old > 3_000_000_000 ==> kept
            &&& !seeks && n == 0 && old <= 2_000_000_000 ==> taken
            &&& !seeks && n == 0 && !loads && old <= 3_000_000_000 ==> taken
        }),
{
}

/// A whole poll of a player that plays or is paused: VLC is asked `status`, `is_playing` and
/// `get_time`, and afterwards the state is the one that it told and the position the seconds that
/// it answered. So scrubbing, pausing and resuming in VLC's own window show up.
pub proof fn lemma_poll_follows_vlc(
    p: VlcModel,
    status: Vec<String>,
    active: Vec<String>,
    clock: Vec<String>,
    state: PlaybackState,
    n: nat,
    now: nat,
)
    requires
        p.phase == Phase::Idle,
        p.connected,
        p.state == PlaybackState::Playing || p.state == PlaybackState::Paused,
        p.pending_seek is None,
        p.subtitles_checked,
        p.audio_checked,
        p.duration >= 1_000_000_000,
        vlc_state(text::texts(status@)) == Some(state),
        state == PlaybackState::Playing || state == PlaybackState::Paused,
        !tells_new_input(text::texts(status@)),
        rc_bool(text::texts(active@)) == Some(true),
        rc_seconds(text::texts(clock@)) == Some(n),
        n > 0,
    ensures
        ({
            let (p1, a1) = p.poll_step();
            let (p2, a2) = p1.resumed(Event::Reply(status, true), now);
            let (p3, a3) = p2.resumed(Event::Reply(active, true), now);
            let (p4, a4) = p3.resumed(Event::Reply(clock, true), now);
            &&& a1 == ActionModel::Ask("status"@)
            &&& a2 == ActionModel::Ask("is_playing"@)
            &&& a3 == ActionModel::Ask("get_time"@)
            &&& a4 == ActionModel::Done
            &&& p4.state == state
            &&& p4.position == n * 1_000_000_000
            &&& p4.last_pos_time == now
            &&& p4.uri == p.uri && p4.loaded_uri == p.loaded_uri
        }),
{
}

/// What VLC's two answers make of the state, in every case in which the existing state or a report
/// has to be weighed: nothing to go by changes nothing; without an active input playback has
/// stopped, unless the media is still given time to load; an active input plays, or is paused if it
/// was.
pub proof fn lemma_state_is_weighed(
    state: PlaybackState,
    reported: PlaybackState,
    timed_out: bool,
    just_started: bool,
)
    ensures
        next_state(state, None, None, timed_out, just_started) is None,
        // Without a report.
        next_state(state, None, Some(true), timed_out, just_started) == Some(
            if state == PlaybackState::Paused {
                PlaybackState::Paused
            } else {
                PlaybackState::Playing
            },
        ),
        state != PlaybackState::Transitioning || timed_out ==> next_state(
            state,
            None,
            Some(false),
            timed_out,
            just_started,
        ) == Some(PlaybackState::Stopped),
        // With one.
        next_state(
            state,
            Some(PlaybackState::Transitioning),
            Some(false),
            true,
            just_started,
        ) == Some(PlaybackState::Stopped),
        next_state(
            state,
            Some(PlaybackState::Transitioning),
            Some(true),
            true,
            just_started,
        ) == Some(PlaybackState::Stopped),
        next_state(state, Some(PlaybackState::Transitioning), None, true, just_started) == Some(
            PlaybackState::Stopped,
        ),
        reported != PlaybackState::Transitioning && state == PlaybackState::Transitioning
            && just_started ==> next_state(
            state,
            Some(reported),
            Some(false),
            timed_out,
            just_started,
        ) == Some(PlaybackState::Transitioning),
        reported != PlaybackState::Transitioning && (state != PlaybackState::Transitioning
            || !just_started) ==> next_state(
            state,
            Some(reported),
            Some(false),
            timed_out,
            just_started,
        ) == Some(PlaybackState::Stopped),
        reported == PlaybackState::Playing || reported == PlaybackState::Paused ==> next_state(
            state,
            Some(reported),
            None,
            timed_out,
            just_started,
        ) == Some(reported),
        next_state(state, Some(PlaybackState::Stopped), None, timed_out, just_started) == Some(
            if state == PlaybackState::Transitioning && just_started {
                PlaybackState::Transitioning
            } else {
                PlaybackState::Stopped
            },
        ),
{
}

/// How long media may load: over 35 s after it was added, VLC that still buffers has stopped; up to
/// then it loads. A stop that VLC tells within the first 3 s is not believed.
pub proof fn lemma_loading_has_time(p: VlcModel, reply: Vec<String>, start: nat, now: nat)
    requires
        p.phase == Phase::Active,
        p.connected,
        p.state == PlaybackState::Transitioning,
        p.transition_start == Some(start),
        p.stopped_at is None,
    ensures
        ({
            let q = p.resumed(Event::Reply(reply, true), now).0;
            let silent = rc_bool(text::texts(reply@)) == Some(false);
            let told = vlc_state(p.heard);
            let late = now > start + 35_000_000_000;
            let early = now < start + 3_000_000_000;
            &&& told == Some(PlaybackState::Transitioning) && !late ==> q.state
                == PlaybackState::Transitioning && q.stopped_at is None
            &&& told == Some(PlaybackState::Transitioning) && late ==> q.state
                == PlaybackState::Stopped && q.stopped_at == Some(now)
            &&& told is None && silent && !late ==> q.state == PlaybackState::Transitioning
            &&& told is None && silent && late ==> q.state == PlaybackState::Stopped
            &&& told == Some(PlaybackState::Stopped) && silent && early ==> q.state
                == PlaybackState::Transitioning
            &&& told == Some(PlaybackState::Stopped) && silent && !early ==> q.state
                == PlaybackState::Stopped && q.stopped_at == Some(now)
            &&& told == Some(PlaybackState::Playing) && rc_bool(text::texts(reply@)) == Some(
                true,
            ) ==> q.state == PlaybackState::Playing && q.transition_start is None
                && q.last_pos_time == now
        }),
{
}

/// What a change that VLC tells brings with it: a stop is timed from now, playing ends the loading
/// and restarts the clock, loading looks for tracks anew; what stays as it is keeps everything.
pub proof fn lemma_change_is_noted(p: VlcModel, state: PlaybackState, now: nat)
    ensures
        ({
            let q = p.observed(state, now);
            &&& q.state == state
            &&& q.position == p.position && q.duration == p.duration && q.uri == p.uri
            &&& q.connected == p.connected && q.running == p.running && q.volume == p.volume
            &&& q.pending_seek == p.pending_seek && q.loaded_uri == p.loaded_uri
            &&& state == p.state ==> q == p
            &&& state == PlaybackState::Stopped && p.state != state ==> q.stopped_at == Some(now)
                && q.transition_start == p.transition_start && q.last_pos_time == p.last_pos_time
            &&& state == PlaybackState::Playing && p.state != state ==> q.stopped_at is None
                && q.transition_start is None && q.last_pos_time == now && q.subtitles_checked
                == p.subtitles_checked && q.audio_checked == p.audio_checked
            &&& state == PlaybackState::Transitioning && p.state != state ==> q.stopped_at is None
                && !q.subtitles_checked && !q.audio_checked && q.last_pos_time == p.last_pos_time
            &&& state == PlaybackState::Paused && p.state != state ==> q.stopped_at == p.stopped_at
                && q.last_pos_time == p.last_pos_time && q.transition_start == p.transition_start
        }),
{
}

/// VLC is told to quit exactly where playback has been stopped for over 3 s.
pub proof fn lemma_idle_time(p: VlcModel, since: nat, now: nat)
    requires
        p.stopped_at == Some(since),
    ensures
        p.idles(now) <==> p.state == PlaybackState::Stopped && now > since + 3_000_000_000,
        !(VlcModel { stopped_at: None, ..p }).idles(now),
{
}

/// The position that is told, to the nanosecond: while the media plays, the position and the time
/// since it was read, but no more than 950 ms of it and not beyond the end; else the position.
pub proof fn lemma_position_told(p: VlcModel, now: nat)
    requires
        now >= p.last_pos_time,
    ensures
        p.state != PlaybackState::Playing ==> p.estimated(now) == p.position,
        p.state == PlaybackState::Playing && p.duration < 1_000_000_000 && now - p.last_pos_time
            <= 950_000_000 ==> p.estimated(now) == p.position + (now - p.last_pos_time),
        p.state == PlaybackState::Playing && p.duration < 1_000_000_000 && now - p.last_pos_time
            >= 950_000_000 ==> p.estimated(now) == p.position + 950_000_000,
        p.state == PlaybackState::Playing && p.duration >= 1_000_000_000 && now - p.last_pos_time
            <= 950_000_000 && p.position + (now - p.last_pos_time) <= p.duration ==> p.estimated(now)
            == p.position + (now - p.last_pos_time),
        p.state == PlaybackState::Playing && p.duration >= 1_000_000_000 && now - p.last_pos_time
            >= 950_000_000 && p.position + 950_000_000 <= p.duration ==> p.estimated(now)
            == p.position + 950_000_000,
        p.state == PlaybackState::Playing && p.duration >= 1_000_000_000 && p.position
            >= p.duration ==> p.estimated(now) == p.duration,
{
}

/// The length that VLC answers is taken over, unless it is zero.
pub proof fn lemma_length_is_taken(p: VlcModel, reply: Vec<String>, n: nat, now: nat)
    requires
        p.phase == Phase::Length,
        rc_seconds(text::texts(reply@)) == Some(n),
    ensures
        ({
            let (q, action) = p.resumed(Event::Reply(reply, true), now);
            &&& action == ActionModel::Done
            &&& q.duration == if n > 0 {
                n * 1_000_000_000
            } else {
                p.duration
            }
            &&& q.position == p.position && q.state == p.state && q.uri == p.uri
        }),
{
}

/// The length is asked for exactly while it is not known to the second.
pub proof fn lemma_length_is_asked(p: VlcModel, reply: Vec<String>, now: nat)
    requires
        p.phase == Phase::Clock,
    ensures
        p.duration < 1_000_000_000 ==> p.resumed(Event::Reply(reply, true), now).1
            == ActionModel::Ask("get_length"@),
        p.duration >= 1_000_000_000 ==> p.resumed(Event::Reply(reply, true), now).1
            == ActionModel::Done,
{
}

// Sound.

/// VLC's volume is the volume in 256ths of full, rounded down: 100 is 256.
pub proof fn lemma_volume_exact(volume: u8)
    ensures
        100 * vlc_volume(volume) <= 256 * volume < 100 * vlc_volume(volume) + 100,
        volume <= 100 ==> capped_volume(volume) == volume,
        volume > 100 ==> capped_volume(volume) == 100,
{
}

/// Setting the volume stores it, at most 100, and tells VLC the number on its own scale; muting
/// tells VLC zero and keeps the volume; so unmuting undoes it: VLC is told what setting the
/// player's own volume tells, and after any volume, muting and unmuting end with the command of
/// that volume.
pub proof fn lemma_unmuting_restores(p: VlcModel, volume: u8, k: nat)
    requires
        p.connected,
        100 * k <= 256 * capped_volume(volume) < 100 * k + 100,
    ensures
        ({
            let (set, loud) = p.volume_step(volume);
            let ready = set.rested();
            let (muted, silence) = ready.mute_step(true);
            let (unmuted, again) = muted.rested().mute_step(false);
            &&& set.volume == capped_volume(volume) && set.mute == p.mute
            &&& loud == ActionModel::Tell("volume "@ + number::decimal_of(k))
            &&& silence == ActionModel::Tell("volume 0"@)
            &&& muted.mute && muted.volume == set.volume
            &&& again == loud
            &&& !unmuted.mute && unmuted.volume == set.volume
            &&& unmuted.position == p.position && unmuted.state == p.state && unmuted.uri == p.uri
        }),
        p.mute_step(false).1 == p.volume_step(p.volume).1 || p.volume > 100,
        p.mute_step(true).0.volume == p.volume,
        p.mute_step(false).0.volume == p.volume,
{
    lemma_volume_exact(capped_volume(volume));
}

/// Without a connection VLC is told nothing, but the volume and the muting are kept for later.
pub proof fn lemma_sound_without_vlc(p: VlcModel, volume: u8, mute: bool)
    requires
        !p.connected,
    ensures
        p.volume_step(volume).1 == ActionModel::Done,
        p.volume_step(volume).0.volume == capped_volume(volume),
        p.mute_step(mute).1 == ActionModel::Done,
        p.mute_step(mute).0.mute == mute,
        p.mute_step(mute).0.volume == p.volume,
{
}

// Playing, pausing, stopping and seeking.

/// Playing what rests, from the launch on: VLC is launched and connected, is given the volume, its
/// playlist is cleared and the media added; then the media loads.
pub proof fn lemma_play_from_the_start(p: VlcModel, reply: Vec<String>, k: nat, now: nat)
    requires
        !p.running,
        !p.connected,
        p.uri.len() > 0,
        p.state == PlaybackState::Stopped,
        p.pending_seek is None,
        100 * k <= 256 * p.volume < 100 * k + 100,
    ensures
        ({
            let (p1, a1) = p.play_step();
            let (p2, a2) = p1.resumed(Event::Launched(true), now);
            let (p3, a3) = p2.resumed(Event::Connected(true), now);
            let (p4, a4) = p3.resumed(Event::Reply(reply, true), now);
            let (p5, a5) = p4.resumed(Event::Sent(true), now);
            let (p6, a6) = p5.resumed(Event::Sent(true), now);
            &&& a1 is Launch
            &&& a2 == ActionModel::Connect
            &&& a3 == ActionModel::Ask("volume "@ + number::decimal_of(k))
            &&& a4 == ActionModel::Tell("clear"@)
            &&& a5 == ActionModel::Tell("add "@ + p.uri)
            &&& a6 == ActionModel::Done
            &&& p6.phase == Phase::Idle && p6.running && p6.connected
            &&& p6.state == PlaybackState::Transitioning
            &&& p6.loaded_uri == Some(p.uri) && p6.uri == p.uri
            &&& p6.transition_start == Some(now) && p6.stopped_at is None
            &&& !p6.subtitles_checked && !p6.audio_checked
            &&& p6.last_pos_time == now && p6.position == p.position && p6.volume == p.volume
        }),
{
    lemma_volume_exact(p.volume);
}

/// A seek that was asked before VLC ran is told once the media is added.
pub proof fn lemma_early_seek_is_told(p: VlcModel, target: nat, asked: nat, now: nat)
    requires
        p.phase == Phase::Adding,
        p.connected,
        p.pending_seek == Some((target, asked)),
    ensures
        p.resumed(Event::Sent(true), now).1 == ActionModel::Tell(
            "seek "@ + number::decimal_of(target / 1_000_000_000),
        ),
        p.resumed(Event::Sent(true), now).0.pending_seek == Some((target, now)),
        p.resumed(Event::Sent(true), now).0.state == PlaybackState::Transitioning,
{
}

/// Pausing and resuming tell VLC `pause`, and leave the media, its position and the volume alone.
pub proof fn lemma_pause_and_resume(p: VlcModel, now: nat, later: nat)
    requires
        p.running,
        p.connected,
        p.uri.len() > 0,
        p.state == PlaybackState::Playing || p.state == PlaybackState::Transitioning,
    ensures
        ({
            let (p1, a1) = p.pause_step();
            let (p2, a2) = p1.resumed(Event::Sent(true), now);
            let (p3, a3) = p2.play_step();
            let (p4, a4) = p3.resumed(Event::Exited(false), later);
            let (p5, a5) = p4.resumed(Event::Sent(true), later);
            &&& a1 == ActionModel::Tell("pause"@)
            &&& a2 == ActionModel::Done && p2.state == PlaybackState::Paused && p2.last_pos_time
                == now
            &&& a3 == ActionModel::Check
            &&& a4 == ActionModel::Tell("pause"@)
            &&& a5 == ActionModel::Done && p5.state == PlaybackState::Playing && p5.last_pos_time
                == later
            &&& p2.position == p.position && p5.position == p.position
            &&& p5.uri == p.uri && p5.loaded_uri == p.loaded_uri && p5.volume == p.volume
            &&& p5.duration == p.duration
        }),
        // What rests is not paused.
        p.pause_step().0.phase != Phase::Idle,
        ({
            let rests = VlcModel { state: PlaybackState::Stopped, ..p };
            rests.pause_step() == (rests.rested(), ActionModel::Done)
        }),
{
}

/// Stopping tells VLC `stop`, rewinds, and forgets what was loaded, but not the media.
pub proof fn lemma_stop_rewinds(p: VlcModel, now: nat)
    ensures
        ({
            let (q, action) = p.stop_step(now);
            &&& p.connected ==> action == ActionModel::Tell("stop"@)
            &&& !p.connected ==> action == ActionModel::Done
            &&& q.state == PlaybackState::Stopped && q.stopped_at == Some(now)
            &&& q.position == 0 && q.last_pos_time == now
            &&& q.loaded_uri is None && q.pending_seek is None && q.transition_start is None
            &&& q.uri == p.uri && q.duration == p.duration && q.volume == p.volume
            &&& q.running == p.running && q.connected == p.connected
        }),
{
}

/// Seeking tells VLC the whole seconds of the target, and the position is the target until VLC
/// tells another. The target is the one that was asked, or the end where that is nearer.
pub proof fn lemma_seek_is_told(p: VlcModel, target: nat, now: nat)
    requires
        p.uri.len() > 0,
    ensures
        ({
            let within = if p.duration > 0 && target > p.duration {
                p.duration
            } else {
                target
            };
            let (q, action) = p.seek_step(target, now);
            let sought = if p.connected {
                q.resumed(Event::Sent(true), now).0
            } else {
                q
            };
            &&& p.connected ==> action == ActionModel::Tell(
                "seek "@ + number::decimal_of(within / 1_000_000_000),
            )
            &&& !p.connected ==> action == ActionModel::Done
            &&& sought.position == within && sought.last_pos_time == now
            &&& sought.pending_seek == Some((within, now))
            &&& sought.state == p.state && sought.duration == p.duration && sought.uri == p.uri
            &&& sought.loaded_uri == p.loaded_uri
        }),
{
}

/// What goes wrong, and what is said of it: no media; no VLC, or none that answers; a connection
/// that is lost while a command is told, which ends the process.
pub proof fn lemma_failures(p: VlcModel, target: nat, now: nat)
    ensures
        p.uri.len() == 0 ==> p.play_step().1 == ActionModel::Failed("No URI set"@)
            && p.seek_step(target, now).1 == ActionModel::Failed("No URI set"@),
        p.phase == Phase::Launching ==> p.resumed(Event::Launched(false), now).1
            == ActionModel::Failed("VLC is not available"@),
        p.phase == Phase::Attaching ==> p.resumed(Event::Connected(false), now).1
            == ActionModel::Kill && p.resumed(Event::Connected(false), now).0.resumed(
            Event::Killed,
            now,
        ).1 == ActionModel::Failed("VLC is not available"@),
        p.running && (p.phase == Phase::Resuming || p.phase == Phase::Pausing || p.phase
            == Phase::Seeking || p.phase == Phase::Adding || p.phase == Phase::Emptying) ==> ({
            let (q, action) = p.resumed(Event::Sent(false), now);
            &&& action == ActionModel::Kill
            &&& q.state == PlaybackState::Stopped && !q.running && !q.connected
            &&& q.resumed(Event::Killed, now).1 == ActionModel::Failed(
                "VLC remote-control connection was lost"@,
            )
        }),
{
}

/// A process that has ended is replaced; one whose connection alone is gone is connected again, and
/// replaced only if that fails.
pub proof fn lemma_process_is_replaced(p: VlcModel, now: nat)
    requires
        p.phase == Phase::Checking,
        p.running,
    ensures
        p.resumed(Event::Exited(true), now).1 is Launch,
        p.resumed(Event::Exited(true), now).0.state == PlaybackState::Stopped,
        p.resumed(Event::Exited(true), now).0.loaded_uri is None,
        p.resumed(Event::Exited(true), now).0.pending_seek is None,
        p.resumed(Event::Exited(true), now).0.transition_start is None,
        p.resumed(Event::Exited(true), now).0.uri == p.uri,
        p.resumed(Event::Exited(true), now).0.volume == p.volume,
        !p.connected ==> ({
            let (q, action) = p.resumed(Event::Exited(false), now);
            &&& action == ActionModel::Connect
            &&& q.resumed(Event::Connected(false), now).1 == ActionModel::Kill
            &&& q.resumed(Event::Connected(false), now).0.resumed(Event::Killed, now).1 is Launch
            &&& !(q.resumed(Event::Connected(true), now).1 is Launch)
            &&& q.resumed(Event::Connected(true), now).0.state != PlaybackState::Stopped || p.state
                == PlaybackState::Stopped
        }),
{
}

/// Setting other media tells a connected VLC `stop` and then `clear`; the same media again tells it
/// nothing.
pub proof fn lemma_other_media_clears(p: VlcModel, uri: Seq<char>, title: Seq<char>, now: nat)
    requires
        p.connected,
    ensures
        p.uri != uri ==> p.set_uri_step(uri, title, now).1 == ActionModel::Tell("stop"@)
            && p.set_uri_step(uri, title, now).0.resumed(Event::Sent(true), now).1
            == ActionModel::Tell("clear"@),
        p.uri == uri ==> p.set_uri_step(uri, title, now).1 == ActionModel::Done,
        p.set_uri_step(uri, title, now).0.title == title,
        p.set_uri_step(uri, title, now).0.volume == p.volume,
{
}

// What VLC's lines tell.

/// The first line that is a number tells the seconds.
pub proof fn lemma_first_number_counts(lines: Seq<Seq<char>>, i: int, n: nat)
    requires
        0 <= i < lines.len(),
        text::trim_of(lines[i]) == number::decimal_of(n),
        n <= u64::MAX,
        forall|j: int| 0 <= j < i ==> #[trigger] seconds_in(lines[j]) is None,
    ensures
        rc_seconds(lines) == Some(n),
{
    let f = |l: Seq<char>| seconds_in(l);
    number::lemma_unsigned_of_decimal(n, u64::MAX as nat);
    assert forall|j: int| 0 <= j < i implies #[trigger] f(lines[j]) is None by {
        assert(seconds_in(lines[j]) is None);
    }
    text::lemma_first_is(lines, f, i);
}

/// The last line that is `0` or `1` tells whether VLC plays.
pub proof fn lemma_last_truth_counts(lines: Seq<Seq<char>>, i: int, truth: bool)
    requires
        0 <= i < lines.len(),
        text::trim_of(lines[i]) == if truth {
            "1"@
        } else {
            "0"@
        },
        forall|j: int|
            i < j < lines.len() ==> text::trim_of(#[trigger] lines[j]) != "1"@ && text::trim_of(
                lines[j],
            ) != "0"@,
    ensures
        rc_bool(lines) == Some(truth),
{
    reveal_strlit("0");
    reveal_strlit("1");
    assert("0"@[0] != "1"@[0]);
    let f = |l: Seq<char>| bool_in(l);
    assert forall|j: int| i < j < lines.len() implies #[trigger] f(lines[j]) is None by {
        assert(text::trim_of(lines[j]) != "1"@);
    }
    text::lemma_last_is(lines, f, i);
}

proof fn lemma_digits_lead(digits: Seq<char>, after: Seq<char>)
    requires
        number::all_digits(digits),
        after.len() > 0 ==> !text::is_digit(after[0]),
    ensures
        leading_digits(digits + after) == digits,
        digit_count(digits + after) == digits.len(),
    decreases digits.len(),
{
    let s = digits + after;
    if digits.len() > 0 {
        assert(text::is_digit(digits[0]));
        assert(s.drop_first() =~= digits.drop_first() + after);
        assert forall|i: int| 0 <= i < digits.len() - 1 implies text::is_digit(
            #[trigger] digits.drop_first()[i],
        ) by {
            assert(text::is_digit(digits[i + 1]));
        }
        lemma_digits_lead(digits.drop_first(), after);
    } else {
        assert(s =~= after);
    }
    assert(s.take(digits.len() as int) =~= digits);
}

proof fn lemma_small(s: Seq<char>)
    requires
        forall|i: int| 0 <= i < s.len() ==> !('A' <= #[trigger] s[i] <= 'Z'),
    ensures
        text::ascii_lower_of(s) == s,
{
    assert(text::ascii_lower_of(s) =~= s);
}

proof fn lemma_small_parts(a: Seq<char>, b: Seq<char>)
    ensures
        text::ascii_lower_of(a + b) == text::ascii_lower_of(a) + text::ascii_lower_of(b),
{
    assert(text::ascii_lower_of(a + b) =~= text::ascii_lower_of(a) + text::ascii_lower_of(b));
}

proof fn lemma_code_found(low: Seq<char>, rest: Seq<char>)
    requires
        !text::contains(low, "state:"@),
    ensures
        text::find_of(low + "state:"@ + rest, "state:"@) == Some(low.len() as int),
        (low + "state:"@ + rest).skip(low.len() as int + 6) == rest,
{
    reveal_strlit("state:");
    let l = low + "state:"@ + rest;
    let k = low.len() as int;
    assert(l.subrange(k, k + 6) =~= "state:"@);
    assert forall|j: int| 0 <= j < k implies !text::occurs_at(l, "state:"@, j) by {
        if text::occurs_at(l, "state:"@, j) {
            let p = l.subrange(j, j + 6);
            if j + 6 <= k {
                assert(low.subrange(j, j + 6) =~= p);
                assert(text::occurs_at(low, "state:"@, j));
            } else {
                assert(p[k - j] == l[k]);
                assert(l[k] == 's');
            }
        }
    }
    text::lemma_find_is(l, "state:"@, k);
    assert(l.skip(k + 6) =~= rest);
}

/// A line tells the number behind its first `state:`, in small letters or capitals, with white
/// space between them or not, and whatever follows the number.
pub proof fn lemma_state_line(before: Seq<char>, gap: Seq<char>, n: nat, after: Seq<char>)
    requires
        !text::contains(text::ascii_lower_of(before), "state:"@),
        forall|i: int| 0 <= i < gap.len() ==> text::is_white(#[trigger] gap[i]),
        n <= 255,
        after.len() > 0 ==> !text::is_digit(after[0]),
    ensures
        state_code(before + "state:"@ + (gap + (number::decimal_of(n) + after))) == Some(n),
        state_code(before + "STATE:"@ + (gap + (number::decimal_of(n) + after))) == Some(n),
        state_code(before) is None,
{
    reveal_strlit("state:");
    reveal_strlit("STATE:");
    let d = number::decimal_of(n);
    let low = text::ascii_lower_of(before);
    let end = text::ascii_lower_of(after);
    number::lemma_decimal_reads_back(n);
    number::lemma_unsigned_of_decimal(n, 255);
    assert(text::is_digit(d[0]));
    assert forall|i: int| 0 <= i < d.len() implies !('A' <= #[trigger] d[i] <= 'Z') by {
        assert(text::is_digit(d[i]));
    }
    lemma_small(d);
    lemma_small(gap);
    lemma_small("state:"@);
    assert(text::ascii_lower_of("STATE:"@) =~= "state:"@);
    let rest = gap + (d + after);
    lemma_small_parts(d, after);
    lemma_small_parts(gap, d + after);
    lemma_small_parts(before, "state:"@);
    lemma_small_parts(before + "state:"@, rest);
    lemma_small_parts(before, "STATE:"@);
    lemma_small_parts(before + "STATE:"@, rest);
    let told = gap + (d + end);
    assert(text::ascii_lower_of(rest) == told);
    lemma_code_found(low, told);
    assert forall|i: int| 0 <= i < gap.len() implies CharSet::White.has(#[trigger] gap[i]) by {
        assert(text::is_white(gap[i]));
    }
    assert((d + end)[0] == d[0]);
    text::lemma_trim_start_is(gap, d + end, CharSet::White);
    if after.len() > 0 {
        assert(end[0] == text::lower_char(after[0]));
    }
    lemma_digits_lead(d, end);
}

/// Of several lines that tell a state by its number the last counts; what the numbers stand for.
pub proof fn lemma_last_state_counts(lines: Seq<Seq<char>>, i: int, n: nat)
    requires
        0 <= i < lines.len(),
        state_code(lines[i]) == Some(n),
        forall|j: int| i < j < lines.len() ==> #[trigger] state_code(lines[j]) is None,
    ensures
        n == 3 ==> vlc_state(lines) == Some(PlaybackState::Playing),
        n == 4 ==> vlc_state(lines) == Some(PlaybackState::Paused),
        n == 1 || n == 2 ==> vlc_state(lines) == Some(PlaybackState::Transitioning),
        n == 0 || 5 <= n <= 7 ==> vlc_state(lines) == Some(PlaybackState::Stopped),
        n > 7 ==> vlc_state(lines) is None,
{
    let f = |l: Seq<char>| state_code(l);
    assert forall|j: int| i < j < lines.len() implies #[trigger] f(lines[j]) is None by {
        assert(state_code(lines[j]) is None);
    }
    text::lemma_last_is(lines, f, i);
}

/// Without a number, words tell the state: buffering and opening before playing, that before
/// paused, that before the words for a stop.
pub proof fn lemma_words_tell_state(lines: Seq<Seq<char>>)
    requires
        forall|j: int| 0 <= j < lines.len() ==> #[trigger] state_code(lines[j]) is None,
    ensures
        ({
            let said = text::ascii_lower_of(text::join_of(lines, " "@));
            let loads = text::contains(said, "buffer"@) || text::contains(said, "opening"@);
            let plays = text::contains(said, "playing"@);
            let rests = text::contains(said, "paused"@);
            let ends = text::contains(said, "stopped"@) || text::contains(said, "ended"@)
                || text::contains(said, "error"@);
            &&& loads ==> vlc_state(lines) == Some(PlaybackState::Transitioning)
            &&& !loads && plays ==> vlc_state(lines) == Some(PlaybackState::Playing)
            &&& !loads && !plays && rests ==> vlc_state(lines) == Some(PlaybackState::Paused)
            &&& !loads && !plays && !rests && ends ==> vlc_state(lines) == Some(
                PlaybackState::Stopped,
            )
            &&& !loads && !plays && !rests && !ends ==> vlc_state(lines) is None
        }),
{
    let f = |l: Seq<char>| state_code(l);
    assert forall|j: int| 0 <= j < lines.len() implies #[trigger] f(lines[j]) is None by {
        assert(state_code(lines[j]) is None);
    }
    text::lemma_none_is(lines, f);
}

/// A line `| n - description` lists the track `n` with that description, whether a star marks the
/// number or not and whatever white space surrounds the line; a number below zero lists none.
pub proof fn lemma_track_line(
    before: Seq<char>,
    n: nat,
    mark: Seq<char>,
    desc: Seq<char>,
    after: Seq<char>,
)
    requires
        forall|i: int| 0 <= i < before.len() ==> text::is_white(#[trigger] before[i]),
        forall|i: int| 0 <= i < after.len() ==> text::is_white(#[trigger] after[i]),
        n <= i32::MAX,
        mark == ""@ || mark == "*"@,
        desc.len() > 0,
        !text::is_white(desc.last()),
    ensures
        track_of(before + ("| "@ + number::decimal_of(n) + mark + " - "@ + desc) + after) == Some(
            (n as int, desc),
        ),
        n > 0 ==> track_of(
            before + ("| -"@ + number::decimal_of(n) + mark + " - "@ + desc) + after,
        ) is None,
{
    let d = number::decimal_of(n);
    let md = seq!['-'] + d;
    number::lemma_decimal_reads_back(n);
    number::lemma_unsigned_of_decimal(n, 0x7fff_ffff);
    assert(text::is_digit(d[0]));
    assert(text::is_digit(d[d.len() - 1]));
    assert forall|i: int| 0 <= i < d.len() implies #[trigger] d[i] != ' ' by {
        assert(text::is_digit(d[i]));
    }
    assert forall|i: int| 0 <= i < md.len() implies #[trigger] md[i] != ' ' by {
        if i > 0 {
            assert(md[i] == d[i - 1]);
        }
    }
    assert(md.last() == d[d.len() - 1]);
    lemma_numbered_line(before, d, mark, desc, after);
    lemma_numbered_line(before, md, mark, desc, after);
    assert(md.skip(1) =~= d);
    assert("| -"@ + d =~= "| "@ + md) by {
        reveal_strlit("| ");
        reveal_strlit("| -");
    }
}

proof fn lemma_numbered_line(
    before: Seq<char>,
    d: Seq<char>,
    mark: Seq<char>,
    desc: Seq<char>,
    after: Seq<char>,
)
    requires
        forall|i: int| 0 <= i < before.len() ==> text::is_white(#[trigger] before[i]),
        forall|i: int| 0 <= i < after.len() ==> text::is_white(#[trigger] after[i]),
        mark == ""@ || mark == "*"@,
        d.len() > 0,
        forall|i: int| 0 <= i < d.len() ==> #[trigger] d[i] != ' ',
        !text::is_white(d[0]) && d[0] != '*',
        !text::is_white(d.last()) && d.last() != '*',
        desc.len() > 0,
        !text::is_white(desc.last()),
    ensures
        track_of(before + ("| "@ + d + mark + " - "@ + desc) + after) == match number::signed_of(
            d,
        ) {
            Some(id) => if id >= 0 {
                Some((id, desc))
            } else {
                None
            },
            None => None,
        },
{
    reveal_strlit("| ");
    reveal_strlit(" - ");
    reveal_strlit("*");
    reveal_strlit("");
    let w = CharSet::White;
    let none = Seq::<char>::empty();
    assert(w.has(' '));
    assert(!w.has('|'));
    let core = "| "@ + d + mark + " - "@ + desc;
    assert(core[0] == '|' && core.last() == desc.last());
    assert forall|i: int| 0 <= i < before.len() implies w.has(#[trigger] before[i]) by {
        assert(text::is_white(before[i]));
    }
    assert forall|i: int| 0 <= i < after.len() implies w.has(#[trigger] after[i]) by {
        assert(text::is_white(after[i]));
    }
    text::lemma_strip_is(before, core, after, w);
    let id = d + mark;
    let clean = id + " - "@ + desc;
    assert(core.skip(1) =~= seq![' '] + clean + none);
    assert(clean[0] == d[0] && clean.last() == desc.last());
    text::lemma_strip_is(seq![' '], clean, none, w);
    lemma_first_gap(id, desc);
    assert(clean.take(id.len() as int) =~= id);
    assert(clean.skip(id.len() as int + 3) =~= desc);
    lemma_marked(d, mark);
}

proof fn lemma_first_gap(id: Seq<char>, desc: Seq<char>)
    requires
        forall|i: int| 0 <= i < id.len() ==> #[trigger] id[i] != ' ',
    ensures
        text::find_of(id + " - "@ + desc, " - "@) == Some(id.len() as int),
{
    reveal_strlit(" - ");
    let clean = id + " - "@ + desc;
    let k = id.len() as int;
    assert(clean.subrange(k, k + 3) =~= " - "@);
    assert forall|j: int| 0 <= j < k implies !text::occurs_at(clean, " - "@, j) by {
        if text::occurs_at(clean, " - "@, j) {
            assert(clean.subrange(j, j + 3)[0] == id[j]);
        }
    }
    text::lemma_find_is(clean, " - "@, k);
}

proof fn lemma_marked(d: Seq<char>, mark: Seq<char>)
    requires
        mark == ""@ || mark == "*"@,
        d.len() > 0,
        !text::is_white(d[0]) && d[0] != '*',
        !text::is_white(d.last()) && d.last() != '*',
    ensures
        text::trim_of(text::strip_of(text::trim_of(d + mark), CharSet::One('*'))) == d,
{
    reveal_strlit("*");
    reveal_strlit("");
    let none = Seq::<char>::empty();
    let id = d + mark;
    text::lemma_strip_keeps(id, CharSet::White);
    assert(id =~= none + d + mark);
    text::lemma_strip_is(none, d, mark, CharSet::One('*'));
    text::lemma_strip_keeps(d, CharSet::White);
}

/// A track is English whose description names English, or has the code `eng` as a word of its own,
/// in any case; one whose description does not even hold `eng` is not.
pub proof fn lemma_english_line(line: Seq<char>, id: int, desc: Seq<char>)
    requires
        track_of(line) == Some((id, desc)),
    ensures
        ({
            let told = text::lower_of(desc);
            &&& text::contains(told, "english"@) ==> english_track(line, false) == Some(id)
            &&& (exists|i: int|
                #[trigger] text::occurs_at(told, "eng"@, i) && (i > 0 ==> !('a' <= told[i - 1]
                    <= 'z') && told[i - 1] as u32 <= 127) && (i + 3 < told.len() ==> !('a'
                    <= told[i + 3] <= 'z') && !('A' <= told[i + 3] <= 'Z') && told[i + 3] as u32
                    <= 127) && (i > 0 ==> !('A' <= told[i - 1] <= 'Z'))) ==> english_track(
                line,
                false,
            ) == Some(id)
            &&& !text::contains(told, "eng"@) ==> english_track(line, false) is None
            &&& english_track(line, false) is Some && text::contains(told, "sdh"@)
                ==> english_track(line, true) == Some(id)
            &&& !text::contains(told, "sdh"@) ==> english_track(line, true) is None
        }),
{
    reveal_strlit("eng");
    reveal_strlit("english");
    let told = text::lower_of(desc);
    if exists|i: int|
        #[trigger] text::occurs_at(told, "eng"@, i) && (i > 0 ==> !('a' <= told[i - 1] <= 'z')
            && told[i - 1] as u32 <= 127) && (i + 3 < told.len() ==> !('a' <= told[i + 3] <= 'z')
            && !('A' <= told[i + 3] <= 'Z') && told[i + 3] as u32 <= 127) && (i > 0 ==> !('A'
            <= told[i - 1] <= 'Z')) {
        let i = choose|i: int|
            #[trigger] text::occurs_at(told, "eng"@, i) && (i > 0 ==> !('a' <= told[i - 1]
                <= 'z') && told[i - 1] as u32 <= 127) && (i + 3 < told.len() ==> !('a' <= told[i
                + 3] <= 'z') && !('A' <= told[i + 3] <= 'Z') && told[i + 3] as u32 <= 127) && (i
                > 0 ==> !('A' <= told[i - 1] <= 'Z'));
        assert(word_at(told, "eng"@, i));
    }
    if text::contains(told, "english"@) {
        let i = choose|i: int| text::occurs_at(told, "english"@, i);
        assert(told.subrange(i, i + 3) =~= told.subrange(i, i + 7).take(3));
        assert("english"@.take(3) =~= "eng"@);
        assert(text::occurs_at(told, "eng"@, i));
    }
    if has_word(told, "eng"@) {
        let i = choose|i: int| word_at(told, "eng"@, i);
        assert(text::occurs_at(told, "eng"@, i));
    }
}

/// The earliest track in the list counts. Of the sound tracks that a reply lists VLC is told the
/// first English one. Of the subtitle tracks it is told the first English one with SDH, and where
/// none has SDH the first English one.
pub proof fn lemma_earliest_track_counts(p: VlcModel, reply: Vec<String>, i: int, id: nat, now: nat)
    requires
        0 <= i < reply@.len(),
    ensures
        ({
            let lines = text::texts(reply@);
            let sound = VlcModel { phase: Phase::Audio, ..p };
            let subtitles = VlcModel { phase: Phase::Subtitles, ..p };
            let first = |sdh: bool|
                english_track(lines[i], sdh) == Some(id as int) && (forall|j: int|
                    0 <= j < i ==> #[trigger] english_track(lines[j], sdh) is None);
            let no_sdh = forall|j: int|
                0 <= j < lines.len() ==> #[trigger] english_track(lines[j], true) is None;
            &&& first(false) ==> sound.resumed(Event::Reply(reply, true), now).1
                == ActionModel::Tell("atrack "@ + number::decimal_of(id))
            &&& first(true) ==> subtitles.resumed(Event::Reply(reply, true), now).1
                == ActionModel::Tell("strack "@ + number::decimal_of(id))
            &&& no_sdh && first(false) ==> subtitles.resumed(Event::Reply(reply, true), now).1
                == ActionModel::Tell("strack "@ + number::decimal_of(id))
        }),
{
    let lines = text::texts(reply@);
    let plain = |l: Seq<char>| english_track(l, false);
    let sdh = |l: Seq<char>| english_track(l, true);
    if english_track(lines[i], false) is Some && (forall|j: int|
        0 <= j < i ==> #[trigger] english_track(lines[j], false) is None) {
        assert forall|j: int| 0 <= j < i implies #[trigger] plain(lines[j]) is None by {
            assert(english_track(lines[j], false) is None);
        }
        text::lemma_first_is(lines, plain, i);
    }
    if english_track(lines[i], true) is Some && (forall|j: int|
        0 <= j < i ==> #[trigger] english_track(lines[j], true) is None) {
        assert forall|j: int| 0 <= j < i implies #[trigger] sdh(lines[j]) is None by {
            assert(english_track(lines[j], true) is None);
        }
        text::lemma_first_is(lines, sdh, i);
    }
    if forall|j: int|
        0 <= j < lines.len() ==> #[trigger] english_track(lines[j], true) is None {
        assert forall|j: int| 0 <= j < lines.len() implies #[trigger] sdh(lines[j]) is None by {
            assert(english_track(lines[j], true) is None);
        }
        text::lemma_none_is(lines, sdh);
    }
}

/// The same of the lists themselves: the number of the first line that lists an English track.
pub proof fn lemma_earliest_track(lines: Seq<Seq<char>>, sdh: bool, i: int)
    requires
        0 <= i < lines.len(),
        english_track(lines[i], sdh) is Some,
        forall|j: int| 0 <= j < i ==> #[trigger] english_track(lines[j], sdh) is None,
    ensures
        first_english(lines, sdh) == english_track(lines[i], sdh),
        sdh ==> best_subtitle(lines) == english_track(lines[i], true),
{
    let f = |l: Seq<char>| english_track(l, sdh);
    assert forall|j: int| 0 <= j < i implies #[trigger] f(lines[j]) is None by {
        assert(english_track(lines[j], sdh) is None);
    }
    text::lemma_first_is(lines, f, i);
}

/// What completes a reply: a line that begins with `status: returned` or holds
/// `end of stream info`, whatever the command; a number, for the commands that ask for one.
pub proof fn lemma_reply_completed(
    line: Seq<char>,
    rest: Seq<char>,
    after: Seq<char>,
    cmd: Seq<char>,
)
    requires
        text::trim_of(line) == "status: returned"@ + rest || text::trim_of(line) == rest
            + "end of stream info"@ + after,
    ensures
        ends_reply(line),
        answered_by_number("is_playing"@),
        answered_by_number("get_time"@),
        answered_by_number("get_length"@),
        cmd != "is_playing"@ && cmd != "get_time"@ && cmd != "get_length"@
            ==> !answered_by_number(cmd),
{
    if text::trim_of(line) == rest + "end of stream info"@ + after {
        text::lemma_contains_part(rest, "end of stream info"@, after);
    } else {
        let t = "status: returned"@ + rest;
        assert(t.subrange(0, "status: returned"@.len() as int) =~= "status: returned"@);
    }
}

/// Tracks are asked for exactly once playback has begun and until an answer was not empty; a line
/// with `new input:`, in any case, starts anew.
pub proof fn lemma_tracks_are_asked(p: VlcModel, reply: Vec<String>, now: nat)
    requires
        p.connected,
        p.state == PlaybackState::Playing,
    ensures
        !p.subtitles_checked ==> p.subtitles_due().1 == ActionModel::Ask("strack"@),
        p.subtitles_checked && !p.audio_checked ==> p.subtitles_due().1 == ActionModel::Ask(
            "atrack"@,
        ),
        p.subtitles_checked && p.audio_checked ==> p.subtitles_due().1 == ActionModel::Ask(
            "get_time"@,
        ),
        ({
            let q = (VlcModel { phase: Phase::Subtitles, ..p }).resumed(
                Event::Reply(reply, true),
                now,
            ).0;
            &&& q.subtitles_checked == (p.subtitles_checked || reply@.len() > 0)
            &&& q.audio_checked == p.audio_checked && q.state == p.state && q.position
                == p.position
        }),
        ({
            let q = (VlcModel { phase: Phase::Audio, ..p }).resumed(
                Event::Reply(reply, true),
                now,
            ).0;
            &&& q.audio_checked == (p.audio_checked || reply@.len() > 0)
            &&& q.subtitles_checked == p.subtitles_checked && q.state == p.state && q.position
                == p.position
        }),
        // A track that was told is followed by the next question.
        !p.audio_checked ==> (VlcModel { phase: Phase::SubtitleSet, ..p }).resumed(
            Event::Sent(true),
            now,
        ).1 == ActionModel::Ask("atrack"@),
        (VlcModel { phase: Phase::AudioSet, ..p }).resumed(Event::Sent(true), now).1
            == ActionModel::Ask("get_time"@),
        tells_new_input(p.heard) && rc_bool(text::texts(reply@)) == Some(true) && vlc_state(p.heard)
            == Some(PlaybackState::Playing) ==> (VlcModel { phase: Phase::Active, ..p }).resumed(
            Event::Reply(reply, true),
            now,
        ).1 == ActionModel::Ask("strack"@),        tells_new_input(p.heard) && rc_bool(text::texts(reply@)) == Some(true) && vlc_state(p.heard)
            == Some(PlaybackState::Playing) ==> {
            let q = (VlcModel { phase: Phase::Active, ..p }).resumed(
                Event::Reply(reply, true),
                now,
            ).0;
            !q.subtitles_checked && !q.audio_checked
        },
{
}

/// A line tells of other media wherever `new input:` stands in it.
pub proof fn lemma_new_input_line(lines: Seq<Seq<char>>, i: int)
    requires
        0 <= i < lines.len(),
    ensures
        text::contains(text::ascii_lower_of(lines[i]), "new input:"@) ==> tells_new_input(lines),
        (forall|j: int|
            0 <= j < lines.len() ==> !text::contains(
                text::ascii_lower_of(#[trigger] lines[j]),
                "new input:"@,
            )) ==> !tells_new_input(lines),
{
}

/// A player begins without media, process or connection: stopped, at the beginning, at full volume,
/// and with the remote control at port 52422.
pub proof fn lemma_new_player_is(windows: bool, now: nat)
    ensures
        ({
            let p = new_player(windows, now);
            &&& !p.running && !p.connected && p.phase == Phase::Idle
            &&& p.uri.len() == 0 && p.loaded_uri is None && p.pending_seek is None
            &&& p.state == PlaybackState::Stopped && p.position == 0 && p.duration == 0
            &&& p.volume == 100 && !p.mute
            &&& p.rc_port == 52422 && p.windows == windows && p.last_pos_time == now
        }),
{
}

/// VLC is launched with the arguments that connect its remote control at the player's port.
pub proof fn lemma_launch_is_reachable(p: VlcModel)
    requires
        !p.running,
        p.uri.len() > 0,
    ensures
        p.play_step().1 matches ActionModel::Launch(args) && args[1] == "rc"@ && args[3]
            == "127.0.0.1:"@ + number::decimal_of(p.rc_port as nat),
{
    platform::lemma_vlc_is_controlled(p.windows, p.rc_port as nat, "rc"@);
}

/// A process that does not answer a poll is given up and ended: playback has stopped, and nothing
/// is loaded; the media and the volume stay.
pub proof fn lemma_lost_poll_stops(p: VlcModel, reply: Vec<String>, now: nat)
    requires
        p.running,
        p.phase == Phase::Status || p.phase == Phase::Active || p.phase == Phase::Clock || p.phase
            == Phase::Length,
    ensures
        ({
            let (q, action) = p.resumed(Event::Reply(reply, false), now);
            &&& action == ActionModel::Kill
            &&& q.state == PlaybackState::Stopped && !q.running && !q.connected
            &&& q.loaded_uri is None && q.pending_seek is None
            &&& q.uri == p.uri && q.title == p.title && q.volume == p.volume && q.mute == p.mute
            &&& q.resumed(Event::Killed, now).1 == ActionModel::Done
        }),
{
}

/// VLC that was told to quit is ended, whether the command got through or not.
pub proof fn lemma_quit_ends_process(p: VlcModel, ok: bool, now: nat)
    requires
        p.phase == Phase::Quitting,
        p.running,
    ensures
        ({
            let (q, action) = p.resumed(Event::Sent(ok), now);
            &&& action == ActionModel::Kill
            &&& !q.running && !q.connected && q.stopped_at is None
            &&& q.state == PlaybackState::Stopped
            &&& q.resumed(Event::Killed, now).1 == ActionModel::Done
        }),
{
}

/// A poll while playback has been stopped for over 3 s tells VLC `quit`.
pub proof fn lemma_idle_is_told_to_quit(p: VlcModel, reply: Vec<String>, since: nat, now: nat)
    requires
        p.phase == Phase::Active,
        p.state == PlaybackState::Stopped,
        p.stopped_at == Some(since),
        vlc_state(p.heard) == Some(PlaybackState::Stopped),
        rc_bool(text::texts(reply@)) == Some(false),
    ensures
        now > since + 3_000_000_000 ==> p.resumed(Event::Reply(reply, true), now).1
            == ActionModel::Tell("quit"@),
        now <= since + 3_000_000_000 && p.connected ==> p.resumed(
            Event::Reply(reply, true),
            now,
        ).1 == ActionModel::Ask("get_time"@),
{
}

/// Playing media that VLC does not have loads it, whatever else VLC plays; playing the media that
/// VLC plays or loads already tells it nothing.
pub proof fn lemma_unloaded_media_is_loaded(p: VlcModel, now: nat)
    requires
        p.phase == Phase::Checking,
        p.running,
        p.connected,
        p.state != PlaybackState::Paused,
    ensures
        p.loaded_uri != Some(p.uri) || p.state == PlaybackState::Stopped ==> p.resumed(
            Event::Exited(false),
            now,
        ).1 == ActionModel::Tell("clear"@),
        p.loaded_uri == Some(p.uri) && p.state != PlaybackState::Stopped ==> p.resumed(
            Event::Exited(false),
            now,
        ) == (VlcModel { phase: Phase::Idle, ..p }, ActionModel::Done),
{
}

/// The position can be told wherever it leaves room for 950 ms; without a connection a poll asks
/// nothing and changes nothing.
pub proof fn lemma_ordinary_positions_fit(p: VlcModel, now: nat)
    ensures
        p.position + 950_000_000 <= time::MAX_NANOS ==> p.estimate_fits(now),
        p.state != PlaybackState::Playing ==> p.estimate_fits(now),
        !p.connected && p.phase == Phase::Idle ==> p.poll_step() == (p, ActionModel::Done),
{
}

spec fn keeps_requests(p: VlcModel, q: VlcModel) -> bool {
    &&& q.uri == p.uri && q.title == p.title
    &&& q.volume == p.volume && q.mute == p.mute
    &&& q.rc_port == p.rc_port && q.windows == p.windows
}

proof fn lemma_small_steps_keep(p: VlcModel)
    ensures
        keeps_requests(p, p.give_up(true).0),
        keeps_requests(p, p.give_up(false).0),
        keeps_requests(p, p.launch().0),
        keeps_requests(p, p.start_step().0),
        keeps_requests(p, p.clock_due().0),
        keeps_requests(p, p.audio_due().0),
        keeps_requests(p, p.subtitles_due().0),
{
}

proof fn lemma_sent_keeps(p: VlcModel, ok: bool, now: nat)
    ensures
        keeps_requests(p, p.sent_step(ok, now).0),
{
    lemma_small_steps_keep(p);
    lemma_small_steps_keep(p.after_sending(ok));
    lemma_small_steps_keep(VlcModel { stopped_at: None, ..p });
}

proof fn lemma_synced_keeps(p: VlcModel, lines: Seq<Seq<char>>, now: nat)
    ensures
        keeps_requests(p, p.synced(lines, now)),
{
}

proof fn lemma_active_keeps(p: VlcModel, lines: Seq<Seq<char>>, alive: bool, now: nat)
    ensures
        keeps_requests(p, p.active_step(lines, alive, now).0),
{
    lemma_synced_keeps(p, lines, now);
    let q = p.synced(lines, now);
    lemma_small_steps_keep(p);
    lemma_small_steps_keep(q);
    lemma_small_steps_keep(VlcModel { subtitles_checked: false, audio_checked: false, ..q });
}

proof fn lemma_reply_keeps(p: VlcModel, lines: Seq<Seq<char>>, alive: bool, now: nat)
    ensures
        keeps_requests(p, p.reply_step(lines, alive, now).0),
{
    lemma_active_keeps(p, lines, alive, now);
    lemma_small_steps_keep(p);
    lemma_small_steps_keep(VlcModel { connected: alive, ..p });
    lemma_small_steps_keep(
        VlcModel {
            connected: alive,
            subtitles_checked: p.subtitles_checked || lines.len() > 0,
            ..p
        },
    );
    lemma_small_steps_keep(
        VlcModel { connected: alive, audio_checked: p.audio_checked || lines.len() > 0, ..p },
    );
}

/// Whatever comes of an action, the media that was asked for, its title, the volume and the muting
/// stay.
pub proof fn lemma_outcomes_keep_requests(p: VlcModel, event: Event, now: nat)
    ensures
        ({
            let q = p.resumed(event, now).0;
            &&& q.uri == p.uri && q.title == p.title
            &&& q.volume == p.volume && q.mute == p.mute
            &&& q.rc_port == p.rc_port && q.windows == p.windows
        }),
{
    lemma_small_steps_keep(p);
    match event {
        Event::Sent(ok) => {
            lemma_sent_keeps(p, ok, now);
        },
        Event::Reply(lines, alive) => {
            lemma_reply_keeps(p, text::texts(lines@), alive, now);
        },
        Event::Exited(_) => {
            lemma_small_steps_keep(p.ended());
        },
        Event::Connected(_) => {
            lemma_small_steps_keep(VlcModel { connected: true, ..p });
        },
        _ => {},
    }
    assert(keeps_requests(p, p.resumed(event, now).0));
}

/// Of VLC's answers only those to `get_time` and `get_length` move the position and the length; a
/// time that cannot be read moves neither.
pub proof fn lemma_answers_move_nothing_else(p: VlcModel, reply: Vec<String>, now: nat)
    requires
        p.connected,
    ensures
        ({
            let q = p.resumed(Event::Reply(reply, true), now).0;
            &&& p.phase == Phase::Status ==> q == (VlcModel {
                heard: text::texts(reply@),
                phase: Phase::Active,
                ..p
            })
            &&& p.phase == Phase::Active || p.phase == Phase::Subtitles || p.phase == Phase::Audio
                ==> q.position == p.position && q.duration == p.duration && q.pending_seek
                == p.pending_seek && q.loaded_uri == p.loaded_uri && q.running == p.running
            &&& p.phase == Phase::Subtitles || p.phase == Phase::Audio ==> q.state == p.state
                && q.last_pos_time == p.last_pos_time && q.stopped_at == p.stopped_at
            &&& p.phase == Phase::Clock ==> q.duration == p.duration && q.state == p.state
            &&& p.phase == Phase::Length ==> q.position == p.position && q.state == p.state
                && q.pending_seek == p.pending_seek && q.last_pos_time == p.last_pos_time
            &&& (p.phase == Phase::Clock || p.phase == Phase::Length) && rc_seconds(
                text::texts(reply@),
            ) is None ==> q.position == p.position && q.duration == p.duration
        }),
{
}

/// A command that does not get through takes the connection with it: nothing more is told.
pub proof fn lemma_lost_command_ends_connection(p: VlcModel, now: nat)
    requires
        p.phase == Phase::Clearing || p.phase == Phase::Last,
    ensures
        p.resumed(Event::Sent(false), now).1 == ActionModel::Done,
        !p.resumed(Event::Sent(false), now).0.connected,
        p.connected && p.phase == Phase::Last ==> p.resumed(Event::Sent(true), now) == (
            VlcModel { phase: Phase::Idle, ..p },
            ActionModel::Done,
        ),
{
}

/// Requests change what they are for: the volume, the muting, the pause and the seek leave the
/// media and all else alone.
pub proof fn lemma_requests_keep_the_rest(p: VlcModel, volume: u8, mute: bool)
    requires
        p.connected,
    ensures
        p.volume_step(volume).0 == (VlcModel {
            volume: capped_volume(volume),
            phase: Phase::Last,
            ..p
        }),
        p.mute_step(mute).0 == (VlcModel { mute, phase: Phase::Last, ..p }),
        p.state == PlaybackState::Playing || p.state == PlaybackState::Transitioning
            ==> p.pause_step().0 == (VlcModel { phase: Phase::Pausing, ..p }),
        p.poll_step().0 == (VlcModel { phase: Phase::Status, ..p }),
{
}

} // verus!
