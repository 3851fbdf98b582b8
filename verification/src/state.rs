//! What the renderer plays and how far it is, UPnP time values, and what DIDL-Lite tells of a
//! track.

use vstd::prelude::*;
use vstd::string::*;

use crate::number;
use crate::number::{decimal, two_digits, unsigned};
use crate::text;
use crate::text::{CharSet, find, replace, split, trim};
use crate::time;
use crate::time::Duration;

verus! {

// ---------------------------------------------------------------------------------------------
// State
// ---------------------------------------------------------------------------------------------
/// The `TransportState` variable of the AVTransport service.
#[derive(Debug, Clone, Copy, PartialEq, Eq, Structural)]
pub enum TransportState {
    Stopped,
    Playing,
    PausedPlayback,
    Transitioning,
    NoMediaPresent,
}

impl TransportState {
    /// The name that UPnP gives the state.
    pub open spec fn name(self) -> Seq<char> {
        match self {
            TransportState::Stopped => "STOPPED"@,
            TransportState::Playing => "PLAYING"@,
            TransportState::PausedPlayback => "PAUSED_PLAYBACK"@,
            TransportState::Transitioning => "TRANSITIONING"@,
            TransportState::NoMediaPresent => "NO_MEDIA_PRESENT"@,
        }
    }

    /// The name that UPnP gives the state.
    pub fn as_str(&self) -> (r: &'static str)
        ensures
            r@ == self.name(),
    {
        match self {
            TransportState::Stopped => "STOPPED",
            TransportState::Playing => "PLAYING",
            TransportState::PausedPlayback => "PAUSED_PLAYBACK",
            TransportState::Transitioning => "TRANSITIONING",
            TransportState::NoMediaPresent => "NO_MEDIA_PRESENT",
        }
    }
}

/// What the renderer reports of itself to control points.
#[derive(Debug, Clone)]
pub struct AVState {
    pub transport_state: TransportState,
    pub current_uri: String,
    /// DIDL-Lite, escaped once.
    pub current_metadata: String,
    pub title: String,
    pub duration: Duration,
    pub position: Duration,
    /// 0 to 100.
    pub volume: u8,
    pub mute: bool,
    pub track: u32,
    pub last_change_seq: u32,
    /// The clock when `position` was last set.
    pub last_updated: Duration,
    pub seekable: bool,
}

/// What an `AVState` holds, with texts as sequences and spans in nanoseconds.
pub struct AvModel {
    pub transport_state: TransportState,
    pub current_uri: Seq<char>,
    pub current_metadata: Seq<char>,
    pub title: Seq<char>,
    pub duration: nat,
    pub position: nat,
    pub volume: u8,
    pub mute: bool,
    pub track: u32,
    pub last_change_seq: u32,
    pub last_updated: nat,
    pub seekable: bool,
}

impl View for AVState {
    type V = AvModel;

    open spec fn view(&self) -> AvModel {
        AvModel {
            transport_state: self.transport_state,
            current_uri: self.current_uri@,
            current_metadata: self.current_metadata@,
            title: self.title@,
            duration: self.duration@,
            position: self.position@,
            volume: self.volume,
            mute: self.mute,
            track: self.track,
            last_change_seq: self.last_change_seq,
            last_updated: self.last_updated@,
            seekable: self.seekable,
        }
    }
}

/// The state of a renderer that has just started at the clock reading `now`.
pub open spec fn initial_state(now: nat) -> AvModel {
    AvModel {
        transport_state: TransportState::Stopped,
        current_uri: Seq::empty(),
        current_metadata: Seq::empty(),
        title: Seq::empty(),
        duration: 0,
        position: 0,
        volume: 50,
        mute: false,
        track: 0,
        last_change_seq: 0,
        last_updated: now,
        seekable: true,
    }
}

impl AVState {
    /// The state of a renderer that has just started.
    pub fn started_at(now: Duration) -> (r: AVState)
        ensures
            r@ == initial_state(now@),
    {
        AVState {
            transport_state: TransportState::Stopped,
            current_uri: String::new(),
            current_metadata: String::new(),
            title: String::new(),
            duration: Duration::zero(),
            position: Duration::zero(),
            volume: 50,
            mute: false,
            track: 0,
            last_change_seq: 0,
            last_updated: now,
            seekable: true,
        }
    }
}

/// The state that a renderer shares between its tasks, when it starts.
pub fn new_shared_state(now: Duration) -> (r: AVState)
    ensures
        r@ == initial_state(now@),
{
    AVState::started_at(now)
}

// ---------------------------------------------------------------------------------------------
// Time values
// ---------------------------------------------------------------------------------------------
/// Whole seconds as `H:MM:SS`.
pub open spec fn clock_text(total: nat) -> Seq<char> {
    number::decimal_of(total / 3600) + ":"@ + number::two_digits_of((total % 3600) / 60) + ":"@ + number::two_digits_of(
        total % 60,
    )
}

/// The span as `H:MM:SS`, without fractions of a second.
pub fn format_time(d: Duration) -> (r: String)
    ensures
        r@ == clock_text(time::whole_secs(d@)),
{
    let total: u64 = d.as_secs();
    let mut s = decimal(total / 3600);
    s.append(":");
    s.append(two_digits((total % 3600) / 60).as_str());
    s.append(":");
    s.append(two_digits(total % 60).as_str());
    s
}

/// `s` up to its first `c`, and what follows it; nothing follows where there is no `c`.
pub open spec fn cut_at(s: Seq<char>, c: Seq<char>) -> (Seq<char>, Seq<char>) {
    match text::find_of(s, c) {
        Some(i) => (s.take(i), s.skip(i + c.len())),
        None => (s, Seq::empty()),
    }
}

/// The milliseconds that the digits after a decimal point stand for; only the first three count.
pub open spec fn fraction_millis(f: Seq<char>) -> Option<nat> {
    if f.len() == 0 {
        Some(0)
    } else {
        let digits = if f.len() <= 3 {
            f
        } else {
            f.take(3)
        };
        match number::unsigned_of(digits, u64::MAX as nat) {
            Some(v) => Some(if digits.len() == 1 {
                v * 100
            } else if digits.len() == 2 {
                v * 10
            } else {
                v
            }),
            None => None,
        }
    }
}

/// The hours, minutes, seconds and milliseconds of `H+:MM:SS[.fraction]`.
pub open spec fn time_fields(s: Seq<char>) -> Option<(nat, nat, nat, nat)> {
    let parts = text::split_of(s, CharSet::One(':'));
    if parts.len() != 3 {
        None
    } else {
        let (whole, fraction) = cut_at(parts[2], "."@);
        match (
            number::unsigned_of(parts[0], u64::MAX as nat),
            number::unsigned_of(parts[1], u64::MAX as nat),
            number::unsigned_of(whole, u64::MAX as nat),
            fraction_millis(fraction),
        ) {
            (Some(h), Some(m), Some(sec), Some(ms)) => Some((h, m, sec, ms)),
            _ => None,
        }
    }
}

/// A time value of more seconds than 64 bits can count.
pub open spec fn time_overflows(s: Seq<char>) -> bool {
    time_fields(s) matches Some((h, m, sec, ms)) && h * 3600 + m * 60 + sec > u64::MAX
}

/// The nanoseconds that a time value stands for.
pub open spec fn time_of(s: Seq<char>) -> Option<nat> {
    match time_fields(s) {
        Some((h, m, sec, ms)) => Some(time::secs(h * 3600 + m * 60 + sec) + time::millis(ms)),
        None => None,
    }
}

/// The text up to the first `c` and what follows it.
fn cut<'a>(s: &'a str, c: &str) -> (r: (&'a str, &'a str))
    ensures
        (r.0@, r.1@) == cut_at(s@, c@),
{
    match find(s, c) {
        Some(i) => {
            let n: usize = s.unicode_len();
            let m: usize = c.unicode_len();
            assert(s@.subrange(0, i as int) =~= s@.take(i as int));
            assert(s@.subrange(i + m, n as int) =~= s@.skip(i + m));
            (s.substring_char(0, i), s.substring_char(i + m, n))
        },
        None => {
            let n: usize = s.unicode_len();
            assert(s@.subrange(n as int, n as int) =~= Seq::<char>::empty());
            (s, s.substring_char(n, n))
        },
    }
}

fn millis_of_fraction(f: &str) -> (r: Option<u64>)
    ensures
        match (r, fraction_millis(f@)) {
            (Some(n), Some(m)) => n == m && n <= 999,
            (None, None) => true,
            _ => false,
        },
{
    let n: usize = f.unicode_len();
    if n == 0 {
        return Some(0);
    }
    let k: usize = if n <= 3 {
        n
    } else {
        3
    };
    let digits: &str = f.substring_char(0, k);
    assert(digits@ =~= if f@.len() <= 3 {
        f@
    } else {
        f@.take(3)
    });
    match unsigned(digits, u64::MAX) {
        Some(v) => {
            proof {
                lemma_short_value(digits@);
            }
            let scale: u64 = if k == 1 {
                100
            } else if k == 2 {
                10
            } else {
                1
            };
            Some(v * scale)
        },
        None => None,
    }
}

/// Up to three characters stand for a number with as many digits.
proof fn lemma_short_value(s: Seq<char>)
    requires
        1 <= s.len() <= 3,
    ensures
        number::unsigned_of(s, u64::MAX as nat) matches Some(v) ==> v < tens(s.len()),
        tens(1) == 10,
        tens(2) == 100,
        tens(3) == 1000,
{
    reveal_with_fuel(tens, 4);
    let d = number::without_plus(s);
    if d.len() > 0 && number::all_digits(d) {
        lemma_value_below(d);
    }
}

/// Ten to the power of `n`.
spec fn tens(n: nat) -> nat
    decreases n,
{
    if n == 0 {
        1
    } else {
        10 * tens((n - 1) as nat)
    }
}

/// The value of digits has no more digits than they are.
proof fn lemma_value_below(d: Seq<char>)
    requires
        number::all_digits(d),
    ensures
        number::decimal_value(d) < tens(d.len()),
    decreases d.len(),
{
    if d.len() > 0 {
        assert(text::is_digit(d[d.len() - 1]));
        assert forall|i: int| 0 <= i < d.drop_last().len() implies text::is_digit(
            #[trigger] d.drop_last()[i],
        ) by {
            assert(text::is_digit(d[i]));
        }
        lemma_value_below(d.drop_last());
    }
}

/// A time value of more seconds than 64 bits can count: is the text one?
pub fn is_time_too_long(s: &str) -> (r: bool)
    ensures
        r == time_overflows(s@),
{
    match fields(s) {
        Some((h, m, sec, _)) => h as u128 * 3600 + m as u128 * 60 + sec as u128 > u64::MAX as u128,
        None => false,
    }
}

fn fields(s: &str) -> (r: Option<(u64, u64, u64, u64)>)
    ensures
        match (r, time_fields(s@)) {
            (Some((h, m, sec, ms)), Some(f)) => f == (h as nat, m as nat, sec as nat, ms as nat)
                && ms <= 999,
            (None, None) => true,
            _ => false,
        },
{
    let parts: Vec<String> = split(s, CharSet::One(':'));
    let ghost p = text::split_of(s@, CharSet::One(':'));
    if parts.len() != 3 {
        return None;
    }
    assert(p[0] == parts@[0]@ && p[1] == parts@[1]@ && p[2] == parts@[2]@);
    let (whole, fraction) = cut(parts[2].as_str(), ".");
    match (
        unsigned(parts[0].as_str(), u64::MAX),
        unsigned(parts[1].as_str(), u64::MAX),
        unsigned(whole, u64::MAX),
        millis_of_fraction(fraction),
    ) {
        (Some(h), Some(m), Some(sec), Some(ms)) => Some((h, m, sec, ms)),
        _ => None,
    }
}

/// The span that a UPnP time value `H+:MM:SS[.fraction]` stands for.
///
/// The value must not be of more seconds than 64 bits can count.
pub fn parse_time(s: &str) -> (r: Option<Duration>)
    requires
        !time_overflows(s@),
    ensures
        match (r, time_of(s@)) {
            (Some(d), Some(n)) => d@ == n,
            (None, None) => true,
            _ => false,
        },
{
    match fields(s) {
        Some((h, m, sec, ms)) => {
            assert(h * 3600 + m * 60 + sec <= u64::MAX);
            let d = Duration::from_secs(h * 3600 + m * 60 + sec);
            Some(d.plus(&Duration::from_millis(ms)))
        },
        None => None,
    }
}

// ---------------------------------------------------------------------------------------------
// DIDL-Lite
// ---------------------------------------------------------------------------------------------
/// `s` with the five XML entities resolved, `&amp;` after the angle brackets and before the
/// quotes.
pub open spec fn unescape_of(s: Seq<char>) -> Seq<char> {
    let a = text::replace_of(s, "&lt;"@, "<"@);
    let b = text::replace_of(a, "&gt;"@, ">"@);
    let c = text::replace_of(b, "&amp;"@, "&"@);
    let d = text::replace_of(c, "&quot;"@, "\""@);
    text::replace_of(d, "&apos;"@, "'"@)
}

/// The trimmed text between the first `open` in `s` and the first `close` from there on, if it is
/// not empty.
pub open spec fn element_of(s: Seq<char>, open: Seq<char>, close: Seq<char>) -> Option<Seq<char>> {
    match text::find_of(s, open) {
        Some(i) => match text::find_of(s.skip(i), close) {
            Some(e) => {
                let inner = text::trim_of(s.subrange(i + open.len(), i + e));
                if inner.len() > 0 {
                    Some(inner)
                } else {
                    None
                }
            },
            None => None,
        },
        None => None,
    }
}

/// The first of two that is there.
pub open spec fn either<A>(a: Option<A>, b: Option<A>) -> Option<A> {
    match a {
        Some(x) => Some(x),
        None => b,
    }
}

/// The title in DIDL-Lite that is not escaped.
pub open spec fn title_in(s: Seq<char>) -> Option<Seq<char>> {
    either(
        element_of(s, "<dc:title>"@, "</dc:title>"@),
        element_of(s, "<title>"@, "</title>"@),
    )
}

/// The artist in DIDL-Lite that is not escaped.
pub open spec fn artist_in(s: Seq<char>) -> Option<Seq<char>> {
    either(
        element_of(s, "<upnp:artist>"@, "</upnp:artist>"@),
        either(
            element_of(s, "<dc:creator>"@, "</dc:creator>"@),
            element_of(s, "<artist>"@, "</artist>"@),
        ),
    )
}

/// The text of the first `duration` attribute in DIDL-Lite that is not escaped.
pub open spec fn duration_text_in(s: Seq<char>) -> Option<Seq<char>> {
    match text::find_of(s, "duration=\""@) {
        Some(i) => {
            let after = s.skip(i + 10);
            match text::find_of(after, "\""@) {
                Some(e) => Some(after.take(e)),
                None => None,
            }
        },
        None => None,
    }
}

/// The text of an option, empty where there is none.
pub open spec fn or_empty(t: Option<Seq<char>>) -> Seq<char> {
    match t {
        Some(s) => s,
        None => Seq::empty(),
    }
}

/// The `duration` attribute is a time value of more seconds than 64 bits can count.
pub open spec fn duration_overflows(didl: Seq<char>) -> bool {
    duration_text_in(unescape_of(didl)) matches Some(t) && time_overflows(t)
}

/// The length in nanoseconds that the DIDL-Lite text tells.
pub open spec fn didl_duration(didl: Seq<char>) -> Option<nat> {
    match duration_text_in(unescape_of(didl)) {
        Some(t) => time_of(t),
        None => None,
    }
}

/// The text with the five XML entities resolved.
pub fn unescape(s: &str) -> (r: String)
    ensures
        r@ == unescape_of(s@),
{
    proof {
        reveal_strlit("&lt;");
        reveal_strlit("&gt;");
        reveal_strlit("&amp;");
        reveal_strlit("&quot;");
        reveal_strlit("&apos;");
    }
    let a = replace(s, "&lt;", "<");
    let b = replace(a.as_str(), "&gt;", ">");
    let c = replace(b.as_str(), "&amp;", "&");
    let d = replace(c.as_str(), "&quot;", "\"");
    replace(d.as_str(), "&apos;", "'")
}

/// No `close` can begin inside an `open`.
pub open spec fn apart(open: Seq<char>, close: Seq<char>) -> bool {
    &&& open.len() >= 2
    &&& close.len() >= 2
    &&& open[1] != close[1]
    &&& forall|k: int| 1 <= k < open.len() ==> open[k] != close[0]
}

/// Where a text begins with `open`, a `close` in it lies behind.
proof fn lemma_close_behind(s: Seq<char>, open: Seq<char>, close: Seq<char>, e: int)
    requires
        apart(open, close),
        text::occurs_at(s, open, 0),
        text::occurs_at(s, close, e),
    ensures
        e >= open.len(),
{
    if e < open.len() {
        assert(s.subrange(0, open.len() as int)[e] == s[e]);
        assert(s.subrange(e, e + close.len())[0] == s[e]);
        if e == 0 {
            assert(s.subrange(0, open.len() as int)[1] == s[1]);
            assert(s.subrange(0, close.len() as int)[1] == s[1]);
        }
    }
}

fn element(s: &str, open: &str, close: &str) -> (r: Option<String>)
    requires
        apart(open@, close@),
    ensures
        match (r, element_of(s@, open@, close@)) {
            (Some(x), Some(y)) => x@ == y,
            (None, None) => true,
            _ => false,
        },
{
    match find(s, open) {
        Some(i) => {
            let n: usize = s.unicode_len();
            let m: usize = open.unicode_len();
            let rest: &str = s.substring_char(i, n);
            assert(rest@ =~= s@.skip(i as int));
            match find(rest, close) {
                Some(e) => {
                    proof {
                        assert(rest@.subrange(0, m as int) =~= s@.subrange(i as int, i + m));
                        lemma_close_behind(rest@, open@, close@, e as int);
                    }
                    let inner: &str = trim(s.substring_char(i + m, i + e));
                    if inner.is_empty() {
                        None
                    } else {
                        Some(inner.to_owned())
                    }
                },
                None => None,
            }
        },
        None => None,
    }
}

/// The title that escaped DIDL-Lite gives, empty where it gives none.
pub fn extract_title_from_didl(didl_escaped: &str) -> (r: String)
    ensures
        r@ == or_empty(title_in(unescape_of(didl_escaped@))),
{
    proof {
        reveal_strlit("<dc:title>");
        reveal_strlit("</dc:title>");
        reveal_strlit("<title>");
        reveal_strlit("</title>");
    }
    let s = unescape(didl_escaped);
    if let Some(t) = element(s.as_str(), "<dc:title>", "</dc:title>") {
        return t;
    }
    if let Some(t) = element(s.as_str(), "<title>", "</title>") {
        return t;
    }
    String::new()
}

/// The artist that escaped DIDL-Lite gives, empty where it gives none.
pub fn extract_artist_from_didl(didl_escaped: &str) -> (r: String)
    ensures
        r@ == or_empty(artist_in(unescape_of(didl_escaped@))),
{
    proof {
        reveal_strlit("<upnp:artist>");
        reveal_strlit("</upnp:artist>");
        reveal_strlit("<dc:creator>");
        reveal_strlit("</dc:creator>");
        reveal_strlit("<artist>");
        reveal_strlit("</artist>");
    }
    let s = unescape(didl_escaped);
    if let Some(t) = element(s.as_str(), "<upnp:artist>", "</upnp:artist>") {
        return t;
    }
    if let Some(t) = element(s.as_str(), "<dc:creator>", "</dc:creator>") {
        return t;
    }
    if let Some(t) = element(s.as_str(), "<artist>", "</artist>") {
        return t;
    }
    String::new()
}

fn duration_text(s: &str) -> (r: Option<String>)
    ensures
        match (r, duration_text_in(s@)) {
            (Some(x), Some(y)) => x@ == y,
            (None, None) => true,
            _ => false,
        },
{
    proof {
        reveal_strlit("duration=\"");
    }
    match find(s, "duration=\"") {
        Some(i) => {
            let n: usize = s.unicode_len();
            let after: &str = s.substring_char(i + 10, n);
            assert(after@ =~= s@.skip(i + 10));
            match find(after, "\"") {
                Some(e) => {
                    assert(after@.subrange(0, e as int) =~= after@.take(e as int));
                    Some(after.substring_char(0, e).to_owned())
                },
                None => None,
            }
        },
        None => None,
    }
}

/// The `duration` attribute is a time value of more seconds than 64 bits can count: is it?
pub fn is_didl_duration_too_long(didl_escaped: &str) -> (r: bool)
    ensures
        r == duration_overflows(didl_escaped@),
{
    match duration_text(unescape(didl_escaped).as_str()) {
        Some(t) => is_time_too_long(t.as_str()),
        None => false,
    }
}

/// The length that escaped DIDL-Lite gives in its first `duration` attribute.
pub fn extract_duration_from_didl(didl_escaped: &str) -> (r: Option<Duration>)
    requires
        !duration_overflows(didl_escaped@),
    ensures
        match (r, didl_duration(didl_escaped@)) {
            (Some(d), Some(n)) => d@ == n,
            (None, None) => true,
            _ => false,
        },
{
    match duration_text(unescape(didl_escaped).as_str()) {
        Some(t) => parse_time(t.as_str()),
        None => None,
    }
}

// ---------------------------------------------------------------------------------------------
// Laws
// ---------------------------------------------------------------------------------------------
/// A number below a hundred in two digits reads back as itself.
proof fn lemma_two_digits_read_back(n: nat)
    requires
        n < 100,
    ensures
        number::unsigned_of(number::two_digits_of(n), u64::MAX as nat) == Some(n),
        number::all_digits(number::two_digits_of(n)),
{
    let s = number::two_digits_of(n);
    number::lemma_decimal_reads_back(n);
    if n < 10 {
        reveal_with_fuel(number::decimal_value, 3);
        assert(s =~= seq!['0', number::digit_of(n)]);
        assert(s.drop_last() =~= seq!['0']);
        assert(s.drop_last().drop_last() =~= Seq::<char>::empty());
    }
    assert(text::is_digit(s[0]));
}

/// Digits hold no separator.
proof fn lemma_digits_free(s: Seq<char>, c: char)
    requires
        number::all_digits(s),
        !text::is_digit(c),
    ensures
        text::free_of(s, CharSet::One(c)),
{
    assert forall|i: int| 0 <= i < s.len() implies !CharSet::One(c).has(#[trigger] s[i]) by {
        assert(text::is_digit(s[i]));
    }
}

/// A time that is told reads back as its whole seconds.
pub proof fn lemma_time_reads_back(total: u64)
    ensures
        time_of(clock_text(total as nat)) == Some(time::secs(total as nat)),
        !time_overflows(clock_text(total as nat)),
{
    let n = total as nat;
    let set = CharSet::One(':');
    let h = number::decimal_of(n / 3600);
    let m = number::two_digits_of((n % 3600) / 60);
    let s = number::two_digits_of(n % 60);
    number::lemma_decimal_reads_back(n / 3600);
    number::lemma_unsigned_of_decimal(n / 3600, u64::MAX as nat);
    lemma_two_digits_read_back((n % 3600) / 60);
    lemma_two_digits_read_back(n % 60);
    lemma_digits_free(h, ':');
    lemma_digits_free(m, ':');
    lemma_digits_free(s, ':');
    reveal_strlit(":");
    reveal_strlit(".");
    text::lemma_split_free(h, set);
    text::lemma_split_free(m, set);
    text::lemma_split_free(s, set);
    let ms = m.push(':') + s;
    text::lemma_split_concat(m, ':', s, set);
    text::lemma_split_concat(h, ':', ms, set);
    let t = clock_text(n);
    assert(t =~= h.push(':') + ms);
    assert(text::split_of(t, set) =~= seq![h, m, s]);
    assert(!text::contains(s, "."@)) by {
        if text::contains(s, "."@) {
            let i = choose|i: int| text::occurs_at(s, "."@, i);
            assert(s.subrange(i, i + 1)[0] == s[i]);
            assert(text::is_digit(s[i]));
        }
    }
    assert((n / 3600) * 3600 + ((n % 3600) / 60) * 60 + n % 60 == n);
}

/// The content of an element is read back: its trimmed text, where it is not empty and holds no
/// markup, and no such element comes before.
pub proof fn lemma_element_reads_back(
    before: Seq<char>,
    open: Seq<char>,
    inner: Seq<char>,
    close: Seq<char>,
    after: Seq<char>,
)
    requires
        apart(open, close),
        open[0] == '<',
        close[0] == '<',
        !text::contains(before, open),
        !inner.contains('<'),
        text::trim_of(inner).len() > 0,
    ensures
        element_of(before + open + inner + close + after, open, close) == Some(
            text::trim_of(inner),
        ),
{
    let s = before + open + inner + close + after;
    let n = before.len() as int;
    assert(s.subrange(n, n + open.len()) =~= open);
    assert forall|j: int| 0 <= j < n implies !text::occurs_at(s, open, j) by {
        if text::occurs_at(s, open, j) {
            if j + open.len() <= n {
                assert(before.subrange(j, j + open.len()) =~= s.subrange(j, j + open.len()));
                assert(text::occurs_at(before, open, j));
            } else {
                assert(s.subrange(j, j + open.len())[n - j] == s[n]);
                assert(s[n] == open[0]);
                assert(open[n - j] == '<');
            }
        }
    }
    text::lemma_find_is(s, open, n);
    let rest = s.skip(n);
    let m = (open.len() + inner.len()) as int;
    assert(rest.subrange(m, m + close.len()) =~= close);
    assert(rest.subrange(0, open.len() as int) =~= open);
    assert forall|j: int| 0 <= j < m implies !text::occurs_at(rest, close, j) by {
        if text::occurs_at(rest, close, j) {
            lemma_close_behind(rest, open, close, j);
            assert(rest.subrange(j, j + close.len())[0] == rest[j]);
            assert(rest[j] == inner[j - open.len()]);
            assert(inner.contains(inner[j - open.len()]));
        }
    }
    text::lemma_find_is(rest, close, m);
    assert(s.subrange(n + open.len(), n + m) =~= inner);
}

/// A time is written as hours, minutes and seconds, the last two with two digits.
pub proof fn lemma_clock_text_is(h: nat, m: nat, s: nat)
    requires
        m < 60,
        s < 60,
    ensures
        clock_text(h * 3600 + m * 60 + s) == number::decimal_of(h) + ":"@ + (if m < 10 {
            "0"@ + number::decimal_of(m)
        } else {
            number::decimal_of(m)
        }) + ":"@ + (if s < 10 {
            "0"@ + number::decimal_of(s)
        } else {
            number::decimal_of(s)
        }),
{
    reveal_strlit("0");
    assert("0"@ =~= seq!['0']);
    let total = h * 3600 + m * 60 + s;
    assert(total / 3600 == h);
    assert(total % 3600 == m * 60 + s);
    assert(total % 60 == s);
}

/// A time is read as hours, minutes and seconds; a fraction counts in thousandths, of which further
/// digits are dropped.
#[verifier::spinoff_prover]
#[verifier::rlimit(40)]
pub proof fn lemma_time_is_read(h: u64, m: u64, s: u64, fraction: Seq<char>, v: nat)
    requires
        h * 3600 + m * 60 + s <= u64::MAX,
        fraction.len() > 0,
        number::all_digits(fraction),
    ensures
        ({
            let whole = number::decimal_of(h as nat) + ":"@ + number::decimal_of(m as nat) + ":"@
                + number::decimal_of(s as nat);
            let total = (h * 3600 + m * 60 + s) * 1_000_000_000;
            &&& time_of(whole) == Some(total as nat)
            &&& fraction.len() == 1 && number::decimal_value(fraction) == v ==> time_of(
                whole + "."@ + fraction,
            ) == Some((total + v * 100_000_000) as nat)
            &&& fraction.len() == 2 && number::decimal_value(fraction) == v ==> time_of(
                whole + "."@ + fraction,
            ) == Some((total + v * 10_000_000) as nat)
            &&& fraction.len() >= 3 && number::decimal_value(fraction.take(3)) == v ==> time_of(
                whole + "."@ + fraction,
            ) == Some((total + v * 1_000_000) as nat)
        }),
{
    reveal_strlit(":");
    reveal_strlit(".");
    let dh = number::decimal_of(h as nat);
    let dm = number::decimal_of(m as nat);
    let ds = number::decimal_of(s as nat);
    let set = CharSet::One(':');
    let max = u64::MAX as nat;
    number::lemma_decimal_reads_back(h as nat);
    number::lemma_decimal_reads_back(m as nat);
    number::lemma_decimal_reads_back(s as nat);
    number::lemma_unsigned_of_decimal(h as nat, max);
    number::lemma_unsigned_of_decimal(m as nat, max);
    number::lemma_unsigned_of_decimal(s as nat, max);
    lemma_digits_free(dh, ':');
    lemma_digits_free(dm, ':');
    lemma_digits_free(ds, ':');
    lemma_digits_free(ds, '.');
    lemma_digits_free(fraction, ':');
    let sf = ds + "."@ + fraction;
    assert(text::free_of(sf, set)) by {
        assert forall|i: int| 0 <= i < sf.len() implies !set.has(#[trigger] sf[i]) by {
            if i < ds.len() {
                assert(!set.has(ds[i]));
            } else if i > ds.len() {
                assert(!set.has(fraction[i - ds.len() - 1]));
            }
        }
    }
    let whole = dh + ":"@ + dm + ":"@ + ds;
    let full = whole + "."@ + fraction;
    text::lemma_split_free(dh, set);
    text::lemma_split_free(dm, set);
    text::lemma_split_free(ds, set);
    text::lemma_split_free(sf, set);
    text::lemma_split_concat(dh, ':', dm.push(':') + ds, set);
    text::lemma_split_concat(dm, ':', ds, set);
    text::lemma_split_concat(dh, ':', dm.push(':') + sf, set);
    text::lemma_split_concat(dm, ':', sf, set);
    assert(whole =~= dh.push(':') + (dm.push(':') + ds));
    assert(full =~= dh.push(':') + (dm.push(':') + sf));
    assert(text::split_of(whole, set) =~= seq![dh, dm, ds]);
    assert(text::split_of(full, set) =~= seq![dh, dm, sf]);
    // Where the seconds end.
    assert(text::find_of(ds, "."@) is None) by {
        if text::contains(ds, "."@) {
            let i = choose|i: int| text::occurs_at(ds, "."@, i);
            assert(ds.subrange(i, i + 1)[0] == ds[i]);
            assert(!CharSet::One('.').has(ds[i]));
        }
    }
    let k = ds.len() as int;
    assert(sf.subrange(k, k + 1) =~= "."@);
    assert forall|j: int| 0 <= j < k implies !text::occurs_at(sf, "."@, j) by {
        if text::occurs_at(sf, "."@, j) {
            assert(sf.subrange(j, j + 1)[0] == ds[j]);
            assert(!CharSet::One('.').has(ds[j]));
        }
    }
    text::lemma_find_is(sf, "."@, k);
    assert(sf.take(k) =~= ds);
    assert(sf.skip(k + 1) =~= fraction);
    // What the fraction is.
    let digits = if fraction.len() <= 3 {
        fraction
    } else {
        fraction.take(3)
    };
    assert(fraction.take(fraction.len() as int) =~= fraction);
    assert(fraction.len() == 3 ==> fraction.take(3) =~= fraction);
    assert(number::all_digits(digits)) by {
        assert forall|i: int| 0 <= i < digits.len() implies text::is_digit(
            #[trigger] digits[i],
        ) by {
            assert(text::is_digit(fraction[i]));
        }
    }
    lemma_short_value(digits);
    lemma_value_below(digits);
    assert(text::is_digit(digits[0]));
}

/// What the device is before anything was set: stopped, without media, at volume 50, not muted.
pub proof fn lemma_initial_state_is(now: nat)
    ensures
        initial_state(now).transport_state == TransportState::Stopped,
        initial_state(now).current_uri.len() == 0,
        initial_state(now).title.len() == 0,
        initial_state(now).position == 0,
        initial_state(now).duration == 0,
        initial_state(now).volume == 50,
        !initial_state(now).mute,
        initial_state(now).last_updated == now,
{
}

/// Metadata tells the artist in `upnp:artist`; without that in `dc:creator`; without either in
/// `artist`.
pub proof fn lemma_artist_is_found(before: Seq<char>, artist: Seq<char>, after: Seq<char>)
    requires
        !artist.contains('<'),
        text::trim_of(artist).len() > 0,
    ensures
        !text::contains(before, "<upnp:artist>"@) ==> artist_in(
            before + "<upnp:artist>"@ + artist + "</upnp:artist>"@ + after,
        ) == Some(text::trim_of(artist)),
        ({
            let s = before + "<dc:creator>"@ + artist + "</dc:creator>"@ + after;
            !text::contains(before, "<dc:creator>"@) && !text::contains(s, "<upnp:artist>"@)
                ==> artist_in(s) == Some(text::trim_of(artist))
        }),
        ({
            let s = before + "<artist>"@ + artist + "</artist>"@ + after;
            !text::contains(before, "<artist>"@) && !text::contains(s, "<upnp:artist>"@)
                && !text::contains(s, "<dc:creator>"@) ==> artist_in(s) == Some(
                text::trim_of(artist),
            )
        }),
{
    reveal_strlit("<upnp:artist>");
    reveal_strlit("</upnp:artist>");
    reveal_strlit("<dc:creator>");
    reveal_strlit("</dc:creator>");
    reveal_strlit("<artist>");
    reveal_strlit("</artist>");
    if !text::contains(before, "<upnp:artist>"@) {
        lemma_element_reads_back(before, "<upnp:artist>"@, artist, "</upnp:artist>"@, after);
    }
    if !text::contains(before, "<dc:creator>"@) {
        lemma_element_reads_back(before, "<dc:creator>"@, artist, "</dc:creator>"@, after);
    }
    if !text::contains(before, "<artist>"@) {
        lemma_element_reads_back(before, "<artist>"@, artist, "</artist>"@, after);
    }
}

/// Metadata tells the title in `dc:title`; without that in `title`.
pub proof fn lemma_title_is_found(before: Seq<char>, title: Seq<char>, after: Seq<char>)
    requires
        !title.contains('<'),
        text::trim_of(title).len() > 0,
    ensures
        !text::contains(before, "<dc:title>"@) ==> title_in(
            before + "<dc:title>"@ + title + "</dc:title>"@ + after,
        ) == Some(text::trim_of(title)),
        ({
            let s = before + "<title>"@ + title + "</title>"@ + after;
            !text::contains(before, "<title>"@) && !text::contains(s, "<dc:title>"@) ==> title_in(s)
                == Some(text::trim_of(title))
        }),
{
    reveal_strlit("<dc:title>");
    reveal_strlit("</dc:title>");
    reveal_strlit("<title>");
    reveal_strlit("</title>");
    if !text::contains(before, "<dc:title>"@) {
        lemma_element_reads_back(before, "<dc:title>"@, title, "</dc:title>"@, after);
    }
    if !text::contains(before, "<title>"@) {
        lemma_element_reads_back(before, "<title>"@, title, "</title>"@, after);
    }
}

/// Metadata tells the length in its first attribute `duration`.
pub proof fn lemma_length_is_found(before: Seq<char>, total: u64, after: Seq<char>)
    requires
        !text::contains(before + "duration="@, "duration=\""@),
    ensures
        duration_text_in(
            before + "duration=\""@ + (clock_text(total as nat) + ("\""@ + after)),
        ) == Some(clock_text(total as nat)),
        time_of(clock_text(total as nat)) == Some(total as nat * 1_000_000_000),
{
    reveal_strlit("duration=\"");
    reveal_strlit("duration=");
    reveal_strlit("\"");
    lemma_time_reads_back(total);
    let t = clock_text(total as nat);
    let rest = t + ("\""@ + after);
    let s = before + "duration=\""@ + rest;
    assert("duration=\""@ =~= "duration="@.push('"'));
    text::lemma_found_first(before, "duration="@, '"', rest);
    let m = t.len() as int;
    assert(rest.subrange(m, m + 1) =~= "\""@);
    assert forall|j: int| 0 <= j < m implies !text::occurs_at(rest, "\""@, j) by {
        if text::occurs_at(rest, "\""@, j) {
            assert(rest.subrange(j, j + 1)[0] == t[j]);
            lemma_clock_has_no_quote(total as nat, j);
        }
    }
    text::lemma_find_is(rest, "\""@, m);
    assert(rest.take(m) =~= t);
}

proof fn lemma_clock_has_no_quote(total: nat, i: int)
    requires
        0 <= i < clock_text(total).len(),
    ensures
        clock_text(total)[i] != '"',
{
    let h = number::decimal_of(total / 3600);
    let m = number::two_digits_of((total % 3600) / 60);
    let s = number::two_digits_of(total % 60);
    reveal_strlit(":");
    number::lemma_decimal_reads_back(total / 3600);
    lemma_two_digits_read_back((total % 3600) / 60);
    lemma_two_digits_read_back(total % 60);
    let t = clock_text(total);
    let a = h.len() as int;
    let b = a + 1 + m.len();
    if i < a {
        assert(t[i] == h[i]);
        assert(text::is_digit(h[i]));
    } else if i == a || i == b {
    } else if i < b {
        assert(t[i] == m[i - a - 1]);
        assert(text::is_digit(m[i - a - 1]));
    } else {
        assert(t[i] == s[i - b - 1]);
        assert(text::is_digit(s[i - b - 1]));
    }
}

} // verus!
