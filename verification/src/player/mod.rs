//! Players: what they are asked, what they want done outside, and where VLC is found.
//!
//! A player does no input or output. A request gives back an `Action`; the outcome of an
//! unfinished action is handed in as an `Event`.

use vstd::prelude::*;
use vstd::string::*;

use crate::platform;
use crate::platform::vlc_candidates_on;
use crate::text;
use crate::text::same;
use crate::time::Duration;

pub mod external;
pub mod mock;

use crate::player::external::VlcPlayer;


verus! {

#[derive(Debug, Clone, Copy, PartialEq, Eq, Structural)]
pub enum PlaybackState {
    Stopped,
    Playing,
    Paused,
    Transitioning,
}

/// What a player wants done outside.
#[derive(Debug)]
pub enum Action {
    /// The request is done.
    Done,
    /// The request failed, for the reason given.
    Failed(String),
    /// Open the media in a window of its own; the request is done.
    Open(String),
    /// Find out if the player's process has ended; the outcome is `Event::Exited`.
    Check,
    /// Connect to the remote control; the outcome is `Event::Connected`.
    Connect,
    /// End the player's process; the outcome is `Event::Killed`.
    Kill,
    /// Find VLC and start it with these arguments; the outcome is `Event::Launched`.
    Launch(Vec<String>),
    /// Write the command to the remote control; the outcome is `Event::Sent`.
    Tell(String),
    /// Write the command and collect the lines of the reply; the outcome is `Event::Reply`.
    Ask(String),
}

/// The outcome of an action.
#[derive(Debug)]
pub enum Event {
    Exited(bool),
    Connected(bool),
    Killed,
    Launched(bool),
    Sent(bool),
    /// The lines of the reply, and whether the connection still stands.
    Reply(Vec<String>, bool),
}

/// An action with its texts as sequences.
pub enum ActionModel {
    Done,
    Failed(Seq<char>),
    Open(Seq<char>),
    Check,
    Connect,
    Kill,
    Launch(Seq<Seq<char>>),
    Tell(Seq<char>),
    Ask(Seq<char>),
}

impl View for Action {
    type V = ActionModel;

    open spec fn view(&self) -> ActionModel {
        match *self {
            Action::Done => ActionModel::Done,
            Action::Failed(s) => ActionModel::Failed(s@),
            Action::Open(s) => ActionModel::Open(s@),
            Action::Check => ActionModel::Check,
            Action::Connect => ActionModel::Connect,
            Action::Kill => ActionModel::Kill,
            Action::Launch(v) => ActionModel::Launch(text::texts(v@)),
            Action::Tell(s) => ActionModel::Tell(s@),
            Action::Ask(s) => ActionModel::Ask(s@),
        }
    }
}

impl ActionModel {
    /// The outcome of the action has to be handed in before the request is done.
    pub open spec fn unfinished(self) -> bool {
        !(self is Done || self is Failed || self is Open)
    }

    /// The event is an outcome of the action.
    pub open spec fn suits(self, event: Event) -> bool {
        match event {
            Event::Exited(_) => self is Check,
            Event::Connected(_) => self is Connect,
            Event::Killed => self is Kill,
            Event::Launched(_) => self is Launch,
            Event::Sent(_) => self is Tell,
            Event::Reply(_, _) => self is Ask,
        }
    }
}

/// Something that plays media. `now` is the reading of the clock.
pub trait MediaPlayer: Send {
    /// A request is under way: the outcome of an action is awaited.
    spec fn busy(&self) -> bool;

    /// The media that was set.
    spec fn media(&self) -> Seq<char>;

    /// What the media does.
    spec fn playback(&self) -> PlaybackState;

    /// Pausing does not have to tell a position that is too large.
    spec fn pausable(&self, now: Duration) -> bool;

    /// The position is not too large to tell.
    spec fn placed(&self, now: Duration) -> bool;

    /// Replaces the media.
    fn set_uri(&mut self, uri: String, title: String, now: Duration) -> (r: Action)
        requires
            !old(self).busy(),
        ensures
            final(self).media() == uri@,
            final(self).playback() == PlaybackState::Stopped,
            final(self).busy() == r@.unfinished(),
            !(r is Failed),
    ;

    /// Starts or resumes the media.
    fn play(&mut self, now: Duration) -> (r: Action)
        requires
            !old(self).busy(),
        ensures
            final(self).media() == old(self).media(),
            final(self).busy() == r@.unfinished(),
            old(self).media().len() == 0 ==> r is Failed && final(self).playback() == old(
                self,
            ).playback(),
    ;

    fn pause(&mut self, now: Duration) -> (r: Action)
        requires
            !old(self).busy(),
            old(self).pausable(now),
        ensures
            final(self).media() == old(self).media(),
            final(self).busy() == r@.unfinished(),
            old(self).playback() == PlaybackState::Stopped || old(self).playback()
                == PlaybackState::Paused ==> r is Done && final(self).playback() == old(
                self,
            ).playback(),
    ;

    fn stop(&mut self, now: Duration) -> (r: Action)
        requires
            !old(self).busy(),
        ensures
            final(self).media() == old(self).media(),
            final(self).playback() == PlaybackState::Stopped,
            final(self).busy() == r@.unfinished(),
            !(r is Failed),
    ;

    fn seek(&mut self, target: Duration, now: Duration) -> (r: Action)
        requires
            !old(self).busy(),
        ensures
            final(self).media() == old(self).media(),
            final(self).busy() == r@.unfinished(),
            !(r is Failed) ==> final(self).playback() == old(self).playback(),
    ;

    fn set_volume(&mut self, vol: u8) -> (r: Action)
        requires
            !old(self).busy(),
        ensures
            final(self).media() == old(self).media(),
            final(self).playback() == old(self).playback(),
            final(self).busy() == r@.unfinished(),
            !(r is Failed),
    ;

    fn set_mute(&mut self, mute: bool) -> (r: Action)
        requires
            !old(self).busy(),
        ensures
            final(self).media() == old(self).media(),
            final(self).playback() == old(self).playback(),
            final(self).busy() == r@.unfinished(),
            !(r is Failed),
    ;

    /// Can the position be told?
    fn position_fits(&self, now: Duration) -> (r: bool)
        ensures
            r == self.placed(now),
    ;

    /// The position and the length, zero where it is not known.
    fn get_position(&self, now: Duration) -> (r: (Duration, Duration))
        requires
            self.placed(now),
    ;

    fn get_state(&self) -> (r: PlaybackState)
        ensures
            r == self.playback(),
    ;

    fn current_uri(&self) -> (r: String)
        ensures
            r@ == self.media(),
    ;

    /// Brings the player up to date with what it plays through.
    fn poll_sync(&mut self, now: Duration) -> (r: Action)
        requires
            !old(self).busy(),
        ensures
            final(self).media() == old(self).media(),
            final(self).busy() == r@.unfinished(),
            !(r is Failed),
        default_ensures
            final(self).playback() == old(self).playback(),
            r is Done,
    {
        Action::Done
    }
}

/// The player that a renderer uses: VLC, which is required for playback.
pub fn create_player(now: Duration) -> (r: VlcPlayer)
    ensures
        exists|windows: bool| r@ == #[trigger] external::new_player(windows, now@),
{
    VlcPlayer::new(now)
}

// ---------------------------------------------------------------------------------------------
// Finding VLC
// ---------------------------------------------------------------------------------------------
/// The first directory of the search path that holds a program: its number and the file's name.
/// Of each directory, `present` tells if it holds the name with `.exe` behind it, and the name.
pub open spec fn found_in(name: Seq<char>, present: Seq<(bool, bool)>, from: nat) -> Option<
    (nat, Seq<char>),
>
    decreases present.len() - from,
{
    if from >= present.len() {
        None
    } else if present[from as int].0 {
        Some((from, name + ".exe"@))
    } else if present[from as int].1 {
        Some((from, name))
    } else {
        found_in(name, present, from + 1)
    }
}

/// The first directory of the search path that holds a program: its number and the file's name.
/// Of each directory, `present` tells if it holds the name with `.exe` behind it, and the name.
pub fn which(name: &str, present: &[(bool, bool)]) -> (r: Option<(usize, String)>)
    ensures
        match (r, found_in(name@, present@, 0)) {
            (Some((i, s)), Some(m)) => m == (i as nat, s@),
            (None, None) => true,
            _ => false,
        },
{
    for i in 0..present.len()
        invariant
            found_in(name@, present@, i as nat) == found_in(name@, present@, 0),
    {
        if present[i].0 {
            let mut s = name.to_owned();
            s.append(".exe");
            return Some((i, s));
        }
        if present[i].1 {
            return Some((i, name.to_owned()));
        }
    }
    None
}

/// The first of the candidates that is among the paths that exist.
pub open spec fn first_present(candidates: Seq<Seq<char>>, existing: Seq<Seq<char>>) -> Option<
    Seq<char>,
> {
    text::first_some(
        candidates,
        |c: Seq<char>|
            if existing.contains(c) {
                Some(c)
            } else {
                None
            },
    )
}

/// Where VLC is: on the search path, else the first usual place that exists.
pub open spec fn vlc_at(windows: bool, on_path: Option<String>, existing: Seq<Seq<char>>) -> Option<
    Seq<char>,
> {
    match on_path {
        Some(p) => Some(p@),
        None => first_present(platform::vlc_paths(windows), existing),
    }
}

fn is_among(s: &str, v: &[String]) -> (r: bool)
    ensures
        r == text::texts(v@).contains(s@),
{
    let ghost t = text::texts(v@);
    for i in 0..v.len()
        invariant
            t == text::texts(v@),
            forall|k: int| 0 <= k < i ==> t[k] != s@,
    {
        assert(t[i as int] == v@[i as int]@);
        if same(v[i].as_str(), s) {
            assert(t.contains(s@));
            return true;
        }
    }
    false
}

/// Where VLC is on the given platform: on the search path, else the first of the usual places
/// that is among those that exist.
pub fn find_vlc_on(windows: bool, on_path: Option<String>, existing: &[String]) -> (r: Option<
    String,
>)
    ensures
        match (r, vlc_at(windows, on_path, text::texts(existing@))) {
            (Some(x), Some(y)) => x@ == y,
            (None, None) => true,
            _ => false,
        },
{
    if on_path.is_some() {
        return on_path;
    }
    let candidates: Vec<String> = vlc_candidates_on(windows);
    let ghost c = platform::vlc_paths(windows);
    let ghost e = text::texts(existing@);
    let ghost f = |c: Seq<char>|
        if e.contains(c) {
            Some(c)
        } else {
            None
        };
    assert(c.skip(0) =~= c);
    for i in 0..candidates.len()
        invariant
            text::texts(candidates@) == c,
            e == text::texts(existing@),
            f == (|c: Seq<char>|
                if e.contains(c) {
                    Some(c)
                } else {
                    None
                }),
            text::first_some(c, f) == first_present(c, e),
            text::first_some(c.skip(i as int), f) == text::first_some(c, f),
            c == platform::vlc_paths(windows),
            on_path is None,
    {
        assert(c[i as int] == candidates@[i as int]@);
        assert(c.skip(i as int).drop_first() =~= c.skip(i + 1));
        if is_among(candidates[i].as_str(), existing) {
            return Some(candidates[i].clone());
        }
    }
    None
}

/// Where VLC is: on the search path, else the first of the usual places that is among those that
/// exist.
pub fn find_vlc(on_path: Option<String>, existing: &[String]) -> (r: Option<String>)
    ensures
        exists|windows: bool|
            match (r, #[trigger] vlc_at(windows, on_path, text::texts(existing@))) {
                (Some(x), Some(y)) => x@ == y,
                (None, None) => true,
                _ => false,
            },
{
    find_vlc_on(platform::is_windows(), on_path, existing)
}

// ---------------------------------------------------------------------------------------------
// Laws
// ---------------------------------------------------------------------------------------------
/// A program is taken from the first directory of the search path that has it, with `.exe` behind
/// its name where that is there.
pub proof fn lemma_first_directory_counts(
    name: Seq<char>,
    present: Seq<(bool, bool)>,
    from: nat,
    i: int,
)
    requires
        from <= i < present.len(),
        ({
            let (exe, plain) = present[i];
            exe || plain
        }),
        forall|j: int| from <= j < i ==> #[trigger] present[j] == (false, false),
    ensures
        ({
            let (exe, plain) = present[i];
            found_in(name, present, from) == Some(
                (
                    i as nat,
                    if exe {
                        name + ".exe"@
                    } else {
                        name
                    },
                ),
            )
        }),
    decreases i - from,
{
    if from < i {
        assert(present[from as int] == (false, false));
        lemma_first_directory_counts(name, present, from + 1, i);
    }
}

/// VLC is taken from the search path, and else from the first usual place where it is.
pub proof fn lemma_vlc_is_found(windows: bool, existing: Seq<Seq<char>>, i: int)
    requires
        0 <= i < platform::vlc_paths(windows).len(),
        existing.contains(platform::vlc_paths(windows)[i]),
        forall|j: int|
            0 <= j < i ==> !existing.contains(#[trigger] platform::vlc_paths(windows)[j]),
    ensures
        vlc_at(windows, None, existing) == Some(platform::vlc_paths(windows)[i]),
        forall|p: String| #[trigger] vlc_at(windows, Some(p), existing) == Some(p@),
{
    let f = |c: Seq<char>|
        if existing.contains(c) {
            Some(c)
        } else {
            None
        };
    let all = platform::vlc_paths(windows);
    assert forall|j: int| 0 <= j < i implies #[trigger] f(all[j]) is None by {
        assert(!existing.contains(platform::vlc_paths(windows)[j]));
    }
    text::lemma_first_is(all, f, i);
}

} // verus!
