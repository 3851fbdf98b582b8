//! A player that keeps the time itself and shows the media in a window of its own.

use vstd::prelude::*;
use vstd::string::*;

use crate::player::{Action, MediaPlayer, PlaybackState};
use crate::time;
use crate::time::Duration;

verus! {

broadcast use crate::time::lemma_duration_view;

/// A player whose position is the time since it was started.
#[derive(Debug)]
pub struct MockPlayer {
    pub uri: String,
    pub title: String,
    pub uri_duration: Duration,
    pub state: PlaybackState,
    pub volume: u8,
    pub mute: bool,
    /// The position when the clock read `play_start`.
    pub base_position: Duration,
    pub play_start: Option<Duration>,
}

/// What a `MockPlayer` holds.
pub struct MockModel {
    pub uri: Seq<char>,
    pub title: Seq<char>,
    pub uri_duration: nat,
    pub state: PlaybackState,
    pub volume: u8,
    pub mute: bool,
    pub base_position: nat,
    pub play_start: Option<nat>,
}

impl View for MockPlayer {
    type V = MockModel;

    open spec fn view(&self) -> MockModel {
        MockModel {
            uri: self.uri@,
            title: self.title@,
            uri_duration: self.uri_duration@,
            state: self.state,
            volume: self.volume,
            mute: self.mute,
            base_position: self.base_position@,
            play_start: time::reading(self.play_start),
        }
    }
}

impl MockModel {
    /// The position that the time since the start gives, before it is held to the length.
    pub open spec fn running_position(self, now: nat) -> nat {
        if self.state == PlaybackState::Playing {
            match self.play_start {
                Some(start) => self.base_position + time::minus(now, start),
                None => self.base_position,
            }
        } else {
            self.base_position
        }
    }

    /// The position at a reading of the clock.
    pub open spec fn position(self, now: nat) -> nat {
        let pos = self.running_position(now);
        if self.state == PlaybackState::Playing && self.play_start is Some && time::whole_secs(
            self.uri_duration,
        ) > 0 && pos > self.uri_duration {
            self.uri_duration
        } else {
            pos
        }
    }
}

/// A player without media.
pub open spec fn empty_mock() -> MockModel {
    MockModel {
        uri: Seq::empty(),
        title: Seq::empty(),
        uri_duration: 0,
        state: PlaybackState::Stopped,
        volume: 100,
        mute: false,
        base_position: 0,
        play_start: None,
    }
}

impl MockPlayer {
    /// A player without media, at full volume.
    pub fn new() -> (r: MockPlayer)
        ensures
            r@ == empty_mock(),
    {
        MockPlayer {
            uri: String::new(),
            title: String::new(),
            uri_duration: Duration::zero(),
            state: PlaybackState::Stopped,
            volume: 100,
            mute: false,
            base_position: Duration::zero(),
            play_start: None,
        }
    }

    fn current_pos(&self, now: Duration) -> (r: Duration)
        requires
            self.state == PlaybackState::Playing ==> self@.running_position(now@)
                <= time::MAX_NANOS,
        ensures
            r@ == self@.position(now@),
    {
        if self.state == PlaybackState::Playing {
            if let Some(start) = self.play_start {
                let pos = self.base_position.plus(&now.since(&start));
                if self.uri_duration.as_secs() > 0 && self.uri_duration.less_than(&pos) {
                    return self.uri_duration;
                }
                return pos;
            }
        }
        self.base_position
    }
}

impl MediaPlayer for MockPlayer {
    open spec fn busy(&self) -> bool {
        false
    }

    open spec fn media(&self) -> Seq<char> {
        self.uri@
    }

    open spec fn playback(&self) -> PlaybackState {
        self.state
    }

    open spec fn pausable(&self, now: Duration) -> bool {
        self.placed(now)
    }

    open spec fn placed(&self, now: Duration) -> bool {
        self.state == PlaybackState::Playing ==> self@.running_position(now@) <= time::MAX_NANOS
    }

    fn set_uri(&mut self, uri: String, title: String, now: Duration) -> (r: Action)
        ensures
            final(self)@ == (MockModel {
                uri: uri@,
                title: title@,
                uri_duration: 0,
                state: PlaybackState::Stopped,
                base_position: 0,
                play_start: None,
                ..old(self)@
            }),
            r is Done,
    {
        self.uri = uri;
        self.title = title;
        self.base_position = Duration::zero();
        self.play_start = None;
        self.state = PlaybackState::Stopped;
        self.uri_duration = Duration::zero();
        Action::Done
    }

    /// Resumes what is paused; what is stopped starts from the beginning in a new window.
    fn play(&mut self, now: Duration) -> (r: Action)
        ensures
            old(self)@.uri.len() == 0 ==> final(self)@ == old(self)@ && (r matches Action::Failed(
                e,
            ) && e@ == "no uri set"@),
            old(self)@.uri.len() > 0 && old(self)@.state == PlaybackState::Paused ==> final(self)@
                == (MockModel {
                play_start: Some(now@),
                state: PlaybackState::Playing,
                ..old(self)@
            }) && r is Done,
            old(self)@.uri.len() > 0 && old(self)@.state == PlaybackState::Stopped ==> final(self)@
                == (MockModel {
                base_position: 0,
                play_start: Some(now@),
                state: PlaybackState::Playing,
                ..old(self)@
            }) && (r matches Action::Open(u) && u@ == old(self)@.uri),
            old(self)@.uri.len() > 0 && (old(self)@.state == PlaybackState::Playing || old(
                self,
            )@.state == PlaybackState::Transitioning) ==> final(self)@ == old(self)@ && r is Done,
    {
        if self.uri.as_str().is_empty() {
            return Action::Failed("no uri set".to_owned());
        }
        if self.state == PlaybackState::Paused {
            self.play_start = Some(now);
            self.state = PlaybackState::Playing;
        } else if self.state == PlaybackState::Stopped {
            self.base_position = Duration::zero();
            self.play_start = Some(now);
            self.state = PlaybackState::Playing;
            return Action::Open(self.uri.clone());
        }
        Action::Done
    }

    fn pause(&mut self, now: Duration) -> (r: Action)
        ensures
            r is Done,
            old(self)@.state == PlaybackState::Playing ==> final(self)@ == (MockModel {
                base_position: old(self)@.position(now@),
                play_start: None,
                state: PlaybackState::Paused,
                ..old(self)@
            }),
            old(self)@.state != PlaybackState::Playing ==> final(self)@ == old(self)@,
    {
        if self.state == PlaybackState::Playing {
            let pos = self.current_pos(now);
            self.base_position = pos;
            self.play_start = None;
            self.state = PlaybackState::Paused;
        }
        Action::Done
    }

    fn stop(&mut self, now: Duration) -> (r: Action)
        ensures
            final(self)@ == (MockModel {
                base_position: 0,
                play_start: None,
                state: PlaybackState::Stopped,
                ..old(self)@
            }),
            r is Done,
    {
        self.base_position = Duration::zero();
        self.play_start = None;
        self.state = PlaybackState::Stopped;
        Action::Done
    }

    fn seek(&mut self, target: Duration, now: Duration) -> (r: Action)
        ensures
            final(self)@ == (MockModel {
                base_position: target@,
                play_start: if old(self)@.state == PlaybackState::Playing {
                    Some(now@)
                } else {
                    old(self)@.play_start
                },
                ..old(self)@
            }),
            r is Done,
    {
        self.base_position = target;
        if self.state == PlaybackState::Playing {
            self.play_start = Some(now);
        }
        Action::Done
    }

    fn set_volume(&mut self, vol: u8) -> (r: Action)
        ensures
            final(self)@ == (MockModel {
                volume: if vol <= 100 {
                    vol
                } else {
                    100
                },
                ..old(self)@
            }),
            r is Done,
    {
        self.volume = if vol <= 100 {
            vol
        } else {
            100
        };
        Action::Done
    }

    fn set_mute(&mut self, mute: bool) -> (r: Action)
        ensures
            final(self)@ == (MockModel { mute, ..old(self)@ }),
            r is Done,
    {
        self.mute = mute;
        Action::Done
    }

    fn position_fits(&self, now: Duration) -> (r: bool) {
        if self.state == PlaybackState::Playing {
            let ahead = match self.play_start {
                Some(start) => now.since(&start),
                None => Duration::zero(),
            };
            self.base_position.checked_plus(&ahead).is_some()
        } else {
            true
        }
    }

    fn get_position(&self, now: Duration) -> (r: (Duration, Duration))
        ensures
            r.0@ == self@.position(now@),
            r.1@ == self@.uri_duration,
    {
        (self.current_pos(now), self.uri_duration)
    }

    fn get_state(&self) -> (r: PlaybackState) {
        self.state
    }

    fn current_uri(&self) -> (r: String) {
        self.uri.clone()
    }
}

// ---------------------------------------------------------------------------------------------
// Laws
// ---------------------------------------------------------------------------------------------
/// While the player plays, the position goes with the clock, but not beyond the end of media whose
/// length is known to the second; else it stands.
pub proof fn lemma_position_goes_with_clock(p: MockModel, start: nat, now: nat)
    requires
        p.play_start == Some(start),
        now >= start,
    ensures
        ({
            let passed = (now - start) as nat;
            let known = p.uri_duration >= 1_000_000_000;
            let plays = p.state == PlaybackState::Playing;
            &&& !plays ==> p.position(now) == p.base_position
            &&& plays && !known ==> p.position(now) == p.base_position + passed
            &&& plays && known && p.base_position + passed <= p.uri_duration ==> p.position(now)
                == p.base_position + passed
            &&& plays && known && p.base_position + passed > p.uri_duration ==> p.position(now)
                == p.uri_duration
        }),
{
}

} // verus!
