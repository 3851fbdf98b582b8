//! The actions of the three services.
//!
//! An action that the state alone answers is answered at once. One that needs the player gives the
//! command for it, and is finished with the player's report.

use vstd::prelude::*;
use vstd::string::*;

use crate::http::{Response, ResponseModel};
use crate::number;
use crate::number::{decimal, unsigned};
use crate::player::PlaybackState;
use crate::state;
use crate::state::{AVState, AvModel, TransportState};
use crate::state::{extract_artist_from_didl, extract_duration_from_didl, extract_title_from_didl, format_time, is_didl_duration_too_long, is_time_too_long, parse_time};
use crate::text;
use crate::text::{CharSet, chars_of, decode, equals_but_case, find, has, lower, rest_after_last, same, split};
use crate::time;
use crate::time::Duration;
use crate::xml;
use crate::xml::{extract_tag, format_bool, format_length, parse_soap_action, soap_fault, soap_response, xml_escape};

verus! {

broadcast use crate::time::lemma_duration_view;

// ---------------------------------------------------------------------------------------------
// Answers and commands
// ---------------------------------------------------------------------------------------------
/// A command for the player.
#[derive(Debug, Clone, Copy, PartialEq, Eq, Structural)]
pub enum PlayerCommand {
    Stop,
    Play,
    Pause,
    Seek(Duration),
}

/// What an action leads to.
#[derive(Debug)]
pub enum ControlStep {
    /// The answer: the arguments of the response, or an error code and its description.
    Answer(Result<String, (u32, String)>),
    /// The media of the URI and the title has been set: the player has to replace its own and
    /// subscribers have to be notified; the answer has no arguments.
    SetUri(String, String),
    /// The player has to take the command; its report finishes the action.
    Transport(PlayerCommand),
    /// The volume has been set: the player has to follow and subscribers have to be notified; the
    /// answer has no arguments.
    SetVolume(u8),
    /// Sound has been muted or not: the player has to follow and subscribers have to be notified;
    /// the answer has no arguments.
    SetMute(bool),
}

/// A command with its target in nanoseconds.
pub enum CommandModel {
    Stop,
    Play,
    Pause,
    Seek(nat),
}

/// An answer, with texts as sequences.
pub type AnswerModel = Result<Seq<char>, (nat, Seq<char>)>;

/// What an action leads to, with texts as sequences.
pub enum StepModel {
    Answer(AnswerModel),
    SetUri(Seq<char>, Seq<char>),
    Transport(CommandModel),
    SetVolume(u8),
    SetMute(bool),
}

impl View for PlayerCommand {
    type V = CommandModel;

    open spec fn view(&self) -> CommandModel {
        match *self {
            PlayerCommand::Stop => CommandModel::Stop,
            PlayerCommand::Play => CommandModel::Play,
            PlayerCommand::Pause => CommandModel::Pause,
            PlayerCommand::Seek(d) => CommandModel::Seek(d@),
        }
    }
}

/// An answer with its texts as sequences.
pub open spec fn answer_view(r: Result<String, (u32, String)>) -> AnswerModel {
    match r {
        Ok(s) => Ok(s@),
        Err((code, s)) => Err((code as nat, s@)),
    }
}

impl View for ControlStep {
    type V = StepModel;

    open spec fn view(&self) -> StepModel {
        match *self {
            ControlStep::Answer(r) => StepModel::Answer(answer_view(r)),
            ControlStep::SetUri(uri, title) => StepModel::SetUri(uri@, title@),
            ControlStep::Transport(c) => StepModel::Transport(c@),
            ControlStep::SetVolume(v) => StepModel::SetVolume(v),
            ControlStep::SetMute(m) => StepModel::SetMute(m),
        }
    }
}

pub open spec fn ok_step(inner: Seq<char>) -> StepModel {
    StepModel::Answer(Ok(inner))
}

pub open spec fn error_step(code: nat, description: Seq<char>) -> StepModel {
    StepModel::Answer(Err((code, description)))
}

fn answer(inner: String) -> (r: ControlStep)
    ensures
        r@ == ok_step(inner@),
{
    ControlStep::Answer(Ok(inner))
}

fn refuse(code: u32, description: &str) -> (r: ControlStep)
    ensures
        r@ == error_step(code as nat, description@),
{
    ControlStep::Answer(Err((code, description.to_owned())))
}

/// The error for an action that a service does not have.
pub open spec fn invalid_action(action: Seq<char>) -> StepModel {
    error_step(401, "Invalid Action "@ + action)
}

fn refuse_action(action: &str) -> (r: ControlStep)
    ensures
        r@ == invalid_action(action@),
{
    let mut s = "Invalid Action ".to_owned();
    s.append(action);
    refuse(401, s.as_str())
}

// ---------------------------------------------------------------------------------------------
// AVTransport: what the state answers
// ---------------------------------------------------------------------------------------------
/// The transport state of a player that does `player_state`.
pub open spec fn mapped_state(player_state: PlaybackState, has_media: bool) -> TransportState {
    if !has_media {
        TransportState::NoMediaPresent
    } else {
        match player_state {
            PlaybackState::Playing => TransportState::Playing,
            PlaybackState::Paused => TransportState::PausedPlayback,
            PlaybackState::Stopped => TransportState::Stopped,
            PlaybackState::Transitioning => TransportState::Transitioning,
        }
    }
}

/// The transport state of a player that does `player_state`.
pub fn transport_state_for_player(player_state: PlaybackState, has_media: bool) -> (r:
    TransportState)
    ensures
        r == mapped_state(player_state, has_media),
        !has_media ==> r == TransportState::NoMediaPresent,
        has_media && player_state == PlaybackState::Stopped ==> r == TransportState::Stopped,
        has_media && player_state == PlaybackState::Playing ==> r == TransportState::Playing,
        has_media && player_state == PlaybackState::Paused ==> r == TransportState::PausedPlayback,
        has_media && player_state == PlaybackState::Transitioning ==> r
            == TransportState::Transitioning,
{
    if !has_media {
        return TransportState::NoMediaPresent;
    }
    match player_state {
        PlaybackState::Playing => TransportState::Playing,
        PlaybackState::Paused => TransportState::PausedPlayback,
        PlaybackState::Stopped => TransportState::Stopped,
        PlaybackState::Transitioning => TransportState::Transitioning,
    }
}

/// The argument of the name, empty where the request has none.
pub open spec fn argument(body: Seq<char>, tag: Seq<char>) -> Seq<char> {
    state::or_empty(xml::tag_content(body, tag))
}

/// The title that metadata gives, with the artist before it.
pub open spec fn named_title(title: Seq<char>, artist: Seq<char>) -> Seq<char> {
    if artist.len() == 0 {
        title
    } else if title.len() == 0 {
        artist
    } else {
        artist + " - "@ + title
    }
}

/// The title of media: what its metadata gives, else the last segment of its URI, without the
/// query.
pub open spec fn media_title(uri: Seq<char>, metadata: Seq<char>) -> Seq<char> {
    let didl = state::unescape_of(metadata);
    let title = named_title(
        state::or_empty(state::title_in(didl)),
        state::or_empty(state::artist_in(didl)),
    );
    if title.len() > 0 {
        title
    } else {
        match text::after_last(uri, '/') {
            Some(name) => text::split_of(name, CharSet::One('?'))[0],
            None => title,
        }
    }
}

/// One more, and 0 behind the largest number.
pub open spec fn next_seq(n: u32) -> u32 {
    if n == u32::MAX {
        0
    } else {
        (n + 1) as u32
    }
}

/// The state when other media has been set: at its start, and as long as its metadata tells.
pub open spec fn with_media(av: AvModel, uri: Seq<char>, metadata: Seq<char>, now: nat) -> AvModel {
    AvModel {
        current_uri: uri,
        current_metadata: metadata,
        title: media_title(uri, metadata),
        transport_state: TransportState::Stopped,
        position: 0,
        duration: match state::didl_duration(metadata) {
            Some(d) => d,
            None => 0,
        },
        track: 0,
        last_change_seq: next_seq(av.last_change_seq),
        last_updated: now,
        ..av
    }
}

pub open spec fn count_text(av: AvModel) -> Seq<char> {
    if av.current_uri.len() == 0 {
        "0"@
    } else {
        "1"@
    }
}

pub open spec fn media_info(av: AvModel) -> Seq<char> {
    "<NrTracks>"@ + count_text(av) + "</NrTracks><MediaDuration>"@ + xml::length_text(av.duration)
        + "</MediaDuration><CurrentURI>"@ + xml::escaped(av.current_uri, false)
        + "</CurrentURI><CurrentURIMetaData>"@ + xml::escaped(av.current_metadata, false)
        + "</CurrentURIMetaData><NextURI></NextURI><NextURIMetaData></NextURIMetaData><PlayMedium>NETWORK</PlayMedium><RecordMedium>NOT_IMPLEMENTED</RecordMedium><WriteStatus>NOT_IMPLEMENTED</WriteStatus>"@
}

pub open spec fn transport_info(av: AvModel) -> Seq<char> {
    "<CurrentTransportState>"@ + av.transport_state.name()
        + "</CurrentTransportState><CurrentTransportStatus>OK</CurrentTransportStatus><CurrentSpeed>1</CurrentSpeed>"@
}

/// The position that the clock gives, before it is held to the length: while the media plays it
/// grows with the clock, by at most 950 ms.
pub open spec fn running_position(av: AvModel, now: nat) -> nat {
    if av.transport_state == TransportState::Playing {
        av.position + time::lesser(time::minus(now, av.last_updated), time::millis(950))
    } else {
        av.position
    }
}

/// The media plays, and the position before it is held to the length is too large.
pub open spec fn position_overflows(av: AvModel, now: nat) -> bool {
    av.transport_state == TransportState::Playing && running_position(av, now) > time::MAX_NANOS
}

/// The position to tell, within the media where its length is known.
pub open spec fn told_position(av: AvModel, now: nat) -> nat {
    if av.duration > 0 {
        time::lesser(running_position(av, now), av.duration)
    } else {
        running_position(av, now)
    }
}

pub open spec fn position_info(av: AvModel, now: nat) -> Seq<char> {
    let rel = state::clock_text(time::whole_secs(told_position(av, now)));
    let length = if av.duration == 0 {
        "00:00:00"@
    } else {
        state::clock_text(time::whole_secs(av.duration))
    };
    "<Track>"@ + count_text(av) + "</Track><TrackDuration>"@ + length
        + "</TrackDuration><TrackMetaData>"@ + xml::escaped(av.current_metadata, false)
        + "</TrackMetaData><TrackURI>"@ + xml::escaped(av.current_uri, false)
        + "</TrackURI><RelTime>"@ + rel + "</RelTime><AbsTime>"@ + rel
        + "</AbsTime><RelCount>2147483647</RelCount><AbsCount>2147483647</AbsCount>"@
}

/// The actions that a transport state allows.
pub open spec fn allowed_actions(s: TransportState) -> Seq<char> {
    match s {
        TransportState::Playing => "Play,Stop,Pause,Seek"@,
        TransportState::PausedPlayback => "Play,Stop,Seek"@,
        TransportState::Stopped => "Play"@,
        TransportState::Transitioning => "Stop"@,
        TransportState::NoMediaPresent => ""@,
    }
}

/// The unit of a seek that is supported, in any case.
pub open spec fn is_time_unit(unit: Seq<char>) -> bool {
    text::same_but_case(unit, "REL_TIME"@) || text::same_but_case(unit, "ABS_TIME"@)
}

/// The action has to tell or read a span that is too long.
pub open spec fn action_overflows(av: AvModel, action: Seq<char>, body: Seq<char>, now: nat) -> bool {
    ||| action == "SetAVTransportURI"@ && argument(body, "CurrentURI"@).len() > 0
        && state::duration_overflows(argument(body, "CurrentURIMetaData"@))
    ||| action == "GetPositionInfo"@ && position_overflows(av, now)
    ||| action == "Seek"@ && is_time_unit(argument(body, "Unit"@)) && state::time_overflows(
        argument(body, "Target"@),
    )
}

/// What an action of AVTransport makes of the state, and what it leads to.
pub open spec fn avtransport_step(av: AvModel, action: Seq<char>, body: Seq<char>, now: nat) -> (
    AvModel,
    StepModel,
) {
    if action == "SetAVTransportURI"@ {
        let uri = argument(body, "CurrentURI"@);
        let metadata = argument(body, "CurrentURIMetaData"@);
        if uri.len() == 0 {
            (av, error_step(402, "Invalid Args"@))
        } else {
            (
                with_media(av, uri, metadata, now),
                StepModel::SetUri(uri, media_title(uri, metadata)),
            )
        }
    } else if action == "SetNextAVTransportURI"@ || action == "Next"@ || action == "Previous"@
        || action == "SetPlayMode"@ {
        (av, ok_step(""@))
    } else if action == "GetMediaInfo"@ {
        (av, ok_step(media_info(av)))
    } else if action == "GetTransportInfo"@ {
        (av, ok_step(transport_info(av)))
    } else if action == "GetPositionInfo"@ {
        (av, ok_step(position_info(av, now)))
    } else if action == "GetDeviceCapabilities"@ {
        (
            av,
            ok_step(
                "<PlayMedia>NETWORK</PlayMedia><RecMedia>NOT_IMPLEMENTED</RecMedia><RecQualityModes>NOT_IMPLEMENTED</RecQualityModes>"@,
            ),
        )
    } else if action == "GetTransportSettings"@ {
        (
            av,
            ok_step(
                "<PlayMode>NORMAL</PlayMode><RecQualityMode>NOT_IMPLEMENTED</RecQualityMode>"@,
            ),
        )
    } else if action == "Stop"@ {
        (av, StepModel::Transport(CommandModel::Stop))
    } else if action == "Play"@ {
        if av.current_uri.len() == 0 {
            (av, error_step(701, "Transition not available"@))
        } else {
            (av, StepModel::Transport(CommandModel::Play))
        }
    } else if action == "Pause"@ {
        (av, StepModel::Transport(CommandModel::Pause))
    } else if action == "Seek"@ {
        if !is_time_unit(argument(body, "Unit"@)) {
            (av, error_step(402, "Invalid Args"@))
        } else {
            match state::time_of(argument(body, "Target"@)) {
                Some(t) => (av, StepModel::Transport(CommandModel::Seek(t))),
                None => (av, error_step(402, "Invalid Args"@)),
            }
        }
    } else if action == "GetCurrentTransportActions"@ {
        (av, ok_step("<Actions>"@ + allowed_actions(av.transport_state) + "</Actions>"@))
    } else {
        (av, invalid_action(action))
    }
}

/// The argument of the name, empty where the request has none.
fn read_argument(body: &str, tag: &str) -> (r: String)
    requires
        !tag@.contains('>'),
    ensures
        r@ == argument(body@, tag@),
{
    proof {
        xml::lemma_plain_tag(body@, tag@);
    }
    match extract_tag(body, tag) {
        Some(s) => s,
        None => String::new(),
    }
}

fn title_for(uri: &str, metadata: &str) -> (r: String)
    ensures
        r@ == media_title(uri@, metadata@),
{
    let mut title = extract_title_from_didl(metadata);
    let artist = extract_artist_from_didl(metadata);
    if !artist.as_str().is_empty() {
        if !title.as_str().is_empty() {
            let mut s = artist;
            s.append(" - ");
            s.append(title.as_str());
            title = s;
        } else {
            title = artist;
        }
    }
    if title.as_str().is_empty() {
        if let Some(name) = rest_after_last(uri, '/') {
            let pieces: Vec<String> = split(name, CharSet::One('?'));
            assert(text::texts(pieces@)[0] == pieces@[0]@);
            return pieces[0].clone();
        }
    }
    title
}

fn set_media(av: &mut AVState, body: &str, now: Duration) -> (r: ControlStep)
    requires
        !action_overflows(old(av)@, "SetAVTransportURI"@, body@, now@),
    ensures
        (final(av)@, r@) == avtransport_step(old(av)@, "SetAVTransportURI"@, body@, now@),
{
    proof {
        reveal_strlit("CurrentURI");
        reveal_strlit("CurrentURIMetaData");
    }
    let uri = read_argument(body, "CurrentURI");
    let metadata = read_argument(body, "CurrentURIMetaData");
    if uri.as_str().is_empty() {
        return refuse(402, "Invalid Args");
    }
    let title = title_for(uri.as_str(), metadata.as_str());
    let duration = match extract_duration_from_didl(metadata.as_str()) {
        Some(d) => d,
        None => Duration::zero(),
    };
    av.current_uri = uri.clone();
    av.current_metadata = metadata;
    av.title = title.clone();
    av.transport_state = TransportState::Stopped;
    av.position = Duration::zero();
    av.duration = duration;
    av.track = 0;
    av.last_change_seq = count_on(av.last_change_seq);
    av.last_updated = now;
    ControlStep::SetUri(uri, title)
}

fn count_on(n: u32) -> (r: u32)
    ensures
        r == next_seq(n),
{
    if n == u32::MAX {
        0
    } else {
        n + 1
    }
}

fn write_media_info(av: &AVState) -> (r: String)
    ensures
        r@ == media_info(av@),
{
    let mut s = "<NrTracks>".to_owned();
    s.append(
        if av.current_uri.as_str().is_empty() {
            "0"
        } else {
            "1"
        },
    );
    s.append("</NrTracks><MediaDuration>");
    s.append(format_length(av.duration).as_str());
    s.append("</MediaDuration><CurrentURI>");
    s.append(xml_escape(av.current_uri.as_str()).as_str());
    s.append("</CurrentURI><CurrentURIMetaData>");
    s.append(xml_escape(av.current_metadata.as_str()).as_str());
    s.append(
        "</CurrentURIMetaData><NextURI></NextURI><NextURIMetaData></NextURIMetaData><PlayMedium>NETWORK</PlayMedium><RecordMedium>NOT_IMPLEMENTED</RecordMedium><WriteStatus>NOT_IMPLEMENTED</WriteStatus>",
    );
    s
}

fn write_position_info(av: &AVState, now: Duration) -> (r: String)
    requires
        !position_overflows(av@, now@),
    ensures
        r@ == position_info(av@, now@),
{
    let running = if av.transport_state == TransportState::Playing {
        let ahead = now.since(&av.last_updated).min(&Duration::from_millis(950));
        av.position.plus(&ahead)
    } else {
        av.position
    };
    let position = if av.duration.is_zero() {
        running
    } else {
        running.min(&av.duration)
    };
    let rel = format_time(position);
    let mut s = "<Track>".to_owned();
    s.append(
        if av.current_uri.as_str().is_empty() {
            "0"
        } else {
            "1"
        },
    );
    s.append("</Track><TrackDuration>");
    if av.duration.is_zero() {
        s.append("00:00:00");
    } else {
        s.append(format_time(av.duration).as_str());
    }
    s.append("</TrackDuration><TrackMetaData>");
    s.append(xml_escape(av.current_metadata.as_str()).as_str());
    s.append("</TrackMetaData><TrackURI>");
    s.append(xml_escape(av.current_uri.as_str()).as_str());
    s.append("</TrackURI><RelTime>");
    s.append(rel.as_str());
    s.append("</RelTime><AbsTime>");
    s.append(rel.as_str());
    s.append("</AbsTime><RelCount>2147483647</RelCount><AbsCount>2147483647</AbsCount>");
    s
}

fn write_actions(s: TransportState) -> (r: String)
    ensures
        r@ == "<Actions>"@ + allowed_actions(s) + "</Actions>"@,
{
    let mut out = "<Actions>".to_owned();
    out.append(
        match s {
            TransportState::Playing => "Play,Stop,Pause,Seek",
            TransportState::PausedPlayback => "Play,Stop,Seek",
            TransportState::Stopped => "Play",
            TransportState::Transitioning => "Stop",
            TransportState::NoMediaPresent => "",
        },
    );
    out.append("</Actions>");
    out
}

fn read_seek(body: &str) -> (r: ControlStep)
    requires
        is_time_unit(argument(body@, "Unit"@)) ==> !state::time_overflows(
            argument(body@, "Target"@),
        ),
    ensures
        forall|av: AvModel, now: nat|
            (av, r@) == #[trigger] avtransport_step(av, "Seek"@, body@, now),
{
    proof {
        reveal_strlit("Unit");
        reveal_strlit("Target");
        lemma_seek_is_itself();
    }
    let unit = read_argument(body, "Unit");
    let target = read_argument(body, "Target");
    if !equals_but_case(unit.as_str(), "REL_TIME") && !equals_but_case(
        unit.as_str(),
        "ABS_TIME",
    ) {
        return refuse(402, "Invalid Args");
    }
    match parse_time(target.as_str()) {
        Some(d) => ControlStep::Transport(PlayerCommand::Seek(d)),
        None => refuse(402, "Invalid Args"),
    }
}

/// `Seek` is none of the actions that are told apart before it.
proof fn lemma_seek_is_itself()
    ensures
        "Seek"@ != "SetAVTransportURI"@,
        "Seek"@ != "SetNextAVTransportURI"@,
        "Seek"@ != "Next"@,
        "Seek"@ != "Previous"@,
        "Seek"@ != "SetPlayMode"@,
        "Seek"@ != "GetMediaInfo"@,
        "Seek"@ != "GetTransportInfo"@,
        "Seek"@ != "GetPositionInfo"@,
        "Seek"@ != "GetDeviceCapabilities"@,
        "Seek"@ != "GetTransportSettings"@,
        "Seek"@ != "Stop"@,
        "Seek"@ != "Play"@,
        "Seek"@ != "Pause"@,
{
    reveal_strlit("Seek");
    reveal_strlit("SetAVTransportURI");
    reveal_strlit("SetNextAVTransportURI");
    reveal_strlit("Next");
    reveal_strlit("Previous");
    reveal_strlit("SetPlayMode");
    reveal_strlit("GetMediaInfo");
    reveal_strlit("GetTransportInfo");
    reveal_strlit("GetPositionInfo");
    reveal_strlit("GetDeviceCapabilities");
    reveal_strlit("GetTransportSettings");
    reveal_strlit("Stop");
    reveal_strlit("Play");
    reveal_strlit("Pause");
    let s = "Seek"@;
    assert(s.len() == 4 && s[1] == 'e' && s[2] == 'e');
    assert("Next"@[2] == 'x');
    assert("Stop"@[1] == 't');
    assert("Play"@[1] == 'l');
}

/// Does the action have to tell or read a span that is too long?
pub fn is_action_too_long(av: &AVState, action: &str, body: &str, now: Duration) -> (r: bool)
    ensures
        r == action_overflows(av@, action@, body@, now@),
{
    proof {
        reveal_strlit("CurrentURI");
        reveal_strlit("CurrentURIMetaData");
        reveal_strlit("Unit");
        reveal_strlit("Target");
    }
    if same(action, "SetAVTransportURI") {
        let uri = read_argument(body, "CurrentURI");
        let metadata = read_argument(body, "CurrentURIMetaData");
        if !uri.as_str().is_empty() && is_didl_duration_too_long(metadata.as_str()) {
            return true;
        }
    }
    if same(action, "GetPositionInfo") && av.transport_state == TransportState::Playing {
        let ahead = now.since(&av.last_updated).min(&Duration::from_millis(950));
        if av.position.checked_plus(&ahead).is_none() {
            return true;
        }
    }
    if same(action, "Seek") {
        let unit = read_argument(body, "Unit");
        let target = read_argument(body, "Target");
        return (equals_but_case(unit.as_str(), "REL_TIME") || equals_but_case(
            unit.as_str(),
            "ABS_TIME",
        )) && is_time_too_long(target.as_str());
    }
    false
}

/// Takes an action of AVTransport.
///
/// The action must not have to tell or read a span that is too long.
pub fn handle_avtransport(av: &mut AVState, action: &str, body: &str, now: Duration) -> (r:
    ControlStep)
    requires
        !action_overflows(old(av)@, action@, body@, now@),
    ensures
        (final(av)@, r@) == avtransport_step(old(av)@, action@, body@, now@),
{
    if same(action, "SetAVTransportURI") {
        return set_media(av, body, now);
    }
    if same(action, "SetNextAVTransportURI") || same(action, "Next") || same(action, "Previous")
        || same(action, "SetPlayMode") {
        return answer("".to_owned());
    }
    if same(action, "GetMediaInfo") {
        return answer(write_media_info(av));
    }
    if same(action, "GetTransportInfo") {
        let mut s = "<CurrentTransportState>".to_owned();
        s.append(av.transport_state.as_str());
        s.append(
            "</CurrentTransportState><CurrentTransportStatus>OK</CurrentTransportStatus><CurrentSpeed>1</CurrentSpeed>",
        );
        return answer(s);
    }
    if same(action, "GetPositionInfo") {
        return answer(write_position_info(av, now));
    }
    if same(action, "GetDeviceCapabilities") {
        return answer(
            "<PlayMedia>NETWORK</PlayMedia><RecMedia>NOT_IMPLEMENTED</RecMedia><RecQualityModes>NOT_IMPLEMENTED</RecQualityModes>".to_owned(),
        );
    }
    if same(action, "GetTransportSettings") {
        return answer(
            "<PlayMode>NORMAL</PlayMode><RecQualityMode>NOT_IMPLEMENTED</RecQualityMode>".to_owned(),
        );
    }
    if same(action, "Stop") {
        return ControlStep::Transport(PlayerCommand::Stop);
    }
    if same(action, "Play") {
        return if av.current_uri.as_str().is_empty() {
            refuse(701, "Transition not available")
        } else {
            ControlStep::Transport(PlayerCommand::Play)
        };
    }
    if same(action, "Pause") {
        return ControlStep::Transport(PlayerCommand::Pause);
    }
    if same(action, "Seek") {
        return read_seek(body);
    }
    if same(action, "GetCurrentTransportActions") {
        return answer(write_actions(av.transport_state));
    }
    refuse_action(action)
}

// ---------------------------------------------------------------------------------------------
// AVTransport: what the player reports
// ---------------------------------------------------------------------------------------------
/// What the player made of a command.
#[derive(Debug)]
pub enum PlayerReport {
    /// The player cannot be reached.
    Unavailable,
    /// The command failed, for the reason given.
    Failed(String),
    /// What the player does now, its position, and the length, zero where it is not known.
    Done(PlaybackState, Duration, Duration),
}

/// The state after the player took a command, which leaves the length as it is where the player
/// does not know it.
pub open spec fn reported(
    av: AvModel,
    transport_state: TransportState,
    position: nat,
    duration: nat,
    now: nat,
) -> AvModel {
    AvModel {
        transport_state,
        position,
        duration: if duration > 0 {
            duration
        } else {
            av.duration
        },
        last_change_seq: next_seq(av.last_change_seq),
        last_updated: now,
        ..av
    }
}

/// The word for a command in an error's description.
pub open spec fn command_word(c: CommandModel) -> Seq<char> {
    match c {
        CommandModel::Stop => "stop"@,
        CommandModel::Play => "play"@,
        CommandModel::Pause => "pause"@,
        CommandModel::Seek(_) => "seek"@,
    }
}

/// What the player's report makes of the state, and the answer to the action. After a seek the
/// transport state stays; after `Play` there is media.
pub open spec fn transport_finish(av: AvModel, c: CommandModel, report: PlayerReport, now: nat) -> (
    AvModel,
    AnswerModel,
) {
    match report {
        PlayerReport::Unavailable => (av, Err((501, "VLC player unavailable"@))),
        PlayerReport::Failed(e) => (
            av,
            Err((501, "VLC "@ + command_word(c) + " failed: "@ + e@)),
        ),
        PlayerReport::Done(s, position, duration) => (
            reported(
                av,
                match c {
                    CommandModel::Seek(_) => av.transport_state,
                    CommandModel::Play => mapped_state(s, true),
                    _ => mapped_state(s, av.current_uri.len() > 0),
                },
                position@,
                duration@,
                now,
            ),
            Ok(""@),
        ),
    }
}

/// Finishes an action with what the player reports. Where the answer is not an error, subscribers
/// have to be notified.
pub fn finish_transport(
    av: &mut AVState,
    command: PlayerCommand,
    report: PlayerReport,
    now: Duration,
) -> (r: Result<String, (u32, String)>)
    ensures
        (final(av)@, answer_view(r)) == transport_finish(old(av)@, command@, report, now@),
        r is Ok <==> report is Done,
        report matches PlayerReport::Done(player_state, position, duration) ==> {
            let media = command == PlayerCommand::Play || old(av)@.current_uri.len() > 0;
            let told = final(av)@.transport_state;
            &&& command is Seek ==> told == old(av)@.transport_state
            &&& !(command is Seek) && !media ==> told == TransportState::NoMediaPresent
            &&& !(command is Seek) && media && player_state == PlaybackState::Stopped ==> told
                == TransportState::Stopped
            &&& !(command is Seek) && media && player_state == PlaybackState::Playing ==> told
                == TransportState::Playing
            &&& !(command is Seek) && media && player_state == PlaybackState::Paused ==> told
                == TransportState::PausedPlayback
            &&& !(command is Seek) && media && player_state == PlaybackState::Transitioning
                ==> told == TransportState::Transitioning
            &&& final(av)@.position == position@
            &&& duration@ > 0 ==> final(av)@.duration == duration@
            &&& duration@ == 0 ==> final(av)@.duration == old(av)@.duration
            &&& final(av)@.last_updated == now@
            &&& final(av)@.current_uri == old(av)@.current_uri
        },
{
    match report {
        PlayerReport::Unavailable => Err((501, "VLC player unavailable".to_owned())),
        PlayerReport::Failed(e) => {
            let mut s = "VLC ".to_owned();
            s.append(
                match command {
                    PlayerCommand::Stop => "stop",
                    PlayerCommand::Play => "play",
                    PlayerCommand::Pause => "pause",
                    PlayerCommand::Seek(_) => "seek",
                },
            );
            s.append(" failed: ");
            s.append(e.as_str());
            Err((501, s))
        },
        PlayerReport::Done(player_state, position, duration) => {
            let has_media: bool = !av.current_uri.as_str().is_empty();
            match command {
                PlayerCommand::Seek(_) => {},
                PlayerCommand::Play => {
                    av.transport_state = transport_state_for_player(player_state, true);
                },
                _ => {
                    av.transport_state = transport_state_for_player(player_state, has_media);
                },
            }
            av.position = position;
            if !duration.is_zero() {
                av.duration = duration;
            }
            av.last_change_seq = count_on(av.last_change_seq);
            av.last_updated = now;
            Ok("".to_owned())
        },
    }
}

// ---------------------------------------------------------------------------------------------
// RenderingControl
// ---------------------------------------------------------------------------------------------
/// The volume that a text stands for, at most 100; 50 where it is no number below 256.
pub open spec fn volume_of(s: Seq<char>) -> u8 {
    match number::unsigned_of(s, 255) {
        Some(n) => if n <= 100 {
            n as u8
        } else {
            100
        },
        None => 50,
    }
}

/// A truth value: `1`, or `true` in any case. `lower` is the value in small letters.
pub open spec fn means_true(value: Seq<char>, lower: Seq<char>) -> bool {
    value == "1"@ || lower == "true"@
}

/// Is the value a true one? `lower` is the value in small letters.
pub fn is_true(value: &str, lower: &str) -> (r: bool)
    ensures
        r == means_true(value@, lower@),
{
    same(value, "1") || same(lower, "true")
}

/// What an action of RenderingControl makes of the state, and what it leads to.
pub open spec fn rendering_step(av: AvModel, action: Seq<char>, body: Seq<char>) -> (
    AvModel,
    StepModel,
) {
    if action == "GetVolume"@ {
        (
            av,
            ok_step(
                "<CurrentVolume>"@ + number::decimal_of(av.volume as nat) + "</CurrentVolume>"@,
            ),
        )
    } else if action == "SetVolume"@ {
        let volume = volume_of(argument(body, "DesiredVolume"@));
        (AvModel { volume, ..av }, StepModel::SetVolume(volume))
    } else if action == "GetMute"@ {
        (av, ok_step("<CurrentMute>"@ + xml::bool_text(av.mute) + "</CurrentMute>"@))
    } else if action == "SetMute"@ {
        let value = argument(body, "DesiredMute"@);
        let mute = means_true(value, text::lower_of(value));
        (AvModel { mute, ..av }, StepModel::SetMute(mute))
    } else if action == "ListPresets"@ || action == "SelectPreset"@ {
        (av, ok_step("<CurrentPresetNameList></CurrentPresetNameList>"@))
    } else {
        (av, invalid_action(action))
    }
}

/// Takes an action of RenderingControl.
pub fn handle_rendering(av: &mut AVState, action: &str, body: &str) -> (r: ControlStep)
    ensures
        (final(av)@, r@) == rendering_step(old(av)@, action@, body@),
{
    proof {
        reveal_strlit("DesiredVolume");
        reveal_strlit("DesiredMute");
    }
    if same(action, "GetVolume") {
        let mut s = "<CurrentVolume>".to_owned();
        s.append(decimal(av.volume as u64).as_str());
        s.append("</CurrentVolume>");
        return answer(s);
    }
    if same(action, "SetVolume") {
        let volume: u8 = match unsigned(read_argument(body, "DesiredVolume").as_str(), 255) {
            Some(n) => if n <= 100 {
                n as u8
            } else {
                100
            },
            None => 50,
        };
        av.volume = volume;
        return ControlStep::SetVolume(volume);
    }
    if same(action, "GetMute") {
        let mut s = "<CurrentMute>".to_owned();
        s.append(format_bool(av.mute));
        s.append("</CurrentMute>");
        return answer(s);
    }
    if same(action, "SetMute") {
        let value = read_argument(body, "DesiredMute");
        let mute: bool = is_true(value.as_str(), lower(value.as_str()).as_str());
        av.mute = mute;
        return ControlStep::SetMute(mute);
    }
    if same(action, "ListPresets") || same(action, "SelectPreset") {
        return answer("<CurrentPresetNameList></CurrentPresetNameList>".to_owned());
    }
    refuse_action(action)
}

// ---------------------------------------------------------------------------------------------
// ConnectionManager
// ---------------------------------------------------------------------------------------------
/// What an action of ConnectionManager leads to.
pub open spec fn connection_step(action: Seq<char>) -> StepModel {
    if action == "GetProtocolInfo"@ {
        ok_step(
            "<Source></Source><Sink>http-get:*:video/mp4:*,http-get:*:video/x-matroska:*,http-get:*:video/avi:*,http-get:*:audio/mpeg:*,http-get:*:audio/mp3:*,http-get:*:audio/flac:*,http-get:*:image/jpeg:*,http-get:*:*:*</Sink>"@,
        )
    } else if action == "GetCurrentConnectionIDs"@ {
        ok_step("<ConnectionIDs>0</ConnectionIDs>"@)
    } else if action == "GetCurrentConnectionInfo"@ {
        ok_step(
            "<RcsID>0</RcsID><AVTransportID>0</AVTransportID><ProtocolInfo>http-get:*:*:*</ProtocolInfo><PeerConnectionManager></PeerConnectionManager><PeerConnectionID>-1</PeerConnectionID><Direction>Input</Direction><Status>OK</Status>"@,
        )
    } else {
        invalid_action(action)
    }
}

/// Takes an action of ConnectionManager.
pub fn handle_connection_manager(action: &str) -> (r: ControlStep)
    ensures
        r@ == connection_step(action@),
{
    if same(action, "GetProtocolInfo") {
        return answer(
            "<Source></Source><Sink>http-get:*:video/mp4:*,http-get:*:video/x-matroska:*,http-get:*:video/avi:*,http-get:*:audio/mpeg:*,http-get:*:audio/mp3:*,http-get:*:audio/flac:*,http-get:*:image/jpeg:*,http-get:*:*:*</Sink>".to_owned(),
        );
    }
    if same(action, "GetCurrentConnectionIDs") {
        return answer("<ConnectionIDs>0</ConnectionIDs>".to_owned());
    }
    if same(action, "GetCurrentConnectionInfo") {
        return answer(
            "<RcsID>0</RcsID><AVTransportID>0</AVTransportID><ProtocolInfo>http-get:*:*:*</ProtocolInfo><PeerConnectionManager></PeerConnectionManager><PeerConnectionID>-1</PeerConnectionID><Direction>Input</Direction><Status>OK</Status>".to_owned(),
        );
    }
    refuse_action(action)
}

// ---------------------------------------------------------------------------------------------
// Requests
// ---------------------------------------------------------------------------------------------
/// A service, told by the path of a request.
#[derive(Debug, Clone, Copy, PartialEq, Eq, Structural)]
pub enum Service {
    AvTransport,
    RenderingControl,
    ConnectionManager,
    Unknown,
}

/// The service that a path names.
pub open spec fn service_at(path: Seq<char>) -> Service {
    if text::contains(path, "AVTransport"@) {
        Service::AvTransport
    } else if text::contains(path, "RenderingControl"@) {
        Service::RenderingControl
    } else if text::contains(path, "ConnectionManager"@) {
        Service::ConnectionManager
    } else {
        Service::Unknown
    }
}

/// The service that the path names.
pub fn service_of(path: &str) -> (r: Service)
    ensures
        r == service_at(path@),
{
    if has(path, "AVTransport") {
        Service::AvTransport
    } else if has(path, "RenderingControl") {
        Service::RenderingControl
    } else if has(path, "ConnectionManager") {
        Service::ConnectionManager
    } else {
        Service::Unknown
    }
}

/// The character ends the name of an action in a body.
pub open spec fn ends_action(c: char) -> bool {
    c == ' ' || c == '>' || c == '/'
}

/// `i` is the first position in `s` of a character that ends the name of an action.
pub open spec fn action_ends_at(s: Seq<char>, i: int) -> bool {
    &&& 0 <= i < s.len()
    &&& ends_action(s[i])
    &&& forall|j: int| 0 <= j < i ==> !ends_action(s[j])
}

/// The name that `s` begins with, up to the first character that ends it; empty where none does.
pub open spec fn leading_name(s: Seq<char>) -> Seq<char> {
    if exists|i: int| action_ends_at(s, i) {
        s.take(choose|i: int| action_ends_at(s, i))
    } else {
        Seq::empty()
    }
}

/// The action that a body names: that of its first `<u:` element, empty where there is none.
pub open spec fn body_action(body: Seq<char>) -> Seq<char> {
    match text::find_of(body, "<u:"@) {
        Some(i) => leading_name(body.skip(i + 3)),
        None => Seq::empty(),
    }
}

/// The action that a `SOAPAction` header names, empty where there is no header.
pub open spec fn header_action(soap_action: Option<&str>) -> Seq<char> {
    match soap_action {
        Some(h) => xml::action_of(h@),
        None => Seq::empty(),
    }
}

/// The action that a request names: in its `SOAPAction` header, else in its body.
pub open spec fn named_action(soap_action: Option<&str>, body: Seq<char>) -> Seq<char> {
    if header_action(soap_action).len() > 0 {
        header_action(soap_action)
    } else {
        body_action(body)
    }
}

fn name_at_start(s: &str) -> (r: String)
    ensures
        r@ == leading_name(s@),
{
    let v: Vec<char> = chars_of(s);
    for i in 0..v.len()
        invariant
            v@ == s@,
            forall|j: int| 0 <= j < i ==> !ends_action(s@[j]),
    {
        if v[i] == ' ' || v[i] == '>' || v[i] == '/' {
            proof {
                assert(action_ends_at(s@, i as int));
                let k = choose|k: int| action_ends_at(s@, k);
                assert(action_ends_at(s@, k));
                assert(k == i);
                assert(s@.subrange(0, i as int) =~= s@.take(i as int));
            }
            return s.substring_char(0, i).to_owned();
        }
    }
    String::new()
}

fn action_in_body(body: &str) -> (r: String)
    ensures
        r@ == body_action(body@),
{
    match find(body, "<u:") {
        Some(i) => {
            proof {
                reveal_strlit("<u:");
            }
            let n: usize = body.unicode_len();
            let rest: &str = body.substring_char(i + 3, n);
            assert(rest@ =~= body@.skip(i + 3));
            name_at_start(rest)
        },
        None => String::new(),
    }
}

/// The action that the request names in its `SOAPAction` header, else in its body.
pub fn requested_action(soap_action: Option<&str>, body: &str) -> (r: String)
    ensures
        r@ == named_action(soap_action, body@),
{
    if let Some(header) = soap_action {
        if let Some(action) = parse_soap_action(header) {
            if !action.as_str().is_empty() {
                return action;
            }
        }
    }
    action_in_body(body)
}

/// What a request makes of the state, and what it leads to.
pub open spec fn control_step(
    av: AvModel,
    service: Service,
    action: Seq<char>,
    body: Seq<char>,
    now: nat,
) -> (AvModel, StepModel) {
    match service {
        Service::AvTransport => avtransport_step(av, action, body, now),
        Service::RenderingControl => rendering_step(av, action, body),
        Service::ConnectionManager => (av, connection_step(action)),
        Service::Unknown => (av, error_step(500, "Unknown service"@)),
    }
}

/// Takes an action of a service, whose request has the text `body`.
pub fn control_text(
    av: &mut AVState,
    service: Service,
    action: &str,
    body: &str,
    now: Duration,
) -> (r: ControlStep)
    requires
        service == Service::AvTransport ==> !action_overflows(old(av)@, action@, body@, now@),
    ensures
        (final(av)@, r@) == control_step(old(av)@, service, action@, body@, now@),
{
    match service {
        Service::AvTransport => handle_avtransport(av, action, body, now),
        Service::RenderingControl => handle_rendering(av, action, body),
        Service::ConnectionManager => handle_connection_manager(action),
        Service::Unknown => refuse(500, "Unknown service"),
    }
}

/// Takes the action of a request with the given path, `SOAPAction` header and body. Gives nothing,
/// and leaves the state as it is, where the action has to tell or read a span that is too long.
pub fn control(
    av: &mut AVState,
    path: &str,
    soap_action: Option<&str>,
    body: &[u8],
    now: Duration,
) -> (r: Option<ControlStep>)
    ensures
        r is None <==> service_at(path@) == Service::AvTransport && action_overflows(
            old(av)@,
            named_action(soap_action, text::text_of(body@)),
            text::text_of(body@),
            now@,
        ),
        r matches Some(step) ==> (final(av)@, step@) == control_step(
            old(av)@,
            service_at(path@),
            named_action(soap_action, text::text_of(body@)),
            text::text_of(body@),
            now@,
        ),
        r is None ==> final(av)@ == old(av)@,
{
    let service = service_of(path);
    let content = decode(body);
    let action = requested_action(soap_action, content.as_str());
    if service == Service::AvTransport && is_action_too_long(
        av,
        action.as_str(),
        content.as_str(),
        now,
    ) {
        return None;
    }
    Some(control_text(av, service, action.as_str(), content.as_str(), now))
}

/// The type of a service, as answers name it.
pub open spec fn service_type(service: Service) -> Seq<char> {
    match service {
        Service::AvTransport => "urn:schemas-upnp-org:service:AVTransport:1"@,
        Service::RenderingControl => "urn:schemas-upnp-org:service:RenderingControl:1"@,
        _ => "urn:schemas-upnp-org:service:ConnectionManager:1"@,
    }
}

/// The HTTP answer to an action.
pub open spec fn control_reply(service: Service, action: Seq<char>, answer: AnswerModel) -> ResponseModel {
    match answer {
        Ok(inner) => ResponseModel {
            status: 200,
            headers: seq![("Content-Type"@, "text/xml; charset=\"utf-8\""@), ("EXT"@, ""@)],
            body: xml::response_of(action, service_type(service), inner),
        },
        Err((code, description)) => ResponseModel {
            status: 500,
            headers: seq![("Content-Type"@, "text/xml; charset=\"utf-8\""@)],
            body: xml::fault_of(code, description),
        },
    }
}

/// The HTTP answer to the action.
pub fn control_response(
    service: Service,
    action: &str,
    answer: &Result<String, (u32, String)>,
) -> (r: Response)
    ensures
        r@ == control_reply(service, action@, answer_view(*answer)),
{
    let mut headers: Vec<(&'static str, String)> = Vec::new();
    headers.push(("Content-Type", "text/xml; charset=\"utf-8\"".to_owned()));
    match answer {
        Ok(inner) => {
            headers.push(("EXT", "".to_owned()));
            let urn: &str = match service {
                Service::AvTransport => "urn:schemas-upnp-org:service:AVTransport:1",
                Service::RenderingControl => "urn:schemas-upnp-org:service:RenderingControl:1",
                _ => "urn:schemas-upnp-org:service:ConnectionManager:1",
            };
            let r = Response {
                status: 200,
                headers,
                body: soap_response(action, urn, inner.as_str()),
            };
            assert(r@.headers =~= control_reply(service, action@, answer_view(*answer)).headers);
            r
        },
        Err((code, description)) => {
            let r = Response {
                status: 500,
                headers,
                body: soap_fault(*code, description.as_str()),
            };
            assert(r@.headers =~= control_reply(service, action@, answer_view(*answer)).headers);
            r
        },
    }
}

// ---------------------------------------------------------------------------------------------
// Keeping up with the player
// ---------------------------------------------------------------------------------------------
/// The milliseconds to wait before the player is polled again.
pub open spec fn poll_millis(s: PlaybackState) -> nat {
    match s {
        PlaybackState::Playing | PlaybackState::Transitioning => 500,
        PlaybackState::Paused => 1000,
        PlaybackState::Stopped => 2500,
    }
}

/// How long to wait before the player is polled again: short while the media plays or loads, long
/// while nothing does.
pub fn poll_interval(s: PlaybackState) -> (r: Duration)
    ensures
        r@ == time::millis(poll_millis(s)),
{
    match s {
        PlaybackState::Playing | PlaybackState::Transitioning => Duration::from_millis(500),
        PlaybackState::Paused => Duration::from_millis(1000),
        PlaybackState::Stopped => Duration::from_millis(2500),
    }
}

/// The state after the player was polled.
pub open spec fn polled(av: AvModel, s: PlaybackState, position: nat, duration: nat, now: nat) -> AvModel {
    let mapped = mapped_state(s, av.current_uri.len() > 0);
    AvModel {
        transport_state: mapped,
        position,
        duration: if duration > 0 {
            duration
        } else {
            av.duration
        },
        last_change_seq: if mapped == av.transport_state {
            av.last_change_seq
        } else {
            next_seq(av.last_change_seq)
        },
        last_updated: now,
        ..av
    }
}

/// Takes over what the player was polled for. Have subscribers to be notified, because the
/// transport state changed?
pub fn apply_poll(
    av: &mut AVState,
    player_state: PlaybackState,
    position: Duration,
    duration: Duration,
    now: Duration,
) -> (r: bool)
    ensures
        final(av)@ == polled(old(av)@, player_state, position@, duration@, now@),
        r == (final(av)@.transport_state != old(av)@.transport_state),
        ({
            let media = old(av)@.current_uri.len() > 0;
            let told = final(av)@.transport_state;
            &&& !media ==> told == TransportState::NoMediaPresent
            &&& media && player_state == PlaybackState::Stopped ==> told
                == TransportState::Stopped
            &&& media && player_state == PlaybackState::Playing ==> told
                == TransportState::Playing
            &&& media && player_state == PlaybackState::Paused ==> told
                == TransportState::PausedPlayback
            &&& media && player_state == PlaybackState::Transitioning ==> told
                == TransportState::Transitioning
            &&& final(av)@.position == position@
            &&& duration@ > 0 ==> final(av)@.duration == duration@
            &&& duration@ == 0 ==> final(av)@.duration == old(av)@.duration
            &&& final(av)@.last_updated == now@
            &&& final(av)@.current_uri == old(av)@.current_uri
        }),
{
    let mapped = transport_state_for_player(player_state, !av.current_uri.as_str().is_empty());
    let changed: bool = av.transport_state != mapped;
    av.position = position;
    if !duration.is_zero() {
        av.duration = duration;
    }
    if changed {
        av.transport_state = mapped;
        av.last_change_seq = count_on(av.last_change_seq);
    }
    av.last_updated = now;
    changed
}

// ---------------------------------------------------------------------------------------------
// Laws
// ---------------------------------------------------------------------------------------------
/// A request without a `SOAPAction` header is taken as if a header named the action of its first
/// `<u:` element: that action is the element's name, and the state and the answer are the same.
pub proof fn lemma_action_in_body(
    av: AvModel,
    service: Service,
    header: &str,
    before: Seq<char>,
    action: Seq<char>,
    end: char,
    after: Seq<char>,
    now: nat,
)
    requires
        !text::contains(before, "<u:"@),
        forall|i: int| 0 <= i < action.len() ==> !ends_action(#[trigger] action[i]),
        ends_action(end),
        action.len() > 0,
        xml::action_of(header@) == action,
    ensures
        ({
            let body = (before + "<u:"@ + action).push(end) + after;
            &&& named_action(None, body) == action
            &&& named_action(Some(header), body) == action
            &&& control_step(av, service, named_action(None, body), body, now) == control_step(
                av,
                service,
                named_action(Some(header), body),
                body,
                now,
            )
        }),
{
    let body = (before + "<u:"@ + action).push(end) + after;
    let n = before.len() as int;
    reveal_strlit("<u:");
    let pat = "<u:"@;
    assert(body.subrange(n, n + 3) =~= pat);
    assert forall|j: int| 0 <= j < n implies !text::occurs_at(body, pat, j) by {
        if text::occurs_at(body, pat, j) {
            if j + 3 <= n {
                assert(before.subrange(j, j + 3) =~= body.subrange(j, j + 3));
                assert(text::occurs_at(before, pat, j));
            } else {
                assert(body.subrange(j, j + 3)[n - j] == body[n]);
                assert(body[n] == '<');
            }
        }
    }
    text::lemma_find_is(body, pat, n);
    let rest = body.skip(n + 3);
    let m = action.len() as int;
    assert(rest[m] == end);
    assert forall|j: int| 0 <= j < m implies !ends_action(#[trigger] rest[j]) by {
        assert(rest[j] == action[j]);
    }
    assert(action_ends_at(rest, m));
    let k = choose|k: int| action_ends_at(rest, k);
    assert(action_ends_at(rest, k));
    assert(k == m);
    assert(rest.take(m) =~= action);
}

/// Only setting media changes the state before the player reports; every other action of
/// AVTransport leaves it as it is.
pub proof fn lemma_only_media_changes(av: AvModel, action: Seq<char>, body: Seq<char>, now: nat)
    requires
        action != "SetAVTransportURI"@,
    ensures
        avtransport_step(av, action, body, now).0 == av,
{
}

/// Whatever an action is refused for, the state stays as it is.
pub proof fn lemma_refusal_changes_nothing(
    av: AvModel,
    service: Service,
    action: Seq<char>,
    body: Seq<char>,
    c: CommandModel,
    report: PlayerReport,
    now: nat,
)
    ensures
        control_step(av, service, action, body, now).1 matches StepModel::Answer(Err(_))
            ==> control_step(av, service, action, body, now).0 == av,
        transport_finish(av, c, report, now).1 is Err ==> transport_finish(av, c, report, now).0
            == av,
{
}

/// The name is an action of AVTransport.
pub open spec fn is_avtransport_action(a: Seq<char>) -> bool {
    ||| a == "SetAVTransportURI"@
    ||| a == "SetNextAVTransportURI"@
    ||| a == "GetMediaInfo"@
    ||| a == "GetTransportInfo"@
    ||| a == "GetPositionInfo"@
    ||| a == "GetDeviceCapabilities"@
    ||| a == "GetTransportSettings"@
    ||| a == "Stop"@
    ||| a == "Play"@
    ||| a == "Pause"@
    ||| a == "Seek"@
    ||| a == "Next"@
    ||| a == "Previous"@
    ||| a == "SetPlayMode"@
    ||| a == "GetCurrentTransportActions"@
}

/// The name is an action of RenderingControl.
pub open spec fn is_rendering_action(a: Seq<char>) -> bool {
    ||| a == "GetVolume"@
    ||| a == "SetVolume"@
    ||| a == "GetMute"@
    ||| a == "SetMute"@
    ||| a == "ListPresets"@
    ||| a == "SelectPreset"@
}

/// The name is an action of ConnectionManager.
pub open spec fn is_connection_action(a: Seq<char>) -> bool {
    ||| a == "GetProtocolInfo"@
    ||| a == "GetCurrentConnectionIDs"@
    ||| a == "GetCurrentConnectionInfo"@
}

/// A name that is no action of a service is answered with error 401, and changes nothing.
pub proof fn lemma_unknown_action(av: AvModel, action: Seq<char>, body: Seq<char>, now: nat)
    ensures
        !is_avtransport_action(action) ==> control_step(
            av,
            Service::AvTransport,
            action,
            body,
            now,
        ) == (av, error_step(401, "Invalid Action "@ + action)),
        !is_rendering_action(action) ==> control_step(
            av,
            Service::RenderingControl,
            action,
            body,
            now,
        ) == (av, error_step(401, "Invalid Action "@ + action)),
        !is_connection_action(action) ==> control_step(
            av,
            Service::ConnectionManager,
            action,
            body,
            now,
        ) == (av, error_step(401, "Invalid Action "@ + action)),
{
}

/// New media does not inherit the length, the position or the transport state of the old.
pub proof fn lemma_media_starts_anew(
    one: AvModel,
    other: AvModel,
    uri: Seq<char>,
    metadata: Seq<char>,
    now: nat,
)
    ensures
        with_media(one, uri, metadata, now).duration == with_media(
            other,
            uri,
            metadata,
            now,
        ).duration,
        state::didl_duration(metadata) is None ==> with_media(one, uri, metadata, now).duration
            == 0,
        with_media(one, uri, metadata, now).position == 0,
        with_media(one, uri, metadata, now).transport_state == TransportState::Stopped,
        with_media(one, uri, metadata, now).current_uri == uri,
{
}

/// The position that is told is at most 950 ms ahead of the one that is known, and within media
/// whose length is known.
pub proof fn lemma_told_position(av: AvModel, now: nat)
    ensures
        told_position(av, now) <= av.position + time::millis(950),
        av.duration > 0 ==> told_position(av, now) <= av.duration,
        av.transport_state != TransportState::Playing && (av.duration == 0 || av.position
            <= av.duration) ==> told_position(av, now) == av.position,
{
}

/// Where no media is set there is none, whatever the player does, and `Play` is refused with error
/// 701.
pub proof fn lemma_no_media(
    av: AvModel,
    s: PlaybackState,
    position: nat,
    duration: nat,
    body: Seq<char>,
    now: nat,
)
    requires
        av.current_uri.len() == 0,
    ensures
        polled(av, s, position, duration, now).transport_state == TransportState::NoMediaPresent,
        avtransport_step(av, "Play"@, body, now) == (
            av,
            error_step(701, "Transition not available"@),
        ),
{
    reveal_strlit("Play");
    reveal_strlit("SetAVTransportURI");
    reveal_strlit("SetNextAVTransportURI");
    reveal_strlit("Next");
    reveal_strlit("Previous");
    reveal_strlit("SetPlayMode");
    reveal_strlit("GetMediaInfo");
    reveal_strlit("GetTransportInfo");
    reveal_strlit("GetPositionInfo");
    reveal_strlit("GetDeviceCapabilities");
    reveal_strlit("GetTransportSettings");
    reveal_strlit("Stop");
    assert("Play"@[0] == 'P');
    assert("Next"@[0] == 'N');
    assert("Stop"@[0] == 'S');
}

/// A character that times and numbers are written with.
spec fn is_clock_char(c: char) -> bool {
    text::is_digit(c) || c == ':'
}

proof fn lemma_clock_chars(total: nat, i: int)
    requires
        0 <= i < state::clock_text(total).len(),
    ensures
        is_clock_char(state::clock_text(total)[i]),
{
    let h = number::decimal_of(total / 3600);
    let m = number::two_digits_of((total % 3600) / 60);
    let s = number::two_digits_of(total % 60);
    number::lemma_decimal_reads_back(total / 3600);
    number::lemma_decimal_reads_back((total % 3600) / 60);
    number::lemma_decimal_reads_back(total % 60);
    reveal_strlit(":");
    let t = state::clock_text(total);
    let dm = number::decimal_of((total % 3600) / 60);
    let ds = number::decimal_of(total % 60);
    assert forall|k: int| 0 <= k < m.len() implies text::is_digit(#[trigger] m[k]) by {
        if m.len() > dm.len() {
            assert(k > 0 ==> m[k] == dm[k - 1]);
            assert(k > 0 ==> text::is_digit(dm[k - 1]));
        } else {
            assert(text::is_digit(dm[k]));
        }
    }
    assert forall|k: int| 0 <= k < s.len() implies text::is_digit(#[trigger] s[k]) by {
        if s.len() > ds.len() {
            assert(k > 0 ==> s[k] == ds[k - 1]);
            assert(k > 0 ==> text::is_digit(ds[k - 1]));
        } else {
            assert(text::is_digit(ds[k]));
        }
    }
    let a = h.len() as int;
    let b = a + 1 + m.len();
    if i < a {
        assert(t[i] == h[i]);
    } else if i == a {
    } else if i < b {
        assert(t[i] == m[i - a - 1]);
    } else if i == b {
    } else {
        assert(t[i] == s[i - b - 1]);
    }
}

/// What stands before the URI in the answer to `GetMediaInfo`.
spec fn before_uri(av: AvModel) -> Seq<char> {
    "<NrTracks>"@ + count_text(av) + "</NrTracks><MediaDuration>"@ + xml::length_text(av.duration)
        + "</MediaDuration>"@
}

proof fn lemma_no_uri_before(av: AvModel)
    ensures
        !text::contains(before_uri(av), "<"@ + "CurrentURI"@),
{
    let p = before_uri(av);
    let one = count_text(av);
    let len = xml::length_text(av.duration);
    reveal_strlit("<NrTracks>");
    reveal_strlit("</NrTracks><MediaDuration>");
    reveal_strlit("</MediaDuration>");
    reveal_strlit("0");
    reveal_strlit("1");
    reveal_strlit("00:00:00");
    reveal_strlit("<");
    reveal_strlit("CurrentURI");
    assert(one.len() == 1 && one[0] != '<');
    assert forall|k: int| 0 <= k < len.len() implies #[trigger] len[k] != '<' by {
        if time::whole_secs(av.duration) > 0 {
            lemma_clock_chars(time::whole_secs(av.duration), k);
        }
    }
    let n = len.len() as int;
    assert forall|i: int| 0 <= i < p.len() - 1 && #[trigger] p[i] == '<' implies p[i + 1] != 'C' by {
        assert(i < 10 ==> p[i] == "<NrTracks>"@[i]);
        assert(i < 9 ==> p[i + 1] == "<NrTracks>"@[i + 1]);
        assert(i == 10 ==> p[i] == one[0]);
        assert(11 <= i < 37 ==> p[i] == "</NrTracks><MediaDuration>"@[i - 11]);
        assert(11 <= i < 36 ==> p[i + 1] == "</NrTracks><MediaDuration>"@[i - 10]);
        assert(37 <= i < 37 + n ==> p[i] == len[i - 37]);
        assert(37 + n <= i ==> p[i] == "</MediaDuration>"@[i - 37 - n]);
        assert(37 + n <= i ==> p[i + 1] == "</MediaDuration>"@[i - 36 - n]);
    }
    if text::contains(p, "<"@ + "CurrentURI"@) {
        let pat = "<"@ + "CurrentURI"@;
        let j = choose|j: int| text::occurs_at(p, pat, j);
        assert(p.subrange(j, j + pat.len())[0] == p[j]);
        assert(p.subrange(j, j + pat.len())[1] == p[j + 1]);
        assert(pat[0] == '<' && pat[1] == 'C');
    }
}

/// The media that is set is the media that is told: `GetMediaInfo` tells the URI, escaped, and
/// unescaping what it tells gives the URI back, unless it has white space at an end or holds the
/// text of an entity for a quote.
pub proof fn lemma_media_reads_back(av: AvModel, uri: Seq<char>, metadata: Seq<char>, now: nat)
    ensures
        ({
            let told = xml::tag_content(
                media_info(with_media(av, uri, metadata, now)),
                "CurrentURI"@,
            );
            &&& told == Some(text::trim_of(xml::escaped(uri, false)))
            &&& xml::lacks_quote_entities(uri) && text::trim_of(xml::escaped(uri, false))
                == xml::escaped(uri, false) ==> state::unescape_of(told->0) == uri
        }),
{
    let m = with_media(av, uri, metadata, now);
    let value = xml::escaped(uri, false);
    let tag = "CurrentURI"@;
    let after = "<CurrentURIMetaData>"@ + xml::escaped(metadata, false)
        + "</CurrentURIMetaData><NextURI></NextURI><NextURIMetaData></NextURIMetaData><PlayMedium>NETWORK</PlayMedium><RecordMedium>NOT_IMPLEMENTED</RecordMedium><WriteStatus>NOT_IMPLEMENTED</WriteStatus>"@;
    reveal_strlit("CurrentURI");
    reveal_strlit("<");
    reveal_strlit("</");
    reveal_strlit(">");
    reveal_strlit("</MediaDuration><CurrentURI>");
    reveal_strlit("</MediaDuration>");
    reveal_strlit("</CurrentURI><CurrentURIMetaData>");
    reveal_strlit("<CurrentURIMetaData>");
    lemma_no_uri_before(m);
    assert(forall|i: int|
        xml::opens_at(before_uri(m), "<"@ + tag, i) ==> text::occurs_at(
            before_uri(m),
            "<"@ + tag,
            i,
        ));
    xml::lemma_escape_hides_tags(uri, false);
    xml::lemma_argument_reads_back(before_uri(m), tag, value, after);
    assert("</MediaDuration><CurrentURI>"@ =~= "</MediaDuration>"@ + ("<"@ + tag + ">"@));
    assert("</CurrentURI><CurrentURIMetaData>"@ =~= ("</"@ + tag + ">"@)
        + "<CurrentURIMetaData>"@);
    assert(media_info(m) =~= before_uri(m) + ("<"@ + tag + ">"@) + value + ("</"@ + tag + ">"@)
        + after);
    if xml::lacks_quote_entities(uri) {
        xml::lemma_escape_undone(uri, false);
    }
}

/// The volume never leaves 0 to 100.
pub proof fn lemma_volume_bounded(av: AvModel, action: Seq<char>, body: Seq<char>)
    requires
        av.volume <= 100,
    ensures
        rendering_step(av, action, body).0.volume <= 100,
{
}

/// The volume and the muting that are set are those that are read.
pub proof fn lemma_sound_reads_back(av: AvModel, body: Seq<char>, later: Seq<char>)
    ensures
        rendering_step(rendering_step(av, "SetVolume"@, body).0, "GetVolume"@, later).1 == ok_step(
            "<CurrentVolume>"@ + number::decimal_of(
                volume_of(argument(body, "DesiredVolume"@)) as nat,
            ) + "</CurrentVolume>"@,
        ),
        rendering_step(rendering_step(av, "SetMute"@, body).0, "GetMute"@, later).1 == ok_step(
            "<CurrentMute>"@ + xml::bool_text(
                means_true(
                    argument(body, "DesiredMute"@),
                    text::lower_of(argument(body, "DesiredMute"@)),
                ),
            ) + "</CurrentMute>"@,
        ),
{
    reveal_strlit("SetVolume");
    reveal_strlit("GetVolume");
    reveal_strlit("SetMute");
    reveal_strlit("GetMute");
    assert("SetVolume"@[0] == 'S' && "GetVolume"@[0] == 'G');
    assert("SetMute"@[0] == 'S' && "GetMute"@[0] == 'G');
    assert("SetMute"@.len() != "SetVolume"@.len());
}

/// What the player does is what is told: with media set, a poll and the end of every action but
/// `Seek` give the player's own state; two states of the player never give the same one.
pub proof fn lemma_player_is_told(
    av: AvModel,
    c: CommandModel,
    s: PlaybackState,
    other: PlaybackState,
    position: Duration,
    duration: Duration,
    now: nat,
)
    requires
        av.current_uri.len() > 0,
    ensures
        ({
            let polled_to = polled(av, s, position@, duration@, now).transport_state;
            let finished = transport_finish(
                av,
                c,
                PlayerReport::Done(s, position, duration),
                now,
            );
            let (after, answer) = finished;
            &&& s == PlaybackState::Stopped <==> polled_to == TransportState::Stopped
            &&& s == PlaybackState::Playing <==> polled_to == TransportState::Playing
            &&& s == PlaybackState::Paused <==> polled_to == TransportState::PausedPlayback
            &&& s == PlaybackState::Transitioning <==> polled_to == TransportState::Transitioning
            &&& s != other ==> polled(av, other, position@, duration@, now).transport_state
                != polled_to
            &&& answer == Ok::<Seq<char>, (nat, Seq<char>)>(""@)
            &&& !(c is Seek) ==> after.transport_state == polled_to
            &&& c is Seek ==> after.transport_state == av.transport_state
            &&& after.position == position@ && after.last_updated == now
            &&& after.duration == if duration@ > 0 {
                duration@
            } else {
                av.duration
            }
            &&& after.volume == av.volume && after.mute == av.mute && after.title == av.title
            &&& after.current_uri == av.current_uri && after.current_metadata
                == av.current_metadata && after.track == av.track
        }),
{
}

/// Subscribers can tell changes apart: the count goes on by one, and begins anew behind the
/// largest, with every finished action, and with a poll exactly where the transport state changed.
pub proof fn lemma_changes_counted(
    av: AvModel,
    c: CommandModel,
    s: PlaybackState,
    position: Duration,
    duration: Duration,
    now: nat,
)
    ensures
        ({
            let next = if av.last_change_seq == 0xffff_ffff {
                0
            } else {
                av.last_change_seq + 1
            };
            let p = polled(av, s, position@, duration@, now);
            &&& transport_finish(
                av,
                c,
                PlayerReport::Done(s, position, duration),
                now,
            ).0.last_change_seq == next
            &&& p.transport_state == av.transport_state ==> p.last_change_seq
                == av.last_change_seq
            &&& p.transport_state != av.transport_state ==> p.last_change_seq == next
        }),
{
}

/// A player that is missing, or whose command failed, makes the action fail with error 501, which
/// tells the command.
pub proof fn lemma_player_failure_is_told(av: AvModel, target: nat, e: String, now: nat)
    ensures
        transport_finish(av, CommandModel::Stop, PlayerReport::Failed(e), now).1 == Err::<
            Seq<char>,
            (nat, Seq<char>),
        >((501, "VLC "@ + "stop"@ + " failed: "@ + e@)),
        transport_finish(av, CommandModel::Play, PlayerReport::Failed(e), now).1 == Err::<
            Seq<char>,
            (nat, Seq<char>),
        >((501, "VLC "@ + "play"@ + " failed: "@ + e@)),
        transport_finish(av, CommandModel::Pause, PlayerReport::Failed(e), now).1 == Err::<
            Seq<char>,
            (nat, Seq<char>),
        >((501, "VLC "@ + "pause"@ + " failed: "@ + e@)),
        transport_finish(av, CommandModel::Seek(target), PlayerReport::Failed(e), now).1 == Err::<
            Seq<char>,
            (nat, Seq<char>),
        >((501, "VLC "@ + "seek"@ + " failed: "@ + e@)),
        forall|c: CommandModel|
            (#[trigger] transport_finish(av, c, PlayerReport::Unavailable, now)).1 == Err::<
                Seq<char>,
                (nat, Seq<char>),
            >((501, "VLC player unavailable"@)),
{
}

/// The position that is told, to the nanosecond: while the media plays, the known one and the time
/// since it was known, but no more than 950 ms of it; and no more than the length, where that is
/// known.
pub proof fn lemma_told_position_exact(av: AvModel, now: nat)
    requires
        now >= av.last_updated,
    ensures
        ({
            let passed = now - av.last_updated;
            let told = told_position(av, now);
            let open = av.duration == 0;
            let plays = av.transport_state == TransportState::Playing;
            &&& plays && open && passed <= 950_000_000 ==> told == av.position + passed
            &&& plays && open && passed >= 950_000_000 ==> told == av.position + 950_000_000
            &&& plays && !open && passed <= 950_000_000 && av.position + passed <= av.duration
                ==> told == av.position + passed
            &&& plays && !open && passed >= 950_000_000 && av.position + 950_000_000
                <= av.duration ==> told == av.position + 950_000_000
            &&& !open && av.position >= av.duration ==> told == av.duration
            &&& !plays && (open || av.position <= av.duration) ==> told == av.position
        }),
{
}

proof fn lemma_names_apart()
    ensures
        "SetAVTransportURI"@.len() == 17,
        "SetNextAVTransportURI"@.len() == 21 && "SetNextAVTransportURI"@[0] == 'S',
        "Next"@.len() == 4 && "Next"@[0] == 'N',
        "Previous"@.len() == 8,
        "SetPlayMode"@.len() == 11,
        "GetMediaInfo"@.len() == 12,
        "GetTransportInfo"@.len() == 16,
        "GetPositionInfo"@.len() == 15,
        "GetDeviceCapabilities"@.len() == 21 && "GetDeviceCapabilities"@[0] == 'G',
        "GetTransportSettings"@.len() == 20,
        "Stop"@.len() == 4 && "Stop"@[0] == 'S' && "Stop"@[1] == 't',
        "Play"@.len() == 4 && "Play"@[0] == 'P',
        "Pause"@.len() == 5,
        "Seek"@.len() == 4 && "Seek"@[0] == 'S' && "Seek"@[1] == 'e',
        "GetCurrentTransportActions"@.len() == 26,
{
    reveal_strlit("SetAVTransportURI");
    reveal_strlit("SetNextAVTransportURI");
    reveal_strlit("Next");
    reveal_strlit("Previous");
    reveal_strlit("SetPlayMode");
    reveal_strlit("GetMediaInfo");
    reveal_strlit("GetTransportInfo");
    reveal_strlit("GetPositionInfo");
    reveal_strlit("GetDeviceCapabilities");
    reveal_strlit("GetTransportSettings");
    reveal_strlit("Stop");
    reveal_strlit("Play");
    reveal_strlit("Pause");
    reveal_strlit("Seek");
    reveal_strlit("GetCurrentTransportActions");
}

/// Each transport action hands the player the command of its name, in every state; only `Play`
/// needs media. What there is no second medium for is accepted and does nothing.
pub proof fn lemma_commands_are_passed_on(av: AvModel, body: Seq<char>, now: nat)
    ensures
        avtransport_step(av, "Stop"@, body, now).1 == StepModel::Transport(CommandModel::Stop),
        avtransport_step(av, "Pause"@, body, now).1 == StepModel::Transport(CommandModel::Pause),
        av.current_uri.len() > 0 ==> avtransport_step(av, "Play"@, body, now).1
            == StepModel::Transport(CommandModel::Play),
        avtransport_step(av, "Next"@, body, now).1 == StepModel::Answer(Ok(""@)),
        avtransport_step(av, "Previous"@, body, now).1 == StepModel::Answer(Ok(""@)),
        avtransport_step(av, "SetPlayMode"@, body, now).1 == StepModel::Answer(Ok(""@)),
        avtransport_step(av, "SetNextAVTransportURI"@, body, now).1 == StepModel::Answer(Ok(""@)),
{
    lemma_names_apart();
}

/// A seek by time, in whichever case its unit is written, hands the player the target to the
/// second; any other unit, and a target that is no time, is refused with error 402.
pub proof fn lemma_seek_is_passed_on(av: AvModel, body: Seq<char>, total: u64, now: nat)
    ensures
        ({
            let unit = text::ascii_upper_of(argument(body, "Unit"@));
            let target = argument(body, "Target"@);
            let timed = unit == "REL_TIME"@ || unit == "ABS_TIME"@;
            let step = avtransport_step(av, "Seek"@, body, now).1;
            &&& timed && target == state::clock_text(total as nat) ==> step
                == StepModel::Transport(CommandModel::Seek(total as nat * 1_000_000_000))
            &&& timed && state::time_of(target) is None ==> step == StepModel::Answer(
                Err((402, "Invalid Args"@)),
            )
            &&& !text::same_but_case(argument(body, "Unit"@), "REL_TIME"@)
                && !text::same_but_case(argument(body, "Unit"@), "ABS_TIME"@) ==> step
                == StepModel::Answer(Err((402, "Invalid Args"@)))
        }),
{
    lemma_names_apart();
    state::lemma_time_reads_back(total);
    let unit = argument(body, "Unit"@);
    reveal_strlit("REL_TIME");
    reveal_strlit("ABS_TIME");
    if unit.len() > 0 {
        text::lemma_letter_case(unit, 0);
    }
}

/// Setting media keeps what the request gives, starts at its beginning, keeps the volume and the
/// muting, and hands the player the URI and the title; without a URI it is refused with error 402.
pub proof fn lemma_media_is_set(av: AvModel, body: Seq<char>, now: nat)
    ensures
        ({
            let uri = argument(body, "CurrentURI"@);
            let metadata = argument(body, "CurrentURIMetaData"@);
            let (after, step) = avtransport_step(av, "SetAVTransportURI"@, body, now);
            &&& uri.len() == 0 ==> after == av && step == StepModel::Answer(
                Err((402, "Invalid Args"@)),
            )
            &&& uri.len() > 0 ==> {
                &&& step == StepModel::SetUri(uri, after.title)
                &&& after.current_uri == uri && after.current_metadata == metadata
                &&& after.title == media_title(uri, metadata)
                &&& after.transport_state == TransportState::Stopped
                &&& after.position == 0 && after.track == 0 && after.last_updated == now
                &&& after.volume == av.volume && after.mute == av.mute
                &&& state::didl_duration(metadata) is None ==> after.duration == 0
                &&& state::didl_duration(metadata) matches Some(d) ==> after.duration == d
                &&& after.last_change_seq == if av.last_change_seq == 0xffff_ffff {
                    0
                } else {
                    av.last_change_seq + 1
                }
            }
        }),
{
    lemma_names_apart();
}

/// The title of media: the artist, a dash and the title, or the one of them that is told.
pub proof fn lemma_title_is_composed(uri: Seq<char>, metadata: Seq<char>)
    ensures
        ({
            let didl = state::unescape_of(metadata);
            let told = media_title(uri, metadata);
            match (state::title_in(didl), state::artist_in(didl)) {
                (Some(t), Some(a)) => t.len() > 0 && a.len() > 0 ==> told == a + " - "@ + t,
                (Some(t), None) => t.len() > 0 ==> told == t,
                (None, Some(a)) => a.len() > 0 ==> told == a,
                (None, None) => text::free_of(uri, CharSet::One('/')) ==> told.len() == 0,
            }
        }),
{
    reveal_strlit(" - ");
    if text::free_of(uri, CharSet::One('/')) && uri.contains('/') {
        let i = choose|i: int| 0 <= i < uri.len() && uri[i] == '/';
        assert(!CharSet::One('/').has(uri[i]));
    }
}

/// Media without metadata is titled by the last segment of its URI, without the query.
pub proof fn lemma_title_from_uri(
    path: Seq<char>,
    name: Seq<char>,
    query: Seq<char>,
    metadata: Seq<char>,
)
    requires
        state::title_in(state::unescape_of(metadata)) is None,
        state::artist_in(state::unescape_of(metadata)) is None,
        text::free_of(name, CharSet::One('/')),
        text::free_of(name, CharSet::One('?')),
        text::free_of(query, CharSet::One('/')),
    ensures
        media_title(path.push('/') + name, metadata) == name,
        media_title(path.push('/') + (name.push('?') + query), metadata) == name,
{
    let set = CharSet::One('/');
    let q = name.push('?') + query;
    assert forall|i: int| 0 <= i < q.len() implies !set.has(#[trigger] q[i]) by {
        if i < name.len() {
            assert(!set.has(name[i]));
        } else if i > name.len() {
            assert(!set.has(query[i - name.len() - 1]));
        }
    }
    text::lemma_after_last_is(path, '/', name);
    text::lemma_after_last_is(path, '/', q);
    text::lemma_split_free(name, CharSet::One('?'));
    text::lemma_split_concat(name, '?', query, CharSet::One('?'));
}

// What the state answers.

proof fn lemma_clock_is_plain(total: nat)
    ensures
        !state::clock_text(total).contains('<'),
        text::trim_of(state::clock_text(total)) == state::clock_text(total),
{
    let t = state::clock_text(total);
    number::lemma_decimal_reads_back(total / 3600);
    assert(t.len() > 0);
    lemma_clock_chars(total, 0);
    lemma_clock_chars(total, t.len() - 1);
    text::lemma_strip_keeps(t, CharSet::White);
    if t.contains('<') {
        let i = choose|i: int| 0 <= i < t.len() && t[i] == '<';
        lemma_clock_chars(total, i);
    }
}

proof fn lemma_count_is_plain(av: AvModel)
    ensures
        !count_text(av).contains('<'),
        text::trim_of(count_text(av)) == count_text(av),
{
    reveal_strlit("0");
    reveal_strlit("1");
    text::lemma_strip_keeps(count_text(av), CharSet::White);
}

proof fn lemma_length_is_plain(nanos: nat)
    ensures
        !xml::length_text(nanos).contains('<'),
        text::trim_of(xml::length_text(nanos)) == xml::length_text(nanos),
        !"00:00:00"@.contains('<'),
        text::trim_of("00:00:00"@) == "00:00:00"@,
{
    reveal_strlit("00:00:00");
    lemma_clock_is_plain(time::whole_secs(nanos));
    text::lemma_strip_keeps("00:00:00"@, CharSet::White);
}

proof fn lemma_state_names_are_plain(s: TransportState)
    ensures
        !s.name().contains('<') && text::trim_of(s.name()) == s.name(),
        !"OK"@.contains('<') && text::trim_of("OK"@) == "OK"@,
        !"1"@.contains('<') && text::trim_of("1"@) == "1"@,
{
    reveal_strlit("OK");
    reveal_strlit("1");
    reveal_strlit("STOPPED");
    reveal_strlit("PLAYING");
    reveal_strlit("PAUSED_PLAYBACK");
    reveal_strlit("TRANSITIONING");
    reveal_strlit("NO_MEDIA_PRESENT");
    text::lemma_strip_keeps(s.name(), CharSet::White);
    text::lemma_strip_keeps("OK"@, CharSet::White);
    text::lemma_strip_keeps("1"@, CharSet::White);
}

proof fn lemma_transport_tags()
    ensures
        xml::plain_name("CurrentTransportState"@),
        xml::plain_name("CurrentTransportStatus"@),
        xml::plain_name("CurrentSpeed"@),
        "CurrentTransportState"@ != "CurrentTransportStatus"@,
        "CurrentTransportState"@ != "CurrentSpeed"@,
        "CurrentTransportStatus"@ != "CurrentSpeed"@,
{
    reveal_strlit("CurrentTransportState");
    reveal_strlit("CurrentTransportStatus");
    reveal_strlit("CurrentSpeed");
    assert("CurrentTransportState"@.len() == 21);
    assert("CurrentTransportStatus"@.len() == 22);
    assert("CurrentSpeed"@.len() == 12);
}

proof fn lemma_transport_joints()
    ensures
        "<CurrentTransportState>"@ == ("<"@ + "CurrentTransportState"@ + ">"@),
        "</CurrentTransportState><CurrentTransportStatus>OK</CurrentTransportStatus><CurrentSpeed>1</CurrentSpeed>"@ == ("</"@ + "CurrentTransportState"@ + ">"@) + (("<"@ + "CurrentTransportStatus"@ + ">"@) + "OK"@ + ("</"@ + "CurrentTransportStatus"@ + ">"@)) + (("<"@ + "CurrentSpeed"@ + ">"@) + "1"@ + ("</"@ + "CurrentSpeed"@ + ">"@)),
{
    reveal_strlit("<");
    reveal_strlit("</");
    reveal_strlit(">");
    reveal_strlit("<CurrentTransportState>");
    reveal_strlit("CurrentTransportState");
    reveal_strlit(
        "</CurrentTransportState><CurrentTransportStatus>OK</CurrentTransportStatus><CurrentSpeed>1</CurrentSpeed>",
    );
    reveal_strlit("CurrentTransportStatus");
    reveal_strlit("OK");
    reveal_strlit("CurrentSpeed");
    reveal_strlit("1");
    assert("<CurrentTransportState>"@ =~= ("<"@ + "CurrentTransportState"@ + ">"@));
    assert("</CurrentTransportState><CurrentTransportStatus>OK</CurrentTransportStatus><CurrentSpeed>1</CurrentSpeed>"@ =~= ("</"@ + "CurrentTransportState"@ + ">"@) + (("<"@ + "CurrentTransportStatus"@ + ">"@) + "OK"@ + ("</"@ + "CurrentTransportStatus"@ + ">"@)) + (("<"@ + "CurrentSpeed"@ + ">"@) + "1"@ + ("</"@ + "CurrentSpeed"@ + ">"@)));
}

proof fn lemma_transport_list(av: AvModel, list: Seq<(Seq<char>, Seq<char>)>)
    requires
        list == ({
            seq![
                ("CurrentTransportState"@, av.transport_state.name()),
                ("CurrentTransportStatus"@, "OK"@),
                ("CurrentSpeed"@, "1"@),
            ]
        }),
    ensures
        transport_info(av) == xml::elements(list),
{
    lemma_transport_joints();
    let l0 = Seq::<(Seq<char>, Seq<char>)>::empty();
    let none = Seq::<char>::empty();
    assert(none + none =~= xml::elements(l0));
    assert("<CurrentTransportState>"@ =~= none + ("<"@ + "CurrentTransportState"@ + ">"@));
    let s0 = none;
    assert(none + "<CurrentTransportState>"@ + av.transport_state.name() =~= "<CurrentTransportState>"@ + av.transport_state.name());
    xml::lemma_elements_next(
        l0,
        s0,
        none,
        "<CurrentTransportState>"@,
        "CurrentTransportState"@,
        av.transport_state.name(),
    );
    let s1 = s0 + "<CurrentTransportState>"@ + av.transport_state.name();
    let l1 = l0.push(("CurrentTransportState"@, av.transport_state.name()));
    xml::lemma_elements_push(l1, "CurrentTransportStatus"@, "OK"@);
    let l2 = l1.push(("CurrentTransportStatus"@, "OK"@));
    let e2 = ("<"@ + "CurrentTransportStatus"@ + ">"@) + "OK"@ + ("</"@ + "CurrentTransportStatus"@ + ">"@);
    xml::lemma_elements_push(l2, "CurrentSpeed"@, "1"@);
    let l3 = l2.push(("CurrentSpeed"@, "1"@));
    let e3 = ("<"@ + "CurrentSpeed"@ + ">"@) + "1"@ + ("</"@ + "CurrentSpeed"@ + ">"@);
    assert(s1 + (("</"@ + "CurrentTransportState"@ + ">"@) + e2 + e3) =~= (s1 + ("</"@ + "CurrentTransportState"@ + ">"@)) + e2 + e3);
    assert(list =~= l3);
    assert(transport_info(av) == s1 + "</CurrentTransportState><CurrentTransportStatus>OK</CurrentTransportStatus><CurrentSpeed>1</CurrentSpeed>"@);
}

#[verifier::spinoff_prover]
#[verifier::rlimit(50)]
proof fn lemma_transport_read(c0: Seq<char>, c1: Seq<char>, c2: Seq<char>)
    requires
        !c0.contains('<'),
        !c1.contains('<'),
        !c2.contains('<'),
    ensures
        ({
            let list = seq![
                ("CurrentTransportState"@, c0),
                ("CurrentTransportStatus"@, c1),
                ("CurrentSpeed"@, c2),
            ];
            &&& xml::tag_content(xml::elements(list), "CurrentTransportState"@) == Some(text::trim_of(c0))
            &&& xml::tag_content(xml::elements(list), "CurrentTransportStatus"@) == Some(text::trim_of(c1))
            &&& xml::tag_content(xml::elements(list), "CurrentSpeed"@) == Some(text::trim_of(c2))
        }),
{
    let list = seq![
        ("CurrentTransportState"@, c0),
        ("CurrentTransportStatus"@, c1),
        ("CurrentSpeed"@, c2),
    ];
    lemma_transport_tags();
    assert(xml::plain_elements(list));
    assert(xml::tag_content(xml::elements(list), "CurrentTransportState"@) == Some(text::trim_of(c0))) by {
        xml::lemma_elements_read_back(list, 0);
    }
    assert(xml::tag_content(xml::elements(list), "CurrentTransportStatus"@) == Some(text::trim_of(c1))) by {
        xml::lemma_elements_read_back(list, 1);
    }
    assert(xml::tag_content(xml::elements(list), "CurrentSpeed"@) == Some(text::trim_of(c2))) by {
        xml::lemma_elements_read_back(list, 2);
    }
}

/// The transport state that is told is the one that stands, under its name.
pub proof fn lemma_transport_info_reads_back(av: AvModel, body: Seq<char>, now: nat)
    ensures
        ({
            let step = avtransport_step(av, "GetTransportInfo"@, body, now).1;
            step matches StepModel::Answer(Ok(told)) && {
                &&& xml::tag_content(told, "CurrentTransportState"@) == Some(
                    match av.transport_state {
                        TransportState::Stopped => "STOPPED"@,
                        TransportState::Playing => "PLAYING"@,
                        TransportState::PausedPlayback => "PAUSED_PLAYBACK"@,
                        TransportState::Transitioning => "TRANSITIONING"@,
                        TransportState::NoMediaPresent => "NO_MEDIA_PRESENT"@,
                    },
                )
                &&& xml::tag_content(told, "CurrentTransportStatus"@) == Some("OK"@)
                &&& xml::tag_content(told, "CurrentSpeed"@) == Some("1"@)
            }
        }),
{
    lemma_names_apart();
    let list = seq![
        ("CurrentTransportState"@, av.transport_state.name()),
        ("CurrentTransportStatus"@, "OK"@),
        ("CurrentSpeed"@, "1"@),
    ];
    lemma_transport_list(av, list);
    lemma_state_names_are_plain(av.transport_state);
    lemma_transport_read(av.transport_state.name(), "OK"@, "1"@);
}

/// The actions that are told are those that the transport state allows.
pub proof fn lemma_actions_told(av: AvModel, body: Seq<char>, now: nat)
    ensures
        avtransport_step(av, "GetCurrentTransportActions"@, body, now).1 == StepModel::Answer(
            Ok(
                "<Actions>"@ + match av.transport_state {
                    TransportState::Playing => "Play,Stop,Pause,Seek"@,
                    TransportState::PausedPlayback => "Play,Stop,Seek"@,
                    TransportState::Stopped => "Play"@,
                    TransportState::Transitioning => "Stop"@,
                    TransportState::NoMediaPresent => ""@,
                } + "</Actions>"@,
            ),
        ),
{
    lemma_names_apart();
}

proof fn lemma_word_is_plain()
    ensures
        !""@.contains('<') && text::trim_of(""@) == ""@,
        !"NETWORK"@.contains('<') && text::trim_of("NETWORK"@) == "NETWORK"@,
        !"NOT_IMPLEMENTED"@.contains('<') && text::trim_of("NOT_IMPLEMENTED"@)
            == "NOT_IMPLEMENTED"@,
        !"2147483647"@.contains('<') && text::trim_of("2147483647"@) == "2147483647"@,
{
    reveal_strlit("");
    reveal_strlit("NETWORK");
    reveal_strlit("NOT_IMPLEMENTED");
    reveal_strlit("2147483647");
    text::lemma_strip_keeps(""@, CharSet::White);
    text::lemma_strip_keeps("NETWORK"@, CharSet::White);
    text::lemma_strip_keeps("NOT_IMPLEMENTED"@, CharSet::White);
    text::lemma_strip_keeps("2147483647"@, CharSet::White);
}

proof fn lemma_position_tags()
    ensures
        xml::plain_name("Track"@),
        xml::plain_name("TrackDuration"@),
        xml::plain_name("TrackMetaData"@),
        xml::plain_name("TrackURI"@),
        xml::plain_name("RelTime"@),
        xml::plain_name("AbsTime"@),
        xml::plain_name("RelCount"@),
        xml::plain_name("AbsCount"@),
        "Track"@ != "TrackDuration"@,
        "Track"@ != "TrackMetaData"@,
        "TrackDuration"@ != "TrackMetaData"@,
        "Track"@ != "TrackURI"@,
        "TrackDuration"@ != "TrackURI"@,
        "TrackMetaData"@ != "TrackURI"@,
        "Track"@ != "RelTime"@,
        "TrackDuration"@ != "RelTime"@,
        "TrackMetaData"@ != "RelTime"@,
        "TrackURI"@ != "RelTime"@,
        "Track"@ != "AbsTime"@,
        "TrackDuration"@ != "AbsTime"@,
        "TrackMetaData"@ != "AbsTime"@,
        "TrackURI"@ != "AbsTime"@,
        "RelTime"@ != "AbsTime"@,
        "Track"@ != "RelCount"@,
        "TrackDuration"@ != "RelCount"@,
        "TrackMetaData"@ != "RelCount"@,
        "TrackURI"@ != "RelCount"@,
        "RelTime"@ != "RelCount"@,
        "AbsTime"@ != "RelCount"@,
        "Track"@ != "AbsCount"@,
        "TrackDuration"@ != "AbsCount"@,
        "TrackMetaData"@ != "AbsCount"@,
        "TrackURI"@ != "AbsCount"@,
        "RelTime"@ != "AbsCount"@,
        "AbsTime"@ != "AbsCount"@,
        "RelCount"@ != "AbsCount"@,
{
    reveal_strlit("Track");
    reveal_strlit("TrackDuration");
    reveal_strlit("TrackMetaData");
    reveal_strlit("TrackURI");
    reveal_strlit("RelTime");
    reveal_strlit("AbsTime");
    reveal_strlit("RelCount");
    reveal_strlit("AbsCount");
    assert("Track"@.len() == 5);
    assert("TrackDuration"@.len() == 13);
    assert("TrackMetaData"@.len() == 13);
    assert("TrackURI"@.len() == 8);
    assert("RelTime"@.len() == 7);
    assert("AbsTime"@.len() == 7);
    assert("RelCount"@.len() == 8);
    assert("AbsCount"@.len() == 8);
    assert("TrackDuration"@[5] != "TrackMetaData"@[5]);
    assert("RelTime"@[0] != "AbsTime"@[0]);
    assert("TrackURI"@[0] != "RelCount"@[0]);
    assert("TrackURI"@[0] != "AbsCount"@[0]);
    assert("RelCount"@[0] != "AbsCount"@[0]);
}

proof fn lemma_position_joints()
    ensures
        "<Track>"@ == ("<"@ + "Track"@ + ">"@),
        "</Track><TrackDuration>"@ == ("</"@ + "Track"@ + ">"@) + ("<"@ + "TrackDuration"@ + ">"@),
        "</TrackDuration><TrackMetaData>"@ == ("</"@ + "TrackDuration"@ + ">"@) + ("<"@ + "TrackMetaData"@ + ">"@),
        "</TrackMetaData><TrackURI>"@ == ("</"@ + "TrackMetaData"@ + ">"@) + ("<"@ + "TrackURI"@ + ">"@),
        "</TrackURI><RelTime>"@ == ("</"@ + "TrackURI"@ + ">"@) + ("<"@ + "RelTime"@ + ">"@),
        "</RelTime><AbsTime>"@ == ("</"@ + "RelTime"@ + ">"@) + ("<"@ + "AbsTime"@ + ">"@),
        "</AbsTime><RelCount>2147483647</RelCount><AbsCount>2147483647</AbsCount>"@ == ("</"@ + "AbsTime"@ + ">"@) + (("<"@ + "RelCount"@ + ">"@) + "2147483647"@ + ("</"@ + "RelCount"@ + ">"@)) + (("<"@ + "AbsCount"@ + ">"@) + "2147483647"@ + ("</"@ + "AbsCount"@ + ">"@)),
{
    reveal_strlit("<");
    reveal_strlit("</");
    reveal_strlit(">");
    reveal_strlit("<Track>");
    reveal_strlit("Track");
    reveal_strlit("</Track><TrackDuration>");
    reveal_strlit("TrackDuration");
    reveal_strlit("</TrackDuration><TrackMetaData>");
    reveal_strlit("TrackMetaData");
    reveal_strlit("</TrackMetaData><TrackURI>");
    reveal_strlit("TrackURI");
    reveal_strlit("</TrackURI><RelTime>");
    reveal_strlit("RelTime");
    reveal_strlit("</RelTime><AbsTime>");
    reveal_strlit("AbsTime");
    reveal_strlit("</AbsTime><RelCount>2147483647</RelCount><AbsCount>2147483647</AbsCount>");
    reveal_strlit("RelCount");
    reveal_strlit("2147483647");
    reveal_strlit("AbsCount");
    assert("<Track>"@ =~= ("<"@ + "Track"@ + ">"@));
    assert("</Track><TrackDuration>"@ =~= ("</"@ + "Track"@ + ">"@) + ("<"@ + "TrackDuration"@ + ">"@));
    assert("</TrackDuration><TrackMetaData>"@ =~= ("</"@ + "TrackDuration"@ + ">"@) + ("<"@ + "TrackMetaData"@ + ">"@));
    assert("</TrackMetaData><TrackURI>"@ =~= ("</"@ + "TrackMetaData"@ + ">"@) + ("<"@ + "TrackURI"@ + ">"@));
    assert("</TrackURI><RelTime>"@ =~= ("</"@ + "TrackURI"@ + ">"@) + ("<"@ + "RelTime"@ + ">"@));
    assert("</RelTime><AbsTime>"@ =~= ("</"@ + "RelTime"@ + ">"@) + ("<"@ + "AbsTime"@ + ">"@));
    assert("</AbsTime><RelCount>2147483647</RelCount><AbsCount>2147483647</AbsCount>"@ =~= ("</"@ + "AbsTime"@ + ">"@) + (("<"@ + "RelCount"@ + ">"@) + "2147483647"@ + ("</"@ + "RelCount"@ + ">"@)) + (("<"@ + "AbsCount"@ + ">"@) + "2147483647"@ + ("</"@ + "AbsCount"@ + ">"@)));
}

proof fn lemma_position_list(av: AvModel, now: nat, list: Seq<(Seq<char>, Seq<char>)>)
    requires
        list == ({
            let rel = state::clock_text(told_position(av, now) / 1_000_000_000);
            let length = if av.duration == 0 {
                "00:00:00"@
            } else {
                state::clock_text(av.duration / 1_000_000_000)
            };
            seq![
                ("Track"@, count_text(av)),
                ("TrackDuration"@, length),
                ("TrackMetaData"@, xml::escaped(av.current_metadata, false)),
                ("TrackURI"@, xml::escaped(av.current_uri, false)),
                ("RelTime"@, rel),
                ("AbsTime"@, rel),
                ("RelCount"@, "2147483647"@),
                ("AbsCount"@, "2147483647"@),
            ]
        }),
    ensures
        position_info(av, now) == xml::elements(list),
{
    lemma_position_joints();
    let rel = state::clock_text(told_position(av, now) / 1_000_000_000);
    let length = if av.duration == 0 {
        "00:00:00"@
    } else {
        state::clock_text(av.duration / 1_000_000_000)
    };
    let l0 = Seq::<(Seq<char>, Seq<char>)>::empty();
    let none = Seq::<char>::empty();
    assert(none + none =~= xml::elements(l0));
    assert("<Track>"@ =~= none + ("<"@ + "Track"@ + ">"@));
    let s0 = none;
    assert(none + "<Track>"@ + count_text(av) =~= "<Track>"@ + count_text(av));
    xml::lemma_elements_next(l0, s0, none, "<Track>"@, "Track"@, count_text(av));
    let s1 = s0 + "<Track>"@ + count_text(av);
    let l1 = l0.push(("Track"@, count_text(av)));
    xml::lemma_elements_next(
        l1,
        s1,
        ("</"@ + "Track"@ + ">"@),
        "</Track><TrackDuration>"@,
        "TrackDuration"@,
        length,
    );
    let s2 = s1 + "</Track><TrackDuration>"@ + length;
    let l2 = l1.push(("TrackDuration"@, length));
    xml::lemma_elements_next(
        l2,
        s2,
        ("</"@ + "TrackDuration"@ + ">"@),
        "</TrackDuration><TrackMetaData>"@,
        "TrackMetaData"@,
        xml::escaped(av.current_metadata, false),
    );
    let s3 = s2 + "</TrackDuration><TrackMetaData>"@ + xml::escaped(av.current_metadata, false);
    let l3 = l2.push(("TrackMetaData"@, xml::escaped(av.current_metadata, false)));
    xml::lemma_elements_next(
        l3,
        s3,
        ("</"@ + "TrackMetaData"@ + ">"@),
        "</TrackMetaData><TrackURI>"@,
        "TrackURI"@,
        xml::escaped(av.current_uri, false),
    );
    let s4 = s3 + "</TrackMetaData><TrackURI>"@ + xml::escaped(av.current_uri, false);
    let l4 = l3.push(("TrackURI"@, xml::escaped(av.current_uri, false)));
    xml::lemma_elements_next(
        l4,
        s4,
        ("</"@ + "TrackURI"@ + ">"@),
        "</TrackURI><RelTime>"@,
        "RelTime"@,
        rel,
    );
    let s5 = s4 + "</TrackURI><RelTime>"@ + rel;
    let l5 = l4.push(("RelTime"@, rel));
    xml::lemma_elements_next(
        l5,
        s5,
        ("</"@ + "RelTime"@ + ">"@),
        "</RelTime><AbsTime>"@,
        "AbsTime"@,
        rel,
    );
    let s6 = s5 + "</RelTime><AbsTime>"@ + rel;
    let l6 = l5.push(("AbsTime"@, rel));
    xml::lemma_elements_push(l6, "RelCount"@, "2147483647"@);
    let l7 = l6.push(("RelCount"@, "2147483647"@));
    let e7 = ("<"@ + "RelCount"@ + ">"@) + "2147483647"@ + ("</"@ + "RelCount"@ + ">"@);
    xml::lemma_elements_push(l7, "AbsCount"@, "2147483647"@);
    let l8 = l7.push(("AbsCount"@, "2147483647"@));
    let e8 = ("<"@ + "AbsCount"@ + ">"@) + "2147483647"@ + ("</"@ + "AbsCount"@ + ">"@);
    assert(s6 + (("</"@ + "AbsTime"@ + ">"@) + e7 + e8) =~= (s6 + ("</"@ + "AbsTime"@ + ">"@)) + e7 + e8);
    assert(list =~= l8);
    assert(position_info(av, now) == s6 + "</AbsTime><RelCount>2147483647</RelCount><AbsCount>2147483647</AbsCount>"@);
}

#[verifier::spinoff_prover]
#[verifier::rlimit(50)]
proof fn lemma_position_read(
    c0: Seq<char>,
    c1: Seq<char>,
    c2: Seq<char>,
    c3: Seq<char>,
    c4: Seq<char>,
    c5: Seq<char>,
    c6: Seq<char>,
    c7: Seq<char>,
)
    requires
        !c0.contains('<'),
        !c1.contains('<'),
        !c2.contains('<'),
        !c3.contains('<'),
        !c4.contains('<'),
        !c5.contains('<'),
        !c6.contains('<'),
        !c7.contains('<'),
    ensures
        ({
            let list = seq![
                ("Track"@, c0),
                ("TrackDuration"@, c1),
                ("TrackMetaData"@, c2),
                ("TrackURI"@, c3),
                ("RelTime"@, c4),
                ("AbsTime"@, c5),
                ("RelCount"@, c6),
                ("AbsCount"@, c7),
            ];
            &&& xml::tag_content(xml::elements(list), "Track"@) == Some(text::trim_of(c0))
            &&& xml::tag_content(xml::elements(list), "TrackDuration"@) == Some(text::trim_of(c1))
            &&& xml::tag_content(xml::elements(list), "TrackMetaData"@) == Some(text::trim_of(c2))
            &&& xml::tag_content(xml::elements(list), "TrackURI"@) == Some(text::trim_of(c3))
            &&& xml::tag_content(xml::elements(list), "RelTime"@) == Some(text::trim_of(c4))
            &&& xml::tag_content(xml::elements(list), "AbsTime"@) == Some(text::trim_of(c5))
            &&& xml::tag_content(xml::elements(list), "RelCount"@) == Some(text::trim_of(c6))
            &&& xml::tag_content(xml::elements(list), "AbsCount"@) == Some(text::trim_of(c7))
        }),
{
    let list = seq![
        ("Track"@, c0),
        ("TrackDuration"@, c1),
        ("TrackMetaData"@, c2),
        ("TrackURI"@, c3),
        ("RelTime"@, c4),
        ("AbsTime"@, c5),
        ("RelCount"@, c6),
        ("AbsCount"@, c7),
    ];
    lemma_position_tags();
    assert(xml::plain_elements(list));
    assert(xml::tag_content(xml::elements(list), "Track"@) == Some(text::trim_of(c0))) by {
        xml::lemma_elements_read_back(list, 0);
    }
    assert(xml::tag_content(xml::elements(list), "TrackDuration"@) == Some(text::trim_of(c1))) by {
        xml::lemma_elements_read_back(list, 1);
    }
    assert(xml::tag_content(xml::elements(list), "TrackMetaData"@) == Some(text::trim_of(c2))) by {
        xml::lemma_elements_read_back(list, 2);
    }
    assert(xml::tag_content(xml::elements(list), "TrackURI"@) == Some(text::trim_of(c3))) by {
        xml::lemma_elements_read_back(list, 3);
    }
    assert(xml::tag_content(xml::elements(list), "RelTime"@) == Some(text::trim_of(c4))) by {
        xml::lemma_elements_read_back(list, 4);
    }
    assert(xml::tag_content(xml::elements(list), "AbsTime"@) == Some(text::trim_of(c5))) by {
        xml::lemma_elements_read_back(list, 5);
    }
    assert(xml::tag_content(xml::elements(list), "RelCount"@) == Some(text::trim_of(c6))) by {
        xml::lemma_elements_read_back(list, 6);
    }
    assert(xml::tag_content(xml::elements(list), "AbsCount"@) == Some(text::trim_of(c7))) by {
        xml::lemma_elements_read_back(list, 7);
    }
}

/// `GetPositionInfo` tells the position and the length on the clock, and the media, each under its
/// own name.
#[verifier::spinoff_prover]
#[verifier::rlimit(40)]
pub proof fn lemma_position_info_reads_back(av: AvModel, body: Seq<char>, now: nat)
    ensures
        ({
            let rel = state::clock_text(told_position(av, now) / 1_000_000_000);
            let length = if av.duration == 0 {
                "00:00:00"@
            } else {
                state::clock_text(av.duration / 1_000_000_000)
            };
            let uri = xml::escaped(av.current_uri, false);
            let metadata = xml::escaped(av.current_metadata, false);
            let step = avtransport_step(av, "GetPositionInfo"@, body, now).1;
            step matches StepModel::Answer(Ok(told)) && {
                &&& xml::tag_content(told, "Track"@) == Some(
                    if av.current_uri.len() > 0 {
                        "1"@
                    } else {
                        "0"@
                    },
                )
                &&& xml::tag_content(told, "TrackDuration"@) == Some(length)
                &&& xml::tag_content(told, "TrackMetaData"@) == Some(text::trim_of(metadata))
                &&& xml::tag_content(told, "TrackURI"@) == Some(text::trim_of(uri))
                &&& xml::tag_content(told, "RelTime"@) == Some(rel)
                &&& xml::tag_content(told, "AbsTime"@) == Some(rel)
                &&& xml::tag_content(told, "RelCount"@) == Some("2147483647"@)
                &&& xml::tag_content(told, "AbsCount"@) == Some("2147483647"@)
            }
        }),
{
    lemma_names_apart();
    let rel = state::clock_text(told_position(av, now) / 1_000_000_000);
    let length = if av.duration == 0 {
        "00:00:00"@
    } else {
        state::clock_text(av.duration / 1_000_000_000)
    };
    let list = seq![
        ("Track"@, count_text(av)),
        ("TrackDuration"@, length),
        ("TrackMetaData"@, xml::escaped(av.current_metadata, false)),
        ("TrackURI"@, xml::escaped(av.current_uri, false)),
        ("RelTime"@, rel),
        ("AbsTime"@, rel),
        ("RelCount"@, "2147483647"@),
        ("AbsCount"@, "2147483647"@),
    ];
    lemma_position_list(av, now, list);
    lemma_clock_is_plain(told_position(av, now) / 1_000_000_000);
    lemma_clock_is_plain(av.duration / 1_000_000_000);
    lemma_length_is_plain(av.duration);
    lemma_count_is_plain(av);
    lemma_word_is_plain();
    xml::lemma_escape_hides_tags(av.current_uri, false);
    xml::lemma_escape_hides_tags(av.current_metadata, false);
    lemma_position_read(
        count_text(av),
        length,
        xml::escaped(av.current_metadata, false),
        xml::escaped(av.current_uri, false),
        rel,
        rel,
        "2147483647"@,
        "2147483647"@,
    );
}

proof fn lemma_media_tags()
    ensures
        xml::plain_name("NrTracks"@),
        xml::plain_name("MediaDuration"@),
        xml::plain_name("CurrentURI"@),
        xml::plain_name("CurrentURIMetaData"@),
        xml::plain_name("NextURI"@),
        xml::plain_name("NextURIMetaData"@),
        xml::plain_name("PlayMedium"@),
        xml::plain_name("RecordMedium"@),
        xml::plain_name("WriteStatus"@),
        "NrTracks"@ != "MediaDuration"@,
        "NrTracks"@ != "CurrentURI"@,
        "MediaDuration"@ != "CurrentURI"@,
        "NrTracks"@ != "CurrentURIMetaData"@,
        "MediaDuration"@ != "CurrentURIMetaData"@,
        "CurrentURI"@ != "CurrentURIMetaData"@,
        "NrTracks"@ != "NextURI"@,
        "MediaDuration"@ != "NextURI"@,
        "CurrentURI"@ != "NextURI"@,
        "CurrentURIMetaData"@ != "NextURI"@,
        "NrTracks"@ != "NextURIMetaData"@,
        "MediaDuration"@ != "NextURIMetaData"@,
        "CurrentURI"@ != "NextURIMetaData"@,
        "CurrentURIMetaData"@ != "NextURIMetaData"@,
        "NextURI"@ != "NextURIMetaData"@,
        "NrTracks"@ != "PlayMedium"@,
        "MediaDuration"@ != "PlayMedium"@,
        "CurrentURI"@ != "PlayMedium"@,
        "CurrentURIMetaData"@ != "PlayMedium"@,
        "NextURI"@ != "PlayMedium"@,
        "NextURIMetaData"@ != "PlayMedium"@,
        "NrTracks"@ != "RecordMedium"@,
        "MediaDuration"@ != "RecordMedium"@,
        "CurrentURI"@ != "RecordMedium"@,
        "CurrentURIMetaData"@ != "RecordMedium"@,
        "NextURI"@ != "RecordMedium"@,
        "NextURIMetaData"@ != "RecordMedium"@,
        "PlayMedium"@ != "RecordMedium"@,
        "NrTracks"@ != "WriteStatus"@,
        "MediaDuration"@ != "WriteStatus"@,
        "CurrentURI"@ != "WriteStatus"@,
        "CurrentURIMetaData"@ != "WriteStatus"@,
        "NextURI"@ != "WriteStatus"@,
        "NextURIMetaData"@ != "WriteStatus"@,
        "PlayMedium"@ != "WriteStatus"@,
        "RecordMedium"@ != "WriteStatus"@,
{
    reveal_strlit("NrTracks");
    reveal_strlit("MediaDuration");
    reveal_strlit("CurrentURI");
    reveal_strlit("CurrentURIMetaData");
    reveal_strlit("NextURI");
    reveal_strlit("NextURIMetaData");
    reveal_strlit("PlayMedium");
    reveal_strlit("RecordMedium");
    reveal_strlit("WriteStatus");
    assert("NrTracks"@.len() == 8);
    assert("MediaDuration"@.len() == 13);
    assert("CurrentURI"@.len() == 10);
    assert("CurrentURIMetaData"@.len() == 18);
    assert("NextURI"@.len() == 7);
    assert("NextURIMetaData"@.len() == 15);
    assert("PlayMedium"@.len() == 10);
    assert("RecordMedium"@.len() == 12);
    assert("WriteStatus"@.len() == 11);
    assert("CurrentURI"@[0] != "PlayMedium"@[0]);
}

proof fn lemma_media_joints()
    ensures
        "<NrTracks>"@ == ("<"@ + "NrTracks"@ + ">"@),
        "</NrTracks><MediaDuration>"@ == ("</"@ + "NrTracks"@ + ">"@) + ("<"@ + "MediaDuration"@ + ">"@),
        "</MediaDuration><CurrentURI>"@ == ("</"@ + "MediaDuration"@ + ">"@) + ("<"@ + "CurrentURI"@ + ">"@),
        "</CurrentURI><CurrentURIMetaData>"@ == ("</"@ + "CurrentURI"@ + ">"@) + ("<"@ + "CurrentURIMetaData"@ + ">"@),
        "</CurrentURIMetaData><NextURI></NextURI><NextURIMetaData></NextURIMetaData><PlayMedium>NETWORK</PlayMedium><RecordMedium>NOT_IMPLEMENTED</RecordMedium><WriteStatus>NOT_IMPLEMENTED</WriteStatus>"@ == ("</"@ + "CurrentURIMetaData"@ + ">"@) + (("<"@ + "NextURI"@ + ">"@) + ""@ + ("</"@ + "NextURI"@ + ">"@)) + (("<"@ + "NextURIMetaData"@ + ">"@) + ""@ + ("</"@ + "NextURIMetaData"@ + ">"@)) + (("<"@ + "PlayMedium"@ + ">"@) + "NETWORK"@ + ("</"@ + "PlayMedium"@ + ">"@)) + (("<"@ + "RecordMedium"@ + ">"@) + "NOT_IMPLEMENTED"@ + ("</"@ + "RecordMedium"@ + ">"@)) + (("<"@ + "WriteStatus"@ + ">"@) + "NOT_IMPLEMENTED"@ + ("</"@ + "WriteStatus"@ + ">"@)),
{
    reveal_strlit("<");
    reveal_strlit("</");
    reveal_strlit(">");
    reveal_strlit("<NrTracks>");
    reveal_strlit("NrTracks");
    reveal_strlit("</NrTracks><MediaDuration>");
    reveal_strlit("MediaDuration");
    reveal_strlit("</MediaDuration><CurrentURI>");
    reveal_strlit("CurrentURI");
    reveal_strlit("</CurrentURI><CurrentURIMetaData>");
    reveal_strlit("CurrentURIMetaData");
    reveal_strlit(
        "</CurrentURIMetaData><NextURI></NextURI><NextURIMetaData></NextURIMetaData><PlayMedium>NETWORK</PlayMedium><RecordMedium>NOT_IMPLEMENTED</RecordMedium><WriteStatus>NOT_IMPLEMENTED</WriteStatus>",
    );
    reveal_strlit("NextURI");
    reveal_strlit("");
    reveal_strlit("NextURIMetaData");
    reveal_strlit("PlayMedium");
    reveal_strlit("NETWORK");
    reveal_strlit("RecordMedium");
    reveal_strlit("NOT_IMPLEMENTED");
    reveal_strlit("WriteStatus");
    assert("<NrTracks>"@ =~= ("<"@ + "NrTracks"@ + ">"@));
    assert("</NrTracks><MediaDuration>"@ =~= ("</"@ + "NrTracks"@ + ">"@) + ("<"@ + "MediaDuration"@ + ">"@));
    assert("</MediaDuration><CurrentURI>"@ =~= ("</"@ + "MediaDuration"@ + ">"@) + ("<"@ + "CurrentURI"@ + ">"@));
    assert("</CurrentURI><CurrentURIMetaData>"@ =~= ("</"@ + "CurrentURI"@ + ">"@) + ("<"@ + "CurrentURIMetaData"@ + ">"@));
    assert("</CurrentURIMetaData><NextURI></NextURI><NextURIMetaData></NextURIMetaData><PlayMedium>NETWORK</PlayMedium><RecordMedium>NOT_IMPLEMENTED</RecordMedium><WriteStatus>NOT_IMPLEMENTED</WriteStatus>"@ =~= ("</"@ + "CurrentURIMetaData"@ + ">"@) + (("<"@ + "NextURI"@ + ">"@) + ""@ + ("</"@ + "NextURI"@ + ">"@)) + (("<"@ + "NextURIMetaData"@ + ">"@) + ""@ + ("</"@ + "NextURIMetaData"@ + ">"@)) + (("<"@ + "PlayMedium"@ + ">"@) + "NETWORK"@ + ("</"@ + "PlayMedium"@ + ">"@)) + (("<"@ + "RecordMedium"@ + ">"@) + "NOT_IMPLEMENTED"@ + ("</"@ + "RecordMedium"@ + ">"@)) + (("<"@ + "WriteStatus"@ + ">"@) + "NOT_IMPLEMENTED"@ + ("</"@ + "WriteStatus"@ + ">"@)));
}

proof fn lemma_media_list(av: AvModel, list: Seq<(Seq<char>, Seq<char>)>)
    requires
        list == ({
            seq![
                ("NrTracks"@, count_text(av)),
                ("MediaDuration"@, xml::length_text(av.duration)),
                ("CurrentURI"@, xml::escaped(av.current_uri, false)),
                ("CurrentURIMetaData"@, xml::escaped(av.current_metadata, false)),
                ("NextURI"@, ""@),
                ("NextURIMetaData"@, ""@),
                ("PlayMedium"@, "NETWORK"@),
                ("RecordMedium"@, "NOT_IMPLEMENTED"@),
                ("WriteStatus"@, "NOT_IMPLEMENTED"@),
            ]
        }),
    ensures
        media_info(av) == xml::elements(list),
{
    lemma_media_joints();
    let l0 = Seq::<(Seq<char>, Seq<char>)>::empty();
    let none = Seq::<char>::empty();
    assert(none + none =~= xml::elements(l0));
    assert("<NrTracks>"@ =~= none + ("<"@ + "NrTracks"@ + ">"@));
    let s0 = none;
    assert(none + "<NrTracks>"@ + count_text(av) =~= "<NrTracks>"@ + count_text(av));
    xml::lemma_elements_next(l0, s0, none, "<NrTracks>"@, "NrTracks"@, count_text(av));
    let s1 = s0 + "<NrTracks>"@ + count_text(av);
    let l1 = l0.push(("NrTracks"@, count_text(av)));
    xml::lemma_elements_next(
        l1,
        s1,
        ("</"@ + "NrTracks"@ + ">"@),
        "</NrTracks><MediaDuration>"@,
        "MediaDuration"@,
        xml::length_text(av.duration),
    );
    let s2 = s1 + "</NrTracks><MediaDuration>"@ + xml::length_text(av.duration);
    let l2 = l1.push(("MediaDuration"@, xml::length_text(av.duration)));
    xml::lemma_elements_next(
        l2,
        s2,
        ("</"@ + "MediaDuration"@ + ">"@),
        "</MediaDuration><CurrentURI>"@,
        "CurrentURI"@,
        xml::escaped(av.current_uri, false),
    );
    let s3 = s2 + "</MediaDuration><CurrentURI>"@ + xml::escaped(av.current_uri, false);
    let l3 = l2.push(("CurrentURI"@, xml::escaped(av.current_uri, false)));
    xml::lemma_elements_next(
        l3,
        s3,
        ("</"@ + "CurrentURI"@ + ">"@),
        "</CurrentURI><CurrentURIMetaData>"@,
        "CurrentURIMetaData"@,
        xml::escaped(av.current_metadata, false),
    );
    let s4 = s3 + "</CurrentURI><CurrentURIMetaData>"@ + xml::escaped(av.current_metadata, false);
    let l4 = l3.push(("CurrentURIMetaData"@, xml::escaped(av.current_metadata, false)));
    xml::lemma_elements_push(l4, "NextURI"@, ""@);
    let l5 = l4.push(("NextURI"@, ""@));
    let e5 = ("<"@ + "NextURI"@ + ">"@) + ""@ + ("</"@ + "NextURI"@ + ">"@);
    xml::lemma_elements_push(l5, "NextURIMetaData"@, ""@);
    let l6 = l5.push(("NextURIMetaData"@, ""@));
    let e6 = ("<"@ + "NextURIMetaData"@ + ">"@) + ""@ + ("</"@ + "NextURIMetaData"@ + ">"@);
    xml::lemma_elements_push(l6, "PlayMedium"@, "NETWORK"@);
    let l7 = l6.push(("PlayMedium"@, "NETWORK"@));
    let e7 = ("<"@ + "PlayMedium"@ + ">"@) + "NETWORK"@ + ("</"@ + "PlayMedium"@ + ">"@);
    xml::lemma_elements_push(l7, "RecordMedium"@, "NOT_IMPLEMENTED"@);
    let l8 = l7.push(("RecordMedium"@, "NOT_IMPLEMENTED"@));
    let e8 = ("<"@ + "RecordMedium"@ + ">"@) + "NOT_IMPLEMENTED"@ + ("</"@ + "RecordMedium"@ + ">"@);
    xml::lemma_elements_push(l8, "WriteStatus"@, "NOT_IMPLEMENTED"@);
    let l9 = l8.push(("WriteStatus"@, "NOT_IMPLEMENTED"@));
    let e9 = ("<"@ + "WriteStatus"@ + ">"@) + "NOT_IMPLEMENTED"@ + ("</"@ + "WriteStatus"@ + ">"@);
    assert(s4 + (("</"@ + "CurrentURIMetaData"@ + ">"@) + e5 + e6 + e7 + e8 + e9) =~= (s4 + ("</"@ + "CurrentURIMetaData"@ + ">"@)) + e5 + e6 + e7 + e8 + e9);
    assert(list =~= l9);
    assert(media_info(av) == s4 + "</CurrentURIMetaData><NextURI></NextURI><NextURIMetaData></NextURIMetaData><PlayMedium>NETWORK</PlayMedium><RecordMedium>NOT_IMPLEMENTED</RecordMedium><WriteStatus>NOT_IMPLEMENTED</WriteStatus>"@);
}

#[verifier::spinoff_prover]
#[verifier::rlimit(50)]
proof fn lemma_media_read(
    c0: Seq<char>,
    c1: Seq<char>,
    c2: Seq<char>,
    c3: Seq<char>,
    c4: Seq<char>,
    c5: Seq<char>,
    c6: Seq<char>,
    c7: Seq<char>,
    c8: Seq<char>,
)
    requires
        !c0.contains('<'),
        !c1.contains('<'),
        !c2.contains('<'),
        !c3.contains('<'),
        !c4.contains('<'),
        !c5.contains('<'),
        !c6.contains('<'),
        !c7.contains('<'),
        !c8.contains('<'),
    ensures
        ({
            let list = seq![
                ("NrTracks"@, c0),
                ("MediaDuration"@, c1),
                ("CurrentURI"@, c2),
                ("CurrentURIMetaData"@, c3),
                ("NextURI"@, c4),
                ("NextURIMetaData"@, c5),
                ("PlayMedium"@, c6),
                ("RecordMedium"@, c7),
                ("WriteStatus"@, c8),
            ];
            &&& xml::tag_content(xml::elements(list), "NrTracks"@) == Some(text::trim_of(c0))
            &&& xml::tag_content(xml::elements(list), "MediaDuration"@) == Some(text::trim_of(c1))
            &&& xml::tag_content(xml::elements(list), "CurrentURI"@) == Some(text::trim_of(c2))
            &&& xml::tag_content(xml::elements(list), "CurrentURIMetaData"@) == Some(text::trim_of(c3))
            &&& xml::tag_content(xml::elements(list), "NextURI"@) == Some(text::trim_of(c4))
            &&& xml::tag_content(xml::elements(list), "NextURIMetaData"@) == Some(text::trim_of(c5))
            &&& xml::tag_content(xml::elements(list), "PlayMedium"@) == Some(text::trim_of(c6))
            &&& xml::tag_content(xml::elements(list), "RecordMedium"@) == Some(text::trim_of(c7))
            &&& xml::tag_content(xml::elements(list), "WriteStatus"@) == Some(text::trim_of(c8))
        }),
{
    let list = seq![
        ("NrTracks"@, c0),
        ("MediaDuration"@, c1),
        ("CurrentURI"@, c2),
        ("CurrentURIMetaData"@, c3),
        ("NextURI"@, c4),
        ("NextURIMetaData"@, c5),
        ("PlayMedium"@, c6),
        ("RecordMedium"@, c7),
        ("WriteStatus"@, c8),
    ];
    lemma_media_tags();
    assert(xml::plain_elements(list));
    assert(xml::tag_content(xml::elements(list), "NrTracks"@) == Some(text::trim_of(c0))) by {
        xml::lemma_elements_read_back(list, 0);
    }
    assert(xml::tag_content(xml::elements(list), "MediaDuration"@) == Some(text::trim_of(c1))) by {
        xml::lemma_elements_read_back(list, 1);
    }
    assert(xml::tag_content(xml::elements(list), "CurrentURI"@) == Some(text::trim_of(c2))) by {
        xml::lemma_elements_read_back(list, 2);
    }
    assert(xml::tag_content(xml::elements(list), "CurrentURIMetaData"@) == Some(text::trim_of(c3))) by {
        xml::lemma_elements_read_back(list, 3);
    }
    assert(xml::tag_content(xml::elements(list), "NextURI"@) == Some(text::trim_of(c4))) by {
        xml::lemma_elements_read_back(list, 4);
    }
    assert(xml::tag_content(xml::elements(list), "NextURIMetaData"@) == Some(text::trim_of(c5))) by {
        xml::lemma_elements_read_back(list, 5);
    }
    assert(xml::tag_content(xml::elements(list), "PlayMedium"@) == Some(text::trim_of(c6))) by {
        xml::lemma_elements_read_back(list, 6);
    }
    assert(xml::tag_content(xml::elements(list), "RecordMedium"@) == Some(text::trim_of(c7))) by {
        xml::lemma_elements_read_back(list, 7);
    }
    assert(xml::tag_content(xml::elements(list), "WriteStatus"@) == Some(text::trim_of(c8))) by {
        xml::lemma_elements_read_back(list, 8);
    }
}

/// `GetMediaInfo` tells the number of tracks, the length and the media, each under its own name.
#[verifier::spinoff_prover]
#[verifier::rlimit(40)]
pub proof fn lemma_media_info_reads_back(av: AvModel, body: Seq<char>, now: nat)
    ensures
        ({
            let step = avtransport_step(av, "GetMediaInfo"@, body, now).1;
            step matches StepModel::Answer(Ok(told)) && {
                &&& xml::tag_content(told, "NrTracks"@) == Some(
                    if av.current_uri.len() > 0 {
                        "1"@
                    } else {
                        "0"@
                    },
                )
                &&& xml::tag_content(told, "MediaDuration"@) == Some(
                    if av.duration < 1_000_000_000 {
                        "00:00:00"@
                    } else {
                        state::clock_text(av.duration / 1_000_000_000)
                    },
                )
                &&& xml::tag_content(told, "CurrentURI"@) == Some(
                    text::trim_of(xml::escaped(av.current_uri, false)),
                )
                &&& xml::tag_content(told, "CurrentURIMetaData"@) == Some(
                    text::trim_of(xml::escaped(av.current_metadata, false)),
                )
                &&& xml::tag_content(told, "NextURI"@) == Some(""@)
                &&& xml::tag_content(told, "NextURIMetaData"@) == Some(""@)
                &&& xml::tag_content(told, "PlayMedium"@) == Some("NETWORK"@)
                &&& xml::tag_content(told, "RecordMedium"@) == Some("NOT_IMPLEMENTED"@)
                &&& xml::tag_content(told, "WriteStatus"@) == Some("NOT_IMPLEMENTED"@)
            }
        }),
{
    lemma_names_apart();
    let list = seq![
        ("NrTracks"@, count_text(av)),
        ("MediaDuration"@, xml::length_text(av.duration)),
        ("CurrentURI"@, xml::escaped(av.current_uri, false)),
        ("CurrentURIMetaData"@, xml::escaped(av.current_metadata, false)),
        ("NextURI"@, ""@),
        ("NextURIMetaData"@, ""@),
        ("PlayMedium"@, "NETWORK"@),
        ("RecordMedium"@, "NOT_IMPLEMENTED"@),
        ("WriteStatus"@, "NOT_IMPLEMENTED"@),
    ];
    lemma_media_list(av, list);
    lemma_length_is_plain(av.duration);
    lemma_count_is_plain(av);
    lemma_word_is_plain();
    xml::lemma_escape_hides_tags(av.current_uri, false);
    xml::lemma_escape_hides_tags(av.current_metadata, false);
    lemma_media_read(
        count_text(av),
        xml::length_text(av.duration),
        xml::escaped(av.current_uri, false),
        xml::escaped(av.current_metadata, false),
        ""@,
        ""@,
        "NETWORK"@,
        "NOT_IMPLEMENTED"@,
        "NOT_IMPLEMENTED"@,
    );
}

/// A volume from 0 to 100 that is set is the volume that is kept, handed to the player and told;
/// more than 100 counts as 100, and what is no number up to 255 as 50.
pub proof fn lemma_volume_is_set(av: AvModel, body: Seq<char>, later: Seq<char>, n: nat)
    requires
        argument(body, "DesiredVolume"@) == number::decimal_of(n),
    ensures
        ({
            let (after, step) = rendering_step(av, "SetVolume"@, body);
            let told = rendering_step(after, "GetVolume"@, later).1;
            let v = if n <= 100 {
                n
            } else if n <= 255 {
                100
            } else {
                50
            };
            &&& after.volume == v && step == StepModel::SetVolume(v as u8)
            &&& after.mute == av.mute && after.position == av.position && after.current_uri
                == av.current_uri && after.transport_state == av.transport_state
            &&& told == StepModel::Answer(
                Ok("<CurrentVolume>"@ + number::decimal_of(v) + "</CurrentVolume>"@),
            )
        }),
{
    lemma_sound_reads_back(av, body, later);
    reveal_strlit("SetVolume");
    reveal_strlit("GetVolume");
    assert("SetVolume"@[0] == 'S' && "GetVolume"@[0] == 'G');
    number::lemma_decimal_reads_back(n);
    assert(text::is_digit(number::decimal_of(n)[0]));
    if n <= 255 {
        number::lemma_unsigned_of_decimal(n, 255);
    }
}

/// A request without a volume that is a number counts as 50.
pub proof fn lemma_volume_is_missing(av: AvModel, body: Seq<char>)
    requires
        argument(body, "DesiredVolume"@).len() == 0 || !text::is_digit(
            argument(body, "DesiredVolume"@).last(),
        ),
    ensures
        rendering_step(av, "SetVolume"@, body).0.volume == 50,
        rendering_step(av, "SetVolume"@, body).1 == StepModel::SetVolume(50),
{
    reveal_strlit("SetVolume");
    reveal_strlit("GetVolume");
    assert("SetVolume"@[0] == 'S' && "GetVolume"@[0] == 'G');
    let s = argument(body, "DesiredVolume"@);
    let d = number::without_plus(s);
    if d.len() > 0 && number::all_digits(d) {
        assert(d.last() == s.last());
        assert(text::is_digit(d[d.len() - 1]));
    }
}

/// Sound is muted by `1` and by `true` in any case, and by nothing else; the player is told the
/// same, and so is who asks later.
pub proof fn lemma_muting_is_set(av: AvModel, body: Seq<char>, later: Seq<char>)
    ensures
        ({
            let value = argument(body, "DesiredMute"@);
            let mute = value == "1"@ || text::lower_of(value) == "true"@;
            let (after, step) = rendering_step(av, "SetMute"@, body);
            &&& after.mute == mute && step == StepModel::SetMute(mute)
            &&& after.volume == av.volume && after.position == av.position && after.current_uri
                == av.current_uri && after.transport_state == av.transport_state
            &&& mute ==> rendering_step(after, "GetMute"@, later).1 == StepModel::Answer(
                Ok("<CurrentMute>"@ + "1"@ + "</CurrentMute>"@),
            )
            &&& !mute ==> rendering_step(after, "GetMute"@, later).1 == StepModel::Answer(
                Ok("<CurrentMute>"@ + "0"@ + "</CurrentMute>"@),
            )
        }),
{
    lemma_sound_reads_back(av, body, later);
    reveal_strlit("SetVolume");
    reveal_strlit("GetVolume");
    reveal_strlit("SetMute");
    reveal_strlit("GetMute");
    assert("SetMute"@[0] == 'S' && "GetMute"@[0] == 'G');
    assert("SetMute"@.len() != "SetVolume"@.len());
}

/// The path decides on the service by the name of the service in it.
pub proof fn lemma_service_by_path(before: Seq<char>, after: Seq<char>)
    ensures
        service_at(before + "AVTransport"@ + after) == Service::AvTransport,
        !text::contains(before + "RenderingControl"@ + after, "AVTransport"@) ==> service_at(
            before + "RenderingControl"@ + after,
        ) == Service::RenderingControl,
        !text::contains(before + "ConnectionManager"@ + after, "AVTransport"@) && !text::contains(
            before + "ConnectionManager"@ + after,
            "RenderingControl"@,
        ) ==> service_at(before + "ConnectionManager"@ + after) == Service::ConnectionManager,
{
    text::lemma_contains_part(before, "AVTransport"@, after);
    text::lemma_contains_part(before, "RenderingControl"@, after);
    text::lemma_contains_part(before, "ConnectionManager"@, after);
}

/// A path without the name of a service is answered with error 500, whatever the action; an action
/// of one service is none of another.
pub proof fn lemma_services_apart(av: AvModel, action: Seq<char>, body: Seq<char>, now: nat)
    ensures
        control_step(av, Service::Unknown, action, body, now) == (
            av,
            StepModel::Answer(Err((500, "Unknown service"@))),
        ),
        control_step(av, Service::AvTransport, action, body, now) == avtransport_step(
            av,
            action,
            body,
            now,
        ),
        control_step(av, Service::RenderingControl, action, body, now) == rendering_step(
            av,
            action,
            body,
        ),
        control_step(av, Service::ConnectionManager, action, body, now).0 == av,
{
}

/// What an action answers stands in the response of its name and of the type of the service; a
/// refusal is a fault with status 500.
pub proof fn lemma_answer_is_wrapped(
    service: Service,
    action: Seq<char>,
    inner: Seq<char>,
    code: nat,
    description: Seq<char>,
)
    ensures
        ({
            let good = control_reply(service, action, Ok(inner));
            let bad = control_reply(service, action, Err((code, description)));
            let kind = match service {
                Service::AvTransport => "urn:schemas-upnp-org:service:AVTransport:1"@,
                Service::RenderingControl => "urn:schemas-upnp-org:service:RenderingControl:1"@,
                Service::ConnectionManager => "urn:schemas-upnp-org:service:ConnectionManager:1"@,
                Service::Unknown => service_type(Service::Unknown),
            };
            &&& good.status == 200 && bad.status == 500
            &&& text::contains(
                good.body,
                "<u:"@ + action + "Response xmlns:u=\""@ + kind + "\">"@ + inner + "</u:"@ + action
                    + "Response>"@,
            )
            &&& bad.body == xml::fault_of(code, description)
            &&& good.headers.contains(("Content-Type"@, "text/xml; charset=\"utf-8\""@))
            &&& bad.headers.contains(("Content-Type"@, "text/xml; charset=\"utf-8\""@))
        }),
{
    let good = control_reply(service, action, Ok(inner));
    let bad = control_reply(service, action, Err((code, description)));
    assert(good.headers[0] == ("Content-Type"@, "text/xml; charset=\"utf-8\""@));
    assert(bad.headers[0] == ("Content-Type"@, "text/xml; charset=\"utf-8\""@));
    let kind = service_type(service);
    let part = "<u:"@ + action + "Response xmlns:u=\""@ + kind + "\">"@ + inner + "</u:"@ + action
        + "Response>"@;
    xml::lemma_envelope_holds(part);
}

/// The player is looked at every half second while the media plays or loads, every second while it
/// is paused, and every two and a half seconds while nothing plays.
pub proof fn lemma_poll_times()
    ensures
        poll_millis(PlaybackState::Playing) == 500,
        poll_millis(PlaybackState::Transitioning) == 500,
        poll_millis(PlaybackState::Paused) == 1_000,
        poll_millis(PlaybackState::Stopped) == 2_500,
{
}

/// A header that names an action decides on it, whatever the body holds; the name of an action in
/// the body ends at a space, a slash or a closing bracket, and at nothing else.
pub proof fn lemma_header_decides(header: &str, body: Seq<char>, c: char)
    ensures
        xml::action_of(header@).len() > 0 ==> named_action(Some(header), body) == xml::action_of(
            header@,
        ),
        xml::action_of(header@).len() == 0 ==> named_action(Some(header), body) == named_action(
            None,
            body,
        ),
        ends_action(c) <==> c == ' ' || c == '/' || c == '>',
        !text::contains(body, "<u:"@) ==> named_action(None, body).len() == 0,
{
}

/// Actions are answered wherever times are within reach: a position that leaves room for 950 ms,
/// and times of at most 18 446 744 073 709 551 615 s.
pub proof fn lemma_ordinary_actions_fit(av: AvModel, action: Seq<char>, body: Seq<char>, now: nat)
    requires
        av.position + 950_000_000 <= time::MAX_NANOS,
        !state::time_overflows(argument(body, "Target"@)),
        !state::duration_overflows(argument(body, "CurrentURIMetaData"@)),
    ensures
        !action_overflows(av, action, body, now),
{
}

} // verus!
