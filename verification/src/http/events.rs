//! Subscriptions to events, and the notifications that go out to them.

use vstd::prelude::*;
use vstd::string::*;

use crate::http::control;
use crate::http::control::{Service, service_of};
use crate::http::{Response, ResponseModel};
use crate::identity;
use crate::identity::{format_uuid, random_uuid};
use crate::number;
use crate::number::{decimal, unsigned};
use crate::state::{AVState, AvModel};
use crate::text;
use crate::text::{CharSet, find, has, lower, replace, same, split, strip, trim, trim_end, trim_start};
use crate::xml;
use crate::xml::{avtransport_last_change, rendering_last_change};

verus! {

// ---------------------------------------------------------------------------------------------
// The table of subscriptions
// ---------------------------------------------------------------------------------------------
/// A subscription to the events of a service.
#[derive(Debug)]
pub struct Subscription {
    pub sid: String,
    /// One URL or several, with commas between them.
    pub callback: String,
    pub nt: String,
    pub timeout_secs: u64,
    /// The number of the next event.
    pub seq: u32,
}

/// What a `Subscription` holds, but for its identifier.
pub struct SubscriptionModel {
    pub callback: Seq<char>,
    pub nt: Seq<char>,
    pub timeout_secs: u64,
    pub seq: u32,
}

impl View for Subscription {
    type V = SubscriptionModel;

    open spec fn view(&self) -> SubscriptionModel {
        SubscriptionModel {
            callback: self.callback@,
            nt: self.nt@,
            timeout_secs: self.timeout_secs,
            seq: self.seq,
        }
    }
}

/// The subscriptions of a renderer, by their identifiers.
#[derive(Debug)]
pub struct Subscriptions {
    list: Vec<Subscription>,
}

/// Position `i` of the list has the identifier.
spec fn at(list: Seq<Subscription>, sid: Seq<char>, i: int) -> bool {
    0 <= i < list.len() && list[i].sid@ == sid
}

spec fn distinct(list: Seq<Subscription>) -> bool {
    forall|i: int, j: int|
        0 <= i < j < list.len() ==> (#[trigger] list[i]).sid@ != (#[trigger] list[j]).sid@
}

spec fn table(list: Seq<Subscription>) -> Map<Seq<char>, SubscriptionModel> {
    Map::new(
        |sid: Seq<char>| exists|i: int| at(list, sid, i),
        |sid: Seq<char>| list[choose|i: int| at(list, sid, i)]@,
    )
}

impl View for Subscriptions {
    type V = Map<Seq<char>, SubscriptionModel>;

    closed spec fn view(&self) -> Map<Seq<char>, SubscriptionModel> {
        table(self.list@)
    }
}

proof fn lemma_table_at(list: Seq<Subscription>, i: int)
    requires
        distinct(list),
        0 <= i < list.len(),
    ensures
        table(list).contains_key(list[i].sid@),
        table(list)[list[i].sid@] == list[i]@,
{
    let sid = list[i].sid@;
    assert(at(list, sid, i));
    let k = choose|k: int| at(list, sid, k);
    assert(at(list, sid, k));
    assert(k == i) by {
        if k < i {
            assert(list[k].sid@ != list[i].sid@);
        } else if i < k {
            assert(list[i].sid@ != list[k].sid@);
        }
    }
}

/// Another subscription in the place of one with the same identifier.
proof fn lemma_table_update(list: Seq<Subscription>, i: int, sub: Subscription)
    requires
        distinct(list),
        0 <= i < list.len(),
        sub.sid@ == list[i].sid@,
    ensures
        distinct(list.update(i, sub)),
        table(list.update(i, sub)) == table(list).insert(sub.sid@, sub@),
{
    let new = list.update(i, sub);
    assert forall|k: int| 0 <= k < new.len() implies #[trigger] new[k].sid@ == list[k].sid@ by {}
    assert forall|a: int, b: int| 0 <= a < b < new.len() implies (#[trigger] new[a]).sid@ != (
    #[trigger] new[b]).sid@ by {
        assert(list[a].sid@ != list[b].sid@);
    }
    assert(table(new) =~= table(list).insert(sub.sid@, sub@)) by {
        assert forall|sid: Seq<char>| #[trigger] table(new).contains_key(sid) == table(list).insert(
            sub.sid@,
            sub@,
        ).contains_key(sid) by {
            if exists|k: int| at(new, sid, k) {
                let k = choose|k: int| at(new, sid, k);
                assert(at(list, sid, k));
            }
            if exists|k: int| at(list, sid, k) {
                let k = choose|k: int| at(list, sid, k);
                assert(at(new, sid, k));
            }
            assert(at(new, sub.sid@, i));
        }
        assert forall|sid: Seq<char>| #[trigger] table(new).contains_key(sid) implies table(new)[sid]
            == table(list).insert(sub.sid@, sub@)[sid] by {
            let k = choose|k: int| at(new, sid, k);
            lemma_table_at(new, k);
            lemma_table_at(list, k);
            if k != i {
                assert(new[k].sid@ != sub.sid@) by {
                    if k < i {
                        assert(new[k].sid@ != new[i].sid@);
                    } else {
                        assert(new[i].sid@ != new[k].sid@);
                    }
                }
            }
        }
    }
}

/// A subscription more, with an identifier of its own.
proof fn lemma_table_push(list: Seq<Subscription>, sub: Subscription)
    requires
        distinct(list),
        !table(list).contains_key(sub.sid@),
    ensures
        distinct(list.push(sub)),
        table(list.push(sub)) == table(list).insert(sub.sid@, sub@),
{
    let new = list.push(sub);
    assert forall|k: int| 0 <= k < list.len() implies (#[trigger] list[k]).sid@ != sub.sid@ by {
        assert(!at(list, sub.sid@, k));
    }
    assert(distinct(new));
    assert(table(new) =~= table(list).insert(sub.sid@, sub@)) by {
        assert(at(new, sub.sid@, list.len() as int));
        assert forall|sid: Seq<char>| #[trigger] table(new).contains_key(sid) == table(list).insert(
            sub.sid@,
            sub@,
        ).contains_key(sid) by {
            if exists|k: int| at(list, sid, k) {
                let k = choose|k: int| at(list, sid, k);
                assert(at(new, sid, k));
            }
            if exists|k: int| at(new, sid, k) {
                let k = choose|k: int| at(new, sid, k);
                assert(k < list.len() ==> at(list, sid, k));
            }
        }
        assert forall|sid: Seq<char>| #[trigger] table(new).contains_key(sid) implies table(new)[sid]
            == table(list).insert(sub.sid@, sub@)[sid] by {
            let k = choose|k: int| at(new, sid, k);
            lemma_table_at(new, k);
            if k < list.len() {
                lemma_table_at(list, k);
            }
        }
    }
}

/// A subscription less.
proof fn lemma_table_remove(list: Seq<Subscription>, i: int)
    requires
        distinct(list),
        0 <= i < list.len(),
    ensures
        distinct(list.remove(i)),
        table(list.remove(i)) == table(list).remove(list[i].sid@),
{
    let new = list.remove(i);
    let gone = list[i].sid@;
    assert forall|a: int, b: int| 0 <= a < b < new.len() implies (#[trigger] new[a]).sid@ != (
    #[trigger] new[b]).sid@ by {
        let x = if a < i {
            a
        } else {
            a + 1
        };
        let y = if b < i {
            b
        } else {
            b + 1
        };
        assert(list[x].sid@ != list[y].sid@);
    }
    assert(table(new) =~= table(list).remove(gone)) by {
        assert forall|sid: Seq<char>| #[trigger] table(new).contains_key(sid) == table(list).remove(
            gone,
        ).contains_key(sid) by {
            if exists|k: int| at(new, sid, k) {
                let k = choose|k: int| at(new, sid, k);
                let x = if k < i {
                    k
                } else {
                    k + 1
                };
                assert(at(list, sid, x));
                assert(list[x].sid@ != gone) by {
                    if x < i {
                        assert(list[x].sid@ != list[i].sid@);
                    } else {
                        assert(list[i].sid@ != list[x].sid@);
                    }
                }
            }
            if sid != gone && exists|k: int| at(list, sid, k) {
                let k = choose|k: int| at(list, sid, k);
                assert(at(
                    new,
                    sid,
                    if k < i {
                        k
                    } else {
                        k - 1
                    },
                ));
            }
        }
        assert forall|sid: Seq<char>| #[trigger] table(new).contains_key(sid) implies table(new)[sid]
            == table(list).remove(gone)[sid] by {
            let k = choose|k: int| at(new, sid, k);
            lemma_table_at(new, k);
            lemma_table_at(
                list,
                if k < i {
                    k
                } else {
                    k + 1
                },
            );
        }
    }
}

impl Subscriptions {
    #[verifier::type_invariant]
    spec fn valid(self) -> bool {
        distinct(self.list@)
    }

    /// No subscriptions.
    pub fn new() -> (r: Subscriptions)
        ensures
            r@ == Map::<Seq<char>, SubscriptionModel>::empty(),
    {
        let r = Subscriptions { list: Vec::new() };
        assert(r@ =~= Map::<Seq<char>, SubscriptionModel>::empty());
        r
    }

    fn find(&self, sid: &str) -> (r: Option<usize>)
        ensures
            r matches Some(i) ==> i < self.list@.len() && self.list@[i as int].sid@ == sid@
                && self@.contains_key(sid@) && self@[sid@] == self.list@[i as int]@,
            r is None ==> !self@.contains_key(sid@),
    {
        proof {
            use_type_invariant(self);
        }
        for i in 0..self.list.len()
            invariant
                distinct(self.list@),
                forall|k: int| 0 <= k < i ==> !at(self.list@, sid@, k),
        {
            if same(self.list[i].sid.as_str(), sid) {
                proof {
                    lemma_table_at(self.list@, i as int);
                }
                return Some(i);
            }
        }
        None
    }

    /// The list, and an empty table in its place.
    fn take(&mut self) -> (r: Vec<Subscription>)
        ensures
            r@ == old(self).list@,
            distinct(r@),
    {
        proof {
            use_type_invariant(&*self);
        }
        let mut r: Vec<Subscription> = Vec::new();
        std::mem::swap(&mut r, &mut self.list);
        r
    }

    /// The subscription of the identifier.
    pub fn get(&self, sid: &str) -> (r: Option<&Subscription>)
        ensures
            r is Some <==> self@.contains_key(sid@),
            r matches Some(s) ==> s.sid@ == sid@ && s@ == self@[sid@],
    {
        match self.find(sid) {
            Some(i) => Some(&self.list[i]),
            None => None,
        }
    }

    /// Puts the subscription into the table, in the place of one with its identifier.
    fn insert(&mut self, sub: Subscription)
        ensures
            final(self)@ == old(self)@.insert(sub.sid@, sub@),
    {
        let found = self.find(sub.sid.as_str());
        let mut list: Vec<Subscription> = self.take();
        match found {
            Some(i) => {
                proof {
                    lemma_table_update(list@, i as int, sub);
                }
                list.set(i, sub);
            },
            None => {
                proof {
                    lemma_table_push(list@, sub);
                }
                list.push(sub);
            },
        }
        *self = Subscriptions { list };
    }

    /// Takes the subscription of the identifier out of the table. Was there one?
    pub fn remove(&mut self, sid: &str) -> (r: bool)
        ensures
            r == old(self)@.contains_key(sid@),
            final(self)@ == old(self)@.remove(sid@),
    {
        match self.find(sid) {
            Some(i) => {
                let mut list: Vec<Subscription> = self.take();
                proof {
                    lemma_table_remove(list@, i as int);
                }
                let _ = list.remove(i);
                *self = Subscriptions { list };
                true
            },
            None => {
                assert(self@.remove(sid@) =~= self@);
                false
            },
        }
    }
}

// ---------------------------------------------------------------------------------------------
// Subscribing
// ---------------------------------------------------------------------------------------------
/// What a request to the event URL of a service asks.
#[derive(Debug, Clone, Copy, PartialEq, Eq, Structural)]
pub enum EventMethod {
    Subscribe,
    Unsubscribe,
    Unsupported,
}

/// What the method of a request asks.
pub fn event_method(method: &str) -> (r: EventMethod)
    ensures
        method@ == "SUBSCRIBE"@ ==> r == EventMethod::Subscribe,
        method@ == "UNSUBSCRIBE"@ ==> r == EventMethod::Unsubscribe,
        method@ != "SUBSCRIBE"@ && method@ != "UNSUBSCRIBE"@ ==> r == EventMethod::Unsupported,
{
    proof {
        reveal_strlit("SUBSCRIBE");
        reveal_strlit("UNSUBSCRIBE");
        assert("SUBSCRIBE"@.len() != "UNSUBSCRIBE"@.len());
    }
    if same(method, "SUBSCRIBE") {
        EventMethod::Subscribe
    } else if same(method, "UNSUBSCRIBE") {
        EventMethod::Unsubscribe
    } else {
        EventMethod::Unsupported
    }
}

/// The seconds in a `TIMEOUT` header such as `Second-1800`; 1800 for no end, and where there is no
/// number. `lower` is the header in small letters.
pub open spec fn timeout_of(s: Seq<char>, lower: Seq<char>) -> u64 {
    if text::contains(lower, "infinite"@) {
        1800
    } else {
        match text::find_of(s, "-"@) {
            Some(i) => match number::unsigned_of(s.skip(i + 1), u64::MAX as nat) {
                Some(n) => n as u64,
                None => 1800,
            },
            None => 1800,
        }
    }
}

/// The seconds in a `TIMEOUT` header, which is `lower` in small letters.
pub fn timeout_in(s: &str, lower: &str) -> (r: u64)
    ensures
        r == timeout_of(s@, lower@),
{
    if has(lower, "infinite") {
        return 1800;
    }
    if let Some(i) = find(s, "-") {
        proof {
            reveal_strlit("-");
        }
        let n: usize = s.unicode_len();
        let rest: &str = s.substring_char(i + 1, n);
        assert(rest@ =~= s@.skip(i + 1));
        if let Some(v) = unsigned(rest, u64::MAX) {
            return v;
        }
    }
    1800
}

/// The seconds in a `TIMEOUT` header.
pub fn parse_timeout(s: &str) -> (r: u64)
    ensures
        r == timeout_of(s@, text::lower_of(s@)),
{
    timeout_in(s, lower(s).as_str())
}

/// The headers of a `SUBSCRIBE` request that count, and its path.
#[derive(Debug)]
pub struct SubscribeRequest {
    pub callback: Option<String>,
    pub nt: Option<String>,
    pub timeout: Option<String>,
    pub sid: Option<String>,
    pub path: String,
}

/// The text of a header, or what stands for it where it is missing.
pub open spec fn header_or(h: Option<String>, default: Seq<char>) -> Seq<char> {
    match h {
        Some(s) => s@,
        None => default,
    }
}

fn header<'a>(h: &'a Option<String>, default: &'a str) -> (r: &'a str)
    ensures
        r@ == header_or(*h, default@),
{
    match h {
        Some(s) => s.as_str(),
        None => default,
    }
}

/// The identifier of a subscription that a UUID names.
pub open spec fn sid_of(uuid: u128) -> Seq<char> {
    "uuid:"@ + identity::uuid_text(uuid)
}

/// A `CALLBACK` header without white space and angle brackets at its ends.
pub open spec fn clean_callback(s: Seq<char>) -> Seq<char> {
    text::trim_end_of(
        text::trim_start_of(text::trim_of(s), CharSet::One('<')),
        CharSet::One('>'),
    )
}

/// The seconds that a request asks for.
pub open spec fn asked_timeout(req: SubscribeRequest) -> u64 {
    let t = header_or(req.timeout, "Second-1800"@);
    timeout_of(t, text::lower_of(t))
}

/// A `TIMEOUT` header.
pub open spec fn timeout_text(secs: u64) -> Seq<char> {
    "Second-"@ + number::decimal_of(secs as nat)
}

pub open spec fn plain_reply(status: u16, body: Seq<char>) -> ResponseModel {
    ResponseModel { status, headers: Seq::empty(), body }
}

/// The subscription that a request asks for.
pub open spec fn asked_subscription(req: SubscribeRequest) -> SubscriptionModel {
    SubscriptionModel {
        callback: clean_callback(header_or(req.callback, ""@)),
        nt: header_or(req.nt, "upnp:event"@),
        timeout_secs: asked_timeout(req),
        seq: 0,
    }
}

/// What a `SUBSCRIBE` request makes of the subscriptions, how it is answered, and the subscription
/// that is sent a first event. With a `SID` the request renews that subscription; else it adds one,
/// which the UUID `fresh` names.
pub open spec fn subscribed(
    subs: Map<Seq<char>, SubscriptionModel>,
    req: SubscribeRequest,
    fresh: u128,
) -> (Map<Seq<char>, SubscriptionModel>, ResponseModel, Option<Seq<char>>) {
    let timeout = asked_timeout(req);
    match req.sid {
        Some(sid) => if subs.contains_key(sid@) {
            (
                subs.insert(
                    sid@,
                    SubscriptionModel { timeout_secs: timeout, ..subs[sid@] },
                ),
                ResponseModel {
                    status: 200,
                    headers: seq![("SID"@, sid@), ("TIMEOUT"@, timeout_text(timeout))],
                    body: ""@,
                },
                None,
            )
        } else {
            (subs, plain_reply(412, "Invalid SID"@), None)
        },
        None => if header_or(req.callback, ""@).len() == 0 {
            (subs, plain_reply(400, "Missing CALLBACK"@), None)
        } else {
            (
                subs.insert(sid_of(fresh), asked_subscription(req)),
                ResponseModel {
                    status: 200,
                    headers: seq![
                        ("SID"@, sid_of(fresh)),
                        ("TIMEOUT"@, timeout_text(timeout)),
                        ("Content-Type"@, "text/xml; charset=\"utf-8\""@),
                    ],
                    body: ""@,
                },
                Some(sid_of(fresh)),
            )
        },
    }
}

/// An event that tells the change of a service's state.
pub open spec fn change_event(last_change: Seq<char>) -> Seq<char> {
    "<?xml version=\"1.0\"?><e:propertyset xmlns:e=\"urn:schemas-upnp-org:event-1-0\"><e:property><LastChange>"@
        + last_change + "</LastChange></e:property></e:propertyset>"@
}

/// The event that tells the state of AVTransport.
pub open spec fn transport_event(av: AvModel) -> Seq<char> {
    change_event(xml::escape_of(xml::avtransport_event(av)))
}

/// The event that tells the state of RenderingControl.
pub open spec fn sound_event(av: AvModel) -> Seq<char> {
    change_event(xml::escape_of(xml::rendering_event(av.volume as nat, av.mute)))
}

/// The first event of a subscription, by the service that the path names.
pub open spec fn first_event(path: Seq<char>, av: AvModel) -> Seq<char> {
    match control::service_at(path) {
        Service::AvTransport => transport_event(av),
        Service::RenderingControl => sound_event(av),
        _ => "<?xml version=\"1.0\"?><e:propertyset xmlns:e=\"urn:schemas-upnp-org:event-1-0\"><e:property><SinkProtocolInfo>http-get:*:*:*</SinkProtocolInfo></e:property></e:propertyset>"@,
    }
}

fn write_change(last_change: &str) -> (r: String)
    ensures
        r@ == change_event(last_change@),
{
    let mut s =
        "<?xml version=\"1.0\"?><e:propertyset xmlns:e=\"urn:schemas-upnp-org:event-1-0\"><e:property><LastChange>".to_owned();
    s.append(last_change);
    s.append("</LastChange></e:property></e:propertyset>");
    s
}

/// The first event of a subscription to the service that the path names.
pub fn initial_event(path: &str, av: &AVState) -> (r: String)
    ensures
        r@ == first_event(path@, av@),
{
    match service_of(path) {
        Service::AvTransport => write_change(avtransport_last_change(av).as_str()),
        Service::RenderingControl => write_change(rendering_last_change(av).as_str()),
        _ => "<?xml version=\"1.0\"?><e:propertyset xmlns:e=\"urn:schemas-upnp-org:event-1-0\"><e:property><SinkProtocolInfo>http-get:*:*:*</SinkProtocolInfo></e:property></e:propertyset>".to_owned(),
    }
}

fn reply(status: u16, body: &str) -> (r: Response)
    ensures
        r@ == plain_reply(status, body@),
{
    let r = Response { status, headers: Vec::new(), body: body.to_owned() };
    assert(r@.headers =~= Seq::<(Seq<char>, Seq<char>)>::empty());
    r
}

fn write_timeout(secs: u64) -> (r: String)
    ensures
        r@ == timeout_text(secs),
{
    let mut s = "Second-".to_owned();
    s.append(decimal(secs).as_str());
    s
}

/// The identifier and the body of an event to send.
pub open spec fn event_view(e: Option<(String, String)>) -> Option<(Seq<char>, Seq<char>)> {
    match e {
        Some((sid, body)) => Some((sid@, body@)),
        None => None,
    }
}

/// What a `SUBSCRIBE` request leads to: the subscriptions, the answer, and the first event.
pub open spec fn subscribe_outcome(
    subs: Map<Seq<char>, SubscriptionModel>,
    req: SubscribeRequest,
    av: AvModel,
    fresh: u128,
) -> (Map<Seq<char>, SubscriptionModel>, ResponseModel, Option<(Seq<char>, Seq<char>)>) {
    let (new, response, sid) = subscribed(subs, req, fresh);
    (
        new,
        response,
        match sid {
            Some(s) => Some((s, first_event(req.path@, av))),
            None => None,
        },
    )
}

/// Takes a `SUBSCRIBE` request; the UUID `fresh` names a new subscription. Gives the answer, and
/// the subscription and the body of the first event, if one has to be sent.
pub fn subscribe_as(
    subs: &mut Subscriptions,
    req: &SubscribeRequest,
    av: &AVState,
    fresh: u128,
) -> (r: (Response, Option<(String, String)>))
    ensures
        (final(subs)@, r.0@, event_view(r.1)) == subscribe_outcome(old(subs)@, *req, av@, fresh),
{
    let timeout: u64 = parse_timeout(header(&req.timeout, "Second-1800"));
    if let Some(sid) = &req.sid {
        return match subs.get(sid.as_str()) {
            Some(sub) => {
                let renewed = Subscription {
                    sid: sub.sid.clone(),
                    callback: sub.callback.clone(),
                    nt: sub.nt.clone(),
                    timeout_secs: timeout,
                    seq: sub.seq,
                };
                subs.insert(renewed);
                let mut headers: Vec<(&'static str, String)> = Vec::new();
                headers.push(("SID", sid.clone()));
                headers.push(("TIMEOUT", write_timeout(timeout)));
                let response = Response { status: 200, headers, body: "".to_owned() };
                assert(response@.headers =~= seq![
                    ("SID"@, sid@),
                    ("TIMEOUT"@, timeout_text(timeout)),
                ]);
                (response, None)
            },
            None => (reply(412, "Invalid SID"), None),
        };
    }
    let callback: &str = header(&req.callback, "");
    if callback.is_empty() {
        return (reply(400, "Missing CALLBACK"), None);
    }
    let clean: &str = trim_end(
        trim_start(trim(callback), CharSet::One('<')),
        CharSet::One('>'),
    );
    let mut sid = "uuid:".to_owned();
    sid.append(format_uuid(fresh).as_str());
    subs.insert(
        Subscription {
            sid: sid.clone(),
            callback: clean.to_owned(),
            nt: header(&req.nt, "upnp:event").to_owned(),
            timeout_secs: timeout,
            seq: 0,
        },
    );
    let mut headers: Vec<(&'static str, String)> = Vec::new();
    headers.push(("SID", sid.clone()));
    headers.push(("TIMEOUT", write_timeout(timeout)));
    headers.push(("Content-Type", "text/xml; charset=\"utf-8\"".to_owned()));
    let response = Response { status: 200, headers, body: "".to_owned() };
    assert(response@.headers =~= seq![
        ("SID"@, sid_of(fresh)),
        ("TIMEOUT"@, timeout_text(timeout)),
        ("Content-Type"@, "text/xml; charset=\"utf-8\""@),
    ]);
    (response, Some((sid, initial_event(req.path.as_str(), av))))
}

/// Takes a `SUBSCRIBE` request; a random UUID names a new subscription. Gives the answer, and the
/// subscription and the body of the first event, if one has to be sent.
pub fn handle_subscribe(subs: &mut Subscriptions, req: &SubscribeRequest, av: &AVState) -> (r: (
    Response,
    Option<(String, String)>,
))
    ensures
        exists|fresh: u128|
            identity::is_random_uuid(fresh) && (final(subs)@, r.0@, event_view(r.1))
                == #[trigger] subscribe_outcome(old(subs)@, *req, av@, fresh),
{
    let fresh: u128 = random_uuid();
    let r = subscribe_as(subs, req, av, fresh);
    assert((subs@, r.0@, event_view(r.1)) == subscribe_outcome(old(subs)@, *req, av@, fresh));
    r
}

/// What an `UNSUBSCRIBE` request makes of the subscriptions, and how it is answered.
pub open spec fn unsubscribed(subs: Map<Seq<char>, SubscriptionModel>, sid: Seq<char>) -> (
    Map<Seq<char>, SubscriptionModel>,
    ResponseModel,
) {
    if sid.len() == 0 {
        (subs, plain_reply(400, "Missing SID"@))
    } else if subs.contains_key(sid) {
        (subs.remove(sid), plain_reply(200, ""@))
    } else {
        (subs, plain_reply(412, "Invalid SID"@))
    }
}

/// Takes an `UNSUBSCRIBE` request with the given `SID` header.
pub fn handle_unsubscribe(subs: &mut Subscriptions, sid: Option<&str>) -> (r: Response)
    ensures
        (final(subs)@, r@) == unsubscribed(
            old(subs)@,
            match sid {
                Some(s) => s@,
                None => ""@,
            },
        ),
{
    proof {
        reveal_strlit("");
    }
    let sid: &str = match sid {
        Some(s) => s,
        None => "",
    };
    if sid.is_empty() {
        return reply(400, "Missing SID");
    }
    let ghost before = subs@;
    if subs.remove(sid) {
        reply(200, "")
    } else {
        assert(subs@ =~= before);
        reply(412, "Invalid SID")
    }
}

/// The answer to a request whose method is not supported.
pub fn unsupported_method() -> (r: Response)
    ensures
        r@ == plain_reply(400, "Unsupported method"@),
{
    reply(400, "Unsupported method")
}

// ---------------------------------------------------------------------------------------------
// Notifying
// ---------------------------------------------------------------------------------------------
/// What a notification tells.
#[derive(Debug, Clone, Copy, PartialEq, Eq, Structural)]
pub enum Topic {
    /// The first event of a subscription.
    Initial,
    /// A change of AVTransport.
    Transport,
    /// A change of RenderingControl.
    Sound,
}

/// A `NOTIFY` request to send.
#[derive(Debug)]
pub struct Notification {
    pub url: String,
    pub headers: Vec<(&'static str, String)>,
    pub body: String,
}

/// What a `Notification` holds.
pub struct NotificationModel {
    pub url: Seq<char>,
    pub headers: Seq<(Seq<char>, Seq<char>)>,
    pub body: Seq<char>,
}

impl View for Notification {
    type V = NotificationModel;

    open spec fn view(&self) -> NotificationModel {
        NotificationModel {
            url: self.url@,
            headers: self.headers@.map_values(|h: (&'static str, String)| (h.0@, h.1@)),
            body: self.body@,
        }
    }
}

/// The first URL of a callback; angle brackets round it are taken off but for changes of
/// RenderingControl.
pub open spec fn callback_url(callback: Seq<char>, topic: Topic) -> Seq<char> {
    let first = text::trim_of(text::split_of(callback, CharSet::One(','))[0]);
    if topic == Topic::Sound {
        first
    } else {
        text::trim_of(
            text::strip_of(text::strip_of(first, CharSet::One('<')), CharSet::One('>')),
        )
    }
}

/// The host of a URL: what stands between `http://` and the first slash.
pub open spec fn host_of(url: Seq<char>) -> Seq<char> {
    text::split_of(text::replace_of(url, "http://"@, ""@), CharSet::One('/'))[0]
}

/// The request that tells a subscription an event.
pub open spec fn notification(
    sid: Seq<char>,
    sub: SubscriptionModel,
    topic: Topic,
    body: Seq<char>,
) -> NotificationModel {
    let url = callback_url(sub.callback, topic);
    let mime = ("CONTENT-TYPE"@, "text/xml; charset=\"utf-8\""@);
    let nt = ("NT"@, "upnp:event"@);
    let nts = ("NTS"@, "upnp:propchange"@);
    let id = ("SID"@, sid);
    let seq = ("SEQ"@, number::decimal_of(sub.seq as nat));
    NotificationModel {
        url,
        headers: if topic == Topic::Initial {
            seq![("HOST"@, host_of(url)), mime, nt, nts, id, seq]
        } else {
            seq![nt, nts, id, seq, mime]
        },
        body,
    }
}

/// The subscription with its next event counted.
pub open spec fn counted(sub: SubscriptionModel) -> SubscriptionModel {
    SubscriptionModel { seq: (sub.seq + 1) as u32, ..sub }
}

fn url_of(callback: &str, topic: Topic) -> (r: String)
    ensures
        r@ == callback_url(callback@, topic),
{
    let urls: Vec<String> = split(callback, CharSet::One(','));
    assert(text::texts(urls@)[0] == urls@[0]@);
    let first: &str = trim(urls[0].as_str());
    if topic == Topic::Sound {
        first.to_owned()
    } else {
        trim(strip(strip(first, CharSet::One('<')), CharSet::One('>'))).to_owned()
    }
}

fn write_host(url: &str) -> (r: String)
    ensures
        r@ == host_of(url@),
{
    proof {
        reveal_strlit("http://");
    }
    let rest = replace(url, "http://", "");
    let parts: Vec<String> = split(rest.as_str(), CharSet::One('/'));
    assert(text::texts(parts@)[0] == parts@[0]@);
    parts[0].clone()
}

fn write_notification(sub: &Subscription, topic: Topic, body: &str) -> (r: Notification)
    ensures
        r@ == notification(sub.sid@, sub@, topic, body@),
{
    let url = url_of(sub.callback.as_str(), topic);
    let mut headers: Vec<(&'static str, String)> = Vec::new();
    if topic == Topic::Initial {
        headers.push(("HOST", write_host(url.as_str())));
        headers.push(("CONTENT-TYPE", "text/xml; charset=\"utf-8\"".to_owned()));
    }
    headers.push(("NT", "upnp:event".to_owned()));
    headers.push(("NTS", "upnp:propchange".to_owned()));
    headers.push(("SID", sub.sid.clone()));
    headers.push(("SEQ", decimal(sub.seq as u64)));
    if topic != Topic::Initial {
        headers.push(("CONTENT-TYPE", "text/xml; charset=\"utf-8\"".to_owned()));
    }
    let r = Notification { url, headers, body: body.to_owned() };
    assert(r@.headers =~= notification(sub.sid@, sub@, topic, body@).headers);
    r
}

/// The same subscription with its next event counted.
fn count(sub: &Subscription) -> (r: Subscription)
    requires
        sub.seq < u32::MAX,
    ensures
        r.sid@ == sub.sid@,
        r@ == counted(sub@),
{
    Subscription {
        sid: sub.sid.clone(),
        callback: sub.callback.clone(),
        nt: sub.nt.clone(),
        timeout_secs: sub.timeout_secs,
        seq: sub.seq + 1,
    }
}

/// A subscription is told of a topic. Changes of AVTransport skip those without a callback.
pub open spec fn is_told(sub: SubscriptionModel, topic: Topic) -> bool {
    topic == Topic::Transport ==> sub.callback.len() > 0
}

/// The events of every subscription that is told of the topic can be counted on.
pub open spec fn countable(subs: Map<Seq<char>, SubscriptionModel>, topic: Topic) -> bool {
    forall|sid: Seq<char>| #[trigger]
        subs.contains_key(sid) && is_told(subs[sid], topic) ==> subs[sid].seq < u32::MAX
}

/// The subscriptions after those that are told of the topic have counted it.
pub open spec fn all_counted(subs: Map<Seq<char>, SubscriptionModel>, topic: Topic) -> Map<
    Seq<char>,
    SubscriptionModel,
> {
    subs.map_values(
        |sub: SubscriptionModel|
            if is_told(sub, topic) {
                counted(sub)
            } else {
                sub
            },
    )
}

/// The notifications go out to the subscriptions `sids`, in that order.
pub open spec fn notifies(
    subs: Map<Seq<char>, SubscriptionModel>,
    sids: Seq<Seq<char>>,
    topic: Topic,
    body: Seq<char>,
    sent: Seq<NotificationModel>,
) -> bool {
    &&& sids.no_duplicates()
    &&& forall|sid: Seq<char>| #[trigger]
        sids.contains(sid) <==> subs.contains_key(sid) && is_told(subs[sid], topic)
    &&& sent == sids.map_values(
        |sid: Seq<char>| notification(sid, subs[sid], topic, body),
    )
}

/// What notifications hold.
pub open spec fn sent_view(v: Seq<Notification>) -> Seq<NotificationModel> {
    v.map_values(|n: Notification| n@)
}

spec fn counted_at(list: Seq<Subscription>, topic: Topic, i: int) -> SubscriptionModel {
    if is_told(list[i]@, topic) {
        counted(list[i]@)
    } else {
        list[i]@
    }
}

proof fn lemma_table_counted(old_list: Seq<Subscription>, new_list: Seq<Subscription>, topic: Topic)
    requires
        distinct(old_list),
        old_list.len() == new_list.len(),
        forall|k: int|
            0 <= k < old_list.len() ==> (#[trigger] new_list[k]).sid@ == old_list[k].sid@,
        forall|k: int|
            0 <= k < old_list.len() ==> (#[trigger] new_list[k])@ == counted_at(old_list, topic, k),
    ensures
        distinct(new_list),
        table(new_list) == all_counted(table(old_list), topic),
{
    assert forall|a: int, b: int| 0 <= a < b < new_list.len() implies (#[trigger] new_list[a]).sid@
        != (#[trigger] new_list[b]).sid@ by {
        assert(old_list[a].sid@ != old_list[b].sid@);
    }
    assert(table(new_list) =~= all_counted(table(old_list), topic)) by {
        assert forall|sid: Seq<char>| #[trigger] table(new_list).contains_key(sid) == table(
            old_list,
        ).contains_key(sid) by {
            if exists|k: int| at(old_list, sid, k) {
                let k = choose|k: int| at(old_list, sid, k);
                assert(new_list[k].sid@ == old_list[k].sid@);
                assert(at(new_list, sid, k));
            }
            if exists|k: int| at(new_list, sid, k) {
                let k = choose|k: int| at(new_list, sid, k);
                assert(new_list[k].sid@ == old_list[k].sid@);
                assert(at(old_list, sid, k));
            }
        }
        assert forall|sid: Seq<char>| #[trigger] table(new_list).contains_key(sid) implies table(
            new_list,
        )[sid] == all_counted(table(old_list), topic)[sid] by {
            let k = choose|k: int| at(new_list, sid, k);
            assert(new_list[k].sid@ == old_list[k].sid@);
            lemma_table_at(new_list, k);
            lemma_table_at(old_list, k);
        }
    }
}

impl Subscriptions {
    /// Can the events of every subscription that is told of the topic be counted on?
    pub fn can_count(&self, topic: Topic) -> (r: bool)
        ensures
            r == countable(self@, topic),
    {
        proof {
            use_type_invariant(self);
        }
        for i in 0..self.list.len()
            invariant
                distinct(self.list@),
                forall|k: int|
                    0 <= k < i && is_told((#[trigger] self.list@[k])@, topic) ==> self.list@[k].seq
                        < u32::MAX,
        {
            let sub: &Subscription = &self.list[i];
            let told: bool = match topic {
                Topic::Transport => !sub.callback.as_str().is_empty(),
                _ => true,
            };
            if told && sub.seq == u32::MAX {
                proof {
                    lemma_table_at(self.list@, i as int);
                    let sid = self.list@[i as int].sid@;
                    assert(self@.contains_key(sid) && is_told(self@[sid], topic));
                }
                return false;
            }
        }
        proof {
            assert forall|sid: Seq<char>| #[trigger]
                self@.contains_key(sid) && is_told(self@[sid], topic) implies self@[sid].seq
                < u32::MAX by {
                let k = choose|k: int| at(self.list@, sid, k);
                lemma_table_at(self.list@, k);
            }
        }
        true
    }

    /// The first notification of a subscription, which is counted; nothing where the subscription
    /// is gone.
    pub fn notify(&mut self, sid: &str, body: &str) -> (r: Option<Notification>)
        requires
            old(self)@.contains_key(sid@) ==> old(self)@[sid@].seq < u32::MAX,
        ensures
            r is Some <==> old(self)@.contains_key(sid@),
            r matches Some(n) ==> n@ == notification(
                sid@,
                old(self)@[sid@],
                Topic::Initial,
                body@,
            ) && final(self)@ == old(self)@.insert(sid@, counted(old(self)@[sid@])),
            r is None ==> final(self)@ == old(self)@,
    {
        match self.get(sid) {
            Some(sub) => {
                let n = write_notification(sub, Topic::Initial, body);
                let next = count(sub);
                self.insert(next);
                Some(n)
            },
            None => None,
        }
    }

    /// The notifications of every subscription that is told of the topic, which are counted.
    pub fn notify_all(&mut self, topic: Topic, body: &str) -> (r: Vec<Notification>)
        requires
            countable(old(self)@, topic),
        ensures
            final(self)@ == all_counted(old(self)@, topic),
            exists|sids: Seq<Seq<char>>| #[trigger]
                notifies(old(self)@, sids, topic, body@, sent_view(r@)),
    {
        let ghost before = self@;
        let old_list: Vec<Subscription> = self.take();
        let ghost subs = old_list@;
        let mut list: Vec<Subscription> = Vec::new();
        let mut sent: Vec<Notification> = Vec::new();
        let ghost mut sids: Seq<Seq<char>> = Seq::empty();
        let ghost f = |sid: Seq<char>| notification(sid, before[sid], topic, body@);
        assert(sent_view(sent@) =~= sids.map_values(f));
        for i in 0..old_list.len()
            invariant
                subs == old_list@,
                distinct(subs),
                before == table(subs),
                countable(before, topic),
                f == (|sid: Seq<char>| notification(sid, before[sid], topic, body@)),
                list@.len() == i,
                forall|k: int| 0 <= k < i ==> (#[trigger] list@[k]).sid@ == subs[k].sid@,
                forall|k: int| 0 <= k < i ==> (#[trigger] list@[k])@ == counted_at(subs, topic, k),
                sent_view(sent@) == sids.map_values(f),
                sids.no_duplicates(),
                forall|sid: Seq<char>| #[trigger]
                    sids.contains(sid) <==> exists|k: int|
                        0 <= k < i && #[trigger] at(subs, sid, k) && is_told(subs[k]@, topic),
        {
            let sub: &Subscription = &old_list[i];
            let told: bool = match topic {
                Topic::Transport => !sub.callback.as_str().is_empty(),
                _ => true,
            };
            proof {
                lemma_table_at(subs, i as int);
            }
            if told {
                let ghost sid = sub.sid@;
                let ghost sent0 = sent@;
                let ghost sids0 = sids;
                assert(before.contains_key(sid) && is_told(before[sid], topic));
                let n = write_notification(sub, topic, body);
                let ghost model = n@;
                sent.push(n);
                list.push(count(sub));
                proof {
                    assert(!sids0.contains(sid)) by {
                        if sids0.contains(sid) {
                            let k = choose|k: int|
                                0 <= k < i && #[trigger] at(subs, sid, k) && is_told(
                                    subs[k]@,
                                    topic,
                                );
                            assert(subs[k].sid@ != subs[i as int].sid@);
                        }
                    }
                    sids = sids0.push(sid);
                    assert(model == f(sid));
                    assert(sent_view(sent@) =~= sent_view(sent0).push(model));
                    assert(sids.map_values(f) =~= sids0.map_values(f).push(f(sid)));
                    assert(at(subs, sid, i as int));
                    assert forall|s: Seq<char>| #[trigger] sids.contains(s) <==> exists|k: int|
                        0 <= k < i + 1 && #[trigger] at(subs, s, k) && is_told(subs[k]@, topic) by {
                        if sids0.contains(s) {
                            let k = choose|k: int| 0 <= k < sids0.len() && sids0[k] == s;
                            assert(sids[k] == s);
                        }
                        assert(sids[sids0.len() as int] == sid);
                        if sids.contains(s) && s != sid {
                            assert(sids0.contains(s));
                        }
                    }
                }
            } else {
                let same_sub = Subscription {
                    sid: sub.sid.clone(),
                    callback: sub.callback.clone(),
                    nt: sub.nt.clone(),
                    timeout_secs: sub.timeout_secs,
                    seq: sub.seq,
                };
                list.push(same_sub);
            }
        }
        proof {
            lemma_table_counted(subs, list@, topic);
            assert forall|sid: Seq<char>| #[trigger] sids.contains(sid) <==> before.contains_key(
                sid,
            ) && is_told(before[sid], topic) by {
                if sids.contains(sid) {
                    let k = choose|k: int|
                        0 <= k < subs.len() && #[trigger] at(subs, sid, k) && is_told(
                            subs[k]@,
                            topic,
                        );
                    lemma_table_at(subs, k);
                }
                if before.contains_key(sid) && is_told(before[sid], topic) {
                    let k = choose|k: int| at(subs, sid, k);
                    lemma_table_at(subs, k);
                    assert(at(subs, sid, k));
                }
            }
            assert(notifies(before, sids, topic, body@, sent_view(sent@)));
        }
        *self = Subscriptions { list };
        sent
    }
}

/// The notifications that tell subscribers the state of AVTransport.
pub fn notify_avtransport(subs: &mut Subscriptions, av: &AVState) -> (r: Vec<Notification>)
    requires
        countable(old(subs)@, Topic::Transport),
    ensures
        final(subs)@ == all_counted(old(subs)@, Topic::Transport),
        exists|sids: Seq<Seq<char>>| #[trigger]
            notifies(
                old(subs)@,
                sids,
                Topic::Transport,
                transport_event(av@),
                sent_view(r@),
            ),
{
    let body = write_change(avtransport_last_change(av).as_str());
    assert(body@ == transport_event(av@));
    let ghost before = subs@;
    let r = subs.notify_all(Topic::Transport, body.as_str());
    proof {
        let sids = choose|sids: Seq<Seq<char>>| #[trigger]
            notifies(before, sids, Topic::Transport, body@, sent_view(r@));
        assert(notifies(before, sids, Topic::Transport, transport_event(av@), sent_view(r@)));
    }
    r
}

/// The notifications that tell subscribers the state of RenderingControl.
pub fn notify_rendering(subs: &mut Subscriptions, av: &AVState) -> (r: Vec<Notification>)
    requires
        countable(old(subs)@, Topic::Sound),
    ensures
        final(subs)@ == all_counted(old(subs)@, Topic::Sound),
        exists|sids: Seq<Seq<char>>| #[trigger]
            notifies(old(subs)@, sids, Topic::Sound, sound_event(av@), sent_view(r@)),
{
    let body = write_change(rendering_last_change(av).as_str());
    assert(body@ == sound_event(av@));
    let ghost before = subs@;
    let r = subs.notify_all(Topic::Sound, body.as_str());
    proof {
        let sids = choose|sids: Seq<Seq<char>>| #[trigger]
            notifies(before, sids, Topic::Sound, body@, sent_view(r@));
        assert(notifies(before, sids, Topic::Sound, sound_event(av@), sent_view(r@)));
    }
    r
}

// ---------------------------------------------------------------------------------------------
// Laws
// ---------------------------------------------------------------------------------------------
/// The request asks for a new subscription, and can have it.
pub open spec fn asks_new(req: SubscribeRequest) -> bool {
    req.sid is None && header_or(req.callback, ""@).len() > 0
}

/// A subscription that is ended leaves the subscriptions as they were before it began.
pub proof fn lemma_subscribe_unsubscribe(
    subs: Map<Seq<char>, SubscriptionModel>,
    req: SubscribeRequest,
    fresh: u128,
)
    requires
        asks_new(req),
        !subs.contains_key(sid_of(fresh)),
    ensures
        subscribed(subs, req, fresh).1.status == 200,
        unsubscribed(subscribed(subs, req, fresh).0, sid_of(fresh)) == (
            subs,
            plain_reply(200, ""@),
        ),
{
    reveal_strlit("uuid:");
    let new = subscribed(subs, req, fresh).0;
    assert(new.remove(sid_of(fresh)) =~= subs);
}

/// A subscription is its own: it has a name that no other UUID gives, and adding it touches no
/// other.
pub proof fn lemma_subscriptions_apart(
    subs: Map<Seq<char>, SubscriptionModel>,
    req: SubscribeRequest,
    fresh: u128,
    other: u128,
)
    requires
        asks_new(req),
        fresh != other,
    ensures
        sid_of(fresh) != sid_of(other),
        subscribed(subs, req, fresh).0.contains_key(sid_of(other)) == subs.contains_key(
            sid_of(other),
        ),
        subs.contains_key(sid_of(other)) ==> subscribed(subs, req, fresh).0[sid_of(other)]
            == subs[sid_of(other)],
{
    identity::lemma_uuid_reads_back(fresh);
    identity::lemma_uuid_reads_back(other);
    reveal_strlit("uuid:");
    if sid_of(fresh) == sid_of(other) {
        assert(sid_of(fresh).skip(5) =~= identity::uuid_text(fresh));
        assert(sid_of(other).skip(5) =~= identity::uuid_text(other));
    }
}

/// What names no subscription is neither renewed nor ended: the request is refused with 412 and
/// the subscriptions stay.
pub proof fn lemma_unknown_sid(
    subs: Map<Seq<char>, SubscriptionModel>,
    req: SubscribeRequest,
    fresh: u128,
)
    requires
        req.sid matches Some(s) && s@.len() > 0 && !subs.contains_key(s@),
    ensures
        subscribed(subs, req, fresh) == (subs, plain_reply(412, "Invalid SID"@), None::<Seq<char>>),
        unsubscribed(subs, req.sid->0@) == (subs, plain_reply(412, "Invalid SID"@)),
{
}

/// A renewal changes the time of its subscription alone, and sends no event.
pub proof fn lemma_renewal(
    subs: Map<Seq<char>, SubscriptionModel>,
    req: SubscribeRequest,
    fresh: u128,
)
    requires
        req.sid matches Some(s) && subs.contains_key(s@),
    ensures
        ({
            let (new, response, event) = subscribed(subs, req, fresh);
            let sid = req.sid->0@;
            &&& response.status == 200
            &&& event is None
            &&& new.dom() == subs.dom()
            &&& new[sid] == SubscriptionModel { timeout_secs: asked_timeout(req), ..subs[sid] }
            &&& forall|other: Seq<char>|
                other != sid && #[trigger] subs.contains_key(other) ==> new[other] == subs[other]
        }),
{
    let (new, response, event) = subscribed(subs, req, fresh);
    assert(new.dom() =~= subs.dom());
}

/// The events of a subscription are numbered from 0 on: the first has the number 0, and each the
/// number after the one before it.
pub proof fn lemma_events_numbered(
    subs: Map<Seq<char>, SubscriptionModel>,
    req: SubscribeRequest,
    fresh: u128,
    topic: Topic,
)
    requires
        asks_new(req),
    ensures
        subscribed(subs, req, fresh).0[sid_of(fresh)].seq == 0,
        forall|sid: Seq<char>| #[trigger]
            subs.contains_key(sid) && is_told(subs[sid], topic) && subs[sid].seq < u32::MAX
                ==> all_counted(subs, topic)[sid].seq == subs[sid].seq + 1,
        all_counted(subs, topic).dom() == subs.dom(),
{
    assert(all_counted(subs, topic).dom() =~= subs.dom());
}

/// The `TIMEOUT` header that an answer tells reads back as its seconds.
pub proof fn lemma_timeout_reads_back(secs: u64)
    ensures
        timeout_of(timeout_text(secs), text::lower_of(timeout_text(secs))) == secs,
{
    let t = timeout_text(secs);
    let d = number::decimal_of(secs as nat);
    reveal_strlit("Second-");
    reveal_strlit("infinite");
    reveal_strlit("-");
    number::lemma_decimal_reads_back(secs as nat);
    number::lemma_unsigned_of_decimal(secs as nat, u64::MAX as nat);
    assert forall|i: int| 0 <= i < t.len() implies (#[trigger] t[i]) as u32 <= 127 && t[i] != 'i'
        && t[i] != 'I' && (t[i] == '-' <==> i == 6) by {
        if i >= 7 {
            assert(t[i] == d[i - 7]);
            assert(text::is_digit(d[i - 7]));
        }
    }
    let l = text::lower_of(t);
    assert(!text::contains(l, "infinite"@)) by {
        if text::contains(l, "infinite"@) {
            let k = choose|k: int| text::occurs_at(l, "infinite"@, k);
            assert(l.subrange(k, k + 8)[0] == l[k]);
            assert(l[k] == text::lower_char(t[k]));
        }
    }
    assert(t.subrange(6, 7) =~= "-"@);
    assert forall|j: int| 0 <= j < 6 implies !text::occurs_at(t, "-"@, j) by {
        if text::occurs_at(t, "-"@, j) {
            assert(t.subrange(j, j + 1)[0] == t[j]);
        }
    }
    text::lemma_find_is(t, "-"@, 6);
    assert(t.skip(7) =~= d);
}

/// A new subscription is kept with what it asks: its callback without white space and angle
/// brackets round it, its type, its time, and 0 as the number of its first event; the answer names
/// it and its time, and its first event tells the state of the service of its path.
pub proof fn lemma_subscription_is_kept(
    subs: Map<Seq<char>, SubscriptionModel>,
    req: SubscribeRequest,
    av: AvModel,
    fresh: u128,
    left: Seq<char>,
    url: Seq<char>,
    right: Seq<char>,
)
    requires
        req.sid is None,
        req.callback matches Some(c) && c@ == left + ("<"@ + url + ">"@) + right,
        url.len() > 0,
        url[0] != '<' && url.last() != '>',
        forall|i: int| 0 <= i < left.len() ==> text::is_white(#[trigger] left[i]),
        forall|i: int| 0 <= i < right.len() ==> text::is_white(#[trigger] right[i]),
    ensures
        ({
            let (new, response, event) = subscribe_outcome(subs, req, av, fresh);
            let sid = "uuid:"@ + identity::uuid_text(fresh);
            &&& new.contains_key(sid)
            &&& new[sid].callback == url
            &&& new[sid].seq == 0
            &&& new[sid].nt == match req.nt {
                Some(nt) => nt@,
                None => "upnp:event"@,
            }
            &&& new[sid].timeout_secs == asked_timeout(req)
            &&& response.status == 200
            &&& response.headers.contains(("SID"@, sid))
            &&& response.headers.contains(
                ("TIMEOUT"@, "Second-"@ + number::decimal_of(asked_timeout(req) as nat)),
            )
            &&& event == Some((sid, first_event(req.path@, av)))
        }),
{
    reveal_strlit("<");
    reveal_strlit(">");
    let core = "<"@ + url + ">"@;
    let none = Seq::<char>::empty();
    assert forall|i: int| 0 <= i < left.len() implies CharSet::White.has(#[trigger] left[i]) by {
        assert(text::is_white(left[i]));
    }
    assert forall|i: int| 0 <= i < right.len() implies CharSet::White.has(#[trigger] right[i]) by {
        assert(text::is_white(right[i]));
    }
    text::lemma_strip_is(left, core, right, CharSet::White);
    assert(core =~= "<"@ + (url + ">"@));
    text::lemma_trim_start_is("<"@, url + ">"@, CharSet::One('<'));
    text::lemma_trim_end_is(url, ">"@, CharSet::One('>'));
    let (new, response, event) = subscribe_outcome(subs, req, av, fresh);
    assert(response.headers[0] == ("SID"@, sid_of(fresh)));
    assert(response.headers[1] == ("TIMEOUT"@, timeout_text(asked_timeout(req))));
}

/// The time that a subscription asks for: the seconds that it names; half an hour where it names
/// none, or has no end.
pub proof fn lemma_time_is_asked(req: SubscribeRequest, n: u64)
    ensures
        req.timeout is None ==> asked_timeout(req) == 1800,
        req.timeout matches Some(t) && t@ == "Second-"@ + number::decimal_of(n as nat)
            ==> asked_timeout(req) == n,
        req.timeout matches Some(t) && text::contains(text::lower_of(t@), "infinite"@)
            ==> asked_timeout(req) == 1800,
        req.timeout matches Some(t) && text::free_of(t@, CharSet::One('-')) ==> asked_timeout(req)
            == 1800,
{
    lemma_timeout_reads_back(n);
    lemma_timeout_reads_back(1800);
    assert("Second-1800"@ =~= timeout_text(1800)) by {
        reveal_strlit("Second-1800");
        reveal_strlit("Second-");
        reveal_with_fuel(number::decimal_of, 5);
    }
    if let Some(t) = req.timeout {
        reveal_strlit("-");
        if text::free_of(t@, CharSet::One('-')) && text::contains(t@, "-"@) {
            let i = choose|i: int| text::occurs_at(t@, "-"@, i);
            assert(t@.subrange(i, i + 1)[0] == t@[i]);
            assert(!CharSet::One('-').has(t@[i]));
        }
    }
}

/// What is missing is told: a new subscription needs a callback, ending one needs its name; nothing
/// changes.
pub proof fn lemma_missing_is_refused(
    subs: Map<Seq<char>, SubscriptionModel>,
    req: SubscribeRequest,
    av: AvModel,
    fresh: u128,
)
    requires
        req.sid is None,
        req.callback matches Some(c) ==> c@.len() == 0,
    ensures
        ({
            let (new, response, event) = subscribe_outcome(subs, req, av, fresh);
            &&& new == subs && event is None
            &&& response.status == 400 && response.body == "Missing CALLBACK"@
        }),
        unsubscribed(subs, Seq::empty()).0 == subs,
        unsubscribed(subs, Seq::empty()).1.status == 400,
        unsubscribed(subs, Seq::empty()).1.body == "Missing SID"@,
{
    reveal_strlit("");
}

/// Ending a subscription ends that one alone.
pub proof fn lemma_only_one_is_ended(
    subs: Map<Seq<char>, SubscriptionModel>,
    sid: Seq<char>,
    other: Seq<char>,
)
    requires
        sid.len() > 0,
        subs.contains_key(sid),
    ensures
        unsubscribed(subs, sid).1.status == 200,
        !unsubscribed(subs, sid).0.contains_key(sid),
        other != sid ==> unsubscribed(subs, sid).0.contains_key(other) == subs.contains_key(other),
        other != sid && subs.contains_key(other) ==> unsubscribed(subs, sid).0[other]
            == subs[other],
{
}

/// A notification tells the subscription, the number of its event and what it is about, and carries
/// what is to be told.
pub proof fn lemma_notification_tells(
    sid: Seq<char>,
    sub: SubscriptionModel,
    topic: Topic,
    body: Seq<char>,
)
    ensures
        ({
            let n = notification(sid, sub, topic, body);
            &&& n.body == body
            &&& n.headers.contains(("NT"@, "upnp:event"@))
            &&& n.headers.contains(("NTS"@, "upnp:propchange"@))
            &&& n.headers.contains(("SID"@, sid))
            &&& n.headers.contains(("SEQ"@, number::decimal_of(sub.seq as nat)))
            &&& n.headers.contains(("CONTENT-TYPE"@, "text/xml; charset=\"utf-8\""@))
            &&& n.headers.len() == if topic == Topic::Initial {
                6int
            } else {
                5int
            }
        }),
{
    let n = notification(sid, sub, topic, body);
    let k: int = if topic == Topic::Initial {
        2
    } else {
        0
    };
    assert(n.headers[k] == ("NT"@, "upnp:event"@));
    assert(n.headers[k + 1] == ("NTS"@, "upnp:propchange"@));
    assert(n.headers[k + 2] == ("SID"@, sid));
    assert(n.headers[k + 3] == ("SEQ"@, number::decimal_of(sub.seq as nat)));
    let m: int = if topic == Topic::Initial {
        1
    } else {
        4
    };
    assert(n.headers[m] == ("CONTENT-TYPE"@, "text/xml; charset=\"utf-8\""@));
}

/// A notification goes to the callback, and where there are several to the first.
pub proof fn lemma_notification_goes_to_first(
    sid: Seq<char>,
    sub: SubscriptionModel,
    topic: Topic,
    body: Seq<char>,
    url: Seq<char>,
    others: Seq<char>,
)
    requires
        url.len() > 0,
        text::free_of(url, CharSet::One(',')),
        !text::is_white(url[0]) && url[0] != '<' && url[0] != '>',
        !text::is_white(url.last()) && url.last() != '<' && url.last() != '>',
        sub.callback == url || sub.callback == url.push(',') + others,
    ensures
        notification(sid, sub, topic, body).url == url,
{
    text::lemma_split_free(url, CharSet::One(','));
    text::lemma_split_concat(url, ',', others, CharSet::One(','));
    text::lemma_strip_keeps(url, CharSet::White);
    text::lemma_strip_keeps(url, CharSet::One('<'));
    text::lemma_strip_keeps(url, CharSet::One('>'));
}

/// The first notification names the host of its URL.
pub proof fn lemma_host_is_named(host: Seq<char>, path: Seq<char>)
    requires
        text::free_of(host, CharSet::One('/')),
        !text::contains(host.push('/') + path, "http://"@),
    ensures
        host_of("http://"@ + (host.push('/') + path)) == host,
{
    reveal_strlit("http://");
    reveal_strlit("");
    let rest = host.push('/') + path;
    let url = "http://"@ + rest;
    assert(url.subrange(0, 7) =~= "http://"@);
    text::lemma_find_is(url, "http://"@, 0);
    assert(url.skip(7) =~= rest);
    assert(text::replace_of(rest, "http://"@, ""@) == rest);
    assert(url.take(0) + ""@ + rest =~= rest);
    text::lemma_split_free(host, CharSet::One('/'));
    text::lemma_split_concat(host, '/', path, CharSet::One('/'));
}

/// Whoever is subscribed with a callback is told, once; without a callback nobody is told of
/// AVTransport.
pub proof fn lemma_subscribers_are_told(
    subs: Map<Seq<char>, SubscriptionModel>,
    sids: Seq<Seq<char>>,
    topic: Topic,
    body: Seq<char>,
    sent: Seq<NotificationModel>,
    sid: Seq<char>,
)
    requires
        notifies(subs, sids, topic, body, sent),
        subs.contains_key(sid),
    ensures
        subs[sid].callback.len() > 0 ==> exists|i: int|
            0 <= i < sent.len() && #[trigger] sent[i] == notification(sid, subs[sid], topic, body),
        subs[sid].callback.len() == 0 && topic == Topic::Transport ==> !sids.contains(sid),
        sent.len() == sids.len(),
        forall|i: int| 0 <= i < sids.len() ==> subs.contains_key(#[trigger] sids[i]),
        forall|i: int, j: int| 0 <= i < j < sids.len() ==> sids[i] != sids[j],
{
    if subs[sid].callback.len() > 0 {
        assert(sids.contains(sid));
        let i = choose|i: int| 0 <= i < sids.len() && sids[i] == sid;
        assert(sent[i] == notification(sid, subs[sid], topic, body));
    }
    assert forall|i: int| 0 <= i < sids.len() implies subs.contains_key(#[trigger] sids[i]) by {
        assert(sids.contains(sids[i]));
    }
}

/// Counting an event changes the number of a subscription and nothing else of it.
pub proof fn lemma_counting_keeps_the_rest(
    subs: Map<Seq<char>, SubscriptionModel>,
    topic: Topic,
    sid: Seq<char>,
)
    requires
        subs.contains_key(sid),
    ensures
        ({
            let after = all_counted(subs, topic);
            &&& after.contains_key(sid)
            &&& after[sid].callback == subs[sid].callback
            &&& after[sid].nt == subs[sid].nt
            &&& after[sid].timeout_secs == subs[sid].timeout_secs
            &&& topic == Topic::Transport && subs[sid].callback.len() == 0 ==> after[sid].seq
                == subs[sid].seq
            &&& (topic != Topic::Transport || subs[sid].callback.len() > 0) && subs[sid].seq
                < u32::MAX ==> after[sid].seq == subs[sid].seq + 1
        }),
{
}

/// An event carries the change, escaped, in its `LastChange`.
pub proof fn lemma_change_is_carried(change: Seq<char>)
    ensures
        text::contains(change_event(change), "<LastChange>"@ + change + "</LastChange>"@),
{
    let p0 = "<?xml version=\"1.0\"?><e:propertyset xmlns:e=\"urn:schemas-upnp-org:event-1-0\"><e:property><LastChange>"@;
    let p1 = change;
    let p2 = "</LastChange></e:property></e:propertyset>"@;
    reveal_strlit(
        "<?xml version=\"1.0\"?><e:propertyset xmlns:e=\"urn:schemas-upnp-org:event-1-0\"><e:property><LastChange>",
    );
    reveal_strlit("</LastChange></e:property></e:propertyset>");
    reveal_strlit("<LastChange>");
    reveal_strlit("</LastChange>");
    let whole = change_event(change);
    assert(whole =~= (Seq::<char>::empty()) + p0 + p1 + p2 + (Seq::<char>::empty()));
    assert(p0.skip(p0.len() - "<LastChange>"@.len()) =~= "<LastChange>"@);
    assert(p2.subrange(0, "</LastChange>"@.len() as int) =~= "</LastChange>"@);
    text::lemma_contains_between(
        Seq::<char>::empty(),
        p0,
        p1,
        p2,
        Seq::<char>::empty(),
        "<LastChange>"@,
        "</LastChange>"@,
    );
}

/// The events of a service carry the change of that service: the first event by the path of the
/// subscription, the later ones by their topic.
pub proof fn lemma_events_carry_state(path: Seq<char>, av: AvModel)
    ensures
        text::contains(
            transport_event(av),
            "<LastChange>"@ + xml::escape_of(xml::avtransport_event(av)) + "</LastChange>"@,
        ),
        text::contains(
            sound_event(av),
            "<LastChange>"@ + xml::escape_of(xml::rendering_event(av.volume as nat, av.mute))
                + "</LastChange>"@,
        ),
        text::contains(path, "AVTransport"@) ==> first_event(path, av) == transport_event(av),
        !text::contains(path, "AVTransport"@) && text::contains(path, "RenderingControl"@)
            ==> first_event(path, av) == sound_event(av),
        !text::contains(path, "AVTransport"@) && !text::contains(path, "RenderingControl"@)
            ==> text::contains(
            first_event(path, av),
            "<SinkProtocolInfo>http-get:*:*:*</SinkProtocolInfo>"@,
        ),
{
    lemma_change_is_carried(xml::escape_of(xml::avtransport_event(av)));
    lemma_change_is_carried(xml::escape_of(xml::rendering_event(av.volume as nat, av.mute)));
    let told =
        "<?xml version=\"1.0\"?><e:propertyset xmlns:e=\"urn:schemas-upnp-org:event-1-0\"><e:property><SinkProtocolInfo>http-get:*:*:*</SinkProtocolInfo></e:property></e:propertyset>"@;
    let part = "<SinkProtocolInfo>http-get:*:*:*</SinkProtocolInfo>"@;
    reveal_strlit(
        "<?xml version=\"1.0\"?><e:propertyset xmlns:e=\"urn:schemas-upnp-org:event-1-0\"><e:property><SinkProtocolInfo>http-get:*:*:*</SinkProtocolInfo></e:property></e:propertyset>",
    );
    reveal_strlit("<SinkProtocolInfo>http-get:*:*:*</SinkProtocolInfo>");
    let k: int = 89;
    assert(told.subrange(k, k + part.len()) =~= part);
    assert(text::occurs_at(told, part, k));
}

/// Notifications can be counted wherever no subscription has used up its numbers.
pub proof fn lemma_counting_is_possible(subs: Map<Seq<char>, SubscriptionModel>, topic: Topic)
    ensures
        (forall|sid: Seq<char>| #[trigger]
            subs.contains_key(sid) ==> subs[sid].seq < 0xffff_ffff) ==> countable(subs, topic),
{
}

} // verus!
