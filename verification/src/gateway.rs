//! The gateway's dispatch logic: one state machine that reacts to the four
//! kinds of readiness event — a new connection, or a fresh message on one of
//! the three channels — and decides what to write on which socket.
//!
//! The runtime around it owns the sockets and the multi-way wait; it feeds
//! one event at a time into [`Gateway::step`] and performs the returned
//! actions.  Every decision — how a request is answered, which connection a
//! channel's frames go to, what happens on a write failure — is made here.

use vstd::prelude::*;

use crate::http::{
    classify_request, file_for, request_of, resolve_file, response_101, wire_101, Channel, Request,
    RequestView,
};
use crate::messages::{Attitude, SysInfo, VideoFrame};
use crate::wire::{attitude_bytes, attitude_wire, encode_frame, frame_wire, sysinfo_bytes, sysinfo_wire};

verus! {

/// Per-connection gateway state, reduced to what the dispatch loop needs: for
/// each channel, the connection (by the runtime's numeric handle) that is
/// currently attached to it, if any.  A newer upgrade replaces an older one.
pub struct Gateway {
    pub video: Option<u64>,
    pub attitude: Option<u64>,
    pub sysinfo: Option<u64>,
}

/// One readiness event, as handed in by the runtime's fan-in layer.
pub enum Event {
    /// A new connection, with the request bytes read from it.
    Connected { conn: u64, request: Vec<u8> },
    /// The next video frame published on the bus.
    VideoMsg { frame: VideoFrame },
    /// The next attitude message published on the bus.
    AttitudeMsg { att: Attitude },
    /// The next telemetry snapshot published on the bus.
    SysInfoMsg { info: SysInfo },
}

/// The mathematical image of an event.
pub enum EventView {
    Connected { conn: u64, request: Seq<u8> },
    VideoMsg { frame: Seq<u8> },
    AttitudeMsg { att: Attitude },
    SysInfoMsg { info: SysInfo },
}

impl View for Event {
    type V = EventView;

    open spec fn view(&self) -> EventView {
        match self {
            Event::Connected { conn, request } => EventView::Connected {
                conn: *conn,
                request: request@,
            },
            Event::VideoMsg { frame } => EventView::VideoMsg { frame: frame@ },
            Event::AttitudeMsg { att } => EventView::AttitudeMsg { att: *att },
            Event::SysInfoMsg { info } => EventView::SysInfoMsg { info: *info },
        }
    }
}

/// What the runtime must do next, in order.
pub enum Action {
    /// Write these bytes on the connection and keep it open.
    Send { conn: u64, bytes: Vec<u8> },
    /// Serve the named file on the connection — `200 OK` with the file's
    /// bytes and mapped content type, or `404 Not Found` when it cannot be
    /// opened — then close it.
    ServeFile { conn: u64, file: Vec<u8> },
    /// Drop the connection without an answer.
    Close { conn: u64 },
}

/// The mathematical image of an action.
pub enum ActionView {
    Send { conn: u64, bytes: Seq<u8> },
    ServeFile { conn: u64, file: Seq<u8> },
    Close { conn: u64 },
}

impl View for Action {
    type V = ActionView;

    open spec fn view(&self) -> ActionView {
        match self {
            Action::Send { conn, bytes } => ActionView::Send { conn: *conn, bytes: bytes@ },
            Action::ServeFile { conn, file } => ActionView::ServeFile {
                conn: *conn,
                file: file@,
            },
            Action::Close { conn } => ActionView::Close { conn: *conn },
        }
    }
}

/// A list of actions, seen mathematically.
pub open spec fn actions_view(s: Seq<Action>) -> Seq<ActionView> {
    s.map_values(|a: Action| a@)
}

/// The channel a message event belongs to; a connection event belongs to none.
pub open spec fn msg_channel(e: EventView) -> Option<Channel> {
    match e {
        EventView::Connected { .. } => None,
        EventView::VideoMsg { .. } => Some(Channel::Video),
        EventView::AttitudeMsg { .. } => Some(Channel::Attitude),
        EventView::SysInfoMsg { .. } => Some(Channel::Sysinfo),
    }
}

/// The frame payload a message event carries: the raw frame for video, the
/// fixed-width serialization for the other two.
pub open spec fn msg_payload(e: EventView) -> Seq<u8> {
    match e {
        EventView::Connected { .. } => Seq::<u8>::empty(),
        EventView::VideoMsg { frame } => frame,
        EventView::AttitudeMsg { att } => attitude_wire(att),
        EventView::SysInfoMsg { info } => sysinfo_wire(info),
    }
}

/// Attach a connection to the channel its upgrade named, if it named one; an
/// unknown channel leaves every attachment alone, so the socket stays open
/// but inert.
pub open spec fn attach(gw: Gateway, ch: Option<Channel>, conn: u64) -> Gateway {
    match ch {
        None => gw,
        Some(Channel::Video) => Gateway { video: Some(conn), ..gw },
        Some(Channel::Attitude) => Gateway { attitude: Some(conn), ..gw },
        Some(Channel::Sysinfo) => Gateway { sysinfo: Some(conn), ..gw },
    }
}

/// The whole behaviour of one dispatch step.
pub open spec fn step_spec(gw: Gateway, e: EventView) -> (Gateway, Seq<ActionView>) {
    match e {
        EventView::Connected { conn, request } => match request_of(request) {
            RequestView::Http { path } => (
                gw,
                seq![ActionView::ServeFile { conn, file: file_for(path) }],
            ),
            RequestView::Ws { channel, key } => (
                attach(gw, channel, conn),
                seq![ActionView::Send { conn, bytes: wire_101(key) }],
            ),
            RequestView::Bad => (gw, seq![ActionView::Close { conn }]),
        },
        _ => match gw.attached(msg_channel(e)->0) {
            Some(c) => (
                gw,
                seq![ActionView::Send { conn: c, bytes: frame_wire(msg_payload(e)) }],
            ),
            None => (gw, Seq::<ActionView>::empty()),
        },
    }
}

impl Gateway {
    /// The connection currently attached to a channel.
    pub open spec fn attached(&self, ch: Channel) -> Option<u64> {
        match ch {
            Channel::Video => self.video,
            Channel::Attitude => self.attitude,
            Channel::Sysinfo => self.sysinfo,
        }
    }

    /// A gateway with no attachments yet.
    pub fn new() -> (r: Gateway)
        ensures
            forall|ch: Channel| r.attached(ch) is None,
    {
        Gateway { video: None, attitude: None, sysinfo: None }
    }

    /// Observe which connection a channel is attached to.
    pub fn attached_conn(&self, ch: Channel) -> (r: Option<u64>)
        ensures
            r == self.attached(ch),
    {
        match ch {
            Channel::Video => self.video,
            Channel::Attitude => self.attitude,
            Channel::Sysinfo => self.sysinfo,
        }
    }

    /// React to one readiness event: answer or drop a fresh connection, or
    /// forward a channel's message, as one frame, to the connection attached
    /// to that channel — and to no other.
    pub fn step(&mut self, e: Event) -> (acts: Vec<Action>)
        ensures
            ({
                let sr = step_spec(*old(self), e@);
                *final(self) == sr.0 && actions_view(acts@) == sr.1
            }),
    {
        match e {
            Event::Connected { conn, request } => {
                match classify_request(request.as_slice()) {
                    Request::Http { path } => {
                        let file = resolve_file(path.as_slice());
                        let acts = vec![Action::ServeFile { conn, file }];
                        proof {
                            assert(actions_view(acts@) =~= step_spec(*old(self), e@).1);
                        }
                        acts
                    },
                    Request::Ws { channel, key } => {
                        let resp = response_101(&key);
                        match channel {
                            Some(Channel::Video) => self.video = Some(conn),
                            Some(Channel::Attitude) => self.attitude = Some(conn),
                            Some(Channel::Sysinfo) => self.sysinfo = Some(conn),
                            None => {},
                        }
                        let acts = vec![Action::Send { conn, bytes: resp }];
                        proof {
                            assert(actions_view(acts@) =~= step_spec(*old(self), e@).1);
                        }
                        acts
                    },
                    Request::Bad => {
                        let acts = vec![Action::Close { conn }];
                        proof {
                            assert(actions_view(acts@) =~= step_spec(*old(self), e@).1);
                        }
                        acts
                    },
                }
            },
            Event::VideoMsg { frame } => {
                match self.video {
                    Some(c) => {
                        let bytes = encode_frame(&frame.bytes);
                        let acts = vec![Action::Send { conn: c, bytes }];
                        proof {
                            assert(actions_view(acts@) =~= step_spec(*old(self), e@).1);
                        }
                        acts
                    },
                    None => {
                        let acts: Vec<Action> = Vec::new();
                        proof {
                            assert(actions_view(acts@) =~= step_spec(*old(self), e@).1);
                        }
                        acts
                    },
                }
            },
            Event::AttitudeMsg { att } => {
                match self.attitude {
                    Some(c) => {
                        let payload = attitude_bytes(&att);
                        let bytes = encode_frame(&payload);
                        let acts = vec![Action::Send { conn: c, bytes }];
                        proof {
                            assert(actions_view(acts@) =~= step_spec(*old(self), e@).1);
                        }
                        acts
                    },
                    None => {
                        let acts: Vec<Action> = Vec::new();
                        proof {
                            assert(actions_view(acts@) =~= step_spec(*old(self), e@).1);
                        }
                        acts
                    },
                }
            },
            Event::SysInfoMsg { info } => {
                match self.sysinfo {
                    Some(c) => {
                        let payload = sysinfo_bytes(&info);
                        let bytes = encode_frame(&payload);
                        let acts = vec![Action::Send { conn: c, bytes }];
                        proof {
                            assert(actions_view(acts@) =~= step_spec(*old(self), e@).1);
                        }
                        acts
                    },
                    None => {
                        let acts: Vec<Action> = Vec::new();
                        proof {
                            assert(actions_view(acts@) =~= step_spec(*old(self), e@).1);
                        }
                        acts
                    },
                }
            },
        }
    }

    /// Forget a connection whose write failed: whatever channel it was
    /// attached to is detached, every other attachment stays.  The connection
    /// gets no further frames and is never retried.
    pub fn on_write_error(&mut self, conn: u64)
        ensures
            forall|ch: Channel| #[trigger] final(self).attached(ch) == (if old(self).attached(ch)
                == Some(conn) {
                Option::<u64>::None
            } else {
                old(self).attached(ch)
            }),
    {
        if self.video == Some(conn) {
            self.video = None;
        }
        if self.attitude == Some(conn) {
            self.attitude = None;
        }
        if self.sysinfo == Some(conn) {
            self.sysinfo = None;
        }
    }
}

// ---------------------------------------------------------------------------
// Laws of the dispatch loop
// ---------------------------------------------------------------------------

/// A whole run of the dispatch loop over a sequence of events: the final
/// state, and every action of every step, in order.
pub open spec fn run_spec(gw: Gateway, es: Seq<EventView>) -> (Gateway, Seq<ActionView>)
    decreases es.len(),
{
    if es.len() == 0 {
        (gw, Seq::<ActionView>::empty())
    } else {
        let first = step_spec(gw, es.first());
        let rest = run_spec(first.0, es.drop_first());
        (rest.0, first.1 + rest.1)
    }
}

/// The bytes written to one connection by a list of actions, in order.
pub open spec fn sends_to(acts: Seq<ActionView>, c: u64) -> Seq<Seq<u8>>
    decreases acts.len(),
{
    if acts.len() == 0 {
        Seq::<Seq<u8>>::empty()
    } else {
        let rest = sends_to(acts.drop_first(), c);
        match acts.first() {
            ActionView::Send { conn, bytes } => if conn == c {
                seq![bytes] + rest
            } else {
                rest
            },
            _ => rest,
        }
    }
}

/// The payloads published on one channel by a sequence of events, in order.
pub open spec fn msgs_for(es: Seq<EventView>, ch: Channel) -> Seq<Seq<u8>>
    decreases es.len(),
{
    if es.len() == 0 {
        Seq::<Seq<u8>>::empty()
    } else {
        let rest = msgs_for(es.drop_first(), ch);
        if msg_channel(es.first()) == Some(ch) {
            seq![msg_payload(es.first())] + rest
        } else {
            rest
        }
    }
}

proof fn lemma_sends_to_singleton(a: ActionView, c: u64)
    ensures
        sends_to(seq![a], c) == (match a {
            ActionView::Send { conn, bytes } => if conn == c {
                seq![bytes]
            } else {
                Seq::<Seq<u8>>::empty()
            },
            _ => Seq::<Seq<u8>>::empty(),
        }),
{
    let s = seq![a];
    assert(s.first() == a);
    assert(s.drop_first().len() == 0);
    assert(sends_to(s.drop_first(), c) == Seq::<Seq<u8>>::empty());
    match a {
        ActionView::Send { conn, bytes } => {
            if conn == c {
                assert(sends_to(s, c) =~= seq![bytes]);
            }
        },
        _ => {},
    }
}

proof fn lemma_sends_to_concat(a: Seq<ActionView>, b: Seq<ActionView>, c: u64)
    ensures
        sends_to(a + b, c) == sends_to(a, c) + sends_to(b, c),
    decreases a.len(),
{
    if a.len() == 0 {
        assert(a + b =~= b);
        assert(sends_to(a, c) + sends_to(b, c) =~= sends_to(b, c));
    } else {
        assert((a + b).first() == a.first());
        assert((a + b).drop_first() =~= a.drop_first() + b);
        lemma_sends_to_concat(a.drop_first(), b, c);
        match a.first() {
            ActionView::Send { conn, bytes } => {
                if conn == c {
                    assert(seq![bytes] + (sends_to(a.drop_first(), c) + sends_to(b, c)) =~= (
                    seq![bytes] + sends_to(a.drop_first(), c)) + sends_to(b, c));
                }
            },
            _ => {},
        }
    }
}

/// Channel isolation, one step at a time: a message event for one channel
/// changes no attachment, and writes only to the connection attached to that
/// channel — one frame holding exactly that channel's payload.
pub proof fn lemma_message_step(gw: Gateway, e: EventView)
    requires
        msg_channel(e) is Some,
    ensures
        step_spec(gw, e).0 == gw,
        gw.attached(msg_channel(e)->0) is None ==> step_spec(gw, e).1.len() == 0,
        gw.attached(msg_channel(e)->0) matches Some(c) ==> step_spec(gw, e).1
            =~= seq![ActionView::Send { conn: c, bytes: frame_wire(msg_payload(e)) }],
{
}

/// Channel isolation: a connection attached to one channel receives nothing
/// from a message event of a different channel, as long as it is not also the
/// connection attached to that other channel.
pub proof fn lemma_channel_isolation(gw: Gateway, e: EventView, ch: Channel, c: u64)
    requires
        msg_channel(e) is Some,
        msg_channel(e)->0 != ch,
        gw.attached(ch) == Some(c),
        gw.attached(msg_channel(e)->0) != Some(c),
    ensures
        forall|k: int| 0 <= k < step_spec(gw, e).1.len() ==> !(#[trigger] step_spec(gw, e).1[k]
            matches ActionView::Send { conn, bytes } && conn == c),
{
    lemma_message_step(gw, e);
}

/// Dispatch liveness: over any run of message events, in any interleaving,
/// the connection attached to a channel receives exactly that channel's
/// payloads, each as one frame, in publish order — no channel starves or
/// leaks into another, provided the three channels are attached to three
/// distinct connections (or not at all).
pub proof fn lemma_dispatch_liveness(gw: Gateway, es: Seq<EventView>, ch: Channel, c: u64)
    requires
        forall|k: int| 0 <= k < es.len() ==> (#[trigger] msg_channel(es[k])) is Some,
        gw.attached(ch) == Some(c),
        forall|ch2: Channel| ch2 != ch ==> #[trigger] gw.attached(ch2) != Some(c),
    ensures
        run_spec(gw, es).0 == gw,
        sends_to(run_spec(gw, es).1, c) == msgs_for(es, ch).map_values(
            |p: Seq<u8>| frame_wire(p),
        ),
    decreases es.len(),
{
    let f = |p: Seq<u8>| frame_wire(p);
    if es.len() == 0 {
        assert(sends_to(run_spec(gw, es).1, c) =~= msgs_for(es, ch).map_values(f));
    } else {
        let e = es.first();
        assert(msg_channel(es[0]) is Some);
        lemma_message_step(gw, e);
        let first = step_spec(gw, e);
        assert(forall|k: int| 0 <= k < es.drop_first().len() ==> (#[trigger] msg_channel(
            es.drop_first()[k],
        )) is Some) by {
            assert(forall|k: int| 0 <= k < es.drop_first().len() ==> es.drop_first()[k] == es[k
                + 1]);
        };
        lemma_dispatch_liveness(gw, es.drop_first(), ch, c);
        lemma_sends_to_concat(first.1, run_spec(gw, es.drop_first()).1, c);
        let mch = msg_channel(e)->0;
        if mch == ch {
            lemma_sends_to_singleton(
                ActionView::Send { conn: c, bytes: frame_wire(msg_payload(e)) },
                c,
            );
            assert(sends_to(first.1, c) == seq![frame_wire(msg_payload(e))]);
        } else {
            match gw.attached(mch) {
                Some(c2) => {
                    assert(c2 != c);
                    lemma_sends_to_singleton(
                        ActionView::Send { conn: c2, bytes: frame_wire(msg_payload(e)) },
                        c,
                    );
                    assert(sends_to(first.1, c) == Seq::<Seq<u8>>::empty());
                },
                None => {
                    assert(sends_to(first.1, c) == Seq::<Seq<u8>>::empty());
                },
            }
        }
        assert(sends_to(run_spec(gw, es).1, c) =~= msgs_for(es, ch).map_values(f));
    }
}

} // verus!
