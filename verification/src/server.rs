//! Server-side decisions: the shared per-server context, the responder
//! that answers one stream's frames, the per-connection task steps, and
//! the accept loop's dispatch state. Each decision is a plain function
//! from state and event to next state and action; the surrounding tasks
//! perform the transport work and hand the events back.

use vstd::prelude::*;

verus! {

use crate::frame::max_payload_len;

/// What a responder writes back for each request frame: the request
/// itself, or a fixed short acknowledgment.
#[derive(Clone, Copy, PartialEq, Eq, Structural, Debug)]
pub enum ResponseMode {
    Echo,
    FixedAck,
}

/// Shared per-server context handed to every spawned connection and
/// stream task. Immutable after construction and cheap to copy, so
/// concurrent tasks each hold their own.
#[derive(Clone, Copy, PartialEq, Eq, Structural, Debug)]
pub struct ServerCtx {
    pub mode: ResponseMode,
}

impl ServerCtx {
    pub fn new(mode: ResponseMode) -> (c: ServerCtx)
        ensures
            c.mode == mode,
    {
        ServerCtx { mode }
    }
}

/// The fixed acknowledgment payload: the bytes `ack`.
pub open spec fn ack_payload() -> Seq<u8> {
    seq![0x61u8, 0x63u8, 0x6bu8]
}

/// The payload a responder in `mode` owes for the request `request`.
pub open spec fn expected_response(mode: ResponseMode, request: Seq<u8>) -> Seq<u8> {
    match mode {
        ResponseMode::Echo => request,
        ResponseMode::FixedAck => ack_payload(),
    }
}

/// The fixed acknowledgment payload as a byte vector.
pub fn ack_bytes() -> (r: Vec<u8>)
    ensures
        r@ == ack_payload(),
{
    let mut out: Vec<u8> = Vec::new();
    out.push(0x61);
    out.push(0x63);
    out.push(0x6b);
    assert(out@ =~= ack_payload());
    out
}

/// Build the response payload for one request frame.
pub fn respond(ctx: &ServerCtx, request: &[u8]) -> (r: Vec<u8>)
    ensures
        r@ == expected_response(ctx.mode, request@),
{
    match ctx.mode {
        ResponseMode::Echo => {
            let mut out: Vec<u8> = Vec::new();
            let mut i: usize = 0;
            while i < request.len()
                invariant
                    i <= request@.len(),
                    out@ == request@.subrange(0, i as int),
                decreases request@.len() - i,
            {
                out.push(request[i]);
                assert(out@ =~= request@.subrange(0, i + 1));
                i = i + 1;
            }
            assert(out@ =~= request@);
            out
        },
        ResponseMode::FixedAck => ack_bytes(),
    }
}

/// The echo response never outgrows a frame: whenever the request fit in
/// one frame, the response a responder owes for it fits too, in either
/// mode, so the responder can always frame its answer.
pub proof fn lemma_response_fits_in_frame(mode: ResponseMode, request: Seq<u8>)
    requires
        request.len() <= max_payload_len(),
    ensures
        expected_response(mode, request).len() <= max_payload_len(),
{
}

/// Exchange law: frame the response a responder in `mode` owes for
/// `request` and write it on the return direction; the peer reads back
/// exactly that response payload, whatever bytes follow it.
pub proof fn lemma_exchange_round_trip(mode: ResponseMode, request: Seq<u8>, rest: Seq<u8>)
    requires
        request.len() <= max_payload_len(),
    ensures
        crate::frame::stream_has_frame(
            crate::frame::frame_bytes(expected_response(mode, request)) + rest,
        ),
        crate::frame::frame_payload(
            crate::frame::frame_bytes(expected_response(mode, request)) + rest,
        ) == expected_response(mode, request),
        crate::frame::frame_rest(
            crate::frame::frame_bytes(expected_response(mode, request)) + rest,
        ) == rest,
{
    lemma_response_fits_in_frame(mode, request);
    crate::frame::lemma_frame_round_trip(expected_response(mode, request), rest);
}

/// What the stream task learned from one attempted frame read.
pub enum ReadEvent {
    Frame(Vec<u8>),
    StreamEnded,
}

/// What the stream task does next.
pub enum ResponderAction {
    Reply(Vec<u8>),
    Stop,
}

/// One step of the responder loop: a whole request frame earns a
/// response payload to frame and write back; a closed or failed stream
/// stops the owning stream's worker and no other.
pub fn responder_step(ctx: &ServerCtx, ev: ReadEvent) -> (a: ResponderAction)
    ensures
        (match ev {
            ReadEvent::Frame(p) => match a {
                ResponderAction::Reply(r) => r@ == expected_response(ctx.mode, p@),
                ResponderAction::Stop => false,
            },
            ReadEvent::StreamEnded => a is Stop,
        }),
{
    match ev {
        ReadEvent::Frame(p) => ResponderAction::Reply(respond(ctx, p.as_slice())),
        ReadEvent::StreamEnded => ResponderAction::Stop,
    }
}

/// What a connection task saw from the transport.
#[derive(Clone, Copy, PartialEq, Eq, Structural, Debug)]
pub enum ConnEvent {
    HandshakeDone,
    HandshakeFailed,
    BiStreamAccepted,
    StreamAcceptFailed,
    ConnectionClosed,
}

/// What a connection task does next.
#[derive(Clone, Copy, PartialEq, Eq, Structural, Debug)]
pub enum ConnAction {
    AwaitStreams,
    SpawnStreamTask,
    EndConnectionTask,
}

/// One step of a connection task: a finished handshake moves it on to
/// accepting streams, each accepted bidirectional stream gets its own
/// task, and any failure or close ends this connection's task alone.
pub fn connection_step(ev: ConnEvent) -> (a: ConnAction)
    ensures
        a == (match ev {
            ConnEvent::HandshakeDone => ConnAction::AwaitStreams,
            ConnEvent::BiStreamAccepted => ConnAction::SpawnStreamTask,
            ConnEvent::HandshakeFailed => ConnAction::EndConnectionTask,
            ConnEvent::StreamAcceptFailed => ConnAction::EndConnectionTask,
            ConnEvent::ConnectionClosed => ConnAction::EndConnectionTask,
        }),
{
    match ev {
        ConnEvent::HandshakeDone => ConnAction::AwaitStreams,
        ConnEvent::BiStreamAccepted => ConnAction::SpawnStreamTask,
        ConnEvent::HandshakeFailed => ConnAction::EndConnectionTask,
        ConnEvent::StreamAcceptFailed => ConnAction::EndConnectionTask,
        ConnEvent::ConnectionClosed => ConnAction::EndConnectionTask,
    }
}

/// `x + 1`, stuck at the top of the counter's range.
pub open spec fn sat_inc(x: u64) -> u64 {
    if x < 0xffff_ffff_ffff_ffff {
        (x + 1) as u64
    } else {
        x
    }
}

/// What the accept loop saw from the endpoint.
#[derive(Clone, Copy, PartialEq, Eq, Structural, Debug)]
pub enum AcceptEvent {
    IncomingConnection,
    EndpointClosed,
}

/// What the accept loop does next.
#[derive(Clone, Copy, PartialEq, Eq, Structural, Debug)]
pub enum DispatchAction {
    SpawnConnectionTask,
    StopAccepting,
}

/// The accept loop's state: it accepts until the endpoint closes, and
/// counts spawned connection tasks and reported connection failures.
#[derive(Clone, Copy, PartialEq, Eq, Structural, Debug)]
pub struct Dispatcher {
    pub accepting: bool,
    pub connections_spawned: u64,
    pub connection_failures: u64,
}

/// The dispatcher after one accept-loop event.
pub open spec fn spec_dispatch_step(d: Dispatcher, ev: AcceptEvent) -> (Dispatcher, DispatchAction) {
    match ev {
        AcceptEvent::IncomingConnection => (
            (Dispatcher { connections_spawned: sat_inc(d.connections_spawned), ..d }),
            DispatchAction::SpawnConnectionTask,
        ),
        AcceptEvent::EndpointClosed => (
            (Dispatcher { accepting: false, ..d }),
            DispatchAction::StopAccepting,
        ),
    }
}

/// The dispatcher after one connection task reported a failure: the
/// failure is counted and nothing else changes.
pub open spec fn spec_record_failure(d: Dispatcher) -> Dispatcher {
    Dispatcher { connection_failures: sat_inc(d.connection_failures), ..d }
}

impl Dispatcher {
    pub fn new() -> (d: Dispatcher)
        ensures
            d.accepting,
            d.connections_spawned == 0,
            d.connection_failures == 0,
    {
        Dispatcher { accepting: true, connections_spawned: 0, connection_failures: 0 }
    }

    /// One step of the accept loop: an incoming attempt gets its own
    /// connection task; a closed endpoint stops the loop for good.
    pub fn on_accept_event(&mut self, ev: AcceptEvent) -> (a: DispatchAction)
        ensures
            (*final(self), a) == spec_dispatch_step(*old(self), ev),
    {
        match ev {
            AcceptEvent::IncomingConnection => {
                if self.connections_spawned < 0xffff_ffff_ffff_ffff {
                    self.connections_spawned = self.connections_spawned + 1;
                }
                DispatchAction::SpawnConnectionTask
            },
            AcceptEvent::EndpointClosed => {
                self.accepting = false;
                DispatchAction::StopAccepting
            },
        }
    }

    /// A connection task reported a handshake or stream-accept failure:
    /// count it; the accept loop itself is untouched.
    pub fn on_connection_failure(&mut self)
        ensures
            *final(self) == spec_record_failure(*old(self)),
    {
        if self.connection_failures < 0xffff_ffff_ffff_ffff {
            self.connection_failures = self.connection_failures + 1;
        }
    }
}

/// The dispatcher after `k` connection failures in a row.
pub open spec fn after_failures(d: Dispatcher, k: nat) -> Dispatcher
    decreases k,
{
    if k == 0 {
        d
    } else {
        spec_record_failure(after_failures(d, (k - 1) as nat))
    }
}

/// Fault isolation law: however many connections have failed, the
/// dispatcher is still accepting exactly as before, and the next
/// incoming attempt still gets its own connection task.
pub proof fn lemma_failures_never_stop_accepting(d: Dispatcher, k: nat)
    ensures
        after_failures(d, k).accepting == d.accepting,
        d.accepting ==> spec_dispatch_step(
            after_failures(d, k),
            AcceptEvent::IncomingConnection,
        ).1 == DispatchAction::SpawnConnectionTask,
        d.accepting ==> spec_dispatch_step(after_failures(d, k), AcceptEvent::IncomingConnection).0.accepting,
    decreases k,
{
    if k > 0 {
        lemma_failures_never_stop_accepting(d, (k - 1) as nat);
    }
}

/// Transport parameters this protocol asks of a server endpoint:
/// unidirectional streams are never used, so none may be opened.
#[derive(Clone, Copy, PartialEq, Eq, Structural, Debug)]
pub struct TransportSettings {
    pub max_concurrent_uni_streams: u32,
    pub max_concurrent_bidi_streams: u32,
}

/// The server's transport settings: no unidirectional streams, and room
/// for concurrent bidirectional streams.
pub fn server_transport_settings() -> (s: TransportSettings)
    ensures
        s.max_concurrent_uni_streams == 0,
        s.max_concurrent_bidi_streams == 100,
{
    TransportSettings { max_concurrent_uni_streams: 0, max_concurrent_bidi_streams: 100 }
}

} // verus!
