use vstd::prelude::*;
use crate::reactor::Interest;

verus! {

/// How many request bytes a connection buffers before giving up.
pub const REQUEST_CAPACITY: usize = 1024;

/// How many bytes the fixed response has.
pub const RESPONSE_LEN: usize = 70;

/// Carriage return, line feed, carriage return, line feed.
pub open spec fn terminator() -> Seq<u8> {
    seq![13u8, 10u8, 13u8, 10u8]
}

/// The bytes received so far end with the header terminator.
pub open spec fn ends_with_terminator(s: Seq<u8>) -> bool {
    s.len() >= 4 && s.subrange(s.len() - 4, s.len() as int) == terminator()
}

/// The response every served connection receives, byte for byte:
/// "HTTP/1.1 200 OK\r\nContent-Length: 13\nConnection: close\r\n\r\nHello world!\n".
pub open spec fn response_spec() -> Seq<u8> {
    seq![
        72u8, 84u8, 84u8, 80u8, 47u8, 49u8, 46u8, 49u8, 32u8, 50u8,
        48u8, 48u8, 32u8, 79u8, 75u8, 13u8, 10u8, 67u8, 111u8, 110u8,
        116u8, 101u8, 110u8, 116u8, 45u8, 76u8, 101u8, 110u8, 103u8, 116u8,
        104u8, 58u8, 32u8, 49u8, 51u8, 10u8, 67u8, 111u8, 110u8, 110u8,
        101u8, 99u8, 116u8, 105u8, 111u8, 110u8, 58u8, 32u8, 99u8, 108u8,
        111u8, 115u8, 101u8, 13u8, 10u8, 13u8, 10u8, 72u8, 101u8, 108u8,
        108u8, 111u8, 32u8, 119u8, 111u8, 114u8, 108u8, 100u8, 33u8, 10u8,
    ]
}

/// The fixed response.
pub fn response() -> (r: Vec<u8>)
    ensures
        r@ == response_spec(),
{
    let r: Vec<u8> = vec![
        72, 84, 84, 80, 47, 49, 46, 49, 32, 50, 48, 48, 32, 79,
        75, 13, 10, 67, 111, 110, 116, 101, 110, 116, 45, 76, 101, 110,
        103, 116, 104, 58, 32, 49, 51, 10, 67, 111, 110, 110, 101, 99,
        116, 105, 111, 110, 58, 32, 99, 108, 111, 115, 101, 13, 10, 13,
        10, 72, 101, 108, 108, 111, 32, 119, 111, 114, 108, 100, 33, 10,
    ];
    assert(r@ =~= response_spec());
    r
}

/// How a connection ended.
#[derive(Clone, Copy, Debug, PartialEq, Eq, Structural)]
pub enum Outcome {
    /// The whole response was written and flushed.
    Served,
    /// The peer closed the connection (a read or a write of zero bytes).
    PeerClosed,
    /// The buffer filled up without the header terminator.
    TooLarge,
    /// Another I/O error on this connection.
    IoError,
}

/// What the handler last learned from its connection.
#[derive(Debug, PartialEq, Eq)]
pub enum ConnEvent {
    /// The task was advanced, possibly without any new readiness.
    Resume,
    /// The connection is registered for read and write readiness.
    Registered,
    /// A read returned these bytes; none means the peer closed.
    Received(Vec<u8>),
    /// A write accepted this many bytes; zero means the peer closed.
    Sent(usize),
    /// A flush completed.
    Flushed,
    /// The operation asked for is not ready.
    WouldBlock,
    /// The operation asked for failed otherwise.
    Failed,
}

/// What the handler asks of its connection next.
#[derive(Debug, PartialEq, Eq)]
pub enum ConnAction {
    /// Register the connection for this readiness: both read and write,
    /// once, from the outset.
    Register(Interest),
    /// Read at most this many bytes.
    Receive(usize),
    /// Write these bytes.
    Send(Vec<u8>),
    /// Flush buffered output.
    Flush,
    /// Return pending: the registered waker brings the task back.
    Yield,
    /// Deregister the connection, release it and report completion.
    Close(Outcome),
}

/// The state of one connection.
#[derive(Debug)]
pub enum HandlerState {
    Start,
    /// The request bytes received so far; their count is the read offset.
    Reading { request: Vec<u8> },
    /// How many bytes of the response are written.
    Writing { written: usize },
    Flushing,
    Done { outcome: Outcome },
}

/// The abstract state of one connection.
pub enum Phase {
    Start,
    Reading(Seq<u8>),
    Writing(nat),
    Flushing,
    Done(Outcome),
}

/// The abstract action.
pub enum ActionModel {
    Register(Interest),
    Receive(nat),
    Send(Seq<u8>),
    Flush,
    Yield,
    Close(Outcome),
}

impl View for HandlerState {
    type V = Phase;

    open spec fn view(&self) -> Phase {
        match self {
            HandlerState::Start => Phase::Start,
            HandlerState::Reading { request } => Phase::Reading(request@),
            HandlerState::Writing { written } => Phase::Writing(*written as nat),
            HandlerState::Flushing => Phase::Flushing,
            HandlerState::Done { outcome } => Phase::Done(*outcome),
        }
    }
}

impl View for ConnAction {
    type V = ActionModel;

    open spec fn view(&self) -> ActionModel {
        match self {
            ConnAction::Register(i) => ActionModel::Register(*i),
            ConnAction::Receive(n) => ActionModel::Receive(*n as nat),
            ConnAction::Send(b) => ActionModel::Send(b@),
            ConnAction::Flush => ActionModel::Flush,
            ConnAction::Yield => ActionModel::Yield,
            ConnAction::Close(o) => ActionModel::Close(*o),
        }
    }
}

/// The part of the response that is still to be written after `w` bytes.
pub open spec fn unsent(w: nat) -> Seq<u8> {
    response_spec().subrange(w as int, response_spec().len() as int)
}

/// A state that a connection can be in: a partial request never fills the
/// buffer, and a response being written is never complete.
pub open spec fn phase_wf(s: Phase) -> bool {
    match s {
        Phase::Reading(r) => r.len() < REQUEST_CAPACITY,
        Phase::Writing(w) => w < response_spec().len(),
        _ => true,
    }
}

/// The event reports no more than the pending operation could return.
pub open spec fn event_fits(s: Phase, e: ConnEvent) -> bool {
    match (s, e) {
        (Phase::Reading(r), ConnEvent::Received(b)) => r.len() + b@.len() <= REQUEST_CAPACITY,
        (Phase::Writing(w), ConnEvent::Sent(n)) => w + n <= response_spec().len(),
        _ => true,
    }
}

/// Closing a connection for `o`.
pub open spec fn closed_for(o: Outcome) -> (Phase, ActionModel) {
    (Phase::Done(o), ActionModel::Close(o))
}

/// The request has grown by `b`: it is complete once it ends with the
/// terminator, too large once it fills the buffer without it.
pub open spec fn after_read(r: Seq<u8>, b: Seq<u8>) -> (Phase, ActionModel) {
    let r2 = r + b;
    if b.len() == 0 {
        closed_for(Outcome::PeerClosed)
    } else if ends_with_terminator(r2) {
        (Phase::Writing(0), ActionModel::Send(response_spec()))
    } else if r2.len() >= REQUEST_CAPACITY {
        closed_for(Outcome::TooLarge)
    } else {
        (Phase::Reading(r2), ActionModel::Receive((REQUEST_CAPACITY - r2.len()) as nat))
    }
}

/// `n` more bytes of the response are written.
pub open spec fn after_write(w: nat, n: nat) -> (Phase, ActionModel) {
    if n == 0 {
        closed_for(Outcome::PeerClosed)
    } else if w + n >= response_spec().len() {
        (Phase::Flushing, ActionModel::Flush)
    } else {
        (Phase::Writing(w + n), ActionModel::Send(unsent(w + n)))
    }
}

/// One step of a connection: its next state and what it asks for. An event
/// that does not answer the pending operation makes the handler ask again.
pub open spec fn next(s: Phase, e: ConnEvent) -> (Phase, ActionModel) {
    match s {
        Phase::Start => match e {
            ConnEvent::Registered => (
                Phase::Reading(Seq::empty()),
                ActionModel::Receive(REQUEST_CAPACITY as nat),
            ),
            ConnEvent::Failed => closed_for(Outcome::IoError),
            _ => (s, ActionModel::Register(Interest { readable: true, writable: true })),
        },
        Phase::Reading(r) => match e {
            ConnEvent::Received(b) => after_read(r, b@),
            ConnEvent::WouldBlock => (s, ActionModel::Yield),
            ConnEvent::Failed => closed_for(Outcome::IoError),
            _ => (s, ActionModel::Receive((REQUEST_CAPACITY - r.len()) as nat)),
        },
        Phase::Writing(w) => match e {
            ConnEvent::Sent(n) => after_write(w, n as nat),
            ConnEvent::WouldBlock => (s, ActionModel::Yield),
            ConnEvent::Failed => closed_for(Outcome::IoError),
            _ => (s, ActionModel::Send(unsent(w))),
        },
        Phase::Flushing => match e {
            ConnEvent::Flushed => closed_for(Outcome::Served),
            ConnEvent::WouldBlock => (s, ActionModel::Yield),
            ConnEvent::Failed => closed_for(Outcome::IoError),
            _ => (s, ActionModel::Flush),
        },
        Phase::Done(o) => (s, ActionModel::Close(o)),
    }
}

/// Whether the request ends with the header terminator.
fn is_terminated(request: &Vec<u8>) -> (r: bool)
    ensures
        r == ends_with_terminator(request@),
{
    let n: usize = request.len();
    if n < 4 {
        return false;
    }
    let r = request[n - 4] == 13 && request[n - 3] == 10 && request[n - 2] == 13 && request[n - 1]
        == 10;
    let ghost tail = request@.subrange(n - 4, n as int);
    if r {
        assert(tail =~= terminator());
    } else {
        assert(tail != terminator()) by {
            if tail == terminator() {
                assert(tail[0] == request@[n - 4]);
                assert(tail[1] == request@[n - 3]);
                assert(tail[2] == request@[n - 2]);
                assert(tail[3] == request@[n - 1]);
            }
        }
    }
    r
}

/// The response from byte `w` on.
fn unsent_bytes(w: usize) -> (r: Vec<u8>)
    requires
        w <= RESPONSE_LEN,
    ensures
        r@ == unsent(w as nat),
{
    let mut all = response();
    all.split_off(w)
}

impl HandlerState {
    pub fn new() -> (r: HandlerState)
        ensures
            r@ == Phase::Start,
    {
        HandlerState::Start
    }

    /// Advances the connection by one event and says what to do next.
    pub fn step(&mut self, e: ConnEvent) -> (r: ConnAction)
        requires
            phase_wf(old(self)@),
            event_fits(old(self)@, e),
        ensures
            phase_wf(final(self)@),
            (final(self)@, r@) == next(old(self)@, e),
    {
        let mut st = HandlerState::Start;
        std::mem::swap(&mut st, self);
        match st {
            HandlerState::Start => match e {
                ConnEvent::Registered => {
                    *self = HandlerState::Reading { request: Vec::new() };
                    ConnAction::Receive(REQUEST_CAPACITY)
                },
                ConnEvent::Failed => {
                    *self = HandlerState::Done { outcome: Outcome::IoError };
                    ConnAction::Close(Outcome::IoError)
                },
                _ => ConnAction::Register(Interest::read_write()),
            },
            HandlerState::Reading { mut request } => match e {
                ConnEvent::Received(mut b) => {
                    let ghost r0 = request@;
                    let ghost b0 = b@;
                    if b.len() == 0 {
                        *self = HandlerState::Done { outcome: Outcome::PeerClosed };
                        return ConnAction::Close(Outcome::PeerClosed);
                    }
                    request.append(&mut b);
                    assert(request@ == r0 + b0);
                    if is_terminated(&request) {
                        *self = HandlerState::Writing { written: 0 };
                        ConnAction::Send(response())
                    } else if request.len() >= REQUEST_CAPACITY {
                        *self = HandlerState::Done { outcome: Outcome::TooLarge };
                        ConnAction::Close(Outcome::TooLarge)
                    } else {
                        let left: usize = REQUEST_CAPACITY - request.len();
                        *self = HandlerState::Reading { request };
                        ConnAction::Receive(left)
                    }
                },
                ConnEvent::WouldBlock => {
                    *self = HandlerState::Reading { request };
                    ConnAction::Yield
                },
                ConnEvent::Failed => {
                    *self = HandlerState::Done { outcome: Outcome::IoError };
                    ConnAction::Close(Outcome::IoError)
                },
                _ => {
                    let left: usize = REQUEST_CAPACITY - request.len();
                    *self = HandlerState::Reading { request };
                    ConnAction::Receive(left)
                },
            },
            HandlerState::Writing { written } => match e {
                ConnEvent::Sent(n) => {
                    if n == 0 {
                        *self = HandlerState::Done { outcome: Outcome::PeerClosed };
                        ConnAction::Close(Outcome::PeerClosed)
                    } else if written + n >= RESPONSE_LEN {
                        *self = HandlerState::Flushing;
                        ConnAction::Flush
                    } else {
                        *self = HandlerState::Writing { written: written + n };
                        ConnAction::Send(unsent_bytes(written + n))
                    }
                },
                ConnEvent::WouldBlock => {
                    *self = HandlerState::Writing { written };
                    ConnAction::Yield
                },
                ConnEvent::Failed => {
                    *self = HandlerState::Done { outcome: Outcome::IoError };
                    ConnAction::Close(Outcome::IoError)
                },
                _ => {
                    *self = HandlerState::Writing { written };
                    ConnAction::Send(unsent_bytes(written))
                },
            },
            HandlerState::Flushing => match e {
                ConnEvent::Flushed => {
                    *self = HandlerState::Done { outcome: Outcome::Served };
                    ConnAction::Close(Outcome::Served)
                },
                ConnEvent::WouldBlock => {
                    *self = HandlerState::Flushing;
                    ConnAction::Yield
                },
                ConnEvent::Failed => {
                    *self = HandlerState::Done { outcome: Outcome::IoError };
                    ConnAction::Close(Outcome::IoError)
                },
                _ => {
                    *self = HandlerState::Flushing;
                    ConnAction::Flush
                },
            },
            HandlerState::Done { outcome } => {
                *self = HandlerState::Done { outcome };
                ConnAction::Close(outcome)
            },
        }
    }
}


/// The bytes of `chunks`, one after the other.
pub open spec fn joined(chunks: Seq<Seq<u8>>) -> Seq<u8>
    decreases chunks.len(),
{
    if chunks.len() == 0 {
        Seq::empty()
    } else {
        joined(chunks.drop_last()) + chunks.last()
    }
}

/// The header terminator occurs somewhere in `s`.
pub open spec fn contains_terminator(s: Seq<u8>) -> bool {
    exists|i: int| 0 <= i && i + 4 <= s.len() && #[trigger] s.subrange(i, i + 4) == terminator()
}

/// The state after each chunk in turn was received while reading.
pub open spec fn read_chunks(s: Phase, chunks: Seq<Seq<u8>>) -> Phase
    decreases chunks.len(),
{
    if chunks.len() == 0 {
        s
    } else {
        match read_chunks(s, chunks.drop_last()) {
            Phase::Reading(r) => after_read(r, chunks.last()).0,
            t => t,
        }
    }
}

/// How many bytes the writes of `sends` accepted in all.
pub open spec fn total(sends: Seq<nat>) -> nat
    decreases sends.len(),
{
    if sends.len() == 0 {
        0
    } else {
        total(sends.drop_last()) + sends.last()
    }
}

/// The state after each write in turn accepted the given count.
pub open spec fn write_sends(s: Phase, sends: Seq<nat>) -> Phase
    decreases sends.len(),
{
    if sends.len() == 0 {
        s
    } else {
        match write_sends(s, sends.drop_last()) {
            Phase::Writing(w) => after_write(w, sends.last()).0,
            t => t,
        }
    }
}

/// The bytes that reach the peer when, writing from the start, each write
/// accepts the given count of what the handler asked it to send.
pub open spec fn sent_bytes(sends: Seq<nat>) -> Seq<u8>
    decreases sends.len(),
{
    if sends.len() == 0 {
        Seq::empty()
    } else {
        sent_bytes(sends.drop_last()) + unsent(total(sends.drop_last())).take(sends.last() as int)
    }
}

/// A waiting connection woken with nothing new to read or write retries the
/// same operation, finds it not ready and yields, its state untouched.
pub proof fn lemma_spurious_wakeup(s: Phase)
    requires
        phase_wf(s),
        s is Reading || s is Writing || s is Flushing,
    ensures
        next(s, ConnEvent::Resume).0 == s,
        next(s, ConnEvent::Resume).1 != ActionModel::Yield,
        next(s, ConnEvent::WouldBlock) == (s, ActionModel::Yield),
{
}

proof fn lemma_prefix_terminator(a: Seq<u8>, b: Seq<u8>)
    requires
        a.len() <= b.len(),
        b.take(a.len() as int) == a,
        contains_terminator(a) || ends_with_terminator(a),
    ensures
        contains_terminator(b),
{
    let i = if ends_with_terminator(a) {
        a.len() - 4
    } else {
        choose|i: int| 0 <= i && i + 4 <= a.len() && #[trigger] a.subrange(i, i + 4) == terminator()
    };
    assert(b.subrange(i, i + 4) =~= a.subrange(i, i + 4));
}

proof fn lemma_read_chunks(chunks: Seq<Seq<u8>>)
    requires
        forall|i: int| 0 <= i < chunks.len() ==> (#[trigger] chunks[i]).len() > 0,
        joined(chunks).len() <= REQUEST_CAPACITY,
        joined(chunks).len() > 0 ==> !contains_terminator(joined(chunks).drop_last()),
    ensures
        read_chunks(Phase::Reading(Seq::empty()), chunks) == (if ends_with_terminator(
            joined(chunks),
        ) {
            Phase::Writing(0)
        } else if joined(chunks).len() >= REQUEST_CAPACITY {
            Phase::Done(Outcome::TooLarge)
        } else {
            Phase::Reading(joined(chunks))
        }),
    decreases chunks.len(),
{
    if chunks.len() > 0 {
        let rest = chunks.drop_last();
        let p = joined(rest);
        let all = joined(chunks);
        assert(all == p + chunks.last());
        assert(chunks.last() == chunks[chunks.len() - 1]);
        assert(all.drop_last().take(p.len() as int) =~= p);
        if p.len() > 0 {
            assert(all.drop_last().take(p.drop_last().len() as int) =~= p.drop_last());
            if contains_terminator(p.drop_last()) {
                lemma_prefix_terminator(p.drop_last(), all.drop_last());
            }
        }
        assert forall|i: int| 0 <= i < rest.len() implies (#[trigger] rest[i]).len() > 0 by {
            assert(rest[i] == chunks[i]);
        }
        lemma_read_chunks(rest);
        if ends_with_terminator(p) {
            lemma_prefix_terminator(p, all.drop_last());
        }
    }
}

/// A request whose buffer fills up without the header terminator ever
/// occurring ends the connection as too large, however its bytes arrive.
pub proof fn lemma_oversized_request(chunks: Seq<Seq<u8>>)
    requires
        forall|i: int| 0 <= i < chunks.len() ==> (#[trigger] chunks[i]).len() > 0,
        joined(chunks).len() == REQUEST_CAPACITY,
        !contains_terminator(joined(chunks)),
    ensures
        read_chunks(Phase::Reading(Seq::empty()), chunks) == Phase::Done(Outcome::TooLarge),
{
    let all = joined(chunks);
    if contains_terminator(all.drop_last()) {
        assert(all.take(all.drop_last().len() as int) =~= all.drop_last());
        lemma_prefix_terminator(all.drop_last(), all);
    }
    if ends_with_terminator(all) {
        assert(all.take(all.len() as int) =~= all);
        lemma_prefix_terminator(all, all);
    }
    lemma_read_chunks(chunks);
}

proof fn lemma_write_sends(sends: Seq<nat>)
    requires
        forall|i: int| 0 <= i < sends.len() ==> (#[trigger] sends[i]) > 0,
        total(sends) <= response_spec().len(),
    ensures
        write_sends(Phase::Writing(0), sends) == (if total(sends) >= response_spec().len() {
            Phase::Flushing
        } else {
            Phase::Writing(total(sends))
        }),
        sent_bytes(sends) == response_spec().take(total(sends) as int),
    decreases sends.len(),
{
    if sends.len() == 0 {
        assert(response_spec().take(0) =~= Seq::<u8>::empty());
    } else {
        let rest = sends.drop_last();
        assert(sends.last() == sends[sends.len() - 1]);
        assert forall|i: int| 0 <= i < rest.len() implies (#[trigger] rest[i]) > 0 by {
            assert(rest[i] == sends[i]);
        }
        lemma_write_sends(rest);
        let w = total(rest);
        assert(response_spec().take(w as int) + unsent(w).take(sends.last() as int)
            =~= response_spec().take(total(sends) as int));
    }
}

/// A connection serves its request, however the request's bytes arrive and
/// however the response's bytes are accepted: once the buffered bytes end
/// with their first header terminator, the whole response is sent, byte for
/// byte, then flushed, and the connection ends as served.
pub proof fn lemma_request_is_answered(chunks: Seq<Seq<u8>>, sends: Seq<nat>)
    requires
        forall|i: int| 0 <= i < chunks.len() ==> (#[trigger] chunks[i]).len() > 0,
        joined(chunks).len() <= REQUEST_CAPACITY,
        ends_with_terminator(joined(chunks)),
        !contains_terminator(joined(chunks).drop_last()),
        forall|i: int| 0 <= i < sends.len() ==> (#[trigger] sends[i]) > 0,
        total(sends) == response_spec().len(),
    ensures
        read_chunks(Phase::Reading(Seq::empty()), chunks) == Phase::Writing(0),
        write_sends(Phase::Writing(0), sends) == Phase::Flushing,
        sent_bytes(sends) == response_spec(),
        next(Phase::Flushing, ConnEvent::Flushed) == (
            Phase::Done(Outcome::Served),
            ActionModel::Close(Outcome::Served),
        ),
{
    lemma_read_chunks(chunks);
    lemma_write_sends(sends);
    assert(response_spec().take(response_spec().len() as int) =~= response_spec());
}

} // verus!
