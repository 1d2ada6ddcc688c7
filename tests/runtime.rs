use webserver::acceptor::{AcceptAction, AcceptEvent, Acceptor};
use webserver::handler::{
    response, ConnAction, ConnEvent, HandlerState, Outcome, REQUEST_CAPACITY, RESPONSE_LEN,
};
use webserver::reactor::{Interest, Reactor, Registration, Token};
use webserver::scheduler::{RunStep, Scheduler, TaskId, Waker};

const EXPECTED: &[u8] =
    b"HTTP/1.1 200 OK\r\nContent-Length: 13\nConnection: close\r\n\r\nHello world!\n";

/// A connection's far end: bytes it has sent that are ready to read, what it
/// received, and how many bytes one write may take.
struct Peer {
    ready: Vec<u8>,
    closed: bool,
    received: Vec<u8>,
    write_limit: usize,
    write_room: usize,
    flush_ready: bool,
}

impl Peer {
    fn new() -> Peer {
        Peer {
            ready: Vec::new(),
            closed: false,
            received: Vec::new(),
            write_limit: usize::MAX,
            write_room: usize::MAX,
            flush_ready: true,
        }
    }
}

/// Advances one handler as a task would: until it yields or closes.
fn advance(h: &mut HandlerState, peer: &mut Peer) -> Option<Outcome> {
    let mut ev = ConnEvent::Resume;
    for _ in 0..10_000 {
        ev = match h.step(ev) {
            ConnAction::Register(_) => ConnEvent::Registered,
            ConnAction::Receive(n) => {
                if !peer.ready.is_empty() {
                    let k = n.min(peer.ready.len());
                    ConnEvent::Received(peer.ready.drain(..k).collect())
                } else if peer.closed {
                    ConnEvent::Received(Vec::new())
                } else {
                    ConnEvent::WouldBlock
                }
            }
            ConnAction::Send(bytes) => {
                let k = bytes.len().min(peer.write_limit).min(peer.write_room);
                if k == 0 {
                    ConnEvent::WouldBlock
                } else {
                    peer.write_room -= k;
                    peer.received.extend_from_slice(&bytes[..k]);
                    ConnEvent::Sent(k)
                }
            }
            ConnAction::Flush => {
                if peer.flush_ready {
                    ConnEvent::Flushed
                } else {
                    ConnEvent::WouldBlock
                }
            }
            ConnAction::Yield => return None,
            ConnAction::Close(o) => return Some(o),
        };
    }
    panic!("a handler kept running without yielding");
}

#[test]
fn literal_response_for_simple_get() {
    let mut h = HandlerState::new();
    let mut peer = Peer::new();
    peer.ready.extend_from_slice(b"GET / HTTP/1.1\r\nHost: x\r\n\r\n");
    assert_eq!(advance(&mut h, &mut peer), Some(Outcome::Served));
    assert_eq!(peer.received, EXPECTED.to_vec());
    assert!(matches!(h, HandlerState::Done { outcome: Outcome::Served }));
}

#[test]
fn response_bytes_are_the_documented_literal() {
    let r = response();
    assert_eq!(r.len(), RESPONSE_LEN);
    assert_eq!(r, EXPECTED.to_vec());
}

#[test]
fn request_split_across_terminator_completes() {
    let mut h = HandlerState::new();
    let mut peer = Peer::new();
    peer.ready.extend_from_slice(b"GET / HTTP/1.1\r\nHost: x\r\n\r");
    assert_eq!(advance(&mut h, &mut peer), None);
    match &h {
        HandlerState::Reading { request } => assert_eq!(request.len(), 26),
        other => panic!("unexpected state {:?}", other),
    }
    peer.ready.extend_from_slice(b"\n");
    assert_eq!(advance(&mut h, &mut peer), Some(Outcome::Served));
    assert_eq!(peer.received, EXPECTED.to_vec());
}

#[test]
fn spurious_wakeup_leaves_state_unchanged() {
    let mut h = HandlerState::new();
    let mut peer = Peer::new();
    peer.ready.extend_from_slice(b"GET / ");
    assert_eq!(advance(&mut h, &mut peer), None);
    for _ in 0..3 {
        assert_eq!(h.step(ConnEvent::Resume), ConnAction::Receive(REQUEST_CAPACITY - 6));
        assert_eq!(h.step(ConnEvent::WouldBlock), ConnAction::Yield);
        match &h {
            HandlerState::Reading { request } => assert_eq!(request, &b"GET / ".to_vec()),
            other => panic!("unexpected state {:?}", other),
        }
    }
}

#[test]
fn spurious_wakeup_while_writing_and_flushing() {
    let mut h = HandlerState::new();
    let mut peer = Peer::new();
    peer.write_room = 10;
    peer.ready.extend_from_slice(b"GET / HTTP/1.1\r\n\r\n");
    assert_eq!(advance(&mut h, &mut peer), None);
    assert!(matches!(h, HandlerState::Writing { written: 10 }));
    assert_eq!(advance(&mut h, &mut peer), None);
    assert!(matches!(h, HandlerState::Writing { written: 10 }));
    peer.write_room = usize::MAX;
    peer.flush_ready = false;
    assert_eq!(advance(&mut h, &mut peer), None);
    assert!(matches!(h, HandlerState::Flushing));
    assert_eq!(h.step(ConnEvent::Resume), ConnAction::Flush);
    assert_eq!(h.step(ConnEvent::WouldBlock), ConnAction::Yield);
    peer.flush_ready = true;
    assert_eq!(advance(&mut h, &mut peer), Some(Outcome::Served));
    assert_eq!(peer.received, EXPECTED.to_vec());
}

#[test]
fn response_written_one_byte_at_a_time() {
    let mut h = HandlerState::new();
    let mut peer = Peer::new();
    peer.write_limit = 1;
    peer.ready.extend_from_slice(b"GET / HTTP/1.1\r\nHost: x\r\n\r\n");
    assert_eq!(advance(&mut h, &mut peer), Some(Outcome::Served));
    assert_eq!(peer.received, EXPECTED.to_vec());
}

#[test]
fn immediate_disconnect_is_deregistered() {
    let mut sched = Scheduler::new();
    let mut reactor = Reactor::new();
    let listener = reactor.add(Interest::readable(), Waker { task: TaskId { id: 0 } }).unwrap();
    assert_eq!(listener, Token { id: 0 });
    let before = reactor.len();
    let id = sched.spawn().unwrap();
    let mut h = HandlerState::new();
    assert_eq!(h.step(ConnEvent::Resume), ConnAction::Register(Interest::read_write()));
    let token = reactor.add(Interest::read_write(), Waker { task: id }).unwrap();
    assert_eq!(reactor.len(), before + 1);
    assert_eq!(h.step(ConnEvent::Registered), ConnAction::Receive(REQUEST_CAPACITY));
    assert_eq!(
        h.step(ConnEvent::Received(Vec::new())),
        ConnAction::Close(Outcome::PeerClosed)
    );
    assert!(reactor.remove(token));
    assert_eq!(reactor.len(), before);
    assert!(!reactor.remove(token));
    assert_eq!(reactor.len(), before);
}

#[test]
fn oversized_request_is_too_large() {
    let mut h = HandlerState::new();
    let mut peer = Peer::new();
    peer.ready = vec![b'a'; 700];
    assert_eq!(advance(&mut h, &mut peer), None);
    peer.ready = vec![b'b'; 600];
    assert_eq!(advance(&mut h, &mut peer), Some(Outcome::TooLarge));
    assert_eq!(peer.ready.len(), 600 - (REQUEST_CAPACITY - 700));
    assert!(peer.received.is_empty());
}

#[test]
fn oversized_request_in_one_read() {
    let mut h = HandlerState::new();
    let mut peer = Peer::new();
    peer.ready = vec![b'x'; REQUEST_CAPACITY];
    assert_eq!(advance(&mut h, &mut peer), Some(Outcome::TooLarge));
    assert!(matches!(h, HandlerState::Done { outcome: Outcome::TooLarge }));
}

#[test]
fn terminator_at_the_last_byte_is_served() {
    let mut h = HandlerState::new();
    let mut peer = Peer::new();
    peer.ready = vec![b'x'; REQUEST_CAPACITY - 4];
    peer.ready.extend_from_slice(b"\r\n\r\n");
    assert_eq!(advance(&mut h, &mut peer), Some(Outcome::Served));
    assert_eq!(peer.received, EXPECTED.to_vec());
}

#[test]
fn short_request_then_close_is_peer_closed() {
    let mut h = HandlerState::new();
    let mut peer = Peer::new();
    peer.ready.extend_from_slice(b"GET");
    peer.closed = true;
    assert_eq!(advance(&mut h, &mut peer), Some(Outcome::PeerClosed));
}

#[test]
fn zero_byte_write_is_peer_closed() {
    let mut h = HandlerState::Writing { written: 5 };
    assert_eq!(h.step(ConnEvent::Sent(0)), ConnAction::Close(Outcome::PeerClosed));
    assert!(matches!(h, HandlerState::Done { outcome: Outcome::PeerClosed }));
}

#[test]
fn io_errors_close_only_that_connection() {
    let mut a = HandlerState::Reading { request: b"GE".to_vec() };
    assert_eq!(a.step(ConnEvent::Failed), ConnAction::Close(Outcome::IoError));
    let mut b = HandlerState::Writing { written: 3 };
    assert_eq!(b.step(ConnEvent::Failed), ConnAction::Close(Outcome::IoError));
    let mut c = HandlerState::Flushing;
    assert_eq!(c.step(ConnEvent::Failed), ConnAction::Close(Outcome::IoError));
    let mut d = HandlerState::new();
    assert_eq!(d.step(ConnEvent::Failed), ConnAction::Close(Outcome::IoError));
    assert_eq!(d.step(ConnEvent::Resume), ConnAction::Close(Outcome::IoError));
}

#[test]
fn partial_write_sends_the_rest() {
    let mut h = HandlerState::Writing { written: 0 };
    match h.step(ConnEvent::Sent(60)) {
        ConnAction::Send(rest) => assert_eq!(rest, EXPECTED[60..].to_vec()),
        other => panic!("unexpected action {:?}", other),
    }
    assert_eq!(h.step(ConnEvent::Sent(10)), ConnAction::Flush);
    assert_eq!(h.step(ConnEvent::Flushed), ConnAction::Close(Outcome::Served));
}

#[test]
fn acceptor_binds_then_drains_connections() {
    let mut a = Acceptor::new();
    assert_eq!(a.step(AcceptEvent::Resume), AcceptAction::Listen);
    assert_eq!(a, Acceptor::Start);
    assert_eq!(a.step(AcceptEvent::Bound), AcceptAction::Accept);
    assert_eq!(a, Acceptor::Listening);
    assert_eq!(a.step(AcceptEvent::Accepted), AcceptAction::SpawnHandler);
    assert_eq!(a.step(AcceptEvent::Resume), AcceptAction::Accept);
    assert_eq!(a.step(AcceptEvent::Accepted), AcceptAction::SpawnHandler);
    assert_eq!(a.step(AcceptEvent::Resume), AcceptAction::Accept);
    assert_eq!(a.step(AcceptEvent::WouldBlock), AcceptAction::Yield);
    assert_eq!(a, Acceptor::Listening);
}

#[test]
fn acceptor_failure_is_fatal() {
    let mut a = Acceptor::new();
    assert_eq!(a.step(AcceptEvent::Failed), AcceptAction::Abort);
    let mut b = Acceptor::Listening;
    assert_eq!(b.step(AcceptEvent::Failed), AcceptAction::Abort);
}

#[test]
fn task_ids_are_sequential() {
    let mut next: u64 = 7;
    assert_eq!(TaskId::new(&mut next), TaskId { id: 7 });
    assert_eq!(TaskId::new(&mut next), TaskId { id: 8 });
    assert_eq!(next, 9);
}

#[test]
fn idle_scheduler_waits() {
    let mut sched = Scheduler::new();
    let mut reactor = Reactor::new();
    let listener = sched.spawn().unwrap();
    reactor.add(Interest::readable(), Waker { task: listener }).unwrap();
    match sched.run() {
        RunStep::Advance(batch) => assert_eq!(batch, vec![listener]),
        RunStep::Wait => panic!("the listener was queued"),
    }
    assert_eq!(reactor.len(), 1);
    assert!(matches!(sched.run(), RunStep::Wait));
    assert!(matches!(sched.run(), RunStep::Wait));
}

#[test]
fn run_takes_a_snapshot_in_fifo_order() {
    let mut sched = Scheduler::new();
    let a = sched.spawn().unwrap();
    let b = sched.spawn().unwrap();
    let c = sched.spawn().unwrap();
    assert_eq!((a.id, b.id, c.id), (0, 1, 2));
    match sched.run() {
        RunStep::Advance(batch) => {
            assert_eq!(batch, vec![a, b, c]);
            Waker { task: b }.wake(&mut sched);
        }
        RunStep::Wait => panic!("three tasks were queued"),
    }
    match sched.run() {
        RunStep::Advance(batch) => assert_eq!(batch, vec![b]),
        RunStep::Wait => panic!("a task was woken"),
    }
    assert!(matches!(sched.run(), RunStep::Wait));
}

#[test]
fn duplicate_wakes_coalesce() {
    let mut sched = Scheduler::new();
    let a = sched.spawn().unwrap();
    let b = sched.spawn().unwrap();
    let _ = sched.run();
    Waker { task: b }.wake(&mut sched);
    Waker { task: a }.wake(&mut sched);
    Waker { task: b }.wake(&mut sched);
    match sched.run() {
        RunStep::Advance(batch) => assert_eq!(batch, vec![b, a]),
        RunStep::Wait => panic!("two tasks were woken"),
    }
}

#[test]
fn wait_wakes_each_ready_source_once() {
    let mut sched = Scheduler::new();
    let mut reactor = Reactor::new();
    let a = sched.spawn().unwrap();
    let b = sched.spawn().unwrap();
    let c = sched.spawn().unwrap();
    let _ = sched.run();
    let ta = reactor.add(Interest::read_write(), Waker { task: a }).unwrap();
    let tb = reactor.add(Interest::read_write(), Waker { task: b }).unwrap();
    let tc = reactor.add(Interest::read_write(), Waker { task: c }).unwrap();
    assert!(reactor.remove(tc));
    let stale = Token { id: 99 };
    reactor.wait(&vec![tb, stale, ta, tb, tc], &mut sched);
    match sched.run() {
        RunStep::Advance(batch) => assert_eq!(batch, vec![b, a]),
        RunStep::Wait => panic!("two tasks were woken"),
    }
}

#[test]
fn interest_sets() {
    assert_eq!(Interest::readable(), Interest { readable: true, writable: false });
    assert_eq!(Interest::read_write(), Interest { readable: true, writable: true });
    let r = Registration { interest: Interest::readable(), waker: Waker { task: TaskId { id: 1 } } };
    assert!(r.interest.readable && !r.interest.writable);
}

#[test]
fn rearm_replaces_the_waker() {
    let mut sched = Scheduler::new();
    let mut reactor = Reactor::new();
    let a = sched.spawn().unwrap();
    let b = sched.spawn().unwrap();
    let _ = sched.run();
    let t = reactor.add(Interest::read_write(), Waker { task: a }).unwrap();
    assert!(reactor.rearm(t, Interest::readable(), Waker { task: b }));
    assert!(!reactor.rearm(Token { id: 5 }, Interest::readable(), Waker { task: a }));
    assert_eq!(reactor.len(), 1);
    reactor.wait(&vec![t], &mut sched);
    match sched.run() {
        RunStep::Advance(batch) => assert_eq!(batch, vec![b]),
        RunStep::Wait => panic!("a task was woken"),
    }
}

/// Drives an acceptor and its handlers through the scheduler and reactor,
/// with `n` clients that each send their request in two halves.
fn serve_clients(n: usize) {
    let request: &[u8] = b"GET / HTTP/1.1\r\nHost: x\r\n\r\n";
    let mut sched = Scheduler::new();
    let mut reactor = Reactor::new();
    let mut acceptor = Acceptor::new();
    let acceptor_id = sched.spawn().unwrap();
    let mut listener_token = None;
    let mut waiting_clients = n;
    let mut handlers: Vec<(TaskId, HandlerState, Peer, Option<Token>, Option<Outcome>)> = Vec::new();
    for round in 0..100 {
        match sched.run() {
            RunStep::Advance(batch) => {
                for id in batch {
                    if id == acceptor_id {
                        let mut ev = AcceptEvent::Resume;
                        loop {
                            ev = match acceptor.step(ev) {
                                AcceptAction::Listen => {
                                    listener_token = reactor.add(Interest::readable(), Waker { task: id });
                                    AcceptEvent::Bound
                                }
                                AcceptAction::Accept => {
                                    if waiting_clients > 0 {
                                        waiting_clients -= 1;
                                        AcceptEvent::Accepted
                                    } else {
                                        AcceptEvent::WouldBlock
                                    }
                                }
                                AcceptAction::SpawnHandler => {
                                    let t = sched.spawn().unwrap();
                                    let mut peer = Peer::new();
                                    peer.ready.extend_from_slice(&request[..20]);
                                    handlers.push((t, HandlerState::new(), peer, None, None));
                                    AcceptEvent::Resume
                                }
                                AcceptAction::Yield => break,
                                AcceptAction::Abort => panic!("listener failed"),
                            };
                        }
                        continue;
                    }
                    let entry = handlers.iter_mut().find(|e| e.0 == id).unwrap();
                    if entry.4.is_some() {
                        continue;
                    }
                    if matches!(entry.1, HandlerState::Start) {
                        assert_eq!(entry.1.step(ConnEvent::Resume), ConnAction::Register(Interest::read_write()));
                        entry.3 = reactor.add(Interest::read_write(), Waker { task: id });
                        let first = entry.1.step(ConnEvent::Registered);
                        assert_eq!(first, ConnAction::Receive(REQUEST_CAPACITY));
                    }
                    if let Some(o) = advance(&mut entry.1, &mut entry.2) {
                        assert!(reactor.remove(entry.3.unwrap()));
                        entry.4 = Some(o);
                    }
                }
            }
            RunStep::Wait => {
                let mut ready = Vec::new();
                for entry in handlers.iter_mut() {
                    if entry.4.is_none() && round % 2 == 1 && entry.2.received.is_empty() {
                        if entry.2.ready.is_empty() {
                            entry.2.ready.extend_from_slice(&request[20..]);
                        }
                        ready.push(entry.3.unwrap());
                    }
                }
                if ready.is_empty() {
                    if handlers.len() == n && handlers.iter().all(|e| e.4.is_some()) {
                        break;
                    }
                    ready.push(Token { id: 12345 });
                }
                reactor.wait(&ready, &mut sched);
            }
        }
    }
    assert!(listener_token.is_some());
    assert_eq!(handlers.len(), n);
    for entry in &handlers {
        assert_eq!(entry.4, Some(Outcome::Served));
        assert_eq!(entry.2.received, EXPECTED.to_vec());
    }
    assert_eq!(reactor.len(), 1);
}

#[test]
fn one_client_is_served() {
    serve_clients(1);
}

#[test]
fn many_simultaneous_clients_are_all_served() {
    serve_clients(3);
    serve_clients(10);
}
