//! What a forwarding worker decides: which rule an incoming connection or
//! datagram belongs to, when a TCP relay goes on, is dropped or is handed
//! back, and where a UDP datagram is sent.

use vstd::prelude::*;
use crate::addr::SocketAddrV4;
use crate::rules::{Protocol, Rule};

verus! {

/// Whether `r` is the rule for traffic of `protocol` arriving on `port`.
pub open spec fn rule_matches(r: Rule, protocol: Protocol, port: u16) -> bool {
    r.protocol == protocol && r.listen_port == port
}

/// The first rule for traffic of `protocol` arriving on `incomming_port`, if any.
pub fn match_rule<'a>(protocol: Protocol, incomming_port: u16, rules: &'a Vec<Rule>) -> (r: Option<
    &'a Rule,
>)
    ensures
        match r {
            Some(x) => exists|i: int|
                0 <= i < rules@.len() && rules@[i] == *x && rule_matches(rules@[i], protocol, incomming_port)
                    && forall|j: int| 0 <= j < i ==> !rule_matches(#[trigger] rules@[j], protocol, incomming_port),
            None => forall|i: int|
                0 <= i < rules@.len() ==> !rule_matches(#[trigger] rules@[i], protocol, incomming_port),
        },
{
    let mut i: usize = 0;
    while i < rules.len()
        invariant
            i <= rules@.len(),
            forall|j: int| 0 <= j < i ==> !rule_matches(#[trigger] rules@[j], protocol, incomming_port),
        decreases rules.len() - i,
    {
        let rule = &rules[i];
        if rule.protocol == protocol && rule.listen_port == incomming_port {
            return Some(rule);
        }
        i = i + 1;
    }
    None
}

/// The kind of an I/O error, as far as forwarding tells kinds apart.
#[derive(PartialEq, Eq, Structural, Clone, Copy, Debug)]
pub enum IoErrorKind {
    /// The operation would have blocked.
    WouldBlock,
    /// The operation timed out.
    TimedOut,
    /// Any other kind.
    Other,
}

/// Whether `res` is an error that is neither `WouldBlock` nor `TimedOut`:
/// those two only mean that a non-blocking read found nothing more.
pub fn is_unexpected_err<T>(res: Result<T, IoErrorKind>) -> (r: bool)
    ensures
        r == (res matches Err(k) && k != IoErrorKind::WouldBlock && k != IoErrorKind::TimedOut),
{
    match res {
        Err(IoErrorKind::WouldBlock) => false,
        Err(IoErrorKind::TimedOut) => false,
        Err(_) => true,
        _ => false,
    }
}

/// Milliseconds without traffic after which a TCP relay hands its stream back.
pub const TCP_INACTIVITY_TIMEOUT_MS: u64 = 100;

/// The operation a TCP relay performs next, or how it ends.
#[derive(PartialEq, Eq, Structural, Clone, Copy, Debug)]
pub enum TcpAction {
    /// Read everything the client has sent so far.
    ReadClient,
    /// Write the relay's pending bytes (read from the client) to the target, and flush.
    SendTarget,
    /// Read everything the target has sent so far.
    ReadTarget,
    /// Write the relay's pending bytes (read from the target) to the client, and flush.
    SendClient,
    /// An error ended the relay: the client stream is discarded.
    Drop,
    /// The connection has been idle long enough: the client stream is handed back.
    Release,
}

/// What the last operation of a TCP relay gave.
#[derive(PartialEq, Eq, Debug)]
pub enum TcpEvent {
    /// A read took `data` and ended with `status`; the bytes taken before a
    /// failure count as read.
    Read { data: Vec<u8>, status: Result<(), IoErrorKind> },
    /// A write and flush succeeded (`true`) or failed.
    Sent(bool),
}

/// A TCP relay between a client and a target, one round after another:
/// read client, send to target, read target, send to client.
#[derive(PartialEq, Eq, Debug)]
pub struct TcpRelay {
    /// The operation under way.
    pub action: TcpAction,
    /// When traffic was last seen, or the relay started (ms).
    pub idle_since_ms: u64,
    /// Whether this round has moved any bytes so far.
    pub moved: bool,
    /// The bytes last read, which the next send writes to the other side.
    pub pending: Vec<u8>,
}

/// Whether `ev` answers the operation `a`.
pub open spec fn answers(a: TcpAction, ev: TcpEvent) -> bool {
    match a {
        TcpAction::ReadClient | TcpAction::ReadTarget => ev is Read,
        TcpAction::SendTarget | TcpAction::SendClient => ev is Sent,
        _ => false,
    }
}

/// Whether the clock reading `now_ms` may end the round under way in `s`
/// after event `ev`: a round that moved no bytes measures its idle time from
/// `idle_since_ms`, so the clock must not read earlier than that.
pub open spec fn clock_ok(s: TcpRelay, ev: TcpEvent, now_ms: u64) -> bool {
    s.action == TcpAction::SendClient && ev == TcpEvent::Sent(true) && !s.moved ==> now_ms
        >= s.idle_since_ms
}

/// The relay after the operation under way in `s` gave `ev`, at time `now_ms`.
pub open spec fn relay_next(s: TcpRelay, ev: TcpEvent, now_ms: u64) -> TcpRelay {
    match ev {
        TcpEvent::Read { data, status } => if status matches Err(k) && k != IoErrorKind::WouldBlock
            && k != IoErrorKind::TimedOut {
            TcpRelay { action: TcpAction::Drop, ..s }
        } else {
            TcpRelay {
                action: if s.action == TcpAction::ReadClient {
                    TcpAction::SendTarget
                } else {
                    TcpAction::SendClient
                },
                moved: s.moved || data@.len() > 0,
                pending: data,
                ..s
            }
        },
        TcpEvent::Sent(ok) => if !ok {
            TcpRelay { action: TcpAction::Drop, ..s }
        } else if s.action == TcpAction::SendTarget {
            TcpRelay { action: TcpAction::ReadTarget, ..s }
        } else {
            let idle_since = if s.moved {
                now_ms
            } else {
                s.idle_since_ms
            };
            TcpRelay {
                action: if now_ms - idle_since >= TCP_INACTIVITY_TIMEOUT_MS {
                    TcpAction::Release
                } else {
                    TcpAction::ReadClient
                },
                idle_since_ms: idle_since,
                moved: false,
                ..s
            }
        },
    }
}

impl TcpRelay {
    /// A relay that starts at `now_ms` by reading the client.
    pub fn start(now_ms: u64) -> (r: TcpRelay)
        ensures
            r.action == TcpAction::ReadClient,
            r.idle_since_ms == now_ms,
            !r.moved,
            r.pending@.len() == 0,
    {
        TcpRelay { action: TcpAction::ReadClient, idle_since_ms: now_ms, moved: false, pending: Vec::new() }
    }

    /// Takes what the operation under way gave, at time `now_ms`, and returns
    /// the next operation.  The bytes a read took become the pending bytes
    /// that the next send writes to the other side.  A read that fails other
    /// than by `WouldBlock` or `TimedOut`, or a failed send, drops the relay.
    /// At the end of a round, traffic restarts the idle time; a relay idle for
    /// at least `TCP_INACTIVITY_TIMEOUT_MS` is released.  A quiet round must
    /// not end with the clock earlier than `idle_since_ms`.
    pub fn advance(&mut self, ev: TcpEvent, now_ms: u64) -> (a: TcpAction)
        requires
            answers(old(self).action, ev),
            clock_ok(*old(self), ev, now_ms),
        ensures
            *final(self) == relay_next(*old(self), ev, now_ms),
            a == final(self).action,
    {
        match ev {
            TcpEvent::Read { data, status } => {
                if is_unexpected_err(status) {
                    self.action = TcpAction::Drop;
                } else {
                    self.action = if self.action == TcpAction::ReadClient {
                        TcpAction::SendTarget
                    } else {
                        TcpAction::SendClient
                    };
                    self.moved = self.moved || data.len() > 0;
                    self.pending = data;
                }
            },
            TcpEvent::Sent(ok) => {
                if !ok {
                    self.action = TcpAction::Drop;
                } else if self.action == TcpAction::SendTarget {
                    self.action = TcpAction::ReadTarget;
                } else {
                    if self.moved {
                        self.idle_since_ms = now_ms;
                    }
                    self.moved = false;
                    self.action = if now_ms - self.idle_since_ms >= TCP_INACTIVITY_TIMEOUT_MS {
                        TcpAction::Release
                    } else {
                        TcpAction::ReadClient
                    };
                }
            },
        }
        self.action
    }
}

/// Law: a relay is released only at the end of a round that moved no bytes,
/// once at least `TCP_INACTIVITY_TIMEOUT_MS` have passed since traffic was
/// last seen; a round that moved bytes never ends the relay, whatever the
/// clock reads.
pub proof fn law_release_only_when_idle(s: TcpRelay, ev: TcpEvent, now_ms: u64)
    requires
        answers(s.action, ev),
        clock_ok(s, ev, now_ms),
    ensures
        relay_next(s, ev, now_ms).action == TcpAction::Release ==> s.action == TcpAction::SendClient
            && !s.moved && now_ms - s.idle_since_ms >= TCP_INACTIVITY_TIMEOUT_MS,
        s.action == TcpAction::SendClient && ev == TcpEvent::Sent(true) && s.moved ==> relay_next(
            s,
            ev,
            now_ms,
        ).action == TcpAction::ReadClient && relay_next(s, ev, now_ms).idle_since_ms == now_ms,
{
}

/// Whether a read event took bytes and ended without an unexpected error.
pub open spec fn traffic(ev: TcpEvent) -> bool {
    ev matches TcpEvent::Read { data, status } && data@.len() > 0 && !(status matches Err(k) && k
        != IoErrorKind::WouldBlock && k != IoErrorKind::TimedOut)
}

/// Law: bytes from either side are traffic.  After a read from the target
/// that took bytes, a successful send to the client keeps the relay going and
/// restarts its idle time at that moment, whenever it comes; the same holds
/// for a round whose read from the client took bytes, whatever the target
/// then sent.
pub proof fn law_traffic_from_either_side_restarts_idle_time(
    s: TcpRelay,
    read_client: TcpEvent,
    read_target: TcpEvent,
    t1: u64,
    t2: u64,
    t3: u64,
    now_ms: u64,
)
    requires
        read_client is Read,
        read_target is Read,
        !(read_target matches TcpEvent::Read { status, .. } && status matches Err(k) && k
            != IoErrorKind::WouldBlock && k != IoErrorKind::TimedOut),
        traffic(read_client) || traffic(read_target),
    ensures
        ({
            let r1 = relay_next(TcpRelay { action: TcpAction::ReadTarget, ..s }, read_target, t1);
            traffic(read_target) ==> relay_next(r1, TcpEvent::Sent(true), now_ms).action
                == TcpAction::ReadClient && relay_next(r1, TcpEvent::Sent(true), now_ms).idle_since_ms
                == now_ms
        }),
        ({
            let c0 = TcpRelay { action: TcpAction::ReadClient, moved: false, ..s };
            let c1 = relay_next(c0, read_client, t1);
            let c2 = relay_next(c1, TcpEvent::Sent(true), t2);
            let c3 = relay_next(c2, read_target, t3);
            let c4 = relay_next(c3, TcpEvent::Sent(true), now_ms);
            traffic(read_client) ==> c4.action == TcpAction::ReadClient && c4.idle_since_ms == now_ms
        }),
{
}

/// Law: reads that find nothing more (`WouldBlock`, `TimedOut`) never end a
/// relay; only other errors and failed sends drop it.
pub proof fn law_drop_only_on_failure(s: TcpRelay, ev: TcpEvent, now_ms: u64)
    requires
        answers(s.action, ev),
    ensures
        relay_next(s, ev, now_ms).action == TcpAction::Drop <==> (match ev {
            TcpEvent::Read { status, .. } => status matches Err(k) && k != IoErrorKind::WouldBlock
                && k != IoErrorKind::TimedOut,
            TcpEvent::Sent(ok) => !ok,
        }),
{
}

/// Law: the bytes read from one side are, unchanged and whole, what the next
/// send writes to the other side: client to target, then target to client;
/// a send does not change them.
pub proof fn law_bytes_read_are_sent_on(s: TcpRelay, data: Vec<u8>, status: Result<(), IoErrorKind>, now_ms: u64)
    requires
        s.action == TcpAction::ReadClient || s.action == TcpAction::ReadTarget,
        !(status matches Err(k) && k != IoErrorKind::WouldBlock && k != IoErrorKind::TimedOut),
    ensures
        ({
            let t = relay_next(s, TcpEvent::Read { data, status }, now_ms);
            &&& t.pending == data
            &&& t.action == (if s.action == TcpAction::ReadClient {
                TcpAction::SendTarget
            } else {
                TcpAction::SendClient
            })
            &&& relay_next(t, TcpEvent::Sent(true), now_ms).pending == data
        }),
{
}

/// A socket address of either family, as a datagram's sender is reported.
/// Only IPv4 senders are forwarded, so an IPv6 one is kept as its address
/// bits and port.
#[derive(PartialEq, Eq, Structural, Clone, Copy, Debug)]
pub enum SocketAddress {
    V4(SocketAddrV4),
    V6(u128, u16),
}

/// Reading the datagrams waiting on a UDP socket: reads go on until one fails
/// or returns an empty datagram; the sender of the last datagram read counts.
#[derive(PartialEq, Eq, Clone, Copy, Debug)]
pub struct UdpDrain {
    /// The length of the last datagram read (1 before the first read).
    pub last_len: usize,
    /// The sender of the last datagram read.
    pub from: Option<SocketAddress>,
    /// Whether a read has failed.
    pub failed: bool,
}

impl UdpDrain {
    /// Nothing read yet.
    pub fn new() -> (r: UdpDrain)
        ensures
            r == (UdpDrain { last_len: 1, from: None, failed: false }),
    {
        UdpDrain { last_len: 1, from: None, failed: false }
    }

    /// Whether another read is due.
    pub fn wants_more(&self) -> (b: bool)
        ensures
            b == (!self.failed && self.last_len > 0),
    {
        !self.failed && self.last_len > 0
    }

    /// Takes the outcome of a read: the datagram's length and sender, or
    /// `None` where the read failed.
    pub fn received(&mut self, got: Option<(usize, SocketAddress)>)
        ensures
            match got {
                Some((len, from)) => *final(self) == (UdpDrain {
                    last_len: len,
                    from: Some(from),
                    failed: old(self).failed,
                }),
                None => *final(self) == (UdpDrain { failed: true, ..*old(self) }),
            },
    {
        match got {
            Some((len, from)) => {
                self.last_len = len;
                self.from = Some(from);
            },
            None => {
                self.failed = true;
            },
        }
    }
}

/// Where a datagram is sent.
#[derive(PartialEq, Eq, Structural, Clone, Copy, Debug)]
pub enum UdpRoute {
    /// Nowhere.
    Ignore,
    /// Back to the most recent client.
    ToClient(SocketAddrV4),
    /// On to the rule's target.
    ToTarget(SocketAddrV4),
}

/// Where a datagram from `from` goes, for a rule with target `target` and a
/// socket whose most recent client is `last_client`, and the most recent
/// client afterwards.  A datagram from the target goes back to the most
/// recent client, if there is one; a datagram from anyone else goes to the
/// target, and its sender becomes the most recent client.  Without a sender,
/// or from an IPv6 sender, nothing is sent.
pub open spec fn spec_route(from: Option<SocketAddress>, target: SocketAddrV4, last_client: Option<
    SocketAddrV4,
>) -> (UdpRoute, Option<SocketAddrV4>) {
    match from {
        Some(SocketAddress::V4(f)) => if f == target {
            match last_client {
                Some(c) => (UdpRoute::ToClient(c), last_client),
                None => (UdpRoute::Ignore, last_client),
            }
        } else {
            (UdpRoute::ToTarget(target), Some(f))
        },
        _ => (UdpRoute::Ignore, last_client),
    }
}

/// Routes a datagram from `from` for a rule with target `target`, updating the
/// socket's most recent client.
pub fn route_datagram(
    from: Option<SocketAddress>,
    target: SocketAddrV4,
    last_client: &mut Option<SocketAddrV4>,
) -> (r: UdpRoute)
    ensures
        (r, *final(last_client)) == spec_route(from, target, *old(last_client)),
{
    match from {
        Some(SocketAddress::V4(f)) => {
            if f == target {
                match *last_client {
                    Some(c) => UdpRoute::ToClient(c),
                    None => UdpRoute::Ignore,
                }
            } else {
                *last_client = Some(f);
                UdpRoute::ToTarget(target)
            }
        },
        _ => UdpRoute::Ignore,
    }
}

/// Law: a reply from the target reaches the client that sent to it last.
pub proof fn law_reply_reaches_last_client(
    client: SocketAddrV4,
    target: SocketAddrV4,
    last_client: Option<SocketAddrV4>,
)
    requires
        client != target,
    ensures
        spec_route(Some(SocketAddress::V4(client)), target, last_client) == (
            UdpRoute::ToTarget(target),
            Some(client),
        ),
        spec_route(
            Some(SocketAddress::V4(target)),
            target,
            spec_route(Some(SocketAddress::V4(client)), target, last_client).1,
        ).0 == UdpRoute::ToClient(client),
{
}

/// A forwarding worker: it takes one job at a time, a TCP stream or a UDP
/// socket, and answers with what it hands back.
pub struct Worker {}

/// How a worker's job ended.
#[derive(PartialEq, Eq, Structural, Clone, Copy, Debug)]
pub enum JobEnd {
    /// The TCP relay was released: the stream goes back.
    TcpReleased,
    /// The TCP relay was dropped: the stream is gone.
    TcpDropped,
    /// The UDP socket has been served: it goes back.
    UdpServed,
}

/// A message from a worker.
#[derive(PartialEq, Eq, Structural, Clone, Copy, Debug)]
pub enum WorkerReply {
    /// Here is the TCP stream back.
    ReturnTcp,
    /// Here is the UDP socket back.
    ReturnUdp,
    /// The worker is idle again.
    Done,
}

impl Worker {
    /// The messages a worker sends, in order, after a job ended `end`: what it
    /// hands back, if anything, and then that it is done.
    pub fn replies(end: JobEnd) -> (r: Vec<WorkerReply>)
        ensures
            r@ == match end {
                JobEnd::TcpReleased => seq![WorkerReply::ReturnTcp, WorkerReply::Done],
                JobEnd::TcpDropped => seq![WorkerReply::Done],
                JobEnd::UdpServed => seq![WorkerReply::ReturnUdp, WorkerReply::Done],
            },
    {
        let mut r: Vec<WorkerReply> = Vec::new();
        match end {
            JobEnd::TcpReleased => r.push(WorkerReply::ReturnTcp),
            JobEnd::TcpDropped => {},
            JobEnd::UdpServed => r.push(WorkerReply::ReturnUdp),
        }
        r.push(WorkerReply::Done);
        r
    }
}

} // verus!
