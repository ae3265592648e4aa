//! Sockets: connection- and datagram-oriented endpoints with an explicit
//! lifecycle, built from the stream and readiness primitives.
//!
//! Connection establishment is split into a non-blocking initiation and a
//! separately polled completion: `start_connect` records the attempt and
//! whether the peer listens (as the platform knows it), `await_connect` is
//! the suspension point at which the attempt resolves, and
//! `finish_connect` reports `WouldBlock` before resolution, `Connected`
//! with a fresh stream pair on success, or a refusal — never a hang.

use vstd::prelude::*;
use crate::stream::{InputStream, OutputStream};

verus! {

/// How many bytes a connection's transmit buffer holds at once.
pub const TX_CAPACITY: usize = 4096;

/// An IPv4 endpoint: four octets and a port. Port 0 on bind asks the
/// platform for an ephemeral port, observable only through the local
/// address afterwards.
#[derive(Clone, Copy, Debug, PartialEq, Eq, Structural)]
pub struct SockAddr {
    pub o1: u8,
    pub o2: u8,
    pub o3: u8,
    pub o4: u8,
    pub port: u16,
}

/// Transport kind of a socket.
#[derive(Clone, Copy, Debug, PartialEq, Eq, Structural)]
pub enum Transport {
    /// Stream-oriented, with a persistent peer.
    Tcp,
    /// Datagram-oriented, addressed per datagram.
    Udp,
}

/// The lifecycle of a socket. `Errored` is terminal and reachable from
/// every non-terminal state.
#[derive(Clone, Copy, Debug, PartialEq, Eq, Structural)]
pub enum SocketState {
    Unbound,
    Binding,
    Bound,
    Connecting,
    Connected,
    Closed,
    Errored,
}

/// Why a socket operation failed.
#[derive(Clone, Copy, Debug, PartialEq, Eq, Structural)]
pub enum SocketError {
    /// The operation does not apply in the current lifecycle state.
    InvalidState,
    /// Completion was polled before the associated readiness resolved.
    WouldBlock,
    /// The peer was not listening.
    Refused,
    /// A datagram without an address on a socket without a fixed peer.
    NoAddress,
    /// A stream-only operation on a datagram socket, or the reverse.
    WrongTransport,
}

/// The listening peers of the surrounding network, as the platform knows
/// them.
pub struct Network {
    pub listeners: Vec<SockAddr>,
}

impl Network {
    pub open spec fn is_listening(self, a: SockAddr) -> bool {
        self.listeners@.contains(a)
    }

    pub fn new() -> (r: Network)
        ensures
            r.listeners@.len() == 0,
    {
        Network { listeners: Vec::new() }
    }

    /// A peer starts listening at `a`.
    pub fn listen(&mut self, a: SockAddr)
        ensures
            final(self).listeners@ == old(self).listeners@.push(a),
    {
        self.listeners.push(a);
    }

    /// Is some peer listening at `a` right now?
    pub fn reachable(&self, a: SockAddr) -> (r: bool)
        ensures
            r == self.is_listening(a),
    {
        let mut i: usize = 0;
        while i < self.listeners.len()
            invariant
                i <= self.listeners@.len(),
                forall|k: int| 0 <= k < i ==> self.listeners@[k] != a,
            decreases self.listeners@.len() - i,
        {
            if self.listeners[i] == a {
                assert(self.listeners@[i as int] == a);
                return true;
            }
            i = i + 1;
        }
        false
    }
}

/// One datagram: its payload and its address — the destination when
/// sending (absent means "use the fixed peer"), the source when received.
pub struct Datagram {
    pub data: Vec<u8>,
    pub addr: Option<SockAddr>,
}

/// An in-flight connection attempt.
#[derive(Clone, Copy, Debug, PartialEq, Eq, Structural)]
pub struct ConnectAttempt {
    /// Where the attempt is headed.
    pub dest: SockAddr,
    /// Whether a peer listens there — the outcome the platform will
    /// reveal.
    pub ok: bool,
    /// The completion readiness has resolved.
    pub resolved: bool,
}

/// A socket endpoint.
pub struct Socket {
    pub kind: Transport,
    pub state: SocketState,
    pub local: Option<SockAddr>,
    pub peer: Option<SockAddr>,
    pub attempt: Option<ConnectAttempt>,
    /// The connection's receive end, owned while `Connected`.
    pub rx: Option<InputStream>,
    /// The connection's transmit end, owned while `Connected`.
    pub tx: Option<OutputStream>,
    /// Datagrams queued for this socket.
    pub dg_in: Vec<Datagram>,
    /// Datagrams handed to the transport.
    pub dg_out: Vec<Datagram>,
}

impl Socket {
    pub open spec fn inv(self) -> bool {
        &&& (self.state is Connecting ==> self.attempt is Some)
        &&& (self.state is Connected ==> self.rx is Some && self.tx is Some)
        &&& (self.rx matches Some(s) ==> s.inv())
        &&& (self.tx matches Some(s) ==> s.inv())
    }

    pub fn new(kind: Transport) -> (r: Socket)
        ensures
            r.inv(),
            r.kind == kind,
            r.state is Unbound,
            r.local is None,
            r.peer is None,
            r.attempt is None,
            r.rx is None,
            r.tx is None,
            r.dg_in@.len() == 0,
            r.dg_out@.len() == 0,
    {
        Socket {
            kind,
            state: SocketState::Unbound,
            local: None,
            peer: None,
            attempt: None,
            rx: None,
            tx: None,
            dg_in: Vec::new(),
            dg_out: Vec::new(),
        }
    }

    /// Non-blocking initiation of a local-address bind, used by stream and
    /// datagram sockets alike.
    pub fn start_bind(&mut self, a: SockAddr) -> (r: Result<(), SocketError>)
        requires
            old(self).inv(),
        ensures
            final(self).inv(),
            !(old(self).state is Unbound) ==> r == Err::<(), SocketError>(SocketError::InvalidState)
                && *final(self) == *old(self),
            old(self).state is Unbound ==> r == Ok::<(), SocketError>(()) && *final(self) == (
            Socket { state: SocketState::Binding, local: Some(a), ..*old(self) }),
    {
        match self.state {
            SocketState::Unbound => {
                self.state = SocketState::Binding;
                self.local = Some(a);
                Ok(())
            },
            _ => Err(SocketError::InvalidState),
        }
    }

    /// Completion of a bind.
    pub fn finish_bind(&mut self) -> (r: Result<(), SocketError>)
        requires
            old(self).inv(),
        ensures
            final(self).inv(),
            !(old(self).state is Binding) ==> r == Err::<(), SocketError>(SocketError::InvalidState)
                && *final(self) == *old(self),
            old(self).state is Binding ==> r == Ok::<(), SocketError>(()) && *final(self) == (
            Socket { state: SocketState::Bound, ..*old(self) }),
    {
        match self.state {
            SocketState::Binding => {
                self.state = SocketState::Bound;
                Ok(())
            },
            _ => Err(SocketError::InvalidState),
        }
    }

    /// Non-blocking initiation of a connection from a bound stream
    /// socket. Records the attempt; the outcome is revealed only after
    /// the completion readiness resolves.
    pub fn start_connect(&mut self, net: &Network, a: SockAddr) -> (r: Result<(), SocketError>)
        requires
            old(self).inv(),
        ensures
            final(self).inv(),
            !(old(self).kind is Tcp) ==> r == Err::<(), SocketError>(SocketError::WrongTransport)
                && *final(self) == *old(self),
            old(self).kind is Tcp && !(old(self).state is Bound) ==> r == Err::<(), SocketError>(
                SocketError::InvalidState,
            ) && *final(self) == *old(self),
            old(self).kind is Tcp && old(self).state is Bound ==> r == Ok::<(), SocketError>(())
                && *final(self) == (Socket {
                state: SocketState::Connecting,
                peer: Some(a),
                attempt: Some(
                    ConnectAttempt { dest: a, ok: net.is_listening(a), resolved: false },
                ),
                ..*old(self)
            }),
    {
        match self.kind {
            Transport::Tcp => {},
            _ => {
                return Err(SocketError::WrongTransport);
            },
        }
        match self.state {
            SocketState::Bound => {
                let ok = net.reachable(a);
                self.state = SocketState::Connecting;
                self.peer = Some(a);
                self.attempt = Some(ConnectAttempt { dest: a, ok, resolved: false });
                Ok(())
            },
            _ => Err(SocketError::InvalidState),
        }
    }

    /// The suspension point: blocking on the connect pollable. When it
    /// returns, the attempt has resolved, whatever its outcome.
    pub fn await_connect(&mut self)
        requires
            old(self).inv(),
            old(self).state is Connecting,
        ensures
            final(self).inv(),
            final(self).attempt matches Some(at) && at == (ConnectAttempt {
                resolved: true,
                ..old(self).attempt->Some_0
            }),
            *final(self) == (Socket { attempt: final(self).attempt, ..*old(self) }),
    {
        let cur = match &self.attempt {
            Some(at) => *at,
            None => {
                proof {
                    assert(false);
                }
                ConnectAttempt {
                    dest: SockAddr { o1: 0, o2: 0, o3: 0, o4: 0, port: 0 },
                    ok: false,
                    resolved: false,
                }
            },
        };
        self.attempt = Some(ConnectAttempt { resolved: true, ..cur });
    }

    /// Completion of a connection attempt. Before the readiness resolves
    /// this is `WouldBlock`, not a hang; after it, a listening peer yields
    /// `Connected` with a fresh input/output stream pair, and anything
    /// else resolves to a refusal and the terminal `Errored` state.
    pub fn finish_connect(&mut self) -> (r: Result<(), SocketError>)
        requires
            old(self).inv(),
        ensures
            final(self).inv(),
            !(old(self).state is Connecting) ==> r == Err::<(), SocketError>(
                SocketError::InvalidState,
            ) && *final(self) == *old(self),
            old(self).state is Connecting && !old(self).attempt->Some_0.resolved ==> r == Err::<
                (),
                SocketError,
            >(SocketError::WouldBlock) && *final(self) == *old(self),
            old(self).state is Connecting && old(self).attempt->Some_0.resolved && old(self).attempt->Some_0.ok ==> {
                &&& r == Ok::<(), SocketError>(())
                &&& final(self).state is Connected
                &&& final(self).rx matches Some(rx) && rx.buf@.len() == 0 && !rx.eof && !rx.closed
                &&& final(self).tx matches Some(tx) && tx.buf@.len() == 0 && tx.sent@.len() == 0
                    && !tx.closed && tx.cap == TX_CAPACITY
                &&& final(self).local == old(self).local
                &&& final(self).peer == old(self).peer
                &&& final(self).kind == old(self).kind
            },
            old(self).state is Connecting && old(self).attempt->Some_0.resolved && !old(self).attempt->Some_0.ok ==> r == Err::<(), SocketError>(SocketError::Refused) && final(self).state is Errored && final(self).kind == old(self).kind,
    {
        match self.state {
            SocketState::Connecting => {},
            _ => {
                return Err(SocketError::InvalidState);
            },
        }
        let at = match &self.attempt {
            Some(at) => *at,
            None => {
                proof {
                    assert(false);
                }
                ConnectAttempt {
                    dest: SockAddr { o1: 0, o2: 0, o3: 0, o4: 0, port: 0 },
                    ok: false,
                    resolved: false,
                }
            },
        };
        if !at.resolved {
            return Err(SocketError::WouldBlock);
        }
        if at.ok {
            self.state = SocketState::Connected;
            self.rx = Some(InputStream::new());
            self.tx = Some(OutputStream::new(TX_CAPACITY));
            Ok(())
        } else {
            self.state = SocketState::Errored;
            Err(SocketError::Refused)
        }
    }

    /// Destroys the socket's connection: the lifecycle ends and both owned
    /// streams are invalidated with it. Idempotent.
    pub fn close(&mut self)
        requires
            old(self).inv(),
        ensures
            final(self).inv(),
            final(self).state is Closed,
            final(self).rx is None,
            final(self).tx is None,
            final(self).kind == old(self).kind,
            final(self).local == old(self).local,
    {
        self.state = SocketState::Closed;
        self.rx = None;
        self.tx = None;
        self.attempt = None;
    }

    /// The platform side: a datagram arrives for this socket.
    pub fn deliver_datagram(&mut self, d: Datagram)
        requires
            old(self).inv(),
        ensures
            final(self).inv(),
            final(self).dg_in@ == old(self).dg_in@.push(d),
            final(self).state == old(self).state,
            final(self).dg_out == old(self).dg_out,
    {
        self.dg_in.push(d);
    }

    /// Sends a batch of datagrams, each independently addressed. An
    /// address is required on each unless a fixed peer was set; a batch
    /// that violates this is rejected whole, before anything is sent.
    pub fn send(&mut self, batch: Vec<Datagram>) -> (r: Result<usize, SocketError>)
        requires
            old(self).inv(),
        ensures
            final(self).inv(),
            !(old(self).kind is Udp) ==> r == Err::<usize, SocketError>(SocketError::WrongTransport)
                && *final(self) == *old(self),
            old(self).kind is Udp && !(old(self).state is Bound) ==> r == Err::<
                usize,
                SocketError,
            >(SocketError::InvalidState) && *final(self) == *old(self),
            old(self).kind is Udp && old(self).state is Bound && old(self).peer is None && (
            exists|i: int|
                0 <= i < batch@.len() && (#[trigger] batch@[i]).addr is None) ==> r == Err::<
                usize,
                SocketError,
            >(SocketError::NoAddress) && *final(self) == *old(self),
            old(self).kind is Udp && old(self).state is Bound && (old(self).peer is Some || (
            forall|i: int| 0 <= i < batch@.len() ==> !((#[trigger] batch@[i]).addr is None)))
                ==> {
                &&& r == Ok::<usize, SocketError>(batch@.len() as usize)
                &&& final(self).dg_out@ == old(self).dg_out@ + batch@
                &&& final(self).dg_in == old(self).dg_in
                &&& final(self).state == old(self).state
            },
    {
        match self.kind {
            Transport::Udp => {},
            _ => {
                return Err(SocketError::WrongTransport);
            },
        }
        match self.state {
            SocketState::Bound => {},
            _ => {
                return Err(SocketError::InvalidState);
            },
        }
        let no_peer = match &self.peer {
            Some(_) => false,
            None => true,
        };
        if no_peer {
            let mut i: usize = 0;
            while i < batch.len()
                invariant
                    i <= batch@.len(),
                    forall|k: int| 0 <= k < i ==> !((#[trigger] batch@[k]).addr is None),
                    *self == *old(self),
                    self.inv(),
                    old(self).kind is Udp,
                    old(self).state is Bound,
                    old(self).peer is None,
                decreases batch@.len() - i,
            {
                match &batch[i].addr {
                    None => {
                        assert(batch@[i as int].addr is None);
                        return Err(SocketError::NoAddress);
                    },
                    Some(_) => {},
                }
                i = i + 1;
            }
        }
        let n = batch.len();
        let mut rest = batch;
        while rest.len() > 0
            invariant
                self.dg_out@ + rest@ == old(self).dg_out@ + batch@,
                self.inv(),
                self.dg_in == old(self).dg_in,
                self.state == old(self).state,
                self.kind == old(self).kind,
                self.local == old(self).local,
                self.peer == old(self).peer,
            decreases rest@.len(),
        {
            let d = rest.remove(0);
            self.dg_out.push(d);
            proof {
                assert(self.dg_out@ + rest@ =~= old(self).dg_out@ + batch@);
            }
        }
        proof {
            assert(self.dg_out@ =~= self.dg_out@ + rest@);
        }
        Ok(n)
    }

    /// Receives up to `max` datagrams currently queued, oldest first; the
    /// rest stay queued.
    pub fn receive(&mut self, max: usize) -> (r: Result<Vec<Datagram>, SocketError>)
        requires
            old(self).inv(),
        ensures
            final(self).inv(),
            !(old(self).kind is Udp) ==> r == Err::<Vec<Datagram>, SocketError>(
                SocketError::WrongTransport,
            ) && *final(self) == *old(self),
            old(self).kind is Udp && !(old(self).state is Bound) ==> r == Err::<
                Vec<Datagram>,
                SocketError,
            >(SocketError::InvalidState) && *final(self) == *old(self),
            old(self).kind is Udp && old(self).state is Bound ==> {
                let n = if max <= old(self).dg_in@.len() {
                    max as int
                } else {
                    old(self).dg_in@.len() as int
                };
                &&& r matches Ok(got) && got@ == old(self).dg_in@.take(n)
                &&& final(self).dg_in@ == old(self).dg_in@.skip(n)
                &&& final(self).dg_out == old(self).dg_out
                &&& final(self).state == old(self).state
            },
    {
        match self.kind {
            Transport::Udp => {},
            _ => {
                return Err(SocketError::WrongTransport);
            },
        }
        match self.state {
            SocketState::Bound => {},
            _ => {
                return Err(SocketError::InvalidState);
            },
        }
        let mut got: Vec<Datagram> = Vec::new();
        while got.len() < max && self.dg_in.len() > 0
            invariant
                self.inv(),
                got@.len() <= max,
                got@ + self.dg_in@ == old(self).dg_in@,
                got@.len() == old(self).dg_in@.len() - self.dg_in@.len(),
                got@.len() < max || self.dg_in@.len() == 0 || got@.len() == max,
                self.dg_out == old(self).dg_out,
                self.state == old(self).state,
                self.kind == old(self).kind,
                self.local == old(self).local,
                self.peer == old(self).peer,
                self.rx == old(self).rx,
                self.tx == old(self).tx,
                self.attempt == old(self).attempt,
            decreases self.dg_in@.len(),
        {
            let d = self.dg_in.remove(0);
            got.push(d);
            proof {
                assert(got@ + self.dg_in@ =~= old(self).dg_in@);
            }
        }
        proof {
            let n = if max <= old(self).dg_in@.len() {
                max as int
            } else {
                old(self).dg_in@.len() as int
            };
            assert(got@ =~= old(self).dg_in@.take(n));
            assert(self.dg_in@ =~= old(self).dg_in@.skip(n));
        }
        Ok(got)
    }
}

} // verus!
