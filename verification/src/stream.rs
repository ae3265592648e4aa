//! Byte streams: a unidirectional channel with non-blocking operations and
//! blocking-style conveniences layered over readiness.
//!
//! The platform side of the channel is explicit: bytes delivered to an
//! input stream queue up in `pending` and move into the readable buffer at
//! the suspension point of a blocking operation; an output stream's buffer
//! is drained to the transmitted history at the same kind of point. Only
//! the blocking conveniences suspend; `read` and `write` never do.

use vstd::prelude::*;

verus! {

/// Why a stream operation failed.
#[derive(Clone, Copy, Debug, PartialEq, Eq, Structural)]
pub enum StreamError {
    /// The stream was closed by its owner; operations after close fail.
    Closed,
    /// Input exhausted: the peer finished sending. Distinct from
    /// "temporarily empty".
    Ended,
    /// A transport failure, with its platform cause code.
    Transport(u32),
}

/// The readable end of a byte channel.
pub struct InputStream {
    /// Bytes received and not yet read.
    pub buf: Vec<u8>,
    /// Chunks en route from the peer; each becomes readable whole at a
    /// suspension point. Chunks are never empty.
    pub pending: Vec<Vec<u8>>,
    /// The peer has finished sending.
    pub eof: bool,
    /// The owner has closed the stream.
    pub closed: bool,
    /// A transport failure and its cause.
    pub failed: Option<u32>,
}

impl InputStream {
    /// Every queued chunk carries at least one byte.
    pub open spec fn inv(self) -> bool {
        forall|i: int| 0 <= i < self.pending@.len() ==> (#[trigger] self.pending@[i])@.len() > 0
    }

    /// A read would make progress right now.
    pub open spec fn ready(self) -> bool {
        self.closed || self.failed is Some || self.buf@.len() > 0 || self.eof
    }

    /// Readiness is reached without further outside action: a blocking
    /// read on a stream without this never returns, so such states are
    /// excluded from the blocking contract.
    pub open spec fn will_be_ready(self) -> bool {
        self.ready() || self.pending@.len() > 0
    }

    pub fn new() -> (r: InputStream)
        ensures
            r.inv(),
            r.buf@.len() == 0,
            r.pending@.len() == 0,
            !r.eof,
            !r.closed,
            r.failed is None,
    {
        InputStream {
            buf: Vec::new(),
            pending: Vec::new(),
            eof: false,
            closed: false,
            failed: None,
        }
    }

    /// The platform side: a chunk of bytes arrives from the peer. It
    /// becomes readable at the next suspension point.
    pub fn deliver(&mut self, data: Vec<u8>)
        requires
            old(self).inv(),
            data@.len() > 0,
        ensures
            final(self).inv(),
            final(self).pending@ == old(self).pending@.push(data),
            final(self).buf == old(self).buf,
            final(self).eof == old(self).eof,
            final(self).closed == old(self).closed,
            final(self).failed == old(self).failed,
    {
        self.pending.push(data);
    }

    /// The platform side: the peer finished sending.
    pub fn finish(&mut self)
        requires
            old(self).inv(),
        ensures
            final(self).inv(),
            *final(self) == (InputStream { eof: true, ..*old(self) }),
    {
        self.eof = true;
    }

    /// The platform side: the transport failed with a cause code.
    pub fn fail(&mut self, cause: u32)
        requires
            old(self).inv(),
        ensures
            final(self).inv(),
            *final(self) == (InputStream { failed: Some(cause), ..*old(self) }),
    {
        self.failed = Some(cause);
    }

    /// Closes the stream, releasing everything buffered. Idempotent.
    pub fn close(&mut self)
        requires
            old(self).inv(),
        ensures
            final(self).inv(),
            final(self).closed,
            final(self).buf@.len() == 0,
            final(self).pending@.len() == 0,
            final(self).eof == old(self).eof,
            final(self).failed == old(self).failed,
    {
        self.closed = true;
        self.buf = Vec::new();
        self.pending = Vec::new();
    }

    /// Non-blocking read: whatever is buffered right now, up to `max`
    /// bytes. Zero bytes is not an error while the stream is open; an
    /// exhausted peer is the distinct `Ended` outcome.
    pub fn read(&mut self, max: usize) -> (r: Result<Vec<u8>, StreamError>)
        requires
            old(self).inv(),
        ensures
            final(self).inv(),
            old(self).closed ==> r == Err::<Vec<u8>, StreamError>(StreamError::Closed) && *final(self) == *old(self),
            !old(self).closed ==> (old(self).failed matches Some(c) ==> r == Err::<
                Vec<u8>,
                StreamError,
            >(StreamError::Transport(c)) && *final(self) == *old(self)),
            !old(self).closed && old(self).failed is None && old(self).buf@.len() == 0 && old(self).eof ==> r == Err::<Vec<u8>, StreamError>(StreamError::Ended) && *final(self) == *old(self),
            !old(self).closed && old(self).failed is None && !(old(self).buf@.len() == 0 && old(self).eof) ==> {
                let n = if max <= old(self).buf@.len() {
                    max as int
                } else {
                    old(self).buf@.len() as int
                };
                &&& r matches Ok(b) && b@ == old(self).buf@.take(n)
                &&& final(self).buf@ == old(self).buf@.skip(n)
                &&& final(self).pending == old(self).pending
                &&& final(self).eof == old(self).eof
                &&& !final(self).closed && final(self).failed is None
            },
    {
        if self.closed {
            return Err(StreamError::Closed);
        }
        match self.failed {
            Some(c) => {
                return Err(StreamError::Transport(c));
            },
            None => {},
        }
        if self.buf.len() == 0 && self.eof {
            return Err(StreamError::Ended);
        }
        let n: usize = if max <= self.buf.len() {
            max
        } else {
            self.buf.len()
        };
        let mut taken: Vec<u8> = Vec::new();
        let mut i: usize = 0;
        while i < n
            invariant
                i <= n <= self.buf.len(),
                taken@ == self.buf@.take(i as int),
            decreases n - i,
        {
            taken.push(self.buf[i]);
            i = i + 1;
            proof {
                assert(taken@ =~= self.buf@.take(i as int));
            }
        }
        let mut rest: Vec<u8> = Vec::new();
        let mut j: usize = n;
        while j < self.buf.len()
            invariant
                n <= j <= self.buf.len(),
                rest@ == self.buf@.subrange(n as int, j as int),
            decreases self.buf.len() - j,
        {
            rest.push(self.buf[j]);
            j = j + 1;
            proof {
                assert(rest@ =~= self.buf@.subrange(n as int, j as int));
            }
        }
        self.buf = rest;
        Ok(taken)
    }

    /// Blocking read: subscribes to readiness and suspends until the
    /// stream is ready, then reads. While suspended, the platform moves
    /// queued chunks into the buffer. Never returns zero bytes before
    /// readiness: with `max > 0`, a successful result carries data.
    pub fn blocking_read(&mut self, max: usize) -> (r: Result<Vec<u8>, StreamError>)
        requires
            old(self).inv(),
            old(self).will_be_ready(),
        ensures
            final(self).inv(),
            old(self).closed ==> r == Err::<Vec<u8>, StreamError>(StreamError::Closed),
            !old(self).closed ==> (old(self).failed matches Some(c) ==> r == Err::<
                Vec<u8>,
                StreamError,
            >(StreamError::Transport(c))),
            !old(self).closed && old(self).failed is None && old(self).buf@.len() == 0 && old(self).pending@.len() == 0 ==> r == Err::<Vec<u8>, StreamError>(StreamError::Ended),
            !old(self).closed && old(self).failed is None && old(self).buf@.len() > 0 ==> {
                let n = if max <= old(self).buf@.len() {
                    max as int
                } else {
                    old(self).buf@.len() as int
                };
                &&& r matches Ok(b) && b@ == old(self).buf@.take(n)
                &&& final(self).buf@ == old(self).buf@.skip(n)
                &&& final(self).pending == old(self).pending
            },
            !old(self).closed && old(self).failed is None && old(self).buf@.len() == 0 && old(self).pending@.len() > 0 ==> {
                let c = old(self).pending@[0]@;
                let n = if max <= c.len() {
                    max as int
                } else {
                    c.len() as int
                };
                &&& r matches Ok(b) && b@ == c.take(n)
                &&& final(self).buf@ == c.skip(n)
                &&& final(self).pending@ == old(self).pending@.skip(1)
            },
            max > 0 && (r matches Ok(b)) ==> (r matches Ok(b) && b@.len() > 0),
    {
        if self.closed {
            return Err(StreamError::Closed);
        }
        match self.failed {
            Some(c) => {
                return Err(StreamError::Transport(c));
            },
            None => {},
        }
        if self.buf.len() == 0 {
            if self.pending.len() > 0 {
                let chunk = self.pending.remove(0);
                assert(self.pending@ =~= old(self).pending@.skip(1));
                self.buf = chunk;
            } else {
                return Err(StreamError::Ended);
            }
        }
        self.read(max)
    }
}

/// The writable end of a byte channel.
pub struct OutputStream {
    /// Bytes accepted and awaiting transmission.
    pub buf: Vec<u8>,
    /// Buffer capacity: how many bytes may await transmission at once.
    pub cap: usize,
    /// The transmitted history: everything the transport has taken.
    pub sent: Vec<u8>,
    /// The owner has closed the stream.
    pub closed: bool,
    /// A transport failure and its cause.
    pub failed: Option<u32>,
}

impl OutputStream {
    pub open spec fn inv(self) -> bool {
        self.cap >= 1 && self.buf@.len() <= self.cap
    }

    pub fn new(cap: usize) -> (r: OutputStream)
        requires
            cap >= 1,
        ensures
            r.inv(),
            r.cap == cap,
            r.buf@.len() == 0,
            r.sent@.len() == 0,
            !r.closed,
            r.failed is None,
    {
        OutputStream { buf: Vec::new(), cap, sent: Vec::new(), closed: false, failed: None }
    }

    /// The platform side: the transport takes the whole buffer. This is
    /// what happens while a blocking writer is suspended.
    pub fn drain(&mut self)
        requires
            old(self).inv(),
        ensures
            final(self).inv(),
            final(self).sent@ == old(self).sent@ + old(self).buf@,
            final(self).buf@.len() == 0,
            final(self).cap == old(self).cap,
            final(self).closed == old(self).closed,
            final(self).failed == old(self).failed,
    {
        let mut moved = Vec::new();
        core::mem::swap(&mut moved, &mut self.buf);
        let mut k: usize = 0;
        while k < moved.len()
            invariant
                k <= moved.len(),
                self.sent@ == old(self).sent@ + moved@.take(k as int),
                moved@ == old(self).buf@,
                self.buf@.len() == 0,
                self.cap == old(self).cap,
                self.closed == old(self).closed,
                self.failed == old(self).failed,
            decreases moved.len() - k,
        {
            self.sent.push(moved[k]);
            k = k + 1;
            proof {
                assert(self.sent@ =~= old(self).sent@ + moved@.take(k as int));
            }
        }
        proof {
            assert(old(self).buf@.take(old(self).buf@.len() as int) =~= old(self).buf@);
        }
    }

    /// The platform side: the transport failed with a cause code.
    pub fn fail(&mut self, cause: u32)
        requires
            old(self).inv(),
        ensures
            final(self).inv(),
            *final(self) == (OutputStream { failed: Some(cause), ..*old(self) }),
    {
        self.failed = Some(cause);
    }

    /// Closes the stream, releasing the unsent buffer. Idempotent.
    pub fn close(&mut self)
        requires
            old(self).inv(),
        ensures
            final(self).inv(),
            final(self).closed,
            final(self).buf@.len() == 0,
            final(self).sent == old(self).sent,
            final(self).cap == old(self).cap,
            final(self).failed == old(self).failed,
    {
        self.closed = true;
        self.buf = Vec::new();
    }

    /// Non-blocking write: accepts as many bytes as the free buffer space
    /// allows, possibly fewer than offered, and says how many. Callers
    /// loop, or use the blocking variant, to guarantee full delivery.
    pub fn write(&mut self, data: &Vec<u8>) -> (r: Result<usize, StreamError>)
        requires
            old(self).inv(),
        ensures
            final(self).inv(),
            old(self).closed ==> r == Err::<usize, StreamError>(StreamError::Closed) && *final(self)
                == *old(self),
            !old(self).closed ==> (old(self).failed matches Some(c) ==> r == Err::<
                usize,
                StreamError,
            >(StreamError::Transport(c)) && *final(self) == *old(self)),
            !old(self).closed && old(self).failed is None ==> {
                let room = old(self).cap - old(self).buf@.len();
                let n = if data@.len() <= room {
                    data@.len() as int
                } else {
                    room
                };
                &&& r == Ok::<usize, StreamError>(n as usize)
                &&& final(self).buf@ == old(self).buf@ + data@.take(n)
                &&& final(self).sent == old(self).sent
                &&& final(self).cap == old(self).cap
                &&& !final(self).closed && final(self).failed is None
            },
    {
        if self.closed {
            return Err(StreamError::Closed);
        }
        match self.failed {
            Some(c) => {
                return Err(StreamError::Transport(c));
            },
            None => {},
        }
        let room: usize = self.cap - self.buf.len();
        let n: usize = if data.len() <= room {
            data.len()
        } else {
            room
        };
        let mut i: usize = 0;
        while i < n
            invariant
                i <= n <= data.len(),
                self.buf@ == old(self).buf@ + data@.take(i as int),
                self.cap == old(self).cap,
                self.sent == old(self).sent,
                self.closed == old(self).closed,
                self.failed == old(self).failed,
                n <= old(self).cap - old(self).buf@.len(),
            decreases n - i,
        {
            self.buf.push(data[i]);
            i = i + 1;
            proof {
                assert(self.buf@ =~= old(self).buf@ + data@.take(i as int));
            }
        }
        proof {
            assert(old(self).buf@ + data@.take(0) =~= old(self).buf@);
        }
        Ok(n)
    }

    /// Blocking write: loops over write and the transmission suspension
    /// point until every byte is delivered. On success the whole buffer
    /// has been transmitted too.
    pub fn blocking_write_all(&mut self, data: &Vec<u8>) -> (r: Result<(), StreamError>)
        requires
            old(self).inv(),
        ensures
            final(self).inv(),
            old(self).closed ==> r == Err::<(), StreamError>(StreamError::Closed) && *final(self)
                == *old(self),
            !old(self).closed ==> (old(self).failed matches Some(c) ==> r == Err::<
                (),
                StreamError,
            >(StreamError::Transport(c)) && *final(self) == *old(self)),
            !old(self).closed && old(self).failed is None ==> {
                &&& r == Ok::<(), StreamError>(())
                &&& final(self).sent@ == old(self).sent@ + old(self).buf@ + data@
                &&& final(self).buf@.len() == 0
                &&& final(self).cap == old(self).cap
                &&& !final(self).closed && final(self).failed is None
            },
    {
        if self.closed {
            return Err(StreamError::Closed);
        }
        match self.failed {
            Some(c) => {
                return Err(StreamError::Transport(c));
            },
            None => {},
        }
        self.drain();
        let total = data.len();
        let mut done: usize = 0;
        while done < total
            invariant
                done <= total == data.len(),
                self.inv(),
                self.buf@.len() == 0,
                self.sent@ == old(self).sent@ + old(self).buf@ + data@.take(done as int),
                self.cap == old(self).cap,
                !self.closed,
                self.failed is None,
            decreases total - done,
        {
            let mut part: Vec<u8> = Vec::new();
            let mut i: usize = done;
            let stop: usize = if total - done <= self.cap {
                total
            } else {
                done + self.cap
            };
            while i < stop
                invariant
                    done <= i <= stop <= data.len(),
                    part@ == data@.subrange(done as int, i as int),
                decreases stop - i,
            {
                part.push(data[i]);
                i = i + 1;
                proof {
                    assert(part@ =~= data@.subrange(done as int, i as int));
                }
            }
            let accepted = match self.write(&part) {
                Ok(n) => n,
                Err(_) => {
                    proof {
                        assert(false);
                    }
                    0
                },
            };
            self.drain();
            proof {
                assert(part@.take(accepted as int) =~= data@.subrange(
                    done as int,
                    done + accepted,
                ));
                assert(self.sent@ =~= old(self).sent@ + old(self).buf@ + data@.take(
                    (done + accepted) as int,
                ));
            }
            done = done + accepted;
        }
        proof {
            assert(data@.take(data@.len() as int) =~= data@);
        }
        Ok(())
    }
}

} // verus!
