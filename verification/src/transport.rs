//! Byte-oriented non-blocking transports.
//!
//! A [`Transport`] is anything that can deliver bytes from a peer and
//! accept bytes for the peer without ever suspending: a single read or
//! write either makes progress at once or reports `WouldBlock`.  The
//! codec is generic over this trait; the in-memory [`MemTransport`]
//! exercises it inside the verified world, while the application wires
//! sockets and pipes to the same interface.

use vstd::prelude::*;
use vstd::slice::slice_index_get;

verus! {

/// Outcome of one non-blocking read from a byte transport.
pub enum ReadChunk {
    /// Some bytes arrived; the chunk is never empty.
    Data(Vec<u8>),
    /// No bytes are available right now; the caller should yield.
    WouldBlock,
    /// The peer closed its end and every byte has been delivered.
    Closed,
}

/// Outcome of one non-blocking write to a byte transport.
pub enum WriteChunk {
    /// The first `n` bytes of the offered slice were accepted; `n` is
    /// never zero.
    Accepted(usize),
    /// Nothing could be written right now.
    WouldBlock,
    /// The peer closed its end; nothing was written.
    Closed,
}

/// A byte stream that never blocks.
///
/// `incoming()` models the bytes the peer has sent that this side has
/// not yet consumed, `outgoing()` the bytes this side has written so
/// far, and `live()` whether the peer still holds its end open.  Reads
/// consume a prefix of `incoming()` in order; writes append to
/// `outgoing()` in order.
pub trait Transport: Sized {
    /// Bytes sent by the peer and not yet read here.  A transport
    /// worth reasoning about overrides this with its real model; the
    /// default is only there so that unverified impls outside the
    /// library need not name one.
    open spec fn incoming(&self) -> Seq<u8> {
        Seq::empty()
    }

    /// Bytes written here so far.
    open spec fn outgoing(&self) -> Seq<u8> {
        Seq::empty()
    }

    /// True while the peer keeps its end open.
    open spec fn live(&self) -> bool {
        true
    }

    /// True for a transport that accepts at least one byte whenever
    /// asked.  A transport that cannot promise that leaves this
    /// false and may answer `WouldBlock` to any write.
    open spec fn writable(&self) -> bool {
        false
    }

    /// One non-blocking read.  A `Data` chunk is a non-empty prefix of
    /// the pending bytes; `Closed` is only reported once the stream is
    /// drained and the peer is gone.  An open, empty stream always
    /// answers `WouldBlock`, never blocks.
    fn try_read(&mut self) -> (r: ReadChunk)
        ensures
            final(self).outgoing() == old(self).outgoing(),
            final(self).live() == old(self).live(),
            match r {
                ReadChunk::Data(d) => {
                    &&& 0 < d@.len() <= old(self).incoming().len()
                    &&& d@ == old(self).incoming().take(d@.len() as int)
                    &&& final(self).incoming() == old(self).incoming().skip(d@.len() as int)
                },
                ReadChunk::WouldBlock => final(self).incoming() == old(self).incoming(),
                ReadChunk::Closed => {
                    &&& old(self).incoming().len() == 0
                    &&& !old(self).live()
                    &&& final(self).incoming() == old(self).incoming()
                },
            },
            old(self).incoming().len() == 0 && !old(self).live() ==> r is Closed,
            final(self).writable() == old(self).writable(),
    ;

    /// One non-blocking write.  `Accepted(n)` appends the first `n`
    /// offered bytes to the stream; `Closed` is only possible once the
    /// peer is gone, and writes nothing.
    fn try_write(&mut self, data: &[u8]) -> (r: WriteChunk)
        requires
            data@.len() > 0,
        ensures
            final(self).incoming() == old(self).incoming(),
            final(self).live() == old(self).live(),
            final(self).writable() == old(self).writable(),
            old(self).writable() && old(self).live() ==> r is Accepted,
            match r {
                WriteChunk::Accepted(n) => {
                    &&& 0 < n <= data@.len()
                    &&& final(self).outgoing() == old(self).outgoing() + data@.take(n as int)
                },
                WriteChunk::WouldBlock => final(self).outgoing() == old(self).outgoing(),
                WriteChunk::Closed => {
                    &&& !old(self).live()
                    &&& final(self).outgoing() == old(self).outgoing()
                },
            },
    ;
}

/// An in-memory transport: a scripted inbox, an outbox, and caps on
/// how many bytes a single read or write may move, so that partial
/// reads and writes are exercised.
pub struct MemTransport {
    inbox: Vec<u8>,
    outbox: Vec<u8>,
    peer_open: bool,
    read_cap: usize,
    write_cap: usize,
    write_room: usize,
}

impl MemTransport {
    /// A transport whose peer has queued `inbox` and keeps the stream
    /// open afterwards.
    pub fn open(inbox: Vec<u8>, read_cap: usize, write_cap: usize) -> (t: MemTransport)
        ensures
            t.incoming() == inbox@,
            t.outgoing() == Seq::<u8>::empty(),
            t.live(),
            t.writable() == (write_cap > 0),
    {
        MemTransport {
            inbox,
            outbox: Vec::new(),
            peer_open: true,
            read_cap,
            write_cap,
            write_room: usize::MAX,
        }
    }

    /// A transport whose peer has queued `inbox` and then closed its
    /// end.
    pub fn closed(inbox: Vec<u8>, read_cap: usize, write_cap: usize) -> (t: MemTransport)
        ensures
            t.incoming() == inbox@,
            t.outgoing() == Seq::<u8>::empty(),
            !t.live(),
            t.writable() == (write_cap > 0),
    {
        MemTransport {
            inbox,
            outbox: Vec::new(),
            peer_open: false,
            read_cap,
            write_cap,
            write_room: usize::MAX,
        }
    }

    /// A transport whose peer stops taking bytes after `write_room`
    /// of them: writes beyond the allowance stall.  It promises no
    /// progress, so nothing is owed to writers once the room is gone.
    pub fn throttled(inbox: Vec<u8>, read_cap: usize, write_cap: usize, write_room: usize) -> (t:
        MemTransport)
        ensures
            t.incoming() == inbox@,
            t.outgoing() == Seq::<u8>::empty(),
            t.live(),
            !t.writable(),
    {
        let room = if write_room == usize::MAX {
            usize::MAX - 1
        } else {
            write_room
        };
        MemTransport {
            inbox,
            outbox: Vec::new(),
            peer_open: true,
            read_cap,
            write_cap,
            write_room: room,
        }
    }

    /// The bytes written into this transport so far.
    pub fn sent(&self) -> (r: &Vec<u8>)
        ensures
            r@ == self.outgoing(),
    {
        &self.outbox
    }

    /// How many queued bytes are still unread.
    pub fn pending(&self) -> (r: usize)
        ensures
            r == self.incoming().len(),
    {
        self.inbox.len()
    }
}

impl Transport for MemTransport {
    closed spec fn incoming(&self) -> Seq<u8> {
        self.inbox@
    }

    closed spec fn outgoing(&self) -> Seq<u8> {
        self.outbox@
    }

    closed spec fn live(&self) -> bool {
        self.peer_open
    }

    closed spec fn writable(&self) -> bool {
        self.write_cap > 0 && self.write_room == usize::MAX
    }

    fn try_read(&mut self) -> (r: ReadChunk) {
        if self.inbox.len() == 0 {
            if self.peer_open {
                ReadChunk::WouldBlock
            } else {
                ReadChunk::Closed
            }
        } else if self.read_cap == 0 {
            ReadChunk::WouldBlock
        } else {
            let n: usize = if self.read_cap < self.inbox.len() {
                self.read_cap
            } else {
                self.inbox.len()
            };
            let mut chunk: Vec<u8> = Vec::new();
            let mut i: usize = 0;
            while i < n
                invariant
                    i <= n <= self.inbox@.len(),
                    chunk@ == self.inbox@.take(i as int),
                decreases n - i,
            {
                chunk.push(self.inbox[i]);
                i = i + 1;
                proof {
                    assert(chunk@ =~= self.inbox@.take(i as int));
                }
            }
            let rest = self.inbox.split_off(n);
            self.inbox = rest;
            proof {
                assert(self.inbox@ =~= old(self).incoming().skip(n as int));
            }
            ReadChunk::Data(chunk)
        }
    }

    fn try_write(&mut self, data: &[u8]) -> (r: WriteChunk) {
        if !self.peer_open {
            WriteChunk::Closed
        } else if self.write_cap == 0 || self.write_room == 0 {
            WriteChunk::WouldBlock
        } else {
            let mut n: usize = if self.write_cap < data.len() {
                self.write_cap
            } else {
                data.len()
            };
            if self.write_room < usize::MAX && self.write_room < n {
                n = self.write_room;
            }
            let mut i: usize = 0;
            while i < n
                invariant
                    i <= n <= data@.len(),
                    self.outbox@ == old(self).outgoing() + data@.take(i as int),
                    self.inbox@ == old(self).incoming(),
                    self.peer_open == old(self).live(),
                    self.write_cap == old(self).write_cap,
                    self.write_room == old(self).write_room,
                decreases n - i,
            {
                let b = *slice_index_get(data, i);
                self.outbox.push(b);
                i = i + 1;
                proof {
                    assert(self.outbox@ =~= old(self).outgoing() + data@.take(i as int));
                }
            }
            if self.write_room < usize::MAX {
                self.write_room = self.write_room - n;
            }
            WriteChunk::Accepted(n)
        }
    }
}

} // verus!
