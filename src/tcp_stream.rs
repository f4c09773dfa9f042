use std::collections::VecDeque;
use vstd::prelude::*;
use crate::socket_manager::{with_buffer, ErrorAction, OwnedBuffer, SocketManger, UpdateResult};

verus! {

/// The kinds of I/O failure that the stream buffer tells apart.
#[derive(Clone, Copy, Debug, PartialEq, Eq)]
pub enum IoErrorKind {
    WouldBlock,
    WriteZero,
    ConnectionRefused,
    ConnectionReset,
    ConnectionAborted,
    NotConnected,
    BrokenPipe,
    TimedOut,
    Interrupted,
    UnexpectedEof,
    Other,
}

/// Whether a write failing with `kind` means that the peer is gone.
pub open spec fn is_disconnect(kind: IoErrorKind) -> bool {
    match kind {
        IoErrorKind::ConnectionRefused | IoErrorKind::ConnectionReset
        | IoErrorKind::ConnectionAborted | IoErrorKind::NotConnected => true,
        _ => false,
    }
}

/// Whether a write failing with `kind` only means that no more can be written now.
pub open spec fn is_benign_write_stop(kind: IoErrorKind) -> bool {
    match kind {
        IoErrorKind::WouldBlock | IoErrorKind::WriteZero => true,
        _ => false,
    }
}

/// The text that describes a failure of kind `kind`.
pub open spec fn kind_text(kind: IoErrorKind) -> Seq<char> {
    match kind {
        IoErrorKind::WouldBlock => "operation would block"@,
        IoErrorKind::WriteZero => "write zero"@,
        IoErrorKind::ConnectionRefused => "connection refused"@,
        IoErrorKind::ConnectionReset => "connection reset"@,
        IoErrorKind::ConnectionAborted => "connection aborted"@,
        IoErrorKind::NotConnected => "not connected"@,
        IoErrorKind::BrokenPipe => "broken pipe"@,
        IoErrorKind::TimedOut => "timed out"@,
        IoErrorKind::Interrupted => "operation interrupted"@,
        IoErrorKind::UnexpectedEof => "unexpected end of file"@,
        IoErrorKind::Other => "other error"@,
    }
}

impl IoErrorKind {
    /// A short description of the failure.
    pub fn description(&self) -> (r: &'static str)
        ensures
            r@ == kind_text(*self),
    {
        match self {
            IoErrorKind::WouldBlock => "operation would block",
            IoErrorKind::WriteZero => "write zero",
            IoErrorKind::ConnectionRefused => "connection refused",
            IoErrorKind::ConnectionReset => "connection reset",
            IoErrorKind::ConnectionAborted => "connection aborted",
            IoErrorKind::NotConnected => "not connected",
            IoErrorKind::BrokenPipe => "broken pipe",
            IoErrorKind::TimedOut => "timed out",
            IoErrorKind::Interrupted => "operation interrupted",
            IoErrorKind::UnexpectedEof => "unexpected end of file",
            IoErrorKind::Other => "other error",
        }
    }
}

/// Why a stream stopped taking part in updates.
#[derive(Clone, Copy, Debug, PartialEq, Eq)]
pub enum TcpStreamTerminalError {
    /// The stream has been terminated
    /// or is otherwise no longer active.
    NotConnected,
    /// The remote server reset the connection.
    Reset,
    /// An unexpected error occurred.
    Unexpected(IoErrorKind),
}

/// The text that describes the terminal error `e`.
pub open spec fn terminal_text(e: TcpStreamTerminalError) -> Seq<char> {
    match e {
        TcpStreamTerminalError::NotConnected => "Not Connected"@,
        TcpStreamTerminalError::Reset => "Reset"@,
        TcpStreamTerminalError::Unexpected(kind) => kind_text(kind),
    }
}

impl TcpStreamTerminalError {
    /// A human-readable description of the error.
    pub fn description(&self) -> (r: &'static str)
        ensures
            r@ == terminal_text(*self),
    {
        match self {
            TcpStreamTerminalError::NotConnected => "Not Connected",
            TcpStreamTerminalError::Reset => "Reset",
            TcpStreamTerminalError::Unexpected(kind) => kind.description(),
        }
    }
}

/// What the last cycle moved through one stream.
#[derive(Clone, Copy, Debug, PartialEq, Eq)]
pub struct TcpStreamDiagnostics {
    pub written: usize,
    pub read: usize,
}

impl TcpStreamDiagnostics {
    pub fn new() -> (r: Self)
        ensures
            r.written == 0,
            r.read == 0,
    {
        TcpStreamDiagnostics { written: 0, read: 0 }
    }
}

/// The chunks of a queue as byte sequences.
pub open spec fn chunks_view(q: Seq<VecDeque<u8>>) -> Seq<Seq<u8>> {
    q.map_values(|c: VecDeque<u8>| c@)
}

/// The chunks of `cs` laid end to end.
pub open spec fn flatten(cs: Seq<Seq<u8>>) -> Seq<u8>
    decreases cs.len(),
{
    if cs.len() == 0 {
        Seq::empty()
    } else {
        cs[0] + flatten(cs.drop_first())
    }
}

/// The outgoing queue after a write accepted `n` bytes of its front chunk:
/// the chunk goes once it is fully written, else its first `n` bytes go.
pub open spec fn drained(q: Seq<Seq<u8>>, n: nat) -> Seq<Seq<u8>> {
    if n == q[0].len() {
        q.drop_first()
    } else {
        q.update(0, q[0].subrange(n as int, q[0].len() as int))
    }
}

/// A write that accepts `n` bytes of a front chunk longer than `n` leaves the
/// chunk's other bytes at the front, in their order, and every later chunk as it was.
pub proof fn lemma_partial_write_keeps_rest(q: Seq<Seq<u8>>, n: nat)
    requires
        q.len() > 0,
        0 < n < q[0].len(),
    ensures
        drained(q, n).len() == q.len(),
        drained(q, n)[0].len() == q[0].len() - n,
        drained(q, n)[0] == q[0].subrange(n as int, q[0].len() as int),
        forall|i: int| 1 <= i < q.len() ==> #[trigger] drained(q, n)[i] == q[i],
{
}

/// A write that accepts a whole front chunk removes it, so where no queued
/// chunk is empty, no empty chunk comes to the front.
pub proof fn lemma_exact_write_pops_chunk(q: Seq<Seq<u8>>, n: nat)
    requires
        q.len() > 0,
        n == q[0].len(),
        forall|i: int| 0 <= i < q.len() ==> (#[trigger] q[i]).len() > 0,
    ensures
        drained(q, n) == q.drop_first(),
        drained(q, n).len() > 0 ==> drained(q, n)[0].len() > 0,
{
    if q.len() > 1 {
        assert(q[1].len() > 0);
    }
}

/// How many bytes of the front chunk of `q` a write reporting `n` accepted:
/// never more than the chunk holds, as only that chunk was offered.
pub open spec fn accepted(q: Seq<Seq<u8>>, n: usize) -> nat {
    if n <= q[0].len() {
        n as nat
    } else {
        q[0].len()
    }
}

/// `a + b`, or the largest `usize` where that does not fit.
pub open spec fn saturating_sum(a: usize, b: nat) -> usize {
    if a + b <= usize::MAX {
        (a + b) as usize
    } else {
        usize::MAX
    }
}

/// The read and write queues of one stream socket.
pub struct TcpStreamBuffer {
    terminal_error: Option<TcpStreamTerminalError>,
    bytes_read_last: usize,
    incoming: VecDeque<VecDeque<u8>>,
    outgoing: VecDeque<VecDeque<u8>>,
}

/// What a flush does after one write attempt.
#[derive(Clone, Copy, Debug, PartialEq, Eq)]
pub enum FlushStep {
    /// Write the new front chunk.
    Continue,
    /// The flush is over, with this outcome.
    Done(UpdateResult),
}

impl TcpStreamBuffer {
    pub closed spec fn incoming_view(&self) -> Seq<Seq<u8>> {
        chunks_view(self.incoming@)
    }

    pub closed spec fn outgoing_view(&self) -> Seq<Seq<u8>> {
        chunks_view(self.outgoing@)
    }

    pub closed spec fn spec_terminal_error(&self) -> Option<TcpStreamTerminalError> {
        self.terminal_error
    }

    pub closed spec fn spec_bytes_read_last(&self) -> usize {
        self.bytes_read_last
    }

    /// No queued outgoing chunk is empty.
    pub closed spec fn wf(&self) -> bool {
        forall|i: int| 0 <= i < self.outgoing@.len() ==> (#[trigger] self.outgoing@[i])@.len() > 0
    }

    /// A fresh buffer for a stream; building never fails and leaves the stream untouched.
    pub fn build<S>(socket: &S) -> (r: Result<Self, ()>)
        ensures
            r is Ok,
            r->Ok_0.wf(),
            r->Ok_0.incoming_view().len() == 0,
            r->Ok_0.outgoing_view().len() == 0,
            r->Ok_0.spec_terminal_error() is None,
            r->Ok_0.spec_bytes_read_last() == 0,
    {
        Ok(TcpStreamBuffer {
            terminal_error: None,
            bytes_read_last: 0,
            incoming: VecDeque::new(),
            outgoing: VecDeque::new(),
        })
    }

    /// Why the stream stopped, once it has.
    pub fn terminal_error(&self) -> (r: Option<TcpStreamTerminalError>)
        ensures
            r == self.spec_terminal_error(),
    {
        self.terminal_error
    }

    /// The capacity to reserve for the next read: twice what the last read
    /// brought, or the largest size where that does not fit.
    pub fn read_capacity(&self) -> (r: usize)
        ensures
            r == if 2 * self.spec_bytes_read_last() <= usize::MAX {
                2 * self.spec_bytes_read_last()
            } else {
                usize::MAX as int
            },
    {
        if self.bytes_read_last <= usize::MAX / 2 {
            self.bytes_read_last * 2
        } else {
            usize::MAX
        }
    }

    /// Applies what one read from the socket returned.
    ///
    /// Bytes read become one new chunk at the back of the incoming queue.
    /// `WouldBlock` is no error: nothing is queued. Any other failure is
    /// recorded as terminal and asks for the socket to be dropped.
    pub fn fill_read_bufs(
        &mut self,
        outcome: Result<Vec<u8>, IoErrorKind>,
        data: &mut TcpStreamDiagnostics,
    ) -> (r: UpdateResult)
        ensures
            old(self).wf() ==> final(self).wf(),
            final(self).outgoing_view() == old(self).outgoing_view(),
            final(data).written == old(data).written,
            match outcome {
                Ok(bytes) => {
                    &&& r is Ok
                    &&& final(data).read == bytes@.len()
                    &&& final(self).spec_bytes_read_last() == bytes@.len()
                    &&& final(self).incoming_view() == old(self).incoming_view().push(bytes@)
                    &&& final(self).spec_terminal_error() == old(self).spec_terminal_error()
                },
                Err(IoErrorKind::WouldBlock) => {
                    &&& r is Ok
                    &&& final(data).read == 0
                    &&& *final(self) == *old(self)
                },
                Err(kind) => {
                    &&& r == Err::<(), ErrorAction>(ErrorAction::Drop)
                    &&& final(data).read == 0
                    &&& final(self).spec_terminal_error() == Some(
                        TcpStreamTerminalError::Unexpected(kind),
                    )
                    &&& final(self).incoming_view() == old(self).incoming_view()
                    &&& final(self).spec_bytes_read_last() == old(self).spec_bytes_read_last()
                },
            },
    {
        match outcome {
            Ok(bytes) => {
                let n = bytes.len();
                let mut chunk: VecDeque<u8> = VecDeque::with_capacity(n);
                let mut i: usize = 0;
                while i < n
                    invariant
                        n == bytes@.len(),
                        0 <= i <= n,
                        chunk@ == bytes@.subrange(0, i as int),
                    decreases n - i,
                {
                    chunk.push_back(bytes[i]);
                    i = i + 1;
                    proof {
                        assert(chunk@ =~= bytes@.subrange(0, i as int));
                    }
                }
                proof {
                    assert(chunk@ =~= bytes@);
                }
                self.bytes_read_last = n;
                data.read = n;
                self.incoming.push_back(chunk);
                proof {
                    assert(self.incoming_view() =~= old(self).incoming_view().push(bytes@));
                }
                Ok(())
            },
            Err(IoErrorKind::WouldBlock) => {
                data.read = 0;
                Ok(())
            },
            Err(kind) => {
                data.read = 0;
                self.terminal_error = Some(TcpStreamTerminalError::Unexpected(kind));
                Err(ErrorAction::Drop)
            },
        }
    }
}

impl TcpStreamBuffer {
    /// Housekeeping beyond reading and writing; a stream needs none.
    pub fn additional_updates(&mut self, data: &mut TcpStreamDiagnostics) -> (r: UpdateResult)
        ensures
            r is Ok,
            *final(self) == *old(self),
            *final(data) == *old(data),
    {
        Ok(())
    }

    /// Queues `bytes` for sending, as one chunk behind those already queued.
    /// Nothing is queued for an empty slice.
    pub fn queue_write(&mut self, bytes: &[u8])
        ensures
            old(self).wf() ==> final(self).wf(),
            final(self).outgoing_view() == if bytes@.len() == 0 {
                old(self).outgoing_view()
            } else {
                old(self).outgoing_view().push(bytes@)
            },
            final(self).incoming_view() == old(self).incoming_view(),
            final(self).spec_terminal_error() == old(self).spec_terminal_error(),
            final(self).spec_bytes_read_last() == old(self).spec_bytes_read_last(),
    {
        let n = bytes.len();
        if n == 0 {
            return;
        }
        let mut chunk: VecDeque<u8> = VecDeque::with_capacity(n);
        let mut i: usize = 0;
        while i < n
            invariant
                n == bytes@.len(),
                0 <= i <= n,
                chunk@ == bytes@.subrange(0, i as int),
            decreases n - i,
        {
            chunk.push_back(bytes[i]);
            i = i + 1;
            proof {
                assert(chunk@ =~= bytes@.subrange(0, i as int));
            }
        }
        proof {
            assert(chunk@ =~= bytes@);
        }
        self.outgoing.push_back(chunk);
        proof {
            assert(self.outgoing_view() =~= old(self).outgoing_view().push(bytes@));
        }
    }

    /// Starts a flush: clears the count of written bytes and tells whether
    /// anything is queued.
    pub fn start_flush(&self, data: &mut TcpStreamDiagnostics) -> (r: bool)
        ensures
            final(data).written == 0,
            final(data).read == old(data).read,
            r == (self.outgoing_view().len() > 0),
    {
        data.written = 0;
        self.outgoing.len() > 0
    }

    /// The chunk that the next write sends, if any is queued.
    pub fn front_chunk(&self) -> (r: Option<&VecDeque<u8>>)
        ensures
            match r {
                Some(c) => self.outgoing_view().len() > 0 && c@ == self.outgoing_view()[0],
                None => self.outgoing_view().len() == 0,
            },
    {
        if self.outgoing.len() > 0 {
            Some(&self.outgoing[0])
        } else {
            None
        }
    }

    /// Applies what one vectored write of the front chunk returned, and says
    /// whether the flush goes on.
    ///
    /// Accepted bytes leave the front of the front chunk, which goes once it
    /// is fully written. Zero bytes, `WouldBlock` and `WriteZero` end the
    /// flush without error. A refused, reset, aborted or missing connection
    /// ends it with `NotConnected`; any other failure with `Unexpected`; both
    /// ask for the socket to be dropped.
    pub fn flush_write_bufs(
        &mut self,
        outcome: Result<usize, IoErrorKind>,
        data: &mut TcpStreamDiagnostics,
    ) -> (r: FlushStep)
        ensures
            old(self).wf() ==> final(self).wf(),
            final(self).incoming_view() == old(self).incoming_view(),
            final(self).spec_bytes_read_last() == old(self).spec_bytes_read_last(),
            final(data).read == old(data).read,
            match outcome {
                Ok(n) => if n == 0 || old(self).outgoing_view().len() == 0 {
                    &&& r == FlushStep::Done(Ok(()))
                    &&& *final(self) == *old(self)
                    &&& final(data).written == old(data).written
                } else {
                    &&& final(data).written == saturating_sum(
                        old(data).written,
                        accepted(old(self).outgoing_view(), n),
                    )
                    &&& final(self).outgoing_view() == drained(
                        old(self).outgoing_view(),
                        accepted(old(self).outgoing_view(), n),
                    )
                    &&& final(self).spec_terminal_error() == old(self).spec_terminal_error()
                    &&& r == if final(self).outgoing_view().len() > 0 {
                        FlushStep::Continue
                    } else {
                        FlushStep::Done(Ok(()))
                    }
                },
                Err(kind) => {
                    &&& final(data).written == old(data).written
                    &&& final(self).outgoing_view() == old(self).outgoing_view()
                    &&& if is_benign_write_stop(kind) {
                        &&& r == FlushStep::Done(Ok(()))
                        &&& final(self).spec_terminal_error() == old(self).spec_terminal_error()
                    } else if is_disconnect(kind) {
                        &&& r == FlushStep::Done(Err(ErrorAction::Drop))
                        &&& final(self).spec_terminal_error() == Some(
                            TcpStreamTerminalError::NotConnected,
                        )
                    } else {
                        &&& r == FlushStep::Done(Err(ErrorAction::Drop))
                        &&& final(self).spec_terminal_error() == Some(
                            TcpStreamTerminalError::Unexpected(kind),
                        )
                    }
                },
            },
    {
        match outcome {
            Ok(accepted_n) => {
                if accepted_n == 0 || self.outgoing.len() == 0 {
                    return FlushStep::Done(Ok(()));
                }
                let ghost q = self.outgoing@;
                let mut front = self.outgoing.pop_front().unwrap();
                let len = front.len();
                let n = if accepted_n <= len {
                    accepted_n
                } else {
                    len
                };
                data.written = if data.written <= usize::MAX - n {
                    data.written + n
                } else {
                    usize::MAX
                };
                if n < len {
                    let ghost whole = front@;
                    let mut k: usize = 0;
                    while k < n
                        invariant
                            0 <= k <= n,
                            n < len,
                            len == whole.len(),
                            front@ == whole.subrange(k as int, len as int),
                        decreases n - k,
                    {
                        front.pop_front();
                        k = k + 1;
                    }
                    self.outgoing.push_front(front);
                    proof {
                        assert(self.outgoing@ =~= q.update(0, front));
                        assert(self.outgoing_view() =~= drained(old(self).outgoing_view(), n as nat));
                        if old(self).wf() {
                            assert forall|i: int| 0 <= i < self.outgoing@.len() implies (
                            #[trigger] self.outgoing@[i])@.len() > 0 by {
                                if i > 0 {
                                    assert(self.outgoing@[i] == q[i]);
                                }
                            }
                        }
                    }
                } else {
                    proof {
                        assert(self.outgoing_view() =~= drained(old(self).outgoing_view(), n as nat));
                        if old(self).wf() {
                            assert forall|i: int| 0 <= i < self.outgoing@.len() implies (
                            #[trigger] self.outgoing@[i])@.len() > 0 by {
                                assert(self.outgoing@[i] == q[i + 1]);
                            }
                        }
                    }
                }
                if self.outgoing.len() > 0 {
                    FlushStep::Continue
                } else {
                    FlushStep::Done(Ok(()))
                }
            },
            Err(kind) => match kind {
                IoErrorKind::WouldBlock | IoErrorKind::WriteZero => FlushStep::Done(Ok(())),
                IoErrorKind::ConnectionRefused | IoErrorKind::ConnectionReset
                | IoErrorKind::ConnectionAborted | IoErrorKind::NotConnected => {
                    self.terminal_error = Some(TcpStreamTerminalError::NotConnected);
                    FlushStep::Done(Err(ErrorAction::Drop))
                },
                _ => {
                    self.terminal_error = Some(TcpStreamTerminalError::Unexpected(kind));
                    FlushStep::Done(Err(ErrorAction::Drop))
                },
            },
        }
    }
}

/// A read-only walk over the incoming bytes of one buffer, chunk by chunk
/// and byte by byte, in arrival order. The buffer stays borrowed, and so
/// unchanged, for as long as the walk lives.
pub struct PeakIter<'a> {
    buffer: &'a TcpStreamBuffer,
    chunk: usize,
    pos: usize,
}

impl<'a> PeakIter<'a> {
    pub closed spec fn source(&self) -> TcpStreamBuffer {
        *self.buffer
    }

    /// The bytes that the walk has yet to yield.
    pub closed spec fn remaining(&self) -> Seq<u8> {
        let cs = self.buffer.incoming_view();
        if self.chunk < cs.len() {
            cs[self.chunk as int].subrange(self.pos as int, cs[self.chunk as int].len() as int)
                + flatten(cs.subrange(self.chunk + 1, cs.len() as int))
        } else {
            Seq::empty()
        }
    }

    pub closed spec fn wf(&self) -> bool {
        let cs = self.buffer.incoming_view();
        &&& self.chunk <= cs.len()
        &&& self.chunk < cs.len() ==> self.pos <= cs[self.chunk as int].len()
    }

    /// Starts a walk over every incoming byte of `buffer`.
    pub fn new(buffer: &'a TcpStreamBuffer) -> (r: Self)
        ensures
            r.wf(),
            r.source() == *buffer,
            r.remaining() == flatten(buffer.incoming_view()),
    {
        let r = PeakIter { buffer, chunk: 0, pos: 0 };
        proof {
            let cs = buffer.incoming_view();
            if cs.len() > 0 {
                assert(cs.subrange(1, cs.len() as int) =~= cs.drop_first());
                assert(cs[0].subrange(0, cs[0].len() as int) =~= cs[0]);
            }
        }
        r
    }

    /// The next incoming byte, or `None` once all have been yielded.
    pub fn next(&mut self) -> (r: Option<u8>)
        requires
            old(self).wf(),
        ensures
            final(self).wf(),
            final(self).source() == old(self).source(),
            match r {
                Some(b) => {
                    &&& old(self).remaining().len() > 0
                    &&& b == old(self).remaining()[0]
                    &&& final(self).remaining() == old(self).remaining().drop_first()
                },
                None => {
                    &&& old(self).remaining().len() == 0
                    &&& final(self).remaining() == old(self).remaining()
                },
            },
    {
        let ghost start = self.remaining();
        loop
            invariant
                self.wf(),
                self.buffer == old(self).buffer,
                self.remaining() == start,
                start == old(self).remaining(),
            decreases self.buffer.incoming@.len() - self.chunk,
        {
            let ghost cs = self.buffer.incoming_view();
            if self.chunk >= self.buffer.incoming.len() {
                return None;
            }
            let c = &self.buffer.incoming[self.chunk];
            if self.pos < c.len() {
                let b = c[self.pos];
                proof {
                    let cur = cs[self.chunk as int];
                    let rest = flatten(cs.subrange(self.chunk + 1, cs.len() as int));
                    assert(cur == c@);
                    assert((cur.subrange(self.pos as int, cur.len() as int) + rest).drop_first()
                        =~= cur.subrange(self.pos + 1, cur.len() as int) + rest);
                }
                self.pos = self.pos + 1;
                return Some(b);
            }
            proof {
                let next = self.chunk + 1;
                if next < cs.len() {
                    assert(cs.subrange(next as int, cs.len() as int).drop_first() =~= cs.subrange(
                        next + 1,
                        cs.len() as int,
                    ));
                    assert(cs[next as int].subrange(0, cs[next as int].len() as int) =~= cs[next as int]);
                    assert(cs.subrange(next as int, cs.len() as int)[0] == cs[next as int]);
                } else {
                    assert(cs.subrange(next as int, cs.len() as int) =~= Seq::<Seq<u8>>::empty());
                }
                assert(cs[self.chunk as int].subrange(self.pos as int, cs[self.chunk as int].len() as int)
                    =~= Seq::<u8>::empty());
            }
            self.chunk = self.chunk + 1;
            self.pos = 0;
        }
    }
}

/// The application's handle to a registered stream: the sole owner of its buffer.
pub struct TcpStream(OwnedBuffer);

impl TcpStream {
    pub closed spec fn key(&self) -> u64 {
        self.0.key()
    }

    /// Starts a walk over the incoming bytes of this stream's buffer in `manager`;
    /// `None` if `manager` holds no entry for this stream.
    pub fn peak_iter<'a, S>(
        &self,
        manager: &'a SocketManger<TcpStreamBuffer, S, TcpStreamDiagnostics>,
    ) -> (r: Option<PeakIter<'a>>)
        ensures
            match r {
                Some(it) => exists|i: int|
                    0 <= i < manager.entries().len() && (#[trigger] manager.entries()[i]).key()
                        == self.key() && it.wf() && it.source() == manager.entries()[i].spec_buffer()
                        && it.remaining() == flatten(manager.entries()[i].spec_buffer().incoming_view()),
                None => forall|i: int|
                    0 <= i < manager.entries().len() ==> (#[trigger] manager.entries()[i]).key()
                        != self.key(),
            },
    {
        match manager.position(&self.0) {
            Some(i) => {
                let it = PeakIter::new(manager.buffer(i));
                assert(manager.entries()[i as int].key() == self.key());
                Some(it)
            },
            None => None,
        }
    }

    /// Why this stream's socket stopped, as recorded in its buffer in `manager`;
    /// `None` while it runs or if `manager` holds no entry for this stream.
    pub fn terminal_error<S>(
        &self,
        manager: &SocketManger<TcpStreamBuffer, S, TcpStreamDiagnostics>,
    ) -> (r: Option<TcpStreamTerminalError>)
        ensures
            (forall|i: int|
                0 <= i < manager.entries().len() ==> (#[trigger] manager.entries()[i]).key()
                    != self.key()) ==> r is None,
            forall|i: int|
                0 <= i < manager.entries().len() && (#[trigger] manager.entries()[i]).key()
                    == self.key() && (forall|j: int|
                    0 <= j < i ==> (#[trigger] manager.entries()[j]).key() != self.key())
                    ==> r == manager.entries()[i].spec_buffer().spec_terminal_error(),
    {
        match manager.position(&self.0) {
            Some(i) => manager.buffer(i).terminal_error(),
            None => None,
        }
    }

    /// Queues `bytes` for sending on this stream's buffer in `manager`.
    /// Returns whether `manager` holds an entry for this stream; if it does
    /// not, nothing changes.
    pub fn write<S>(
        &self,
        manager: &mut SocketManger<TcpStreamBuffer, S, TcpStreamDiagnostics>,
        bytes: &[u8],
    ) -> (r: bool)
        ensures
            final(manager).next_key() == old(manager).next_key(),
            r == exists|i: int|
                0 <= i < old(manager).entries().len() && (#[trigger] old(manager).entries()[i]).key()
                    == self.key(),
            !r ==> final(manager).entries() == old(manager).entries(),
            r ==> exists|i: int|
                0 <= i < old(manager).entries().len() && (#[trigger] old(manager).entries()[i]).key()
                    == self.key() && final(manager).entries() == old(manager).entries().update(
                    i,
                    with_buffer(old(manager).entries()[i], final(manager).entries()[i].spec_buffer()),
                ) && final(manager).entries()[i].spec_buffer().outgoing_view() == (if bytes@.len()
                    == 0 {
                    old(manager).entries()[i].spec_buffer().outgoing_view()
                } else {
                    old(manager).entries()[i].spec_buffer().outgoing_view().push(bytes@)
                }) && final(manager).entries()[i].spec_buffer().incoming_view()
                    == old(manager).entries()[i].spec_buffer().incoming_view()
                    && final(manager).entries()[i].spec_buffer().spec_terminal_error()
                    == old(manager).entries()[i].spec_buffer().spec_terminal_error()
                    && final(manager).entries()[i].spec_buffer().spec_bytes_read_last()
                    == old(manager).entries()[i].spec_buffer().spec_bytes_read_last() && (old(
                    manager,
                ).entries()[i].spec_buffer().wf() ==> final(manager).entries()[i].spec_buffer().wf()),
            old(manager).wf() ==> final(manager).wf(),
    {
        match manager.position(&self.0) {
            Some(i) => {
                let ghost before = manager.entries();
                let b = manager.buffer_mut(i);
                b.queue_write(bytes);
                assert(before[i as int].key() == self.key());
                true
            },
            None => false,
        }
    }
}

/// All registered stream sockets.
pub struct TcpStreamManager<S> {
    pub inner: SocketManger<TcpStreamBuffer, S, TcpStreamDiagnostics>,
}

impl<S> TcpStreamManager<S> {
    pub fn new() -> (r: Self)
        ensures
            r.inner.wf(),
            r.inner.entries().len() == 0,
            r.inner.next_key() == 0,
    {
        TcpStreamManager { inner: SocketManger::new() }
    }

    /// Registers `stream` with a fresh buffer and returns its handle.
    ///
    /// Gives `None`, registering nothing, while networking is not initialised
    /// or once every registry key has been handed out.
    pub fn register(&mut self, stream: S, initialised: bool) -> (r: Option<TcpStream>)
        ensures
            r is Some <==> (initialised && old(self).inner.next_key() < u64::MAX),
            old(self).inner.wf() ==> final(self).inner.wf(),
            match r {
                Some(t) => {
                    let e = final(self).inner.entries().last();
                    &&& t.key() == old(self).inner.next_key()
                    &&& final(self).inner.next_key() == old(self).inner.next_key() + 1
                    &&& final(self).inner.entries().len() == old(self).inner.entries().len() + 1
                    &&& final(self).inner.entries().drop_last() == old(self).inner.entries()
                    &&& e.key() == t.key()
                    &&& e.is_owned()
                    &&& !e.is_flagged()
                    &&& e.spec_socket() == Some(stream)
                    &&& e.spec_data() == TcpStreamDiagnostics { written: 0, read: 0 }
                    &&& e.spec_buffer().wf()
                    &&& e.spec_buffer().incoming_view().len() == 0
                    &&& e.spec_buffer().outgoing_view().len() == 0
                    &&& e.spec_buffer().spec_terminal_error() is None
                },
                None => *final(self) == *old(self),
            },
    {
        if !initialised || self.inner.is_exhausted() {
            return None;
        }
        let built = TcpStreamBuffer::build(&stream);
        match self.inner.register(stream, built, TcpStreamDiagnostics::new()) {
            Ok(owned) => Some(TcpStream(owned)),
            Err(_) => None,
        }
    }

    /// The application gives up `stream`: the next update cycle retires its entry.
    pub fn release(&mut self, stream: TcpStream)
        ensures
            final(self).inner.next_key() == old(self).inner.next_key(),
            final(self).inner.entries() == crate::socket_manager::released_all(
                old(self).inner.entries(),
                stream.key(),
            ),
            old(self).inner.wf() ==> final(self).inner.wf(),
    {
        self.inner.release(stream.0);
    }
}

} // verus!
