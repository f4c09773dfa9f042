use vstd::prelude::*;
use crate::tcp_stream::IoErrorKind;

verus! {

/// Whether a polled operation has completed.
#[derive(Clone, Copy, Debug, PartialEq, Eq)]
pub enum Readiness {
    Ready,
    /// Not yet: the caller is to be woken and poll again.
    Pending,
}

/// A single-shot countdown to an expiry instant, given in nanoseconds from an
/// origin that the caller fixes.
#[derive(Clone, Copy, Debug, PartialEq, Eq)]
pub struct IoTimer {
    expiry: u64,
}

impl IoTimer {
    pub closed spec fn spec_expiry(&self) -> u64 {
        self.expiry
    }

    pub fn new(expiry: u64) -> (r: Self)
        ensures
            r.spec_expiry() == expiry,
    {
        IoTimer { expiry }
    }

    /// Moves the expiry instant; returns the timer for further calls.
    pub fn reset(&mut self, new_expiry: u64) -> (r: &mut Self)
        ensures
            r.spec_expiry() == new_expiry,
            *final(self) == *final(r),
    {
        self.expiry = new_expiry;
        self
    }

    pub fn expires(&self) -> (r: u64)
        ensures
            r == self.spec_expiry(),
    {
        self.expiry
    }

    /// Ready once `now` has reached the expiry instant.
    pub fn poll(&self, now: u64) -> (r: Readiness)
        ensures
            r == (if now >= self.spec_expiry() {
                Readiness::Ready
            } else {
                Readiness::Pending
            }),
    {
        if now >= self.expiry {
            Readiness::Ready
        } else {
            Readiness::Pending
        }
    }
}

/// A writability signal that is pending on its first poll and ready on every
/// later one.
#[derive(Debug)]
pub struct QuinnPoller(bool);

impl QuinnPoller {
    pub closed spec fn was_polled(&self) -> bool {
        self.0
    }

    pub fn new() -> (r: Self)
        ensures
            !r.was_polled(),
    {
        QuinnPoller(false)
    }

    pub fn poll_writable(&mut self) -> (r: Readiness)
        ensures
            r == (if old(self).was_polled() {
                Readiness::Ready
            } else {
                Readiness::Pending
            }),
            final(self).was_polled(),
    {
        if self.0 {
            return Readiness::Ready;
        }
        self.0 = true;
        Readiness::Pending
    }
}

/// What one poll of a datagram receive reports.
#[derive(Clone, Copy, Debug, PartialEq, Eq)]
pub enum RecvPoll {
    /// This many datagrams were received.
    Received(usize),
    /// Nothing to receive yet: the caller is to be woken and poll again.
    Pending,
    Failed(IoErrorKind),
}

/// Classifies what one non-blocking receive returned: `WouldBlock` suspends,
/// anything else completes the poll.
pub fn recv_poll(outcome: Result<usize, IoErrorKind>) -> (r: RecvPoll)
    ensures
        r == (match outcome {
            Ok(n) => RecvPoll::Received(n),
            Err(IoErrorKind::WouldBlock) => RecvPoll::Pending,
            Err(kind) => RecvPoll::Failed(kind),
        }),
{
    match outcome {
        Ok(n) => RecvPoll::Received(n),
        Err(IoErrorKind::WouldBlock) => RecvPoll::Pending,
        Err(kind) => RecvPoll::Failed(kind),
    }
}

} // verus!
