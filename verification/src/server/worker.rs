//! The bounded queue of requests.
use crate::text;
use vstd::prelude::*;

verus! {

/// How many requests may wait, unless told otherwise.
pub const DEFAULT_QUEUE_CAPACITY: usize = 64;

/// Why a request was not taken.
#[derive(Debug, Clone, Copy, PartialEq, Eq, Structural)]
pub enum WorkerError {
    QueueFull(usize),
}

impl WorkerError {
    /// The error's full text.
    pub open spec fn text(self) -> Seq<char> {
        match self {
            WorkerError::QueueFull(n) => "inference queue is full (max "@ + text::decimal(n as nat) + " pending)"@,
        }
    }

    /// The error's full text.
    pub fn message(&self) -> (r: String)
        ensures
            r@ == self.text(),
    {
        match self {
            WorkerError::QueueFull(n) => {
                let head: String = text::joined("inference queue is full (max ", &text::decimal_text(*n as u64));
                text::joined(&head, " pending)")
            },
        }
    }
}

/// Whether a stream of tokens goes on: somebody still listens, and fewer have been sent than were
/// asked for.
pub fn goes_on(sent: bool, count: u64, max_tokens: u64) -> (r: bool)
    ensures
        r == (sent && count < max_tokens),
{
    sent && count < max_tokens
}

/// What became of a request that was handed to the queue.
#[derive(Debug, Clone, Copy, PartialEq, Eq, Structural)]
pub enum Handed {
    Taken,
    /// No room was left.
    Full,
    /// Nobody takes requests any more.
    Closed,
}

/// A queue seen from outside: how many requests it holds at most, and how many it had no room for.
#[derive(Debug, Clone, Copy, PartialEq, Eq, Structural)]
pub struct Queue {
    pub capacity: usize,
    pub rejected: u64,
}

impl Queue {
    /// A queue for so many requests, but for one at least.
    pub fn with_capacity(capacity: usize) -> (r: Queue)
        ensures
            r.capacity == (if capacity == 0 {
                1
            } else {
                capacity
            }),
            r.rejected == 0,
    {
        Queue { capacity: if capacity == 0 { 1 } else { capacity }, rejected: 0 }
    }

    /// Answers for a request that was handed to the queue. A full queue counts it as rejected; a
    /// closed one answers the same but counts nothing.
    pub fn enqueue(&mut self, handed: Handed) -> (r: Result<(), WorkerError>)
        ensures
            final(self).capacity == old(self).capacity,
            final(self).rejected == (if handed is Full && old(self).rejected < u64::MAX {
                old(self).rejected + 1
            } else {
                old(self).rejected as int
            }),
            r == (match handed {
                Handed::Taken => Ok::<(), WorkerError>(()),
                _ => Err(WorkerError::QueueFull(old(self).capacity)),
            }),
    {
        match handed {
            Handed::Taken => Ok(()),
            Handed::Full => {
                if self.rejected < u64::MAX {
                    self.rejected = self.rejected + 1;
                }
                Err(WorkerError::QueueFull(self.capacity))
            },
            Handed::Closed => Err(WorkerError::QueueFull(self.capacity)),
        }
    }

    /// How many requests wait, where there is room for `free` more.
    pub fn queue_depth(&self, free: usize) -> (r: usize)
        requires
            free <= self.capacity,
        ensures
            r == self.capacity - free,
    {
        self.capacity - free
    }
}

} // verus!
