//! The connection coordinator.
//!
//! One storage handle is shared between the background batch writer and
//! the foreground query path, and at any instant at most one of them may
//! touch it.  The coordinator is that discipline made explicit: the holder
//! is a single value, so the type itself rules out the writer and a reader
//! holding the handle together.  The writer acquires the handle once per
//! batch and releases it at the batch boundary; a query that arrives
//! mid-batch registers as waiting and is handed the handle at that
//! boundary, so it waits for the in-flight batch only, never for the whole
//! indexing run.

use vstd::prelude::*;

verus! {

/// Who holds the storage handle.  A single value: two holders at once
/// cannot even be stated.
#[derive(Debug, Clone, Copy, PartialEq, Eq, Structural)]
pub enum Holder {
    Nobody,
    Writer,
    Reader,
}

/// The handle could not be granted at all; the caller surfaces this as a
/// connection-unavailable condition.
#[derive(Debug, Clone, Copy, PartialEq, Eq, Structural)]
pub struct ConnectionUnavailable;

/// The coordinator's state: the present holder, and whether a foreground
/// query is waiting for the handle.
#[derive(Debug, Clone, Copy, PartialEq, Eq, Structural)]
pub struct Coordinator {
    pub holder: Holder,
    pub reader_waiting: bool,
}

/// What releasing the writer's handle at a batch boundary does: a waiting
/// reader is handed the handle at once; otherwise the handle goes free.
pub open spec fn spec_release_writer(c: Coordinator) -> Coordinator {
    if c.reader_waiting {
        Coordinator { holder: Holder::Reader, reader_waiting: false }
    } else {
        Coordinator { holder: Holder::Nobody, reader_waiting: false }
    }
}

impl Coordinator {
    /// A fresh coordinator: the handle is free and nobody waits.
    pub fn new() -> (c: Coordinator)
        ensures
            c.holder is Nobody,
            !c.reader_waiting,
    {
        Coordinator { holder: Holder::Nobody, reader_waiting: false }
    }

    /// The writer asks for the handle for one batch.  It is granted only
    /// when the handle is free and no reader is waiting: a waiting query
    /// goes first, which keeps a long indexing run from starving search.
    pub fn acquire_writer(&mut self) -> (granted: bool)
        ensures
            granted == (old(self).holder is Nobody && !old(self).reader_waiting),
            granted ==> *final(self) == (Coordinator {
                holder: Holder::Writer,
                reader_waiting: false,
            }),
            !granted ==> *final(self) == *old(self),
    {
        if matches!(self.holder, Holder::Nobody) && !self.reader_waiting {
            self.holder = Holder::Writer;
            true
        } else {
            false
        }
    }

    /// A foreground query asks for the handle.  A free handle is granted
    /// at once; while the writer is mid-batch the query is registered as
    /// waiting; a second concurrent reader is refused, as the foreground
    /// runs one query at a time.
    pub fn acquire_reader(&mut self) -> (r: Result<bool, ConnectionUnavailable>)
        ensures
            match r {
                Ok(granted) => {
                    &&& granted == (old(self).holder is Nobody)
                    &&& granted ==> *final(self) == (Coordinator {
                        holder: Holder::Reader,
                        reader_waiting: false,
                    })
                    &&& !granted ==> old(self).holder is Writer && *final(self) == (Coordinator {
                        holder: Holder::Writer,
                        reader_waiting: true,
                    })
                },
                Err(_) => old(self).holder is Reader && *final(self) == *old(self),
            },
    {
        match self.holder {
            Holder::Nobody => {
                self.holder = Holder::Reader;
                self.reader_waiting = false;
                Ok(true)
            },
            Holder::Writer => {
                self.reader_waiting = true;
                Ok(false)
            },
            Holder::Reader => Err(ConnectionUnavailable),
        }
    }

    /// The writer releases the handle at a batch boundary.
    pub fn release_writer(&mut self)
        requires
            old(self).holder is Writer,
        ensures
            *final(self) == spec_release_writer(*old(self)),
    {
        if self.reader_waiting {
            self.holder = Holder::Reader;
            self.reader_waiting = false;
        } else {
            self.holder = Holder::Nobody;
        }
    }

    /// The reader releases the handle after its query.
    pub fn release_reader(&mut self)
        requires
            old(self).holder is Reader,
        ensures
            final(self).holder is Nobody,
            final(self).reader_waiting == old(self).reader_waiting,
    {
        self.holder = Holder::Nobody;
    }
}

/// A query issued while a batch is in flight is granted the handle at that
/// batch's boundary: releasing the writer with a reader waiting hands the
/// handle to the reader, never back to the writer and never to nobody, so
/// the query completes once the in-flight transaction ends.
pub proof fn lemma_waiting_reader_granted_at_batch_boundary(c: Coordinator)
    requires
        c.holder is Writer,
        c.reader_waiting,
    ensures
        spec_release_writer(c).holder is Reader,
        !spec_release_writer(c).reader_waiting,
{
}

} // verus!
