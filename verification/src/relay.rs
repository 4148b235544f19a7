//! The transport-facing pieces the core owns: a bounded in-process envelope
//! queue for tests and local delivery, and the identity record of a networked
//! relay. The asynchronous transport itself is an external collaborator; the
//! core only hands envelopes across this boundary.

use vstd::prelude::*;

verus! {

use crate::envelope::Envelope;

/// Default capacity of the inbound queue.
pub const DEFAULT_QUEUE_CAPACITY: usize = 256;

/// In-process relay: a bounded first-in-first-out queue of envelopes. On a
/// full queue the policy is drop-oldest, so a slow consumer loses the oldest
/// traffic first and memory stays bounded.
pub struct InMemoryRelay {
    id: String,
    queue: Vec<Envelope>,
    capacity: usize,
}

impl InMemoryRelay {
    /// The relay's identity.
    pub closed spec fn spec_id(&self) -> Seq<char> {
        self.id@
    }

    /// The queued envelopes, oldest first.
    pub closed spec fn spec_queue(&self) -> Seq<Envelope> {
        self.queue@
    }

    /// The queue's capacity.
    pub closed spec fn spec_capacity(&self) -> nat {
        self.capacity as nat
    }

    /// The queue never outgrows its capacity.
    pub open spec fn wf(&self) -> bool {
        self.spec_capacity() >= 1 && self.spec_queue().len() <= self.spec_capacity()
    }

    /// An empty relay under the default capacity.
    pub fn new(id: &str) -> (r: Self)
        ensures
            r.wf(),
            r.spec_id() == id@,
            r.spec_queue() == Seq::<Envelope>::empty(),
            r.spec_capacity() == DEFAULT_QUEUE_CAPACITY,
    {
        Self { id: id.to_owned(), queue: Vec::new(), capacity: DEFAULT_QUEUE_CAPACITY }
    }

    /// An empty relay with a chosen capacity.
    pub fn with_capacity(id: &str, capacity: usize) -> (r: Self)
        requires
            capacity >= 1,
        ensures
            r.wf(),
            r.spec_id() == id@,
            r.spec_queue() == Seq::<Envelope>::empty(),
            r.spec_capacity() == capacity,
    {
        Self { id: id.to_owned(), queue: Vec::new(), capacity }
    }

    /// The relay's identity.
    pub fn id(&self) -> (r: &str)
        ensures
            r@ == self.spec_id(),
    {
        self.id.as_str()
    }

    /// Number of envelopes waiting.
    pub fn len(&self) -> (r: usize)
        ensures
            r == self.spec_queue().len(),
    {
        self.queue.len()
    }

    /// Enqueues an envelope; when the queue is full, the oldest one is
    /// dropped to make room.
    pub fn publish(&mut self, env: Envelope)
        requires
            old(self).wf(),
        ensures
            final(self).wf(),
            final(self).spec_id() == old(self).spec_id(),
            final(self).spec_capacity() == old(self).spec_capacity(),
            old(self).spec_queue().len() < old(self).spec_capacity() ==> final(self).spec_queue()
                == old(self).spec_queue().push(env),
            old(self).spec_queue().len() == old(self).spec_capacity() ==> final(self).spec_queue()
                == old(self).spec_queue().drop_first().push(env),
    {
        if self.queue.len() >= self.capacity {
            let ghost pre = self.queue@;
            self.queue.remove(0);
            proof {
                assert(self.queue@ =~= pre.drop_first());
            }
        }
        self.queue.push(env);
    }

    /// Takes the oldest queued envelope, if any.
    pub fn take_next(&mut self) -> (r: Option<Envelope>)
        requires
            old(self).wf(),
        ensures
            final(self).wf(),
            final(self).spec_id() == old(self).spec_id(),
            final(self).spec_capacity() == old(self).spec_capacity(),
            old(self).spec_queue().len() == 0 ==> r is None && final(self).spec_queue() == old(self).spec_queue(),
            old(self).spec_queue().len() > 0 ==> r == Some(old(self).spec_queue()[0]) && final(self).spec_queue() == old(self).spec_queue().drop_first(),
    {
        if self.queue.len() == 0 {
            None
        } else {
            let ghost pre = self.queue@;
            let e = self.queue.remove(0);
            proof {
                assert(self.queue@ =~= pre.drop_first());
            }
            Some(e)
        }
    }
}

/// Identity record of a networked relay adapter; the connection itself lives
/// with the transport collaborator.
pub struct NostrRelay {
    id: String,
    url: String,
}

impl NostrRelay {
    /// The relay's identity.
    pub closed spec fn spec_id(&self) -> Seq<char> {
        self.id@
    }

    /// The relay's URL.
    pub closed spec fn spec_url(&self) -> Seq<char> {
        self.url@
    }

    /// A relay record identified by its URL.
    pub fn new(url: &str) -> (r: Self)
        ensures
            r.spec_id() == url@,
            r.spec_url() == url@,
    {
        Self { id: url.to_owned(), url: url.to_owned() }
    }

    /// The relay's identity.
    pub fn id(&self) -> (r: &str)
        ensures
            r@ == self.spec_id(),
    {
        self.id.as_str()
    }

    /// The relay's URL.
    pub fn url(&self) -> (r: &str)
        ensures
            r@ == self.spec_url(),
    {
        self.url.as_str()
    }
}

} // verus!
