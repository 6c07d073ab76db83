use vstd::prelude::*;

use crate::privilege::Privilege;

verus! {

/// Why a send into the core was refused.
#[derive(Clone, Copy, PartialEq, Eq, Structural, Debug)]
pub enum SendError {
    /// There is no live receiver for the message: the core has halted, or no
    /// endpoint is registered under the sender's identity.
    ChannelClosed,
    /// The bounded queue is full. This is backpressure, not a fault: the
    /// sender may retry once the core has drained the queue.
    CapacityExceeded,
}

/// A diagnostic record of one rejected operation: the sending bus and the
/// address its privilege claimed.
#[derive(Clone, Copy, PartialEq, Eq, Structural, Debug)]
pub struct Violation {
    /// `remote_id` of the bus whose message was rejected.
    pub id: u32,
    /// The address the message's privilege carried.
    pub address: u32,
}

/// A record of one streamed value the core consumed, tagged with the identity
/// of the bus whose endpoint delivered it.
#[derive(Clone, Copy, PartialEq, Eq, Structural, Debug)]
pub struct Observation {
    /// `remote_id` of the bus that registered the endpoint.
    pub id: u32,
    /// The value taken from the endpoint.
    pub value: u32,
}

/// The two registration slots a bus may hold with the core: `Control` is
/// established by an incept envelope, `Data` by a stream envelope. A bus can
/// carry both at once, under the same identity.
#[derive(Clone, Copy, PartialEq, Eq, Structural, Debug)]
pub enum SlotKind {
    Control,
    Data,
}

/// One unit of communication crossing the bus boundary: a payload together
/// with the sender's privilege snapshot and its bus identity. The identity
/// always equals the `remote_id` assigned to the sending bus at acquisition.
pub struct Com<T> {
    /// The payload.
    pub message: T,
    /// The sender's privilege at send time.
    pub privilege: Privilege,
    /// The `remote_id` of the sending bus.
    pub id: u32,
}

/// A bounded FIFO endpoint for streamed 32-bit values. A peripheral creates
/// one, hands it to the core inside an incept or stream envelope, and the core
/// drains it front first. The endpoint reports closure once it is empty.
pub struct StreamEndpoint {
    values: Vec<u32>,
    capacity: usize,
}

impl View for StreamEndpoint {
    type V = Seq<u32>;

    /// The pending values, oldest first.
    closed spec fn view(&self) -> Seq<u32> {
        self.values@
    }
}

impl StreamEndpoint {
    /// The bound the endpoint was created with.
    pub closed spec fn spec_capacity(&self) -> usize {
        self.capacity
    }

    /// An endpoint never holds more values than its bound.
    pub open spec fn wf(&self) -> bool {
        self@.len() <= self.spec_capacity()
    }

    pub fn new(capacity: usize) -> (e: StreamEndpoint)
        ensures
            e@ == Seq::<u32>::empty(),
            e.spec_capacity() == capacity,
            e.wf(),
    {
        StreamEndpoint { values: Vec::new(), capacity }
    }

    #[verifier::when_used_as_spec(spec_capacity)]
    pub fn capacity(&self) -> (c: usize)
        ensures
            c == self.spec_capacity(),
    {
        self.capacity
    }

    pub fn len(&self) -> (n: usize)
        ensures
            n == self@.len(),
    {
        self.values.len()
    }

    /// Enqueues one value, refusing it when the endpoint is at its bound.
    pub fn push_value(&mut self, value: u32) -> (r: Result<(), SendError>)
        requires
            old(self).wf(),
        ensures
            final(self).wf(),
            final(self).spec_capacity() == old(self).spec_capacity(),
            old(self)@.len() < old(self).spec_capacity() ==> {
                &&& r == Ok::<(), SendError>(())
                &&& final(self)@ == old(self)@.push(value)
            },
            old(self)@.len() >= old(self).spec_capacity() ==> {
                &&& r == Err::<(), SendError>(SendError::CapacityExceeded)
                &&& final(self)@ == old(self)@
            },
    {
        if self.values.len() < self.capacity {
            self.values.push(value);
            Ok(())
        } else {
            Err(SendError::CapacityExceeded)
        }
    }

    /// Dequeues the oldest pending value, or reports closure with `None` when
    /// the endpoint is empty.
    pub fn take_next(&mut self) -> (r: Option<u32>)
        requires
            old(self).wf(),
        ensures
            final(self).wf(),
            final(self).spec_capacity() == old(self).spec_capacity(),
            old(self)@.len() == 0 ==> r is None && final(self)@ == old(self)@,
            old(self)@.len() > 0 ==> {
                &&& r == Some(old(self)@[0])
                &&& final(self)@ == old(self)@.drop_first()
            },
    {
        if self.values.len() > 0 {
            let v = self.values.remove(0);
            proof {
                assert(self.values@ =~= old(self).values@.drop_first());
            }
            Some(v)
        } else {
            None
        }
    }
}

} // verus!
