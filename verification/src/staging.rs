//! The staging ring: one pinned, host-visible buffer accumulating the
//! to-be-transferred bytes of the current frame.
//!
//! The ring has a fixed capacity and a monotonically growing write cursor;
//! `clear` resets the cursor once the device has consumed every staged byte.
//! A payload that does not fit is refused outright — the ring never
//! truncates or wraps.

use vstd::prelude::*;

verus! {

/// One frame's worth of staged transfer payloads.
pub struct StagingBuffer {
    data: Vec<u8>,
    capacity: usize,
}

impl StagingBuffer {
    /// The bytes staged since the last `clear`, in staging order.
    pub closed spec fn bytes(&self) -> Seq<u8> {
        self.data@
    }

    /// The fixed capacity the ring was created with.
    pub closed spec fn capacity_spec(&self) -> usize {
        self.capacity
    }

    /// The write cursor never passes the fixed capacity.
    pub open spec fn wf(&self) -> bool {
        self.bytes().len() <= self.capacity_spec()
    }

    /// An empty ring of the given fixed capacity.
    pub fn new(capacity: usize) -> (r: StagingBuffer)
        ensures
            r.wf(),
            r.capacity_spec() == capacity,
            r.bytes() == Seq::<u8>::empty(),
    {
        StagingBuffer { data: Vec::new(), capacity }
    }

    /// The current write cursor: how many bytes are staged.
    pub fn len(&self) -> (r: usize)
        ensures
            r == self.bytes().len(),
    {
        self.data.len()
    }

    /// The fixed capacity the ring was created with.
    pub fn capacity(&self) -> (r: usize)
        ensures
            r == self.capacity_spec(),
    {
        self.capacity
    }

    /// Copies `payload` at the current cursor and returns the offset it was
    /// staged at. The caller must have checked that the payload fits.
    pub fn stage(&mut self, payload: &[u8]) -> (offset: usize)
        requires
            old(self).wf(),
            old(self).bytes().len() + payload@.len() <= old(self).capacity_spec(),
        ensures
            final(self).wf(),
            final(self).capacity_spec() == old(self).capacity_spec(),
            offset == old(self).bytes().len(),
            final(self).bytes() == old(self).bytes() + payload@,
    {
        let offset = self.data.len();
        let mut i: usize = 0;
        while i < payload.len()
            invariant
                i <= payload@.len(),
                self.capacity == old(self).capacity,
                self.data@ == old(self).data@ + payload@.take(i as int),
            decreases payload@.len() - i,
        {
            self.data.push(payload[i]);
            i = i + 1;
            proof {
                assert(payload@.take(i as int) == payload@.take(i - 1) + seq![payload@[i - 1]]);
            }
        }
        proof {
            assert(payload@.take(payload@.len() as int) == payload@);
        }
        offset
    }

    /// Stages the payload if it fits; refuses it untouched if it does not.
    /// The ring neither truncates a payload nor wraps around.
    pub fn try_stage(&mut self, payload: &[u8]) -> (r: Option<usize>)
        requires
            old(self).wf(),
        ensures
            final(self).wf(),
            final(self).capacity_spec() == old(self).capacity_spec(),
            old(self).bytes().len() + payload@.len() <= old(self).capacity_spec() ==> {
                &&& r == Some(old(self).bytes().len() as usize)
                &&& final(self).bytes() == old(self).bytes() + payload@
            },
            old(self).bytes().len() + payload@.len() > old(self).capacity_spec() ==> {
                &&& r is None
                &&& final(self).bytes() == old(self).bytes()
            },
    {
        if payload.len() <= self.capacity - self.data.len() {
            Some(self.stage(payload))
        } else {
            None
        }
    }

    /// The staged bytes, for the backend to copy from.
    pub fn as_bytes(&self) -> (r: &[u8])
        ensures
            r@ == self.bytes(),
    {
        self.data.as_slice()
    }

    /// Resets the cursor to zero, forgetting every staged byte. Must be
    /// called only once the device has finished consuming everything staged
    /// since the previous `clear`.
    pub fn clear(&mut self)
        ensures
            final(self).wf(),
            final(self).capacity_spec() == old(self).capacity_spec(),
            final(self).bytes() == Seq::<u8>::empty(),
    {
        self.data.clear();
    }
}

} // verus!
