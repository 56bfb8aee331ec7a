//! The allocator façade: carves persistent regions out of the global heap,
//! stages caller-supplied bytes for transfer, and drains the pending
//! transfers against the active device memory backend once per frame.
//!
//! All bookkeeping is in plain integers over the heap's address space; the
//! graphics API objects a host binds at the resulting offsets are referred
//! to by numeric handles minted here.

use vstd::prelude::*;

use crate::device::overwrite;
use crate::device::DeviceBuffer;
use crate::device::DeviceClass;
use crate::range_alloc::live_ranges;
use crate::range_alloc::ranges_disjoint;
use crate::range_alloc::total_size;
use crate::range_alloc::RangeAllocator;
use crate::staging::StagingBuffer;
use crate::token::TransferToken;

verus! {

/// Reference default size of the device-local heap: 2 GiB.
pub const GLOBAL_MEMORY_SIZE: u64 = 2u64 << 30;

/// Reference default capacity of the staging ring: 100 MiB.
pub const STAGING_MEMORY_SIZE: u64 = 100u64 << 20;

/// Alignment used for every slab upload.
pub const SLAB_ALIGNMENT: u32 = 8;

/// Numeric handle of the one shared slab buffer, bound at heap offset zero
/// over the whole heap. Handles minted for dedicated buffers start above it.
pub const SLAB_BUFFER_HANDLE: u64 = 0;

/// One grant of the range allocator together with the aligned position the
/// resource was bound at inside it.
///
/// The raw range `[raw_offset, raw_offset + raw_size)` is what the range
/// allocator handed out; the resource itself lives at
/// `raw_offset + bind_offset`, the first properly aligned offset inside the
/// range, and the `bind_offset` bytes before it are recorded waste.
#[derive(Clone, Copy, PartialEq, Eq, Structural, Debug)]
pub struct Offset {
    /// Start of the raw range handed out by the range allocator.
    pub raw_offset: u32,
    /// Length of the raw range.
    pub raw_size: u32,
    /// Padding skipped inside the raw range to reach the bound offset.
    pub bind_offset: u32,
}

impl Offset {
    /// The heap offset the resource was bound at.
    pub open spec fn total_offset_spec(&self) -> int {
        self.raw_offset + self.bind_offset
    }

    /// The padding lies inside the raw range, and the raw range end does
    /// not overflow the address space arithmetic.
    pub open spec fn wf(&self) -> bool {
        &&& self.bind_offset <= self.raw_size
        &&& self.raw_offset + self.raw_size <= u32::MAX
    }

    /// The heap offset the resource was bound at.
    pub fn total_offset(&self) -> (r: usize)
        requires
            self.wf(),
        ensures
            r == self.total_offset_spec(),
    {
        (self.raw_offset + self.bind_offset) as usize
    }
}

/// Width and height of a transferred image, in pixels.
#[derive(Clone, Copy, PartialEq, Eq, Structural, Debug)]
pub struct ImageExtent {
    pub width: u32,
    pub height: u32,
}

/// Where a staged transfer is headed.
#[derive(Clone, Copy, PartialEq, Eq, Structural, Debug)]
pub enum TransferDestination {
    /// A dedicated buffer, by the handle minted for it.
    Buffer(u64),
    /// An image, by the caller's handle for it, with its extent.
    Image(u64, ImageExtent),
    /// The one shared general-purpose slab buffer.
    Slab,
}

/// The plain data of one staged transfer: everything but the live token
/// half that will be flipped when the transfer lands.
#[derive(Clone, Copy, PartialEq, Eq, Structural, Debug)]
pub struct TransferRecord {
    pub destination: TransferDestination,
    /// Byte offset of the payload inside the staging ring.
    pub staging_buffer_offset: usize,
    /// The grant of the destination resource.
    pub global_offset: Offset,
    /// Byte offset of the payload inside the destination resource.
    pub allocation_offset: usize,
    /// Payload length in bytes.
    pub transfer_size: usize,
    /// Id shared by the two halves of the transfer's token pair.
    pub token_id: u64,
}

impl TransferRecord {
    /// Whether the destination is an image, whose device-side byte layout
    /// the heap model does not track.
    pub open spec fn is_image(&self) -> bool {
        self.destination is Image
    }

    /// The absolute heap offset the payload lands at (buffer and slab
    /// destinations).
    pub open spec fn heap_dst(&self) -> int {
        self.global_offset.total_offset_spec() + self.allocation_offset
    }
}

/// One transfer staged and not yet landed: its plain data plus the
/// allocator's half of the completion token pair.
pub struct PendingTransfer {
    pub destination: TransferDestination,
    pub staging_buffer_offset: usize,
    pub global_offset: Offset,
    pub allocation_offset: usize,
    pub transfer_size: usize,
    pub transfer_token: TransferToken,
}

/// The plain data of a pending transfer.
pub open spec fn record_of(t: PendingTransfer) -> TransferRecord {
    TransferRecord {
        destination: t.destination,
        staging_buffer_offset: t.staging_buffer_offset,
        global_offset: t.global_offset,
        allocation_offset: t.allocation_offset,
        transfer_size: t.transfer_size,
        token_id: t.transfer_token.id_spec(),
    }
}

/// The plain data of a queue of pending transfers, in order.
pub open spec fn records_of(ts: Seq<PendingTransfer>) -> Seq<TransferRecord> {
    ts.map_values(|t: PendingTransfer| record_of(t))
}

/// One command for the host to record into the current command buffer, in
/// the order given. Buffer copies read the staging ring; barriers make the
/// copied bytes visible to the consuming shader stage.
#[derive(Clone, Copy, PartialEq, Eq, Structural, Debug)]
pub enum TransferCommand {
    /// Copy `size` staged bytes at `src_offset` to `dst_offset` inside the
    /// destination buffer.
    CopyBuffer { buffer: u64, src_offset: usize, dst_offset: usize, size: usize },
    /// Make the copied bytes visible to the consuming shader stage.
    BufferBarrier { buffer: u64, size: usize },
    /// Transition the image so it can receive transfer writes.
    PrepareImage { image: u64 },
    /// Copy the staged pixel bytes at `src_offset` into the image.
    CopyBufferToImage { image: u64, src_offset: usize, width: u32, height: u32 },
    /// Transition the image for sampling by the consuming shader stage.
    FinishImage { image: u64 },
}

/// The commands recorded for one transfer.
pub open spec fn commands_of_record(r: TransferRecord) -> Seq<TransferCommand> {
    match r.destination {
        TransferDestination::Buffer(b) => seq![
            TransferCommand::CopyBuffer {
                buffer: b,
                src_offset: r.staging_buffer_offset,
                dst_offset: r.allocation_offset,
                size: r.transfer_size,
            },
            TransferCommand::BufferBarrier { buffer: b, size: r.transfer_size },
        ],
        TransferDestination::Slab => seq![
            TransferCommand::CopyBuffer {
                buffer: SLAB_BUFFER_HANDLE,
                src_offset: r.staging_buffer_offset,
                dst_offset: r.heap_dst() as usize,
                size: r.transfer_size,
            },
            TransferCommand::BufferBarrier { buffer: SLAB_BUFFER_HANDLE, size: r.transfer_size },
        ],
        TransferDestination::Image(image, extent) => seq![
            TransferCommand::PrepareImage { image },
            TransferCommand::CopyBufferToImage {
                image,
                src_offset: r.staging_buffer_offset,
                width: extent.width,
                height: extent.height,
            },
            TransferCommand::FinishImage { image },
        ],
    }
}

/// The commands recorded for a queue of transfers, in queue order.
pub open spec fn commands_of(records: Seq<TransferRecord>) -> Seq<TransferCommand>
    decreases records.len(),
{
    if records.len() == 0 {
        Seq::empty()
    } else {
        commands_of(records.drop_last()) + commands_of_record(records.last())
    }
}

/// The heap contents after one transfer lands: buffer and slab payloads
/// overwrite the destination range with the staged bytes; image payloads
/// leave the byte model untouched, their device-side layout being opaque.
pub open spec fn apply_record(heap: Seq<u8>, staging: Seq<u8>, r: TransferRecord) -> Seq<u8> {
    if r.is_image() {
        heap
    } else {
        overwrite(
            heap,
            r.heap_dst(),
            staging.subrange(
                r.staging_buffer_offset as int,
                r.staging_buffer_offset + r.transfer_size,
            ),
        )
    }
}

/// The heap contents after a queue of transfers lands, in queue order.
pub open spec fn heap_after(records: Seq<TransferRecord>, heap: Seq<u8>, staging: Seq<u8>) -> Seq<
    u8,
>
    decreases records.len(),
{
    if records.len() == 0 {
        heap
    } else {
        apply_record(heap_after(records.drop_last(), heap, staging), staging, records.last())
    }
}

/// The token ids of a queue of transfers, in queue order.
pub open spec fn ids_of(records: Seq<TransferRecord>) -> Seq<u64>
    decreases records.len(),
{
    if records.len() == 0 {
        Seq::empty()
    } else {
        ids_of(records.drop_last()) + seq![records.last().token_id]
    }
}

/// The token ids of the non-image transfers of a queue, in queue order.
pub open spec fn direct_ids_of(records: Seq<TransferRecord>) -> Seq<u64>
    decreases records.len(),
{
    if records.len() == 0 {
        Seq::empty()
    } else if records.last().is_image() {
        direct_ids_of(records.drop_last())
    } else {
        direct_ids_of(records.drop_last()) + seq![records.last().token_id]
    }
}

/// The image transfers of a queue, in queue order.
pub open spec fn image_records_of(records: Seq<TransferRecord>) -> Seq<TransferRecord>
    decreases records.len(),
{
    if records.len() == 0 {
        Seq::empty()
    } else if records.last().is_image() {
        image_records_of(records.drop_last()) + seq![records.last()]
    } else {
        image_records_of(records.drop_last())
    }
}

/// One range granted to a caller: the grant and how many payload bytes the
/// resource bound inside it may hold.
#[derive(Clone, Copy, PartialEq, Eq, Structural, Debug)]
pub struct Grant {
    pub offset: Offset,
    pub size: usize,
}

/// Reserved for a future implementation of individual release; allocations
/// are permanent for the process lifetime in this design.
pub struct PendingFree;

/// A buffer carved out of the global heap: an owned grant, the device
/// address it resolves to, and a logical length that grows by staged
/// appends.
pub struct BufferAllocation {
    /// Capacity of the buffer in bytes.
    pub size: usize,
    /// Device-visible address of the buffer's first byte.
    pub device_address: u64,
    /// Numeric handle the host maps to the graphics-API buffer object.
    pub handle: u64,
    /// Bytes each logical element occupies.
    pub elem_size: usize,
    /// Logical elements appended so far.
    pub len: usize,
    /// Payload bytes appended so far.
    pub used_bytes: usize,
    /// The grant the buffer was bound in.
    pub global_offset: Offset,
}

impl BufferAllocation {
    /// The heap offset of the buffer's first byte.
    pub open spec fn base_offset_spec(&self) -> int {
        self.global_offset.total_offset_spec()
    }

    /// A buffer allocation consistent with a heap of `heap_size` bytes:
    /// the bound range lies inside its grant and inside the heap, the
    /// logical length matches the used bytes, and elements have a positive
    /// stride.
    pub open spec fn valid(&self, heap_size: int) -> bool {
        &&& self.global_offset.wf()
        &&& self.global_offset.bind_offset + self.size <= self.global_offset.raw_size
        &&& self.global_offset.raw_offset + self.global_offset.raw_size <= heap_size
        &&& self.used_bytes <= self.size
        &&& self.used_bytes == self.len * self.elem_size
        &&& self.elem_size >= 1
    }

    /// The number of logical elements appended so far.
    pub fn len(&self) -> (r: usize)
        ensures
            r == self.len,
    {
        self.len
    }

    /// Resets the logical length to zero. The backing memory stays bound
    /// and is never released; subsequent appends overwrite from the start.
    pub fn clear(&mut self)
        ensures
            final(self).len == 0,
            final(self).used_bytes == 0,
            final(self).size == old(self).size,
            final(self).device_address == old(self).device_address,
            final(self).handle == old(self).handle,
            final(self).elem_size == old(self).elem_size,
            final(self).global_offset == old(self).global_offset,
    {
        self.len = 0;
        self.used_bytes = 0;
    }

    /// Stages `data` through `allocator` for transfer to this buffer's
    /// current logical end; see `Allocator::append_to_buffer`.
    pub fn append(&mut self, data: &[u8], allocator: &mut Allocator) -> (t: TransferToken)
        requires
            old(allocator).wf(),
            old(self).valid(old(allocator).heap_size()),
            old(self).used_bytes + data@.len() <= old(self).size,
            data@.len() as int % (old(self).elem_size as int) == 0,
            old(allocator).staging_bytes().len() + data@.len() <= old(
                allocator,
            ).staging_capacity(),
            old(allocator).token_counter() < u64::MAX,
        ensures
            final(allocator).wf(),
            final(self).valid(final(allocator).heap_size()),
            t.id_spec() == old(allocator).token_counter(),
            !final(allocator).executed_ids().contains(t.id_spec()),
            final(allocator).staging_bytes() == old(allocator).staging_bytes() + data@,
            final(allocator).pending_records() == old(allocator).pending_records().push(
                (TransferRecord {
                    destination: TransferDestination::Buffer(old(self).handle),
                    staging_buffer_offset: old(allocator).staging_bytes().len() as usize,
                    global_offset: old(self).global_offset,
                    allocation_offset: old(self).used_bytes,
                    transfer_size: data@.len() as usize,
                    token_id: old(allocator).token_counter(),
                })),
            final(self).used_bytes == old(self).used_bytes + data@.len(),
            final(self).len == old(self).len + data@.len() as int / (old(self).elem_size as int),
    {
        allocator.append_to_buffer(data, self)
    }
}

/// A payload uploaded to the shared slab buffer: where it landed, its
/// device address, and the caller's half of its completion token.
pub struct SlabUpload {
    /// Device-visible address of the payload's first byte.
    pub device_address: u64,
    /// Payload length in bytes.
    pub size: usize,
    /// Completion token for the upload's transfer.
    pub transfer_token: TransferToken,
    /// The grant the payload was bound in.
    pub offset: Offset,
}

/// The allocator façade: the range allocator over the global heap, the
/// staging ring, the device memory backend, and the per-frame transfer
/// queues.
pub struct Allocator {
    backend: DeviceBuffer,
    staging_buffer: StagingBuffer,
    offsets: RangeAllocator,
    pending_transfers: Vec<PendingTransfer>,
    in_flight: Vec<PendingTransfer>,
    next_token_id: u64,
    next_buffer_handle: u64,
    grants: Ghost<Seq<Grant>>,
    executed: Ghost<Seq<u64>>,
}

impl Allocator {
    /// The size of the global heap in bytes.
    pub closed spec fn heap_size(&self) -> int {
        self.backend.region_spec().bytes_spec().len() as int
    }

    /// The bytes of the global heap, as of the last landed transfer batch.
    pub closed spec fn heap_bytes(&self) -> Seq<u8> {
        self.backend.region_spec().bytes_spec()
    }

    /// The device-visible address of heap offset zero.
    pub closed spec fn base_address(&self) -> u64 {
        self.backend.region_spec().base_address_spec()
    }

    /// The memory architecture the backend was built for.
    pub closed spec fn device_class(&self) -> DeviceClass {
        self.backend.class_spec()
    }

    /// The bytes staged since the last completed frame, in staging order.
    pub closed spec fn staging_bytes(&self) -> Seq<u8> {
        self.staging_buffer.bytes()
    }

    /// The fixed capacity of the staging ring.
    pub closed spec fn staging_capacity(&self) -> usize {
        self.staging_buffer.capacity_spec()
    }

    /// The transfers staged and not yet executed, in staging order.
    pub closed spec fn pending_records(&self) -> Seq<TransferRecord> {
        records_of(self.pending_transfers@)
    }

    /// The transfers executed as device commands and not yet
    /// fence-confirmed, in execution order.
    pub closed spec fn in_flight_records(&self) -> Seq<TransferRecord> {
        records_of(self.in_flight@)
    }

    /// The id the next minted token pair will carry.
    pub closed spec fn token_counter(&self) -> u64 {
        self.next_token_id
    }

    /// The handle the next allocated buffer will carry.
    pub closed spec fn buffer_handle_counter(&self) -> u64 {
        self.next_buffer_handle
    }

    /// Every grant handed out so far, in allocation order.
    pub closed spec fn grants_spec(&self) -> Seq<Grant> {
        self.grants@
    }

    /// The token ids of every transfer that has landed (or was a no-op),
    /// in completion order. A token polls as complete exactly when the
    /// allocator marked it, which it does when it appends the id here.
    pub closed spec fn executed_ids(&self) -> Seq<u64> {
        self.executed@
    }

    /// One staged or in-flight transfer is consistent with the staging
    /// ring and the heap.
    pub open spec fn record_wf(r: TransferRecord, heap_size: int, staging_len: int) -> bool {
        &&& r.staging_buffer_offset + r.transfer_size <= staging_len
        &&& r.global_offset.wf()
        &&& !r.is_image() ==> r.heap_dst() + r.transfer_size <= heap_size
    }

    /// The allocator's internal consistency, established by `new` and
    /// preserved by every operation.
    pub closed spec fn wf(&self) -> bool {
        &&& self.backend.wf()
        &&& self.staging_buffer.wf()
        &&& total_size(self.offsets) == self.heap_size()
        &&& self.heap_size() <= u32::MAX
        // Live ranges lie inside the heap and are pairwise disjoint.
        &&& forall|o: u32| #[trigger] live_ranges(self.offsets).contains_key(o)
            ==> 1 <= live_ranges(self.offsets)[o] && o + live_ranges(self.offsets)[o]
                <= self.heap_size()
        &&& forall|o1: u32, o2: u32|
            #![trigger live_ranges(self.offsets).contains_key(o1), live_ranges(self.offsets).contains_key(o2)]
            live_ranges(self.offsets).contains_key(o1) && live_ranges(self.offsets).contains_key(o2)
                && o1 != o2
            ==> ranges_disjoint(
                o1 as int, live_ranges(self.offsets)[o1] as int,
                o2 as int, live_ranges(self.offsets)[o2] as int)
        // Each grant sits inside a live raw range of its own.
        &&& forall|i: int| 0 <= i < self.grants_spec().len() ==> {
            let g = #[trigger] self.grants_spec()[i];
            &&& g.offset.wf()
            &&& g.offset.bind_offset + g.size <= g.offset.raw_size
            &&& live_ranges(self.offsets).contains_key(g.offset.raw_offset)
            &&& live_ranges(self.offsets)[g.offset.raw_offset] == g.offset.raw_size
        }
        &&& forall|i: int, j: int|
            #![trigger self.grants_spec()[i], self.grants_spec()[j]]
            0 <= i < self.grants_spec().len() && 0 <= j < self.grants_spec().len() && i != j
            ==> self.grants_spec()[i].offset.raw_offset != self.grants_spec()[j].offset.raw_offset
        // Queued transfers read staged bytes and write inside the heap.
        &&& forall|i: int| 0 <= i < self.pending_records().len()
            ==> Self::record_wf(
                #[trigger] self.pending_records()[i], self.heap_size(),
                self.staging_bytes().len() as int)
        &&& forall|i: int| 0 <= i < self.in_flight_records().len()
            ==> Self::record_wf(
                #[trigger] self.in_flight_records()[i], self.heap_size(),
                self.staging_bytes().len() as int)
        // Token ids are minted in order and never reused.
        &&& forall|i: int| 0 <= i < self.pending_records().len()
            ==> (#[trigger] self.pending_records()[i]).token_id < self.token_counter()
        &&& forall|i: int| 0 <= i < self.in_flight_records().len()
            ==> (#[trigger] self.in_flight_records()[i]).token_id < self.token_counter()
        &&& forall|i: int| 0 <= i < self.executed_ids().len()
            ==> #[trigger] self.executed_ids()[i] < self.token_counter()
        &&& self.buffer_handle_counter() >= 1
    }

    /// A fresh allocator over a zero-filled heap of `heap_size` bytes
    /// based at `base_address`, with an empty staging ring of the given
    /// capacity, for the given device class.
    pub fn new(
        class: DeviceClass,
        heap_size: u32,
        staging_capacity: usize,
        base_address: u64,
    ) -> (r: Allocator)
        requires
            base_address + heap_size <= u64::MAX,
        ensures
            r.wf(),
            r.device_class() == class,
            r.heap_size() == heap_size,
            r.base_address() == base_address,
            r.staging_capacity() == staging_capacity,
            r.staging_bytes() == Seq::<u8>::empty(),
            r.heap_bytes().len() == heap_size,
            forall|i: int| 0 <= i < heap_size ==> r.heap_bytes()[i] == 0u8,
            r.pending_records() == Seq::<TransferRecord>::empty(),
            r.in_flight_records() == Seq::<TransferRecord>::empty(),
            r.grants_spec() == Seq::<Grant>::empty(),
            r.executed_ids() == Seq::<u64>::empty(),
            r.token_counter() == 0,
            r.buffer_handle_counter() == SLAB_BUFFER_HANDLE + 1,
    {
        let backend = DeviceBuffer::new(class, heap_size as usize, base_address);
        let staging_buffer = StagingBuffer::new(staging_capacity);
        let offsets = RangeAllocator::new(heap_size);
        let r = Allocator {
            backend,
            staging_buffer,
            offsets,
            pending_transfers: Vec::new(),
            in_flight: Vec::new(),
            next_token_id: 0,
            next_buffer_handle: SLAB_BUFFER_HANDLE + 1,
            grants: Ghost(Seq::empty()),
            executed: Ghost(Seq::empty()),
        };
        proof {
            assert(r.pending_records() =~= Seq::<TransferRecord>::empty());
            assert(r.in_flight_records() =~= Seq::<TransferRecord>::empty());
        }
        r
    }

    /// Allocates a raw range of `size` bytes from the range allocator and
    /// resolves the first `align`-aligned offset inside it.
    ///
    /// The happy case binds at the raw offset itself. Otherwise the raw
    /// range is returned to the pool and a range of `size + align - 1`
    /// bytes is requested instead, which is long enough to hold `size`
    /// bytes at its first aligned offset; the skipped prefix is recorded
    /// as `bind_offset`. Returns `None` only if the range allocator had no
    /// room, leaving the live ranges as they were.
    fn allocate_offset(&mut self, size: u32, align: u32) -> (r: Option<Offset>)
        requires
            old(self).wf(),
            1 <= size,
            1 <= align,
            size + align - 1 <= u32::MAX,
        ensures
            final(self).wf(),
            final(self).heap_size() == old(self).heap_size(),
            final(self).heap_bytes() == old(self).heap_bytes(),
            final(self).base_address() == old(self).base_address(),
            final(self).device_class() == old(self).device_class(),
            final(self).staging_bytes() == old(self).staging_bytes(),
            final(self).staging_capacity() == old(self).staging_capacity(),
            final(self).pending_records() == old(self).pending_records(),
            final(self).in_flight_records() == old(self).in_flight_records(),
            final(self).grants_spec() == old(self).grants_spec(),
            final(self).executed_ids() == old(self).executed_ids(),
            final(self).token_counter() == old(self).token_counter(),
            final(self).buffer_handle_counter() == old(self).buffer_handle_counter(),
            match r {
                Some(off) => {
                    &&& off.wf()
                    &&& off.bind_offset + size <= off.raw_size
                    &&& off.bind_offset < align
                    &&& off.raw_offset + off.raw_size <= old(self).heap_size()
                    &&& off.total_offset_spec() % (align as int) == 0
                    &&& forall|o: u32| #[trigger] live_ranges(old(self).offsets).contains_key(o)
                        ==> ranges_disjoint(
                            off.raw_offset as int, off.raw_size as int,
                            o as int, live_ranges(old(self).offsets)[o] as int)
                    &&& live_ranges(final(self).offsets) == live_ranges(old(self).offsets)
                        .insert(off.raw_offset, off.raw_size)
                },
                None => live_ranges(final(self).offsets) == live_ranges(old(self).offsets),
            },
    {
        let first = self.offsets.allocate(size);
        match first {
            None => {
                proof {
                    lemma_same_ranges_preserves_wf(*old(self), *self);
                }
                None
            },
            Some((offset, handle)) => {
                let misalignment = offset % align;
                if misalignment == 0 {
                    let off = Offset { raw_offset: offset, raw_size: size, bind_offset: 0 };
                    proof {
                        lemma_insert_preserves_wf(*old(self), *self, off.raw_offset, off.raw_size);
                    }
                    Some(off)
                } else {
                    // Not aligned: return the range and request one long
                    // enough to bind at the next aligned offset inside it.
                    self.offsets.free(handle);
                    proof {
                        // Freeing the range just granted restores the live
                        // ranges exactly: its offset was no key before.
                        if live_ranges(old(self).offsets).contains_key(offset) {
                            assert(ranges_disjoint(
                                offset as int, size as int,
                                offset as int, live_ranges(old(self).offsets)[offset] as int));
                        }
                        assert(live_ranges(self.offsets) =~= live_ranges(old(self).offsets));
                    }
                    let padded = size + (align - 1);
                    let second = self.offsets.allocate(padded);
                    match second {
                        None => {
                            proof {
                                lemma_same_ranges_preserves_wf(*old(self), *self);
                            }
                            None
                        },
                        Some((offset2, _permanent)) => {
                            let rem = offset2 % align;
                            let pad = if rem == 0 {
                                0
                            } else {
                                align - rem
                            };
                            let off = Offset {
                                raw_offset: offset2,
                                raw_size: padded,
                                bind_offset: pad,
                            };
                            proof {
                                lemma_aligned_bind(offset2 as int, align as int);
                                lemma_insert_preserves_wf(
                                    *old(self), *self, off.raw_offset, off.raw_size);
                            }
                            Some(off)
                        },
                    }
                }
            },
        }
    }

    /// Allocates a buffer of `size` bytes with the given alignment and
    /// element stride: carves an aligned range out of the global heap,
    /// mints the handle the host binds the graphics-API buffer object
    /// under, and resolves the device address. Copies no data. Returns
    /// `None` only if the range allocator had no room, leaving the
    /// allocator as it was.
    pub fn allocate_buffer(
        &mut self,
        size: usize,
        align: usize,
        elem_size: usize,
    ) -> (r: Option<BufferAllocation>)
        requires
            old(self).wf(),
            1 <= size,
            1 <= align,
            1 <= elem_size,
            size + align - 1 <= u32::MAX,
            old(self).buffer_handle_counter() < u64::MAX,
        ensures
            final(self).wf(),
            final(self).heap_size() == old(self).heap_size(),
            final(self).heap_bytes() == old(self).heap_bytes(),
            final(self).base_address() == old(self).base_address(),
            final(self).device_class() == old(self).device_class(),
            final(self).staging_bytes() == old(self).staging_bytes(),
            final(self).staging_capacity() == old(self).staging_capacity(),
            final(self).pending_records() == old(self).pending_records(),
            final(self).in_flight_records() == old(self).in_flight_records(),
            final(self).executed_ids() == old(self).executed_ids(),
            final(self).token_counter() == old(self).token_counter(),
            match r {
                Some(b) => {
                    &&& b.valid(old(self).heap_size())
                    &&& b.size == size
                    &&& b.elem_size == elem_size
                    &&& b.len == 0
                    &&& b.used_bytes == 0
                    &&& b.handle == old(self).buffer_handle_counter()
                    &&& final(self).buffer_handle_counter() == old(self).buffer_handle_counter()
                        + 1
                    &&& b.device_address == old(self).base_address() + b.base_offset_spec()
                    &&& b.base_offset_spec() % (align as int) == 0
                    &&& final(self).grants_spec() == old(self).grants_spec().push(
                        (Grant { offset: b.global_offset, size }))
                },
                None => {
                    &&& final(self).grants_spec() == old(self).grants_spec()
                    &&& final(self).buffer_handle_counter() == old(self).buffer_handle_counter()
                },
            },
    {
        match self.allocate_offset(size as u32, align as u32) {
            None => None,
            Some(off) => {
                let handle = self.next_buffer_handle;
                self.next_buffer_handle = self.next_buffer_handle + 1;
                let ghost mid = *self;
                let g = Grant { offset: off, size };
                self.grants = Ghost(self.grants@.push(g));
                proof {
                    lemma_grant_offset_fresh(*old(self), off);
                    lemma_push_grant_preserves_wf(mid, *self, g);
                }
                let total = off.total_offset();
                let device_address = self.backend.get_device_address(total);
                Some(BufferAllocation {
                    size,
                    device_address,
                    handle,
                    elem_size,
                    len: 0,
                    used_bytes: 0,
                    global_offset: off,
                })
            },
        }
    }

    /// Binds an image of `size` bytes (its reported memory requirement) to
    /// a fresh aligned range of the global heap and, if `data` is
    /// non-empty, stages it and enqueues an image transfer; an empty
    /// payload yields an already-completed token. Returns `None` only if
    /// the range allocator had no room, leaving the allocator as it was.
    pub fn allocate_image(
        &mut self,
        data: &[u8],
        extent: ImageExtent,
        image: u64,
        size: usize,
        align: usize,
    ) -> (r: Option<(TransferToken, Offset)>)
        requires
            old(self).wf(),
            1 <= size,
            1 <= align,
            size + align - 1 <= u32::MAX,
            old(self).token_counter() < u64::MAX,
            data@.len() > 0 ==> old(self).staging_bytes().len() + data@.len() <= old(
                self,
            ).staging_capacity(),
        ensures
            final(self).wf(),
            final(self).heap_size() == old(self).heap_size(),
            final(self).heap_bytes() == old(self).heap_bytes(),
            final(self).base_address() == old(self).base_address(),
            final(self).device_class() == old(self).device_class(),
            final(self).staging_capacity() == old(self).staging_capacity(),
            final(self).in_flight_records() == old(self).in_flight_records(),
            final(self).buffer_handle_counter() == old(self).buffer_handle_counter(),
            match r {
                Some((t, off)) => {
                    &&& t.id_spec() == old(self).token_counter()
                    &&& final(self).token_counter() == old(self).token_counter() + 1
                    &&& off.wf()
                    &&& off.raw_offset + off.raw_size <= old(self).heap_size()
                    &&& off.total_offset_spec() % (align as int) == 0
                    &&& final(self).grants_spec() == old(self).grants_spec().push(
                        (Grant { offset: off, size }))
                    &&& if data@.len() == 0 {
                        // No data: nothing to transfer, the token is
                        // complete from the start.
                        &&& final(self).executed_ids() == old(self).executed_ids().push(
                            t.id_spec())
                        &&& final(self).pending_records() == old(self).pending_records()
                        &&& final(self).staging_bytes() == old(self).staging_bytes()
                    } else {
                        &&& final(self).executed_ids() == old(self).executed_ids()
                        &&& !final(self).executed_ids().contains(t.id_spec())
                        &&& final(self).staging_bytes() == old(self).staging_bytes() + data@
                        &&& final(self).pending_records().len() == old(
                            self,
                        ).pending_records().len() + 1
                        &&& final(self).pending_records().last().destination
                            == TransferDestination::Image(image, extent)
                        &&& final(self).pending_records().last().token_id == t.id_spec()
                        &&& forall|i: int| 0 <= i < old(self).pending_records().len()
                            ==> final(self).pending_records()[i] == old(
                                self,
                            ).pending_records()[i]
                    }
                },
                None => {
                    &&& final(self).token_counter() == old(self).token_counter()
                    &&& final(self).grants_spec() == old(self).grants_spec()
                    &&& final(self).pending_records() == old(self).pending_records()
                    &&& final(self).executed_ids() == old(self).executed_ids()
                    &&& final(self).staging_bytes() == old(self).staging_bytes()
                },
            },
    {
        match self.allocate_offset(size as u32, align as u32) {
            None => None,
            Some(off) => {
                let ghost mid = *self;
                let g = Grant { offset: off, size };
                self.grants = Ghost(self.grants@.push(g));
                proof {
                    lemma_grant_offset_fresh(*old(self), off);
                    lemma_push_grant_preserves_wf(mid, *self, g);
                }
                let pair = TransferToken::create_pair(self.next_token_id);
                let ours = pair.0;
                let theirs = pair.1;
                if data.len() > 0 {
                    let ghost before = *self;
                    let staging_buffer_offset = self.staging_buffer.stage(data);
                    let transfer = PendingTransfer {
                        destination: TransferDestination::Image(image, extent),
                        staging_buffer_offset,
                        global_offset: off,
                        allocation_offset: 0,
                        transfer_size: data.len(),
                        transfer_token: ours,
                    };
                    self.pending_transfers.push(transfer);
                    self.next_token_id = self.next_token_id + 1;
                    proof {
                        lemma_enqueue_preserves_wf(before, *self, transfer);
                        assert forall|i: int| 0 <= i < final(self).executed_ids().len()
                            implies #[trigger] final(self).executed_ids()[i]
                                != theirs.id_spec() by {
                            let fin_ids = final(self).executed_ids();
                            assert(old(self).executed_ids()[i] == fin_ids[i]);
                        }
                    }
                    Some((theirs, off))
                } else {
                    // No data? Nothing to do: both halves are complete at
                    // once and the id counts as landed.
                    ours.mark_completed();
                    theirs.mark_completed();
                    let ghost before = *self;
                    self.executed = Ghost(self.executed@.push(self.next_token_id));
                    self.next_token_id = self.next_token_id + 1;
                    proof {
                        lemma_mint_completed_preserves_wf(before, *self, theirs.id_spec());
                    }
                    Some((theirs, off))
                }
            },
        }
    }

    /// Stages `data` and enqueues a transfer targeting the allocation's
    /// current logical end; the allocation's logical length advances by
    /// the appended elements. Non-blocking: the returned token completes
    /// once the transfer lands.
    pub fn append_to_buffer(
        &mut self,
        data: &[u8],
        allocation: &mut BufferAllocation,
    ) -> (t: TransferToken)
        requires
            old(self).wf(),
            old(allocation).valid(old(self).heap_size()),
            old(allocation).used_bytes + data@.len() <= old(allocation).size,
            data@.len() as int % (old(allocation).elem_size as int) == 0,
            old(self).staging_bytes().len() + data@.len() <= old(self).staging_capacity(),
            old(self).token_counter() < u64::MAX,
        ensures
            final(self).wf(),
            final(allocation).valid(final(self).heap_size()),
            final(self).heap_size() == old(self).heap_size(),
            final(self).heap_bytes() == old(self).heap_bytes(),
            final(self).base_address() == old(self).base_address(),
            final(self).device_class() == old(self).device_class(),
            final(self).staging_capacity() == old(self).staging_capacity(),
            final(self).in_flight_records() == old(self).in_flight_records(),
            final(self).grants_spec() == old(self).grants_spec(),
            final(self).executed_ids() == old(self).executed_ids(),
            final(self).buffer_handle_counter() == old(self).buffer_handle_counter(),
            final(self).token_counter() == old(self).token_counter() + 1,
            t.id_spec() == old(self).token_counter(),
            // A token polls false right after staging: its transfer has
            // not landed.
            !final(self).executed_ids().contains(t.id_spec()),
            final(self).staging_bytes() == old(self).staging_bytes() + data@,
            final(self).pending_records() == old(self).pending_records().push(
                (TransferRecord {
                    destination: TransferDestination::Buffer(old(allocation).handle),
                    staging_buffer_offset: old(self).staging_bytes().len() as usize,
                    global_offset: old(allocation).global_offset,
                    allocation_offset: old(allocation).used_bytes,
                    transfer_size: data@.len() as usize,
                    token_id: old(self).token_counter(),
                })),
            final(allocation).used_bytes == old(allocation).used_bytes + data@.len(),
            final(allocation).len == old(allocation).len + data@.len() as int / (old(
                allocation,
            ).elem_size as int),
            final(allocation).size == old(allocation).size,
            final(allocation).elem_size == old(allocation).elem_size,
            final(allocation).handle == old(allocation).handle,
            final(allocation).device_address == old(allocation).device_address,
            final(allocation).global_offset == old(allocation).global_offset,
    {
        let staging_buffer_offset = self.staging_buffer.stage(data);
        let pair = TransferToken::create_pair(self.next_token_id);
        let ours = pair.0;
        let theirs = pair.1;
        let transfer = PendingTransfer {
            destination: TransferDestination::Buffer(allocation.handle),
            staging_buffer_offset,
            global_offset: allocation.global_offset,
            allocation_offset: allocation.used_bytes,
            transfer_size: data.len(),
            transfer_token: ours,
        };
        self.pending_transfers.push(transfer);
        self.next_token_id = self.next_token_id + 1;
        let elems = data.len() / allocation.elem_size;
        proof {
            vstd::arithmetic::div_mod::lemma_fundamental_div_mod(
                data@.len() as int, allocation.elem_size as int);
            assert(elems * allocation.elem_size == data@.len()) by (nonlinear_arith)
                requires
                    data@.len() as int == allocation.elem_size as int * (data@.len() as int
                        / (allocation.elem_size as int)) + data@.len() as int % (
                    allocation.elem_size as int),
                    data@.len() as int % (allocation.elem_size as int) == 0,
                    elems == data@.len() as int / (allocation.elem_size as int),
            ;
            assert((allocation.len + elems) * allocation.elem_size
                == allocation.len * allocation.elem_size + elems * allocation.elem_size)
                by (nonlinear_arith);
            assert(allocation.len + elems <= (allocation.len + elems) * allocation.elem_size)
                by (nonlinear_arith)
                requires
                    allocation.elem_size >= 1,
                    allocation.len >= 0,
                    elems >= 0,
            ;
        }
        allocation.len = allocation.len + elems;
        allocation.used_bytes = allocation.used_bytes + data.len();
        proof {
            lemma_enqueue_preserves_wf(*old(self), *self, transfer);
            assert forall|i: int| 0 <= i < final(self).executed_ids().len()
                implies #[trigger] final(self).executed_ids()[i] != theirs.id_spec() by {
                assert(old(self).executed_ids()[i] == final(self).executed_ids()[i]);
            }
        }
        theirs
    }

    /// Stages `data` destined for the shared slab buffer: a fresh
    /// slab-aligned range of the heap, addressed directly by the returned
    /// device address rather than through a dedicated buffer. Returns
    /// `None` only if the range allocator had no room, leaving the
    /// allocator as it was.
    pub fn upload_to_slab(&mut self, data: &[u8]) -> (r: Option<SlabUpload>)
        requires
            old(self).wf(),
            1 <= data@.len(),
            data@.len() + SLAB_ALIGNMENT - 1 <= u32::MAX,
            old(self).staging_bytes().len() + data@.len() <= old(self).staging_capacity(),
            old(self).token_counter() < u64::MAX,
        ensures
            final(self).wf(),
            final(self).heap_size() == old(self).heap_size(),
            final(self).heap_bytes() == old(self).heap_bytes(),
            final(self).base_address() == old(self).base_address(),
            final(self).device_class() == old(self).device_class(),
            final(self).staging_capacity() == old(self).staging_capacity(),
            final(self).in_flight_records() == old(self).in_flight_records(),
            final(self).executed_ids() == old(self).executed_ids(),
            final(self).buffer_handle_counter() == old(self).buffer_handle_counter(),
            match r {
                Some(u) => {
                    &&& u.size == data@.len()
                    &&& u.transfer_token.id_spec() == old(self).token_counter()
                    &&& final(self).token_counter() == old(self).token_counter() + 1
                    &&& !final(self).executed_ids().contains(u.transfer_token.id_spec())
                    &&& u.offset.wf()
                    &&& u.offset.total_offset_spec() % (SLAB_ALIGNMENT as int) == 0
                    &&& u.device_address == old(self).base_address()
                        + u.offset.total_offset_spec()
                    &&& final(self).grants_spec() == old(self).grants_spec().push(
                        (Grant { offset: u.offset, size: data@.len() as usize }))
                    &&& final(self).staging_bytes() == old(self).staging_bytes() + data@
                    &&& final(self).pending_records() == old(self).pending_records().push(
                        (TransferRecord {
                            destination: TransferDestination::Slab,
                            staging_buffer_offset: old(self).staging_bytes().len() as usize,
                            global_offset: u.offset,
                            allocation_offset: 0,
                            transfer_size: data@.len() as usize,
                            token_id: old(self).token_counter(),
                        }))
                },
                None => {
                    &&& final(self).token_counter() == old(self).token_counter()
                    &&& final(self).grants_spec() == old(self).grants_spec()
                    &&& final(self).staging_bytes() == old(self).staging_bytes()
                    &&& final(self).pending_records() == old(self).pending_records()
                },
            },
    {
        let size = data.len();
        match self.allocate_offset(size as u32, SLAB_ALIGNMENT) {
            None => None,
            Some(off) => {
                let ghost mid = *self;
                let g = Grant { offset: off, size };
                self.grants = Ghost(self.grants@.push(g));
                proof {
                    lemma_grant_offset_fresh(*old(self), off);
                    lemma_push_grant_preserves_wf(mid, *self, g);
                }
                let ghost before = *self;
                let staging_buffer_offset = self.staging_buffer.stage(data);
                let pair = TransferToken::create_pair(self.next_token_id);
                let ours = pair.0;
                let theirs = pair.1;
                let transfer = PendingTransfer {
                    destination: TransferDestination::Slab,
                    staging_buffer_offset,
                    global_offset: off,
                    allocation_offset: 0,
                    transfer_size: size,
                    transfer_token: ours,
                };
                self.pending_transfers.push(transfer);
                self.next_token_id = self.next_token_id + 1;
                let total = off.total_offset();
                let device_address = self.backend.get_device_address(total);
                proof {
                    lemma_enqueue_preserves_wf(before, *self, transfer);
                    assert forall|i: int| 0 <= i < final(self).executed_ids().len()
                        implies #[trigger] final(self).executed_ids()[i] != theirs.id_spec()
                        by {
                        assert(old(self).executed_ids()[i] == final(self).executed_ids()[i]);
                    }
                }
                Some(SlabUpload { device_address, size, transfer_token: theirs, offset: off })
            },
        }
    }

    /// Drains the pending transfer queue in FIFO order against the active
    /// backend, returning the commands the host must record into the
    /// frame's command buffer. Call once per frame, while that command
    /// buffer is recording and after the previous frame's
    /// `transfers_complete`.
    ///
    /// On a discrete device every transfer becomes copy and barrier
    /// commands, and the drained transfers wait in flight until the fence
    /// acknowledged by `transfers_complete`. On an integrated device
    /// buffer and slab payloads are copied into the mapped heap by the
    /// host immediately and their tokens complete here, in staging order;
    /// image payloads still need device-side commands and wait in flight.
    pub fn execute_transfers(&mut self) -> (cmds: Vec<TransferCommand>)
        requires
            old(self).wf(),
            old(self).in_flight_records().len() == 0,
        ensures
            final(self).wf(),
            final(self).pending_records().len() == 0,
            final(self).staging_bytes() == old(self).staging_bytes(),
            final(self).staging_capacity() == old(self).staging_capacity(),
            final(self).heap_size() == old(self).heap_size(),
            final(self).base_address() == old(self).base_address(),
            final(self).device_class() == old(self).device_class(),
            final(self).grants_spec() == old(self).grants_spec(),
            final(self).token_counter() == old(self).token_counter(),
            final(self).buffer_handle_counter() == old(self).buffer_handle_counter(),
            old(self).device_class() == DeviceClass::Discrete ==> {
                &&& final(self).heap_bytes() == old(self).heap_bytes()
                &&& final(self).in_flight_records() == old(self).pending_records()
                &&& final(self).executed_ids() == old(self).executed_ids()
                &&& cmds@ == commands_of(old(self).pending_records())
            },
            old(self).device_class() == DeviceClass::Integrated ==> {
                &&& final(self).heap_bytes() == heap_after(
                    old(self).pending_records(), old(self).heap_bytes(),
                    old(self).staging_bytes())
                &&& final(self).in_flight_records() == image_records_of(
                    old(self).pending_records())
                &&& final(self).executed_ids() == old(self).executed_ids() + direct_ids_of(
                    old(self).pending_records())
                &&& cmds@ == commands_of(image_records_of(old(self).pending_records()))
            },
    {
        let ghost rs = old(self).pending_records();
        let mut queue: Vec<PendingTransfer> = Vec::new();
        core::mem::swap(&mut self.pending_transfers, &mut queue);
        let ghost q0 = queue@;
        let initial_len = queue.len();
        proof {
            assert(q0.len() == initial_len as int);
        }
        let mut cmds: Vec<TransferCommand> = Vec::new();
        let mut i: usize = 0;
        let discrete = match self.backend.class() {
            DeviceClass::Discrete => true,
            DeviceClass::Integrated => false,
        };
        proof {
            assert(self.in_flight@.len() == 0);
            assert(self.in_flight@ =~= q0.take(0));
            assert(records_of(self.in_flight@).len() == 0);
            assert(records_of(self.in_flight@) =~= image_records_of(rs.take(0)));
            assert(self.executed@ =~= old(self).executed@ + direct_ids_of(rs.take(0)));
        }
        if discrete {
            while queue.len() > 0
                invariant
                    old(self).wf(),
                    old(self).device_class() == DeviceClass::Discrete,
                    rs == old(self).pending_records(),
                    rs == records_of(q0),
                    rs.len() == q0.len(),
                    q0.len() <= usize::MAX,
                    i + queue@.len() == q0.len(),
                    queue@ == q0.skip(i as int),
                    self.pending_transfers@.len() == 0,
                    self.backend == old(self).backend,
                    self.staging_buffer == old(self).staging_buffer,
                    self.offsets == old(self).offsets,
                    self.grants == old(self).grants,
                    self.executed == old(self).executed,
                    self.next_token_id == old(self).next_token_id,
                    self.next_buffer_handle == old(self).next_buffer_handle,
                    self.in_flight@ == q0.take(i as int),
                    cmds@ == commands_of(rs.take(i as int)),
                decreases queue@.len(),
            {
                let t = queue.remove(0);
                proof {
                    assert(queue@ =~= q0.skip(i as int + 1));
                    assert(t == q0[i as int]);
                    assert(record_of(t) == rs[i as int]);
                    assert(Allocator::record_wf(
                        rs[i as int], old(self).heap_size(),
                        old(self).staging_bytes().len() as int));
                }
                match t.destination {
                    TransferDestination::Buffer(b) => {
                        cmds.push(TransferCommand::CopyBuffer {
                            buffer: b,
                            src_offset: t.staging_buffer_offset,
                            dst_offset: t.allocation_offset,
                            size: t.transfer_size,
                        });
                        cmds.push(TransferCommand::BufferBarrier {
                            buffer: b,
                            size: t.transfer_size,
                        });
                    },
                    TransferDestination::Slab => {
                        let dst = t.global_offset.total_offset() + t.allocation_offset;
                        cmds.push(TransferCommand::CopyBuffer {
                            buffer: SLAB_BUFFER_HANDLE,
                            src_offset: t.staging_buffer_offset,
                            dst_offset: dst,
                            size: t.transfer_size,
                        });
                        cmds.push(TransferCommand::BufferBarrier {
                            buffer: SLAB_BUFFER_HANDLE,
                            size: t.transfer_size,
                        });
                    },
                    TransferDestination::Image(image, extent) => {
                        cmds.push(TransferCommand::PrepareImage { image });
                        cmds.push(TransferCommand::CopyBufferToImage {
                            image,
                            src_offset: t.staging_buffer_offset,
                            width: extent.width,
                            height: extent.height,
                        });
                        cmds.push(TransferCommand::FinishImage { image });
                    },
                }
                self.in_flight.push(t);
                i = i + 1;
                proof {
                    assert(rs.take(i as int).drop_last() =~= rs.take(i as int - 1));
                    assert(rs.take(i as int).last() == rs[i as int - 1]);
                    assert(cmds@ =~= commands_of(rs.take(i as int)));
                    assert(self.in_flight@ =~= q0.take(i as int));
                }
            }
            proof {
                assert(q0.take(q0.len() as int) =~= q0);
                assert(rs.take(rs.len() as int) =~= rs);
                assert(self.in_flight@ == q0);
                assert(final(self).in_flight_records() == rs);
                assert forall|j: int| 0 <= j < final(self).in_flight_records().len()
                    implies Allocator::record_wf(
                        #[trigger] final(self).in_flight_records()[j], final(self).heap_size(),
                        final(self).staging_bytes().len() as int)
                        && final(self).in_flight_records()[j].token_id < final(self).token_counter() by {
                    assert(old(self).pending_records()[j] == final(self).in_flight_records()[j]);
                }
                assert forall|j: int| 0 <= j < final(self).executed_ids().len()
                    implies #[trigger] final(self).executed_ids()[j] < final(self).token_counter() by {
                    assert(old(self).executed_ids()[j] == final(self).executed_ids()[j]);
                }
                lemma_drain_preserves_wf(*old(self), *self);
            }
            cmds
        } else {
            while queue.len() > 0
                invariant
                    old(self).wf(),
                    old(self).device_class() == DeviceClass::Integrated,
                    rs == old(self).pending_records(),
                    rs == records_of(q0),
                    rs.len() == q0.len(),
                    q0.len() <= usize::MAX,
                    i + queue@.len() == q0.len(),
                    queue@ == q0.skip(i as int),
                    self.pending_transfers@.len() == 0,
                    self.backend.wf(),
                    self.backend.class_spec() == old(self).backend.class_spec(),
                    self.backend.region_spec().base_address_spec() == old(self).base_address(),
                    self.backend.region_spec().bytes_spec().len() == old(self).heap_size(),
                    self.backend.region_spec().bytes_spec() == heap_after(
                        rs.take(i as int), old(self).heap_bytes(), old(self).staging_bytes()),
                    self.staging_buffer == old(self).staging_buffer,
                    self.offsets == old(self).offsets,
                    self.grants == old(self).grants,
                    self.next_token_id == old(self).next_token_id,
                    self.next_buffer_handle == old(self).next_buffer_handle,
                    self.executed@ == old(self).executed@ + direct_ids_of(rs.take(i as int)),
                    records_of(self.in_flight@) == image_records_of(rs.take(i as int)),
                    cmds@ == commands_of(image_records_of(rs.take(i as int))),
                decreases queue@.len(),
            {
                let t = queue.remove(0);
                proof {
                    assert(queue@ =~= q0.skip(i as int + 1));
                    assert(t == q0[i as int]);
                    assert(record_of(t) == rs[i as int]);
                    assert(Allocator::record_wf(
                        rs[i as int], old(self).heap_size(),
                        old(self).staging_bytes().len() as int));
                }
                match t.destination {
                    TransferDestination::Image(image, extent) => {
                        cmds.push(TransferCommand::PrepareImage { image });
                        cmds.push(TransferCommand::CopyBufferToImage {
                            image,
                            src_offset: t.staging_buffer_offset,
                            width: extent.width,
                            height: extent.height,
                        });
                        cmds.push(TransferCommand::FinishImage { image });
                        self.in_flight.push(t);
                        i = i + 1;
                        proof {
                            assert(rs.take(i as int).drop_last() =~= rs.take(i as int - 1));
                            assert(rs.take(i as int).last() == rs[i as int - 1]);
                            let prev = image_records_of(rs.take(i as int - 1));
                            let cur = image_records_of(rs.take(i as int));
                            assert(cur =~= prev.push(rs[i as int - 1]));
                            assert(cur.drop_last() =~= prev);
                            assert(cur.last() == rs[i as int - 1]);
                            assert(records_of(self.in_flight@) =~= cur);
                            assert(cmds@ =~= commands_of(cur));
                            assert(self.executed@ =~= old(self).executed@ + direct_ids_of(
                                rs.take(i as int)));
                            assert(heap_after(
                                rs.take(i as int), old(self).heap_bytes(),
                                old(self).staging_bytes()) == self.backend.region_spec()
                                .bytes_spec());
                        }
                    },
                    _ => {
                        // A buffer or slab payload: the heap is host
                        // mapped, so the copy happens right here and the
                        // token completes at once.
                        let dst = t.global_offset.total_offset() + t.allocation_offset;
                        let src = self.staging_buffer.as_bytes();
                        let region = self.backend.region_mut();
                        region.write_bytes(dst, src, t.staging_buffer_offset, t.transfer_size);
                        t.transfer_token.mark_completed();
                        self.executed = Ghost(self.executed@.push(record_of(t).token_id));
                        i = i + 1;
                        proof {
                            assert(rs.take(i as int).drop_last() =~= rs.take(i as int - 1));
                            assert(rs.take(i as int).last() == rs[i as int - 1]);
                            assert(!rs[i as int - 1].is_image());
                            assert(image_records_of(rs.take(i as int)) =~= image_records_of(
                                rs.take(i as int - 1)));
                            assert(direct_ids_of(rs.take(i as int)) =~= direct_ids_of(
                                rs.take(i as int - 1)) + seq![rs[i as int - 1].token_id]);
                            assert(self.executed@ =~= old(self).executed@ + direct_ids_of(
                                rs.take(i as int)));
                            assert(self.backend.region_spec().bytes_spec() == apply_record(
                                heap_after(
                                    rs.take(i as int - 1), old(self).heap_bytes(),
                                    old(self).staging_bytes()),
                                old(self).staging_bytes(), rs[i as int - 1]));
                        }
                    },
                }
            }
            proof {
                assert(q0.take(q0.len() as int) =~= q0);
                assert(rs.take(rs.len() as int) =~= rs);
                lemma_image_records_bounded(
                    rs, old(self).heap_size(), old(self).staging_bytes().len() as int,
                    old(self).token_counter());
                lemma_direct_ids_bounded(rs, old(self).token_counter());
                assert forall|j: int| 0 <= j < final(self).in_flight_records().len()
                    implies Allocator::record_wf(
                        #[trigger] final(self).in_flight_records()[j], final(self).heap_size(),
                        final(self).staging_bytes().len() as int)
                        && final(self).in_flight_records()[j].token_id < final(self).token_counter() by {
                    assert(final(self).in_flight_records()[j] == image_records_of(rs)[j]);
                }
                assert forall|j: int| 0 <= j < final(self).executed_ids().len()
                    implies #[trigger] final(self).executed_ids()[j] < final(self).token_counter() by {
                    let n0 = old(self).executed_ids().len() as int;
                    if j < n0 {
                        assert(final(self).executed_ids()[j] == old(self).executed_ids()[j]);
                    } else {
                        assert(final(self).executed_ids()[j] == direct_ids_of(rs)[j - n0]);
                    }
                }
                lemma_drain_preserves_wf(*old(self), *self);
            }
            cmds
        }
    }

    /// Acknowledges that the device has finished every transfer recorded
    /// by the matching `execute_transfers`. The caller must hold
    /// independent proof — a device fence or equivalent — that those
    /// commands have finished executing; calling earlier corrupts
    /// in-flight transfers on a discrete device.
    ///
    /// The in-flight transfers land in the heap and their tokens complete
    /// in execution order; the staging ring resets for the next frame.
    pub fn transfers_complete(&mut self)
        requires
            old(self).wf(),
            old(self).pending_records().len() == 0,
        ensures
            final(self).wf(),
            final(self).pending_records().len() == 0,
            final(self).in_flight_records().len() == 0,
            final(self).staging_bytes() == Seq::<u8>::empty(),
            final(self).staging_capacity() == old(self).staging_capacity(),
            final(self).heap_size() == old(self).heap_size(),
            final(self).base_address() == old(self).base_address(),
            final(self).device_class() == old(self).device_class(),
            final(self).grants_spec() == old(self).grants_spec(),
            final(self).token_counter() == old(self).token_counter(),
            final(self).buffer_handle_counter() == old(self).buffer_handle_counter(),
            final(self).heap_bytes() == heap_after(
                old(self).in_flight_records(), old(self).heap_bytes(),
                old(self).staging_bytes()),
            final(self).executed_ids() == old(self).executed_ids() + ids_of(
                old(self).in_flight_records()),
    {
        let ghost rs = old(self).in_flight_records();
        let mut queue: Vec<PendingTransfer> = Vec::new();
        core::mem::swap(&mut self.in_flight, &mut queue);
        let ghost q0 = queue@;
        let initial_len = queue.len();
        proof {
            assert(q0.len() == initial_len as int);
        }
        let mut i: usize = 0;
        proof {
            assert(self.executed@ =~= old(self).executed@ + ids_of(rs.take(0)));
        }
        while queue.len() > 0
            invariant
                old(self).wf(),
                rs == old(self).in_flight_records(),
                rs == records_of(q0),
                rs.len() == q0.len(),
                q0.len() <= usize::MAX,
                i + queue@.len() == q0.len(),
                queue@ == q0.skip(i as int),
                self.pending_transfers@.len() == 0,
                self.in_flight@.len() == 0,
                self.backend.wf(),
                self.backend.class_spec() == old(self).backend.class_spec(),
                self.backend.region_spec().base_address_spec() == old(self).base_address(),
                self.backend.region_spec().bytes_spec().len() == old(self).heap_size(),
                self.backend.region_spec().bytes_spec() == heap_after(
                    rs.take(i as int), old(self).heap_bytes(), old(self).staging_bytes()),
                self.staging_buffer == old(self).staging_buffer,
                self.offsets == old(self).offsets,
                self.grants == old(self).grants,
                self.next_token_id == old(self).next_token_id,
                self.next_buffer_handle == old(self).next_buffer_handle,
                self.executed@ == old(self).executed@ + ids_of(rs.take(i as int)),
            decreases queue@.len(),
        {
            let t = queue.remove(0);
            proof {
                assert(queue@ =~= q0.skip(i as int + 1));
                assert(t == q0[i as int]);
                assert(record_of(t) == rs[i as int]);
                assert(Allocator::record_wf(
                    rs[i as int], old(self).heap_size(),
                    old(self).staging_bytes().len() as int));
            }
            match t.destination {
                TransferDestination::Image(_, _) => {
                    // The image copy was performed by the device; its
                    // bytes are not part of the heap model.
                },
                _ => {
                    let dst = t.global_offset.total_offset() + t.allocation_offset;
                    let src = self.staging_buffer.as_bytes();
                    let region = self.backend.region_mut();
                    region.write_bytes(dst, src, t.staging_buffer_offset, t.transfer_size);
                },
            }
            t.transfer_token.mark_completed();
            self.executed = Ghost(self.executed@.push(record_of(t).token_id));
            i = i + 1;
            proof {
                assert(rs.take(i as int).drop_last() =~= rs.take(i as int - 1));
                assert(rs.take(i as int).last() == rs[i as int - 1]);
                assert(ids_of(rs.take(i as int)) =~= ids_of(rs.take(i as int - 1)) + seq![
                    rs[i as int - 1].token_id]);
                assert(self.executed@ =~= old(self).executed@ + ids_of(rs.take(i as int)));
                assert(self.backend.region_spec().bytes_spec() == heap_after(
                    rs.take(i as int), old(self).heap_bytes(), old(self).staging_bytes()));
            }
        }
        self.staging_buffer.clear();
        proof {
            assert(q0.take(q0.len() as int) =~= q0);
            assert(rs.take(rs.len() as int) =~= rs);
            lemma_ids_bounded(rs, old(self).token_counter());
            assert forall|j: int| 0 <= j < final(self).executed_ids().len()
                implies #[trigger] final(self).executed_ids()[j] < final(self).token_counter() by {
                let n0 = old(self).executed_ids().len() as int;
                if j < n0 {
                    assert(final(self).executed_ids()[j] == old(self).executed_ids()[j]);
                } else {
                    assert(final(self).executed_ids()[j] == ids_of(rs)[j - n0]);
                }
            }
            lemma_drain_preserves_wf(*old(self), *self);
        }
    }

    /// Reads `len` bytes of the heap model starting at `offset`: the
    /// destination contents as of the last landed transfer batch.
    pub fn read_back(&self, offset: usize, len: usize) -> (r: Vec<u8>)
        requires
            offset + len <= self.heap_bytes().len(),
        ensures
            r@ == self.heap_bytes().subrange(offset as int, offset + len),
    {
        self.backend.region().read_bytes(offset, len)
    }

    /// The memory architecture the backend was built for.
    pub fn class(&self) -> (r: DeviceClass)
        ensures
            r == self.device_class(),
    {
        self.backend.class()
    }

    /// The size of the global heap in bytes.
    pub fn heap_len(&self) -> (r: usize)
        ensures
            r == self.heap_size(),
    {
        self.backend.region().len()
    }

    /// How many transfers are staged and not yet executed.
    pub fn pending_count(&self) -> (r: usize)
        ensures
            r == self.pending_records().len(),
    {
        self.pending_transfers.len()
    }

    /// How many executed transfers await their fence acknowledgement.
    pub fn in_flight_count(&self) -> (r: usize)
        ensures
            r == self.in_flight_records().len(),
    {
        self.in_flight.len()
    }

    /// How many bytes of the staging ring the current frame has used.
    pub fn staging_used(&self) -> (r: usize)
        ensures
            r == self.staging_bytes().len(),
    {
        self.staging_buffer.len()
    }

    /// The fixed capacity of the staging ring.
    pub fn staging_limit(&self) -> (r: usize)
        ensures
            r == self.staging_capacity(),
    {
        self.staging_buffer.capacity()
    }
}

/// Rounding an offset up to the next multiple of `align` lands on a
/// multiple of `align`, fewer than `align` bytes further.
proof fn lemma_aligned_bind(offset: int, align: int)
    requires
        align >= 1,
        offset >= 0,
    ensures
        (offset % align == 0) ==> (offset % align == 0),
        (offset % align != 0) ==> {
            let pad = align - offset % align;
            &&& 0 < pad < align
            &&& (offset + pad) % align == 0
        },
{
    let rem = offset % align;
    if rem != 0 {
        let pad = align - rem;
        assert((offset + pad) % align == 0) by (nonlinear_arith)
            requires
                align >= 1,
                offset >= 0,
                rem == offset % align,
                rem != 0,
                pad == align - rem,
        ;
    }
}

/// Replacing the range allocator by one with the same live ranges and
/// total size preserves the allocator's well-formedness.
proof fn lemma_same_ranges_preserves_wf(pre: Allocator, post: Allocator)
    requires
        pre.wf(),
        live_ranges(post.offsets) == live_ranges(pre.offsets),
        total_size(post.offsets) == total_size(pre.offsets),
        post.backend == pre.backend,
        post.staging_buffer == pre.staging_buffer,
        post.pending_transfers == pre.pending_transfers,
        post.in_flight == pre.in_flight,
        post.next_token_id == pre.next_token_id,
        post.next_buffer_handle == pre.next_buffer_handle,
        post.grants == pre.grants,
        post.executed == pre.executed,
    ensures
        post.wf(),
{
    let ranges = live_ranges(pre.offsets);
    assert forall|o: u32| #[trigger] live_ranges(post.offsets).contains_key(o)
        implies 1 <= live_ranges(post.offsets)[o] && o + live_ranges(post.offsets)[o]
            <= post.heap_size() by {
        assert(ranges.contains_key(o));
    }
    assert forall|o1: u32, o2: u32|
        live_ranges(post.offsets).contains_key(o1) && live_ranges(post.offsets).contains_key(o2)
            && o1 != o2
        implies ranges_disjoint(
            o1 as int, live_ranges(post.offsets)[o1] as int,
            o2 as int, live_ranges(post.offsets)[o2] as int) by {
        assert(ranges.contains_key(o1));
        assert(ranges.contains_key(o2));
    }
    assert forall|i: int| 0 <= i < post.grants_spec().len() implies {
        let g = #[trigger] post.grants_spec()[i];
        &&& g.offset.wf()
        &&& g.offset.bind_offset + g.size <= g.offset.raw_size
        &&& live_ranges(post.offsets).contains_key(g.offset.raw_offset)
        &&& live_ranges(post.offsets)[g.offset.raw_offset] == g.offset.raw_size
    } by {
        assert(pre.grants_spec()[i] == post.grants_spec()[i]);
    }
    assert forall|i: int, j: int|
        0 <= i < post.grants_spec().len() && 0 <= j < post.grants_spec().len() && i != j
        implies post.grants_spec()[i].offset.raw_offset != post.grants_spec()[j].offset.raw_offset
        by {
        assert(pre.grants_spec()[i] == post.grants_spec()[i]);
        assert(pre.grants_spec()[j] == post.grants_spec()[j]);
    }
    assert forall|i: int| 0 <= i < post.executed_ids().len()
        implies #[trigger] post.executed_ids()[i] < post.token_counter() by {
        assert(pre.executed_ids()[i] == post.executed_ids()[i]);
    }
}

/// Inserting a fresh range that is disjoint from every live range
/// preserves the allocator's well-formedness: bounds, pairwise
/// disjointness, and the linkage of previously issued grants.
proof fn lemma_insert_preserves_wf(pre: Allocator, post: Allocator, offset: u32, size: u32)
    requires
        pre.wf(),
        size >= 1,
        offset + size <= pre.heap_size(),
        forall|o: u32| #[trigger] live_ranges(pre.offsets).contains_key(o)
            ==> ranges_disjoint(
                offset as int, size as int, o as int, live_ranges(pre.offsets)[o] as int),
        live_ranges(post.offsets) == live_ranges(pre.offsets).insert(offset, size),
        total_size(post.offsets) == total_size(pre.offsets),
        post.backend == pre.backend,
        post.staging_buffer == pre.staging_buffer,
        post.pending_transfers == pre.pending_transfers,
        post.in_flight == pre.in_flight,
        post.next_token_id == pre.next_token_id,
        post.next_buffer_handle == pre.next_buffer_handle,
        post.grants == pre.grants,
        post.executed == pre.executed,
    ensures
        post.wf(),
        !live_ranges(pre.offsets).contains_key(offset),
{
    let pre_ranges = live_ranges(pre.offsets);
    let post_ranges = live_ranges(post.offsets);
    // The fresh offset is not a live key: a live key's range holds at
    // least one byte and would have to be disjoint from itself.
    assert(!pre_ranges.contains_key(offset));
    assert forall|o: u32| #[trigger] post_ranges.contains_key(o)
        implies 1 <= post_ranges[o] && o + post_ranges[o] <= post.heap_size() by {
        if o != offset {
            assert(pre_ranges.contains_key(o));
        }
    }
    assert forall|o1: u32, o2: u32|
        post_ranges.contains_key(o1) && post_ranges.contains_key(o2) && o1 != o2
        implies ranges_disjoint(
            o1 as int, post_ranges[o1] as int, o2 as int, post_ranges[o2] as int) by {
        if o1 == offset {
            assert(pre_ranges.contains_key(o2));
        } else if o2 == offset {
            assert(pre_ranges.contains_key(o1));
        } else {
            assert(pre_ranges.contains_key(o1));
            assert(pre_ranges.contains_key(o2));
        }
    }
    assert forall|i: int| 0 <= i < post.grants_spec().len() implies {
        let g = #[trigger] post.grants_spec()[i];
        &&& g.offset.wf()
        &&& g.offset.bind_offset + g.size <= g.offset.raw_size
        &&& post_ranges.contains_key(g.offset.raw_offset)
        &&& post_ranges[g.offset.raw_offset] == g.offset.raw_size
    } by {
        let g = post.grants_spec()[i];
        assert(pre.grants_spec()[i] == g);
        assert(pre_ranges.contains_key(g.offset.raw_offset));
        assert(g.offset.raw_offset != offset);
    }
    assert forall|i: int, j: int|
        0 <= i < post.grants_spec().len() && 0 <= j < post.grants_spec().len() && i != j
        implies post.grants_spec()[i].offset.raw_offset != post.grants_spec()[j].offset.raw_offset
        by {
        assert(pre.grants_spec()[i] == post.grants_spec()[i]);
        assert(pre.grants_spec()[j] == post.grants_spec()[j]);
    }
    assert forall|i: int| 0 <= i < post.executed_ids().len()
        implies #[trigger] post.executed_ids()[i] < post.token_counter() by {
        assert(pre.executed_ids()[i] == post.executed_ids()[i]);
    }
}

/// A range just granted by the range allocator starts at none of the
/// previously issued grants' raw offsets: it is disjoint from every live
/// range, and each issued grant is a live range of at least one byte.
proof fn lemma_grant_offset_fresh(pre: Allocator, off: Offset)
    requires
        pre.wf(),
        off.raw_size >= 1,
        forall|o: u32| #[trigger] live_ranges(pre.offsets).contains_key(o)
            ==> ranges_disjoint(
                off.raw_offset as int, off.raw_size as int,
                o as int, live_ranges(pre.offsets)[o] as int),
    ensures
        forall|i: int| 0 <= i < pre.grants_spec().len()
            ==> (#[trigger] pre.grants_spec()[i]).offset.raw_offset != off.raw_offset,
{
    assert forall|i: int| 0 <= i < pre.grants_spec().len()
        implies (#[trigger] pre.grants_spec()[i]).offset.raw_offset != off.raw_offset by {
        let go = pre.grants_spec()[i].offset.raw_offset;
        assert(live_ranges(pre.offsets).contains_key(go));
    }
}

/// Recording one more grant whose raw range is live, distinct from every
/// earlier grant's, and long enough for the bound payload preserves the
/// allocator's well-formedness.
proof fn lemma_push_grant_preserves_wf(pre: Allocator, post: Allocator, g: Grant)
    requires
        pre.wf(),
        post.backend == pre.backend,
        post.staging_buffer == pre.staging_buffer,
        post.offsets == pre.offsets,
        post.pending_transfers == pre.pending_transfers,
        post.in_flight == pre.in_flight,
        post.executed == pre.executed,
        post.next_token_id == pre.next_token_id,
        post.next_buffer_handle >= 1,
        post.grants@ == pre.grants@.push(g),
        g.offset.wf(),
        g.offset.bind_offset + g.size <= g.offset.raw_size,
        live_ranges(pre.offsets).contains_key(g.offset.raw_offset),
        live_ranges(pre.offsets)[g.offset.raw_offset] == g.offset.raw_size,
        forall|i: int| 0 <= i < pre.grants_spec().len()
            ==> (#[trigger] pre.grants_spec()[i]).offset.raw_offset != g.offset.raw_offset,
    ensures
        post.wf(),
{
    assert forall|i: int| 0 <= i < post.grants_spec().len() implies {
        let gi = #[trigger] post.grants_spec()[i];
        &&& gi.offset.wf()
        &&& gi.offset.bind_offset + gi.size <= gi.offset.raw_size
        &&& live_ranges(post.offsets).contains_key(gi.offset.raw_offset)
        &&& live_ranges(post.offsets)[gi.offset.raw_offset] == gi.offset.raw_size
    } by {
        if i < pre.grants_spec().len() {
            assert(pre.grants_spec()[i] == post.grants_spec()[i]);
        } else {
            assert(post.grants_spec()[i] == g);
        }
    }
    assert forall|i: int, j: int|
        0 <= i < post.grants_spec().len() && 0 <= j < post.grants_spec().len() && i != j
        implies post.grants_spec()[i].offset.raw_offset != post.grants_spec()[j].offset.raw_offset
        by {
        let n = pre.grants_spec().len() as int;
        if i < n && j < n {
            assert(pre.grants_spec()[i] == post.grants_spec()[i]);
            assert(pre.grants_spec()[j] == post.grants_spec()[j]);
        } else if i < n {
            assert(pre.grants_spec()[i] == post.grants_spec()[i]);
            assert(post.grants_spec()[j] == g);
        } else {
            assert(post.grants_spec()[i] == g);
            assert(pre.grants_spec()[j] == post.grants_spec()[j]);
        }
    }
    assert forall|i: int| 0 <= i < post.executed_ids().len()
        implies #[trigger] post.executed_ids()[i] < post.token_counter() by {
        assert(pre.executed_ids()[i] == post.executed_ids()[i]);
    }
}

/// Staging a payload and enqueueing its transfer preserves the
/// allocator's well-formedness: earlier queued transfers still read
/// staged bytes (the cursor only grew), and the new transfer reads the
/// bytes just staged and carries the id just minted.
proof fn lemma_enqueue_preserves_wf(pre: Allocator, post: Allocator, t: PendingTransfer)
    requires
        pre.wf(),
        post.backend == pre.backend,
        post.offsets == pre.offsets,
        post.grants == pre.grants,
        post.in_flight == pre.in_flight,
        post.executed == pre.executed,
        post.next_buffer_handle == pre.next_buffer_handle,
        pre.next_token_id < u64::MAX,
        post.next_token_id == pre.next_token_id + 1,
        t.transfer_token.id_spec() == pre.next_token_id,
        post.staging_buffer.wf(),
        post.staging_buffer.capacity_spec() == pre.staging_buffer.capacity_spec(),
        post.staging_bytes().len() >= pre.staging_bytes().len(),
        post.pending_transfers@ == pre.pending_transfers@.push(t),
        Allocator::record_wf(record_of(t), pre.heap_size(), post.staging_bytes().len() as int),
    ensures
        post.wf(),
        post.pending_records() == pre.pending_records().push(record_of(t)),
{
    assert(post.pending_records() =~= pre.pending_records().push(record_of(t)));
    let n = pre.pending_records().len() as int;
    assert forall|i: int| 0 <= i < post.pending_records().len()
        implies Allocator::record_wf(
            #[trigger] post.pending_records()[i], post.heap_size(),
            post.staging_bytes().len() as int) by {
        if i < n {
            assert(pre.pending_records()[i] == post.pending_records()[i]);
        } else {
            assert(post.pending_records()[i] == record_of(t));
        }
    }
    assert forall|i: int| 0 <= i < post.in_flight_records().len()
        implies Allocator::record_wf(
            #[trigger] post.in_flight_records()[i], post.heap_size(),
            post.staging_bytes().len() as int) by {
        assert(pre.in_flight_records()[i] == post.in_flight_records()[i]);
    }
    assert forall|i: int| 0 <= i < post.pending_records().len()
        implies (#[trigger] post.pending_records()[i]).token_id < post.token_counter() by {
        if i < n {
            assert(pre.pending_records()[i] == post.pending_records()[i]);
        } else {
            assert(post.pending_records()[i] == record_of(t));
        }
    }
    assert forall|i: int| 0 <= i < post.in_flight_records().len()
        implies (#[trigger] post.in_flight_records()[i]).token_id < post.token_counter() by {
        assert(pre.in_flight_records()[i] == post.in_flight_records()[i]);
    }
    assert forall|i: int| 0 <= i < post.executed_ids().len()
        implies #[trigger] post.executed_ids()[i] < post.token_counter() by {
        assert(pre.executed_ids()[i] == post.executed_ids()[i]);
    }
    assert forall|i: int| 0 <= i < post.grants_spec().len() implies {
        let gi = #[trigger] post.grants_spec()[i];
        &&& gi.offset.wf()
        &&& gi.offset.bind_offset + gi.size <= gi.offset.raw_size
        &&& live_ranges(post.offsets).contains_key(gi.offset.raw_offset)
        &&& live_ranges(post.offsets)[gi.offset.raw_offset] == gi.offset.raw_size
    } by {
        assert(pre.grants_spec()[i] == post.grants_spec()[i]);
    }
    assert forall|i: int, j: int|
        0 <= i < post.grants_spec().len() && 0 <= j < post.grants_spec().len() && i != j
        implies post.grants_spec()[i].offset.raw_offset != post.grants_spec()[j].offset.raw_offset
        by {
        assert(pre.grants_spec()[i] == post.grants_spec()[i]);
        assert(pre.grants_spec()[j] == post.grants_spec()[j]);
    }
}

/// Minting a token pair as already complete (a transfer with nothing to
/// do) preserves the allocator's well-formedness: the id just minted is
/// recorded as landed and stays below the bumped counter.
proof fn lemma_mint_completed_preserves_wf(pre: Allocator, post: Allocator, id: u64)
    requires
        pre.wf(),
        post.backend == pre.backend,
        post.staging_buffer == pre.staging_buffer,
        post.offsets == pre.offsets,
        post.grants == pre.grants,
        post.pending_transfers == pre.pending_transfers,
        post.in_flight == pre.in_flight,
        post.next_buffer_handle == pre.next_buffer_handle,
        pre.next_token_id < u64::MAX,
        post.next_token_id == pre.next_token_id + 1,
        id == pre.next_token_id,
        post.executed@ == pre.executed@.push(id),
    ensures
        post.wf(),
{
    let n = pre.executed_ids().len() as int;
    assert forall|i: int| 0 <= i < post.executed_ids().len()
        implies #[trigger] post.executed_ids()[i] < post.token_counter() by {
        if i < n {
            assert(pre.executed_ids()[i] == post.executed_ids()[i]);
        } else {
            assert(post.executed_ids()[i] == id);
        }
    }
    assert forall|i: int| 0 <= i < post.pending_records().len()
        implies (#[trigger] post.pending_records()[i]).token_id < post.token_counter() by {
        assert(pre.pending_records()[i] == post.pending_records()[i]);
    }
    assert forall|i: int| 0 <= i < post.in_flight_records().len()
        implies (#[trigger] post.in_flight_records()[i]).token_id < post.token_counter() by {
        assert(pre.in_flight_records()[i] == post.in_flight_records()[i]);
    }
    assert forall|i: int| 0 <= i < post.grants_spec().len() implies {
        let gi = #[trigger] post.grants_spec()[i];
        &&& gi.offset.wf()
        &&& gi.offset.bind_offset + gi.size <= gi.offset.raw_size
        &&& live_ranges(post.offsets).contains_key(gi.offset.raw_offset)
        &&& live_ranges(post.offsets)[gi.offset.raw_offset] == gi.offset.raw_size
    } by {
        assert(pre.grants_spec()[i] == post.grants_spec()[i]);
    }
    assert forall|i: int, j: int|
        0 <= i < post.grants_spec().len() && 0 <= j < post.grants_spec().len() && i != j
        implies post.grants_spec()[i].offset.raw_offset != post.grants_spec()[j].offset.raw_offset
        by {
        assert(pre.grants_spec()[i] == post.grants_spec()[i]);
        assert(pre.grants_spec()[j] == post.grants_spec()[j]);
    }
}

/// Every element of `image_records_of(s)` is an element of `s`: if every
/// record of a queue is well formed and carries an id below the counter,
/// so does every image record of it.
proof fn lemma_image_records_bounded(s: Seq<TransferRecord>, heap: int, stg: int, counter: u64)
    requires
        forall|k: int| 0 <= k < s.len() ==> Allocator::record_wf(#[trigger] s[k], heap, stg)
            && s[k].token_id < counter,
    ensures
        forall|j: int| 0 <= j < image_records_of(s).len()
            ==> Allocator::record_wf(#[trigger] image_records_of(s)[j], heap, stg)
                && image_records_of(s)[j].token_id < counter,
    decreases s.len(),
{
    if s.len() > 0 {
        assert(forall|k: int| 0 <= k < s.drop_last().len()
            ==> #[trigger] s.drop_last()[k] == s[k]);
        lemma_image_records_bounded(s.drop_last(), heap, stg, counter);
        assert(s.last() == s[s.len() - 1]);
        let pre = image_records_of(s.drop_last());
        assert forall|j: int| 0 <= j < image_records_of(s).len()
            implies Allocator::record_wf(#[trigger] image_records_of(s)[j], heap, stg)
                && image_records_of(s)[j].token_id < counter by {
            if j < pre.len() {
                assert(image_records_of(s)[j] == pre[j]);
            } else {
                assert(image_records_of(s)[j] == s.last());
            }
        }
    }
}

/// Every id of `direct_ids_of(s)` is the id of some record of `s`: ids
/// below the counter stay below it.
proof fn lemma_direct_ids_bounded(s: Seq<TransferRecord>, counter: u64)
    requires
        forall|k: int| 0 <= k < s.len() ==> (#[trigger] s[k]).token_id < counter,
    ensures
        forall|j: int| 0 <= j < direct_ids_of(s).len()
            ==> #[trigger] direct_ids_of(s)[j] < counter,
    decreases s.len(),
{
    if s.len() > 0 {
        assert(forall|k: int| 0 <= k < s.drop_last().len()
            ==> #[trigger] s.drop_last()[k] == s[k]);
        lemma_direct_ids_bounded(s.drop_last(), counter);
        assert(s.last() == s[s.len() - 1]);
        let pre = direct_ids_of(s.drop_last());
        assert forall|j: int| 0 <= j < direct_ids_of(s).len() implies #[trigger] direct_ids_of(s)[j] < counter by {
            if j < pre.len() {
                assert(direct_ids_of(s)[j] == pre[j]);
            } else {
                assert(direct_ids_of(s)[j] == s.last().token_id);
            }
        }
    }
}

/// Every id of `ids_of(s)` is the id of some record of `s`: ids below
/// the counter stay below it.
proof fn lemma_ids_bounded(s: Seq<TransferRecord>, counter: u64)
    requires
        forall|k: int| 0 <= k < s.len() ==> (#[trigger] s[k]).token_id < counter,
    ensures
        forall|j: int| 0 <= j < ids_of(s).len() ==> #[trigger] ids_of(s)[j] < counter,
    decreases s.len(),
{
    if s.len() > 0 {
        assert(forall|k: int| 0 <= k < s.drop_last().len()
            ==> #[trigger] s.drop_last()[k] == s[k]);
        lemma_ids_bounded(s.drop_last(), counter);
        assert(s.last() == s[s.len() - 1]);
        let pre = ids_of(s.drop_last());
        assert forall|j: int| 0 <= j < ids_of(s).len() implies #[trigger] ids_of(s)[j] < counter by {
            if j < pre.len() {
                assert(ids_of(s)[j] == pre[j]);
            } else {
                assert(ids_of(s)[j] == s.last().token_id);
            }
        }
    }
}

/// An allocator whose pending queue was drained stays well formed, given
/// that what now waits in flight is well formed against the current
/// staging contents and every landed id is below the counter.
proof fn lemma_drain_preserves_wf(pre: Allocator, post: Allocator)
    requires
        pre.wf(),
        post.offsets == pre.offsets,
        post.grants == pre.grants,
        post.backend.wf(),
        post.heap_size() == pre.heap_size(),
        post.staging_buffer.wf(),
        post.staging_buffer.capacity_spec() == pre.staging_buffer.capacity_spec(),
        post.next_token_id == pre.next_token_id,
        post.next_buffer_handle == pre.next_buffer_handle,
        post.pending_transfers@.len() == 0,
        forall|i: int| 0 <= i < post.in_flight_records().len()
            ==> Allocator::record_wf(
                #[trigger] post.in_flight_records()[i], post.heap_size(),
                post.staging_bytes().len() as int)
                && post.in_flight_records()[i].token_id < post.token_counter(),
        forall|i: int| 0 <= i < post.executed_ids().len()
            ==> #[trigger] post.executed_ids()[i] < post.token_counter(),
    ensures
        post.wf(),
{
    assert(post.pending_records().len() == 0);
    let ranges = live_ranges(pre.offsets);
    assert forall|o: u32| #[trigger] live_ranges(post.offsets).contains_key(o)
        implies 1 <= live_ranges(post.offsets)[o] && o + live_ranges(post.offsets)[o]
            <= post.heap_size() by {
        assert(ranges.contains_key(o));
    }
    assert forall|o1: u32, o2: u32|
        live_ranges(post.offsets).contains_key(o1) && live_ranges(post.offsets).contains_key(o2)
            && o1 != o2
        implies ranges_disjoint(
            o1 as int, live_ranges(post.offsets)[o1] as int,
            o2 as int, live_ranges(post.offsets)[o2] as int) by {
        assert(ranges.contains_key(o1));
        assert(ranges.contains_key(o2));
    }
    assert forall|i: int| 0 <= i < post.grants_spec().len() implies {
        let g = #[trigger] post.grants_spec()[i];
        &&& g.offset.wf()
        &&& g.offset.bind_offset + g.size <= g.offset.raw_size
        &&& live_ranges(post.offsets).contains_key(g.offset.raw_offset)
        &&& live_ranges(post.offsets)[g.offset.raw_offset] == g.offset.raw_size
    } by {
        assert(pre.grants_spec()[i] == post.grants_spec()[i]);
    }
    assert forall|i: int, j: int|
        0 <= i < post.grants_spec().len() && 0 <= j < post.grants_spec().len() && i != j
        implies post.grants_spec()[i].offset.raw_offset != post.grants_spec()[j].offset.raw_offset
        by {
        assert(pre.grants_spec()[i] == post.grants_spec()[i]);
        assert(pre.grants_spec()[j] == post.grants_spec()[j]);
    }
}

/// Landing well-bounded transfers never changes the heap's size.
proof fn lemma_heap_after_len(records: Seq<TransferRecord>, heap: Seq<u8>, staging: Seq<u8>)
    requires
        forall|j: int| 0 <= j < records.len() && !(#[trigger] records[j]).is_image()
            ==> records[j].heap_dst() + records[j].transfer_size <= heap.len(),
        forall|j: int| 0 <= j < records.len() && !(#[trigger] records[j]).is_image()
            ==> records[j].staging_buffer_offset + records[j].transfer_size <= staging.len(),
    ensures
        heap_after(records, heap, staging).len() == heap.len(),
    decreases records.len(),
{
    if records.len() > 0 {
        assert(forall|k: int| 0 <= k < records.drop_last().len()
            ==> #[trigger] records.drop_last()[k] == records[k]);
        lemma_heap_after_len(records.drop_last(), heap, staging);
        let r = records.last();
        assert(r == records[records.len() - 1]);
        let prev = heap_after(records.drop_last(), heap, staging);
        assert(heap_after(records, heap, staging) == apply_record(prev, staging, r));
        if !r.is_image() {
            let win = staging.subrange(
                r.staging_buffer_offset as int, r.staging_buffer_offset + r.transfer_size);
            assert(win.len() == r.transfer_size);
            assert(prev.take(r.heap_dst()).len() == r.heap_dst());
            assert(prev.skip(r.heap_dst() + r.transfer_size).len() == heap.len() - r.heap_dst()
                - r.transfer_size);
            assert(apply_record(prev, staging, r) == prev.take(r.heap_dst()) + win + prev.skip(
                r.heap_dst() + r.transfer_size));
            assert(apply_record(prev, staging, r).len() == heap.len());
        }
    }
}

/// Round trip: once a frame's transfers have landed, the destination
/// range of any buffer or slab transfer holds exactly the bytes that were
/// staged for it — provided no later transfer of the same frame overwrote
/// that range. In particular, two sequential appends to one buffer land
/// at adjacent, non-overlapping ranges and each reads back unchanged.
pub proof fn lemma_transfer_round_trip(
    records: Seq<TransferRecord>,
    heap: Seq<u8>,
    staging: Seq<u8>,
    k: int,
)
    requires
        0 <= k < records.len(),
        !records[k].is_image(),
        forall|j: int| 0 <= j < records.len() && !(#[trigger] records[j]).is_image()
            ==> records[j].heap_dst() + records[j].transfer_size <= heap.len(),
        forall|j: int| 0 <= j < records.len() && !(#[trigger] records[j]).is_image()
            ==> records[j].staging_buffer_offset + records[j].transfer_size <= staging.len(),
        forall|j: int| k < j < records.len() ==> (#[trigger] records[j]).is_image()
            || ranges_disjoint(
                records[j].heap_dst(), records[j].transfer_size as int,
                records[k].heap_dst(), records[k].transfer_size as int),
    ensures
        heap_after(records, heap, staging).subrange(
            records[k].heap_dst(), records[k].heap_dst() + records[k].transfer_size)
            == staging.subrange(
            records[k].staging_buffer_offset as int,
            records[k].staging_buffer_offset + records[k].transfer_size),
    decreases records.len(),
{
    let r = records[k];
    let init = records.drop_last();
    let last = records.last();
    assert(forall|j: int| 0 <= j < init.len() ==> #[trigger] init[j] == records[j]);
    assert(last == records[records.len() - 1]);
    lemma_heap_after_len(init, heap, staging);
    let prev = heap_after(init, heap, staging);
    let res = heap_after(records, heap, staging);
    if k == records.len() - 1 {
        assert(res == apply_record(prev, staging, r));
        assert(res.subrange(r.heap_dst(), r.heap_dst() + r.transfer_size) =~= staging.subrange(
            r.staging_buffer_offset as int, r.staging_buffer_offset + r.transfer_size));
    } else {
        lemma_transfer_round_trip(init, heap, staging, k);
        if last.is_image() {
            assert(res == prev);
        } else {
            // The last transfer writes a range disjoint from the one read.
            assert(res == apply_record(prev, staging, last));
            assert(res.subrange(r.heap_dst(), r.heap_dst() + r.transfer_size) =~= prev.subrange(
                r.heap_dst(), r.heap_dst() + r.transfer_size));
        }
    }
}

/// Every element of `image_records_of(s)` is an image record.
proof fn lemma_image_records_all_images(s: Seq<TransferRecord>)
    ensures
        forall|j: int| 0 <= j < image_records_of(s).len()
            ==> (#[trigger] image_records_of(s)[j]).is_image(),
    decreases s.len(),
{
    if s.len() > 0 {
        lemma_image_records_all_images(s.drop_last());
        let pre = image_records_of(s.drop_last());
        assert forall|j: int| 0 <= j < image_records_of(s).len()
            implies (#[trigger] image_records_of(s)[j]).is_image() by {
            if j < pre.len() {
                assert(image_records_of(s)[j] == pre[j]);
            } else {
                assert(image_records_of(s)[j] == s.last());
            }
        }
    }
}

/// Image transfers leave the heap byte model untouched.
proof fn lemma_images_leave_heap(s: Seq<TransferRecord>, heap: Seq<u8>, staging: Seq<u8>)
    requires
        forall|j: int| 0 <= j < s.len() ==> (#[trigger] s[j]).is_image(),
    ensures
        heap_after(s, heap, staging) == heap,
    decreases s.len(),
{
    if s.len() > 0 {
        assert(forall|k: int| 0 <= k < s.drop_last().len()
            ==> #[trigger] s.drop_last()[k] == s[k]);
        lemma_images_leave_heap(s.drop_last(), heap, staging);
        assert(s.last() == s[s.len() - 1]);
    }
}

/// Backend equivalence: one frame's staged transfers land the same
/// destination bytes under either backend.
///
/// A discrete device leaves the heap untouched at `execute_transfers` and
/// lands the whole queue at `transfers_complete`:
/// `heap_after(records, heap, staging)`. An integrated device lands the
/// buffer and slab payloads at `execute_transfers` — also
/// `heap_after(records, heap, staging)`, image records being opaque to
/// the byte model — and at `transfers_complete` only its in-flight image
/// records remain, which change nothing. Both paths end in the same heap.
pub proof fn lemma_backend_equivalence(
    records: Seq<TransferRecord>,
    heap: Seq<u8>,
    staging: Seq<u8>,
)
    ensures
        heap_after(
            image_records_of(records), heap_after(records, heap, staging), staging)
            == heap_after(records, heap, staging),
{
    lemma_image_records_all_images(records);
    lemma_images_leave_heap(
        image_records_of(records), heap_after(records, heap, staging), staging);
}

/// Token completion order: the ids a transfer queue completes are
/// exactly its transfers' token ids, one per transfer, in queue order.
/// Together with the completion bookkeeping of `execute_transfers` and
/// `transfers_complete` — which extend the landed ids by `ids_of` (or
/// `direct_ids_of`) of the drained queue — tokens of one frame reach
/// completion in the order their transfers were staged.
pub proof fn lemma_ids_in_queue_order(records: Seq<TransferRecord>)
    ensures
        ids_of(records).len() == records.len(),
        forall|i: int| 0 <= i < records.len()
            ==> ids_of(records)[i] == (#[trigger] records[i]).token_id,
    decreases records.len(),
{
    if records.len() > 0 {
        lemma_ids_in_queue_order(records.drop_last());
        assert(records.last() == records[records.len() - 1]);
        assert forall|i: int| 0 <= i < records.len()
            implies ids_of(records)[i] == (#[trigger] records[i]).token_id by {
            if i < records.len() - 1 {
                assert(records.drop_last()[i] == records[i]);
                assert(ids_of(records)[i] == ids_of(records.drop_last())[i]);
            } else {
                assert(ids_of(records)[i] == records.last().token_id);
            }
        }
    }
}

/// Disjointness: the bound ranges `[offset, offset + size)` of all grants
/// an allocator has handed out — buffers, images and slab uploads alike —
/// are pairwise disjoint.
pub proof fn lemma_grants_pairwise_disjoint(a: Allocator)
    requires
        a.wf(),
    ensures
        forall|i: int, j: int|
            0 <= i < a.grants_spec().len() && 0 <= j < a.grants_spec().len() && i != j
            ==> ranges_disjoint(
                (#[trigger] a.grants_spec()[i]).offset.total_offset_spec(),
                a.grants_spec()[i].size as int,
                (#[trigger] a.grants_spec()[j]).offset.total_offset_spec(),
                a.grants_spec()[j].size as int),
{
    assert forall|i: int, j: int|
        0 <= i < a.grants_spec().len() && 0 <= j < a.grants_spec().len() && i != j
        implies ranges_disjoint(
            (#[trigger] a.grants_spec()[i]).offset.total_offset_spec(),
            a.grants_spec()[i].size as int,
            (#[trigger] a.grants_spec()[j]).offset.total_offset_spec(),
            a.grants_spec()[j].size as int) by {
        let gi = a.grants_spec()[i];
        let gj = a.grants_spec()[j];
        let ranges = live_ranges(a.offsets);
        assert(ranges.contains_key(gi.offset.raw_offset));
        assert(ranges.contains_key(gj.offset.raw_offset));
        assert(gi.offset.raw_offset != gj.offset.raw_offset);
        assert(ranges_disjoint(
            gi.offset.raw_offset as int, gi.offset.raw_size as int,
            gj.offset.raw_offset as int, gj.offset.raw_size as int));
    }
}

} // verus!
