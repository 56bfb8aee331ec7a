//! The device memory backend: one or two long-lived heap regions and the
//! dual discrete / integrated execution strategy over them.
//!
//! The backend is a closed two-member sum decided once at construction from
//! the hardware class. A discrete device keeps its device-local heap away
//! from the host: transfers become copy commands recorded for the device,
//! and the heap region here mirrors what the device memory holds once those
//! commands are fence-confirmed. An integrated device maps its single heap
//! into the host address space: transfers are plain host copies performed
//! immediately.

use vstd::prelude::*;

verus! {

/// A long-lived backing memory allocation: the byte contents of the heap
/// together with the device-visible base address it is mapped at.
///
/// Sub-ranges of the region are handed out by the range allocator and bound
/// to buffers and images; the contents here track every buffer and slab
/// byte the subsystem has transferred. Bytes inside ranges bound to images
/// are not tracked: their device-side layout is opaque to the host.
pub struct HeapRegion {
    bytes: Vec<u8>,
    base_address: u64,
}

/// `s` with the segment starting at `at` replaced by `with`.
pub open spec fn overwrite(s: Seq<u8>, at: int, with: Seq<u8>) -> Seq<u8> {
    s.take(at) + with + s.skip(at + with.len())
}

impl HeapRegion {
    /// The bytes the heap holds, by heap-relative offset.
    pub closed spec fn bytes_spec(&self) -> Seq<u8> {
        self.bytes@
    }

    /// The device-visible address of heap-relative offset zero.
    pub closed spec fn base_address_spec(&self) -> u64 {
        self.base_address
    }

    /// Device addresses of every offset in the region stay representable.
    pub open spec fn wf(&self) -> bool {
        self.base_address_spec() + self.bytes_spec().len() <= u64::MAX
    }

    /// A zero-filled heap region of `size` bytes based at `base_address`.
    pub fn new(size: usize, base_address: u64) -> (r: HeapRegion)
        requires
            base_address + size <= u64::MAX,
        ensures
            r.wf(),
            r.base_address_spec() == base_address,
            r.bytes_spec().len() == size,
            forall|i: int| 0 <= i < size ==> r.bytes_spec()[i] == 0u8,
    {
        HeapRegion { bytes: vec![0u8; size], base_address }
    }

    /// The size of the region in bytes.
    pub fn len(&self) -> (r: usize)
        ensures
            r == self.bytes_spec().len(),
    {
        self.bytes.len()
    }

    /// The device-visible address of the given heap-relative offset.
    pub fn address_of(&self, offset: usize) -> (r: u64)
        requires
            self.wf(),
            offset <= self.bytes_spec().len(),
        ensures
            r == self.base_address_spec() + offset,
    {
        self.base_address + offset as u64
    }

    /// Copies `len` bytes of `src` starting at `src_from` into the region
    /// at offset `dst`.
    pub fn write_bytes(&mut self, dst: usize, src: &[u8], src_from: usize, len: usize)
        requires
            dst + len <= old(self).bytes_spec().len(),
            src_from + len <= src@.len(),
        ensures
            final(self).base_address_spec() == old(self).base_address_spec(),
            final(self).bytes_spec() == overwrite(
                old(self).bytes_spec(),
                dst as int,
                src@.subrange(src_from as int, src_from + len)),
    {
        let heap_len = self.bytes.len();
        let src_len = src.len();
        let mut i: usize = 0;
        while i < len
            invariant
                i <= len,
                dst + len <= heap_len,
                src_from + len <= src_len,
                heap_len == old(self).bytes_spec().len(),
                src_len == src@.len(),
                self.base_address == old(self).base_address,
                self.bytes@.len() == old(self).bytes_spec().len(),
                forall|j: int| 0 <= j < self.bytes@.len() && !(dst <= j < dst + i)
                    ==> self.bytes@[j] == old(self).bytes_spec()[j],
                forall|j: int| dst <= j < dst + i
                    ==> #[trigger] self.bytes@[j] == src@[j - dst + src_from],
            decreases len - i,
        {
            self.bytes[dst + i] = src[src_from + i];
            i = i + 1;
        }
        proof {
            assert(final(self).bytes_spec() =~= overwrite(
                old(self).bytes_spec(),
                dst as int,
                src@.subrange(src_from as int, src_from + len)));
        }
    }

    /// Reads `len` bytes starting at heap-relative offset `from`.
    pub fn read_bytes(&self, from: usize, len: usize) -> (r: Vec<u8>)
        requires
            from + len <= self.bytes_spec().len(),
        ensures
            r@ == self.bytes_spec().subrange(from as int, from + len),
    {
        let heap_len = self.bytes.len();
        let mut out: Vec<u8> = Vec::new();
        let mut i: usize = 0;
        while i < len
            invariant
                i <= len,
                from + len <= heap_len,
                heap_len == self.bytes_spec().len(),
                out@.len() == i,
                forall|j: int| 0 <= j < i ==> out@[j] == self.bytes_spec()[from + j],
            decreases len - i,
        {
            out.push(self.bytes[from + i]);
            i = i + 1;
        }
        proof {
            assert(out@ =~= self.bytes_spec().subrange(from as int, from + len));
        }
        out
    }
}

/// The hardware memory architecture the backend was built for, reported by
/// the physical device once at startup and never re-evaluated.
#[derive(Clone, Copy, PartialEq, Eq, Structural, Debug)]
pub enum DeviceClass {
    /// Separate device-local and host-visible memory; explicit copy
    /// commands move staged bytes across.
    Discrete,
    /// A single shared memory architecture; staged bytes are copied by the
    /// host directly.
    Integrated,
}

/// The device memory backend: the global heap region, executed against in
/// one of two structurally different ways behind one interface.
pub enum DeviceBuffer {
    /// A non-host-addressable device-local heap; the region mirrors its
    /// contents as of the last fence-confirmed transfer batch.
    Discrete(HeapRegion),
    /// A host-mappable unified heap written by the host directly.
    Integrated(HeapRegion),
}

impl DeviceBuffer {
    /// The backing heap region of either variant.
    pub closed spec fn region_spec(&self) -> HeapRegion {
        match self {
            DeviceBuffer::Discrete(r) => *r,
            DeviceBuffer::Integrated(r) => *r,
        }
    }

    /// The architecture this backend was constructed for.
    pub closed spec fn class_spec(&self) -> DeviceClass {
        match self {
            DeviceBuffer::Discrete(_) => DeviceClass::Discrete,
            DeviceBuffer::Integrated(_) => DeviceClass::Integrated,
        }
    }

    pub open spec fn wf(&self) -> bool {
        self.region_spec().wf()
    }

    /// A backend of the given class over a fresh zero-filled heap of
    /// `size` bytes based at `base_address`.
    pub fn new(class: DeviceClass, size: usize, base_address: u64) -> (r: DeviceBuffer)
        requires
            base_address + size <= u64::MAX,
        ensures
            r.wf(),
            r.class_spec() == class,
            r.region_spec().base_address_spec() == base_address,
            r.region_spec().bytes_spec().len() == size,
            forall|i: int| 0 <= i < size ==> r.region_spec().bytes_spec()[i] == 0u8,
    {
        let region = HeapRegion::new(size, base_address);
        match class {
            DeviceClass::Discrete => DeviceBuffer::Discrete(region),
            DeviceClass::Integrated => DeviceBuffer::Integrated(region),
        }
    }

    /// The architecture this backend was constructed for.
    pub fn class(&self) -> (r: DeviceClass)
        ensures
            r == self.class_spec(),
    {
        match self {
            DeviceBuffer::Discrete(_) => DeviceClass::Discrete,
            DeviceBuffer::Integrated(_) => DeviceClass::Integrated,
        }
    }

    /// The backing heap region, read-only.
    pub fn region(&self) -> (r: &HeapRegion)
        ensures
            *r == self.region_spec(),
    {
        match self {
            DeviceBuffer::Discrete(region) => region,
            DeviceBuffer::Integrated(region) => region,
        }
    }

    /// The backing heap region, for transfer execution.
    pub fn region_mut(&mut self) -> (r: &mut HeapRegion)
        ensures
            *r == old(self).region_spec(),
            final(self).region_spec() == *final(r),
            final(self).class_spec() == old(self).class_spec(),
    {
        match self {
            DeviceBuffer::Discrete(region) => region,
            DeviceBuffer::Integrated(region) => region,
        }
    }

    /// The device-visible address of an offset in the global heap:
    /// the heap's base address plus the offset, identical in shape for both
    /// backends so shader-visible addressing stays backend-agnostic.
    pub fn get_device_address(&self, offset: usize) -> (r: u64)
        requires
            self.wf(),
            offset <= self.region_spec().bytes_spec().len(),
        ensures
            r == self.region_spec().base_address_spec() + offset,
    {
        self.region().address_of(offset)
    }
}

/// The first memory type whose property flags contain all of `required`.
///
/// The backends pick their heaps from the device's reported memory-type
/// table with exactly this search: the host hands the table's property
/// flags over as plain words.
pub fn find_memory_type_index(property_flags: &Vec<u32>, required: u32) -> (r: Option<usize>)
    ensures
        match r {
            Some(i) => {
                &&& i < property_flags@.len()
                &&& property_flags@[i as int] & required == required
                &&& forall|j: int| 0 <= j < i
                    ==> (#[trigger] property_flags@[j]) & required != required
            },
            None => forall|j: int| 0 <= j < property_flags@.len()
                ==> (#[trigger] property_flags@[j]) & required != required,
        },
{
    let mut i: usize = 0;
    while i < property_flags.len()
        invariant
            i <= property_flags@.len(),
            forall|j: int| 0 <= j < i ==> (#[trigger] property_flags@[j]) & required != required,
        decreases property_flags@.len() - i,
    {
        if property_flags[i] & required == required {
            return Some(i);
        }
        i = i + 1;
    }
    None
}

} // verus!
