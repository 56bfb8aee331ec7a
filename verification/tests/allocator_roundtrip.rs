use lazy_vulkan::Allocator;
use lazy_vulkan::DeviceClass;

const HEAP_SIZE: u32 = 1 << 20;
const STAGING_CAPACITY: usize = 1 << 16;

fn discrete_allocator() -> Allocator {
    Allocator::new(DeviceClass::Discrete, HEAP_SIZE, STAGING_CAPACITY, 0)
}

#[test]
fn test_allocate_single_buffer_roundtrip() {
    let mut allocator = discrete_allocator();

    let mut buffer_a = allocator.allocate_buffer(1024, 1, 1).unwrap();
    let data_a: [u8; 4] = [1, 2, 3, 4];
    buffer_a.append(&data_a, &mut allocator);

    let _commands = allocator.execute_transfers();
    // The host would submit the commands and wait on the frame's fence
    // here; the heap model updates once completion is acknowledged.
    allocator.transfers_complete();

    let base = buffer_a.global_offset.total_offset();
    let readback_data = allocator.read_back(base, data_a.len());
    assert_eq!(&data_a[..], &readback_data[..]);
}

#[test]
fn test_allocate_multiple_buffers_roundtrip() {
    let mut allocator = discrete_allocator();

    let mut buffer_a = allocator.allocate_buffer(1024, 1, 1).unwrap();
    let data_a: [u8; 4] = [1, 2, 3, 4];
    buffer_a.append(&data_a, &mut allocator);

    let _commands = allocator.execute_transfers();
    allocator.transfers_complete();

    let mut buffer_b = allocator.allocate_buffer(1024, 1, 1).unwrap();
    let data_b: [u8; 4] = [5, 6, 7, 8];
    buffer_b.append(&data_b, &mut allocator);

    let _commands = allocator.execute_transfers();
    allocator.transfers_complete();

    let base_a = buffer_a.global_offset.total_offset();
    let base_b = buffer_b.global_offset.total_offset();
    assert_eq!(&data_a[..], &allocator.read_back(base_a, data_a.len())[..]);
    assert_eq!(&data_b[..], &allocator.read_back(base_b, data_b.len())[..]);
}

#[test]
fn test_alignment() {
    let mut allocator = discrete_allocator();

    let mut buffer_a = allocator.allocate_buffer(32, 1, 1).unwrap();
    let data_a: [u8; 4] = [1, 2, 3, 4];
    buffer_a.append(&data_a, &mut allocator);

    let mut buffer_b = allocator.allocate_buffer(1024, 64, 1).unwrap();
    let data_b: [u8; 4] = [5, 6, 7, 8];
    buffer_b.append(&data_b, &mut allocator);

    let _commands = allocator.execute_transfers();
    allocator.transfers_complete();

    let base_a = buffer_a.global_offset.total_offset();
    let base_b = buffer_b.global_offset.total_offset();
    assert_eq!(&data_a[..], &allocator.read_back(base_a, data_a.len())[..]);
    assert_eq!(&data_b[..], &allocator.read_back(base_b, data_b.len())[..]);
}

#[test]
fn test_alignment_scenario() {
    // A 32-byte buffer first, so the next raw range starts misaligned;
    // the 1024-byte buffer requiring 64-byte alignment must still be
    // bound at a multiple of 64.
    let mut allocator = discrete_allocator();

    let buffer_a = allocator.allocate_buffer(32, 1, 1).unwrap();
    let buffer_b = allocator.allocate_buffer(1024, 64, 1).unwrap();

    assert_eq!(buffer_a.global_offset.total_offset() % 1, 0);
    assert_eq!(buffer_b.global_offset.total_offset() % 64, 0);
}

#[test]
fn test_two_appends_preserve_order() {
    // Two sequential appends to the same buffer: order preserved, no
    // gap, no overlap, and the first append's bytes stay unchanged.
    let mut allocator = discrete_allocator();

    let mut buffer = allocator.allocate_buffer(1024, 1, 1).unwrap();
    allocator.append_to_buffer(&[1, 2, 3, 4], &mut buffer);
    let _commands = allocator.execute_transfers();
    allocator.transfers_complete();

    let base = buffer.global_offset.total_offset();
    assert_eq!(allocator.read_back(base, 4), vec![1, 2, 3, 4]);

    allocator.append_to_buffer(&[5, 6, 7, 8], &mut buffer);
    let _commands = allocator.execute_transfers();
    allocator.transfers_complete();

    assert_eq!(allocator.read_back(base + 4, 4), vec![5, 6, 7, 8]);
    assert_eq!(allocator.read_back(base, 4), vec![1, 2, 3, 4]);
    assert_eq!(buffer.len(), 8);
}

#[test]
fn test_upload_to_slab_roundtrip() {
    let mut allocator = discrete_allocator();

    let payload: [u8; 12] = [9, 8, 7, 6, 5, 4, 3, 2, 1, 0, 11, 13];
    let upload = allocator.upload_to_slab(&payload).unwrap();
    assert_eq!(upload.size, payload.len());
    assert_eq!(upload.offset.total_offset() % 8, 0);
    assert_eq!(upload.device_address, upload.offset.total_offset() as u64);

    let _commands = allocator.execute_transfers();
    allocator.transfers_complete();

    let readback = allocator.read_back(upload.offset.total_offset(), payload.len());
    assert_eq!(&payload[..], &readback[..]);
}

#[test]
fn test_allocation_exhaustion_returns_none() {
    // The heap is fixed: a request larger than the whole address space
    // cannot be satisfied and the allocator reports it rather than
    // handing out a bogus range.
    let mut allocator = Allocator::new(DeviceClass::Discrete, 1024, 256, 0);
    assert!(allocator.allocate_buffer(4096, 1, 1).is_none());
    // The failed request leaves the allocator usable.
    assert!(allocator.allocate_buffer(512, 1, 1).is_some());
}

#[test]
fn test_allocations_are_disjoint() {
    // Successive allocations of mixed sizes and alignments never hand
    // out overlapping ranges.
    let mut allocator = discrete_allocator();
    let mut ranges: Vec<(usize, usize)> = Vec::new();
    let sizes: [(usize, usize); 6] = [(32, 1), (100, 64), (1, 1), (777, 16), (4096, 256), (5, 2)];
    for (size, align) in sizes {
        let buffer = allocator.allocate_buffer(size, align, 1).unwrap();
        assert_eq!(buffer.global_offset.total_offset() % align, 0);
        ranges.push((buffer.global_offset.total_offset(), size));
    }
    for i in 0..ranges.len() {
        for j in 0..ranges.len() {
            if i != j {
                let (oi, si) = ranges[i];
                let (oj, sj) = ranges[j];
                assert!(oi + si <= oj || oj + sj <= oi);
            }
        }
    }
}

#[test]
fn test_buffer_clear_resets_length() {
    let mut allocator = discrete_allocator();
    let mut buffer = allocator.allocate_buffer(16, 1, 4).unwrap();
    allocator.append_to_buffer(&[1, 1, 1, 1, 2, 2, 2, 2], &mut buffer);
    assert_eq!(buffer.len(), 2);

    buffer.clear();
    assert_eq!(buffer.len(), 0);

    // Clearing releases no memory: the next append overwrites from the
    // start of the same range.
    let _commands = allocator.execute_transfers();
    allocator.transfers_complete();
    allocator.append_to_buffer(&[3, 3, 3, 3], &mut buffer);
    let _commands = allocator.execute_transfers();
    allocator.transfers_complete();
    let base = buffer.global_offset.total_offset();
    assert_eq!(allocator.read_back(base, 4), vec![3, 3, 3, 3]);
    assert_eq!(buffer.len(), 1);
}

#[test]
fn test_strided_appends_land_at_byte_offsets() {
    // With a 4-byte element stride, the second append's destination is
    // the byte offset of the logical end (4), not the element count (1).
    let mut allocator = discrete_allocator();
    let mut buffer = allocator.allocate_buffer(64, 4, 4).unwrap();
    allocator.append_to_buffer(&[1, 2, 3, 4], &mut buffer);
    allocator.append_to_buffer(&[5, 6, 7, 8], &mut buffer);
    assert_eq!(buffer.len(), 2);

    let _commands = allocator.execute_transfers();
    allocator.transfers_complete();

    let base = buffer.global_offset.total_offset();
    assert_eq!(allocator.read_back(base, 8), vec![1, 2, 3, 4, 5, 6, 7, 8]);
}
