use lazy_vulkan::find_memory_type_index;
use lazy_vulkan::Allocator;
use lazy_vulkan::DeviceClass;
use lazy_vulkan::ImageExtent;
use lazy_vulkan::StagingBuffer;
use lazy_vulkan::TransferCommand;
use lazy_vulkan::TransferToken;

const HEAP_SIZE: u32 = 1 << 20;
const STAGING_CAPACITY: usize = 1 << 16;

#[test]
fn test_token_pair_shares_completion() {
    let (ours, theirs) = TransferToken::create_pair(7);
    assert_eq!(ours.id(), 7);
    assert_eq!(theirs.id(), 7);
    assert!(!ours.is_complete());
    assert!(!theirs.is_complete());
    ours.mark_completed();
    assert!(ours.is_complete());
    assert!(theirs.is_complete());
    // A clone observes the same flag.
    let third = theirs.clone();
    assert!(third.is_complete());
}

#[test]
fn test_token_monotonic_on_discrete() {
    // False right after staging, still false once commands are merely
    // recorded, true once the fence is acknowledged — and true forever.
    let mut allocator = Allocator::new(DeviceClass::Discrete, HEAP_SIZE, STAGING_CAPACITY, 0);
    let mut buffer = allocator.allocate_buffer(64, 1, 1).unwrap();
    let first = allocator.append_to_buffer(&[1, 2], &mut buffer);
    let second = allocator.append_to_buffer(&[3, 4], &mut buffer);
    assert!(!first.is_complete());
    assert!(!second.is_complete());

    let _commands = allocator.execute_transfers();
    assert!(!first.is_complete());
    assert!(!second.is_complete());

    allocator.transfers_complete();
    assert!(first.is_complete());
    assert!(second.is_complete());
    assert!(first.is_complete());
}

#[test]
fn test_token_completes_at_execute_on_integrated() {
    // An integrated device performs buffer copies host-side during
    // execution, so the token completes without waiting for a fence.
    let mut allocator = Allocator::new(DeviceClass::Integrated, HEAP_SIZE, STAGING_CAPACITY, 0);
    let mut buffer = allocator.allocate_buffer(64, 1, 1).unwrap();
    let token = allocator.append_to_buffer(&[1, 2], &mut buffer);
    assert!(!token.is_complete());

    let commands = allocator.execute_transfers();
    assert!(commands.is_empty());
    assert!(token.is_complete());

    allocator.transfers_complete();
    assert!(token.is_complete());
}

#[test]
fn test_empty_image_payload_completes_at_once() {
    let mut allocator = Allocator::new(DeviceClass::Discrete, HEAP_SIZE, STAGING_CAPACITY, 0);
    let (token, _offset) = allocator
        .allocate_image(&[], ImageExtent { width: 4, height: 4 }, 42, 64, 16)
        .unwrap();
    assert!(token.is_complete());
    // Nothing was staged and nothing is pending.
    assert_eq!(allocator.pending_count(), 0);
    assert_eq!(allocator.staging_used(), 0);
}

#[test]
fn test_image_transfer_records_commands() {
    let mut allocator = Allocator::new(DeviceClass::Discrete, HEAP_SIZE, STAGING_CAPACITY, 0);
    let pixels: [u8; 16] = [255; 16];
    let (token, offset) = allocator
        .allocate_image(&pixels, ImageExtent { width: 2, height: 2 }, 42, 64, 16)
        .unwrap();
    assert_eq!(offset.total_offset() % 16, 0);
    assert!(!token.is_complete());

    let commands = allocator.execute_transfers();
    assert_eq!(commands.len(), 3);
    assert!(matches!(commands[0], TransferCommand::PrepareImage { image: 42 }));
    assert!(matches!(
        commands[1],
        TransferCommand::CopyBufferToImage { image: 42, src_offset: 0, width: 2, height: 2 }
    ));
    assert!(matches!(commands[2], TransferCommand::FinishImage { image: 42 }));
    assert!(!token.is_complete());

    allocator.transfers_complete();
    assert!(token.is_complete());
}

#[test]
fn test_image_transfer_waits_for_fence_on_integrated() {
    // Image payloads need device-side commands even on an integrated
    // device: the token completes only at the fence acknowledgement.
    let mut allocator = Allocator::new(DeviceClass::Integrated, HEAP_SIZE, STAGING_CAPACITY, 0);
    let pixels: [u8; 16] = [255; 16];
    let (token, _offset) = allocator
        .allocate_image(&pixels, ImageExtent { width: 2, height: 2 }, 9, 64, 16)
        .unwrap();

    let commands = allocator.execute_transfers();
    assert_eq!(commands.len(), 3);
    assert!(!token.is_complete());
    allocator.transfers_complete();
    assert!(token.is_complete());
}

#[test]
fn test_discrete_records_copy_and_barrier() {
    let mut allocator = Allocator::new(DeviceClass::Discrete, HEAP_SIZE, STAGING_CAPACITY, 0);
    let mut buffer = allocator.allocate_buffer(64, 1, 1).unwrap();
    allocator.append_to_buffer(&[1, 2, 3], &mut buffer);
    allocator.append_to_buffer(&[4, 5], &mut buffer);

    let handle = buffer.handle;
    let commands = allocator.execute_transfers();
    assert_eq!(commands.len(), 4);
    assert_eq!(
        commands[0],
        TransferCommand::CopyBuffer { buffer: handle, src_offset: 0, dst_offset: 0, size: 3 }
    );
    assert_eq!(commands[1], TransferCommand::BufferBarrier { buffer: handle, size: 3 });
    assert_eq!(
        commands[2],
        TransferCommand::CopyBuffer { buffer: handle, src_offset: 3, dst_offset: 3, size: 2 }
    );
    assert_eq!(commands[3], TransferCommand::BufferBarrier { buffer: handle, size: 2 });
    allocator.transfers_complete();
}

#[test]
fn test_staging_capacity_enforced() {
    // A payload exceeding the ring's fixed capacity is refused whole:
    // nothing is truncated, nothing wraps, the cursor does not move.
    let mut ring = StagingBuffer::new(16);
    let too_big: [u8; 17] = [1; 17];
    assert_eq!(ring.try_stage(&too_big), None);
    assert_eq!(ring.len(), 0);

    let fits: [u8; 16] = [2; 16];
    assert_eq!(ring.try_stage(&fits), Some(0));
    assert_eq!(ring.len(), 16);

    // The ring is now full: even one more byte is refused.
    assert_eq!(ring.try_stage(&[3]), None);
    assert_eq!(ring.len(), 16);

    ring.clear();
    assert_eq!(ring.len(), 0);
    assert_eq!(ring.capacity(), 16);
}

#[test]
fn test_staging_offsets_accumulate() {
    let mut ring = StagingBuffer::new(64);
    assert_eq!(ring.stage(&[1, 2, 3]), 0);
    assert_eq!(ring.stage(&[4]), 3);
    assert_eq!(ring.stage(&[5, 6]), 4);
    assert_eq!(ring.as_bytes(), &[1, 2, 3, 4, 5, 6]);
}

#[test]
fn test_backend_equivalence() {
    // The same allocate / stage / execute sequence lands identical
    // destination bytes under both backends.
    let mut results: Vec<Vec<u8>> = Vec::new();
    for class in [DeviceClass::Discrete, DeviceClass::Integrated] {
        let mut allocator = Allocator::new(class, 4096, 512, 0);
        let mut buffer_a = allocator.allocate_buffer(64, 16, 1).unwrap();
        let mut buffer_b = allocator.allocate_buffer(256, 64, 1).unwrap();
        allocator.append_to_buffer(&[1, 2, 3, 4], &mut buffer_a);
        allocator.append_to_buffer(&[5, 6, 7, 8, 9], &mut buffer_b);
        allocator.append_to_buffer(&[10, 11], &mut buffer_a);
        let _upload = allocator.upload_to_slab(&[12, 13, 14]).unwrap();
        let _commands = allocator.execute_transfers();
        allocator.transfers_complete();
        results.push(allocator.read_back(0, 4096));
    }
    assert_eq!(results[0], results[1]);
    // And the bytes are not trivially equal: the payloads are there.
    assert!(results[0].iter().any(|b| *b != 0));
}

#[test]
fn test_device_address_shape() {
    // Device addresses are the heap base plus the bound offset, the same
    // shape on both backends.
    for class in [DeviceClass::Discrete, DeviceClass::Integrated] {
        let base: u64 = 0x1000_0000;
        let mut allocator = Allocator::new(class, 4096, 512, base);
        let buffer = allocator.allocate_buffer(64, 16, 1).unwrap();
        assert_eq!(
            buffer.device_address,
            base + buffer.global_offset.total_offset() as u64
        );
    }
}

#[test]
fn test_find_memory_type_index() {
    // Device-local is bit 0, host-visible bit 1, host-coherent bit 2 in
    // this made-up table; the first matching type wins.
    let table: Vec<u32> = vec![0b001, 0b110, 0b111];
    assert_eq!(find_memory_type_index(&table, 0b001), Some(0));
    assert_eq!(find_memory_type_index(&table, 0b110), Some(1));
    assert_eq!(find_memory_type_index(&table, 0b011), Some(2));
    assert_eq!(find_memory_type_index(&table, 0b1000), None);
    assert_eq!(find_memory_type_index(&Vec::new(), 0b1), None);
}
