//! Device-memory and data-transfer subsystem of a real-time rendering
//! framework: a range allocator over large fixed heaps, a staging ring for
//! per-frame transfer payloads, a dual (discrete / integrated) memory
//! backend, and completion tokens for non-blocking transfer polling.

mod allocator;
mod device;
mod draw_call;
mod range_alloc;
mod render_plan;
mod staging;
mod token;

pub use allocator::{
    Allocator, BufferAllocation, Grant, ImageExtent, Offset, PendingFree, PendingTransfer,
    SlabUpload, TransferCommand, TransferDestination, TransferRecord, GLOBAL_MEMORY_SIZE,
    SLAB_ALIGNMENT, SLAB_BUFFER_HANDLE, STAGING_MEMORY_SIZE,
};
pub use allocator::{
    lemma_backend_equivalence, lemma_grants_pairwise_disjoint, lemma_ids_in_queue_order,
    lemma_transfer_round_trip,
};
pub use allocator::{
    apply_record, commands_of, commands_of_record, direct_ids_of, heap_after, ids_of,
    image_records_of, record_of, records_of,
};
pub use device::{find_memory_type_index, overwrite, DeviceBuffer, DeviceClass, HeapRegion};
pub use range_alloc::ranges_disjoint;
pub use draw_call::{DrawCall, PushConstant, Workflow};
pub use render_plan::{AttachmentState, RenderPass, RenderPlan, RenderStage};
pub use staging::StagingBuffer;
pub use token::TransferToken;
