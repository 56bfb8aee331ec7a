//! A declarative plan of the render passes a frame runs, consumed by the
//! render-graph collaborator: which sub-renderer draws each pass, into
//! which attachments, and which attachments it samples.

use vstd::prelude::*;

verus! {

/// The whole frame's plan: its passes in order and the attachment the
/// compositor presents at the end.
#[derive(Debug, Clone, PartialEq, Eq)]
pub struct RenderPlan {
    pub target_to_composite: String,
    pub compositor_subrenderer: String,
    pub passes: Vec<RenderPass>,
}

/// One render pass of the plan.
#[derive(Debug, Clone, PartialEq, Eq)]
pub struct RenderPass {
    pub name: String,
    pub subrenderer: String,
    pub stage: RenderStage,
    pub colour_attachment: Option<String>,
    pub depth_attachment: Option<String>,
    pub sample_attachments: Vec<String>,
}

/// Where in the frame a pass runs.
#[derive(Debug, Clone, Copy, PartialEq, Eq, Structural)]
pub enum RenderStage {
    Shadow,
    Opaque,
    Layer,
}

/// How a pass leaves an attachment for the next pass to pick up.
#[derive(Debug, Clone, Copy, PartialEq, Eq, Structural)]
pub enum AttachmentState {
    ColourOutput,
    DepthOutput,
    Sampled,
    Undefined,
    Swapchain,
}

} // verus!
