//! Draw-call descriptions handed from the renderer to the GPU: an indexed
//! mesh range, the texture it samples, and the shader workflow that
//! consumes it.

use vstd::prelude::*;

verus! {

/// The workflow to use in the shader.
#[derive(Clone, Copy, PartialEq, Eq, Structural, Debug)]
pub enum Workflow {
    Main,
    Text,
}

/// A single draw call: a range of the shared index buffer, the texture it
/// samples and the workflow that renders it.
#[derive(Clone, Copy, Debug)]
pub struct DrawCall {
    index_offset: u32,
    index_count: u32,
    texture_id: u32,
    workflow: Workflow,
}

impl DrawCall {
    /// First index of the call inside the shared index buffer.
    pub closed spec fn index_offset_spec(&self) -> u32 {
        self.index_offset
    }

    /// Number of indices the call draws.
    pub closed spec fn index_count_spec(&self) -> u32 {
        self.index_count
    }

    /// The texture the call samples.
    pub closed spec fn texture_id_spec(&self) -> u32 {
        self.texture_id
    }

    /// The shader workflow that consumes the call.
    pub closed spec fn workflow_spec(&self) -> Workflow {
        self.workflow
    }

    pub fn new(index_offset: u32, index_count: u32, texture_id: u32, workflow: Workflow) -> (r:
        DrawCall)
        ensures
            r.index_offset_spec() == index_offset,
            r.index_count_spec() == index_count,
            r.texture_id_spec() == texture_id,
            r.workflow_spec() == workflow,
    {
        DrawCall { index_offset, index_count, texture_id, workflow }
    }

    /// First index of the call inside the shared index buffer.
    pub fn index_offset(&self) -> (r: u32)
        ensures
            r == self.index_offset_spec(),
    {
        self.index_offset
    }

    /// Number of indices the call draws.
    pub fn index_count(&self) -> (r: u32)
        ensures
            r == self.index_count_spec(),
    {
        self.index_count
    }

    /// The texture the call samples.
    pub fn texture_id(&self) -> (r: u32)
        ensures
            r == self.texture_id_spec(),
    {
        self.texture_id
    }

    /// The shader workflow that consumes the call.
    pub fn workflow(&self) -> (r: Workflow)
        ensures
            r == self.workflow_spec(),
    {
        self.workflow
    }
}

/// Push constant used to pick the texture and workflow inside the shader.
#[derive(Clone, Copy, PartialEq, Eq, Structural, Debug)]
pub struct PushConstant {
    pub texture_id: u32,
    pub workflow: Workflow,
}

impl PushConstant {
    pub fn new(texture_id: u32, workflow: Workflow) -> (r: PushConstant)
        ensures
            r.texture_id == texture_id,
            r.workflow == workflow,
    {
        PushConstant { texture_id, workflow }
    }
}

} // verus!
