use lazy_vulkan::AttachmentState;
use lazy_vulkan::DrawCall;
use lazy_vulkan::PushConstant;
use lazy_vulkan::RenderPass;
use lazy_vulkan::RenderPlan;
use lazy_vulkan::RenderStage;
use lazy_vulkan::Workflow;

#[test]
fn test_draw_call_fields() {
    let call = DrawCall::new(12, 36, 3, Workflow::Main);
    assert_eq!(call.index_offset(), 12);
    assert_eq!(call.index_count(), 36);
    assert_eq!(call.texture_id(), 3);
    assert!(matches!(call.workflow(), Workflow::Main));
}

#[test]
fn test_push_constant_fields() {
    let push = PushConstant::new(5, Workflow::Text);
    assert_eq!(push.texture_id, 5);
    assert!(matches!(push.workflow, Workflow::Text));
    assert_eq!(push, PushConstant::new(5, Workflow::Text));
}

#[test]
fn test_render_plan_holds_passes() {
    let pass = RenderPass {
        name: String::from("opaque"),
        subrenderer: String::from("mesh"),
        stage: RenderStage::Opaque,
        colour_attachment: Some(String::from("colour")),
        depth_attachment: Some(String::from("depth")),
        sample_attachments: vec![String::from("shadow")],
    };
    let plan = RenderPlan {
        target_to_composite: String::from("colour"),
        compositor_subrenderer: String::from("compositor"),
        passes: vec![pass.clone()],
    };
    assert_eq!(plan.passes.len(), 1);
    assert_eq!(plan.passes[0], pass);
    assert!(matches!(plan.passes[0].stage, RenderStage::Opaque));
    assert!(matches!(AttachmentState::Swapchain, AttachmentState::Swapchain));
}
