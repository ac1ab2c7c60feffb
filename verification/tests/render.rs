use ambient_led::render::{RenderError, RenderPipeline};

#[test]
fn plan_binds_textures_in_order() {
    let mut p = RenderPipeline::new();
    p.set_texture(5);
    p.set_texture(6);
    p.set_shader(1, vec![6, 5], 4, 1);
    let plan = p.plan_render(1, 12).unwrap();
    assert_eq!(plan.texture_units, vec![6, 5]);
    assert_eq!(plan.width, 4);
    assert_eq!(plan.height, 1);
}

#[test]
fn plan_is_deterministic() {
    let mut p = RenderPipeline::new();
    p.set_texture(2);
    p.set_shader(1, vec![2], 144, 1);
    let a = p.plan_render(1, 3 * 144).unwrap();
    let b = p.plan_render(1, 3 * 144).unwrap();
    assert_eq!(a.texture_units, b.texture_units);
    assert_eq!((a.width, a.height), (b.width, b.height));
}

#[test]
fn plan_unknown_program() {
    let p = RenderPipeline::new();
    assert!(matches!(
        p.plan_render(3, 12),
        Err(RenderError::ProgramNotFound(3))
    ));
}

#[test]
fn plan_missing_texture_is_refused_and_output_untouched() {
    // A program whose texture bindings cannot be satisfied must not reach
    // the GPU: the plan is refused, the driver skips the draw, and the
    // output bytes stay exactly as they were.
    let mut p = RenderPipeline::new();
    p.set_texture(5);
    p.set_shader(1, vec![5, 9], 4, 1);
    let mut out = vec![0xAAu8; 12];
    match p.plan_render(1, out.len()) {
        Err(RenderError::TextureNotFound(9)) => {}
        other => panic!("expected the first missing texture id, got {other:?}"),
    }
    assert!(out.iter().all(|&b| b == 0xAA));
}

#[test]
fn plan_output_size_must_match() {
    let mut p = RenderPipeline::new();
    p.set_texture(5);
    p.set_shader(1, vec![5], 4, 1);
    assert!(matches!(
        p.plan_render(1, 13),
        Err(RenderError::OutputSizeMismatch)
    ));
    assert!(matches!(
        p.plan_render(1, 11),
        Err(RenderError::OutputSizeMismatch)
    ));
    assert!(p.plan_render(1, 12).is_ok());
}

#[test]
fn set_shader_replaces_program() {
    let mut p = RenderPipeline::new();
    p.set_texture(1);
    p.set_texture(2);
    p.set_shader(7, vec![1], 2, 1);
    p.set_shader(7, vec![2], 3, 1);
    let plan = p.plan_render(7, 9).unwrap();
    assert_eq!(plan.texture_units, vec![2]);
    assert_eq!(plan.width, 3);
}

#[test]
fn set_texture_registers_once() {
    let mut p = RenderPipeline::new();
    p.set_texture(4);
    p.set_texture(4);
    p.set_shader(1, vec![4], 1, 1);
    assert!(p.plan_render(1, 3).is_ok());
}
