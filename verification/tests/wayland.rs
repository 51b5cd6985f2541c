use wshowkeys::render::Acquire;
use wshowkeys::wayland::{FramePlan, FrameState, SurfaceGeometry, WskState};

fn state() -> WskState<()> {
    WskState::new()
}

/// Hands out a buffer from the pool as a drawing frame would, and submits it.
fn submit(s: &mut WskState<()>, id: u32) {
    let idx = match s.buffer_pool.get_buffer(1, 1) {
        Some(Acquire::Create(i)) => {
            s.buffer_pool.install(i, (), id, 1, 1);
            i
        }
        Some(Acquire::Reuse(i)) => i,
        None => panic!("no buffer"),
    };
    s.frame_submitted(idx);
}

#[test]
fn new_state_is_idle_and_unconfigured() {
    let s = state();
    assert_eq!(s.geometry, SurfaceGeometry::Unconfigured);
    assert_eq!(s.frame_state, FrameState::Idle);
    assert!(!s.needs_render);
    assert!(s.running);
    assert_eq!(s.current_scale(), 1);
}

#[test]
fn dirty_while_pending_waits_for_frame_done() {
    let mut s = state();
    s.set_dirty();
    assert!(s.needs_render);
    s.needs_render = false;
    submit(&mut s, 1);
    s.set_dirty();
    assert!(!s.needs_render);
    assert_eq!(s.frame_state, FrameState::Pending { dirty: true });
    s.frame_done();
    assert!(s.needs_render);
    assert_eq!(s.frame_state, FrameState::Idle);
}

#[test]
fn frame_done_without_changes_requests_nothing() {
    let mut s = state();
    submit(&mut s, 1);
    s.frame_done();
    assert!(!s.needs_render);
    assert_eq!(s.frame_state, FrameState::Idle);
}

#[test]
fn configure_and_close() {
    let mut s = state();
    s.configure(40, 20);
    assert_eq!(s.geometry, SurfaceGeometry::Configured { width: 40, height: 20 });
    assert!(s.needs_render);
    s.close();
    assert!(!s.running);
}

#[test]
fn outputs_and_scale() {
    let mut s = state();
    s.add_output(3);
    s.add_output(9);
    s.enter_output(42);
    assert_eq!(s.current_output, None);
    assert_eq!(s.current_scale(), 1);
    s.set_output_scale(9, 2);
    s.set_output_subpixel(9, 1);
    s.enter_output(9);
    assert_eq!(s.current_output, Some(1));
    assert_eq!(s.current_scale(), 2);
    assert_eq!(s.outputs[1].subpixel, 1);
    assert_eq!(s.outputs[0].scale, 1);
}

#[test]
fn render_frame_plans() {
    let mut s = state();
    s.needs_render = true;
    assert_eq!(s.render_frame(false, 10, 10), FramePlan::Nothing);
    assert!(!s.needs_render);
    // unconfigured: ask for a size first
    assert_eq!(s.render_frame(true, 10, 20), FramePlan::Resize { width: 10, height: 20 });
    s.configure(10, 20);
    assert_eq!(s.render_frame(true, 10, 20), FramePlan::Draw { scale: 1, width: 10, height: 20 });
    // a different size reconfigures
    assert_eq!(s.render_frame(true, 12, 20), FramePlan::Resize { width: 12, height: 20 });
    assert_eq!(s.geometry, SurfaceGeometry::Unconfigured);
    // nothing to show unmaps
    assert_eq!(s.render_frame(true, 0, 0), FramePlan::Unmap);
    s.configure(0, 0);
    assert_eq!(s.render_frame(true, 0, 0), FramePlan::Nothing);
}

#[test]
fn render_frame_uses_logical_size() {
    let mut s = state();
    s.add_output(1);
    s.set_output_scale(1, 2);
    s.enter_output(1);
    assert_eq!(s.render_frame(true, 41, 20), FramePlan::Resize { width: 20, height: 10 });
    s.configure(20, 10);
    assert_eq!(s.render_frame(true, 41, 20), FramePlan::Draw { scale: 2, width: 41, height: 20 });
}
