use vitros_kernel::buffer::{DrawCommand, WriterBuffer};
use vitros_kernel::compositor::{
    fb_base, frame_count, init_compositor, render_commands_to, screen_size, Compositor, CompositorConfig,
};
use vitros_kernel::mini_buffer::MiniBuffer;
use vitros_kernel::region::Region;
use vitros_kernel::shadow_buffer::ShadowBuffer;

const WHITE: u32 = 0xFFFFFF;

fn config(w: u32, h: u32) -> CompositorConfig {
    CompositorConfig { fb_base: 0xC000_0000, fb_width: w, fb_height: h, refresh_interval_ticks: 16 }
}

fn solid_font() -> Vec<u64> {
    vec![u64::MAX; 95]
}

#[test]
fn test_region_new() {
    let region = Region::new(10, 20, 100, 50);
    assert_eq!(region.x, 10);
    assert_eq!(region.y, 20);
    assert_eq!(region.width, 100);
    assert_eq!(region.height, 50);
}

#[test]
fn test_region_right_bottom() {
    let region = Region::new(10, 20, 100, 50);
    assert_eq!(region.right(), 110);
    assert_eq!(region.bottom(), 70);
}

#[test]
fn test_region_contains_inside_and_boundary() {
    let region = Region::new(10, 20, 100, 50);
    assert!(region.contains(50, 40));
    assert!(region.contains(10, 20));
    assert!(!region.contains(110, 40));
    assert!(!region.contains(50, 70));
    assert!(!region.contains(110, 70));
    assert!(region.contains(109, 40));
    assert!(region.contains(50, 69));
    assert!(!region.contains(5, 40));
    assert!(!region.contains(50, 10));
    assert!(!region.contains(200, 200));
}

#[test]
fn test_region_zero_size() {
    let region = Region::new(10, 20, 0, 0);
    assert!(!region.contains(10, 20));
    assert!(!region.contains(10, 21));
    assert_eq!(region.right(), 10);
    assert_eq!(region.bottom(), 20);
}

#[test]
fn writer_buffer_queues_and_clears() {
    let mut b = WriterBuffer::new(Region::new(0, 0, 80, 8));
    assert!(!b.is_dirty());
    b.push_command(DrawCommand::Clear { color: 1 });
    assert!(b.is_dirty());
    b.extend_commands(vec![DrawCommand::DrawChar { x: 0, y: 0, ch: b'a', color: 2 }]);
    assert_eq!(b.commands().len(), 2);
    assert_eq!(b.commands()[1], DrawCommand::DrawChar { x: 0, y: 0, ch: b'a', color: 2 });
    b.clear_commands();
    assert!(b.commands().is_empty());
    assert!(!b.is_dirty());
    b.extend_commands(Vec::new());
    assert!(!b.is_dirty());
    b.set_owner_task_id(7);
    assert_eq!(b.owner_task_id(), Some(7));
    b.set_vis_buffer_index(3);
    assert_eq!(b.vis_buffer_index(), Some(3));
    assert_eq!(b.region(), Region::new(0, 0, 80, 8));
}

#[test]
fn compositor_pipeline() {
    let mut c = init_compositor(config(160, 40));
    let h = c.register_writer(Region::new(0, 0, 80, 8));
    c.push_command(h, DrawCommand::DrawString { x: 0, y: 0, text: String::from("hello"), color: WHITE });
    c.set_owner_task_id(h, 42);
    let mut shadow = ShadowBuffer::with_font(160, 40, solid_font()).unwrap();
    let snapshot = c.get_buffers_snapshot();
    let wakes = c.compose_frame(&mut shadow, &snapshot, &vec![false; snapshot.len()]);
    assert_eq!(wakes, vec![42]);
    assert_eq!(shadow.dirty_rect(), Some(Region::new(0, 0, 40, 8)));
    let mut fb = vec![0u32; 160 * 40];
    assert!(Compositor::present(&mut shadow, &mut fb));
    for y in 0..8 {
        for x in 0..40 {
            assert_eq!(fb[y * 160 + x], WHITE);
        }
        assert_eq!(fb[y * 160 + 40], 0);
    }
    assert_eq!(fb[8 * 160], 0);
    assert!(c.writer(h).commands().is_empty());
    assert!(!c.writer(h).is_dirty());
    assert_eq!(shadow.dirty_rect(), None);
    assert!(!Compositor::present(&mut shadow, &mut fb));
    assert_eq!(frame_count(&c), 1);
    assert_eq!(screen_size(&c), (160, 40));
    assert_eq!(fb_base(&c), 0xC000_0000);
}

#[test]
fn commands_render_in_push_order() {
    let mut shadow = ShadowBuffer::new(20, 10).unwrap();
    let region = Region::new(2, 1, 10, 5);
    let cmds = vec![
        DrawCommand::FillRect { x: 0, y: 0, width: 4, height: 4, color: 0xFF0000 },
        DrawCommand::FillRect { x: 2, y: 2, width: 4, height: 4, color: 0x0000FF },
    ];
    render_commands_to(&mut shadow, &region, &cmds);
    assert_eq!(shadow.pixel(2, 1), 0xFF0000);
    assert_eq!(shadow.pixel(4, 3), 0x0000FF);
    assert_eq!(shadow.pixel(5, 4), 0x0000FF);
    assert_eq!(shadow.pixel(7, 6), 0x0000FF);
    assert_eq!(shadow.pixel(8, 7), 0);
    assert_eq!(shadow.dirty_rect(), Some(Region::new(2, 1, 6, 6)));
}

#[test]
fn clear_fills_the_region_and_dirties_it() {
    let mut shadow = ShadowBuffer::new(8, 8).unwrap();
    render_commands_to(&mut shadow, &Region::new(2, 2, 10, 3), &[DrawCommand::Clear { color: 5 }]);
    assert_eq!(shadow.pixel(1, 2), 0);
    assert_eq!(shadow.pixel(2, 2), 5);
    assert_eq!(shadow.pixel(7, 4), 5);
    assert_eq!(shadow.pixel(7, 5), 0);
    assert_eq!(shadow.dirty_rect(), Some(Region::new(2, 2, 6, 3)));
}

#[test]
fn characters_follow_their_glyph() {
    let mut font = vec![0u64; 95];
    font[(b'A' - 32) as usize] = 0b1 | (0b10 << 8);
    let mut shadow = ShadowBuffer::with_font(16, 16, font).unwrap();
    render_commands_to(&mut shadow, &Region::new(4, 4, 8, 8), &[DrawCommand::DrawChar { x: 0, y: 0, ch: b'A', color: 9 }]);
    assert_eq!(shadow.pixel(4, 4), 9);
    assert_eq!(shadow.pixel(5, 4), 0);
    assert_eq!(shadow.pixel(5, 5), 9);
    assert_eq!(shadow.pixel(4, 5), 0);
    assert_eq!(shadow.dirty_rect(), Some(Region::new(4, 4, 8, 8)));
    render_commands_to(&mut shadow, &Region::new(0, 0, 8, 8), &[DrawCommand::DrawChar { x: 0, y: 0, ch: 7, color: 9 }]);
    assert_eq!(shadow.pixel(0, 0), 0);
}

#[test]
fn busy_writers_wait_for_the_next_frame() {
    let mut c = Compositor::new(config(16, 16));
    let a = c.register_writer(Region::new(0, 0, 8, 8));
    let b = c.register_writer(Region::new(8, 0, 8, 8));
    c.push_command(a, DrawCommand::Clear { color: 1 });
    c.push_command(b, DrawCommand::Clear { color: 2 });
    let mut shadow = ShadowBuffer::new(16, 16).unwrap();
    let snapshot = c.get_buffers_snapshot();
    let wakes = c.compose_frame(&mut shadow, &snapshot, &vec![true, false]);
    assert!(wakes.is_empty());
    assert!(c.writer(a).is_dirty());
    assert!(!c.writer(b).is_dirty());
    assert_eq!(shadow.pixel(0, 0), 0);
    assert_eq!(shadow.pixel(8, 0), 2);
    c.compose_frame(&mut shadow, &snapshot, &vec![false, false]);
    assert_eq!(shadow.pixel(0, 0), 1);
}

#[test]
fn snapshots_are_not_changed_by_registration() {
    let mut c = Compositor::new(config(16, 16));
    let a = c.register_writer(Region::new(0, 0, 8, 8));
    let before = c.get_buffers_snapshot();
    let b = c.register_writer(Region::new(8, 0, 8, 8));
    let after = c.get_buffers_snapshot();
    assert_eq!(before, vec![a]);
    assert_eq!(after, vec![a, b]);
    assert_eq!(c.writer(b).vis_buffer_index(), Some(1));
    assert_eq!(c.get_config(), config(16, 16));
}

#[test]
fn mini_buffer_scales_commands() {
    let mut m = MiniBuffer::new(40, 30).unwrap();
    let region = Region::new(100, 100, 200, 100);
    let r = m.render_command(&region, &DrawCommand::Clear { color: 3 }, 400, 300);
    assert_eq!(r, (10, 10, 20, 10));
    assert_eq!(m.pixel(10, 10), 3);
    assert_eq!(m.pixel(29, 19), 3);
    assert_eq!(m.pixel(30, 19), 0);
    let r = m.render_command(&region, &DrawCommand::DrawChar { x: 0, y: 0, ch: b'x', color: 4 }, 400, 300);
    assert_eq!(r, (10, 10, 2, 2));
    let r = m.render_command(&region, &DrawCommand::DrawString { x: 0, y: 0, text: String::from("ab"), color: 4 }, 400, 300);
    assert_eq!(r, (10, 10, 2, 2));
    let r = m.render_command(&region, &DrawCommand::FillRect { x: 10, y: 10, width: 1, height: 1, color: 4 }, 400, 300);
    assert_eq!(r, (11, 11, 1, 1));
    let mut other = MiniBuffer::new(40, 30).unwrap();
    m.blit_to(&mut other);
    assert_eq!(other.pixel(10, 10), 4);
    m.clear(0);
    assert_eq!(m.pixel(10, 10), 0);
    m.draw_rect(0, 0, 2, 2, 6);
    assert_eq!(m.pixel(1, 1), 6);
    assert_eq!((m.width(), m.height()), (40, 30));
}

#[test]
fn shadow_buffer_size_overflow_is_refused() {
    assert!(ShadowBuffer::new(0, 0).is_some());
    let b = ShadowBuffer::new(3, 2).unwrap();
    assert_eq!((b.width(), b.height()), (3, 2));
}

#[test]
fn default_glyphs_fill_printable_cells() {
    let mut shadow = ShadowBuffer::new(48, 8).unwrap();
    render_commands_to(&mut shadow, &Region::new(0, 0, 48, 8), &[DrawCommand::DrawString { x: 0, y: 0, text: String::from("hi x"), color: WHITE }]);
    assert_eq!(shadow.pixel(0, 0), WHITE);
    assert_eq!(shadow.pixel(15, 7), WHITE);
    assert_eq!(shadow.pixel(16, 0), 0);
    assert_eq!(shadow.pixel(24, 4), WHITE);
    assert_eq!(shadow.pixel(32, 0), 0);
}
