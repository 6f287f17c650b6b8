use vstd::prelude::*;
use crate::buffer::{DrawCommand, WriterBuffer};
use crate::region::Region;
use crate::shadow_buffer::{
    bounding_box, char_spec, clip_spec, paint_spec, string_spec, ShadowBuffer, GLYPH_SIZE,
};

verus! {

/// Where on the screen a command draws: `(x, y, w, h)` in absolute pixels.
pub open spec fn command_footprint(region: Region, cmd: DrawCommand) -> (int, int, int, int) {
    match cmd {
        DrawCommand::Clear { .. } => (region.x as int, region.y as int, region.width as int, region.height as int),
        DrawCommand::DrawChar { x, y, .. } => (region.x + x, region.y + y, 8, 8),
        DrawCommand::DrawString { x, y, text, .. } => (
            region.x + x,
            region.y + y,
            8 * vstd::utf8::encode_utf8(text@).len() as int,
            8,
        ),
        DrawCommand::FillRect { x, y, width, height, .. } => (region.x + x, region.y + y, width as int, height as int),
    }
}

/// The pixels after rendering `cmd` for a writer owning `region`.
pub open spec fn command_pixels(pix: Seq<u32>, width: nat, font: Seq<u64>, region: Region, cmd: DrawCommand) -> Seq<u32> {
    match cmd {
        DrawCommand::Clear { color } => paint_spec(pix, width, region.x as int, region.y as int, region.width as int, region.height as int, color, None),
        DrawCommand::DrawChar { x, y, ch, color } => char_spec(pix, width, font, region.x + x, region.y + y, ch, color),
        DrawCommand::DrawString { x, y, text, color } => string_spec(pix, width, font, region.x + x, region.y + y, vstd::utf8::encode_utf8(text@), color),
        DrawCommand::FillRect { x, y, width: w, height: h, color } => paint_spec(pix, width, region.x + x, region.y + y, w as int, h as int, color, None),
    }
}

/// The dirty rectangle after rendering `cmd`: grown to hold the command's
/// on-screen footprint.
pub open spec fn command_dirty(dirty: Option<Region>, width: nat, height: nat, region: Region, cmd: DrawCommand) -> Option<Region> {
    let (x, y, w, h) = command_footprint(region, cmd);
    match clip_spec(x, y, w, h, width as int, height as int) {
        None => dirty,
        Some(c) => Some(bounding_box(dirty, c)),
    }
}

/// The pixels after rendering `cmds` one after the other, first to last.
pub open spec fn render_pixels(pix: Seq<u32>, width: nat, font: Seq<u64>, region: Region, cmds: Seq<DrawCommand>) -> Seq<u32>
    decreases cmds.len(),
{
    if cmds.len() == 0 {
        pix
    } else {
        command_pixels(render_pixels(pix, width, font, region, cmds.drop_last()), width, font, region, cmds.last())
    }
}

/// The dirty rectangle after rendering `cmds` one after the other.
pub open spec fn render_dirty(dirty: Option<Region>, width: nat, height: nat, region: Region, cmds: Seq<DrawCommand>) -> Option<Region>
    decreases cmds.len(),
{
    if cmds.len() == 0 {
        dirty
    } else {
        command_dirty(render_dirty(dirty, width, height, region, cmds.drop_last()), width, height, region, cmds.last())
    }
}

/// Commands take effect in the order they were pushed: rendering a list
/// with one more command at its end is rendering the list, then that command.
pub proof fn law_render_in_push_order(
    pix: Seq<u32>,
    width: nat,
    height: nat,
    font: Seq<u64>,
    dirty: Option<Region>,
    region: Region,
    cmds: Seq<DrawCommand>,
    cmd: DrawCommand,
)
    ensures
        render_pixels(pix, width, font, region, cmds.push(cmd)) == command_pixels(
            render_pixels(pix, width, font, region, cmds),
            width,
            font,
            region,
            cmd,
        ),
        render_dirty(dirty, width, height, region, cmds.push(cmd)) == command_dirty(
            render_dirty(dirty, width, height, region, cmds),
            width,
            height,
            region,
            cmd,
        ),
{
    assert(cmds.push(cmd).drop_last() =~= cmds);
}

/// Renders `cmd`, for a writer owning `region`, into the shadow buffer and
/// grows its dirty rectangle by the command's footprint.
pub fn render_command(shadow: &mut ShadowBuffer, region: &Region, cmd: &DrawCommand)
    requires
        old(shadow).wf(),
    ensures
        final(shadow).wf(),
        final(shadow).spec_width() == old(shadow).spec_width(),
        final(shadow).spec_height() == old(shadow).spec_height(),
        final(shadow).spec_font() == old(shadow).spec_font(),
        final(shadow).pixels() == command_pixels(old(shadow).pixels(), old(shadow).spec_width(), old(shadow).spec_font(), *region, *cmd),
        final(shadow).spec_dirty() == command_dirty(old(shadow).spec_dirty(), old(shadow).spec_width(), old(shadow).spec_height(), *region, *cmd),
{
    match cmd {
        DrawCommand::Clear { color } => {
            shadow.fill_rect(region.x, region.y, region.width, region.height, *color);
            shadow.mark_dirty(region);
            assert(command_footprint(*region, *cmd) == (region.x as int, region.y as int, region.width as int, region.height as int));
        },
        DrawCommand::DrawChar { x, y, ch, color } => {
            let gx = region.x as u64 + *x as u64;
            let gy = region.y as u64 + *y as u64;
            shadow.draw_char_at(gx, gy, *ch, *color);
            shadow.mark_dirty_at(gx, gy, GLYPH_SIZE, GLYPH_SIZE);
        },
        DrawCommand::DrawString { x, y, text, color } => {
            let gx = region.x as u64 + *x as u64;
            let gy = region.y as u64 + *y as u64;
            let bytes = text.as_str().as_bytes();
            shadow.draw_string_at(gx, gy, bytes, *color);
            let n = bytes.len();
            let w: u64 = if n as u64 > 0x4000_0000 {
                0x2_0000_0000
            } else {
                (n as u64) * 8
            };
            proof {
                assert(bytes@ == vstd::utf8::encode_utf8(text@));
                assert(command_footprint(*region, *cmd) == (gx as int, gy as int, 8 * (n as int), 8int));
                assert(clip_spec(gx as int, gy as int, w as int, 8, shadow.spec_width() as int, shadow.spec_height() as int)
                    == clip_spec(gx as int, gy as int, 8 * (n as int), 8, shadow.spec_width() as int, shadow.spec_height() as int));
            }
            shadow.mark_dirty_at(gx, gy, w, GLYPH_SIZE);
        },
        DrawCommand::FillRect { x, y, width, height, color } => {
            let gx = region.x as u64 + *x as u64;
            let gy = region.y as u64 + *y as u64;
            shadow.fill_rect_at(gx, gy, *width as u64, *height as u64, *color);
            shadow.mark_dirty_at(gx, gy, *width as u64, *height as u64);
        },
    }
}

/// Renders `commands` in order, for a writer owning `region`.
pub fn render_commands_to(shadow: &mut ShadowBuffer, region: &Region, commands: &[DrawCommand])
    requires
        old(shadow).wf(),
    ensures
        final(shadow).wf(),
        final(shadow).spec_width() == old(shadow).spec_width(),
        final(shadow).spec_height() == old(shadow).spec_height(),
        final(shadow).spec_font() == old(shadow).spec_font(),
        final(shadow).pixels() == render_pixels(old(shadow).pixels(), old(shadow).spec_width(), old(shadow).spec_font(), *region, commands@),
        final(shadow).spec_dirty() == render_dirty(old(shadow).spec_dirty(), old(shadow).spec_width(), old(shadow).spec_height(), *region, commands@),
{
    let mut i: usize = 0;
    while i < commands.len()
        invariant
            i <= commands@.len(),
            shadow.wf(),
            shadow.spec_width() == old(shadow).spec_width(),
            shadow.spec_height() == old(shadow).spec_height(),
            shadow.spec_font() == old(shadow).spec_font(),
            shadow.pixels() == render_pixels(old(shadow).pixels(), old(shadow).spec_width(), old(shadow).spec_font(), *region, commands@.take(i as int)),
            shadow.spec_dirty() == render_dirty(old(shadow).spec_dirty(), old(shadow).spec_width(), old(shadow).spec_height(), *region, commands@.take(i as int)),
        decreases commands@.len() - i,
    {
        render_command(shadow, region, &commands[i]);
        proof {
            assert(commands@.take(i + 1).drop_last() =~= commands@.take(i as int));
        }
        i = i + 1;
    }
    proof {
        assert(commands@.take(i as int) =~= commands@);
    }
}


/// Frame buffer and timing the compositor works with.
#[derive(Debug, Clone, Copy, PartialEq, Eq, Structural)]
pub struct CompositorConfig {
    pub fb_base: u64,
    pub fb_width: u32,
    pub fb_height: u32,
    pub refresh_interval_ticks: u64,
}

/// Whether the compositor renders writer `i` in a pass: it was not locked
/// by its owner and it holds unrendered commands.
pub open spec fn renders(writers: Seq<WriterBuffer>, busy: Seq<bool>, i: int) -> bool {
    !busy[i] && writers[i].spec_dirty()
}

/// The pixels after a pass over writers `0 .. k`, in registration order.
pub open spec fn frame_pixels(pix: Seq<u32>, width: nat, font: Seq<u64>, writers: Seq<WriterBuffer>, busy: Seq<bool>, k: nat) -> Seq<u32>
    decreases k,
{
    if k == 0 {
        pix
    } else {
        let p = frame_pixels(pix, width, font, writers, busy, (k - 1) as nat);
        if renders(writers, busy, k - 1) {
            render_pixels(p, width, font, writers[k - 1].spec_region(), writers[k - 1].spec_commands())
        } else {
            p
        }
    }
}

/// The dirty rectangle after a pass over writers `0 .. k`.
pub open spec fn frame_dirty(dirty: Option<Region>, width: nat, height: nat, writers: Seq<WriterBuffer>, busy: Seq<bool>, k: nat) -> Option<Region>
    decreases k,
{
    if k == 0 {
        dirty
    } else {
        let d = frame_dirty(dirty, width, height, writers, busy, (k - 1) as nat);
        if renders(writers, busy, k - 1) {
            render_dirty(d, width, height, writers[k - 1].spec_region(), writers[k - 1].spec_commands())
        } else {
            d
        }
    }
}

/// Owners of the writers rendered in a pass over `0 .. k`, to be woken.
pub open spec fn frame_wakes(writers: Seq<WriterBuffer>, busy: Seq<bool>, k: nat) -> Seq<u64>
    decreases k,
{
    if k == 0 {
        Seq::empty()
    } else {
        let w = frame_wakes(writers, busy, (k - 1) as nat);
        if renders(writers, busy, k - 1) && writers[k - 1].spec_owner() is Some {
            w.push(writers[k - 1].spec_owner()->0)
        } else {
            w
        }
    }
}

/// The handles `0 .. n`, in order.
pub open spec fn handles(n: nat) -> Seq<usize> {
    Seq::new(n, |i: int| i as usize)
}

/// The compositor: every registered writer buffer, and the published list of
/// their handles, which registration replaces rather than changes, so that a
/// snapshot taken earlier stays as it was.
pub struct Compositor {
    config: CompositorConfig,
    writers: Vec<WriterBuffer>,
    buffers: Vec<usize>,
    frame_count: u64,
}

impl Compositor {
    pub closed spec fn spec_config(&self) -> CompositorConfig {
        self.config
    }

    pub closed spec fn spec_writers(&self) -> Seq<WriterBuffer> {
        self.writers@
    }

    /// The published list of writer handles.
    pub closed spec fn spec_buffers(&self) -> Seq<usize> {
        self.buffers@
    }

    pub closed spec fn spec_frame_count(&self) -> u64 {
        self.frame_count
    }

    pub open spec fn wf(&self) -> bool {
        self.spec_buffers() == handles(self.spec_writers().len())
    }

    pub fn new(config: CompositorConfig) -> (r: Compositor)
        ensures
            r.wf(),
            r.spec_config() == config,
            r.spec_writers().len() == 0,
            r.spec_frame_count() == 0,
    {
        let r = Compositor { config, writers: Vec::new(), buffers: Vec::new(), frame_count: 0 };
        assert(r.spec_buffers() =~= handles(0));
        r
    }

    /// Registers a writer for `region` and returns its handle; the published
    /// list is replaced by a copy with the new handle at its end.
    pub fn register_writer(&mut self, region: Region) -> (r: usize)
        requires
            old(self).wf(),
            old(self).spec_writers().len() < usize::MAX,
        ensures
            final(self).wf(),
            r == old(self).spec_writers().len(),
            final(self).spec_buffers() == old(self).spec_buffers().push(r),
            final(self).spec_writers().len() == old(self).spec_writers().len() + 1,
            forall|i: int| 0 <= i < old(self).spec_writers().len() ==> #[trigger] final(self).spec_writers()[i] == old(self).spec_writers()[i],
            final(self).spec_writers()[r as int].spec_region() == region,
            final(self).spec_writers()[r as int].spec_commands().len() == 0,
            !final(self).spec_writers()[r as int].spec_dirty(),
            final(self).spec_writers()[r as int].spec_owner() is None,
            final(self).spec_writers()[r as int].spec_vis_index() == Some(r),
            final(self).spec_config() == old(self).spec_config(),
            final(self).spec_frame_count() == old(self).spec_frame_count(),
    {
        let handle = self.writers.len();
        let mut buffer = WriterBuffer::new(region);
        buffer.set_vis_buffer_index(handle);
        self.writers.push(buffer);
        let mut list = self.get_buffers_snapshot();
        list.push(handle);
        self.buffers = list;
        assert(self.spec_buffers() =~= handles(self.spec_writers().len()));
        handle
    }

    /// A copy of the published list of handles.
    pub fn get_buffers_snapshot(&self) -> (r: Vec<usize>)
        ensures
            r@ == self.spec_buffers(),
    {
        let mut r: Vec<usize> = Vec::new();
        let mut i: usize = 0;
        while i < self.buffers.len()
            invariant
                i <= self.spec_buffers().len(),
                r@ == self.spec_buffers().take(i as int),
            decreases self.spec_buffers().len() - i,
        {
            r.push(self.buffers[i]);
            i = i + 1;
            assert(r@ =~= self.spec_buffers().take(i as int));
        }
        assert(r@ =~= self.spec_buffers());
        r
    }

    pub fn get_config(&self) -> (r: CompositorConfig)
        ensures
            r == self.spec_config(),
    {
        self.config
    }

    /// Number of registered writers.
    pub fn writer_count(&self) -> (r: usize)
        ensures
            r == self.spec_writers().len(),
    {
        self.writers.len()
    }

    /// The writer buffer of handle `h`.
    pub fn writer(&self, h: usize) -> (r: &WriterBuffer)
        requires
            h < self.spec_writers().len(),
        ensures
            *r == self.spec_writers()[h as int],
    {
        &self.writers[h]
    }

    fn swap_writer(&mut self, h: usize, w: &mut WriterBuffer)
        requires
            h < old(self).spec_writers().len(),
        ensures
            final(self).spec_writers() == old(self).spec_writers().update(h as int, *old(w)),
            *final(w) == old(self).spec_writers()[h as int],
            final(self).spec_buffers() == old(self).spec_buffers(),
            final(self).spec_config() == old(self).spec_config(),
            final(self).spec_frame_count() == old(self).spec_frame_count(),
    {
        self.writers.set_and_swap(h, w);
    }

    /// Queues `cmd` on writer `h`.
    pub fn push_command(&mut self, h: usize, cmd: DrawCommand)
        requires
            old(self).wf(),
            h < old(self).spec_writers().len(),
        ensures
            final(self).wf(),
            final(self).spec_writers().len() == old(self).spec_writers().len(),
            forall|i: int| 0 <= i < old(self).spec_writers().len() && i != h ==> #[trigger] final(self).spec_writers()[i] == old(self).spec_writers()[i],
            final(self).spec_writers()[h as int].spec_commands() == old(self).spec_writers()[h as int].spec_commands().push(cmd),
            final(self).spec_writers()[h as int].spec_dirty(),
            final(self).spec_writers()[h as int].spec_region() == old(self).spec_writers()[h as int].spec_region(),
            final(self).spec_writers()[h as int].spec_owner() == old(self).spec_writers()[h as int].spec_owner(),
            final(self).spec_config() == old(self).spec_config(),
            final(self).spec_frame_count() == old(self).spec_frame_count(),
    {
        let mut w = WriterBuffer::new(Region { x: 0, y: 0, width: 0, height: 0 });
        self.swap_writer(h, &mut w);
        w.push_command(cmd);
        let ghost taken = w;
        self.swap_writer(h, &mut w);
        assert(self.spec_writers()[h as int] == taken);
    }

    /// Marks writer `h` as flushed synchronously by task `task_id`, to be
    /// woken once its commands are rendered.
    pub fn set_owner_task_id(&mut self, h: usize, task_id: u64)
        requires
            old(self).wf(),
            h < old(self).spec_writers().len(),
        ensures
            final(self).wf(),
            final(self).spec_writers().len() == old(self).spec_writers().len(),
            forall|i: int| 0 <= i < old(self).spec_writers().len() && i != h ==> #[trigger] final(self).spec_writers()[i] == old(self).spec_writers()[i],
            final(self).spec_writers()[h as int].spec_commands() == old(self).spec_writers()[h as int].spec_commands(),
            final(self).spec_writers()[h as int].spec_dirty() == old(self).spec_writers()[h as int].spec_dirty(),
            final(self).spec_writers()[h as int].spec_region() == old(self).spec_writers()[h as int].spec_region(),
            final(self).spec_writers()[h as int].spec_owner() == Some(task_id),
            final(self).spec_config() == old(self).spec_config(),
            final(self).spec_frame_count() == old(self).spec_frame_count(),
    {
        let mut w = WriterBuffer::new(Region { x: 0, y: 0, width: 0, height: 0 });
        self.swap_writer(h, &mut w);
        w.set_owner_task_id(task_id);
        let ghost taken = w;
        self.swap_writer(h, &mut w);
        assert(self.spec_writers()[h as int] == taken);
    }

    /// One compositor pass over the writers of `snapshot` (a published list
    /// taken earlier), in order: each writer not `busy` (its lock was held
    /// elsewhere) with pending commands has them rendered into `shadow`, in
    /// the order they were pushed, and is then emptied and marked clean.
    /// Returns the owners of the rendered writers that flush synchronously.
    pub fn compose_frame(&mut self, shadow: &mut ShadowBuffer, snapshot: &Vec<usize>, busy: &Vec<bool>) -> (r: Vec<u64>)
        requires
            old(self).wf(),
            old(shadow).wf(),
            snapshot@.len() <= old(self).spec_writers().len(),
            snapshot@ == handles(snapshot@.len()),
            busy@.len() == snapshot@.len(),
        ensures
            final(self).wf(),
            final(shadow).wf(),
            final(shadow).spec_width() == old(shadow).spec_width(),
            final(shadow).spec_height() == old(shadow).spec_height(),
            final(shadow).spec_font() == old(shadow).spec_font(),
            final(shadow).pixels() == frame_pixels(old(shadow).pixels(), old(shadow).spec_width(), old(shadow).spec_font(), old(self).spec_writers(), busy@, snapshot@.len()),
            final(shadow).spec_dirty() == frame_dirty(old(shadow).spec_dirty(), old(shadow).spec_width(), old(shadow).spec_height(), old(self).spec_writers(), busy@, snapshot@.len()),
            r@ == frame_wakes(old(self).spec_writers(), busy@, snapshot@.len()),
            final(self).spec_writers().len() == old(self).spec_writers().len(),
            forall|i: int| 0 <= i < final(self).spec_writers().len() ==> {
                let w = #[trigger] final(self).spec_writers()[i];
                let o = old(self).spec_writers()[i];
                if i < snapshot@.len() && renders(old(self).spec_writers(), busy@, i) {
                    w.spec_commands().len() == 0 && !w.spec_dirty() && w.spec_region() == o.spec_region() && w.spec_owner() == o.spec_owner()
                } else {
                    w == o
                }
            },
            final(self).spec_config() == old(self).spec_config(),
            final(self).spec_frame_count() == if old(self).spec_frame_count() < u64::MAX { (old(self).spec_frame_count() + 1) as u64 } else { u64::MAX },
    {
        let ghost ow = old(self).spec_writers();
        let mut wakes: Vec<u64> = Vec::new();
        let n = snapshot.len();
        let mut i: usize = 0;
        while i < n
            invariant
                i <= n,
                n == snapshot@.len(),
                n <= ow.len(),
                busy@.len() == n,
                self.wf(),
                self.spec_writers().len() == ow.len(),
                self.spec_config() == old(self).spec_config(),
                self.spec_frame_count() == old(self).spec_frame_count(),
                ow == old(self).spec_writers(),
                shadow.wf(),
                shadow.spec_width() == old(shadow).spec_width(),
                shadow.spec_height() == old(shadow).spec_height(),
                shadow.spec_font() == old(shadow).spec_font(),
                shadow.pixels() == frame_pixels(old(shadow).pixels(), old(shadow).spec_width(), old(shadow).spec_font(), ow, busy@, i as nat),
                shadow.spec_dirty() == frame_dirty(old(shadow).spec_dirty(), old(shadow).spec_width(), old(shadow).spec_height(), ow, busy@, i as nat),
                wakes@ == frame_wakes(ow, busy@, i as nat),
                forall|j: int| 0 <= j < self.spec_writers().len() ==> {
                    let w = #[trigger] self.spec_writers()[j];
                    let o = ow[j];
                    if j < i && renders(ow, busy@, j) {
                        w.spec_commands().len() == 0 && !w.spec_dirty() && w.spec_region() == o.spec_region() && w.spec_owner() == o.spec_owner()
                    } else {
                        w == o
                    }
                },
            decreases n - i,
        {
            let dirty = self.writers[i].is_dirty();
            if !busy[i] && dirty {
                let region = self.writers[i].region();
                render_commands_to(shadow, &region, self.writers[i].commands());
                let mut w = WriterBuffer::new(Region { x: 0, y: 0, width: 0, height: 0 });
                self.swap_writer(i, &mut w);
                w.clear_commands();
                let owner = w.owner_task_id();
                let ghost taken = w;
                self.swap_writer(i, &mut w);
                assert(self.spec_writers()[i as int] == taken);
                if let Some(id) = owner {
                    wakes.push(id);
                }
            }
            proof {
                assert(self.spec_buffers() == handles(self.spec_writers().len()));
            }
            i = i + 1;
        }
        if self.frame_count < u64::MAX {
            self.frame_count = self.frame_count + 1;
        }
        wakes
    }

    /// Hands the frame to the hardware: when anything was drawn since the
    /// last time, copies the shadow buffer into `fb` and forgets the dirty
    /// rectangle. Returns whether it copied.
    pub fn present(shadow: &mut ShadowBuffer, fb: &mut Vec<u32>) -> (r: bool)
        requires
            old(shadow).wf(),
            old(fb)@.len() == old(shadow).pixels().len(),
        ensures
            r == old(shadow).spec_dirty() is Some,
            r ==> final(fb)@ == old(shadow).pixels(),
            !r ==> final(fb)@ == old(fb)@,
            final(shadow).spec_dirty() is None,
            final(shadow).wf(),
            final(shadow).pixels() == old(shadow).pixels(),
            final(shadow).spec_width() == old(shadow).spec_width(),
            final(shadow).spec_height() == old(shadow).spec_height(),
            final(shadow).spec_font() == old(shadow).spec_font(),
    {
        match shadow.take_dirty_rect() {
            Some(_) => {
                shadow.blit_to(fb);
                true
            },
            None => false,
        }
    }
}

/// A compositor for `config`, with no writer yet.
pub fn init_compositor(config: CompositorConfig) -> (r: Compositor)
    ensures
        r.wf(),
        r.spec_config() == config,
        r.spec_writers().len() == 0,
        r.spec_frame_count() == 0,
{
    Compositor::new(config)
}

/// Frames the compositor has composed.
pub fn frame_count(c: &Compositor) -> (r: u64)
    ensures
        r == c.spec_frame_count(),
{
    c.frame_count
}

/// Width and height of the screen.
pub fn screen_size(c: &Compositor) -> (r: (u32, u32))
    ensures
        r == (c.spec_config().fb_width, c.spec_config().fb_height),
{
    (c.config.fb_width, c.config.fb_height)
}

/// Base address of the hardware frame buffer.
pub fn fb_base(c: &Compositor) -> (r: u64)
    ensures
        r == c.spec_config().fb_base,
{
    c.config.fb_base
}

/// Registering a writer publishes its handle at the end of the list and
/// leaves every earlier snapshot of the list as it was.
pub proof fn law_register_publishes(before: Seq<usize>, after: Seq<usize>, snapshot: Seq<usize>, h: usize)
    requires
        after == before.push(h),
        snapshot == before,
    ensures
        after.contains(h),
        after.take(before.len() as int) == snapshot,
{
    assert(after[before.len() as int] == h);
    assert(after.take(before.len() as int) =~= snapshot);
}

} // verus!
