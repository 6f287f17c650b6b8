use vstd::prelude::*;
use crate::buffer::DrawCommand;
use crate::region::Region;
use crate::shadow_buffer::{char_spec, paint_spec, string_spec, ShadowBuffer};

verus! {

/// `v` on a screen of size `screen`, scaled to a view of size `mini`.
pub open spec fn scale(v: int, mini: int, screen: int) -> int {
    (v * mini) / screen
}

/// A scaled length, at least one pixel.
pub open spec fn scale_len(v: int, mini: int, screen: int) -> int {
    if scale(v, mini, screen) < 1 { 1 } else { scale(v, mini, screen) }
}

/// The rectangle `(x, y, w, h)`, in view pixels, that a command is shown as
/// in a `mini_w × mini_h` view of a `screen_w × screen_h` screen: a clear
/// or a filled rectangle scaled down (at least one pixel each way), a
/// string as a bar two pixels high and at least two wide, a character as a
/// two-pixel dot.
pub open spec fn mini_rect(region: Region, cmd: DrawCommand, mini_w: int, mini_h: int, screen_w: int, screen_h: int) -> (int, int, int, int) {
    match cmd {
        DrawCommand::Clear { .. } => (
            scale(region.x as int, mini_w, screen_w),
            scale(region.y as int, mini_h, screen_h),
            scale_len(region.width as int, mini_w, screen_w),
            scale_len(region.height as int, mini_h, screen_h),
        ),
        DrawCommand::FillRect { x, y, width, height, .. } => (
            scale(region.x + x, mini_w, screen_w),
            scale(region.y + y, mini_h, screen_h),
            scale_len(width as int, mini_w, screen_w),
            scale_len(height as int, mini_h, screen_h),
        ),
        DrawCommand::DrawString { x, y, text, .. } => (
            scale(region.x + x, mini_w, screen_w),
            scale(region.y + y, mini_h, screen_h),
            if scale_len(8 * (vstd::utf8::encode_utf8(text@).len() as int), mini_w, screen_w) < 2 { 2 } else { scale_len(8 * (vstd::utf8::encode_utf8(text@).len() as int), mini_w, screen_w) },
            2,
        ),
        DrawCommand::DrawChar { x, y, .. } => (
            scale(region.x + x, mini_w, screen_w),
            scale(region.y + y, mini_h, screen_h),
            2,
            2,
        ),
    }
}

pub open spec fn command_color(cmd: DrawCommand) -> u32 {
    match cmd {
        DrawCommand::Clear { color } => color,
        DrawCommand::FillRect { color, .. } => color,
        DrawCommand::DrawString { color, .. } => color,
        DrawCommand::DrawChar { color, .. } => color,
    }
}

/// A small off-screen view of the screen, for showing where writers draw.
pub struct MiniBuffer {
    canvas: ShadowBuffer,
}

impl MiniBuffer {
    pub closed spec fn spec_canvas(&self) -> ShadowBuffer {
        self.canvas
    }

    pub open spec fn wf(&self) -> bool {
        self.spec_canvas().wf()
    }

    /// A black view of `width × height` pixels that draws characters with
    /// `font` (see `ShadowBuffer::with_font`); fails when it would not fit in memory.
    pub fn with_font(width: u32, height: u32, font: Vec<u64>) -> (r: Option<MiniBuffer>)
        ensures
            (width as int) * (height as int) <= usize::MAX <==> r is Some,
            r matches Some(b) ==> b.wf() && b.spec_canvas().spec_width() == width && b.spec_canvas().spec_height() == height
                && b.spec_canvas().spec_font() == font@
                && forall|i: int| 0 <= i < b.spec_canvas().pixels().len() ==> #[trigger] b.spec_canvas().pixels()[i] == 0,
    {
        match ShadowBuffer::with_font(width, height, font) {
            Some(canvas) => Some(MiniBuffer { canvas }),
            None => None,
        }
    }

    /// A black view of `width × height` pixels without glyphs.
    pub fn new(width: u32, height: u32) -> (r: Option<MiniBuffer>)
        ensures
            (width as int) * (height as int) <= usize::MAX <==> r is Some,
            r matches Some(b) ==> b.wf() && b.spec_canvas().spec_width() == width && b.spec_canvas().spec_height() == height
                && b.spec_canvas().spec_font().len() == 0
                && forall|i: int| 0 <= i < b.spec_canvas().pixels().len() ==> #[trigger] b.spec_canvas().pixels()[i] == 0,
    {
        MiniBuffer::with_font(width, height, Vec::new())
    }

    pub fn width(&self) -> (r: u32)
        ensures
            r == self.spec_canvas().spec_width(),
    {
        self.canvas.width()
    }

    pub fn height(&self) -> (r: u32)
        ensures
            r == self.spec_canvas().spec_height(),
    {
        self.canvas.height()
    }

    /// Pixel `(x, y)`.
    pub fn pixel(&self, x: u32, y: u32) -> (r: u32)
        requires
            self.wf(),
            x < self.spec_canvas().spec_width(),
            y < self.spec_canvas().spec_height(),
        ensures
            r == self.spec_canvas().pixel_at(x as int, y as int),
    {
        self.canvas.pixel(x, y)
    }

    pub fn clear(&mut self, color: u32)
        requires
            old(self).wf(),
        ensures
            final(self).wf(),
            final(self).spec_canvas().spec_width() == old(self).spec_canvas().spec_width(),
            final(self).spec_canvas().spec_height() == old(self).spec_canvas().spec_height(),
            forall|i: int| 0 <= i < final(self).spec_canvas().pixels().len() ==> #[trigger] final(self).spec_canvas().pixels()[i] == color,
    {
        self.canvas.clear(color);
    }

    /// Fills the visible part of `(x, y, w, h)`.
    pub fn draw_rect(&mut self, x: u32, y: u32, w: u32, h: u32, color: u32)
        requires
            old(self).wf(),
        ensures
            final(self).wf(),
            final(self).spec_canvas().spec_width() == old(self).spec_canvas().spec_width(),
            final(self).spec_canvas().spec_height() == old(self).spec_canvas().spec_height(),
            final(self).spec_canvas().spec_font() == old(self).spec_canvas().spec_font(),
            final(self).spec_canvas().pixels() == paint_spec(old(self).spec_canvas().pixels(), old(self).spec_canvas().spec_width(), x as int, y as int, w as int, h as int, color, None),
    {
        self.canvas.fill_rect(x, y, w, h, color);
    }

    /// Draws character `ch` in the cell at `(x, y)`.
    pub fn draw_char(&mut self, x: u32, y: u32, ch: u8, color: u32)
        requires
            old(self).wf(),
        ensures
            final(self).wf(),
            final(self).spec_canvas().spec_width() == old(self).spec_canvas().spec_width(),
            final(self).spec_canvas().spec_height() == old(self).spec_canvas().spec_height(),
            final(self).spec_canvas().spec_font() == old(self).spec_canvas().spec_font(),
            final(self).spec_canvas().pixels() == char_spec(old(self).spec_canvas().pixels(), old(self).spec_canvas().spec_width(), old(self).spec_canvas().spec_font(), x as int, y as int, ch, color),
    {
        self.canvas.draw_char_at(x as u64, y as u64, ch, color);
    }

    /// Draws the bytes of `s` in successive cells from `(x, y)` on.
    pub fn draw_string(&mut self, x: u32, y: u32, s: &str, color: u32)
        requires
            old(self).wf(),
        ensures
            final(self).wf(),
            final(self).spec_canvas().spec_width() == old(self).spec_canvas().spec_width(),
            final(self).spec_canvas().spec_height() == old(self).spec_canvas().spec_height(),
            final(self).spec_canvas().spec_font() == old(self).spec_canvas().spec_font(),
            final(self).spec_canvas().pixels() == string_spec(old(self).spec_canvas().pixels(), old(self).spec_canvas().spec_width(), old(self).spec_canvas().spec_font(), x as int, y as int, vstd::utf8::encode_utf8(s@), color),
    {
        self.canvas.draw_string_at(x as u64, y as u64, s.as_bytes(), color);
    }

    /// Copies this view into `dest`, a view of the same size.
    pub fn blit_to(&self, dest: &mut MiniBuffer)
        requires
            old(dest).wf(),
            self.spec_canvas().pixels().len() == old(dest).spec_canvas().pixels().len(),
        ensures
            final(dest).wf(),
            final(dest).spec_canvas().pixels() == self.spec_canvas().pixels(),
            final(dest).spec_canvas().spec_width() == old(dest).spec_canvas().spec_width(),
            final(dest).spec_canvas().spec_height() == old(dest).spec_canvas().spec_height(),
    {
        dest.canvas.copy_from(&self.canvas);
    }

    /// Shows `cmd` of a writer owning `region`, on a `screen_width ×
    /// screen_height` screen, as its scaled rectangle in its colour; returns
    /// that rectangle.
    pub fn render_command(&mut self, region: &Region, cmd: &DrawCommand, screen_width: u32, screen_height: u32) -> (r: (u32, u32, u32, u32))
        requires
            old(self).wf(),
            screen_width > 0,
            screen_height > 0,
        ensures
            final(self).wf(),
            final(self).spec_canvas().spec_width() == old(self).spec_canvas().spec_width(),
            final(self).spec_canvas().spec_height() == old(self).spec_canvas().spec_height(),
            ({
                let (x, y, w, h) = mini_rect(*region, *cmd, old(self).spec_canvas().spec_width() as int, old(self).spec_canvas().spec_height() as int, screen_width as int, screen_height as int);
                &&& r == (x as u32, y as u32, w as u32, h as u32)
                &&& final(self).spec_canvas().pixels() == paint_spec(old(self).spec_canvas().pixels(), old(self).spec_canvas().spec_width(), x, y, w, h, command_color(*cmd), None)
            }),
    {
        let mini_w = self.canvas.width() as u128;
        let mini_h = self.canvas.height() as u128;
        let sw = screen_width as u128;
        let sh = screen_height as u128;
        let (vx, vy, vw, vh, color): (u128, u128, u128, u128, u32) = match cmd {
            DrawCommand::Clear { color } => (region.x as u128, region.y as u128, region.width as u128, region.height as u128, *color),
            DrawCommand::FillRect { x, y, width, height, color } => (region.x as u128 + *x as u128, region.y as u128 + *y as u128, *width as u128, *height as u128, *color),
            DrawCommand::DrawString { x, y, text, color } => {
                let bytes = text.as_str().as_bytes();
                let n = bytes.len();
                proof {
                    assert(bytes@ == vstd::utf8::encode_utf8(text@));
                }
                (region.x as u128 + *x as u128, region.y as u128 + *y as u128, n as u128 * 8, 0, *color)
            },
            DrawCommand::DrawChar { x, y, color, .. } => (region.x as u128 + *x as u128, region.y as u128 + *y as u128, 0, 0, *color),
        };
        proof {
            assert(vx * mini_w <= 0x2_0000_0000u128 * 0x1_0000_0000u128) by (nonlinear_arith)
                requires vx <= 0x2_0000_0000u128, mini_w <= 0x1_0000_0000u128;
            assert(vy * mini_h <= 0x2_0000_0000u128 * 0x1_0000_0000u128) by (nonlinear_arith)
                requires vy <= 0x2_0000_0000u128, mini_h <= 0x1_0000_0000u128;
            assert(vw * mini_w <= 0x8_0000_0000_0000_0000u128 * 0x1_0000_0000u128) by (nonlinear_arith)
                requires vw <= 0x8_0000_0000_0000_0000u128, mini_w <= 0x1_0000_0000u128;
            assert(vh * mini_h <= 0x2_0000_0000u128 * 0x1_0000_0000u128) by (nonlinear_arith)
                requires vh <= 0x2_0000_0000u128, mini_h <= 0x1_0000_0000u128;
        }
        let sx = vx * mini_w / sw;
        let sy = vy * mini_h / sh;
        let sw1 = vw * mini_w / sw;
        let sh1 = vh * mini_h / sh;
        let lw = if sw1 < 1 { 1 } else { sw1 };
        let lh = if sh1 < 1 { 1 } else { sh1 };
        let (rw, rh): (u128, u128) = match cmd {
            DrawCommand::Clear { .. } => (lw, lh),
            DrawCommand::FillRect { .. } => (lw, lh),
            DrawCommand::DrawString { .. } => (if lw < 2 { 2 } else { lw }, 2),
            DrawCommand::DrawChar { .. } => (2, 2),
        };
        let ghost old_pix = self.canvas.pixels();
        let cw = mini_w;
        let ch = mini_h;
        let px = if sx < cw { sx } else { cw };
        let py = if sy < ch { sy } else { ch };
        let pw = if rw < cw { rw } else { cw };
        let ph = if rh < ch { rh } else { ch };
        proof {
            crate::shadow_buffer::lemma_paint_clamp(old_pix, self.canvas.spec_width(), self.canvas.spec_height(), sx as int, sy as int, rw as int, rh as int, color, None);
        }
        self.canvas.fill_rect_at(px as u64, py as u64, pw as u64, ph as u64, color);
        (sx as u32, sy as u32, rw as u32, rh as u32)
    }
}

} // verus!
