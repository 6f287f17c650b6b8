use vstd::prelude::*;
use crate::region::Region;

verus! {

/// Width and height of a glyph cell.
pub const GLYPH_SIZE: u64 = 8;

/// First printable character a font holds.
pub const FIRST_GLYPH: u8 = 32;

/// Last printable character a font holds.
pub const LAST_GLYPH: u8 = 126;

/// Whether a pixel at column `c`, row `r` of a cell is drawn: always for a
/// plain rectangle, and where the glyph's bit `r · 8 + c` is set for a
/// character.
pub open spec fn glyph_ok(glyph: Option<u64>, c: int, r: int) -> bool {
    match glyph {
        None => true,
        Some(g) => 0 <= c < 8 && 0 <= r < 8 && (g >> ((r * 8 + c) as u64)) & 1 == 1,
    }
}

/// The pixels after painting the `w × h` rectangle at `(x, y)` (clipped to
/// the `width`-wide canvas) with `color`, where `glyph` allows.
pub open spec fn paint_spec(
    pix: Seq<u32>,
    width: nat,
    x: int,
    y: int,
    w: int,
    h: int,
    color: u32,
    glyph: Option<u64>,
) -> Seq<u32> {
    Seq::new(
        pix.len(),
        |i: int|
            {
                let px = i % (width as int);
                let py = i / (width as int);
                if x <= px < x + w && y <= py < y + h && glyph_ok(glyph, px - x, py - y) {
                    color
                } else {
                    pix[i]
                }
            },
    )
}

pub proof fn lemma_paint_at(pix: Seq<u32>, width: nat, x: int, y: int, w: int, h: int, color: u32, glyph: Option<u64>, i: int)
    requires
        0 <= i < pix.len(),
    ensures
        paint_spec(pix, width, x, y, w, h, color, glyph)[i] == if x <= i % (width as int) < x + w && y <= i / (width as int) < y + h
            && glyph_ok(glyph, i % (width as int) - x, i / (width as int) - y) {
            color
        } else {
            pix[i]
        },
{
}

/// The glyph of character `ch`, if `font` holds one.
pub open spec fn glyph_of(font: Seq<u64>, ch: u8) -> Option<u64> {
    if FIRST_GLYPH <= ch <= LAST_GLYPH && ch - FIRST_GLYPH < font.len() {
        Some(font[ch - FIRST_GLYPH])
    } else {
        None
    }
}

/// The glyphs a frame draws with when no font is given: a space is blank,
/// every other printable character fills its whole cell.
pub open spec fn block_glyphs() -> Seq<u64> {
    Seq::new(95, |i: int| if i == 0 { 0u64 } else { u64::MAX })
}

/// The table of `block_glyphs`.
pub fn block_glyph_table() -> (r: Vec<u64>)
    ensures
        r@ == block_glyphs(),
{
    let mut font: Vec<u64> = Vec::new();
    font.push(0);
    let mut i: usize = 1;
    while i < 95
        invariant
            1 <= i <= 95,
            font@.len() == i,
            font@[0] == 0,
            forall|j: int| 1 <= j < i ==> #[trigger] font@[j] == u64::MAX,
        decreases 95 - i,
    {
        font.push(u64::MAX);
        i = i + 1;
    }
    assert(font@ =~= block_glyphs());
    font
}

/// The pixels after drawing character `ch` at `(x, y)`; a character without
/// a glyph draws nothing.
pub open spec fn char_spec(pix: Seq<u32>, width: nat, font: Seq<u64>, x: int, y: int, ch: u8, color: u32) -> Seq<u32> {
    match glyph_of(font, ch) {
        Some(g) => paint_spec(pix, width, x, y, 8, 8, color, Some(g)),
        None => pix,
    }
}

/// The pixels after drawing `text` from `(x, y)` on, one cell per byte.
pub open spec fn string_spec(pix: Seq<u32>, width: nat, font: Seq<u64>, x: int, y: int, text: Seq<u8>, color: u32) -> Seq<u32>
    decreases text.len(),
{
    if text.len() == 0 {
        pix
    } else {
        string_spec(
            char_spec(pix, width, font, x, y, text[0], color),
            width,
            font,
            x + 8,
            y,
            text.drop_first(),
            color,
        )
    }
}

/// Painting a rectangle gives the same pixels once its start and size are
/// capped at the screen's.
pub proof fn lemma_paint_clamp(pix: Seq<u32>, width: nat, height: nat, x: int, y: int, w: int, h: int, color: u32, glyph: Option<u64>)
    requires
        pix.len() == width * height,
        x >= 0,
        y >= 0,
        w >= 0,
        h >= 0,
        glyph is None,
    ensures
        paint_spec(pix, width, x, y, w, h, color, glyph) == paint_spec(
            pix,
            width,
            if x < width { x } else { width as int },
            if y < height { y } else { height as int },
            if w < width { w } else { width as int },
            if h < height { h } else { height as int },
            color,
            glyph,
        ),
{
    let a = paint_spec(pix, width, x, y, w, h, color, glyph);
    let x2 = if x < width { x } else { width as int };
    let y2 = if y < height { y } else { height as int };
    let w2 = if w < width { w } else { width as int };
    let h2 = if h < height { h } else { height as int };
    let b = paint_spec(pix, width, x2, y2, w2, h2, color, glyph);
    assert forall|i: int| 0 <= i < pix.len() implies a[i] == b[i] by {
        let W = width as int;
        assert(W > 0) by (nonlinear_arith)
            requires pix.len() == width * height, i < pix.len(), W == width, i >= 0;
        vstd::arithmetic::div_mod::lemma_fundamental_div_mod(i, W);
        assert(i / W < height) by (nonlinear_arith)
            requires i == W * (i / W) + i % W, 0 <= i % W < W, i < W * height, W > 0;
        lemma_paint_at(pix, width, x, y, w, h, color, glyph, i);
        lemma_paint_at(pix, width, x2, y2, w2, h2, color, glyph, i);
    }
    assert(a =~= b);
}

/// Text that starts right of the screen draws nothing.
pub proof fn lemma_string_offscreen(pix: Seq<u32>, width: nat, font: Seq<u64>, x: int, y: int, text: Seq<u8>, color: u32)
    requires
        x >= width,
        width > 0 || pix.len() == 0,
    ensures
        string_spec(pix, width, font, x, y, text, color) == pix,
    decreases text.len(),
{
    if text.len() > 0 {
        let p1 = char_spec(pix, width, font, x, y, text[0], color);
        assert(p1 =~= pix) by {
            if let Some(g) = glyph_of(font, text[0]) {
                assert forall|i: int| 0 <= i < pix.len() implies #[trigger] p1[i] == pix[i] by {
                    lemma_paint_at(pix, width, x, y, 8, 8, color, Some(g), i);
                    vstd::arithmetic::div_mod::lemma_fundamental_div_mod(i, width as int);
                }
            }
        }
        lemma_string_offscreen(p1, width, font, x + 8, y, text.drop_first(), color);
    }
}

/// The smallest rectangle holding both, or the other one when one is absent.
pub open spec fn bounding_box(a: Option<Region>, b: Region) -> Region {
    match a {
        None => b,
        Some(r) => {
            let x0 = if r.x < b.x { r.x } else { b.x };
            let y0 = if r.y < b.y { r.y } else { b.y };
            let x1 = if r.spec_right() > b.spec_right() { r.spec_right() } else { b.spec_right() };
            let y1 = if r.spec_bottom() > b.spec_bottom() { r.spec_bottom() } else { b.spec_bottom() };
            Region { x: x0, y: y0, width: (x1 - x0) as u32, height: (y1 - y0) as u32 }
        },
    }
}

/// The part of rectangle `(x, y, w, h)` that lies on a `width × height`
/// screen, or `None` when nothing does.
pub open spec fn clip_spec(x: int, y: int, w: int, h: int, width: int, height: int) -> Option<Region> {
    let x1 = if x + w < width { x + w } else { width };
    let y1 = if y + h < height { y + h } else { height };
    if x < x1 && y < y1 {
        Some(Region { x: x as u32, y: y as u32, width: (x1 - x) as u32, height: (y1 - y) as u32 })
    } else {
        None
    }
}

/// The compositor's off-screen frame: `width × height` pixels, row by row,
/// the glyphs it draws characters with, and the bounding box of what was
/// drawn since the last blit.
pub struct ShadowBuffer {
    buffer: Vec<u32>,
    width: u32,
    height: u32,
    font: Vec<u64>,
    dirty: Option<Region>,
}

impl ShadowBuffer {
    pub closed spec fn pixels(&self) -> Seq<u32> {
        self.buffer@
    }

    pub closed spec fn spec_width(&self) -> nat {
        self.width as nat
    }

    pub closed spec fn spec_height(&self) -> nat {
        self.height as nat
    }

    pub closed spec fn spec_font(&self) -> Seq<u64> {
        self.font@
    }

    pub closed spec fn spec_dirty(&self) -> Option<Region> {
        self.dirty
    }

    pub open spec fn wf(&self) -> bool {
        &&& self.pixels().len() == self.spec_width() * self.spec_height()
        &&& self.spec_width() * self.spec_height() <= usize::MAX
        &&& self.spec_width() <= u32::MAX
        &&& self.spec_height() <= u32::MAX
        &&& self.spec_dirty() matches Some(d) ==> d.spec_right() <= self.spec_width() && d.spec_bottom() <= self.spec_height()
    }

    /// Pixel `(x, y)`.
    pub open spec fn pixel_at(&self, x: int, y: int) -> u32 {
        self.pixels()[y * self.spec_width() + x]
    }

    /// A black frame drawing with `block_glyphs`; fails when the frame would
    /// not fit in memory.
    pub fn new(width: u32, height: u32) -> (r: Option<ShadowBuffer>)
        ensures
            (width as int) * (height as int) <= usize::MAX <==> r is Some,
            r matches Some(b) ==> b.wf() && b.spec_width() == width && b.spec_height() == height
                && b.spec_dirty() is None && b.spec_font() == block_glyphs()
                && forall|i: int| 0 <= i < b.pixels().len() ==> #[trigger] b.pixels()[i] == 0,
    {
        ShadowBuffer::with_font(width, height, block_glyph_table())
    }

    /// A black frame drawing characters with `font`: one glyph for each of
    /// the characters 32 to 126, row `r` of the cell in bits `8r .. 8r+7`.
    pub fn with_font(width: u32, height: u32, font: Vec<u64>) -> (r: Option<ShadowBuffer>)
        ensures
            (width as int) * (height as int) <= usize::MAX <==> r is Some,
            r matches Some(b) ==> b.wf() && b.spec_width() == width && b.spec_height() == height
                && b.spec_dirty() is None && b.spec_font() == font@
                && forall|i: int| 0 <= i < b.pixels().len() ==> #[trigger] b.pixels()[i] == 0,
    {
        let size = (width as usize).checked_mul(height as usize);
        match size {
            None => None,
            Some(n) => {
                let mut buffer: Vec<u32> = Vec::new();
                let mut i: usize = 0;
                while i < n
                    invariant
                        i <= n,
                        buffer@.len() == i,
                        forall|j: int| 0 <= j < i ==> #[trigger] buffer@[j] == 0,
                    decreases n - i,
                {
                    buffer.push(0);
                    i = i + 1;
                }
                Some(ShadowBuffer { buffer, width, height, font, dirty: None })
            },
        }
    }

    pub fn width(&self) -> (r: u32)
        ensures
            r == self.spec_width(),
    {
        self.width
    }

    pub fn height(&self) -> (r: u32)
        ensures
            r == self.spec_height(),
    {
        self.height
    }

    /// The pixels, row by row.
    pub fn pixels_vec(&self) -> (r: &Vec<u32>)
        ensures
            r@ == self.pixels(),
    {
        &self.buffer
    }

    /// Pixel `(x, y)`.
    pub fn pixel(&self, x: u32, y: u32) -> (r: u32)
        requires
            self.wf(),
            x < self.spec_width(),
            y < self.spec_height(),
        ensures
            r == self.pixel_at(x as int, y as int),
    {
        proof {
            assert((y as int) * (self.width as int) + (x as int) < (self.width as int) * (self.height as int)) by (nonlinear_arith)
                requires x < self.width, y < self.height;
        }
        self.buffer[(y as usize) * (self.width as usize) + (x as usize)]
    }

    /// Sets every pixel to `color`; marks nothing dirty.
    pub fn clear(&mut self, color: u32)
        requires
            old(self).wf(),
        ensures
            final(self).wf(),
            final(self).spec_width() == old(self).spec_width(),
            final(self).spec_height() == old(self).spec_height(),
            final(self).spec_font() == old(self).spec_font(),
            final(self).spec_dirty() == old(self).spec_dirty(),
            forall|i: int| 0 <= i < final(self).pixels().len() ==> #[trigger] final(self).pixels()[i] == color,
    {
        let n = self.buffer.len();
        let mut i: usize = 0;
        while i < n
            invariant
                i <= n,
                n == self.pixels().len(),
                self.wf(),
                self.spec_width() == old(self).spec_width(),
                self.spec_height() == old(self).spec_height(),
                self.spec_font() == old(self).spec_font(),
                self.spec_dirty() == old(self).spec_dirty(),
                forall|j: int| 0 <= j < i ==> #[trigger] self.pixels()[j] == color,
            decreases n - i,
        {
            self.buffer.set(i, color);
            i = i + 1;
        }
    }

    /// Paints the part of the `w × h` rectangle at `(x, y)` that is on
    /// screen, pixel by pixel where `glyph` allows.
    fn paint(&mut self, x: u64, y: u64, w: u64, h: u64, color: u32, glyph: Option<u64>)
        requires
            old(self).wf(),
            x + w <= u64::MAX,
            y + h <= u64::MAX,
        ensures
            final(self).wf(),
            final(self).spec_width() == old(self).spec_width(),
            final(self).spec_height() == old(self).spec_height(),
            final(self).spec_font() == old(self).spec_font(),
            final(self).spec_dirty() == old(self).spec_dirty(),
            final(self).pixels() == paint_spec(old(self).pixels(), old(self).spec_width(), x as int, y as int, w as int, h as int, color, glyph),
    {
        let ghost target = paint_spec(old(self).pixels(), old(self).spec_width(), x as int, y as int, w as int, h as int, color, glyph);
        let width = self.width as u64;
        let height = self.height as u64;
        let x1 = if x + w < width { x + w } else { width };
        let y1 = if y + h < height { y + h } else { height };
        if x >= x1 || y >= y1 {
            proof {
                assert forall|i: int| 0 <= i < self.pixels().len() implies #[trigger] target[i] == self.pixels()[i] by {
                    let W = self.spec_width() as int;
                    vstd::arithmetic::div_mod::lemma_fundamental_div_mod(i, W);
                    assert(i / W < self.spec_height()) by (nonlinear_arith)
                        requires i == W * (i / W) + i % W, 0 <= i % W < W, i < W * self.spec_height(), W > 0;
                    lemma_paint_at(old(self).pixels(), old(self).spec_width(), x as int, y as int, w as int, h as int, color, glyph, i);
                }
                assert(self.pixels() =~= target);
            }
            return;
        }
        let mut py = y;
        while py < y1
            invariant
                y <= py <= y1,
                x < x1 <= width,
                y1 <= height,
                x1 <= x + w,
                y1 <= y + h,
                x1 == if x + w < width { (x + w) as int } else { width as int },
                y1 == if y + h < height { (y + h) as int } else { height as int },
                width == self.spec_width(),
                height == self.spec_height(),
                width > 0,
                self.wf(),
                self.spec_width() == old(self).spec_width(),
                self.spec_height() == old(self).spec_height(),
                self.spec_font() == old(self).spec_font(),
                self.spec_dirty() == old(self).spec_dirty(),
                target == paint_spec(old(self).pixels(), old(self).spec_width(), x as int, y as int, w as int, h as int, color, glyph),
                self.pixels().len() == old(self).pixels().len(),
                forall|i: int| 0 <= i < self.pixels().len() ==> #[trigger] self.pixels()[i] == if i / (width as int) < py { target[i] } else { old(self).pixels()[i] },
            decreases y1 - py,
        {
            let mut px = x;
            while px < x1
                invariant
                    x <= px <= x1,
                    y <= py < y1,
                    x < x1 <= width,
                    y1 <= height,
                    x1 <= x + w,
                    y1 <= y + h,
                    x1 == if x + w < width { (x + w) as int } else { width as int },
                    y1 == if y + h < height { (y + h) as int } else { height as int },
                    width == self.spec_width(),
                    height == self.spec_height(),
                    width > 0,
                    self.wf(),
                    self.spec_width() == old(self).spec_width(),
                    self.spec_height() == old(self).spec_height(),
                    self.spec_font() == old(self).spec_font(),
                    self.spec_dirty() == old(self).spec_dirty(),
                    target == paint_spec(old(self).pixels(), old(self).spec_width(), x as int, y as int, w as int, h as int, color, glyph),
                    self.pixels().len() == old(self).pixels().len(),
                    forall|i: int| 0 <= i < self.pixels().len() ==> #[trigger] self.pixels()[i] == if i / (width as int) < py || (i / (width as int) == py && x <= i % (width as int) < px) { target[i] } else { old(self).pixels()[i] },
                decreases x1 - px,
            {
                proof {
                    let W = width as int;
                    assert((py as int) * W + (px as int) < W * (height as int)) by (nonlinear_arith)
                        requires py < height, px < W, W > 0;
                    assert((py as int) * W <= W * (height as int)) by (nonlinear_arith)
                        requires py < height, px < W, W > 0;
                }
                let idx = (py as usize) * (width as usize) + (px as usize);
                proof {
                    let W = width as int;
                    vstd::arithmetic::div_mod::lemma_fundamental_div_mod_converse(idx as int, W, py as int, px as int);
                }
                let draw = match glyph {
                    None => true,
                    Some(g) => px - x < 8 && py - y < 8 && (g >> ((py - y) * 8 + (px - x))) & 1 == 1,
                };
                if draw {
                    self.buffer.set(idx, color);
                }
                proof {
                    let W = width as int;
                    assert forall|i: int| 0 <= i < self.pixels().len() implies #[trigger] self.pixels()[i] == if i / W < py || (i / W == py && x <= i % W < px + 1) { target[i] } else { old(self).pixels()[i] } by {
                        vstd::arithmetic::div_mod::lemma_fundamental_div_mod(i, W);
                        if i != idx {
                            if i / W == py && i % W == px {
                                assert(W * (py as int) == (py as int) * W) by (nonlinear_arith);
                                assert(i == idx);
                            }
                        } else {
                            assert(i / W == py && i % W == px);
                            lemma_paint_at(old(self).pixels(), old(self).spec_width(), x as int, y as int, w as int, h as int, color, glyph, i);
                        }
                    }
                }
                px = px + 1;
            }
            proof {
                let W = width as int;
                assert forall|i: int| 0 <= i < self.pixels().len() implies #[trigger] self.pixels()[i] == if i / W < py + 1 { target[i] } else { old(self).pixels()[i] } by {
                    vstd::arithmetic::div_mod::lemma_fundamental_div_mod(i, W);
                    lemma_paint_at(old(self).pixels(), old(self).spec_width(), x as int, y as int, w as int, h as int, color, glyph, i);
                }
            }
            py = py + 1;
        }
        proof {
            let W = width as int;
            assert forall|i: int| 0 <= i < self.pixels().len() implies #[trigger] self.pixels()[i] == target[i] by {
                vstd::arithmetic::div_mod::lemma_fundamental_div_mod(i, W);
                lemma_paint_at(old(self).pixels(), old(self).spec_width(), x as int, y as int, w as int, h as int, color, glyph, i);
                assert(i / W < height) by (nonlinear_arith)
                    requires i == W * (i / W) + i % W, 0 <= i % W < W, i < W * height, W > 0;
            }
            assert(self.pixels() =~= target);
        }
    }

    /// Whether the buffer is well formed, checked at run time.
    pub fn check_wf(&self) -> (r: bool)
        ensures
            r == self.wf(),
    {
        match (self.width as usize).checked_mul(self.height as usize) {
            None => false,
            Some(n) => {
                self.buffer.len() == n && match self.dirty {
                    None => true,
                    Some(d) => d.x as u64 + d.width as u64 <= self.width as u64 && d.y as u64 + d.height as u64
                        <= self.height as u64,
                }
            },
        }
    }

    /// Fills the on-screen part of `(x, y, w, h)` with `color`.
    pub fn fill_rect(&mut self, x: u32, y: u32, w: u32, h: u32, color: u32)
        requires
            old(self).wf(),
        ensures
            final(self).wf(),
            final(self).spec_width() == old(self).spec_width(),
            final(self).spec_height() == old(self).spec_height(),
            final(self).spec_font() == old(self).spec_font(),
            final(self).spec_dirty() == old(self).spec_dirty(),
            final(self).pixels() == paint_spec(old(self).pixels(), old(self).spec_width(), x as int, y as int, w as int, h as int, color, None),
    {
        self.paint(x as u64, y as u64, w as u64, h as u64, color, None);
    }

    /// Fills the on-screen part of `(x, y, w, h)`, in wide coordinates.
    pub fn fill_rect_at(&mut self, x: u64, y: u64, w: u64, h: u64, color: u32)
        requires
            old(self).wf(),
            x + w <= u64::MAX,
            y + h <= u64::MAX,
        ensures
            final(self).wf(),
            final(self).spec_width() == old(self).spec_width(),
            final(self).spec_height() == old(self).spec_height(),
            final(self).spec_font() == old(self).spec_font(),
            final(self).spec_dirty() == old(self).spec_dirty(),
            final(self).pixels() == paint_spec(old(self).pixels(), old(self).spec_width(), x as int, y as int, w as int, h as int, color, None),
    {
        self.paint(x, y, w, h, color, None);
    }

    /// Draws character `ch` in the 8 × 8 cell at `(x, y)`.
    pub fn draw_char_at(&mut self, x: u64, y: u64, ch: u8, color: u32)
        requires
            old(self).wf(),
            x + GLYPH_SIZE <= u64::MAX,
            y + GLYPH_SIZE <= u64::MAX,
        ensures
            final(self).wf(),
            final(self).spec_width() == old(self).spec_width(),
            final(self).spec_height() == old(self).spec_height(),
            final(self).spec_font() == old(self).spec_font(),
            final(self).spec_dirty() == old(self).spec_dirty(),
            final(self).pixels() == char_spec(old(self).pixels(), old(self).spec_width(), old(self).spec_font(), x as int, y as int, ch, color),
    {
        if ch < FIRST_GLYPH || ch > LAST_GLYPH {
            return;
        }
        let index = (ch - FIRST_GLYPH) as usize;
        if index >= self.font.len() {
            return;
        }
        let glyph = self.font[index];
        self.paint(x, y, GLYPH_SIZE, GLYPH_SIZE, color, Some(glyph));
    }

    /// Draws the bytes of `text` in successive cells from `(x, y)` on.
    pub fn draw_string_at(&mut self, x: u64, y: u64, text: &[u8], color: u32)
        requires
            old(self).wf(),
            x <= u64::MAX / 2,
            y + GLYPH_SIZE <= u64::MAX,
        ensures
            final(self).wf(),
            final(self).spec_width() == old(self).spec_width(),
            final(self).spec_height() == old(self).spec_height(),
            final(self).spec_font() == old(self).spec_font(),
            final(self).spec_dirty() == old(self).spec_dirty(),
            final(self).pixels() == string_spec(old(self).pixels(), old(self).spec_width(), old(self).spec_font(), x as int, y as int, text@, color),
    {
        let mut i: usize = 0;
        let mut cur_x = x;
        proof {
            assert(text@.skip(0) =~= text@);
        }
        let width = self.width as u64;
        while i < text.len() && cur_x < width
            invariant
                i <= text@.len(),
                x <= cur_x <= x + width + 8,
                width == self.spec_width(),
                x <= u64::MAX / 2,
                width <= u32::MAX,
                y + GLYPH_SIZE <= u64::MAX,
                self.wf(),
                self.spec_width() == old(self).spec_width(),
                self.spec_height() == old(self).spec_height(),
                self.spec_font() == old(self).spec_font(),
                self.spec_dirty() == old(self).spec_dirty(),
                string_spec(self.pixels(), self.spec_width(), self.spec_font(), cur_x as int, y as int, text@.skip(i as int), color)
                    == string_spec(old(self).pixels(), old(self).spec_width(), old(self).spec_font(), x as int, y as int, text@, color),
            decreases text@.len() - i,
        {
            proof {
                assert(text@.skip(i as int).drop_first() =~= text@.skip(i + 1));
                assert(text@.skip(i as int)[0] == text@[i as int]);
            }
            self.draw_char_at(cur_x, y, text[i], color);
            cur_x = cur_x + GLYPH_SIZE;
            i = i + 1;
        }
        proof {
            if i < text@.len() {
                assert(self.pixels().len() == self.spec_width() * self.spec_height());
                if self.spec_width() == 0 {
                    let w = self.spec_width();
                    let h = self.spec_height();
                    assert(w * h == 0) by (nonlinear_arith) requires w == 0;
                }
                lemma_string_offscreen(self.pixels(), self.spec_width(), self.spec_font(), cur_x as int, y as int, text@.skip(i as int), color);
            } else {
                assert(text@.skip(i as int).len() == 0);
            }
        }
    }

    /// Grows the dirty rectangle to hold the on-screen part of `(x, y, w, h)`.
    pub fn mark_dirty_at(&mut self, x: u64, y: u64, w: u64, h: u64)
        requires
            old(self).wf(),
            x + w <= u64::MAX,
            y + h <= u64::MAX,
        ensures
            final(self).wf(),
            final(self).spec_width() == old(self).spec_width(),
            final(self).spec_height() == old(self).spec_height(),
            final(self).spec_font() == old(self).spec_font(),
            final(self).pixels() == old(self).pixels(),
            final(self).spec_dirty() == match clip_spec(x as int, y as int, w as int, h as int, old(self).spec_width() as int, old(self).spec_height() as int) {
                None => old(self).spec_dirty(),
                Some(c) => Some(bounding_box(old(self).spec_dirty(), c)),
            },
    {
        let width = self.width as u64;
        let height = self.height as u64;
        let x1 = if x + w < width { x + w } else { width };
        let y1 = if y + h < height { y + h } else { height };
        if x >= x1 || y >= y1 {
            return;
        }
        let c = Region { x: x as u32, y: y as u32, width: (x1 - x) as u32, height: (y1 - y) as u32 };
        let merged = match self.dirty {
            None => c,
            Some(r) => {
                let x0 = if r.x < c.x { r.x } else { c.x };
                let y0 = if r.y < c.y { r.y } else { c.y };
                let rx1 = r.x as u64 + r.width as u64;
                let ry1 = r.y as u64 + r.height as u64;
                let cx1 = c.x as u64 + c.width as u64;
                let cy1 = c.y as u64 + c.height as u64;
                let mx1 = if rx1 > cx1 { rx1 } else { cx1 };
                let my1 = if ry1 > cy1 { ry1 } else { cy1 };
                Region { x: x0, y: y0, width: (mx1 - x0 as u64) as u32, height: (my1 - y0 as u64) as u32 }
            },
        };
        self.dirty = Some(merged);
    }

    /// Grows the dirty rectangle to hold `region` (on-screen part only).
    pub fn mark_dirty(&mut self, region: &Region)
        requires
            old(self).wf(),
        ensures
            final(self).wf(),
            final(self).spec_width() == old(self).spec_width(),
            final(self).spec_height() == old(self).spec_height(),
            final(self).spec_font() == old(self).spec_font(),
            final(self).pixels() == old(self).pixels(),
            final(self).spec_dirty() == match clip_spec(region.x as int, region.y as int, region.width as int, region.height as int, old(self).spec_width() as int, old(self).spec_height() as int) {
                None => old(self).spec_dirty(),
                Some(c) => Some(bounding_box(old(self).spec_dirty(), c)),
            },
    {
        self.mark_dirty_at(region.x as u64, region.y as u64, region.width as u64, region.height as u64);
    }

    /// Marks the whole screen dirty.
    pub fn mark_all_dirty(&mut self)
        requires
            old(self).wf(),
        ensures
            final(self).wf(),
            final(self).spec_width() == old(self).spec_width(),
            final(self).spec_height() == old(self).spec_height(),
            final(self).spec_font() == old(self).spec_font(),
            final(self).pixels() == old(self).pixels(),
            final(self).spec_dirty() == match clip_spec(0, 0, old(self).spec_width() as int, old(self).spec_height() as int, old(self).spec_width() as int, old(self).spec_height() as int) {
                None => old(self).spec_dirty(),
                Some(c) => Some(bounding_box(old(self).spec_dirty(), c)),
            },
    {
        self.mark_dirty_at(0, 0, self.width as u64, self.height as u64);
    }

    /// Hands out the dirty rectangle and forgets it.
    pub fn take_dirty_rect(&mut self) -> (r: Option<Region>)
        requires
            old(self).wf(),
        ensures
            r == old(self).spec_dirty(),
            final(self).wf(),
            final(self).spec_dirty() is None,
            final(self).pixels() == old(self).pixels(),
            final(self).spec_width() == old(self).spec_width(),
            final(self).spec_height() == old(self).spec_height(),
            final(self).spec_font() == old(self).spec_font(),
    {
        let r = self.dirty;
        self.dirty = None;
        r
    }

    /// The dirty rectangle, if any.
    pub fn dirty_rect(&self) -> (r: Option<Region>)
        ensures
            r == self.spec_dirty(),
    {
        self.dirty
    }

    /// Copies the pixels of `src`, a frame of the same size.
    pub fn copy_from(&mut self, src: &ShadowBuffer)
        requires
            old(self).wf(),
            src.pixels().len() == old(self).pixels().len(),
        ensures
            final(self).wf(),
            final(self).pixels() == src.pixels(),
            final(self).spec_width() == old(self).spec_width(),
            final(self).spec_height() == old(self).spec_height(),
            final(self).spec_font() == old(self).spec_font(),
            final(self).spec_dirty() == old(self).spec_dirty(),
    {
        src.blit_to(&mut self.buffer);
    }

    /// Copies the whole frame into `dest`, a framebuffer of the same size.
    pub fn blit_to(&self, dest: &mut Vec<u32>)
        requires
            old(dest)@.len() == self.pixels().len(),
        ensures
            final(dest)@ == self.pixels(),
    {
        let n = self.buffer.len();
        let mut i: usize = 0;
        while i < n
            invariant
                i <= n,
                n == self.pixels().len(),
                dest@.len() == n,
                forall|j: int| 0 <= j < i ==> #[trigger] dest@[j] == self.pixels()[j],
            decreases n - i,
        {
            dest.set(i, self.buffer[i]);
            i = i + 1;
        }
        proof {
            assert(dest@ =~= self.pixels());
        }
    }
}


/// A surface that can be drawn on.
pub trait DrawTarget {
    fn width(&self) -> u32;

    fn height(&self) -> u32;

    /// Pixels per row.
    fn stride(&self) -> u32;

    fn fill_rect(&mut self, x: u32, y: u32, w: u32, h: u32, color: u32);

    fn draw_char(&mut self, x: u32, y: u32, ch: u8, color: u32);

    fn draw_string(&mut self, x: u32, y: u32, s: &str, color: u32);
}

/// A surface that also keeps the bounding box of what was drawn.
pub trait DirtyTrackingTarget: DrawTarget {
    fn mark_dirty(&mut self, region: &Region);

    fn mark_all_dirty(&mut self);

    fn take_dirty_rect(&mut self) -> Option<Region>;
}

impl DrawTarget for ShadowBuffer {
    fn width(&self) -> u32 {
        self.width
    }

    fn height(&self) -> u32 {
        self.height
    }

    fn stride(&self) -> u32 {
        self.width
    }

    fn fill_rect(&mut self, x: u32, y: u32, w: u32, h: u32, color: u32) {
        if self.check_wf() {
            self.paint(x as u64, y as u64, w as u64, h as u64, color, None);
        }
    }

    fn draw_char(&mut self, x: u32, y: u32, ch: u8, color: u32) {
        if self.check_wf() {
            self.draw_char_at(x as u64, y as u64, ch, color);
        }
    }

    fn draw_string(&mut self, x: u32, y: u32, s: &str, color: u32) {
        if self.check_wf() {
            self.draw_string_at(x as u64, y as u64, s.as_bytes(), color);
        }
    }
}

impl DirtyTrackingTarget for ShadowBuffer {
    fn mark_dirty(&mut self, region: &Region) {
        if self.check_wf() {
            self.mark_dirty_at(region.x as u64, region.y as u64, region.width as u64, region.height as u64);
        }
    }

    fn mark_all_dirty(&mut self) {
        if self.check_wf() {
            self.mark_dirty_at(0, 0, self.width as u64, self.height as u64);
        }
    }

    fn take_dirty_rect(&mut self) -> Option<Region> {
        let r = self.dirty;
        self.dirty = None;
        r
    }
}

} // verus!
