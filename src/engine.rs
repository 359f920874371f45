//! The quantisation engine: the texel space of a palette and a glyph set, its
//! nearest-neighbour index, and what is computed from them.
use crate::ansi::{ansi_cell, paint_cell};
use crate::dimensions::{calculate_new_dimensions as target_size, target_dimensions};
use crate::error::EngineError;
use crate::glyphs::{Blocks, Palette};
use crate::index::{
    TexelIndex,
    best_of,
    build_index,
    index_bounded,
    index_items,
    indexed,
    lemma_best_of,
    nearest_texel,
};
use crate::raster::{Rgb, RgbRaster, Rgba, RgbaRaster};
use crate::texel::{
    ColorId,
    Texel,
    build_texels,
    color_point,
    lemma_texel_space_in_range,
    normalize_color,
    point_bounded,
    resolve,
    texel_in_range,
    texel_space,
};
use rayon::iter::{IndexedParallelIterator, IntoParallelIterator, ParallelIterator};
use vstd::prelude::*;

verus! {

/// Why an engine cannot be built from a palette and a glyph set, if it cannot:
/// a cell size that the bitmaps do not match, else an empty palette, glyph set
/// or texel space.
pub open spec fn construction_error(palette: Seq<Rgb>, blocks: Blocks) -> Option<EngineError> {
    if !blocks.dims_valid() {
        Some(EngineError::Validation)
    } else if palette.len() == 0 || blocks.blocks@.len() == 0 || texel_space(palette, blocks).len()
        == 0 {
        Some(EngineError::EmptyInput)
    } else {
        None
    }
}

/// Turns raster images into glyph art over a fixed palette and glyph set.
pub struct ANSIfier {
    palette: Palette,
    blocks: Blocks,
    texels: Vec<Texel>,
    index: TexelIndex,
}

/// Side of the square lookup table.
pub const LUT_SIDE: u32 = 4096;

/// Width of the map texture: one column per palette colour or glyph.
pub const MAP_WIDTH: u32 = 256;

/// The colour that lookup-table address `(x, y)` stands for: the low bytes of
/// `x` and `y` are red and green, bits 8 to 11 of `x` and of `y` are the low
/// and high nibbles of blue.
pub open spec fn lut_color(x: u32, y: u32) -> Rgb {
    Rgb {
        r: (x & 0xFF) as u8,
        g: (y & 0xFF) as u8,
        b: (((x >> 8u32) & 0xF) | (((y >> 8u32) & 0xF) << 4u32)) as u8,
    }
}

/// The RGBA pixel holding the four bytes of a 32-bit mask, least significant
/// first.
pub open spec fn mask_pixel(m: nat) -> Rgba {
    Rgba {
        r: (m % 256) as u8,
        g: ((m / 256) % 256) as u8,
        b: ((m / 65536) % 256) as u8,
        a: (m / 16777216) as u8,
    }
}

/// The all-zero RGBA pixel.
pub open spec fn blank() -> Rgba {
    Rgba { r: 0, g: 0, b: 0, a: 0 }
}

/// Relies on rayon: `map` over the indexed range `0..LUT_SIDE` followed by
/// `collect_into_vec` yields the mapped rows in the order of the range.
#[verifier::external_body]
fn par_lut_rows(engine: &ANSIfier) -> (rows: Vec<Vec<Rgba>>)
    requires
        engine.wf(),
        engine.gpu_fits(),
    ensures
        rows@.len() == LUT_SIDE,
        forall|y: int| 0 <= y < LUT_SIDE ==> (#[trigger] rows@[y])@ == engine.lut_row_spec(y as u32),
{
    let mut rows = Vec::new();
    (0..LUT_SIDE).into_par_iter().map(|y| engine.lut_row(y)).collect_into_vec(&mut rows);
    rows
}

/// The 256-colour terminal code of a colour id.
pub open spec fn color_code(id: ColorId) -> u8 {
    (resolve(id) % 256) as u8
}

impl ANSIfier {
    /// The palette.
    pub closed spec fn palette_view(&self) -> Seq<Rgb> {
        self.palette.colors@
    }

    /// The glyph set.
    pub closed spec fn glyph_set(&self) -> Blocks {
        self.blocks
    }

    /// The texel space, in the order the index breaks ties by.
    pub closed spec fn texels(&self) -> Seq<Texel> {
        self.texels@
    }

    /// The index holds exactly the texels, tagged with their positions.
    pub closed spec fn index_consistent(&self) -> bool {
        &&& index_items(self.index) == indexed(self.texels@)
        &&& index_bounded(index_items(self.index))
    }

    /// The engine's invariant.
    pub open spec fn wf(&self) -> bool {
        &&& 0 < self.palette_view().len() <= usize::MAX
        &&& 0 < self.glyph_set().blocks@.len() <= usize::MAX
        &&& self.glyph_set().dims_valid()
        &&& self.glyph_set().area() <= u32::MAX
        &&& self.texels() == texel_space(self.palette_view(), self.glyph_set())
        &&& self.texels().len() > 0
        &&& forall|t: int|
            0 <= t < self.texels().len() ==> point_bounded(#[trigger] self.texels()[t].point)
        &&& self.index_consistent()
    }

    /// The position of the texel chosen for a pixel of colour `p`.
    pub open spec fn choice(&self, p: Rgb) -> int {
        best_of(self.texels(), color_point(p, self.glyph_set().area()))
    }

    /// The palette colour that a colour id paints with.
    pub open spec fn paint(&self, id: ColorId) -> Rgb {
        self.palette_view()[resolve(id)]
    }

    /// Pixel `(ox, oy)` of the rendering of a `w`-pixel-wide image: the cell
    /// pixel `(ox % cw, oy % ch)` of the texel chosen for source pixel
    /// `(ox / cw, oy / ch)`.
    pub open spec fn rendered_pixel(&self, pixels: Seq<Rgb>, w: nat, ox: int, oy: int) -> Rgb {
        let cw = self.glyph_set().width as int;
        let ch = self.glyph_set().height as int;
        let t = self.texels()[self.choice(pixels[(oy / ch) * w + ox / cw])];
        if self.glyph_set().bitmap(t.glyph as int)[oy % ch][ox % cw] {
            self.paint(t.fg)
        } else {
            self.paint(t.bg)
        }
    }

    /// The rendering of a `w` by `h` image, in row-major order.
    pub open spec fn rendered(&self, pixels: Seq<Rgb>, w: nat, h: nat) -> Seq<Rgb> {
        let ow = w * self.glyph_set().width as nat;
        let oh = h * self.glyph_set().height as nat;
        Seq::new(ow * oh, |o: int| self.rendered_pixel(pixels, w, o % (ow as int), o / (ow as int)))
    }

    /// The terminal text of one texel.
    pub open spec fn cell_text(&self, t: Texel) -> Seq<char> {
        ansi_cell(
            color_code(t.fg),
            color_code(t.bg),
            self.glyph_set().blocks@[t.glyph as int].character,
        )
    }

    /// The terminal text of the first `k` pixels of a `w`-pixel-wide image, with
    /// a line break after the last pixel of each row.
    pub open spec fn text_upto(&self, pixels: Seq<Rgb>, w: nat, k: nat) -> Seq<char>
        decreases k,
    {
        if k == 0 {
            Seq::empty()
        } else {
            self.text_upto(pixels, w, (k - 1) as nat) + self.cell_text(
                self.texels()[self.choice(pixels[k - 1])],
            ) + if (k - 1) % (w as int) == w - 1 {
                seq!['\n']
            } else {
                Seq::empty()
            }
        }
    }

    fn build(palette: Palette, blocks: Blocks, parallel: bool) -> (r: Result<ANSIfier, EngineError>)
        requires
            blocks.area() <= u32::MAX,
        ensures
            match construction_error(palette.colors@, blocks) {
                Some(err) => r == Err::<ANSIfier, EngineError>(err),
                None => r is Ok && r->Ok_0.wf() && r->Ok_0.palette_view() == palette.colors@
                    && r->Ok_0.glyph_set() == blocks,
            },
    {
        if !blocks.check_dimensions() {
            return Err(EngineError::Validation);
        }
        if palette.colors.len() == 0 || blocks.blocks.len() == 0 {
            return Err(EngineError::EmptyInput);
        }
        let texels = build_texels(&palette, &blocks);
        if texels.len() == 0 {
            return Err(EngineError::EmptyInput);
        }
        let index = build_index(&texels, parallel);
        Ok(ANSIfier { palette, blocks, texels, index })
    }

    /// Builds the engine, building its index on several threads.
    pub fn new(palette: Palette, blocks: Blocks) -> (r: Result<ANSIfier, EngineError>)
        requires
            blocks.area() <= u32::MAX,
        ensures
            match construction_error(palette.colors@, blocks) {
                Some(err) => r == Err::<ANSIfier, EngineError>(err),
                None => r is Ok && r->Ok_0.wf() && r->Ok_0.palette_view() == palette.colors@
                    && r->Ok_0.glyph_set() == blocks,
            },
    {
        ANSIfier::build(palette, blocks, true)
    }

    /// Builds the engine, building its index on the calling thread.
    pub fn new_sequential(palette: Palette, blocks: Blocks) -> (r: Result<ANSIfier, EngineError>)
        requires
            blocks.area() <= u32::MAX,
        ensures
            match construction_error(palette.colors@, blocks) {
                Some(err) => r == Err::<ANSIfier, EngineError>(err),
                None => r is Ok && r->Ok_0.wf() && r->Ok_0.palette_view() == palette.colors@
                    && r->Ok_0.glyph_set() == blocks,
            },
    {
        ANSIfier::build(palette, blocks, false)
    }

    /// The cell width.
    pub fn block_width(&self) -> (w: u32)
        ensures
            w == self.glyph_set().width,
    {
        self.blocks.width()
    }

    /// The cell height.
    pub fn block_height(&self) -> (h: u32)
        ensures
            h == self.glyph_set().height,
    {
        self.blocks.height()
    }

    /// The cell size, width then height.
    pub fn cell_size(&self) -> (s: (u32, u32))
        ensures
            s == (self.glyph_set().width, self.glyph_set().height),
    {
        (self.blocks.width, self.blocks.height)
    }

    /// The size to which a source of size `source` is resized before
    /// quantisation, for this engine's cells.
    pub fn calculate_new_dimensions(
        &self,
        source: (u32, u32),
        requested: (Option<u32>, Option<u32>),
    ) -> (r: (u32, u32))
        ensures
            r == target_dimensions(
                source,
                requested,
                (self.glyph_set().width, self.glyph_set().height),
            ),
    {
        target_size(source, requested, (self.block_width(), self.block_height()))
    }

    /// The position of the texel chosen for a pixel of colour `p`.
    fn choose_texel(&self, p: Rgb) -> (i: usize)
        requires
            self.wf(),
        ensures
            i as int == self.choice(p),
            (i as int) < self.texels().len(),
    {
        let q = normalize_color(p, self.blocks.width * self.blocks.height);
        let i = nearest_texel(&self.index, &self.texels, q);
        proof {
            lemma_best_of(self.texels@, q, i as int);
        }
        i
    }

    /// The palette colour that a colour id paints with.
    fn paint_color(&self, id: ColorId) -> (c: Rgb)
        requires
            self.wf(),
            0 <= resolve(id) < self.palette_view().len(),
        ensures
            c == self.paint(id),
    {
        match id {
            ColorId::Palette(i) => self.palette.colors[i],
            ColorId::Sentinel => self.palette.colors[0],
        }
    }

    /// Quantises an image: returns its rendering, one cell per source pixel,
    /// and its terminal text, one painted glyph per source pixel with a line
    /// break after each row.
    pub fn process(&self, img: &RgbRaster) -> (r: (RgbRaster, String))
        requires
            self.wf(),
            img.wf(),
            img.width as nat * self.glyph_set().width as nat <= u32::MAX,
            img.height as nat * self.glyph_set().height as nat <= u32::MAX,
        ensures
            r.0.width == img.width * self.glyph_set().width,
            r.0.height == img.height * self.glyph_set().height,
            r.0.pixels@ == self.rendered(img.pixels@, img.width as nat, img.height as nat),
            r.1@ == self.text_upto(
                img.pixels@,
                img.width as nat,
                img.width as nat * img.height as nat,
            ),
    {
        let w = img.width;
        let h = img.height;
        let cw = self.blocks.width;
        let ch = self.blocks.height;
        let ghost ts = self.texels@;
        let ghost pixels = img.pixels@;
        let _ = self.palette.colors.len();
        let _ = self.blocks.blocks.len();
        let npix = img.pixels.len();
        proof {
            lemma_texel_space_in_range(self.palette.colors@, self.blocks, self.blocks.blocks@.len());
        }
        let mut choices: Vec<usize> = Vec::new();
        let mut text = String::new();
        let mut y: u32 = 0;
        while y < h
            invariant
                self.wf(),
                img.wf(),
                w == img.width,
                h == img.height,
                ts == self.texels(),
                pixels == img.pixels@,
                forall|t: int|
                    0 <= t < ts.len() ==> texel_in_range(
                        #[trigger] ts[t],
                        self.palette_view().len(),
                        self.glyph_set().blocks@.len(),
                    ),
                0 <= y <= h,
                npix == pixels.len(),
                choices@.len() == y * w,
                forall|k: int|
                    0 <= k < choices@.len() ==> #[trigger] choices@[k] as int == self.choice(
                        pixels[k],
                    ) && (choices@[k] as int) < ts.len(),
                text@ == self.text_upto(pixels, w as nat, (y * w) as nat),
            decreases h - y,
        {
            let mut x: u32 = 0;
            while x < w
                invariant
                    self.wf(),
                    img.wf(),
                    w == img.width,
                    h == img.height,
                    ts == self.texels(),
                    pixels == img.pixels@,
                    forall|t: int|
                        0 <= t < ts.len() ==> texel_in_range(
                            #[trigger] ts[t],
                            self.palette_view().len(),
                            self.glyph_set().blocks@.len(),
                        ),
                    0 <= y < h,
                    0 <= x <= w,
                    npix == pixels.len(),
                    choices@.len() == y * w + x,
                    forall|k: int|
                        0 <= k < choices@.len() ==> #[trigger] choices@[k] as int == self.choice(
                            pixels[k],
                        ) && (choices@[k] as int) < ts.len(),
                    text@ == self.text_upto(pixels, w as nat, (y * w + x) as nat),
                decreases w - x,
            {
                let ghost k: int = y * w + x;
                proof {
                    assert(k < w * h) by (nonlinear_arith)
                        requires k == y * w + x, x < w, y < h;
                    assert(pixels.len() <= usize::MAX);
                    vstd::arithmetic::div_mod::lemma_fundamental_div_mod_converse(k, w as int, y as int, x as int);
                }
                let p = img.pixels[y as usize * w as usize + x as usize];
                let c = self.choose_texel(p);
                let t = self.texels[c];
                let fg = match t.fg {
                    ColorId::Palette(i) => (i % 256) as u8,
                    ColorId::Sentinel => 0u8,
                };
                let bg = match t.bg {
                    ColorId::Palette(i) => (i % 256) as u8,
                    ColorId::Sentinel => 0u8,
                };
                assert(texel_in_range(t, self.palette_view().len(), self.glyph_set().blocks@.len()));
                let cell = paint_cell(fg, bg, self.blocks.blocks[t.glyph].character);
                text.append(cell.as_str());
                choices.push(c);
                if x + 1 == w {
                    proof {
                        reveal_strlit("\n");
                    }
                    text.append("\n");
                }
                assert(text@ == self.text_upto(pixels, w as nat, (k + 1) as nat));
                x = x + 1;
            }
            proof {
                assert((y + 1) * w == y * w + w) by (nonlinear_arith);
            }
            y = y + 1;
        }
        proof {
            assert(h * w == w * h) by (nonlinear_arith);
        }
        let ow = w * cw;
        let oh = h * ch;
        let ghost want = self.rendered(pixels, w as nat, h as nat);
        let mut out: Vec<Rgb> = Vec::new();
        let mut oy: u32 = 0;
        while oy < oh
            invariant
                self.wf(),
                img.wf(),
                w == img.width,
                h == img.height,
                cw == self.glyph_set().width,
                ch == self.glyph_set().height,
                ow == w * cw,
                oh == h * ch,
                ts == self.texels(),
                pixels == img.pixels@,
                want == self.rendered(pixels, w as nat, h as nat),
                forall|t: int|
                    0 <= t < ts.len() ==> texel_in_range(
                        #[trigger] ts[t],
                        self.palette_view().len(),
                        self.glyph_set().blocks@.len(),
                    ),
                choices@.len() == w * h,
                npix == pixels.len(),
                forall|k: int|
                    0 <= k < choices@.len() ==> #[trigger] choices@[k] as int == self.choice(
                        pixels[k],
                    ) && (choices@[k] as int) < ts.len(),
                0 <= oy <= oh,
                out@ == want.take(oy * ow),
                want.len() == ow * oh,
            decreases oh - oy,
        {
            let mut ox: u32 = 0;
            while ox < ow
                invariant
                    self.wf(),
                    img.wf(),
                    w == img.width,
                    h == img.height,
                    cw == self.glyph_set().width,
                    ch == self.glyph_set().height,
                    ow == w * cw,
                    oh == h * ch,
                    ts == self.texels(),
                    pixels == img.pixels@,
                    want == self.rendered(pixels, w as nat, h as nat),
                    forall|t: int|
                        0 <= t < ts.len() ==> texel_in_range(
                            #[trigger] ts[t],
                            self.palette_view().len(),
                            self.glyph_set().blocks@.len(),
                        ),
                    choices@.len() == w * h,
                    npix == pixels.len(),
                    forall|k: int|
                        0 <= k < choices@.len() ==> #[trigger] choices@[k] as int == self.choice(
                            pixels[k],
                        ) && (choices@[k] as int) < ts.len(),
                    0 <= oy < oh,
                    0 <= ox <= ow,
                    out@ == want.take(oy * ow + ox),
                    want.len() == ow * oh,
                decreases ow - ox,
            {
                let x = ox / cw;
                let i = ox % cw;
                let y = oy / ch;
                let j = oy % ch;
                let ghost o: int = oy * ow + ox;
                proof {
                    assert(o < ow * oh) by (nonlinear_arith)
                        requires o == oy * ow + ox, ox < ow, oy < oh;
                    vstd::arithmetic::div_mod::lemma_fundamental_div_mod_converse(o, ow as int, oy as int, ox as int);
                    assert(x < w) by (nonlinear_arith)
                        requires x == ox / cw, ox < w * cw, cw > 0;
                    assert(y < h) by (nonlinear_arith)
                        requires y == oy / ch, oy < h * ch, ch > 0;
                    assert(y * w + x < w * h) by (nonlinear_arith)
                        requires x < w, y < h;
                    assert(choices@.len() <= usize::MAX);
                }
                let c = choices[y as usize * w as usize + x as usize];
                let t = self.texels[c];
                assert(texel_in_range(t, self.palette_view().len(), self.glyph_set().blocks@.len()));
                let bitmap = &self.blocks.blocks[t.glyph].bitmap;
                assert(crate::glyphs::bitmap_has_size(self.glyph_set().bitmap(t.glyph as int), cw as nat, ch as nat));
                assert(bitmap@[j as int]@ == self.glyph_set().bitmap(t.glyph as int)[j as int]);
                let color = if bitmap[j as usize][i as usize] {
                    self.paint_color(t.fg)
                } else {
                    self.paint_color(t.bg)
                };
                assert(color == want[o]);
                assert(want.take(o + 1) == want.take(o).push(color));
                out.push(color);
                ox = ox + 1;
            }
            proof {
                assert((oy + 1) * ow == oy * ow + ow) by (nonlinear_arith);
            }
            oy = oy + 1;
        }
        assert(out@ == want.take(oh * ow));
        proof {
            assert(oh * ow == ow * oh) by (nonlinear_arith);
        }
        assert(want.take(ow * oh) == want);
        (RgbRaster { width: ow, height: oh, pixels: out }, text)
    }

    /// The palette, the glyph set and the cell area fit the GPU tables.
    pub open spec fn gpu_fits(&self) -> bool {
        &&& self.palette_view().len() <= 256
        &&& self.glyph_set().blocks@.len() <= 256
        &&& self.glyph_set().area() <= 32
    }

    /// Lookup-table pixel `(x, y)`: the foreground id, background id and glyph
    /// position of the texel chosen for `lut_color(x, y)`, and an opaque alpha.
    pub open spec fn lut_pixel(&self, x: u32, y: u32) -> Rgba {
        let t = self.texels()[self.choice(lut_color(x, y))];
        Rgba { r: resolve(t.fg) as u8, g: resolve(t.bg) as u8, b: t.glyph as u8, a: 255 }
    }

    /// Row `y` of the lookup table.
    pub open spec fn lut_row_spec(&self, y: u32) -> Seq<Rgba> {
        Seq::new(LUT_SIDE as nat, |x: int| self.lut_pixel(x as u32, y))
    }

    /// The lookup table, in row-major order.
    pub open spec fn lut(&self) -> Seq<Rgba> {
        Seq::new(
            (LUT_SIDE * LUT_SIDE) as nat,
            |o: int| self.lut_pixel((o % LUT_SIDE as int) as u32, (o / LUT_SIDE as int) as u32),
        )
    }

    /// Map-texture pixel `o` in row-major order: row 0 holds the palette
    /// colours, opaque; row 1 holds the packed bitmap of each glyph; the rest
    /// is zero.
    pub open spec fn map_pixel(&self, o: int) -> Rgba {
        if o < MAP_WIDTH {
            if o < self.palette_view().len() {
                let c = self.palette_view()[o];
                Rgba { r: c.r, g: c.g, b: c.b, a: 255 }
            } else {
                blank()
            }
        } else {
            let g = o - MAP_WIDTH;
            if g < self.glyph_set().blocks@.len() {
                mask_pixel(self.glyph_set().cell_mask(g))
            } else {
                blank()
            }
        }
    }

    /// The map texture, `MAP_WIDTH` by 2, in row-major order.
    pub open spec fn map(&self) -> Seq<Rgba> {
        Seq::new((2 * MAP_WIDTH) as nat, |o: int| self.map_pixel(o))
    }

    /// Computes row `y` of the lookup table.
    pub fn lut_row(&self, y: u32) -> (row: Vec<Rgba>)
        requires
            self.wf(),
            self.gpu_fits(),
            y < LUT_SIDE,
        ensures
            row@ == self.lut_row_spec(y),
    {
        proof {
            lemma_texel_space_in_range(self.palette.colors@, self.blocks, self.blocks.blocks@.len());
        }
        let mut row: Vec<Rgba> = Vec::new();
        let mut x: u32 = 0;
        while x < LUT_SIDE
            invariant
                self.wf(),
                self.gpu_fits(),
                forall|t: int|
                    0 <= t < self.texels().len() ==> texel_in_range(
                        #[trigger] self.texels()[t],
                        self.palette_view().len(),
                        self.glyph_set().blocks@.len(),
                    ),
                0 <= x <= LUT_SIDE,
                row@ == self.lut_row_spec(y).take(x as int),
            decreases LUT_SIDE - x,
        {
            let c = Rgb {
                r: (x & 0xFF) as u8,
                g: (y & 0xFF) as u8,
                b: (((x >> 8u32) & 0xF) | (((y >> 8u32) & 0xF) << 4u32)) as u8,
            };
            assert(c == lut_color(x, y));
            let i = self.choose_texel(c);
            let t = self.texels[i];
            assert(texel_in_range(t, self.palette_view().len(), self.glyph_set().blocks@.len()));
            let fg: u8 = match t.fg {
                ColorId::Palette(k) => k as u8,
                ColorId::Sentinel => 0,
            };
            let bg: u8 = match t.bg {
                ColorId::Palette(k) => k as u8,
                ColorId::Sentinel => 0,
            };
            let px = Rgba { r: fg, g: bg, b: t.glyph as u8, a: 255 };
            assert(px == self.lut_pixel(x, y));
            assert(self.lut_row_spec(y).take(x + 1) == self.lut_row_spec(y).take(x as int).push(px));
            row.push(px);
            x = x + 1;
        }
        assert(self.lut_row_spec(y).take(LUT_SIDE as int) == self.lut_row_spec(y));
        row
    }

    /// Appends lookup-table row `y` to the rows before it.
    proof fn lemma_lut_rows(&self, y: int)
        requires
            0 <= y < LUT_SIDE,
        ensures
            self.lut().take(y * LUT_SIDE) + self.lut_row_spec(y as u32) == self.lut().take(
                (y + 1) * LUT_SIDE,
            ),
    {
        let side = LUT_SIDE as int;
        assert((y + 1) * side <= side * side) by (nonlinear_arith)
            requires y < side, side > 0;
        assert forall|k: int| 0 <= k < side implies #[trigger] self.lut()[y * side + k]
            == self.lut_row_spec(y as u32)[k] by {
            vstd::arithmetic::div_mod::lemma_fundamental_div_mod_converse(y * side + k, side, y, k);
            assert(y * side + k < side * side) by (nonlinear_arith)
                requires y < side, k < side, side > 0;
        }
        assert(self.lut().take(y * side) + self.lut_row_spec(y as u32) =~= self.lut().take((y + 1) * side)) by {
            assert((y + 1) * side == y * side + side) by (nonlinear_arith);
            assert forall|o: int| y * side <= o < (y + 1) * side implies #[trigger] self.lut().take((y + 1) * side)[o]
                == self.lut_row_spec(y as u32)[o - y * side] by {
                assert(self.lut()[y * side + (o - y * side)] == self.lut_row_spec(y as u32)[o - y * side]);
            }
        }
    }

    /// Computes the map texture.
    fn map_texture(&self) -> (m: RgbaRaster)
        requires
            self.wf(),
            self.gpu_fits(),
        ensures
            m.width == MAP_WIDTH,
            m.height == 2,
            m.pixels@ == self.map(),
    {
        let mut pixels: Vec<Rgba> = Vec::new();
        let n = self.palette.colors.len();
        let count = self.blocks.blocks.len();
        let mut o: usize = 0;
        while o < 2 * MAP_WIDTH as usize
            invariant
                self.wf(),
                self.gpu_fits(),
                n == self.palette_view().len(),
                count == self.glyph_set().blocks@.len(),
                0 <= o <= 2 * MAP_WIDTH,
                pixels@ == self.map().take(o as int),
            decreases 2 * MAP_WIDTH - o,
        {
            let px = if o < MAP_WIDTH as usize {
                if o < n {
                    let c = self.palette.colors[o];
                    Rgba { r: c.r, g: c.g, b: c.b, a: 255 }
                } else {
                    Rgba { r: 0, g: 0, b: 0, a: 0 }
                }
            } else {
                let g = o - MAP_WIDTH as usize;
                if g < count {
                    let bits = self.blocks.glyph_mask(g);
                    Rgba {
                        r: (bits % 256) as u8,
                        g: ((bits / 256) % 256) as u8,
                        b: ((bits / 65536) % 256) as u8,
                        a: (bits / 16777216) as u8,
                    }
                } else {
                    Rgba { r: 0, g: 0, b: 0, a: 0 }
                }
            };
            assert(px == self.map_pixel(o as int));
            assert(self.map().take(o + 1) == self.map().take(o as int).push(px));
            pixels.push(px);
            o = o + 1;
        }
        assert(self.map().take(2 * MAP_WIDTH as int) == self.map());
        RgbaRaster { width: MAP_WIDTH, height: 2, pixels }
    }

    /// Builds the GPU tables from precomputed lookup-table rows.
    fn assemble_tables(&self, rows: Vec<Vec<Rgba>>) -> (r: (RgbaRaster, RgbaRaster))
        requires
            self.wf(),
            self.gpu_fits(),
            rows@.len() == LUT_SIDE,
            forall|y: int| 0 <= y < LUT_SIDE ==> (#[trigger] rows@[y])@ == self.lut_row_spec(y as u32),
        ensures
            r.0.width == LUT_SIDE && r.0.height == LUT_SIDE && r.0.pixels@ == self.lut(),
            r.1.width == MAP_WIDTH && r.1.height == 2 && r.1.pixels@ == self.map(),
    {
        let mut rows = rows;
        let ghost all = rows@;
        let mut lut: Vec<Rgba> = Vec::new();
        let mut y: u32 = 0;
        while y < LUT_SIDE
            invariant
                0 <= y <= LUT_SIDE,
                all.len() == LUT_SIDE,
                forall|k: int| 0 <= k < LUT_SIDE ==> (#[trigger] all[k])@ == self.lut_row_spec(k as u32),
                rows@ == all.subrange(y as int, LUT_SIDE as int),
                lut@ == self.lut().take(y * LUT_SIDE),
            decreases LUT_SIDE - y,
        {
            let mut row = rows.remove(0);
            assert(row@ == self.lut_row_spec(y));
            proof {
                self.lemma_lut_rows(y as int);
            }
            lut.append(&mut row);
            assert(rows@ == all.subrange(y + 1, LUT_SIDE as int));
            y = y + 1;
        }
        assert(self.lut().take(LUT_SIDE * LUT_SIDE) == self.lut());
        (RgbaRaster { width: LUT_SIDE, height: LUT_SIDE, pixels: lut }, self.map_texture())
    }

    /// Generates the lookup table and the map texture on the calling thread,
    /// or fails with `CapacityExceeded` when the palette or the glyph set has
    /// more than 256 entries, or the cell more than 32 pixels.
    pub fn generate_lut_and_map(&self) -> (r: Result<(RgbaRaster, RgbaRaster), EngineError>)
        requires
            self.wf(),
        ensures
            r is Err <==> !self.gpu_fits(),
            r is Err ==> r->Err_0 == EngineError::CapacityExceeded,
            r is Ok ==> self.gpu_tables(r->Ok_0),
    {
        if !self.fits_gpu() {
            return Err(EngineError::CapacityExceeded);
        }
        let mut rows: Vec<Vec<Rgba>> = Vec::new();
        let mut y: u32 = 0;
        while y < LUT_SIDE
            invariant
                self.wf(),
                self.gpu_fits(),
                0 <= y <= LUT_SIDE,
                rows@.len() == y,
                forall|k: int| 0 <= k < y ==> (#[trigger] rows@[k])@ == self.lut_row_spec(k as u32),
            decreases LUT_SIDE - y,
        {
            rows.push(self.lut_row(y));
            y = y + 1;
        }
        Ok(self.assemble_tables(rows))
    }

    /// Generates the lookup table and the map texture, the table's rows on
    /// several threads; fails as `generate_lut_and_map` does.
    pub fn par_generate_lut_and_map(&self) -> (r: Result<(RgbaRaster, RgbaRaster), EngineError>)
        requires
            self.wf(),
        ensures
            r is Err <==> !self.gpu_fits(),
            r is Err ==> r->Err_0 == EngineError::CapacityExceeded,
            r is Ok ==> self.gpu_tables(r->Ok_0),
    {
        if !self.fits_gpu() {
            return Err(EngineError::CapacityExceeded);
        }
        let rows = par_lut_rows(self);
        Ok(self.assemble_tables(rows))
    }

    /// `tables` are the lookup table and the map texture of this engine.
    pub open spec fn gpu_tables(&self, tables: (RgbaRaster, RgbaRaster)) -> bool {
        &&& tables.0.width == LUT_SIDE
        &&& tables.0.height == LUT_SIDE
        &&& tables.0.pixels@ == self.lut()
        &&& tables.1.width == MAP_WIDTH
        &&& tables.1.height == 2
        &&& tables.1.pixels@ == self.map()
    }

    fn fits_gpu(&self) -> (ok: bool)
        requires
            self.wf(),
        ensures
            ok == self.gpu_fits(),
    {
        self.palette.colors.len() <= 256 && self.blocks.blocks.len() <= 256
            && self.blocks.width * self.blocks.height <= 32
    }
}

} // verus!
