//! Properties of the engine that relate several of its results.
use crate::engine::ANSIfier;
use crate::glyphs::{bitmap_count, bitmap_has_size, lemma_bitmap_cells_of_size, row_count};
use crate::index::{is_best, lemma_best_exists};
use crate::raster::{Rgb, RgbaRaster};
use crate::texel::{
    color_point,
    dist,
    glyph_texels,
    lemma_glyph_texel_in_space,
    lemma_texel_space_blends,
    lemma_texel_space_in_range,
    mix,
    texel_in_range,
    texel_shows_blend,
};
use vstd::prelude::*;

verus! {

/// When the glyph set has a glyph that is all foreground or all background, the
/// texel chosen for a pixel of a palette colour shows exactly that colour: its
/// point is the colour's own, at distance zero.
pub proof fn lemma_palette_color_exact(e: &ANSIfier, g: int, i: int)
    requires
        e.wf(),
        0 <= g < e.glyph_set().blocks@.len(),
        bitmap_count(e.glyph_set().bitmap(g)) == 0 || bitmap_count(e.glyph_set().bitmap(g))
            == e.glyph_set().area(),
        0 <= i < e.palette_view().len(),
    ensures
        ({
            let c = e.palette_view()[i];
            let q = color_point(c, e.glyph_set().area());
            &&& e.texels()[e.choice(c)].point == q
            &&& dist(e.texels()[e.choice(c)].point, q) == 0
        }),
{
    let c = e.palette_view()[i];
    let n = e.glyph_set().area();
    let q = color_point(c, n);
    let ts = e.texels();
    let k = bitmap_count(e.glyph_set().bitmap(g));
    let gt = glyph_texels(e.palette_view(), g, k, n);
    assert(gt[i].point == q);
    lemma_glyph_texel_in_space(e.palette_view(), e.glyph_set(), e.glyph_set().blocks@.len(), g, i);
    let idx = choose|idx: int| 0 <= idx < ts.len() && #[trigger] ts[idx] == gt[i];
    lemma_best_exists(ts, q);
    let b = e.choice(c);
    assert(is_best(ts, q, b));
    assert(dist(ts[idx].point, q) == 0);
    assert(dist(ts[b].point, q) <= 0);
    let p = ts[b].point;
    assert(p.x == q.x && p.y == q.y && p.z == q.z) by (nonlinear_arith)
        requires dist(p, q) <= 0;
}

/// Generating the GPU tables is deterministic: any two results that the
/// generators may return for one engine are identical.
pub proof fn lemma_gpu_tables_deterministic(
    e: &ANSIfier,
    a: (RgbaRaster, RgbaRaster),
    b: (RgbaRaster, RgbaRaster),
)
    requires
        e.wf(),
        e.gpu_tables(a),
        e.gpu_tables(b),
    ensures
        a.0.width == b.0.width && a.0.height == b.0.height && a.0.pixels@ == b.0.pixels@,
        a.1.width == b.1.width && a.1.height == b.1.height && a.1.pixels@ == b.1.pixels@,
{
}

/// Channel `k` of a colour: red, green, then blue.
pub open spec fn chan(c: Rgb, k: int) -> int {
    if k == 0 {
        c.r as int
    } else if k == 1 {
        c.g as int
    } else {
        c.b as int
    }
}

/// The sum of channel `k` over the `i` pixels of `out` from `start` on.
pub open spec fn run_sum(out: Seq<Rgb>, start: int, i: nat, k: int) -> int
    decreases i,
{
    if i == 0 {
        0
    } else {
        run_sum(out, start, (i - 1) as nat, k) + chan(out[start + i - 1], k)
    }
}

/// The sum of channel `k` over a block of `rows` rows of `cw` pixels whose
/// top-left pixel is `start`, in an image `ow` pixels wide.
pub open spec fn block_sum(out: Seq<Rgb>, ow: int, start: int, cw: nat, rows: nat, k: int) -> int
    decreases rows,
{
    if rows == 0 {
        0
    } else {
        block_sum(out, ow, start, cw, (rows - 1) as nat, k) + run_sum(
            out,
            start + (rows - 1) * ow,
            cw,
            k,
        )
    }
}

/// The sum of channel `k` over the cell that renders source pixel `(x, y)`.
pub open spec fn cell_sum(e: &ANSIfier, pixels: Seq<Rgb>, w: nat, h: nat, x: int, y: int, k: int) -> int {
    let cw = e.glyph_set().width as int;
    let ch = e.glyph_set().height as int;
    let ow = w * cw;
    block_sum(e.rendered(pixels, w, h), ow, y * ch * ow + x * cw, cw as nat, ch as nat, k)
}

proof fn lemma_run_sum(out: Seq<Rgb>, start: int, row: Seq<bool>, f: Rgb, b: Rgb, i: nat, k: int)
    requires
        i <= row.len(),
        forall|m: int| 0 <= m < i ==> #[trigger] out[start + m] == if row[m] { f } else { b },
    ensures
        run_sum(out, start, i, k) == chan(f, k) * row_count(row.take(i as int)) + chan(b, k) * (i
            - row_count(row.take(i as int))),
    decreases i,
{
    if i > 0 {
        lemma_run_sum(out, start, row, f, b, (i - 1) as nat, k);
        assert(row.take(i as int).drop_last() == row.take(i - 1));
        assert(row.take(i as int).last() == row[i - 1]);
        assert(out[start + (i - 1)] == if row[i - 1] { f } else { b });
        let c = row_count(row.take(i - 1)) as int;
        let ii = i as int;
        let (fk, bk) = (chan(f, k), chan(b, k));
        assert(run_sum(out, start, i, k) == fk * c + bk * (ii - 1 - c) + chan(out[start + ii - 1], k));
        if row[i - 1] {
            assert(row_count(row.take(i as int)) == c + 1);
            assert(fk * c + bk * (ii - 1 - c) + fk == fk * (c + 1) + bk * (ii - (c + 1))) by (nonlinear_arith);
            assert(chan(out[start + ii - 1], k) == fk);
        } else {
            assert(row_count(row.take(i as int)) == c);
            assert(fk * c + bk * (ii - 1 - c) + bk == fk * c + bk * (ii - c)) by (nonlinear_arith);
            assert(chan(out[start + ii - 1], k) == bk);
        }
    } else {
        assert(row_count(row.take(0)) == 0);
        assert(chan(f, k) * 0 + chan(b, k) * 0 == 0);
    }
}

proof fn lemma_block_sum(
    out: Seq<Rgb>,
    ow: int,
    start: int,
    bm: Seq<Seq<bool>>,
    cw: nat,
    f: Rgb,
    b: Rgb,
    rows: nat,
    k: int,
)
    requires
        rows <= bm.len(),
        forall|j: int| 0 <= j < bm.len() ==> #[trigger] bm[j].len() == cw,
        forall|j: int, m: int|
            0 <= j < rows && 0 <= m < cw ==> #[trigger] out[start + j * ow + m] == if bm[j][m] {
                f
            } else {
                b
            },
    ensures
        block_sum(out, ow, start, cw, rows, k) == chan(f, k) * bitmap_count(bm.take(rows as int))
            + chan(b, k) * (rows * cw - bitmap_count(bm.take(rows as int))),
    decreases rows,
{
    if rows > 0 {
        let j = rows - 1;
        lemma_block_sum(out, ow, start, bm, cw, f, b, (rows - 1) as nat, k);
        assert forall|m: int| 0 <= m < cw implies #[trigger] out[(start + j * ow) + m] == if bm[j][m] {
            f
        } else {
            b
        } by {
            assert(out[start + j * ow + m] == if bm[j][m] { f } else { b });
        }
        lemma_run_sum(out, start + j * ow, bm[j], f, b, cw, k);
        assert(bm[j].take(cw as int) == bm[j]);
        assert(bm.take(rows as int).drop_last() == bm.take(j));
        assert(bm.take(rows as int).last() == bm[j]);
        let c = bitmap_count(bm.take(j)) as int;
        let r = row_count(bm[j]) as int;
        let cwi = cw as int;
        let (fk, bk) = (chan(f, k), chan(b, k));
        assert(bitmap_count(bm.take(rows as int)) == c + r);
        assert(block_sum(out, ow, start, cw, rows, k) == fk * c + bk * (j * cwi - c) + (fk * r + bk * (
        cwi - r)));
        assert(fk * c + bk * (j * cwi - c) + (fk * r + bk * (cwi - r)) == fk * (c + r) + bk * ((j + 1) * cwi
            - (c + r))) by (nonlinear_arith);
        assert(block_sum(out, ow, start, cw, rows, k) == fk * (c + r) + bk * (rows * cwi - (c + r)));
    } else {
        assert(bitmap_count(bm.take(0)) == 0);
        assert(chan(f, k) * 0 + chan(b, k) * 0 == 0);
    }
}

/// Quantising an image made of palette colours, with a glyph set that has a
/// glyph all foreground or all background, reproduces each source pixel in its
/// cell: over the cell's `n` pixels, each channel sums to `n` times the source
/// pixel's channel, so the cell's mean colour is the source colour.
pub proof fn lemma_round_trip(e: &ANSIfier, pixels: Seq<Rgb>, w: nat, h: nat, g: int, x: int, y: int, k: int)
    requires
        e.wf(),
        pixels.len() == w * h,
        forall|m: int| 0 <= m < pixels.len() ==> e.palette_view().contains(#[trigger] pixels[m]),
        0 <= g < e.glyph_set().blocks@.len(),
        bitmap_count(e.glyph_set().bitmap(g)) == 0 || bitmap_count(e.glyph_set().bitmap(g))
            == e.glyph_set().area(),
        0 <= x < w,
        0 <= y < h,
        0 <= k < 3,
    ensures
        cell_sum(e, pixels, w, h, x, y, k) == chan(pixels[y * w + x], k) * e.glyph_set().area(),
{
    let blocks = e.glyph_set();
    let pal = e.palette_view();
    let cw = blocks.width as int;
    let ch = blocks.height as int;
    let n = blocks.area();
    let ow = w * cw;
    let oh = h * ch;
    let out = e.rendered(pixels, w, h);
    assert(y * w + x < w * h) by (nonlinear_arith)
        requires 0 <= x < w, 0 <= y < h;
    let p = pixels[y * w + x];
    assert(pal.contains(p));
    let i = choose|i: int| 0 <= i < pal.len() && pal[i] == p;
    lemma_palette_color_exact(e, g, i);
    let ts = e.texels();
    let ti = e.choice(p);
    lemma_best_exists(ts, color_point(p, n));
    let t = ts[ti];
    lemma_texel_space_blends(pal, blocks, blocks.blocks@.len());
    lemma_texel_space_in_range(pal, blocks, blocks.blocks@.len());
    assert(texel_shows_blend(t, pal, blocks));
    assert(texel_in_range(t, pal.len(), blocks.blocks@.len()));
    let bm = blocks.bitmap(t.glyph as int);
    assert(bitmap_has_size(bm, cw as nat, ch as nat));
    lemma_bitmap_cells_of_size(bm, cw as nat, ch as nat);
    let f = e.paint(t.fg);
    let b = e.paint(t.bg);
    let start = y * ch * ow + x * cw;
    assert forall|j: int, m: int| 0 <= j < ch && 0 <= m < cw implies #[trigger] out[start + j * ow + m]
        == if bm[j][m] {
        f
    } else {
        b
    } by {
        let ox = x * cw + m;
        let oy = y * ch + j;
        let o = start + j * ow + m;
        assert(o == oy * ow + ox) by (nonlinear_arith)
            requires o == start + j * ow + m, start == y * ch * ow + x * cw, ox == x * cw + m, oy == y * ch + j;
        assert(ox < ow) by (nonlinear_arith)
            requires ox == x * cw + m, 0 <= m < cw, 0 <= x < w, ow == w * cw;
        assert(oy < oh) by (nonlinear_arith)
            requires oy == y * ch + j, 0 <= j < ch, 0 <= y < h, oh == h * ch;
        assert(0 <= ox && 0 <= oy) by (nonlinear_arith)
            requires ox == x * cw + m, oy == y * ch + j, 0 <= m, 0 <= x, 0 <= j, 0 <= y, cw >= 0, ch >= 0;
        assert(o < ow * oh) by (nonlinear_arith)
            requires o == oy * ow + ox, ox < ow, oy < oh, 0 <= ox, 0 <= oy;
        assert(0 <= o) by (nonlinear_arith)
            requires o == oy * ow + ox, 0 <= ox, 0 <= oy, ow >= 0;
        vstd::arithmetic::div_mod::lemma_fundamental_div_mod_converse(o, ow, oy, ox);
        vstd::arithmetic::div_mod::lemma_fundamental_div_mod_converse(ox, cw, x, m);
        vstd::arithmetic::div_mod::lemma_fundamental_div_mod_converse(oy, ch, y, j);
        assert(out[o] == e.rendered_pixel(pixels, w, ox, oy));
    }
    lemma_block_sum(out, ow, start, bm, cw as nat, f, b, ch as nat, k);
    assert(bm.take(ch) == bm);
    let c = bitmap_count(bm);
    crate::glyphs::lemma_bitmap_count_bounded(bm);
    assert(ch * cw == n) by (nonlinear_arith)
        requires n == cw * ch;
    // the texel's point is the blend of f and b, and also the source colour
    assert(chan(f, k) * c + chan(b, k) * (n - c) == chan(p, k) * n) by {
        assert(t.point == color_point(p, n));
        crate::texel::lemma_mix_bounded(f.r, b.r, c, n);
        crate::texel::lemma_mix_bounded(f.g, b.g, c, n);
        crate::texel::lemma_mix_bounded(f.b, b.b, c, n);
        crate::texel::lemma_mix_bounded(p.r, p.r, n, n);
        crate::texel::lemma_mix_bounded(p.g, p.g, n, n);
        crate::texel::lemma_mix_bounded(p.b, p.b, n, n);
        if k == 0 {
            assert(mix(f.r, b.r, c, n) == p.r * n);
        } else if k == 1 {
            assert(mix(f.g, b.g, c, n) == p.g * n);
        } else {
            assert(mix(f.b, b.b, c, n) == p.b * n);
        }
    }
}

} // verus!
