//! The texel space: every colour that a cell can show, with the choice of
//! foreground colour, background colour and glyph that shows it.
//!
//! Colours are kept exactly. A colour channel `c` in `0..=255` stands for the
//! normalised value `c / 255`; for a cell of `n` pixels, a point coordinate `v`
//! stands for `v / (255 * n)`. So a palette colour `c` is the point `c * n`, and
//! a glyph with `k` foreground pixels drawn in `f` on `b` shows the point
//! `f * k + b * (n - k)`: the blend `f * r + b * (1 - r)` with `r = k / n`.
use crate::glyphs::{
    Blocks,
    Palette,
    bitmap_count,
    bitmap_view,
    count_foreground_pixels,
    lemma_bitmap_cells_of_size,
};
use crate::raster::Rgb;
use vstd::prelude::*;

verus! {

/// The largest coordinate of any point: `255 * u32::MAX`.
pub const MAX_COORD: i128 = 1_095_216_660_225;

/// A colour id: a position in the palette, or the placeholder used where the
/// glyph's coverage makes the colour irrelevant.
#[derive(Clone, Copy, Debug, PartialEq, Eq, Structural)]
pub enum ColorId {
    Palette(usize),
    Sentinel,
}

/// A point of the scaled colour space (see the module documentation).
#[derive(Clone, Copy, Debug, PartialEq, Eq, Structural)]
pub struct Point {
    pub x: i128,
    pub y: i128,
    pub z: i128,
}

/// A rendering choice and the colour it shows.
#[derive(Clone, Copy, Debug, PartialEq, Eq, Structural)]
pub struct Texel {
    pub fg: ColorId,
    pub bg: ColorId,
    /// Position of the glyph in the glyph set.
    pub glyph: usize,
    pub point: Point,
}

/// The palette position that a colour id paints with; the placeholder paints
/// with colour 0.
pub open spec fn resolve(id: ColorId) -> int {
    match id {
        ColorId::Palette(i) => i as int,
        ColorId::Sentinel => 0,
    }
}

/// Squared Euclidean distance between two points.
pub open spec fn dist(p: Point, q: Point) -> int {
    (p.x - q.x) * (p.x - q.x) + (p.y - q.y) * (p.y - q.y) + (p.z - q.z) * (p.z - q.z)
}

/// Every coordinate lies in `0..=MAX_COORD`.
pub open spec fn point_bounded(p: Point) -> bool {
    &&& 0 <= p.x <= MAX_COORD
    &&& 0 <= p.y <= MAX_COORD
    &&& 0 <= p.z <= MAX_COORD
}

/// One channel of the blend of `f` (weight `k`) and `b` (weight `n - k`).
pub open spec fn mix(f: u8, b: u8, k: nat, n: nat) -> int {
    f * k + b * (n - k)
}

/// The point of a palette colour, for cells of `n` pixels.
pub open spec fn color_point(c: Rgb, n: nat) -> Point {
    Point { x: (c.r * n) as i128, y: (c.g * n) as i128, z: (c.b * n) as i128 }
}

/// The point shown by `k` of `n` pixels in `f` and the rest in `b`.
pub open spec fn blend_point(f: Rgb, b: Rgb, k: nat, n: nat) -> Point {
    Point {
        x: mix(f.r, b.r, k, n) as i128,
        y: mix(f.g, b.g, k, n) as i128,
        z: mix(f.b, b.b, k, n) as i128,
    }
}

/// The `jj`-th palette position other than `i`.
pub open spec fn other_index(jj: int, i: int) -> int {
    if jj < i {
        jj
    } else {
        jj + 1
    }
}

/// The texels of glyph `g`, with `k` foreground pixels out of `n`, over the
/// palette `pal`. An empty glyph gives one texel per colour on the background,
/// a full glyph one per colour on the foreground; any other glyph gives one
/// texel per ordered pair of distinct palette positions, foreground-major.
pub open spec fn glyph_texels(pal: Seq<Rgb>, g: int, k: nat, n: nat) -> Seq<Texel> {
    let m = pal.len();
    if k == 0 {
        Seq::new(
            m,
            |i: int|
                Texel {
                    fg: ColorId::Sentinel,
                    bg: ColorId::Palette(i as usize),
                    glyph: g as usize,
                    point: color_point(pal[i], n),
                },
        )
    } else if k == n {
        Seq::new(
            m,
            |i: int|
                Texel {
                    fg: ColorId::Palette(i as usize),
                    bg: ColorId::Sentinel,
                    glyph: g as usize,
                    point: color_point(pal[i], n),
                },
        )
    } else {
        Seq::new(
            (m * (m - 1)) as nat,
            |t: int|
                {
                    let i = t / (m - 1);
                    let j = other_index(t % (m - 1), i);
                    Texel {
                        fg: ColorId::Palette(i as usize),
                        bg: ColorId::Palette(j as usize),
                        glyph: g as usize,
                        point: blend_point(pal[i], pal[j], k, n),
                    }
                },
        )
    }
}

/// The texels of the first `m` glyphs, glyph by glyph.
pub open spec fn texels_upto(pal: Seq<Rgb>, blocks: Blocks, m: nat) -> Seq<Texel>
    decreases m,
{
    if m == 0 {
        Seq::empty()
    } else {
        texels_upto(pal, blocks, (m - 1) as nat) + glyph_texels(
            pal,
            m - 1,
            bitmap_count(blocks.bitmap(m - 1)),
            blocks.area(),
        )
    }
}

/// The whole texel space of a palette and a glyph set.
pub open spec fn texel_space(pal: Seq<Rgb>, blocks: Blocks) -> Seq<Texel> {
    texels_upto(pal, blocks, blocks.blocks@.len())
}

pub proof fn lemma_mix_bounded(f: u8, b: u8, k: nat, n: nat)
    requires
        k <= n,
        n <= u32::MAX,
    ensures
        0 <= mix(f, b, k, n) <= 255 * n,
        255 * n <= MAX_COORD,
{
    let (fi, bi) = (f as int, b as int);
    assert(0 <= fi * k <= 255 * k) by (nonlinear_arith)
        requires 0 <= fi <= 255, k >= 0;
    assert(0 <= bi * (n - k) <= 255 * (n - k)) by (nonlinear_arith)
        requires 0 <= bi <= 255, n - k >= 0;
}

/// The point of palette colour `c` for cells of `n` pixels.
pub fn normalize_color(c: Rgb, n: u32) -> (p: Point)
    ensures
        p == color_point(c, n as nat),
        point_bounded(p),
{
    proof {
        lemma_mix_bounded(c.r, c.r, n as nat, n as nat);
        lemma_mix_bounded(c.g, c.g, n as nat, n as nat);
        lemma_mix_bounded(c.b, c.b, n as nat, n as nat);
    }
    let nn = n as i128;
    Point { x: c.r as i128 * nn, y: c.g as i128 * nn, z: c.b as i128 * nn }
}

/// The point shown by `k` of `n` cell pixels in `f` and the rest in `b`.
pub fn blend_two_colors(f: Rgb, b: Rgb, k: u32, n: u32) -> (p: Point)
    requires
        k <= n,
    ensures
        p == blend_point(f, b, k as nat, n as nat),
        point_bounded(p),
{
    proof {
        lemma_mix_bounded(f.r, b.r, k as nat, n as nat);
        lemma_mix_bounded(f.g, b.g, k as nat, n as nat);
        lemma_mix_bounded(f.b, b.b, k as nat, n as nat);
        assert(f.r as i128 * k as i128 <= 255 * n) by (nonlinear_arith)
            requires f.r <= 255, k <= n;
        assert(f.g as i128 * k as i128 <= 255 * n) by (nonlinear_arith)
            requires f.g <= 255, k <= n;
        assert(f.b as i128 * k as i128 <= 255 * n) by (nonlinear_arith)
            requires f.b <= 255, k <= n;
        assert(b.r as i128 * (n - k) as i128 <= 255 * n) by (nonlinear_arith)
            requires b.r <= 255, k <= n;
        assert(b.g as i128 * (n - k) as i128 <= 255 * n) by (nonlinear_arith)
            requires b.g <= 255, k <= n;
        assert(b.b as i128 * (n - k) as i128 <= 255 * n) by (nonlinear_arith)
            requires b.b <= 255, k <= n;
    }
    let kk = k as i128;
    let rest = (n - k) as i128;
    Point {
        x: f.r as i128 * kk + b.r as i128 * rest,
        y: f.g as i128 * kk + b.g as i128 * rest,
        z: f.b as i128 * kk + b.b as i128 * rest,
    }
}

/// Appends the texels of glyph `g` to `out`.
fn push_glyph_texels(out: &mut Vec<Texel>, pal: &Vec<Rgb>, g: usize, k: u32, n: u32)
    requires
        k <= n,
        forall|t: int| 0 <= t < old(out)@.len() ==> point_bounded(#[trigger] old(out)@[t].point),
    ensures
        final(out)@ == old(out)@ + glyph_texels(pal@, g as int, k as nat, n as nat),
        forall|t: int| 0 <= t < final(out)@.len() ==> point_bounded(#[trigger] final(out)@[t].point),
{
    let ghost base = out@;
    let ghost want = glyph_texels(pal@, g as int, k as nat, n as nat);
    let m = pal.len();
    if k == 0 || k == n {
        let mut i: usize = 0;
        while i < m
            invariant
                m == pal@.len(),
                k == 0 || k == n,
                want == glyph_texels(pal@, g as int, k as nat, n as nat),
                0 <= i <= m,
                want.len() == m,
                out@ == base + want.take(i as int),
                forall|t: int| 0 <= t < out@.len() ==> point_bounded(#[trigger] out@[t].point),
            decreases m - i,
        {
            let c = pal[i];
            let t = if k == 0 {
                Texel {
                    fg: ColorId::Sentinel,
                    bg: ColorId::Palette(i),
                    glyph: g,
                    point: normalize_color(c, n),
                }
            } else {
                Texel {
                    fg: ColorId::Palette(i),
                    bg: ColorId::Sentinel,
                    glyph: g,
                    point: normalize_color(c, n),
                }
            };
            assert(want[i as int] == t);
            assert(want.take(i + 1) == want.take(i as int).push(t));
            out.push(t);
            i = i + 1;
        }
        assert(want.take(m as int) == want);
    } else {
        let ghost m1 = (m - 1) as int;
        let mut i: usize = 0;
        while i < m
            invariant
                m == pal@.len(),
                0 < k < n,
                want == glyph_texels(pal@, g as int, k as nat, n as nat),
                m1 == m - 1,
                0 <= i <= m,
                want.len() == m * m1,
                i * m1 <= m * m1,
                out@ == base + want.take(i * m1),
                forall|t: int| 0 <= t < out@.len() ==> point_bounded(#[trigger] out@[t].point),
            decreases m - i,
        {
            let mut j: usize = 0;
            while j < m
                invariant
                    m == pal@.len(),
                    0 < k < n,
                    want == glyph_texels(pal@, g as int, k as nat, n as nat),
                    m1 == m - 1,
                    0 <= i < m,
                    0 <= j <= m,
                    want.len() == m * m1,
                    out@ == base + want.take(i * m1 + if j <= i { j as int } else { j - 1 }),
                    forall|t: int| 0 <= t < out@.len() ==> point_bounded(#[trigger] out@[t].point),
                decreases m - j,
            {
                if j != i {
                    let ghost jj: int = if j < i { j as int } else { j - 1 };
                    let ghost c: int = i * m1 + jj;
                    proof {
                        assert(0 <= jj < m1);
                        vstd::arithmetic::div_mod::lemma_fundamental_div_mod_converse(c, m1, i as int, jj);
                        assert(c < m * m1) by (nonlinear_arith)
                            requires c == i * m1 + jj, jj < m1, i + 1 <= m, m1 >= 0;
                        assert(other_index(jj, i as int) == j);
                    }
                    let t = Texel {
                        fg: ColorId::Palette(i),
                        bg: ColorId::Palette(j),
                        glyph: g,
                        point: blend_two_colors(pal[i], pal[j], k, n),
                    };
                    assert(want[c] == t);
                    assert(want.take(c + 1) == want.take(c).push(t));
                    out.push(t);
                }
                j = j + 1;
            }
            proof {
                assert((i + 1) * m1 == i * m1 + m1) by (nonlinear_arith);
                assert((i + 1) * m1 <= m * m1) by (nonlinear_arith)
                    requires i + 1 <= m, m1 >= 0;
            }
            i = i + 1;
        }
        assert(want.take(m * m1) == want);
    }
}

/// Builds the texel space of a palette and a glyph set whose bitmaps have the
/// declared cell size.
pub fn build_texels(palette: &Palette, blocks: &Blocks) -> (ts: Vec<Texel>)
    requires
        blocks.dims_valid(),
        blocks.area() <= u32::MAX,
    ensures
        ts@ == texel_space(palette.colors@, *blocks),
        forall|t: int| 0 <= t < ts@.len() ==> point_bounded(#[trigger] ts@[t].point),
{
    let n: u32 = blocks.width * blocks.height;
    let mut out: Vec<Texel> = Vec::new();
    let mut g: usize = 0;
    while g < blocks.blocks.len()
        invariant
            blocks.dims_valid(),
            n == blocks.area(),
            0 <= g <= blocks.blocks@.len(),
            out@ == texels_upto(palette.colors@, *blocks, g as nat),
            forall|t: int| 0 <= t < out@.len() ==> point_bounded(#[trigger] out@[t].point),
        decreases blocks.blocks.len() - g,
    {
        let bitmap = &blocks.blocks[g].bitmap;
        proof {
            assert(bitmap_view(bitmap) == blocks.bitmap(g as int));
            lemma_bitmap_cells_of_size(blocks.bitmap(g as int), blocks.width as nat, blocks.height as nat);
            crate::glyphs::lemma_bitmap_count_bounded(blocks.bitmap(g as int));
        }
        let k = count_foreground_pixels(bitmap);
        push_glyph_texels(&mut out, &palette.colors, g, k, n);
        g = g + 1;
    }
    out
}

/// Some texel of `ts` paints with foreground `i` and background `j`.
pub open spec fn has_pair(ts: Seq<Texel>, i: int, j: int) -> bool {
    exists|t: int|
        0 <= t < ts.len() && #[trigger] ts[t].fg == ColorId::Palette(i as usize) && ts[t].bg
            == ColorId::Palette(j as usize)
}

/// A glyph with foreground pixels and background pixels gives exactly one texel
/// for each ordered pair of distinct palette positions, each texel painting
/// two distinct positions, and no other texel.
pub proof fn lemma_partial_glyph_texels(pal: Seq<Rgb>, g: int, k: nat, n: nat)
    requires
        2 <= pal.len() <= usize::MAX,
        0 < k < n,
    ensures
        glyph_texels(pal, g, k, n).len() == pal.len() * (pal.len() - 1),
        forall|t: int|
            0 <= t < glyph_texels(pal, g, k, n).len() ==> {
                let x = #[trigger] glyph_texels(pal, g, k, n)[t];
                &&& x.fg is Palette
                &&& x.bg is Palette
                &&& x.fg != x.bg
                &&& (x.fg->Palette_0 as int) < pal.len()
                &&& (x.bg->Palette_0 as int) < pal.len()
                &&& x.point == blend_point(pal[x.fg->Palette_0 as int], pal[x.bg->Palette_0 as int], k, n)
            },
        forall|i: int, j: int|
            0 <= i < pal.len() && 0 <= j < pal.len() && i != j ==> #[trigger] has_pair(
                glyph_texels(pal, g, k, n),
                i,
                j,
            ),
{
    let ts = glyph_texels(pal, g, k, n);
    let m = pal.len() as int;
    let m1 = m - 1;
    assert forall|t: int| 0 <= t < ts.len() implies {
        let x = #[trigger] ts[t];
        &&& x.fg is Palette
        &&& x.bg is Palette
        &&& x.fg != x.bg
        &&& (x.fg->Palette_0 as int) < pal.len()
        &&& (x.bg->Palette_0 as int) < pal.len()
        &&& x.point == blend_point(pal[x.fg->Palette_0 as int], pal[x.bg->Palette_0 as int], k, n)
    } by {
        let i = t / m1;
        let jj = t % m1;
        vstd::arithmetic::div_mod::lemma_div_pos_is_pos(t, m1);
        vstd::arithmetic::div_mod::lemma_mod_bound(t, m1);
        vstd::arithmetic::div_mod::lemma_fundamental_div_mod(t, m1);
        assert(i < m) by (nonlinear_arith)
            requires t == m1 * i + jj, 0 <= jj, t < m * m1, m1 > 0, i >= 0;
        let j = other_index(jj, i);
        assert(0 <= j < m && j != i);
        assert(ts[t].fg == ColorId::Palette(i as usize));
        assert(ts[t].bg == ColorId::Palette(j as usize));
    }
    assert forall|i: int, j: int|
        0 <= i < pal.len() && 0 <= j < pal.len() && i != j implies #[trigger] has_pair(ts, i, j) by {
        let jj = if j < i { j } else { j - 1 };
        let t = i * m1 + jj;
        vstd::arithmetic::div_mod::lemma_fundamental_div_mod_converse(t, m1, i, jj);
        assert(t < m * m1) by (nonlinear_arith)
            requires t == i * m1 + jj, jj < m1, i + 1 <= m, m1 >= 0;
        assert(ts[t].fg == ColorId::Palette(i as usize));
    }
}

/// An empty glyph gives exactly one texel per palette colour: texel `i` shows
/// colour `i` exactly, with colour `i` as background and the placeholder as
/// foreground.
pub proof fn lemma_empty_glyph_texels(pal: Seq<Rgb>, g: int, n: nat)
    ensures
        glyph_texels(pal, g, 0, n).len() == pal.len(),
        forall|i: int|
            0 <= i < pal.len() ==> {
                let x = #[trigger] glyph_texels(pal, g, 0, n)[i];
                &&& x.point == color_point(pal[i], n)
                &&& x.bg == ColorId::Palette(i as usize)
                &&& x.fg == ColorId::Sentinel
            },
{
}

/// A texel paints with palette positions below `m` and names a glyph below `g`.
pub open spec fn texel_in_range(t: Texel, m: nat, g: nat) -> bool {
    &&& 0 <= resolve(t.fg) < m
    &&& 0 <= resolve(t.bg) < m
    &&& (t.glyph as int) < g
}

proof fn lemma_glyph_texels_in_range(pal: Seq<Rgb>, g: int, k: nat, n: nat, count: nat)
    requires
        1 <= pal.len() <= usize::MAX,
        k <= n,
        0 <= g < count <= usize::MAX,
    ensures
        forall|t: int|
            0 <= t < glyph_texels(pal, g, k, n).len() ==> texel_in_range(
                #[trigger] glyph_texels(pal, g, k, n)[t],
                pal.len(),
                count,
            ),
{
    if k != 0 && k != n && pal.len() >= 2 {
        lemma_partial_glyph_texels(pal, g, k, n);
    }
}

/// Every texel of the space paints with palette colours and names a glyph of
/// the set.
pub proof fn lemma_texel_space_in_range(pal: Seq<Rgb>, blocks: Blocks, m: nat)
    requires
        1 <= pal.len() <= usize::MAX,
        m <= blocks.blocks@.len() <= usize::MAX,
        blocks.dims_valid(),
    ensures
        forall|t: int|
            0 <= t < texels_upto(pal, blocks, m).len() ==> texel_in_range(
                #[trigger] texels_upto(pal, blocks, m)[t],
                pal.len(),
                blocks.blocks@.len(),
            ),
    decreases m,
{
    if m > 0 {
        lemma_texel_space_in_range(pal, blocks, (m - 1) as nat);
        let k = bitmap_count(blocks.bitmap(m - 1));
        lemma_bitmap_cells_of_size(blocks.bitmap(m - 1), blocks.width as nat, blocks.height as nat);
        crate::glyphs::lemma_bitmap_count_bounded(blocks.bitmap(m - 1));
        lemma_glyph_texels_in_range(pal, m - 1, k, blocks.area(), blocks.blocks@.len());
        let a = texels_upto(pal, blocks, (m - 1) as nat);
        let b = glyph_texels(pal, m - 1, k, blocks.area());
        assert forall|t: int| 0 <= t < (a + b).len() implies texel_in_range(
            #[trigger] (a + b)[t],
            pal.len(),
            blocks.blocks@.len(),
        ) by {
            if t >= a.len() {
                assert((a + b)[t] == b[t - a.len()]);
            }
        }
    }
}

/// Each texel of glyph `g` stands somewhere in the texels of the first `m`
/// glyphs, for `g < m`.
pub proof fn lemma_glyph_texel_in_space(pal: Seq<Rgb>, blocks: Blocks, m: nat, g: int, t: int)
    requires
        0 <= g < m,
        0 <= t < glyph_texels(pal, g, bitmap_count(blocks.bitmap(g)), blocks.area()).len(),
    ensures
        exists|idx: int|
            0 <= idx < texels_upto(pal, blocks, m).len() && #[trigger] texels_upto(pal, blocks, m)[idx]
                == glyph_texels(pal, g, bitmap_count(blocks.bitmap(g)), blocks.area())[t],
    decreases m,
{
    let a = texels_upto(pal, blocks, (m - 1) as nat);
    let b = glyph_texels(pal, m - 1, bitmap_count(blocks.bitmap(m - 1)), blocks.area());
    assert(texels_upto(pal, blocks, m) == a + b);
    if g == m - 1 {
        assert((a + b)[a.len() + t] == b[t]);
        assert(texels_upto(pal, blocks, m)[a.len() + t] == b[t]);
    } else {
        lemma_glyph_texel_in_space(pal, blocks, (m - 1) as nat, g, t);
        let idx = choose|idx: int|
            0 <= idx < a.len() && #[trigger] a[idx] == glyph_texels(
                pal,
                g,
                bitmap_count(blocks.bitmap(g)),
                blocks.area(),
            )[t];
        assert((a + b)[idx] == a[idx]);
        assert(texels_upto(pal, blocks, m)[idx] == a[idx]);
    }
}

/// Each texel shows the blend of the two colours it paints with, weighted by
/// its glyph's coverage.
pub open spec fn texel_shows_blend(t: Texel, pal: Seq<Rgb>, blocks: Blocks) -> bool {
    t.point == blend_point(
        pal[resolve(t.fg)],
        pal[resolve(t.bg)],
        bitmap_count(blocks.bitmap(t.glyph as int)),
        blocks.area(),
    )
}

/// Every texel of the space shows the blend of the colours it paints with.
pub proof fn lemma_texel_space_blends(pal: Seq<Rgb>, blocks: Blocks, m: nat)
    requires
        1 <= pal.len() <= usize::MAX,
        m <= blocks.blocks@.len() <= usize::MAX,
        blocks.dims_valid(),
    ensures
        forall|t: int|
            0 <= t < texels_upto(pal, blocks, m).len() ==> texel_shows_blend(
                #[trigger] texels_upto(pal, blocks, m)[t],
                pal,
                blocks,
            ),
    decreases m,
{
    if m > 0 {
        lemma_texel_space_blends(pal, blocks, (m - 1) as nat);
        let g = m - 1;
        let k = bitmap_count(blocks.bitmap(g));
        let n = blocks.area();
        lemma_bitmap_cells_of_size(blocks.bitmap(g), blocks.width as nat, blocks.height as nat);
        crate::glyphs::lemma_bitmap_count_bounded(blocks.bitmap(g));
        let a = texels_upto(pal, blocks, (m - 1) as nat);
        let b = glyph_texels(pal, g, k, n);
        if k != 0 && k != n && pal.len() >= 2 {
            lemma_partial_glyph_texels(pal, g, k, n);
        }
        assert forall|t: int| 0 <= t < b.len() implies texel_shows_blend(#[trigger] b[t], pal, blocks) by {
            assert(b[t].glyph as int == g);
            if k == 0 {
                assert(resolve(b[t].bg) == t);
                let (f, c) = (pal[0], pal[t]);
                assert(mix(f.r, c.r, 0, n) == c.r * n);
                assert(mix(f.g, c.g, 0, n) == c.g * n);
                assert(mix(f.b, c.b, 0, n) == c.b * n);
            } else if k == n {
                assert(resolve(b[t].fg) == t);
                let (c, f) = (pal[t], pal[0]);
                assert(mix(c.r, f.r, n, n) == c.r * n);
                assert(mix(c.g, f.g, n, n) == c.g * n);
                assert(mix(c.b, f.b, n, n) == c.b * n);
            }
        }
        assert forall|t: int| 0 <= t < (a + b).len() implies texel_shows_blend(
            #[trigger] (a + b)[t],
            pal,
            blocks,
        ) by {
            if t >= a.len() {
                assert((a + b)[t] == b[t - a.len()]);
            }
        }
    }
}

} // verus!
