//! The palette of reference colours and the set of glyphs with their coverage
//! bitmaps.
use crate::error::EngineError;
use crate::raster::Rgb;
use vstd::arithmetic::power2::pow2;
use vstd::prelude::*;

verus! {

/// An ordered list of reference colours; a colour is referred to by its
/// position in the list.
#[derive(Clone, Debug)]
pub struct Palette {
    pub colors: Vec<Rgb>,
}

impl Palette {
    pub fn new(colors: Vec<Rgb>) -> (p: Palette)
        ensures
            p.colors@ == colors@,
    {
        Palette { colors }
    }

    pub fn len(&self) -> (n: usize)
        ensures
            n == self.colors@.len(),
    {
        self.colors.len()
    }
}

/// A character with its coverage bitmap: `bitmap[row][column]` is `true` where
/// the cell pixel shows the foreground colour.
#[derive(Clone, Debug)]
pub struct Glyph {
    pub character: char,
    pub bitmap: Vec<Vec<bool>>,
}

/// A bitmap as a sequence of rows.
pub open spec fn bitmap_view(b: &Vec<Vec<bool>>) -> Seq<Seq<bool>> {
    b@.map_values(|r: Vec<bool>| r@)
}

/// The number of `true` entries of a row.
pub open spec fn row_count(row: Seq<bool>) -> nat
    decreases row.len(),
{
    if row.len() == 0 {
        0
    } else {
        row_count(row.drop_last()) + if row.last() {
            1nat
        } else {
            0nat
        }
    }
}

/// The number of foreground pixels of a bitmap.
pub open spec fn bitmap_count(bm: Seq<Seq<bool>>) -> nat
    decreases bm.len(),
{
    if bm.len() == 0 {
        0
    } else {
        bitmap_count(bm.drop_last()) + row_count(bm.last())
    }
}

/// The number of pixels of a bitmap, foreground or not.
pub open spec fn bitmap_cells(bm: Seq<Seq<bool>>) -> nat
    decreases bm.len(),
{
    if bm.len() == 0 {
        0
    } else {
        bitmap_cells(bm.drop_last()) + bm.last().len()
    }
}

/// Every row of `bm` has `width` entries and there are `height` rows.
pub open spec fn bitmap_has_size(bm: Seq<Seq<bool>>, width: nat, height: nat) -> bool {
    &&& bm.len() == height
    &&& forall|j: int| 0 <= j < bm.len() ==> #[trigger] bm[j].len() == width
}

pub proof fn lemma_row_count_bounded(row: Seq<bool>)
    ensures
        row_count(row) <= row.len(),
    decreases row.len(),
{
    if row.len() > 0 {
        lemma_row_count_bounded(row.drop_last());
    }
}

pub proof fn lemma_bitmap_count_bounded(bm: Seq<Seq<bool>>)
    ensures
        bitmap_count(bm) <= bitmap_cells(bm),
    decreases bm.len(),
{
    if bm.len() > 0 {
        lemma_bitmap_count_bounded(bm.drop_last());
        lemma_row_count_bounded(bm.last());
    }
}

pub proof fn lemma_bitmap_cells_of_size(bm: Seq<Seq<bool>>, width: nat, height: nat)
    requires
        bitmap_has_size(bm, width, height),
    ensures
        bitmap_cells(bm) == width * height,
    decreases bm.len(),
{
    if bm.len() > 0 {
        let rest = bm.drop_last();
        assert(bitmap_has_size(rest, width, (height - 1) as nat)) by {
            assert forall|j: int| 0 <= j < rest.len() implies #[trigger] rest[j].len() == width by {
                assert(rest[j] == bm[j]);
            }
        }
        lemma_bitmap_cells_of_size(rest, width, (height - 1) as nat);
        assert(bm.last().len() == width);
        assert(bitmap_cells(bm) == bitmap_cells(rest) + width);
        let h1 = (height - 1) as nat;
        assert(width * h1 + width == width * height) by (nonlinear_arith)
            requires h1 + 1 == height;
    } else {
        assert(width * height == 0) by (nonlinear_arith)
            requires height == 0;
    }
}

/// Counts the foreground pixels of a bitmap.
pub fn count_foreground_pixels(bitmap: &Vec<Vec<bool>>) -> (n: u32)
    requires
        bitmap_cells(bitmap_view(bitmap)) <= u32::MAX,
    ensures
        n == bitmap_count(bitmap_view(bitmap)),
{
    let ghost bm = bitmap_view(bitmap);
    let mut total: u32 = 0;
    let mut j: usize = 0;
    while j < bitmap.len()
        invariant
            bm == bitmap_view(bitmap),
            bitmap_cells(bm) <= u32::MAX,
            0 <= j <= bm.len(),
            total == bitmap_count(bm.take(j as int)),
            bitmap_count(bm.take(j as int)) <= bitmap_cells(bm.take(j as int)),
        decreases bitmap.len() - j,
    {
        let row = &bitmap[j];
        let ghost before = bm.take(j as int);
        let ghost after = bm.take(j + 1);
        assert(after.drop_last() == before);
        assert(after.last() == row@);
        proof {
            lemma_bitmap_cells_prefix(bm, j + 1);
            lemma_row_count_bounded(row@);
        }
        let mut i: usize = 0;
        while i < row.len()
            invariant
                row@ == bm[j as int],
                0 <= i <= row@.len(),
                total as nat == bitmap_count(before) + row_count(row@.take(i as int)),
                bitmap_count(before) <= bitmap_cells(before),
                bitmap_cells(before) + row@.len() <= u32::MAX,
                row_count(row@.take(i as int)) <= i,
            decreases row.len() - i,
        {
            assert(row@.take(i + 1).drop_last() == row@.take(i as int));
            assert(row@.take(i + 1).last() == row@[i as int]);
            if row[i] {
                total = total + 1;
            }
            i = i + 1;
        }
        assert(row@.take(i as int) == row@);
        j = j + 1;
    }
    assert(bm.take(j as int) == bm);
    total
}

/// The cells of `bm.take(k)` are no more than those of `bm`.
proof fn lemma_bitmap_cells_prefix(bm: Seq<Seq<bool>>, k: int)
    requires
        0 <= k <= bm.len(),
    ensures
        bitmap_cells(bm.take(k)) <= bitmap_cells(bm),
        k >= 1 ==> bitmap_cells(bm.take(k)) == bitmap_cells(bm.take(k - 1)) + bm[k - 1].len(),
    decreases bm.len() - k,
{
    if k >= 1 {
        assert(bm.take(k).drop_last() == bm.take(k - 1));
    }
    if k < bm.len() {
        lemma_bitmap_cells_prefix(bm, k + 1);
        assert(bm.take(k + 1).drop_last() == bm.take(k));
    } else {
        assert(bm.take(k) == bm);
    }
}

/// The bits of the first `p` cell pixels of `bm`, row by row: pixel `p` of a
/// `w`-wide cell is row `p / w`, column `p % w`, and sets bit `p`.
pub open spec fn mask_upto(bm: Seq<Seq<bool>>, w: nat, p: nat) -> nat
    decreases p,
{
    if p == 0 {
        0
    } else {
        let q = (p - 1) as nat;
        mask_upto(bm, w, q) + if bm[(q as int) / (w as int)][(q as int) % (w as int)] {
            pow2(q)
        } else {
            0
        }
    }
}

proof fn lemma_mask_upto_bounded(bm: Seq<Seq<bool>>, w: nat, p: nat)
    ensures
        mask_upto(bm, w, p) < pow2(p),
    decreases p,
{
    vstd::arithmetic::power2::lemma_pow2_pos(p);
    if p > 0 {
        lemma_mask_upto_bounded(bm, w, (p - 1) as nat);
        vstd::arithmetic::power2::lemma_pow2_unfold(p);
    }
}

/// A cell size and the glyphs that can fill a cell, in a fixed order; a glyph
/// is referred to by its position in that order.
#[derive(Clone, Debug)]
pub struct Blocks {
    pub width: u32,
    pub height: u32,
    pub blocks: Vec<Glyph>,
}

impl Blocks {
    /// The bitmap of glyph `g`.
    pub open spec fn bitmap(&self, g: int) -> Seq<Seq<bool>> {
        bitmap_view(&self.blocks@[g].bitmap)
    }

    /// The cell area `width * height`.
    pub open spec fn area(&self) -> nat {
        self.width as nat * self.height as nat
    }

    /// The cell size is at least one pixel each way and every bitmap has
    /// exactly the cell size.
    pub open spec fn dims_valid(&self) -> bool {
        &&& self.width >= 1
        &&& self.height >= 1
        &&& forall|g: int|
            0 <= g < self.blocks@.len() ==> bitmap_has_size(
                #[trigger] self.bitmap(g),
                self.width as nat,
                self.height as nat,
            )
    }

    /// Builds a glyph set, refusing bitmaps that do not have the declared size.
    pub fn new(width: u32, height: u32, blocks: Vec<Glyph>) -> (r: Result<Blocks, EngineError>)
        ensures
            r is Ok <==> (Blocks { width, height, blocks }).dims_valid(),
            r is Ok ==> r->Ok_0.width == width && r->Ok_0.height == height
                && r->Ok_0.blocks@ == blocks@,
            r is Err ==> r->Err_0 == EngineError::Validation,
    {
        let b = Blocks { width, height, blocks };
        if b.check_dimensions() {
            Ok(b)
        } else {
            Err(EngineError::Validation)
        }
    }

    /// Tells whether the cell size and every bitmap agree.
    pub fn check_dimensions(&self) -> (ok: bool)
        ensures
            ok == self.dims_valid(),
    {
        if self.width == 0 || self.height == 0 {
            return false;
        }
        let mut g: usize = 0;
        while g < self.blocks.len()
            invariant
                0 <= g <= self.blocks@.len(),
                forall|h: int|
                    0 <= h < g ==> bitmap_has_size(
                        #[trigger] self.bitmap(h),
                        self.width as nat,
                        self.height as nat,
                    ),
            decreases self.blocks.len() - g,
        {
            let bitmap = &self.blocks[g].bitmap;
            if bitmap.len() != self.height as usize {
                assert(self.bitmap(g as int).len() != self.height);
                return false;
            }
            let mut j: usize = 0;
            while j < bitmap.len()
                invariant
                    g < self.blocks@.len(),
                    bitmap@ == self.blocks@[g as int].bitmap@,
                    0 <= j <= bitmap@.len(),
                    forall|k: int| 0 <= k < j ==> #[trigger] bitmap@[k]@.len() == self.width,
                decreases bitmap.len() - j,
            {
                if bitmap[j].len() != self.width as usize {
                    assert(self.bitmap(g as int)[j as int].len() != self.width);
                    assert(!bitmap_has_size(self.bitmap(g as int), self.width as nat, self.height as nat));
                    return false;
                }
                j = j + 1;
            }
            assert(bitmap_has_size(self.bitmap(g as int), self.width as nat, self.height as nat)) by {
                let bm = self.bitmap(g as int);
                assert forall|k: int| 0 <= k < bm.len() implies #[trigger] bm[k].len() == self.width by {
                    assert(bitmap@[k]@.len() == self.width);
                }
            }
            g = g + 1;
        }
        true
    }

    /// The cell width.
    pub fn width(&self) -> (w: u32)
        ensures
            w == self.width,
    {
        self.width
    }

    /// The cell height.
    pub fn height(&self) -> (h: u32)
        ensures
            h == self.height,
    {
        self.height
    }

    /// The coverage bitmap of glyph `g` packed into 32 bits: the pixel in
    /// column `i` of row `k` sets bit `i + k * width`.
    pub open spec fn cell_mask(&self, g: int) -> nat {
        mask_upto(self.bitmap(g), self.width as nat, self.area())
    }

    /// Packs the coverage bitmap of glyph `g` into 32 bits.
    pub fn glyph_mask(&self, g: usize) -> (m: u32)
        requires
            self.dims_valid(),
            g < self.blocks@.len(),
            self.area() <= 32,
        ensures
            m as nat == self.cell_mask(g as int),
    {
        let ghost bm = self.bitmap(g as int);
        let bitmap = &self.blocks[g].bitmap;
        let w = self.width;
        let h = self.height;
        proof {
            vstd::arithmetic::power2::lemma2_to64();
            assert(bitmap_has_size(bm, w as nat, h as nat));
        }
        let mut bits: u64 = 0;
        let mut pw: u64 = 1;
        let mut j: u32 = 0;
        while j < h
            invariant
                self.dims_valid(),
                bm == self.bitmap(g as int),
                bm == bitmap_view(bitmap),
                bitmap_has_size(bm, w as nat, h as nat),
                w == self.width,
                h == self.height,
                w * h <= 32,
                0 <= j <= h,
                bits as nat == mask_upto(bm, w as nat, (j * w) as nat),
                pw as nat == pow2((j * w) as nat),
                j * w <= w * h,
                pow2(32) == 0x1_0000_0000,
            decreases h - j,
        {
            let row = &bitmap[j as usize];
            assert(row@ == bm[j as int]);
            let mut i: u32 = 0;
            while i < w
                invariant
                    bm == bitmap_view(bitmap),
                    bitmap_has_size(bm, w as nat, h as nat),
                    row@ == bm[j as int],
                    w == self.width,
                    h == self.height,
                    w * h <= 32,
                    0 <= j < h,
                    0 <= i <= w,
                    bits as nat == mask_upto(bm, w as nat, (j * w + i) as nat),
                    pw as nat == pow2((j * w + i) as nat),
                    j * w + i <= w * h,
                    pow2(32) == 0x1_0000_0000,
                decreases w - i,
            {
                let ghost p: nat = (j * w + i) as nat;
                proof {
                    assert(p < w * h) by (nonlinear_arith)
                        requires p == j * w + i, i < w, j < h;
                    vstd::arithmetic::div_mod::lemma_fundamental_div_mod_converse(p as int, w as int, j as int, i as int);
                    lemma_mask_upto_bounded(bm, w as nat, p);
                    vstd::arithmetic::power2::lemma_pow2_unfold(p + 1);
                    if p + 1 < 32 {
                        vstd::arithmetic::power2::lemma_pow2_strictly_increases(p + 1, 32);
                    }
                    if p + 1 == 32 {
                        assert(pow2(p + 1) == 0x1_0000_0000);
                    }
                }
                if row[i as usize] {
                    bits = bits + pw;
                }
                pw = pw * 2;
                i = i + 1;
            }
            proof {
                assert((j + 1) * w == j * w + w) by (nonlinear_arith);
            }
            j = j + 1;
        }
        proof {
            lemma_mask_upto_bounded(bm, w as nat, (j * w) as nat);
            assert(j * w == w * h) by (nonlinear_arith)
                requires j == h;
            if w * h < 32 {
                vstd::arithmetic::power2::lemma_pow2_strictly_increases((w * h) as nat, 32);
            }
        }
        bits as u32
    }
}

} // verus!
