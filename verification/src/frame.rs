//! The library's own image model: an RGBA frame and a grayscale frame, both
//! stored row by row. Every frame keeps all of its rows exactly `width`
//! pixels wide, and has at most `u32::MAX` rows.

use vstd::prelude::*;

verus! {

/// One RGBA pixel, eight bits per channel.
#[derive(Clone, Copy, Debug, PartialEq, Eq, Structural)]
pub struct Rgba {
    pub r: u8,
    pub g: u8,
    pub b: u8,
    pub a: u8,
}

/// The four bytes of a pixel in memory order.
pub open spec fn rgba_bytes(p: Rgba) -> Seq<u8> {
    seq![p.r, p.g, p.b, p.a]
}

/// A row of pixels as raw bytes, four per pixel.
pub open spec fn row_bytes(row: Seq<Rgba>) -> Seq<u8>
    decreases row.len(),
{
    if row.len() == 0 {
        Seq::empty()
    } else {
        row_bytes(row.drop_last()) + rgba_bytes(row.last())
    }
}

/// Rows of pixels as raw bytes, top row first.
pub open spec fn rows_bytes(rows: Seq<Seq<Rgba>>) -> Seq<u8>
    decreases rows.len(),
{
    if rows.len() == 0 {
        Seq::empty()
    } else {
        rows_bytes(rows.drop_last()) + row_bytes(rows.last())
    }
}

/// Rows of gray levels as raw bytes, top row first.
pub open spec fn gray_bytes(rows: Seq<Seq<u8>>) -> Seq<u8>
    decreases rows.len(),
{
    if rows.len() == 0 {
        Seq::empty()
    } else {
        gray_bytes(rows.drop_last()) + rows.last()
    }
}

/// The rows of a `width`-wide image stored in `data` row after row.
pub open spec fn gray_rows_of(data: Seq<u8>, width: nat, height: nat) -> Seq<Seq<u8>> {
    Seq::new(height, |y: int| data.subrange(y * width, y * width + width))
}

/// Start and length of the rows that a clamped crop of `count` rows starting
/// at row `top` keeps from an image `height` rows tall.
pub open spec fn crop_span(height: int, top: int, count: int) -> (int, int) {
    let y0 = if top < height { top } else { height };
    let n = if count < height - y0 { count } else { height - y0 };
    (y0, n)
}

/// Mathematical content of an RGBA frame.
pub struct FrameView {
    pub width: u32,
    pub rows: Seq<Seq<Rgba>>,
}

impl FrameView {
    pub open spec fn height(self) -> nat {
        self.rows.len()
    }

    /// All rows are `width` wide and the height fits in 32 bits.
    pub open spec fn wf(self) -> bool {
        &&& self.rows.len() <= u32::MAX
        &&& forall|y: int| 0 <= y < self.rows.len() ==> (#[trigger] self.rows[y]).len() == self.width
    }

    /// The rows `top..top + count`, clamped to the frame, full width.
    pub open spec fn crop_rows(self, top: int, count: int) -> FrameView {
        let (y0, n) = crop_span(self.rows.len() as int, top, count);
        FrameView { width: self.width, rows: self.rows.subrange(y0, y0 + n) }
    }

    /// `self` on top of `below`.
    pub open spec fn stacked(self, below: FrameView) -> FrameView {
        FrameView { width: self.width, rows: self.rows + below.rows }
    }

    pub open spec fn same_dims(self, other: FrameView) -> bool {
        self.width == other.width && self.rows.len() == other.rows.len()
    }
}

/// Mathematical content of a grayscale frame.
pub struct GrayView {
    pub width: u32,
    pub rows: Seq<Seq<u8>>,
}

impl GrayView {
    pub open spec fn height(self) -> nat {
        self.rows.len()
    }

    pub open spec fn wf(self) -> bool {
        &&& self.rows.len() <= u32::MAX
        &&& forall|y: int| 0 <= y < self.rows.len() ==> (#[trigger] self.rows[y]).len() == self.width
    }

    pub open spec fn crop_rows(self, top: int, count: int) -> GrayView {
        let (y0, n) = crop_span(self.rows.len() as int, top, count);
        GrayView { width: self.width, rows: self.rows.subrange(y0, y0 + n) }
    }

    pub open spec fn same_dims(self, other: GrayView) -> bool {
        self.width == other.width && self.rows.len() == other.rows.len()
    }
}

/// The product of two 32-bit values fits in 64 bits.
pub(crate) proof fn lemma_u32_product_bound(a: u32, b: u32)
    ensures
        (a as int) * (b as int) <= 0xffff_fffe_0000_0001,
        0 <= (a as int) * (b as int),
{
    assert((a as int) * (b as int) <= 0xffff_ffff * 0xffff_ffff) by (nonlinear_arith)
        requires
            a <= 0xffff_ffff,
            b <= 0xffff_ffff,
    ;
    assert(0 <= (a as int) * (b as int)) by (nonlinear_arith);
}

proof fn lemma_row_bytes_len(row: Seq<Rgba>)
    ensures
        row_bytes(row).len() == 4 * row.len(),
    decreases row.len(),
{
    if row.len() > 0 {
        lemma_row_bytes_len(row.drop_last());
    }
}

proof fn lemma_rows_bytes_len(rows: Seq<Seq<Rgba>>, width: nat)
    requires
        forall|y: int| 0 <= y < rows.len() ==> (#[trigger] rows[y]).len() == width,
    ensures
        rows_bytes(rows).len() == 4 * width * rows.len(),
    decreases rows.len(),
{
    if rows.len() > 0 {
        let init = rows.drop_last();
        assert forall|y: int| 0 <= y < init.len() implies (#[trigger] init[y]).len() == width by {
            assert(init[y] == rows[y]);
        }
        lemma_rows_bytes_len(init, width);
        lemma_row_bytes_len(rows.last());
        assert(4 * width * init.len() + 4 * width == 4 * width * rows.len()) by (nonlinear_arith)
            requires
                init.len() + 1 == rows.len(),
        ;
    }
}

proof fn lemma_gray_bytes_len(rows: Seq<Seq<u8>>, width: nat)
    requires
        forall|y: int| 0 <= y < rows.len() ==> (#[trigger] rows[y]).len() == width,
    ensures
        gray_bytes(rows).len() == width * rows.len(),
    decreases rows.len(),
{
    if rows.len() > 0 {
        let init = rows.drop_last();
        assert forall|y: int| 0 <= y < init.len() implies (#[trigger] init[y]).len() == width by {
            assert(init[y] == rows[y]);
        }
        lemma_gray_bytes_len(init, width);
        assert(width * init.len() + width == width * rows.len()) by (nonlinear_arith)
            requires
                init.len() + 1 == rows.len(),
        ;
    }
}

/// Copies a row of pixels.
fn copy_rgba_row(src: &Vec<Rgba>) -> (out: Vec<Rgba>)
    ensures
        out@ == src@,
{
    let mut out: Vec<Rgba> = Vec::new();
    let mut x: usize = 0;
    while x < src.len()
        invariant
            x <= src.len(),
            out@ == src@.subrange(0, x as int),
        decreases src.len() - x,
    {
        out.push(src[x]);
        x += 1;
        assert(out@ =~= src@.subrange(0, x as int));
    }
    assert(out@ =~= src@);
    out
}

/// Copies a row of gray levels.
fn copy_gray_row(src: &Vec<u8>) -> (out: Vec<u8>)
    ensures
        out@ == src@,
{
    let mut out: Vec<u8> = Vec::new();
    let mut x: usize = 0;
    while x < src.len()
        invariant
            x <= src.len(),
            out@ == src@.subrange(0, x as int),
        decreases src.len() - x,
    {
        out.push(src[x]);
        x += 1;
        assert(out@ =~= src@.subrange(0, x as int));
    }
    assert(out@ =~= src@);
    out
}

/// An RGBA image, `width` pixels wide, stored row by row.
#[derive(Debug, PartialEq, Eq)]
pub struct RgbaFrame {
    width: u32,
    rows: Vec<Vec<Rgba>>,
}

impl View for RgbaFrame {
    type V = FrameView;

    closed spec fn view(&self) -> FrameView {
        FrameView { width: self.width, rows: self.rows@.map_values(|r: Vec<Rgba>| r@) }
    }
}

impl RgbaFrame {
    #[verifier::type_invariant]
    pub open spec fn well_formed(self) -> bool {
        self@.wf()
    }

    /// Builds the frame from rows already checked to be `width` wide.
    fn assemble(width: u32, rows: Vec<Vec<Rgba>>) -> (f: RgbaFrame)
        requires
            rows@.len() <= u32::MAX,
            forall|y: int| 0 <= y < rows@.len() ==> (#[trigger] rows@[y])@.len() == width,
        ensures
            f@.width == width,
            f@.rows == rows@.map_values(|r: Vec<Rgba>| r@),
            f@.wf(),
    {
        let f = RgbaFrame { width, rows };
        assert(f@.wf());
        f
    }

    pub fn width(&self) -> (w: u32)
        ensures
            w == self@.width,
            self@.wf(),
    {
        proof {
            use_type_invariant(self);
        }
        self.width
    }

    pub fn height(&self) -> (h: u32)
        ensures
            h == self@.height(),
            self@.wf(),
    {
        proof {
            use_type_invariant(self);
        }
        self.rows.len() as u32
    }

    /// `(width, height)`.
    pub fn dimensions(&self) -> (d: (u32, u32))
        ensures
            d.0 == self@.width,
            d.1 == self@.height(),
            self@.wf(),
    {
        (self.width(), self.height())
    }

    /// The pixel in column `x` of row `y`.
    pub fn get_pixel(&self, x: u32, y: u32) -> (p: Rgba)
        requires
            x < self@.width,
            y < self@.height(),
        ensures
            p == self@.rows[y as int][x as int],
    {
        proof {
            use_type_invariant(self);
            assert(self@.rows[y as int].len() == self@.width);
        }
        self.rows[y as usize][x as usize]
    }

    /// A frame of the given size with every pixel equal to `px`.
    pub fn filled(width: u32, height: u32, px: Rgba) -> (f: RgbaFrame)
        ensures
            f@.wf(),
            f@.width == width,
            f@.height() == height,
            forall|y: int, x: int| 0 <= y < height && 0 <= x < width ==> f@.rows[y][x] == px,
    {
        let mut rows: Vec<Vec<Rgba>> = Vec::new();
        let mut y: u32 = 0;
        while y < height
            invariant
                y <= height,
                rows@.len() == y,
                forall|k: int| 0 <= k < y ==> (#[trigger] rows@[k])@.len() == width,
                forall|k: int, x: int| 0 <= k < y && 0 <= x < width ==> rows@[k]@[x] == px,
            decreases height - y,
        {
            let mut row: Vec<Rgba> = Vec::new();
            let mut x: u32 = 0;
            while x < width
                invariant
                    x <= width,
                    row@.len() == x,
                    forall|i: int| 0 <= i < x ==> row@[i] == px,
                decreases width - x,
            {
                row.push(px);
                x += 1;
            }
            rows.push(row);
            y += 1;
        }
        Self::assemble(width, rows)
    }

    /// A frame from rows of pixels; `None` when some row is not `width`
    /// pixels wide or there are more than `u32::MAX` rows.
    pub fn from_rows(width: u32, rows: Vec<Vec<Rgba>>) -> (f: Option<RgbaFrame>)
        ensures
            f is Some <==> (rows@.len() <= u32::MAX && forall|y: int|
                0 <= y < rows@.len() ==> (#[trigger] rows@[y])@.len() == width),
            f matches Some(fr) ==> fr@.wf() && fr@.width == width && fr@.rows == rows@.map_values(
                |r: Vec<Rgba>| r@,
            ),
    {
        if rows.len() > u32::MAX as usize {
            return None;
        }
        let mut y: usize = 0;
        while y < rows.len()
            invariant
                y <= rows@.len(),
                forall|k: int| 0 <= k < y ==> (#[trigger] rows@[k])@.len() == width,
            decreases rows@.len() - y,
        {
            if rows[y].len() != width as usize {
                return None;
            }
            y += 1;
        }
        Some(Self::assemble(width, rows))
    }

    /// A frame from raw RGBA bytes, row after row; `None` unless `data` holds
    /// exactly `width * height` pixels.
    pub fn from_raw(width: u32, height: u32, data: Vec<u8>) -> (f: Option<RgbaFrame>)
        ensures
            f is Some <==> data@.len() == 4 * width * height,
            f matches Some(fr) ==> fr@.wf() && fr@.width == width && fr@.height() == height
                && rows_bytes(fr@.rows) == data@,
    {
        proof {
            lemma_u32_product_bound(width, height);
            assert(4 * (width as int) * (height as int) == 4 * ((width as int) * (height as int)))
                by (nonlinear_arith);
        }
        if (data.len() as u128) != 4 * ((width as u128) * (height as u128)) {
            return None;
        }
        let mut rows: Vec<Vec<Rgba>> = Vec::new();
        let mut off: usize = 0;
        let mut y: u32 = 0;
        while y < height
            invariant
                y <= height,
                data@.len() == 4 * width * height,
                rows@.len() == y,
                off == 4 * (y * width),
                off <= data@.len(),
                data@.len() <= usize::MAX,
                forall|k: int| 0 <= k < y ==> (#[trigger] rows@[k])@.len() == width,
                rows_bytes(rows@.map_values(|r: Vec<Rgba>| r@)) == data@.subrange(0, off as int),
            decreases height - y,
        {
            let mut row: Vec<Rgba> = Vec::new();
            let mut x: u32 = 0;
            let row_start: usize = off;
            assert(data@.subrange(row_start as int, off as int) =~= Seq::<u8>::empty());
            while x < width
                invariant
                    x <= width,
                    y < height,
                    data@.len() == 4 * width * height,
                    data@.len() <= usize::MAX,
                    off <= data@.len(),
                    row@.len() == x,
                    row_start == 4 * (y * width),
                    off == row_start + 4 * x,
                    row_bytes(row@) == data@.subrange(row_start as int, off as int),
                decreases width - x,
            {
                proof {
                    assert(off + 4 <= data@.len()) by (nonlinear_arith)
                        requires
                            x < width,
                            y < height,
                            off == row_start + 4 * x,
                            row_start == 4 * (y * width),
                            data@.len() == 4 * width * height,
                    ;
                }
                let px = Rgba { r: data[off], g: data[off + 1], b: data[off + 2], a: data[off + 3] };
                let ghost old_row = row@;
                row.push(px);
                proof {
                    assert(row@.drop_last() == old_row);
                    assert(data@.subrange(row_start as int, off + 4) =~= data@.subrange(
                        row_start as int,
                        off as int,
                    ) + rgba_bytes(px));
                }
                off = off + 4;
                x += 1;
            }
            let ghost old_rows = rows@.map_values(|r: Vec<Rgba>| r@);
            rows.push(row);
            proof {
                let new_rows = rows@.map_values(|r: Vec<Rgba>| r@);
                assert(new_rows.drop_last() =~= old_rows);
                assert(data@.subrange(0, off as int) =~= data@.subrange(0, row_start as int)
                    + data@.subrange(row_start as int, off as int));
                assert((y + 1) * width == y * width + width) by (nonlinear_arith);
            }
            y += 1;
        }
        proof {
            assert(off == data@.len()) by (nonlinear_arith)
                requires
                    off == 4 * (y * width),
                    y == height,
                    data@.len() == 4 * width * height,
            ;
            assert(data@.subrange(0, off as int) =~= data@);
        }
        Some(Self::assemble(width, rows))
    }

    /// The raw RGBA bytes of the frame, row after row.
    pub fn to_raw(&self) -> (data: Vec<u8>)
        ensures
            data@ == rows_bytes(self@.rows),
            data@.len() == 4 * self@.width * self@.height(),
    {
        proof {
            use_type_invariant(self);
        }
        let mut data: Vec<u8> = Vec::new();
        let mut y: usize = 0;
        while y < self.rows.len()
            invariant
                y <= self@.rows.len(),
                self@.wf(),
                data@ == rows_bytes(self@.rows.subrange(0, y as int)),
            decreases self@.rows.len() - y,
        {
            let row = &self.rows[y];
            let mut x: usize = 0;
            let ghost start = data@;
            while x < row.len()
                invariant
                    x <= row@.len(),
                    data@ == start + row_bytes(row@.subrange(0, x as int)),
                decreases row@.len() - x,
            {
                let p = row[x];
                let ghost before = data@;
                data.push(p.r);
                data.push(p.g);
                data.push(p.b);
                data.push(p.a);
                proof {
                    assert(row@.subrange(0, x + 1).drop_last() =~= row@.subrange(0, x as int));
                    assert(data@ =~= before + rgba_bytes(p));
                }
                x += 1;
            }
            proof {
                assert(row@.subrange(0, x as int) =~= row@);
                assert(self@.rows.subrange(0, y + 1).drop_last() =~= self@.rows.subrange(
                    0,
                    y as int,
                ));
                assert(self@.rows[y as int] == row@);
            }
            y += 1;
        }
        proof {
            assert(self@.rows.subrange(0, y as int) =~= self@.rows);
            lemma_rows_bytes_len(self@.rows, self@.width as nat);
        }
        data
    }

    /// Rows `top..top + count`, clamped to the frame (full width).
    pub fn crop_rows(&self, top: u32, count: u32) -> (f: RgbaFrame)
        ensures
            f@ == self@.crop_rows(top as int, count as int),
            f@.wf(),
    {
        proof {
            use_type_invariant(self);
        }
        let h = self.rows.len() as u32;
        let y0 = if top < h { top } else { h };
        let n = if count < h - y0 { count } else { h - y0 };
        let mut rows: Vec<Vec<Rgba>> = Vec::new();
        let mut k: u32 = 0;
        while k < n
            invariant
                self@.wf(),
                h == self@.rows.len(),
                y0 + n <= h,
                k <= n,
                rows@.len() == k,
                forall|i: int| 0 <= i < k ==> (#[trigger] rows@[i])@ == self@.rows[y0 + i],
            decreases n - k,
        {
            rows.push(copy_rgba_row(&self.rows[(y0 + k) as usize]));
            k += 1;
        }
        let f = Self::assemble(self.width, rows);
        assert(f@.rows =~= self@.crop_rows(top as int, count as int).rows);
        f
    }

    /// A copy of the frame.
    pub fn duplicate(&self) -> (f: RgbaFrame)
        ensures
            f@ == self@,
            f@.wf(),
    {
        proof {
            use_type_invariant(self);
        }
        let h = self.rows.len() as u32;
        let f = self.crop_rows(0, h);
        assert(self@.rows.subrange(0, h as int) =~= self@.rows);
        f
    }

    /// `self` with `below` appended under it.
    pub fn stacked(&self, below: &RgbaFrame) -> (f: RgbaFrame)
        requires
            self@.width == below@.width,
            self@.height() + below@.height() <= u32::MAX,
        ensures
            f@ == self@.stacked(below@),
            f@.wf(),
    {
        proof {
            use_type_invariant(self);
            use_type_invariant(below);
        }
        let mut rows: Vec<Vec<Rgba>> = Vec::new();
        let mut k: usize = 0;
        while k < self.rows.len()
            invariant
                self@.wf(),
                k <= self@.rows.len(),
                rows@.len() == k,
                forall|i: int| 0 <= i < k ==> (#[trigger] rows@[i])@ == self@.rows[i],
            decreases self@.rows.len() - k,
        {
            rows.push(copy_rgba_row(&self.rows[k]));
            k += 1;
        }
        let mut j: usize = 0;
        while j < below.rows.len()
            invariant
                self@.wf(),
                below@.wf(),
                j <= below@.rows.len(),
                rows@.len() == self@.rows.len() + j,
                forall|i: int| 0 <= i < self@.rows.len() ==> (#[trigger] rows@[i])@ == self@.rows[i],
                forall|i: int|
                    self@.rows.len() <= i < rows@.len() ==> (#[trigger] rows@[i])@
                        == below@.rows[i - self@.rows.len()],
            decreases below@.rows.len() - j,
        {
            rows.push(copy_rgba_row(&below.rows[j]));
            j += 1;
        }
        let f = Self::assemble(self.width, rows);
        assert(f@.rows =~= self@.rows + below@.rows);
        f
    }
}

/// A grayscale image, `width` pixels wide, stored row by row.
#[derive(Debug, PartialEq, Eq)]
pub struct GrayFrame {
    width: u32,
    rows: Vec<Vec<u8>>,
}

impl View for GrayFrame {
    type V = GrayView;

    closed spec fn view(&self) -> GrayView {
        GrayView { width: self.width, rows: self.rows@.map_values(|r: Vec<u8>| r@) }
    }
}

impl GrayFrame {
    #[verifier::type_invariant]
    pub open spec fn well_formed(self) -> bool {
        self@.wf()
    }

    fn assemble(width: u32, rows: Vec<Vec<u8>>) -> (f: GrayFrame)
        requires
            rows@.len() <= u32::MAX,
            forall|y: int| 0 <= y < rows@.len() ==> (#[trigger] rows@[y])@.len() == width,
        ensures
            f@.width == width,
            f@.rows == rows@.map_values(|r: Vec<u8>| r@),
            f@.wf(),
    {
        let f = GrayFrame { width, rows };
        assert(f@.wf());
        f
    }

    pub fn width(&self) -> (w: u32)
        ensures
            w == self@.width,
            self@.wf(),
    {
        proof {
            use_type_invariant(self);
        }
        self.width
    }

    pub fn height(&self) -> (h: u32)
        ensures
            h == self@.height(),
            self@.wf(),
    {
        proof {
            use_type_invariant(self);
        }
        self.rows.len() as u32
    }

    /// The gray level in column `x` of row `y`.
    pub fn get_pixel(&self, x: u32, y: u32) -> (p: u8)
        requires
            x < self@.width,
            y < self@.height(),
        ensures
            p == self@.rows[y as int][x as int],
    {
        proof {
            use_type_invariant(self);
            assert(self@.rows[y as int].len() == self@.width);
        }
        self.rows[y as usize][x as usize]
    }

    /// A frame from raw gray levels, row after row; `None` unless `data`
    /// holds exactly `width * height` levels.
    pub fn from_raw(width: u32, height: u32, data: Vec<u8>) -> (f: Option<GrayFrame>)
        ensures
            f is Some <==> data@.len() == width * height,
            f matches Some(fr) ==> fr@.wf() && fr@.width == width && fr@.rows == gray_rows_of(
                data@,
                width as nat,
                height as nat,
            ),
    {
        proof {
            lemma_u32_product_bound(width, height);
        }
        if (data.len() as u128) != (width as u128) * (height as u128) {
            return None;
        }
        let mut rows: Vec<Vec<u8>> = Vec::new();
        let mut off: usize = 0;
        let mut y: u32 = 0;
        while y < height
            invariant
                y <= height,
                data@.len() == width * height,
                data@.len() <= usize::MAX,
                rows@.len() == y,
                off == y * width,
                forall|k: int|
                    0 <= k < y ==> (#[trigger] rows@[k])@ == data@.subrange(
                        k * width,
                        k * width + width,
                    ),
            decreases height - y,
        {
            proof {
                assert(off + width <= data@.len()) by (nonlinear_arith)
                    requires
                        y < height,
                        off == y * width,
                        data@.len() == width * height,
                ;
            }
            let mut row: Vec<u8> = Vec::new();
            let mut x: u32 = 0;
            while x < width
                invariant
                    x <= width,
                    off + width <= data@.len(),
                    data@.len() <= usize::MAX,
                    row@ == data@.subrange(off as int, off + x),
                decreases width - x,
            {
                row.push(data[off + x as usize]);
                x += 1;
                assert(row@ =~= data@.subrange(off as int, off + x));
            }
            rows.push(row);
            proof {
                assert((y + 1) * width == y * width + width) by (nonlinear_arith);
            }
            off = off + width as usize;
            y += 1;
        }
        proof {
            assert forall|k: int| 0 <= k < rows@.len() implies (#[trigger] rows@[k])@.len()
                == width by {
                assert(k * width + width <= width * height) by (nonlinear_arith)
                    requires
                        0 <= k < height,
                ;
            }
        }
        let f = Self::assemble(width, rows);
        assert(f@.rows =~= gray_rows_of(data@, width as nat, height as nat));
        Some(f)
    }

    /// The raw gray levels of the frame, row after row.
    pub fn to_raw(&self) -> (data: Vec<u8>)
        ensures
            data@ == gray_bytes(self@.rows),
            data@.len() == self@.width * self@.height(),
    {
        proof {
            use_type_invariant(self);
        }
        let mut data: Vec<u8> = Vec::new();
        let mut y: usize = 0;
        while y < self.rows.len()
            invariant
                y <= self@.rows.len(),
                self@.wf(),
                data@ == gray_bytes(self@.rows.subrange(0, y as int)),
            decreases self@.rows.len() - y,
        {
            let row = &self.rows[y];
            let mut x: usize = 0;
            let ghost start = data@;
            while x < row.len()
                invariant
                    x <= row@.len(),
                    data@ == start + row@.subrange(0, x as int),
                decreases row@.len() - x,
            {
                data.push(row[x]);
                x += 1;
                assert(data@ =~= start + row@.subrange(0, x as int));
            }
            proof {
                assert(row@.subrange(0, x as int) =~= row@);
                assert(self@.rows.subrange(0, y + 1).drop_last() =~= self@.rows.subrange(
                    0,
                    y as int,
                ));
                assert(self@.rows[y as int] == row@);
            }
            y += 1;
        }
        proof {
            assert(self@.rows.subrange(0, y as int) =~= self@.rows);
            lemma_gray_bytes_len(self@.rows, self@.width as nat);
        }
        data
    }

    /// Rows `top..top + count`, clamped to the frame (full width).
    pub fn crop_rows(&self, top: u32, count: u32) -> (f: GrayFrame)
        ensures
            f@ == self@.crop_rows(top as int, count as int),
            f@.wf(),
    {
        proof {
            use_type_invariant(self);
        }
        let h = self.rows.len() as u32;
        let y0 = if top < h { top } else { h };
        let n = if count < h - y0 { count } else { h - y0 };
        let mut rows: Vec<Vec<u8>> = Vec::new();
        let mut k: u32 = 0;
        while k < n
            invariant
                self@.wf(),
                h == self@.rows.len(),
                y0 + n <= h,
                k <= n,
                rows@.len() == k,
                forall|i: int| 0 <= i < k ==> (#[trigger] rows@[i])@ == self@.rows[y0 + i],
            decreases n - k,
        {
            rows.push(copy_gray_row(&self.rows[(y0 + k) as usize]));
            k += 1;
        }
        let f = Self::assemble(self.width, rows);
        assert(f@.rows =~= self@.crop_rows(top as int, count as int).rows);
        f
    }
}

} // verus!
