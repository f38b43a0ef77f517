//! Rectangular pixel buffers, stored row by row.

use vstd::prelude::*;
use crate::color::{transparent, Rgba};

verus! {

/// A pixel buffer of `columns() * rows()` pixels, row-major: the pixel at
/// column `x` of row `y` is the `y * columns() + x`-th.
#[derive(Debug)]
pub struct Raster {
    width: u32,
    height: u32,
    data: Vec<Rgba>,
}

/// The position of column `x` of row `y` in a row-major buffer of the given
/// width.
pub open spec fn flat_index(x: int, y: int, width: int) -> int {
    y * width + x
}

/// A position inside a `width * height` grid has a flat index inside the
/// buffer, and that index determines the position.
pub proof fn lemma_flat_index(x: int, y: int, width: int, height: int)
    requires
        0 <= x < width,
        0 <= y < height,
    ensures
        0 <= flat_index(x, y, width) < width * height,
        flat_index(x, y, width) / width == y,
        flat_index(x, y, width) % width == x,
{
    assert(0 <= y * width <= (height - 1) * width) by (nonlinear_arith)
        requires
            0 <= y <= height - 1,
            0 < width,
    ;
    assert((height - 1) * width == width * height - width) by (nonlinear_arith);
    vstd::arithmetic::div_mod::lemma_fundamental_div_mod_converse(y * width + x, width, y, x);
}

/// A flat index inside the buffer is the index of the position it splits
/// into.
pub proof fn lemma_flat_index_split(k: int, width: int, height: int)
    requires
        0 <= k < width * height,
        0 < width,
    ensures
        0 <= k % width < width,
        0 <= k / width < height,
        flat_index(k % width, k / width, width) == k,
{
    vstd::arithmetic::div_mod::lemma_fundamental_div_mod(k, width);
    vstd::arithmetic::div_mod::lemma_mod_bound(k, width);
    assert(width * (k / width) == (k / width) * width) by (nonlinear_arith);
    let q = k / width;
    assert(0 <= q < height) by (nonlinear_arith)
        requires
            0 <= k < width * height,
            0 < width,
            0 <= k - q * width < width,
    ;
}

/// The channels of `pixels` as bytes: four for each pixel, in the order red,
/// green, blue, transparency.
pub open spec fn rgba_bytes(pixels: Seq<Rgba>) -> Seq<u8> {
    Seq::new(
        4 * pixels.len(),
        |i: int|
            {
                let px = pixels[i / 4];
                if i % 4 == 0 {
                    px.r
                } else if i % 4 == 1 {
                    px.g
                } else if i % 4 == 2 {
                    px.b
                } else {
                    px.a
                }
            },
    )
}

/// Whether `(x, y)` lies in the block of `w * h` positions whose top-left
/// corner is `(x0, y0)`.
pub open spec fn in_block(x: int, y: int, x0: int, y0: int, w: int, h: int) -> bool {
    x0 <= x < x0 + w && y0 <= y < y0 + h
}

impl Raster {
    /// The number of pixels in a row.
    pub closed spec fn columns(&self) -> nat {
        self.width as nat
    }

    /// The number of rows.
    pub closed spec fn rows(&self) -> nat {
        self.height as nat
    }

    /// All pixels, row by row.
    pub closed spec fn pixels(&self) -> Seq<Rgba> {
        self.data@
    }

    /// The buffer holds exactly one pixel for every position.
    pub open spec fn wf(&self) -> bool {
        &&& self.pixels().len() == self.columns() * self.rows()
        &&& self.columns() <= u32::MAX
        &&& self.rows() <= u32::MAX
    }

    /// The pixel at column `x` of row `y`.
    pub open spec fn pixel(&self, x: int, y: int) -> Rgba {
        self.pixels()[flat_index(x, y, self.columns() as int)]
    }

    /// Whether `(x, y)` is a position of this buffer.
    pub open spec fn contains(&self, x: int, y: int) -> bool {
        0 <= x < self.columns() && 0 <= y < self.rows()
    }

    /// A buffer of the given size with every pixel fully transparent.
    pub fn new(width: u32, height: u32) -> (raster: Raster)
        requires
            width * height <= usize::MAX,
        ensures
            raster.wf(),
            raster.columns() == width,
            raster.rows() == height,
            forall|k: int| 0 <= k < raster.pixels().len() ==> raster.pixels()[k] == transparent(),
    {
        let count: usize = (width as usize) * (height as usize);
        let data: Vec<Rgba> = vec![Rgba { r: 0, g: 0, b: 0, a: 0 }; count];
        Raster { width, height, data }
    }

    /// A buffer of the given size over the given pixels, row by row; `None`
    /// unless there is exactly one pixel for every position.
    pub fn from_pixels(width: u32, height: u32, data: Vec<Rgba>) -> (made: Option<Raster>)
        ensures
            made.is_some() <==> data@.len() == width * height,
            made matches Some(raster) ==> {
                &&& raster.wf()
                &&& raster.columns() == width
                &&& raster.rows() == height
                &&& raster.pixels() == data@
            },
    {
        assert(width * height <= u32::MAX * u32::MAX) by (nonlinear_arith)
            requires
                0 <= width <= u32::MAX,
                0 <= height <= u32::MAX,
        ;
        let count: u64 = (width as u64) * (height as u64);
        if data.len() as u64 == count {
            Some(Raster { width, height, data })
        } else {
            None
        }
    }

    /// The number of pixels in a row.
    pub fn width(&self) -> (w: u32)
        ensures
            w == self.columns(),
    {
        self.width
    }

    /// The number of rows.
    pub fn height(&self) -> (h: u32)
        ensures
            h == self.rows(),
    {
        self.height
    }

    /// All pixels, row by row.
    pub fn to_pixels(&self) -> (out: Vec<Rgba>)
        ensures
            out@ == self.pixels(),
    {
        self.data.clone()
    }

    /// Reads the pixel at column `x` of row `y`.
    pub fn get_pixel(&self, x: u32, y: u32) -> (px: Rgba)
        requires
            self.wf(),
            self.contains(x as int, y as int),
        ensures
            px == self.pixel(x as int, y as int),
    {
        proof {
            lemma_flat_index(x as int, y as int, self.width as int, self.height as int);
            assert(0 <= y * self.width) by (nonlinear_arith);
            assert(self.data@.len() == self.data.len());
        }
        let at: usize = (y as usize) * (self.width as usize) + (x as usize);
        self.data[at]
    }

    /// Writes `px` at column `x` of row `y` and leaves every other pixel as
    /// it was.
    pub fn put_pixel(&mut self, x: u32, y: u32, px: Rgba)
        requires
            old(self).wf(),
            old(self).contains(x as int, y as int),
        ensures
            final(self).wf(),
            final(self).columns() == old(self).columns(),
            final(self).rows() == old(self).rows(),
            final(self).pixels() == old(self).pixels().update(
                flat_index(x as int, y as int, old(self).columns() as int),
                px,
            ),
            forall|i: int, j: int|
                old(self).contains(i, j) ==> #[trigger] final(self).pixel(i, j) == if i == x && j
                    == y {
                    px
                } else {
                    old(self).pixel(i, j)
                },
    {
        proof {
            lemma_flat_index(x as int, y as int, self.width as int, self.height as int);
            assert(0 <= y * self.width) by (nonlinear_arith);
            assert(self.data@.len() == self.data.len());
        }
        let at: usize = (y as usize) * (self.width as usize) + (x as usize);
        self.data.set(at, px);
        proof {
            assert forall|i: int, j: int| old(self).contains(i, j) implies #[trigger] self.pixel(
                i,
                j,
            ) == if i == x && j == y {
                px
            } else {
                old(self).pixel(i, j)
            } by {
                lemma_flat_index(i, j, self.width as int, self.height as int);
            }
        }
    }

    /// Writes `px` at every position of the block of `w * h` positions whose
    /// top-left corner is `(x0, y0)` and leaves every other pixel as it was.
    pub fn fill_block(&mut self, x0: u32, y0: u32, w: u32, h: u32, px: Rgba)
        requires
            old(self).wf(),
            x0 + w <= old(self).columns(),
            y0 + h <= old(self).rows(),
        ensures
            final(self).wf(),
            final(self).columns() == old(self).columns(),
            final(self).rows() == old(self).rows(),
            forall|i: int, j: int|
                old(self).contains(i, j) ==> #[trigger] final(self).pixel(i, j) == if in_block(
                    i,
                    j,
                    x0 as int,
                    y0 as int,
                    w as int,
                    h as int,
                ) {
                    px
                } else {
                    old(self).pixel(i, j)
                },
    {
        let ghost before = *self;
        let mut dy: u32 = 0;
        while dy < h
            invariant
                dy <= h,
                before.wf(),
                self.wf(),
                self.columns() == before.columns(),
                self.rows() == before.rows(),
                x0 + w <= before.columns(),
                y0 + h <= before.rows(),
                forall|i: int, j: int|
                    before.contains(i, j) ==> #[trigger] self.pixel(i, j) == if in_block(
                        i,
                        j,
                        x0 as int,
                        y0 as int,
                        w as int,
                        dy as int,
                    ) {
                        px
                    } else {
                        before.pixel(i, j)
                    },
            decreases h - dy,
        {
            let mut dx: u32 = 0;
            while dx < w
                invariant
                    dx <= w,
                    dy < h,
                    before.wf(),
                    self.wf(),
                    self.columns() == before.columns(),
                    self.rows() == before.rows(),
                    x0 + w <= before.columns(),
                    y0 + h <= before.rows(),
                    forall|i: int, j: int|
                        before.contains(i, j) ==> #[trigger] self.pixel(i, j) == if in_block(
                            i,
                            j,
                            x0 as int,
                            y0 as int,
                            w as int,
                            dy as int,
                        ) || in_block(i, j, x0 as int, y0 + dy, dx as int, 1) {
                            px
                        } else {
                            before.pixel(i, j)
                        },
                decreases w - dx,
            {
                self.put_pixel(x0 + dx, y0 + dy, px);
                dx = dx + 1;
            }
            dy = dy + 1;
        }
    }

    /// Copies `src` into the block whose top-left corner is `(x0, y0)` and
    /// leaves every pixel outside that block as it was.
    pub fn blit(&mut self, src: &Raster, x0: u32, y0: u32)
        requires
            old(self).wf(),
            src.wf(),
            x0 + src.columns() <= old(self).columns(),
            y0 + src.rows() <= old(self).rows(),
        ensures
            final(self).wf(),
            final(self).columns() == old(self).columns(),
            final(self).rows() == old(self).rows(),
            forall|i: int, j: int|
                old(self).contains(i, j) ==> #[trigger] final(self).pixel(i, j) == if in_block(
                    i,
                    j,
                    x0 as int,
                    y0 as int,
                    src.columns() as int,
                    src.rows() as int,
                ) {
                    src.pixel(i - x0, j - y0)
                } else {
                    old(self).pixel(i, j)
                },
    {
        let ghost before = *self;
        let w: u32 = src.width();
        let h: u32 = src.height();
        let mut dy: u32 = 0;
        while dy < h
            invariant
                dy <= h,
                w == src.columns(),
                h == src.rows(),
                src.wf(),
                before.wf(),
                self.wf(),
                self.columns() == before.columns(),
                self.rows() == before.rows(),
                x0 + w <= before.columns(),
                y0 + h <= before.rows(),
                forall|i: int, j: int|
                    before.contains(i, j) ==> #[trigger] self.pixel(i, j) == if in_block(
                        i,
                        j,
                        x0 as int,
                        y0 as int,
                        w as int,
                        dy as int,
                    ) {
                        src.pixel(i - x0, j - y0)
                    } else {
                        before.pixel(i, j)
                    },
            decreases h - dy,
        {
            let mut dx: u32 = 0;
            while dx < w
                invariant
                    dx <= w,
                    dy < h,
                    w == src.columns(),
                    h == src.rows(),
                    src.wf(),
                    before.wf(),
                    self.wf(),
                    self.columns() == before.columns(),
                    self.rows() == before.rows(),
                    x0 + w <= before.columns(),
                    y0 + h <= before.rows(),
                    forall|i: int, j: int|
                        before.contains(i, j) ==> #[trigger] self.pixel(i, j) == if in_block(
                            i,
                            j,
                            x0 as int,
                            y0 as int,
                            w as int,
                            dy as int,
                        ) || in_block(i, j, x0 as int, y0 + dy, dx as int, 1) {
                            src.pixel(i - x0, j - y0)
                        } else {
                            before.pixel(i, j)
                        },
                decreases w - dx,
            {
                let px = src.get_pixel(dx, dy);
                self.put_pixel(x0 + dx, y0 + dy, px);
                dx = dx + 1;
            }
            dy = dy + 1;
        }
    }

    /// The channels of all pixels as bytes, row by row, four bytes for each
    /// pixel.
    pub fn to_rgba_bytes(&self) -> (bytes: Vec<u8>)
        requires
            4 * self.pixels().len() <= usize::MAX,
        ensures
            bytes@ == rgba_bytes(self.pixels()),
    {
        let n: usize = self.data.len();
        let mut bytes: Vec<u8> = Vec::with_capacity(4 * n);
        let mut k: usize = 0;
        while k < n
            invariant
                k <= n,
                n == self.data@.len(),
                4 * n <= usize::MAX,
                bytes@.len() == 4 * k,
                forall|i: int| 0 <= i < 4 * k ==> bytes@[i] == rgba_bytes(self.data@)[i],
            decreases n - k,
        {
            let px: Rgba = self.data[k];
            bytes.push(px.r);
            bytes.push(px.g);
            bytes.push(px.b);
            bytes.push(px.a);
            k = k + 1;
        }
        proof {
            assert(bytes@ =~= rgba_bytes(self.data@));
        }
        bytes
    }

    /// A buffer of the given size over pixels given as bytes, four for each
    /// pixel; `None` unless there are exactly four bytes for every position.
    pub fn from_rgba_bytes(width: u32, height: u32, bytes: &Vec<u8>) -> (made: Option<Raster>)
        ensures
            made.is_some() <==> bytes@.len() == 4 * (width * height),
            made matches Some(raster) ==> {
                &&& raster.wf()
                &&& raster.columns() == width
                &&& raster.rows() == height
                &&& rgba_bytes(raster.pixels()) == bytes@
            },
    {
        assert(width * height <= u32::MAX * u32::MAX) by (nonlinear_arith)
            requires
                0 <= width <= u32::MAX,
                0 <= height <= u32::MAX,
        ;
        let count: u64 = (width as u64) * (height as u64);
        let total: usize = bytes.len();
        if total % 4 != 0 || (total / 4) as u64 != count {
            return None;
        }
        let n: usize = total / 4;
        let mut data: Vec<Rgba> = Vec::with_capacity(n);
        let mut k: usize = 0;
        while k < n
            invariant
                k <= n,
                total == bytes@.len(),
                total == 4 * n,
                data@.len() == k,
                forall|i: int| 0 <= i < 4 * k ==> rgba_bytes(data@)[i] == bytes@[i],
            decreases n - k,
        {
            let px = Rgba {
                r: bytes[4 * k],
                g: bytes[4 * k + 1],
                b: bytes[4 * k + 2],
                a: bytes[4 * k + 3],
            };
            let ghost before = data@;
            data.push(px);
            proof {
                assert forall|i: int| 0 <= i < 4 * (k + 1) implies rgba_bytes(data@)[i]
                    == bytes@[i] by {
                    if i < 4 * k {
                        assert(data@[i / 4] == before[i / 4]);
                        assert(rgba_bytes(before)[i] == bytes@[i]);
                    }
                }
            }
            k = k + 1;
        }
        proof {
            assert(rgba_bytes(data@) =~= bytes@);
        }
        Some(Raster { width, height, data })
    }
}

impl Clone for Raster {
    /// A buffer of the same size with the same pixels.
    fn clone(&self) -> (copy: Raster)
        ensures
            copy.columns() == self.columns(),
            copy.rows() == self.rows(),
            copy.pixels() == self.pixels(),
    {
        Raster { width: self.width, height: self.height, data: self.data.clone() }
    }
}

} // verus!
