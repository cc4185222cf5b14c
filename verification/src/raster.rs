//! Rasters: dense grids of RGBA pixels.

use vstd::prelude::*;
use crate::pixel::Pixel;

verus! {

/// What a raster is, mathematically: its two dimensions and its bytes, row
/// after row, four bytes to the pixel.
pub struct RasterView {
    pub width: nat,
    pub height: nat,
    pub data: Seq<u8>,
}

impl RasterView {
    /// The buffer holds exactly four bytes for each pixel of the grid.
    pub open spec fn wf(self) -> bool {
        self.data.len() == self.width * self.height * 4
    }

    /// `(x, y)` is a coordinate of the grid.
    pub open spec fn contains(self, x: int, y: int) -> bool {
        0 <= x < self.width && 0 <= y < self.height
    }

    /// Where in the buffer the pixel at `(x, y)` starts.
    pub open spec fn offset_of(self, x: int, y: int) -> int {
        (y * self.width + x) * 4
    }

    /// The pixel at `(x, y)`.
    pub open spec fn pixel_at(self, x: int, y: int) -> Pixel {
        let start = self.offset_of(x, y);
        Pixel {
            r: self.data[start],
            g: self.data[start + 1],
            b: self.data[start + 2],
            a: self.data[start + 3],
        }
    }

    /// This raster with the pixel at `(x, y)` replaced by `pixel`.
    pub open spec fn with_pixel(self, x: int, y: int, pixel: Pixel) -> RasterView {
        let start = self.offset_of(x, y);
        RasterView {
            width: self.width,
            height: self.height,
            data: self.data.update(start, pixel.r).update(start + 1, pixel.g).update(
                start + 2,
                pixel.b,
            ).update(start + 3, pixel.a),
        }
    }

    /// Every byte of the buffer is zero.
    pub open spec fn is_blank(self) -> bool {
        forall|i: int| 0 <= i < self.data.len() ==> self.data[i] == 0
    }
}

/// The four bytes of a pixel of the grid lie inside the buffer.
pub proof fn lemma_offset_in_bounds(raster: RasterView, x: int, y: int)
    requires
        raster.wf(),
        raster.contains(x, y),
    ensures
        0 <= raster.offset_of(x, y),
        raster.offset_of(x, y) + 4 <= raster.data.len(),
{
    let w = raster.width as int;
    let h = raster.height as int;
    assert((y * w + x) * 4 >= 0 && (y * w + x) * 4 + 4 <= w * h * 4) by (nonlinear_arith)
        requires
            0 <= x < w,
            0 <= y < h,
    ;
}

/// Two different pixels of the grid do not share a byte.
pub proof fn lemma_offsets_apart(raster: RasterView, x1: int, y1: int, x2: int, y2: int)
    requires
        raster.contains(x1, y1),
        raster.contains(x2, y2),
        x1 != x2 || y1 != y2,
    ensures
        raster.offset_of(x1, y1) + 4 <= raster.offset_of(x2, y2) || raster.offset_of(x2, y2) + 4
            <= raster.offset_of(x1, y1),
{
    let w = raster.width as int;
    assert((y1 * w + x1) * 4 + 4 <= (y2 * w + x2) * 4 || (y2 * w + x2) * 4 + 4 <= (y1 * w + x1)
        * 4) by (nonlinear_arith)
        requires
            0 <= x1 < w,
            0 <= x2 < w,
            0 <= y1,
            0 <= y2,
            x1 != x2 || y1 != y2,
    ;
}

/// Replacing a pixel changes that pixel and no other, and keeps the raster
/// well formed.
pub proof fn lemma_with_pixel(raster: RasterView, x: int, y: int, pixel: Pixel)
    requires
        raster.wf(),
        raster.contains(x, y),
    ensures
        raster.with_pixel(x, y, pixel).wf(),
        raster.with_pixel(x, y, pixel).width == raster.width,
        raster.with_pixel(x, y, pixel).height == raster.height,
        raster.with_pixel(x, y, pixel).pixel_at(x, y) == pixel,
        forall|x2: int, y2: int|
            raster.contains(x2, y2) && (x2 != x || y2 != y) ==> #[trigger] raster.with_pixel(
                x,
                y,
                pixel,
            ).pixel_at(x2, y2) == raster.pixel_at(x2, y2),
{
    lemma_offset_in_bounds(raster, x, y);
    let changed = raster.with_pixel(x, y, pixel);
    assert forall|x2: int, y2: int|
        raster.contains(x2, y2) && (x2 != x || y2 != y) implies #[trigger] changed.pixel_at(
        x2,
        y2,
    ) == raster.pixel_at(x2, y2) by {
        lemma_offset_in_bounds(raster, x2, y2);
        lemma_offsets_apart(raster, x, y, x2, y2);
    }
}

/// A well-formed raster is its pixels: two rasters of the same dimensions
/// that agree on every pixel agree on every byte.
pub proof fn lemma_pixels_determine_raster(first: RasterView, second: RasterView)
    requires
        first.wf(),
        second.wf(),
        first.width == second.width,
        first.height == second.height,
        forall|x: int, y: int|
            first.contains(x, y) ==> #[trigger] first.pixel_at(x, y) == second.pixel_at(x, y),
    ensures
        first == second,
{
    let w = first.width as int;
    let h = first.height as int;
    assert forall|i: int| 0 <= i < first.data.len() implies first.data[i] == second.data[i] by {
        let k = i / 4;
        let c = i % 4;
        assert(w > 0 && 0 <= k < w * h) by (nonlinear_arith)
            requires
                0 <= i < w * h * 4,
                k == i / 4,
                w >= 0,
                h >= 0,
        ;
        let y = k / w;
        let x = k % w;
        assert(0 <= x < w && 0 <= y < h && k == y * w + x) by (nonlinear_arith)
            requires
                w > 0,
                0 <= k < w * h,
                y == k / w,
                x == k % w,
        ;
        assert(first.contains(x, y));
        assert(first.pixel_at(x, y) == second.pixel_at(x, y));
        assert(first.offset_of(x, y) == 4 * k);
        assert(second.offset_of(x, y) == 4 * k);
        assert(i == 4 * k + c);
    }
    assert(first.data =~= second.data);
}

/// A grid of RGBA pixels: `width` columns, `height` rows, and one buffer
/// that holds the rows one after another, four bytes to the pixel.
///
/// A raster always holds exactly `width * height * 4` bytes.
#[derive(Debug, PartialEq, Eq)]
pub struct Raster {
    width: u32,
    height: u32,
    data: Vec<u8>,
}

impl View for Raster {
    type V = RasterView;

    closed spec fn view(&self) -> RasterView {
        RasterView { width: self.width as nat, height: self.height as nat, data: self.data@ }
    }
}

impl Clone for Raster {
    /// A second raster with the same dimensions and the same bytes.
    fn clone(&self) -> (copy: Self)
        ensures
            copy@ == self@,
            copy@.wf(),
    {
        proof {
            use_type_invariant(self);
        }
        Raster { width: self.width, height: self.height, data: self.data.clone() }
    }
}

impl Raster {
    #[verifier::type_invariant]
    spec fn holds_every_pixel(self) -> bool {
        self.data@.len() == self.width * self.height * 4
    }

    /// A raster of the given dimensions with every byte zero, or `None`
    /// where a buffer of that many bytes cannot be addressed.
    pub fn new(width: u32, height: u32) -> (made: Option<Raster>)
        ensures
            made is Some <==> width * height * 4 <= usize::MAX,
            made matches Some(raster) ==> {
                &&& raster@.wf()
                &&& raster@.width == width
                &&& raster@.height == height
                &&& raster@.is_blank()
            },
    {
        assert(width * height <= u64::MAX) by (nonlinear_arith)
            requires
                width <= u32::MAX,
                height <= u32::MAX,
        ;
        let pixels: u64 = width as u64 * height as u64;
        match pixels.checked_mul(4) {
            Some(bytes) => {
                if bytes > usize::MAX as u64 {
                    None
                } else {
                    let data: Vec<u8> = vec![0u8; bytes as usize];
                    Some(Raster { width, height, data })
                }
            },
            None => None,
        }
    }

    /// The raster of the given dimensions over `data`, or `None` where
    /// `data` does not hold exactly four bytes for each pixel.
    pub fn from_raw(width: u32, height: u32, data: Vec<u8>) -> (made: Option<Raster>)
        ensures
            made is Some <==> data@.len() == width * height * 4,
            made matches Some(raster) ==> {
                &&& raster@.wf()
                &&& raster@.width == width
                &&& raster@.height == height
                &&& raster@.data == data@
            },
    {
        assert(width * height <= u64::MAX) by (nonlinear_arith)
            requires
                width <= u32::MAX,
                height <= u32::MAX,
        ;
        let pixels: u64 = width as u64 * height as u64;
        let len: usize = data.len();
        match pixels.checked_mul(4) {
            Some(bytes) => {
                if len as u64 == bytes {
                    Some(Raster { width, height, data })
                } else {
                    None
                }
            },
            None => None,
        }
    }

    /// The number of columns.
    pub fn width(&self) -> (width: u32)
        ensures
            width == self@.width,
            self@.wf(),
    {
        proof {
            use_type_invariant(self);
        }
        self.width
    }

    /// The number of rows.
    pub fn height(&self) -> (height: u32)
        ensures
            height == self@.height,
            self@.wf(),
    {
        proof {
            use_type_invariant(self);
        }
        self.height
    }

    /// The bytes of the raster, row after row.
    pub fn as_raw(&self) -> (data: &Vec<u8>)
        ensures
            data@ == self@.data,
            self@.wf(),
    {
        proof {
            use_type_invariant(self);
        }
        &self.data
    }

    /// Gives up the raster for its bytes.
    pub fn into_raw(self) -> (data: Vec<u8>)
        ensures
            data@ == self@.data,
            self@.wf(),
    {
        proof {
            use_type_invariant(&self);
        }
        self.data
    }

    /// The pixel at column `x` of row `y`.
    pub fn get_pixel(&self, x: u32, y: u32) -> (pixel: Pixel)
        requires
            self@.contains(x as int, y as int),
        ensures
            pixel == self@.pixel_at(x as int, y as int),
            self@.wf(),
    {
        proof {
            use_type_invariant(self);
            lemma_offset_in_bounds(self@, x as int, y as int);
        }
        let start: usize = self.start_of(x, y);
        Pixel {
            r: self.data[start],
            g: self.data[start + 1],
            b: self.data[start + 2],
            a: self.data[start + 3],
        }
    }

    /// Replaces the pixel at column `x` of row `y`.
    pub fn put_pixel(&mut self, x: u32, y: u32, pixel: Pixel)
        requires
            old(self)@.contains(x as int, y as int),
        ensures
            final(self)@ == old(self)@.with_pixel(x as int, y as int, pixel),
            final(self)@.wf(),
    {
        proof {
            use_type_invariant(&*self);
            lemma_offset_in_bounds(self@, x as int, y as int);
            lemma_with_pixel(self@, x as int, y as int, pixel);
        }
        let start: usize = self.start_of(x, y);
        self.data[start] = pixel.r;
        self.data[start + 1] = pixel.g;
        self.data[start + 2] = pixel.b;
        self.data[start + 3] = pixel.a;
    }

    fn start_of(&self, x: u32, y: u32) -> (start: usize)
        requires
            self@.contains(x as int, y as int),
        ensures
            start == self@.offset_of(x as int, y as int),
            start + 4 <= self@.data.len(),
    {
        proof {
            use_type_invariant(self);
            lemma_offset_in_bounds(self@, x as int, y as int);
            assert(0 <= y * self.width) by (nonlinear_arith);
            assert(self.data@.len() == self.data.len());
        }
        (y as usize * self.width as usize + x as usize) * 4
    }
}

} // verus!
