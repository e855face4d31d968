//! An 8-bit grayscale raster: the one image type every page-processing
//! algorithm in this crate reads and writes. Pixels are stored row-major,
//! `data[y * width + x]`.

use vstd::prelude::*;

verus! {

/// The mathematical content of a [`GrayImage`]: its dimensions and its
/// row-major pixel sequence.
pub struct GrayView {
    pub width: nat,
    pub height: nat,
    pub data: Seq<u8>,
}

impl GrayView {
    /// The pixel sequence has exactly one entry per pixel.
    pub open spec fn wf(self) -> bool {
        self.data.len() == self.width * self.height
    }

    /// Pixel `(x, y)`.
    pub open spec fn at(self, x: int, y: int) -> u8 {
        self.data[y * self.width + x]
    }

    /// `(x, y)` lies inside the image.
    pub open spec fn contains(self, x: int, y: int) -> bool {
        0 <= x < self.width && 0 <= y < self.height
    }

    /// Two views have the same dimensions and agree on every pixel.
    pub open spec fn same_pixels(self, other: GrayView) -> bool {
        &&& self.width == other.width
        &&& self.height == other.height
        &&& forall|x: int, y: int| self.contains(x, y) ==> #[trigger] self.at(x, y) == other.at(x, y)
    }
}

/// Row-major index of pixel `(x, y)` lies inside a `width * height` buffer.
pub proof fn lemma_index_bounds(x: int, y: int, width: int, height: int)
    requires
        0 <= x < width,
        0 <= y < height,
    ensures
        0 <= y * width + x < width * height,
        y * width + x >= y * width,
        (y + 1) * width == y * width + width,
{
    assert(0 <= y * width) by (nonlinear_arith)
        requires
            0 <= y,
            0 <= width,
    ;
    assert(y * width + x < width * height) by (nonlinear_arith)
        requires
            0 <= x < width,
            0 <= y < height,
    ;
    assert((y + 1) * width == y * width + width) by (nonlinear_arith);
}

/// Row-major position `y * width + x` decomposes back into `(x, y)`.
pub proof fn lemma_row_major(x: int, y: int, width: int)
    requires
        0 <= x < width,
        0 <= y,
    ensures
        (y * width + x) % width == x,
        (y * width + x) / width == y,
        (y * width + x) + 1 == (if x + 1 == width { (y + 1) * width } else { y * width + (x + 1) }),
{
    vstd::arithmetic::div_mod::lemma_fundamental_div_mod_converse(y * width + x, width, y, x);
    assert((y + 1) * width == y * width + width) by (nonlinear_arith);
}

/// Two views with the same dimensions and the same pixel at every position
/// are equal.
pub proof fn lemma_view_ext(a: GrayView, b: GrayView)
    requires
        a.wf(),
        b.wf(),
        a.same_pixels(b),
    ensures
        a == b,
{
    assert forall|i: int| 0 <= i < a.data.len() implies a.data[i] == b.data[i] by {
        let w = a.width as int;
        let y = i / w;
        let x = i % w;
        assert(w > 0) by (nonlinear_arith)
            requires
                0 <= i < a.data.len(),
                a.data.len() == a.width * a.height,
                w == a.width,
        ;
        vstd::arithmetic::div_mod::lemma_fundamental_div_mod(i, w);
        assert(i == w * y + x && 0 <= x < w);
        assert(w * y == y * w) by (nonlinear_arith);
        assert(0 <= y < a.height) by (nonlinear_arith)
            requires
                w > 0,
                0 <= i < a.width * a.height,
                y == i / w,
                w == a.width,
        ;
        assert(a.at(x, y) == b.at(x, y));
    }
    assert(a.data =~= b.data);
}

/// Builds the view of a `width x height` image whose pixel `(x, y)` is
/// `f(x, y)`.
pub open spec fn view_from_fn(width: nat, height: nat, f: spec_fn(int, int) -> u8) -> GrayView {
    GrayView {
        width,
        height,
        data: Seq::new(width * height, |i: int| f(i % (width as int), i / (width as int))),
    }
}

pub proof fn lemma_view_from_fn(width: nat, height: nat, f: spec_fn(int, int) -> u8)
    ensures
        view_from_fn(width, height, f).wf(),
        forall|x: int, y: int|
            0 <= x < width && 0 <= y < height ==> #[trigger] view_from_fn(width, height, f).at(x, y)
                == f(x, y),
{
    let v = view_from_fn(width, height, f);
    assert forall|x: int, y: int| 0 <= x < width && 0 <= y < height implies #[trigger] v.at(
        x,
        y,
    ) == f(x, y) by {
        lemma_index_bounds(x, y, width as int, height as int);
        let i = y * width + x;
        lemma_row_major(x, y, width as int);
    }
}

/// An 8-bit grayscale image.
#[derive(Debug, PartialEq, Eq)]
pub struct GrayImage {
    width: u32,
    height: u32,
    data: Vec<u8>,
}

impl View for GrayImage {
    type V = GrayView;

    closed spec fn view(&self) -> GrayView {
        GrayView { width: self.width as nat, height: self.height as nat, data: self.data@ }
    }
}

impl GrayImage {
    /// A `width x height` image filled with `value`.
    pub fn from_pixel(width: u32, height: u32, value: u8) -> (img: GrayImage)
        requires
            width * height <= usize::MAX,
        ensures
            img@.width == width,
            img@.height == height,
            img@.wf(),
            forall|x: int, y: int| img@.contains(x, y) ==> #[trigger] img@.at(x, y) == value,
    {
        let n = (width as usize) * (height as usize);
        let data = vec![value; n];
        let img = GrayImage { width, height, data };
        proof {
            assert forall|x: int, y: int| img@.contains(x, y) implies #[trigger] img@.at(x, y)
                == value by {
                lemma_index_bounds(x, y, width as int, height as int);
            }
        }
        img
    }

    /// A black (all zero) `width x height` image.
    pub fn new(width: u32, height: u32) -> (img: GrayImage)
        requires
            width * height <= usize::MAX,
        ensures
            img@.width == width,
            img@.height == height,
            img@.wf(),
            forall|x: int, y: int| img@.contains(x, y) ==> #[trigger] img@.at(x, y) == 0,
    {
        GrayImage::from_pixel(width, height, 0)
    }

    /// An image over an existing row-major buffer, or `None` when the buffer
    /// does not hold exactly `width * height` pixels.
    pub fn from_raw(width: u32, height: u32, data: Vec<u8>) -> (img: Option<GrayImage>)
        ensures
            img is Some <==> data@.len() == width * height,
            img matches Some(i) ==> i@ == (GrayView {
                width: width as nat,
                height: height as nat,
                data: data@,
            }),
    {
        let w = width as u64;
        let h = height as u64;
        assert(w * h <= u64::MAX) by (nonlinear_arith)
            requires
                w <= u32::MAX,
                h <= u32::MAX,
        ;
        let n = w * h;
        if n as u128 == data.len() as u128 {
            Some(GrayImage { width, height, data })
        } else {
            None
        }
    }

    /// Builds an image from its view, given the view is well formed.
    pub fn from_view_parts(width: u32, height: u32, data: Vec<u8>) -> (img: GrayImage)
        requires
            data@.len() == width * height,
        ensures
            img@ == (GrayView { width: width as nat, height: height as nat, data: data@ }),
    {
        GrayImage { width, height, data }
    }

    pub fn width(&self) -> (w: u32)
        ensures
            w == self@.width,
    {
        self.width
    }

    pub fn height(&self) -> (h: u32)
        ensures
            h == self@.height,
    {
        self.height
    }

    pub fn dimensions(&self) -> (d: (u32, u32))
        ensures
            d.0 == self@.width,
            d.1 == self@.height,
    {
        (self.width, self.height)
    }

    /// The row-major pixel buffer.
    pub fn as_raw(&self) -> (data: &Vec<u8>)
        ensures
            data@ == self@.data,
    {
        &self.data
    }

    /// Takes the row-major pixel buffer.
    pub fn into_raw(self) -> (data: Vec<u8>)
        ensures
            data@ == self@.data,
    {
        self.data
    }

    /// Pixel `(x, y)`.
    pub fn get_pixel(&self, x: u32, y: u32) -> (v: u8)
        requires
            self@.wf(),
            x < self@.width,
            y < self@.height,
        ensures
            v == self@.at(x as int, y as int),
    {
        let _n = self.data.len();
        proof {
            lemma_index_bounds(x as int, y as int, self.width as int, self.height as int);
        }
        self.data[(y as usize) * (self.width as usize) + (x as usize)]
    }

    /// Sets pixel `(x, y)` to `v`, leaving every other pixel alone.
    pub fn put_pixel(&mut self, x: u32, y: u32, v: u8)
        requires
            old(self)@.wf(),
            x < old(self)@.width,
            y < old(self)@.height,
        ensures
            final(self)@.width == old(self)@.width,
            final(self)@.height == old(self)@.height,
            final(self)@.wf(),
            final(self)@.at(x as int, y as int) == v,
            forall|a: int, b: int|
                final(self)@.contains(a, b) && !(a == x && b == y) ==> #[trigger] final(self)@.at(a, b) == old(self)@.at(a, b),
    {
        let _n = self.data.len();
        proof {
            lemma_index_bounds(x as int, y as int, self.width as int, self.height as int);
        }
        let i = (y as usize) * (self.width as usize) + (x as usize);
        self.data.set(i, v);
        proof {
            assert forall|a: int, b: int|
                self@.contains(a, b) && !(a == x && b == y) implies #[trigger] self@.at(a, b)
                == old(self)@.at(a, b) by {
                lemma_index_bounds(a, b, self.width as int, self.height as int);
                if b * self.width + a == i {
                    assert(a == x && b == y) by (nonlinear_arith)
                        requires
                            b * self.width + a == y * self.width + x,
                            0 <= a < self.width,
                            0 <= x < self.width,
                            0 <= b,
                            0 <= y,
                    ;
                }
            }
        }
    }
}

impl Clone for GrayImage {
    fn clone(&self) -> (c: GrayImage)
        ensures
            c@ == self@,
    {
        GrayImage { width: self.width, height: self.height, data: self.data.clone() }
    }
}

} // verus!
