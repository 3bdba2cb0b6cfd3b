use vstd::prelude::*;

verus! {

/// Mathematical view of a pixel buffer: a width and height in pixels and the
/// flat byte sequence, 4 interleaved 8-bit channels (R, G, B, A) per pixel,
/// row-major, top-to-bottom, left-to-right.
#[verifier::ext_equal]
pub struct ImgView {
    pub width: int,
    pub height: int,
    pub data: Seq<u8>,
}

impl ImgView {
    /// A buffer is well formed when it holds exactly 4 bytes per pixel.
    pub open spec fn wf(self) -> bool {
        &&& 0 <= self.width
        &&& 0 <= self.height
        &&& self.data.len() == 4 * self.width * self.height
    }

    /// Whether `(x, y)` lies in the finite pixel domain.
    pub open spec fn in_bounds(self, x: int, y: int) -> bool {
        0 <= x < self.width && 0 <= y < self.height
    }

    /// Channel `c` (0 = R, 1 = G, 2 = B, 3 = A) of the pixel at `(x, y)`.
    pub open spec fn chan(self, c: int, x: int, y: int) -> u8 {
        self.data[4 * (y * self.width + x) + c]
    }
}

/// The flat offset of a pixel's first channel stays inside a well-formed
/// buffer whenever the pixel is in bounds.
pub proof fn lemma_pixel_index(w: int, h: int, x: int, y: int)
    by (nonlinear_arith)
    requires
        0 <= x < w,
        0 <= y < h,
    ensures
        0 <= 4 * (y * w + x),
        4 * (y * w + x) + 3 < 4 * w * h,
{
}

/// An owned RGBA image: a flat interleaved 8-bit buffer plus its dimensions.
pub struct CanvasImage {
    data: Vec<u8>,
    width: u32,
    height: u32,
}

impl View for CanvasImage {
    type V = ImgView;

    closed spec fn view(&self) -> ImgView {
        ImgView { width: self.width as int, height: self.height as int, data: self.data@ }
    }
}

impl CanvasImage {
    /// Builds an image from a flat RGBA buffer. A buffer whose length does
    /// not match the dimensions is a fatal caller error, so it is excluded
    /// up front.
    pub fn from_vec_with_size(data: Vec<u8>, width: u32, height: u32) -> (image: CanvasImage)
        requires
            data@.len() == 4 * width * height,
        ensures
            image@.wf(),
            image@.width == width,
            image@.height == height,
            image@.data == data@,
    {
        CanvasImage { data, width, height }
    }

    /// The raw interleaved RGBA bytes.
    pub fn rgba_slice(&self) -> (bytes: &Vec<u8>)
        ensures
            bytes@ == self@.data,
    {
        &self.data
    }

    /// The *geometric* width of the image: with a single column of pixels the
    /// geometric width is 0, since points in geometric space have no size.
    pub fn width(&self) -> (w: u32)
        requires
            self@.width >= 1,
        ensures
            w == self@.width - 1,
    {
        self.width - 1
    }

    /// The *geometric* height of the image.
    pub fn height(&self) -> (h: u32)
        requires
            self@.height >= 1,
        ensures
            h == self@.height - 1,
    {
        self.height - 1
    }

    /// The number of pixels in the horizontal direction.
    pub fn horizontal_size(&self) -> (w: u32)
        ensures
            w == self@.width,
    {
        self.width
    }

    /// The number of pixels in the vertical direction.
    pub fn vertical_size(&self) -> (h: u32)
        ensures
            h == self@.height,
    {
        self.height
    }

    /// Bounds-checked read of one channel (0 = R, 1 = G, 2 = B, 3 = A):
    /// `Some` exactly on the finite pixel domain.
    pub fn channel(&self, c: usize, x: u32, y: u32) -> (value: Option<u8>)
        requires
            self@.wf(),
            c < 4,
        ensures
            self@.in_bounds(x as int, y as int) ==> value == Some(
                self@.chan(c as int, x as int, y as int),
            ),
            !self@.in_bounds(x as int, y as int) ==> value is None,
    {
        if x < self.width && y < self.height {
            let n = self.data.len();
            proof {
                lemma_pixel_index(self.width as int, self.height as int, x as int, y as int);
            }
            let offset: usize = 4 * ((y as usize) * (self.width as usize) + (x as usize)) + c;
            Some(self.data[offset])
        } else {
            None
        }
    }

    /// Writes one channel of an in-bounds pixel in place.
    pub fn set_channel(&mut self, c: usize, x: u32, y: u32, v: u8)
        requires
            old(self)@.wf(),
            c < 4,
            old(self)@.in_bounds(x as int, y as int),
        ensures
            final(self)@.wf(),
            final(self)@.width == old(self)@.width,
            final(self)@.height == old(self)@.height,
            final(self)@.data == old(self)@.data.update(
                4 * ((y as int) * old(self)@.width + x as int) + c as int,
                v,
            ),
    {
        let n = self.data.len();
        proof {
            lemma_pixel_index(self.width as int, self.height as int, x as int, y as int);
        }
        let offset: usize = 4 * ((y as usize) * (self.width as usize) + (x as usize)) + c;
        self.data[offset] = v;
    }

    /// Bounds-checked read of the red channel.
    pub fn r(&self, x: u32, y: u32) -> (value: Option<u8>)
        requires
            self@.wf(),
        ensures
            self@.in_bounds(x as int, y as int) ==> value == Some(
                self@.chan(0, x as int, y as int),
            ),
            !self@.in_bounds(x as int, y as int) ==> value is None,
    {
        self.channel(0, x, y)
    }

    /// Bounds-checked read of the green channel.
    pub fn g(&self, x: u32, y: u32) -> (value: Option<u8>)
        requires
            self@.wf(),
        ensures
            self@.in_bounds(x as int, y as int) ==> value == Some(
                self@.chan(1, x as int, y as int),
            ),
            !self@.in_bounds(x as int, y as int) ==> value is None,
    {
        self.channel(1, x, y)
    }

    /// Bounds-checked read of the blue channel.
    pub fn b(&self, x: u32, y: u32) -> (value: Option<u8>)
        requires
            self@.wf(),
        ensures
            self@.in_bounds(x as int, y as int) ==> value == Some(
                self@.chan(2, x as int, y as int),
            ),
            !self@.in_bounds(x as int, y as int) ==> value is None,
    {
        self.channel(2, x, y)
    }

    /// Bounds-checked read of the alpha channel.
    pub fn a(&self, x: u32, y: u32) -> (value: Option<u8>)
        requires
            self@.wf(),
        ensures
            self@.in_bounds(x as int, y as int) ==> value == Some(
                self@.chan(3, x as int, y as int),
            ),
            !self@.in_bounds(x as int, y as int) ==> value is None,
    {
        self.channel(3, x, y)
    }

    /// Bounds-checked read of a whole pixel.
    pub fn rgba(&self, x: u32, y: u32) -> (value: Option<(u8, u8, u8, u8)>)
        requires
            self@.wf(),
        ensures
            self@.in_bounds(x as int, y as int) ==> value == Some(
                (
                    self@.chan(0, x as int, y as int),
                    self@.chan(1, x as int, y as int),
                    self@.chan(2, x as int, y as int),
                    self@.chan(3, x as int, y as int),
                ),
            ),
            !self@.in_bounds(x as int, y as int) ==> value is None,
    {
        let r = self.channel(0, x, y);
        let g = self.channel(1, x, y);
        let b = self.channel(2, x, y);
        let a = self.channel(3, x, y);
        match (r, g, b, a) {
            (Some(r), Some(g), Some(b), Some(a)) => Some((r, g, b, a)),
            _ => None,
        }
    }
}

} // verus!
