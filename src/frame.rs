use vstd::prelude::*;

verus! {

/// A borrowed RGB frame: `width * height` pixels of three bytes, row by row.
pub struct Frame<'a> {
    pub data: &'a [u8],
    pub width: u32,
    pub height: u32,
}

/// The latest RGB frame delivered by a capture source.
pub struct FrameBuffer {
    pub data: Vec<u8>,
    pub width: u32,
    pub height: u32,
}

impl FrameBuffer {
    /// An empty buffer, before any frame arrived.
    pub fn new() -> (r: FrameBuffer)
        ensures
            r.data@.len() == 0,
            r.width == 0,
            r.height == 0,
    {
        FrameBuffer { data: Vec::new(), width: 0, height: 0 }
    }

    /// Replaces the held frame.
    pub fn update(&mut self, data: Vec<u8>, width: u32, height: u32)
        ensures
            final(self).data@ == data@,
            final(self).width == width,
            final(self).height == height,
    {
        self.data = data;
        self.width = width;
        self.height = height;
    }

    /// Borrows the held frame.
    pub fn to_frame(&self) -> (r: Frame<'_>)
        ensures
            r.data@ == self.data@,
            r.width == self.width,
            r.height == self.height,
    {
        Frame { data: self.data.as_slice(), width: self.width, height: self.height }
    }
}

/// An owned RGB image: three bytes per pixel, row by row.
pub struct RgbImage {
    pub width: u32,
    pub height: u32,
    pub data: Vec<u8>,
}

impl RgbImage {
    /// The buffer holds exactly the image's pixels.
    pub open spec fn wf(&self) -> bool {
        self.data@.len() == 3 * self.width * self.height
    }
}

/// Byte `k` of the `side` by `side` canvas that holds the `width` by `height`
/// image `data` centered, with black around it.
pub open spec fn padded_byte(data: Seq<u8>, width: int, height: int, side: int, k: int) -> u8 {
    let c = k % 3;
    let px = (k / 3) % side;
    let py = (k / 3) / side;
    let ox = (side - width) / 2;
    let oy = (side - height) / 2;
    if ox <= px < ox + width && oy <= py < oy + height {
        data[((py - oy) * width + (px - ox)) * 3 + c]
    } else {
        0
    }
}

/// The side of the square canvas for a `width` by `height` frame.
pub open spec fn pad_side(width: int, height: int) -> int {
    if width >= height {
        width
    } else {
        height
    }
}

proof fn lemma_pixel_in_bounds(a: int, b: int, c: int, width: int, height: int)
    requires
        0 <= a < height,
        0 <= b < width,
        0 <= c < 3,
    ensures
        0 <= a * width,
        0 <= (a * width + b) * 3 + c < 3 * width * height,
{
    assert(0 <= a * width) by (nonlinear_arith)
        requires
            0 <= a,
            0 <= width,
    ;
    assert(0 <= (a * width + b) * 3 + c < 3 * width * height) by (nonlinear_arith)
        requires
            0 <= a < height,
            0 <= b < width,
            0 <= c < 3,
    ;
}

/// Pads a frame to a square canvas whose side is its larger dimension, with
/// the frame centered and the border black.
pub fn pad_frame(frame: &Frame) -> (r: RgbImage)
    requires
        frame.data@.len() >= 3 * frame.width * frame.height,
        3 * pad_side(frame.width as int, frame.height as int) * pad_side(
            frame.width as int,
            frame.height as int,
        ) <= usize::MAX,
    ensures
        r.wf(),
        r.width == pad_side(frame.width as int, frame.height as int),
        r.height == r.width,
        forall|k: int|
            0 <= k < r.data@.len() ==> #[trigger] r.data@[k] == padded_byte(
                frame.data@,
                frame.width as int,
                frame.height as int,
                r.width as int,
                k,
            ),
{
    let width = frame.width;
    let height = frame.height;
    let side: u32 = if width >= height { width } else { height };
    assert(3 * side <= 3 * side * side) by (nonlinear_arith);
    let total: usize = 3 * side as usize * side as usize;
    let ox: u32 = (side - width) / 2;
    let oy: u32 = (side - height) / 2;
    let len: usize = frame.data.len();
    let mut data: Vec<u8> = Vec::with_capacity(total);
    let mut k: usize = 0;
    while k < total
        invariant
            frame.data@.len() >= 3 * width * height,
            len == frame.data@.len(),
            width == frame.width,
            height == frame.height,
            side == pad_side(width as int, height as int),
            total == 3 * side * side,
            ox == (side - width) / 2,
            oy == (side - height) / 2,
            0 <= k <= total,
            data@.len() == k,
            forall|j: int|
                0 <= j < k ==> #[trigger] data@[j] == padded_byte(
                    frame.data@,
                    width as int,
                    height as int,
                    side as int,
                    j,
                ),
        decreases total - k,
    {
        assert(side > 0) by (nonlinear_arith)
            requires
                k < total,
                total == 3 * side * side,
        ;
        let c: usize = k % 3;
        let p: usize = k / 3;
        let px: usize = p % side as usize;
        let py: usize = p / side as usize;
        let value: u8 = if px >= ox as usize && px < ox as usize + width as usize && py >= oy as usize
            && py < oy as usize + height as usize {
            let a: usize = py - oy as usize;
            let b: usize = px - ox as usize;
            proof {
                lemma_pixel_in_bounds(a as int, b as int, c as int, width as int, height as int);
            }
            frame.data[(a * width as usize + b) * 3 + c]
        } else {
            0
        };
        data.push(value);
        k = k + 1;
    }
    RgbImage { width: side, height: side, data }
}

/// What nearest-neighbour resampling of a `width` by `height` RGB image to
/// `target` pixels square yields.
pub uninterp spec fn nearest_resized(data: Seq<u8>, width: nat, height: nat, target: nat) -> Seq<u8>;

/// Relies on `image::imageops::resize` with `FilterType::Nearest` over an
/// `ImageBuffer<Rgb<u8>, Vec<u8>>`: the result is `target` pixels square with
/// three bytes each, a copy of the source when the size is unchanged, and
/// black when the source is empty. `ImageBuffer::from_raw` accepts the buffer
/// because it holds exactly the image's pixels.
#[verifier::external_body]
fn resize_nearest(data: &Vec<u8>, width: u32, height: u32, target: u32) -> (r: Vec<u8>)
    requires
        data@.len() == 3 * width * height,
        4 * width * target <= usize::MAX,
        4 * target * target <= usize::MAX,
    ensures
        r@ == nearest_resized(data@, width as nat, height as nat, target as nat),
        r@.len() == 3 * target * target,
        width == target && height == target ==> r@ == data@,
        width == 0 || height == 0 ==> forall|k: int| 0 <= k < r@.len() ==> r@[k] == 0,
{
    let source = image::ImageBuffer::<image::Rgb<u8>, Vec<u8>>::from_raw(width, height, data.clone())
        .unwrap();
    image::imageops::resize(&source, target, target, image::imageops::FilterType::Nearest).into_raw()
}

/// Resamples an image to `target_size` pixels square, taking the nearest
/// source pixel.
pub fn resize_image(image: &RgbImage, target_size: u32) -> (r: RgbImage)
    requires
        image.wf(),
        4 * image.width * target_size <= usize::MAX,
        4 * target_size * target_size <= usize::MAX,
    ensures
        r.wf(),
        r.width == target_size,
        r.height == target_size,
        r.data@ == nearest_resized(
            image.data@,
            image.width as nat,
            image.height as nat,
            target_size as nat,
        ),
        image.width == target_size && image.height == target_size ==> r.data@ == image.data@,
{
    let data = resize_nearest(&image.data, image.width, image.height, target_size);
    RgbImage { width: target_size, height: target_size, data }
}

} // verus!
