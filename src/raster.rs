use vstd::prelude::*;

use image::RgbaImage;

verus! {

/// One decoded frame as an RGBA8 image of the `image` crate.
#[verifier::external_body]
pub struct Raster {
    pub image: RgbaImage,
}

/// The raw RGBA bytes that an image holds, row after row.
pub uninterp spec fn raster_bytes(img: Raster) -> Seq<u8>;

/// The width that an image was made with.
pub uninterp spec fn raster_width(img: Raster) -> u32;

/// The height that an image was made with.
pub uninterp spec fn raster_height(img: Raster) -> u32;

/// Relies on `image::ImageBuffer::from_raw`: it returns `Some` exactly when
/// `4 * width` and `4 * width * height` fit in `usize` and the buffer holds at
/// least `4 * width * height` bytes, and then keeps the buffer as it is, with
/// the given width and height.
#[verifier::external_body]
fn rgba_image_from_raw(width: u32, height: u32, buf: Vec<u8>) -> (r: Raster)
    requires
        4 * width as int <= usize::MAX,
        4 * width as int * height as int <= buf@.len(),
    ensures
        raster_bytes(r) == buf@,
        raster_width(r) == width,
        raster_height(r) == height,
{
    Raster { image: RgbaImage::from_raw(width, height, buf).expect("buffer holds the whole raster") }
}

/// The red channel of a packed pixel, `((p >> 11) & 0x1F) << 3`.
pub open spec fn red_of(p: u32) -> u8 {
    ((p as int / 2048) % 32 * 8) as u8
}

/// The green channel of a packed pixel, `((p >> 5) & 0x3F) << 2`.
pub open spec fn green_of(p: u32) -> u8 {
    ((p as int / 32) % 64 * 4) as u8
}

/// The blue channel of a packed pixel, `(p & 0x1F) << 3`.
pub open spec fn blue_of(p: u32) -> u8 {
    (p as int % 32 * 8) as u8
}

/// The alpha channel of a packed pixel, `((p >> 16) & 0x1F) << 3`: 0x1F gives 0xF8.
pub open spec fn alpha_of(p: u32) -> u8 {
    ((p as int / 65536) % 32 * 8) as u8
}

/// Channel `c` (0 red, 1 green, 2 blue, 3 alpha) of a packed pixel.
pub open spec fn channel_of(p: u32, c: int) -> u8 {
    if c == 0 {
        red_of(p)
    } else if c == 1 {
        green_of(p)
    } else if c == 2 {
        blue_of(p)
    } else {
        alpha_of(p)
    }
}

/// The RGBA bytes of a sequence of packed pixels, four per pixel.
pub open spec fn rgba_spec(pixels: Seq<u32>) -> Seq<u8> {
    Seq::new(4 * pixels.len(), |i: int| channel_of(pixels[i / 4], i % 4))
}

/// Expands packed pixels into RGBA bytes.
pub fn rgba_bytes(pixels: &Vec<u32>) -> (r: Vec<u8>)
    requires
        4 * pixels@.len() <= usize::MAX,
    ensures
        r@ == rgba_spec(pixels@),
{
    let n: usize = pixels.len();
    let mut out: Vec<u8> = Vec::with_capacity(4 * n);
    let mut i: usize = 0;
    while i < n
        invariant
            n == pixels@.len(),
            4 * n <= usize::MAX,
            i <= n,
            out@ == Seq::new(4 * i as nat, |k: int| channel_of(pixels@[k / 4], k % 4)),
        decreases n - i,
    {
        let p = pixels[i];
        out.push(((p / 2048) % 32 * 8) as u8);
        out.push(((p / 32) % 64 * 4) as u8);
        out.push((p % 32 * 8) as u8);
        out.push(((p / 65536) % 32 * 8) as u8);
        assert(out@ =~= Seq::new(4 * (i + 1) as nat, |k: int| channel_of(pixels@[k / 4], k % 4)))
            by {
            assert forall|k: int| 4 * i <= k < 4 * (i + 1) implies #[trigger] out@[k] == channel_of(
                pixels@[k / 4],
                k % 4,
            ) by {
                assert(k / 4 == i);
            }
        }
        i = i + 1;
    }
    out
}

/// Builds the image of `width * height` packed pixels, row after row.
pub fn to_image(pixels: Vec<u32>, width: u32, height: u32) -> (r: Raster)
    requires
        pixels@.len() == width as int * height as int,
        4 * width as int <= usize::MAX,
        4 * width as int * height as int <= usize::MAX,
    ensures
        raster_bytes(r) == rgba_spec(pixels@),
        raster_width(r) == width,
        raster_height(r) == height,
{
    assert(4 * (width as int * height as int) == 4 * width as int * height as int) by (nonlinear_arith);
    let bytes = rgba_bytes(&pixels);
    rgba_image_from_raw(width, height, bytes)
}

} // verus!
