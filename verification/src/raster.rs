//! RGBA images held as plain pixel buffers, and the image operations the renderer
//! needs: blank canvases, placing one image beside or below another, PNG encoding and
//! decoding of fetched marker images.
use vstd::prelude::*;
use image::ImageEncoder;
use crate::reply::{Reply, image_png, is_bytes_reply, is_text_reply, png_reply, text_reply};

verus! {

/// The model of an RGBA image: width and height in pixels, and the pixels row by row,
/// four bytes (red, green, blue, alpha) each.
pub struct Img {
    pub width: nat,
    pub height: nat,
    pub pixels: Seq<u8>,
}

/// `true` when a canvas of `width` by `height` pixels can be allocated: both sides fit
/// in 32 bits and its buffer in `isize::MAX` bytes.
pub open spec fn canvas_fits(width: nat, height: nat) -> bool {
    &&& width <= u32::MAX
    &&& height <= u32::MAX
    &&& width * height * 4 <= isize::MAX
}

/// The pixels of a fully transparent canvas.
pub open spec fn blank_pixels(width: nat, height: nat) -> Seq<u8> {
    Seq::new(width * height * 4, |i: int| 0u8)
}

/// The pixels of a bottom image after `image::imageops::overlay` has drawn a top image
/// over it with its top-left corner at (`x`, `y`).
pub uninterp spec fn overlaid(
    bottom: Seq<u8>,
    bottom_width: u32,
    bottom_height: u32,
    top: Seq<u8>,
    top_width: u32,
    top_height: u32,
    x: i64,
    y: i64,
) -> Seq<u8>;

/// What `image::load_from_memory` decodes `bytes` to, as width, height and RGBA pixels,
/// or `None` where it reports an error.
pub uninterp spec fn decoded_rgba(bytes: Seq<u8>) -> Option<(u32, u32, Seq<u8>)>;

/// The image that `image::load_from_memory` decodes `bytes` to, in its own colour type,
/// where it decodes them.
pub uninterp spec fn decoded_native(bytes: Seq<u8>) -> image::DynamicImage;

/// The PNG file that `image`'s `PngEncoder` writes for the given RGBA pixels, or `None`
/// where it reports an error.
pub uninterp spec fn png_encoding(pixels: Seq<u8>, width: u32, height: u32) -> Option<Seq<u8>>;

/// The larger of two numbers.
pub open spec fn max_nat(a: nat, b: nat) -> nat {
    if a >= b {
        a
    } else {
        b
    }
}

/// Byte `c` (0 red, 1 green, 2 blue, 3 alpha) of the pixel in column `x`, row `y` of
/// an RGBA buffer `width` pixels wide.
pub open spec fn channel(pixels: Seq<u8>, width: nat, x: int, y: int, c: int) -> u8 {
    pixels[(y * width + x) * 4 + c]
}

/// Byte `c` of what the pixel in column `x`, row `y` of `img` looks like when the image
/// is drawn on a transparent canvas, where that is known without blending: outside the
/// image, and where the image is fully transparent, the canvas stays zero; where it is
/// opaque, the image's own byte shows. `None` for a partly transparent pixel, whose
/// colour `image` blends.
pub open spec fn drawn_on_blank(img: Img, x: int, y: int, c: int) -> Option<u8> {
    if !(0 <= x < img.width && 0 <= y < img.height) {
        Some(0u8)
    } else if channel(img.pixels, img.width, x, y, 3) == 0 {
        Some(0u8)
    } else if channel(img.pixels, img.width, x, y, 3) == 255 {
        Some(channel(img.pixels, img.width, x, y, c))
    } else {
        None
    }
}

/// `b` placed to the right of `a` on a new transparent canvas as wide as both together
/// and as high as the higher one, `a` drawn first at the origin.
pub open spec fn placed_right(a: Img, b: Img) -> Img {
    let w = a.width + b.width;
    let h = max_nat(a.height, b.height);
    let first = overlaid(
        blank_pixels(w, h),
        w as u32,
        h as u32,
        a.pixels,
        a.width as u32,
        a.height as u32,
        0,
        0,
    );
    Img {
        width: w,
        height: h,
        pixels: overlaid(
            first,
            w as u32,
            h as u32,
            b.pixels,
            b.width as u32,
            b.height as u32,
            a.width as i64,
            0,
        ),
    }
}

/// `b` placed below `a` on a new transparent canvas as wide as the wider one and as high
/// as both together, `a` drawn first at the origin.
pub open spec fn placed_below(a: Img, b: Img) -> Img {
    let w = max_nat(a.width, b.width);
    let h = a.height + b.height;
    let first = overlaid(
        blank_pixels(w, h),
        w as u32,
        h as u32,
        a.pixels,
        a.width as u32,
        a.height as u32,
        0,
        0,
    );
    Img {
        width: w,
        height: h,
        pixels: overlaid(
            first,
            w as u32,
            h as u32,
            b.pixels,
            b.width as u32,
            b.height as u32,
            0,
            a.height as i64,
        ),
    }
}

/// Draws the top image over the bottom one with `image::imageops::overlay`. The bottom
/// buffer keeps its length: the crate writes the blended pixels in place, row-major,
/// four bytes a pixel. For a corner at non-negative coordinates, the crate's `Rgba`
/// blend leaves every bottom pixel outside the top image, or under a fully transparent
/// top pixel, as it was, and replaces one under a fully opaque top pixel by that pixel.
/// What it makes of a partly transparent pixel is not stated.
#[verifier::external_body]
fn overlay_pixels(
    bottom: &mut Vec<u8>,
    bottom_width: u32,
    bottom_height: u32,
    top: &Vec<u8>,
    top_width: u32,
    top_height: u32,
    x: i64,
    y: i64,
)
    requires
        old(bottom)@.len() == bottom_width * bottom_height * 4,
        top@.len() == top_width * top_height * 4,
    ensures
        final(bottom)@ == overlaid(
            old(bottom)@,
            bottom_width,
            bottom_height,
            top@,
            top_width,
            top_height,
            x,
            y,
        ),
        final(bottom)@.len() == old(bottom)@.len(),
        0 <= x && 0 <= y ==> forall|px: int, py: int, c: int|
            #![trigger channel(final(bottom)@, bottom_width as nat, px, py, c)]
            0 <= px < bottom_width && 0 <= py < bottom_height && 0 <= c < 4 && !(x <= px < x
                + top_width && y <= py < y + top_height && channel(
                top@,
                top_width as nat,
                px - x,
                py - y,
                3,
            ) != 0) ==> channel(final(bottom)@, bottom_width as nat, px, py, c) == channel(
                old(bottom)@,
                bottom_width as nat,
                px,
                py,
                c,
            ),
        0 <= x && 0 <= y ==> forall|px: int, py: int, c: int|
            #![trigger channel(final(bottom)@, bottom_width as nat, px, py, c)]
            0 <= px < bottom_width && 0 <= py < bottom_height && 0 <= c < 4 && x <= px < x
                + top_width && y <= py < y + top_height && channel(
                top@,
                top_width as nat,
                px - x,
                py - y,
                3,
            ) == 255 ==> channel(final(bottom)@, bottom_width as nat, px, py, c) == channel(
                top@,
                top_width as nat,
                px - x,
                py - y,
                c,
            ),
{
    let raw = std::mem::take(bottom);
    let mut canvas = image::RgbaImage::from_raw(bottom_width, bottom_height, raw).unwrap();
    let source = image::ImageBuffer::<image::Rgba<u8>, &[u8]>::from_raw(
        top_width, top_height, top.as_slice()).unwrap();
    image::imageops::overlay(&mut canvas, &source, x, y);
    *bottom = canvas.into_raw();
}

/// Decodes an image file with `image::load_from_memory`, and converts a copy of the
/// decoded image to RGBA (`to_rgba8`). The crate returns the RGBA pixels in a buffer of
/// exactly width times height times four bytes. The decoded image itself is handed back
/// as the crate made it, in its own colour type; `load_from_memory` reads nothing but
/// the bytes, so that image is a function of them. What it holds is not stated: the
/// library carries it to the caller, and reads the RGBA copy.
#[verifier::external_body]
fn decode_rgba(bytes: &[u8]) -> (r: Result<(image::DynamicImage, u32, u32, Vec<u8>), image::ImageError>)
    ensures
        r is Ok <==> decoded_rgba(bytes@) is Some,
        r matches Ok((_, w, h, px)) ==> decoded_rgba(bytes@) == Some((w, h, px@)) && px@.len() == w
            * h * 4,
        r matches Ok((n, _, _, _)) ==> n == decoded_native(bytes@),
{
    let img = image::load_from_memory(bytes)?;
    let rgba = img.to_rgba8();
    Ok((img, rgba.width(), rgba.height(), rgba.into_raw()))
}

/// Writes RGBA pixels as a PNG file with `image`'s `PngEncoder` (`ImageEncoder::write_image`
/// into an in-memory cursor). The file holds the pixels as 8-bit RGBA with no other
/// chunk than the header, the data and the end. `image::load_from_memory` reads such a
/// file back to the same size and pixels as long as the pixel buffer fits the 512 MiB
/// that `image` lets a decoder allocate by default (`PNG_ROUND_TRIP_BYTES`); the `png`
/// decoder, under its own limit of the same size, reserves one row of it.
#[verifier::external_body]
fn encode_png_pixels(pixels: &Vec<u8>, width: u32, height: u32) -> (r: Result<Vec<u8>, image::ImageError>)
    requires
        pixels@.len() == width * height * 4,
    ensures
        r is Ok <==> png_encoding(pixels@, width, height) is Some,
        r matches Ok(png) ==> png_encoding(pixels@, width, height) == Some(png@),
        r matches Ok(png) ==> (pixels@.len() <= PNG_ROUND_TRIP_BYTES ==> decoded_rgba(png@) == Some(
            (width, height, pixels@),
        )),
{
    let mut cursor = std::io::Cursor::new(Vec::new());
    image::codecs::png::PngEncoder::new(&mut cursor).write_image(
        pixels, width, height, image::ExtendedColorType::Rgba8)?;
    Ok(cursor.into_inner())
}

/// The largest pixel buffer, in bytes, for which a PNG written by `encode_image` is
/// promised to decode back to the same pixels: the 512 MiB that `image` allows a decoder
/// to allocate by default.
pub const PNG_ROUND_TRIP_BYTES: usize = 536870912;

/// An image as decoded by the `image` crate.
#[verifier::external_type_specification]
#[verifier::external_body]
pub struct ExDynamicImage(image::DynamicImage);

/// An error of the `image` crate.
#[verifier::external_type_specification]
#[verifier::external_body]
pub struct ExImageError(image::ImageError);

/// The product of two 32-bit sides fits in 64 bits.
pub(crate) proof fn lemma_area_bound(width: u32, height: u32)
    ensures
        0 <= width * height <= u32::MAX * u32::MAX,
{
    assert(0 <= width * height <= u32::MAX * u32::MAX) by (nonlinear_arith)
        requires
            width <= u32::MAX,
            height <= u32::MAX,
    ;
}

/// Every byte of a pixel inside a blank canvas is zero.
proof fn lemma_blank_channel(width: nat, height: nat, x: int, y: int, c: int)
    requires
        0 <= x < width,
        0 <= y < height,
        0 <= c < 4,
    ensures
        channel(blank_pixels(width, height), width, x, y, c) == 0,
{
    assert(0 <= (y * width + x) * 4 + c < width * height * 4) by (nonlinear_arith)
        requires
            0 <= x < width,
            0 <= y < height,
            0 <= c < 4,
    ;
}

/// An RGBA image. Its buffer always holds exactly four bytes per pixel.
#[derive(Debug)]
pub struct Raster {
    width: u32,
    height: u32,
    pixels: Vec<u8>,
}

impl View for Raster {
    type V = Img;

    closed spec fn view(&self) -> Img {
        Img { width: self.width as nat, height: self.height as nat, pixels: self.pixels@ }
    }
}

impl Raster {
    #[verifier::type_invariant]
    spec fn buffer_matches_size(self) -> bool {
        self.pixels@.len() == self.width * self.height * 4
    }

    /// The image of the given size with the given RGBA pixels, or `None` where the buffer
    /// does not hold exactly four bytes per pixel.
    pub fn from_rgba(width: u32, height: u32, pixels: Vec<u8>) -> (r: Option<Raster>)
        ensures
            r is Some <==> pixels@.len() == width * height * 4,
            r matches Some(img) ==> img@ == (Img {
                width: width as nat,
                height: height as nat,
                pixels: pixels@,
            }),
    {
        proof {
            lemma_area_bound(width, height);
        }
        let wide = (width as u64) * (height as u64);
        assert(wide as int == width as int * height as int);
        let len = pixels.len();
        if wide > (usize::MAX as u64) / 4 {
            assert(pixels@.len() != width * height * 4);
            return None;
        }
        let expected: usize = (wide as usize) * 4;
        if len == expected {
            Some(Raster { width, height, pixels })
        } else {
            None
        }
    }

    /// A fully transparent image of the given size (what `DynamicImage::new_rgba8` gives).
    pub fn blank(width: u32, height: u32) -> (r: Raster)
        requires
            canvas_fits(width as nat, height as nat),
        ensures
            r@ == (Img {
                width: width as nat,
                height: height as nat,
                pixels: blank_pixels(width as nat, height as nat),
            }),
    {
        let n: usize = (width as usize) * (height as usize) * 4;
        let pixels: Vec<u8> = vec![0u8; n];
        assert(pixels@ =~= blank_pixels(width as nat, height as nat));
        Raster { width, height, pixels }
    }

    /// Width in pixels.
    pub fn width(&self) -> (w: u32)
        ensures
            w == self@.width,
    {
        self.width
    }

    /// Height in pixels.
    pub fn height(&self) -> (h: u32)
        ensures
            h == self@.height,
    {
        self.height
    }

    /// The RGBA pixels, row by row.
    pub fn pixels(&self) -> (p: &Vec<u8>)
        ensures
            p@ == self@.pixels,
    {
        &self.pixels
    }

    /// The RGBA pixels, row by row, taking the image apart.
    pub fn into_pixels(self) -> (p: Vec<u8>)
        ensures
            p@ == self@.pixels,
    {
        self.pixels
    }

    /// This image with `top` drawn over it, its top-left corner at (`x`, `y`).
    fn drawn(self, top: &Raster, x: i64, y: i64) -> (r: Raster)
        ensures
            r@ == (Img {
                width: self@.width,
                height: self@.height,
                pixels: overlaid(
                    self@.pixels,
                    self@.width as u32,
                    self@.height as u32,
                    top@.pixels,
                    top@.width as u32,
                    top@.height as u32,
                    x,
                    y,
                ),
            }),
            0 <= x && 0 <= y ==> forall|px: int, py: int, c: int|
                #![trigger channel(r@.pixels, r@.width, px, py, c)]
                0 <= px < r@.width && 0 <= py < r@.height && 0 <= c < 4 && !(x <= px < x
                    + top@.width && y <= py < y + top@.height && channel(
                    top@.pixels,
                    top@.width,
                    px - x,
                    py - y,
                    3,
                ) != 0) ==> channel(r@.pixels, r@.width, px, py, c) == channel(
                    self@.pixels,
                    self@.width,
                    px,
                    py,
                    c,
                ),
            0 <= x && 0 <= y ==> forall|px: int, py: int, c: int|
                #![trigger channel(r@.pixels, r@.width, px, py, c)]
                0 <= px < r@.width && 0 <= py < r@.height && 0 <= c < 4 && x <= px < x
                    + top@.width && y <= py < y + top@.height && channel(
                    top@.pixels,
                    top@.width,
                    px - x,
                    py - y,
                    3,
                ) == 255 ==> channel(r@.pixels, r@.width, px, py, c) == channel(
                    top@.pixels,
                    top@.width,
                    px - x,
                    py - y,
                    c,
                ),
    {
        proof {
            use_type_invariant(&self);
            use_type_invariant(top);
        }
        let Raster { width, height, pixels } = self;
        let mut pixels = pixels;
        overlay_pixels(&mut pixels, width, height, &top.pixels, top.width, top.height, x, y);
        Raster { width, height, pixels }
    }

    /// `b` to the right of `a` on a new canvas (the "right" step of a multi-map).
    pub fn place_right(a: &Raster, b: &Raster) -> (r: Raster)
        requires
            canvas_fits(a@.width + b@.width, max_nat(a@.height, b@.height)),
        ensures
            r@ == placed_right(a@, b@),
            forall|x: int, y: int, c: int|
                #![trigger channel(r@.pixels, r@.width, x, y, c)]
                0 <= x < r@.width && 0 <= y < r@.height && 0 <= c < 4 ==> {
                    let known = if x < a@.width {
                        drawn_on_blank(a@, x, y, c)
                    } else {
                        drawn_on_blank(b@, x - a@.width, y, c)
                    };
                    known matches Some(v) ==> channel(r@.pixels, r@.width, x, y, c) == v
                },
    {
        let w = a.width + b.width;
        let h = if a.height >= b.height { a.height } else { b.height };
        let canvas = Raster::blank(w, h);
        let ghost blank = canvas@;
        let canvas = canvas.drawn(a, 0, 0);
        let ghost first = canvas@;
        let r = canvas.drawn(b, a.width as i64, 0);
        assert forall|x: int, y: int, c: int|
            #![trigger channel(r@.pixels, r@.width, x, y, c)]
            0 <= x < r@.width && 0 <= y < r@.height && 0 <= c < 4 implies {
                let known = if x < a@.width {
                    drawn_on_blank(a@, x, y, c)
                } else {
                    drawn_on_blank(b@, x - a@.width, y, c)
                };
                known matches Some(v) ==> channel(r@.pixels, r@.width, x, y, c) == v
            } by {
            lemma_blank_channel(blank.width, blank.height, x, y, c);
            let _ = channel(first.pixels, first.width, x, y, c);
            let _ = channel(r@.pixels, r@.width, x, y, c);
        }
        r
    }

    /// `b` below `a` on a new canvas (the "bottom" step of a multi-map).
    pub fn place_below(a: &Raster, b: &Raster) -> (r: Raster)
        requires
            canvas_fits(max_nat(a@.width, b@.width), a@.height + b@.height),
        ensures
            r@ == placed_below(a@, b@),
            forall|x: int, y: int, c: int|
                #![trigger channel(r@.pixels, r@.width, x, y, c)]
                0 <= x < r@.width && 0 <= y < r@.height && 0 <= c < 4 ==> {
                    let known = if y < a@.height {
                        drawn_on_blank(a@, x, y, c)
                    } else {
                        drawn_on_blank(b@, x, y - a@.height, c)
                    };
                    known matches Some(v) ==> channel(r@.pixels, r@.width, x, y, c) == v
                },
    {
        let w = if a.width >= b.width { a.width } else { b.width };
        let h = a.height + b.height;
        let canvas = Raster::blank(w, h);
        let ghost blank = canvas@;
        let canvas = canvas.drawn(a, 0, 0);
        let ghost first = canvas@;
        let r = canvas.drawn(b, 0, a.height as i64);
        assert forall|x: int, y: int, c: int|
            #![trigger channel(r@.pixels, r@.width, x, y, c)]
            0 <= x < r@.width && 0 <= y < r@.height && 0 <= c < 4 implies {
                let known = if y < a@.height {
                    drawn_on_blank(a@, x, y, c)
                } else {
                    drawn_on_blank(b@, x, y - a@.height, c)
                };
                known matches Some(v) ==> channel(r@.pixels, r@.width, x, y, c) == v
            } by {
            lemma_blank_channel(blank.width, blank.height, x, y, c);
            let _ = channel(first.pixels, first.width, x, y, c);
            let _ = channel(r@.pixels, r@.width, x, y, c);
        }
        r
    }
}

/// Why an image file could not be used.
#[derive(Debug)]
pub enum DecodeError {
    /// The `image` crate could not decode the file.
    Undecodable(image::ImageError),
}

/// A decoded image file: the image as the `image` crate decoded it, in its own colour
/// type, and its pixels as RGBA.
pub struct DecodedImage {
    /// The decoded image, unconverted.
    pub native: image::DynamicImage,
    /// The same image converted to RGBA.
    pub rgba: Raster,
}

/// Decodes a fetched image file (PNG, JPEG, GIF, WebP, BMP, ICO).
pub fn decode_image(bytes: &[u8]) -> (r: Result<DecodedImage, DecodeError>)
    ensures
        r is Ok <==> decoded_rgba(bytes@) is Some,
        r matches Ok(img) ==> decoded_rgba(bytes@) == Some(
            (img.rgba@.width as u32, img.rgba@.height as u32, img.rgba@.pixels),
        ),
        r matches Ok(img) ==> img.native == decoded_native(bytes@),
{
    match decode_rgba(bytes) {
        Ok((native, w, h, px)) => Ok(DecodedImage { native, rgba: Raster::from_rgba(w, h, px).unwrap() }),
        Err(e) => Err(DecodeError::Undecodable(e)),
    }
}

/// The PNG reply for an image: the encoded file as `image/png`, or a 500 reply saying
/// `image encoding error` where encoding fails. Decoding the file gives back the image,
/// for images of up to `PNG_ROUND_TRIP_BYTES` bytes of pixels.
pub fn encode_image(img: &Raster) -> (r: Reply)
    ensures
        match png_encoding(img@.pixels, img@.width as u32, img@.height as u32) {
            Some(png) => {
                &&& is_bytes_reply(r, 200, image_png(), png)
                &&& img@.pixels.len() <= PNG_ROUND_TRIP_BYTES ==> decoded_rgba(png) == Some(
                    (img@.width as u32, img@.height as u32, img@.pixels),
                )
            },
            None => is_text_reply(r, 500, "image encoding error"@),
        },
{
    proof {
        use_type_invariant(img);
    }
    match encode_png_pixels(&img.pixels, img.width, img.height) {
        Ok(png) => png_reply(png),
        Err(_) => text_reply(500, "image encoding error"),
    }
}

} // verus!
