use vstd::prelude::*;

verus! {

// ---------------------------------------------------------------------------
// Raster images as plain data.
//
// The library never touches files: an image is its pixel data plus its
// dimensions. The image crate decodes, encodes and resamples behind the
// wrappers below; everything the codec reads or writes in a raster is
// ordinary integer data that the verified code handles itself.
// ---------------------------------------------------------------------------

/// An 8-bit RGBA raster in row-major order, 4 bytes per pixel.
pub struct Rgba8Img {
    pub width: u32,
    pub height: u32,
    pub pixels: Vec<u8>,
}

/// A 16-bit RGBA raster in row-major order, 4 channel words per pixel.
pub struct Rgba16Img {
    pub width: u32,
    pub height: u32,
    pub pixels: Vec<u16>,
}

/// The mathematical value of an 8-bit raster.
pub ghost struct ImgView8 {
    pub width: nat,
    pub height: nat,
    pub pixels: Seq<u8>,
}

/// The mathematical value of a 16-bit raster.
pub ghost struct ImgView16 {
    pub width: nat,
    pub height: nat,
    pub pixels: Seq<u16>,
}

impl Rgba8Img {
    pub open spec fn wf(self) -> bool {
        self.pixels@.len() == 4 * (self.width as nat) * (self.height as nat)
    }

    pub open spec fn view_of(self) -> ImgView8 {
        ImgView8 { width: self.width as nat, height: self.height as nat, pixels: self.pixels@ }
    }
}

impl Rgba16Img {
    pub open spec fn wf(self) -> bool {
        self.pixels@.len() == 4 * (self.width as nat) * (self.height as nat)
    }

    pub open spec fn view_of(self) -> ImgView16 {
        ImgView16 { width: self.width as nat, height: self.height as nat, pixels: self.pixels@ }
    }
}

/// What decoding an image file (PNG or JPEG) to 8-bit RGBA yields: `None`
/// where the bytes are not a decodable image.
pub uninterp spec fn rgba8_decode_of(bytes: Seq<u8>) -> Option<ImgView8>;

/// What decoding a PNG file to 16-bit RGBA yields.
pub uninterp spec fn png16_decode_of(bytes: Seq<u8>) -> Option<ImgView16>;

/// The pixels of a raster resampled to new dimensions with Lanczos3.
pub uninterp spec fn lanczos3_of(pixels: Seq<u8>, w: nat, h: nat, nw: nat, nh: nat) -> Seq<u8>;

/// Relies on image::load_from_memory and DynamicImage::into_rgba8: decoding
/// image bytes to an 8-bit RGBA raster is a function of the bytes alone,
/// and yields a buffer of exactly width * height * 4 samples.
#[verifier::external_body]
pub fn decode_rgba8(bytes: &Vec<u8>) -> (r: Option<Rgba8Img>)
    ensures
        r is Some <==> rgba8_decode_of(bytes@) is Some,
        r is Some ==> {
            let v = rgba8_decode_of(bytes@).unwrap();
            &&& r.unwrap().view_of() == v
            &&& r.unwrap().wf()
        },
{
    match image::load_from_memory(bytes.as_slice()) {
        Ok(img) => {
            let buf = img.into_rgba8();
            let (width, height) = buf.dimensions();
            Some(Rgba8Img { width, height, pixels: buf.into_raw() })
        }
        Err(_) => None,
    }
}

/// Relies on image::load_from_memory_with_format (PNG) and
/// DynamicImage::into_rgba16: decoding PNG bytes to a 16-bit RGBA raster is
/// a function of the bytes alone, and yields width * height * 4 samples.
/// The decoder budgets its decoded buffer (at least one byte per pixel)
/// against a fixed 512 MiB allowance, so a decodable raster has at most
/// 0x2000_0000 pixels.
#[verifier::external_body]
pub fn decode_png16(bytes: &Vec<u8>) -> (r: Option<Rgba16Img>)
    ensures
        r is Some <==> png16_decode_of(bytes@) is Some,
        r is Some ==> {
            let v = png16_decode_of(bytes@).unwrap();
            &&& r.unwrap().view_of() == v
            &&& r.unwrap().wf()
        },
        r is Some ==> (r.unwrap().width as nat) * (r.unwrap().height as nat) <= 0x2000_0000,
{
    match image::load_from_memory_with_format(bytes.as_slice(), image::ImageFormat::Png) {
        Ok(img) => {
            let buf = img.into_rgba16();
            let (width, height) = buf.dimensions();
            Some(Rgba16Img { width, height, pixels: buf.into_raw() })
        },
        Err(_) => None,
    }
}

/// Relies on image's PNG encoder for 16-bit RGBA rasters: writing to an
/// in-memory buffer succeeds for valid dimensions, and PNG is lossless, so
/// decoding the output restores exactly the encoded raster. The pixel
/// bound keeps the output inside the decoder's fixed 512 MiB allowance
/// (eight bytes per 16-bit RGBA pixel), so the decode claim holds.
#[verifier::external_body]
pub fn encode_png16(width: u32, height: u32, pixels: &Vec<u16>) -> (r: Option<Vec<u8>>)
    requires
        width > 0,
        height > 0,
        (width as nat) * (height as nat) <= 0x0400_0000,
        pixels@.len() == 4 * (width as nat) * (height as nat),
    ensures
        r is Some,
        r is Some ==> png16_decode_of(r.unwrap()@) == Some(
            ImgView16 { width: width as nat, height: height as nat, pixels: pixels@ },
        ),
{
    let raw = pixels.clone();
    let buf: image::ImageBuffer<image::Rgba<u16>, Vec<u16>> =
        match image::ImageBuffer::from_raw(width, height, raw) { Some(b) => b, None => return None };
    let mut out: Vec<u8> = Vec::new();
    match buf.write_to(&mut std::io::Cursor::new(&mut out), image::ImageOutputFormat::Png) {
        Ok(()) => Some(out),
        Err(_) => None,
    }
}

/// Relies on image's PNG encoder for 8-bit RGBA rasters: writing to an
/// in-memory buffer succeeds for valid dimensions, and PNG is lossless, so
/// decoding the output restores exactly the encoded raster. The pixel
/// bound keeps the output inside the decoder's fixed 512 MiB allowance
/// (four bytes per 8-bit RGBA pixel), so the decode claim holds.
#[verifier::external_body]
pub fn encode_png8(width: u32, height: u32, pixels: &Vec<u8>) -> (r: Option<Vec<u8>>)
    requires
        width > 0,
        height > 0,
        (width as nat) * (height as nat) <= 0x0800_0000,
        pixels@.len() == 4 * (width as nat) * (height as nat),
    ensures
        r is Some,
        r is Some ==> rgba8_decode_of(r.unwrap()@) == Some(
            ImgView8 { width: width as nat, height: height as nat, pixels: pixels@ },
        ),
{
    let raw = pixels.clone();
    let buf: image::ImageBuffer<image::Rgba<u8>, Vec<u8>> =
        match image::ImageBuffer::from_raw(width, height, raw) { Some(b) => b, None => return None };
    let mut out: Vec<u8> = Vec::new();
    match buf.write_to(&mut std::io::Cursor::new(&mut out), image::ImageOutputFormat::Png) {
        Ok(()) => Some(out),
        Err(_) => None,
    }
}

/// Relies on DynamicImage::resize_exact with the Lanczos3 filter: the
/// resampled raster has exactly the requested dimensions and its pixels are
/// a function of the source raster and the dimensions alone.
#[verifier::external_body]
pub(crate) fn resize_rgba8(img: &Rgba8Img, new_width: u32, new_height: u32) -> (r: Rgba8Img)
    requires
        img.wf(),
        new_width > 0,
        new_height > 0,
        4 * (new_width as nat) * (new_height as nat) <= usize::MAX,
    ensures
        r.width == new_width,
        r.height == new_height,
        r.pixels@ == lanczos3_of(
            img.pixels@,
            img.width as nat,
            img.height as nat,
            new_width as nat,
            new_height as nat,
        ),
        r.wf(),
{
    let raw = img.pixels.clone();
    let buf: image::ImageBuffer<image::Rgba<u8>, Vec<u8>> =
        image::ImageBuffer::from_raw(img.width, img.height, raw).unwrap();
    let dyn_img = image::DynamicImage::ImageRgba8(buf);
    let resized = dyn_img.resize_exact(new_width, new_height, image::imageops::FilterType::Lanczos3);
    let out = resized.into_rgba8();
    let (width, height) = out.dimensions();
    Rgba8Img { width, height, pixels: out.into_raw() }
}

} // verus!
