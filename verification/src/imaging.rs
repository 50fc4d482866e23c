use vstd::prelude::*;

verus! {

/// A raw pixel buffer in RGBA order, four bytes per pixel, row-major.
#[derive(Debug, Clone)]
pub struct RgbaImage {
    pub width: u32,
    pub height: u32,
    pub bytes: Vec<u8>,
}

impl RgbaImage {
    /// The buffer holds exactly four bytes per pixel.
    pub open spec fn wf(&self) -> bool {
        self.bytes@.len() == 4 * (self.width as nat) * (self.height as nat)
    }
}

/// Stands for lossless PNG encoding of an RGBA pixel buffer: a pure
/// function of the dimensions and the bytes, so re-encoding the same pixels
/// always yields the same blob (which is what makes image dedup stable).
pub uninterp spec fn png_of(width: nat, height: nat, rgba: Seq<u8>) -> Seq<u8>;

/// Stands for decoding a PNG blob back into dimensions and RGBA bytes;
/// None when the blob is not a decodable image.
pub uninterp spec fn rgba_decoded(png: Seq<u8>) -> Option<(nat, nat, Seq<u8>)>;

/// Relies on image::RgbaImage::from_raw and DynamicImage::write_to with
/// ImageFormat::Png: the encoding is a pure function of dimensions and
/// buffer, and PNG is lossless, so decoding the blob returns exactly the
/// dimensions and RGBA bytes that went in. The buffer length matches the
/// dimensions and the dimensions are nonzero, so neither call can fail;
/// the pixel-buffer bound keeps the blob decodable within the default
/// allocation budget that the decode path enforces, so the round trip
/// holds of every blob this function returns.
#[verifier::external_body]
pub fn png_encode(img: &RgbaImage) -> (r: Vec<u8>)
    requires
        img.wf(),
        0 < img.width,
        0 < img.height,
        4 * (img.width as nat) * (img.height as nat) <= 0x1000_0000,
    ensures
        r@ == png_of(img.width as nat, img.height as nat, img.bytes@),
        rgba_decoded(r@) == Some(((img.width as nat, img.height as nat, img.bytes@))),
{
    let buf = image::RgbaImage::from_raw(img.width, img.height, img.bytes.clone()).unwrap();
    let mut out: Vec<u8> = Vec::new();
    image::DynamicImage::ImageRgba8(buf)
        .write_to(&mut std::io::Cursor::new(&mut out), image::ImageFormat::Png)
        .unwrap();
    out
}

/// Relies on image::load_from_memory and DynamicImage::to_rgba8: decoding
/// applies the crate's default allocation limits, which are fixed
/// constants, so it stays a pure function of the blob's bytes; the pixel
/// buffer that comes back holds four bytes per pixel.
#[verifier::external_body]
pub fn png_decode(png: &Vec<u8>) -> (r: Option<RgbaImage>)
    ensures
        r matches Some(img) ==> rgba_decoded(png@) == Some(
            ((img.width as nat, img.height as nat, img.bytes@)),
        ) && img.wf(),
        r is None ==> rgba_decoded(png@) is None,
{
    match image::load_from_memory(png) {
        Ok(decoded) => {
            let rgba = decoded.to_rgba8();
            let width = rgba.width();
            let height = rgba.height();
            Some(RgbaImage { width, height, bytes: rgba.into_raw() })
        }
        Err(_) => None,
    }
}

} // verus!
