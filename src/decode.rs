use vstd::prelude::*;

use crate::atlas::UploadRequest;
use crate::error::AtlasError;
use crate::keys::SubImageCacheID;
use crate::page::{Data, DataType};
use crate::sampler::SamplerDesc;

verus! {

#[verifier::external_type_specification]
#[verifier::external_body]
pub struct ExImageError(image::ImageError);

/// Container format, as far as the loader's rules need to know it.
#[derive(Clone, Copy, PartialEq, Eq, Structural, Debug)]
pub enum SniffedFormat {
    Jpeg,
    Other,
}

/// The bytes open with the JPEG signature `FF D8 FF`.
pub open spec fn has_jpeg_signature(b: Seq<u8>) -> bool {
    b.len() >= 3 && b[0] == 0xFF && b[1] == 0xD8 && b[2] == 0xFF
}

/// Whether the image crate's format guess recognises the signature of `b`.
pub uninterp spec fn format_recognised(b: Seq<u8>) -> bool;

/// Width, height and RGBA8 pixels that the image crate decodes from `b` with
/// the built-in format its signature names, or `None` when no signature
/// matches or the decoder fails.
pub uninterp spec fn decoded_rgba8(b: Seq<u8>) -> Option<(u32, u32, Seq<u8>)>;

/// Relies on `image::guess_format`: it compares the leading bytes with a
/// fixed table of signatures, in which the JPEG entry is `FF D8 FF` and no
/// entry before it starts with `FF`; it fails when no entry matches.
#[verifier::external_body]
fn sniff_format(bytes: &[u8]) -> (r: Result<SniffedFormat, image::ImageError>)
    ensures
        r is Ok <==> format_recognised(bytes@),
        (r is Ok && r->Ok_0 == SniffedFormat::Jpeg) <==> has_jpeg_signature(bytes@),
{
    match image::guess_format(bytes) {
        Ok(image::ImageFormat::Jpeg) => Ok(SniffedFormat::Jpeg),
        Ok(_) => Ok(SniffedFormat::Other),
        Err(e) => Err(e),
    }
}

/// Relies on `image::load_from_memory_with_format`, given the built-in format
/// that `image::guess_format` reads from the signature, and read out through
/// `DynamicImage::to_rgba8` and `ImageBuffer::into_raw`. A built-in format
/// never consults the crate's process-wide decoding hooks, so the result
/// depends on the bytes alone.
#[verifier::external_body]
fn decode_rgba8(bytes: &[u8]) -> (r: Result<(u32, u32, Vec<u8>), image::ImageError>)
    ensures
        r is Ok <==> decoded_rgba8(bytes@) is Some,
        r matches Ok((w, h, px)) ==> decoded_rgba8(bytes@) == Some((w, h, px@)),
{
    match image::guess_format(bytes) {
        Ok(f) => match image::load_from_memory_with_format(bytes, f) {
            Ok(img) => {
                let rgba = img.to_rgba8();
                Ok((rgba.width(), rgba.height(), rgba.into_raw()))
            },
            Err(e) => Err(e),
        },
        Err(e) => Err(e),
    }
}

/// Relies on the `Display` impl of `image::ImageError` for the cause's text.
#[verifier::external_body]
fn image_error_text(e: &image::ImageError) -> String {
    e.to_string()
}

/// A table of 256 channel values: entry `v` replaces value `v`.
pub struct ChannelCurve {
    table: Vec<u8>,
}

impl View for ChannelCurve {
    type V = Seq<u8>;

    closed spec fn view(&self) -> Seq<u8> {
        self.table@
    }
}

impl ChannelCurve {
    pub open spec fn wf(&self) -> bool {
        self@.len() == 256
    }

    /// The curve given by `table`, which must have 256 entries.
    pub fn from_table(table: Vec<u8>) -> (r: Option<ChannelCurve>)
        ensures
            r is Some <==> table@.len() == 256,
            r matches Some(c) ==> c.wf() && c@ == table@,
    {
        if table.len() == 256 {
            Some(ChannelCurve { table })
        } else {
            None
        }
    }

    /// Entry `v`.
    pub fn apply(&self, v: u8) -> (r: u8)
        requires
            self.wf(),
        ensures
            r == self@[v as int],
    {
        self.table[v as usize]
    }
}

/// `px` with every value replaced by its entry in `table`.
pub open spec fn curved(px: Seq<u8>, table: Seq<u8>) -> Seq<u8> {
    Seq::new(px.len(), |i: int| table[px[i] as int])
}

/// Replaces every channel value of `pixels` by its entry in `curve`.
pub fn apply_curve(pixels: &mut Vec<u8>, curve: &ChannelCurve)
    requires
        curve.wf(),
    ensures
        final(pixels)@ == curved(old(pixels)@, curve@),
{
    let ghost start = pixels@;
    let mut i: usize = 0;
    while i < pixels.len()
        invariant
            curve.wf(),
            i <= pixels@.len(),
            pixels@.len() == start.len(),
            forall|k: int| 0 <= k < i ==> pixels@[k] == curve@[start[k] as int],
            forall|k: int| i <= k < pixels@.len() ==> pixels@[k] == start[k],
        decreases pixels@.len() - i,
    {
        let v = curve.apply(pixels[i]);
        pixels.set(i, v);
        i = i + 1;
    }
    assert(pixels@ =~= curved(start, curve@));
}

/// A decoded image: interleaved 8-bit RGBA pixels.
pub struct DecodedImage {
    pub width: u32,
    pub height: u32,
    pub pixels: Vec<u8>,
}

/// Finishes a decode: JPEG pixels are taken through `curve`, others are kept
/// as they are.
pub fn prepare_decoded(
    format: SniffedFormat,
    width: u32,
    height: u32,
    pixels: Vec<u8>,
    curve: &ChannelCurve,
) -> (r: DecodedImage)
    requires
        curve.wf(),
    ensures
        r.width == width,
        r.height == height,
        r.pixels@ == if format == SniffedFormat::Jpeg {
            curved(pixels@, curve@)
        } else {
            pixels@
        },
{
    let mut pixels = pixels;
    if format == SniffedFormat::Jpeg {
        apply_curve(&mut pixels, curve);
    }
    DecodedImage { width, height, pixels }
}

/// Sniffs the container format of `bytes`, decodes them to RGBA8 and, for
/// JPEG data, applies `curve`.
pub fn decode_image(bytes: &[u8], curve: &ChannelCurve) -> (r: Result<DecodedImage, AtlasError>)
    requires
        curve.wf(),
    ensures
        !format_recognised(bytes@) ==> r matches Err(AtlasError::UnknownFormat(_)),
        format_recognised(bytes@) && decoded_rgba8(bytes@) is None ==> r matches Err(AtlasError::Decode(_)),
        format_recognised(bytes@) && decoded_rgba8(bytes@) is Some ==> {
            let (w, h, px) = decoded_rgba8(bytes@)->Some_0;
            &&& r is Ok
            &&& r->Ok_0.width == w
            &&& r->Ok_0.height == h
            &&& r->Ok_0.pixels@ == if has_jpeg_signature(bytes@) {
                curved(px, curve@)
            } else {
                px
            }
        },
{
    let format = match sniff_format(bytes) {
        Ok(f) => f,
        Err(e) => {
            return Err(AtlasError::UnknownFormat(image_error_text(&e)));
        },
    };
    match decode_rgba8(bytes) {
        Ok((width, height, pixels)) => Ok(prepare_decoded(format, width, height, pixels, curve)),
        Err(e) => Err(AtlasError::Decode(image_error_text(&e))),
    }
}

/// The upload request for a decoded image under `cache_id`: sRGB RGBA with
/// 8-bit channels.
pub fn request_for(
    cache_id: SubImageCacheID,
    image: DecodedImage,
    sampler_desc: SamplerDesc,
) -> (r: UploadRequest)
    ensures
        r.cache_id@ == cache_id@,
        r.data_type == DataType::SRGBA,
        r.sampler_desc == sampler_desc,
        r.width == image.width,
        r.height == image.height,
        r.data matches Data::D8(px) && px@ == image.pixels@,
{
    UploadRequest {
        cache_id,
        data_type: DataType::SRGBA,
        sampler_desc,
        width: image.width,
        height: image.height,
        data: Data::D8(image.pixels),
    }
}

} // verus!
