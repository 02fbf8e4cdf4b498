use vstd::prelude::*;

verus! {

/// The pixels of an encoded image (PNG here) decoded and converted to 8-bit
/// RGBA, with its width and height; `None` when the bytes do not decode.
pub uninterp spec fn decoded_rgba(bytes: Seq<u8>) -> Option<(Seq<u8>, u32, u32)>;

/// Decodes `bytes` with `image::load_from_memory`, converts the image with
/// `DynamicImage::to_rgba8` and takes its `dimensions` and raw pixel bytes
/// (`ImageBuffer::into_raw`). The result is named `decoded_rgba`.
#[verifier::external_body]
fn decode_rgba(bytes: &[u8]) -> (res: Option<(Vec<u8>, u32, u32)>)
    ensures
        match res {
            Some((px, w, h)) => decoded_rgba(bytes@) == Some((px@, w, h)),
            None => decoded_rgba(bytes@) is None,
        },
{
    let image = image::load_from_memory(bytes).ok()?.to_rgba8();
    let (width, height) = image.dimensions();
    Some((image.into_raw(), width, height))
}

/// The window icon: RGBA pixels with the image's width and height.
pub struct IconImage {
    pub rgba: Vec<u8>,
    pub width: u32,
    pub height: u32,
}

/// Decodes the application icon from its PNG bytes; `None` when they do not
/// decode.
pub fn load_icon(png: &[u8]) -> (res: Option<IconImage>)
    ensures
        match res {
            Some(icon) => decoded_rgba(png@) == Some((icon.rgba@, icon.width, icon.height)),
            None => decoded_rgba(png@) is None,
        },
{
    match decode_rgba(png) {
        Some((rgba, width, height)) => Some(IconImage { rgba, width, height }),
        None => None,
    }
}

} // verus!
