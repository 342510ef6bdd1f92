//! The image codec and resampler, as far as the library relies on them.
use vstd::prelude::*;

use crate::grid::{area, GridModel, PixelGrid};

verus! {

/// The codec's error, carried only as far as the library's own error.
#[verifier::external_type_specification]
#[verifier::external_body]
pub struct ExImageError(image::ImageError);

/// What `image::load_from_memory` yields for these bytes, converted to
/// 8-bit RGB: `None` where it reports an error.
pub uninterp spec fn decoded_rgb(bytes: Seq<u8>) -> Option<GridModel>;

/// What `image::load_from_memory_with_format` yields for these bytes read as
/// JPEG, converted to 8-bit RGB: `None` where it reports an error.
pub uninterp spec fn decoded_jpeg_rgb(bytes: Seq<u8>) -> Option<GridModel>;

/// The samples that `image::imageops::resize` with the triangle filter
/// produces from a `w` by `h` RGB grid at size `nw` by `nh`.
pub uninterp spec fn triangle_resized(data: Seq<u8>, w: u32, h: u32, nw: u32, nh: u32) -> Seq<u8>;

/// Relies on image::load_from_memory (format guessed from the bytes) and
/// DynamicImage::to_rgb8, whose buffer holds three samples per pixel.
#[verifier::external_body]
pub(crate) fn decode_guessed(bytes: &[u8]) -> (r: Result<PixelGrid, image::ImageError>)
    ensures
        r is Ok <==> decoded_rgb(bytes@) is Some,
        r matches Ok(g) ==> decoded_rgb(bytes@) == Some(g@) && g.data@.len() == 3 * area(g.width, g.height),
{
    match image::load_from_memory(bytes) {
        Ok(img) => {
            let rgb = img.to_rgb8();
            Ok(PixelGrid { width: rgb.width(), height: rgb.height(), data: rgb.into_raw() })
        },
        Err(e) => Err(e),
    }
}

/// Relies on image::load_from_memory_with_format with ImageFormat::Jpeg and
/// DynamicImage::to_rgb8, whose buffer holds three samples per pixel.
#[verifier::external_body]
pub(crate) fn decode_jpeg(bytes: &[u8]) -> (r: Result<PixelGrid, image::ImageError>)
    ensures
        r is Ok <==> decoded_jpeg_rgb(bytes@) is Some,
        r matches Ok(g) ==> decoded_jpeg_rgb(bytes@) == Some(g@) && g.data@.len() == 3 * area(g.width, g.height),
{
    match image::load_from_memory_with_format(bytes, image::ImageFormat::Jpeg) {
        Ok(img) => {
            let rgb = img.to_rgb8();
            Ok(PixelGrid { width: rgb.width(), height: rgb.height(), data: rgb.into_raw() })
        },
        Err(e) => Err(e),
    }
}

/// Relies on image::imageops::resize with FilterType::Triangle: the output has
/// exactly the requested size, and a request for the source's own size is
/// answered with a copy of the source.
#[verifier::external_body]
pub(crate) fn resize_triangle(data: &Vec<u8>, w: u32, h: u32, nw: u32, nh: u32) -> (r: Vec<u8>)
    requires
        data@.len() == 3 * area(w, h),
        3 * area(nw, nh) <= usize::MAX,
        (nw == w && nh == h) || (w > 0 && h > 0 && nw > 0 && nh > 0),
    ensures
        r@.len() == 3 * area(nw, nh),
        nw == w && nh == h ==> r@ == data@,
        !(nw == w && nh == h) ==> r@ == triangle_resized(data@, w, h, nw, nh),
{
    let src = image::RgbImage::from_raw(w, h, data.clone()).unwrap();
    image::imageops::resize(&src, nw, nh, image::imageops::FilterType::Triangle).into_raw()
}

} // verus!
