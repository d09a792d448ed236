//! Frames as images for the screen.
use vstd::prelude::*;

use crate::shm::{
    frame_pixels, payload, payload_byte, sequence_of, written, written_frame_is_read, SHM_RAW_MAX,
    SHM_SLOT_SIZE,
};

verus! {

/// The image type of the user interface.
#[verifier::external_type_specification]
#[verifier::external_body]
pub struct ExColorImage(egui::ColorImage);

/// The pixels of an image, row by row: red, green, blue and opacity, the colours multiplied
/// by the opacity.
pub uninterp spec fn image_pixels(image: egui::ColorImage) -> Seq<(u8, u8, u8, u8)>;

/// Width and height of an image.
pub uninterp spec fn image_size(image: egui::ColorImage) -> (nat, nat);

/// How an image shows the four bytes of a pixel. An opaque pixel is shown as it is and a fully
/// transparent one as nothing; any other keeps its opacity.
pub open spec fn shows_pixel(r: u8, g: u8, b: u8, a: u8, pixel: (u8, u8, u8, u8)) -> bool {
    &&& a == 255 ==> pixel == (r, g, b, a)
    &&& a == 0 ==> pixel == (0u8, 0u8, 0u8, 0u8)
    &&& pixel.3 == a
}

/// Whether `pixels` show the bytes `rgba`, four for each pixel.
pub open spec fn shows(rgba: Seq<u8>, pixels: Seq<(u8, u8, u8, u8)>) -> bool {
    &&& 4 * pixels.len() == rgba.len()
    &&& forall|i: int|
        0 <= i < pixels.len() ==> shows_pixel(
            rgba[4 * i],
            rgba[4 * i + 1],
            rgba[4 * i + 2],
            rgba[4 * i + 3],
            #[trigger] pixels[i],
        )
}

/// `egui::ColorImage::from_rgba_unmultiplied` makes an image of the given size with one pixel
/// for every four bytes, in order. It panics unless there are just as many bytes as the size
/// asks for. The colours of pixels that are neither opaque nor fully transparent come out of a
/// floating-point conversion and are left open here.
#[verifier::external_body]
fn image_from_rgba(width: usize, height: usize, rgba: &[u8]) -> (image: egui::ColorImage)
    requires
        width * height * 4 == rgba@.len(),
    ensures
        image_size(image) == (width as nat, height as nat),
        shows(rgba@, image_pixels(image)),
{
    egui::ColorImage::from_rgba_unmultiplied([width, height], rgba)
}

/// Tells whether so many bytes make an image of that size.
pub fn fits_image(width: u32, height: u32, len: usize) -> (fits: bool)
    ensures
        fits == (width * height * 4 == len),
{
    assert(width * height <= 0xFFFF_FFFF * 0xFFFF_FFFF) by (nonlinear_arith)
        requires
            width <= 0xFFFF_FFFF,
            height <= 0xFFFF_FFFF,
    ;
    width as u128 * height as u128 * 4 == len as u128
}

/// The image of a frame that was read.
pub fn frame_image(width: u32, height: u32, rgba: &Vec<u8>) -> (image: egui::ColorImage)
    requires
        width * height * 4 == rgba@.len(),
    ensures
        image_size(image) == (width as nat, height as nat),
        shows(rgba@, image_pixels(image)),
{
    image_from_rgba(width as usize, height as usize, rgba.as_slice())
}

/// What the screen of a worker showed is what the controller shows: a frame whose pixels fill
/// its size, written into a slot, read from it and made an image, has in every pixel the red,
/// green and blue that the screen gave, and is opaque.
pub proof fn screen_is_shown(
    slot: Seq<u8>,
    pixels: Seq<u8>,
    width: u32,
    height: u32,
    is_admin: bool,
    shown: Seq<(u8, u8, u8, u8)>,
    i: int,
)
    requires
        slot.len() == SHM_SLOT_SIZE,
        sequence_of(slot) < 0xFFFF_FFFE,
        pixels.len() == width * height * 4,
        pixels.len() <= SHM_RAW_MAX,
        shows(payload(written(slot, pixels, width, height, is_admin), pixels.len() as int), shown),
        0 <= i < width * height,
    ensures
        shown.len() == width * height,
        shown[i] == (pixels[4 * i + 2], pixels[4 * i + 1], pixels[4 * i], 255u8),
{
    written_frame_is_read(slot, pixels, width, height, is_admin);
    let read = payload(written(slot, pixels, width, height, is_admin), pixels.len() as int);
    assert(frame_pixels(pixels, width as nat, height as nat) == width * height);
    assert(read[4 * i] == payload_byte(pixels, 4 * i));
    assert(read[4 * i + 1] == payload_byte(pixels, 4 * i + 1));
    assert(read[4 * i + 2] == payload_byte(pixels, 4 * i + 2));
    assert(read[4 * i + 3] == payload_byte(pixels, 4 * i + 3));
    assert(shows_pixel(read[4 * i], read[4 * i + 1], read[4 * i + 2], read[4 * i + 3], shown[i]));
}

/// An image shows as many pixels as there are four bytes for. An opaque pixel has the red, green
/// and blue of its bytes, and no pixel another opacity than its fourth byte.
pub proof fn opaque_pixels_are_shown(rgba: Seq<u8>, shown: Seq<(u8, u8, u8, u8)>, i: int)
    requires
        shows(rgba, shown),
        0 <= i,
        4 * i + 4 <= rgba.len(),
    ensures
        4 * shown.len() == rgba.len(),
        shown[i].3 == rgba[4 * i + 3],
        rgba[4 * i + 3] == 255 ==> shown[i].0 == rgba[4 * i] && shown[i].1 == rgba[4 * i + 1]
            && shown[i].2 == rgba[4 * i + 2],
        rgba[4 * i + 3] == 0 ==> shown[i].0 == 0 && shown[i].1 == 0 && shown[i].2 == 0,
{
    assert(shows_pixel(rgba[4 * i], rgba[4 * i + 1], rgba[4 * i + 2], rgba[4 * i + 3], shown[i]));
}

} // verus!
