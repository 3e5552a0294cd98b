//! Decoded image state.
//!
//! A loaded image is held as plain values: its dimensions and its RGBA
//! pixels. The decoder of the `image` crate produces them from the raw bytes
//! of an image file.

use vstd::prelude::*;

verus! {

/// The state of a loaded image document.
pub struct State {
    pub width: u32,
    pub height: u32,
    pub rgba: Vec<u8>,
}

impl State {
    /// The pixel buffer covers the stated dimensions, four bytes per pixel.
    pub open spec fn wf(self) -> bool {
        self.rgba@.len() >= 4 * self.width * self.height
    }
}

/// What the decoder returns on given bytes: dimensions and RGBA pixels, or
/// nothing when the bytes are not a readable image. Decoding depends on the
/// bytes alone.
pub uninterp spec fn decoded_image(bytes: Seq<u8>) -> Option<(u32, u32, Seq<u8>)>;

impl State {
    /// Relies on `image::load_from_memory`, which guesses the format and
    /// decodes purely from the given bytes, and on
    /// `DynamicImage::into_rgba8` with `ImageBuffer::{width, height,
    /// into_vec}`: the returned buffer holds at least `4 * width * height`
    /// bytes (`ImageBuffer::from_raw` checks exactly that bound).
    #[verifier::external_body]
    pub fn load(bytes: &Vec<u8>) -> (r: Option<State>)
        ensures
            match r {
                Some(s) => decoded_image(bytes@) == Some((s.width, s.height, s.rgba@)) && s.wf(),
                None => decoded_image(bytes@) is None,
            },
    {
        match image::load_from_memory(bytes.as_slice()) {
            Ok(img) => {
                let rgba = img.into_rgba8();
                let width = rgba.width();
                let height = rgba.height();
                Some(State { width, height, rgba: rgba.into_vec() })
            }
            Err(_) => None,
        }
    }
}

} // verus!
