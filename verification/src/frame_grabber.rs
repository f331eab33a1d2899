//! Frames as the grabber thread produces them, with their size in 32-bit numbers.
use crate::common::crop_rows;
use crate::screen_capture::frame::crop_rgba_image;
use crate::screen_capture::{swap_red_blue, swap_red_blue_in_place};
use vstd::prelude::*;

verus! {

/// A frame of RGBA pixels, four bytes per pixel, row after row.
#[derive(Debug, Default, Clone)]
pub struct CapturedFrame {
    pub width: u32,
    pub height: u32,
    pub rgba_data: Vec<u8>,
}

impl CapturedFrame {
    /// A frame made of BGRA bytes, turned into RGBA at once.
    pub fn from_bgra(width: u32, height: u32, bgra_buffer: Vec<u8>) -> (frame: Self)
        ensures
            frame.width == width,
            frame.height == height,
            frame.rgba_data@ == swap_red_blue(bgra_buffer@),
    {
        let mut bgra_buffer = bgra_buffer;
        swap_red_blue_in_place(bgra_buffer.as_mut_slice());
        Self { width, height, rgba_data: bgra_buffer }
    }

    /// The `view_width` by `view_height` pixels of the frame whose top left pixel is `(x, y)`,
    /// or none when that area leaves the frame.
    pub fn view(self, x: u32, y: u32, view_width: u32, view_height: u32) -> (cropped: Option<Self>)
        requires
            4 * self.width * self.height <= self.rgba_data@.len(),
        ensures
            x + view_width <= self.width && y + view_height <= self.height ==> (cropped matches Some(c)
                && c.width == view_width && c.height == view_height && c.rgba_data@ == crop_rows(
                self.rgba_data@,
                self.width as int,
                x as int,
                y as int,
                view_width as int,
                view_height as nat,
            )),
            !(x + view_width <= self.width && y + view_height <= self.height) ==> cropped is None,
    {
        if (x as u64) + (view_width as u64) > (self.width as u64) || (y as u64) + (view_height as u64)
            > (self.height as u64) {
            return None;
        }
        let cropped_image = crop_rgba_image(self.width, self.height, self.rgba_data, x, y, view_width, view_height);
        Some(Self { width: view_width, height: view_height, rgba_data: cropped_image })
    }
}

} // verus!
