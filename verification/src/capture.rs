//! Grabbing a region out of a captured screen.
use crate::common::crop_rows;
use vstd::prelude::*;

verus! {

/// A region of the screen, in pixels.
#[derive(Debug, Clone, Copy)]
pub struct ScreenArea {
    pub x: u32,
    pub y: u32,
    pub width: u32,
    pub height: u32,
}

/// A captured screen (or region of it): BGRA bytes, four per pixel, row after row.
pub struct ScreenData {
    pub data: Vec<u8>,
    pub width: u32,
    pub height: u32,
}

/// The region can be read out of a buffer of `len` bytes holding rows `width` pixels
/// wide, and every offset on the way fits the 32-bit arithmetic that computes it.
pub open spec fn area_readable(len: int, width: u32, area: ScreenArea) -> bool {
    &&& area.y + area.height <= u32::MAX
    &&& area.width * area.height * 4 <= u32::MAX
    &&& area.height > 0 ==> {
        let last_start = ((area.y + area.height - 1) * width + area.x) * 4;
        &&& last_start <= u32::MAX
        &&& last_start + area.width * 4 <= len
    }
}

/// Copies the rows of `area` out of `buffer`, whose rows are `width` pixels of four bytes.
pub fn extract_area(buffer: &[u8], width: u32, area: &ScreenArea) -> (area_buffer: Vec<u8>)
    requires
        area_readable(buffer@.len() as int, width, *area),
    ensures
        area_buffer@ == crop_rows(
            buffer@,
            width as int,
            area.x as int,
            area.y as int,
            area.width as int,
            area.height as nat,
        ),
{
    let bytes_per_pixel: u32 = 4;
    let mut area_buffer: Vec<u8> = Vec::with_capacity(
        (area.width * area.height * bytes_per_pixel) as usize,
    );
    let buffer_len = buffer.len();
    let end_row = area.y + area.height;
    let mut y = area.y;
    while y < end_row
        invariant
            area_readable(buffer@.len() as int, width, *area),
            end_row == area.y + area.height,
            bytes_per_pixel == 4,
            buffer_len == buffer@.len(),
            area.y <= y <= end_row,
            area_buffer@ == crop_rows(
                buffer@,
                width as int,
                area.x as int,
                area.y as int,
                area.width as int,
                (y - area.y) as nat,
            ),
        decreases end_row - y,
    {
        let ghost last = area.y + area.height - 1;
        assert(y * width <= last * width) by (nonlinear_arith)
            requires
                y <= last,
        ;
        assert(area.width * 4 <= area.width * area.height * 4) by (nonlinear_arith)
            requires
                area.height >= 1,
        ;
        assert((y * width + area.x) * 4 <= (last * width + area.x) * 4) by (nonlinear_arith)
            requires
                y * width <= last * width,
        ;
        let start = ((y * width + area.x) * bytes_per_pixel) as usize;
        let row_bytes = area.width * bytes_per_pixel;
        let end = start + row_bytes as usize;
        area_buffer.extend_from_slice(&buffer[start..end]);
        y = y + 1;
        assert(area_buffer@ =~= crop_rows(
            buffer@,
            width as int,
            area.x as int,
            area.y as int,
            area.width as int,
            (y - area.y) as nat,
        ));
    }
    area_buffer
}

/// What a capture of the whole screen becomes: the region when one is asked for, the
/// whole screen otherwise, with the matching size.
pub fn screen_data_from_capture(buffer: Vec<u8>, width: u32, height: u32, area: Option<ScreenArea>) -> (screen: ScreenData)
    requires
        area matches Some(a) ==> area_readable(buffer@.len() as int, width, a),
    ensures
        match area {
            Some(a) => {
                &&& screen.data@ == crop_rows(
                    buffer@,
                    width as int,
                    a.x as int,
                    a.y as int,
                    a.width as int,
                    a.height as nat,
                )
                &&& screen.width == a.width
                &&& screen.height == a.height
            },
            None => screen.data@ == buffer@ && screen.width == width && screen.height == height,
        },
{
    match area {
        Some(a) => {
            let data = extract_area(&buffer, width, &a);
            ScreenData { data, width: a.width, height: a.height }
        },
        None => ScreenData { data: buffer, width, height },
    }
}

} // verus!
