//! A captured frame: RGBA pixels with their size.
use crate::common::{crop_rows, RgbaBuffer};
use crate::screen_capture::{swap_red_blue, swap_red_blue_in_place};
use image::{GenericImageView, ImageBuffer, RgbaImage};
use regex::Regex;
use vstd::prelude::*;

verus! {

/// A frame of RGBA pixels, four bytes per pixel, row after row.
#[derive(Debug, Default, Clone)]
pub struct CapturedFrame {
    pub width: usize,
    pub height: usize,
    pub rgba_data: Vec<u8>,
}

/// `ImageBuffer::from_vec`, `GenericImageView::view` and `SubImage::to_image`: the
/// `view_width` by `view_height` pixels of the RGBA image whose top left pixel is `(x, y)`,
/// row after row. The source image is `width` pixels wide and `height` high; its pixel
/// `(i, j)` is the four bytes at `4 * (j * width + i)`.
#[verifier::external_body]
pub(crate) fn crop_rgba_image(
    width: u32,
    height: u32,
    data: Vec<u8>,
    x: u32,
    y: u32,
    view_width: u32,
    view_height: u32,
) -> (cropped: Vec<u8>)
    requires
        4 * width * height <= data@.len(),
        x + view_width <= width,
        y + view_height <= height,
    ensures
        cropped@ == crop_rows(
            data@,
            width as int,
            x as int,
            y as int,
            view_width as int,
            view_height as nat,
        ),
{
    let image: RgbaImage = ImageBuffer::from_vec(width, height, data).expect(
        "Couldn't create image buffer from raw frame",
    );
    image.view(x, y, view_width, view_height).to_image().to_vec()
}

impl CapturedFrame {
    /// A frame made of the given RGBA bytes and size.
    pub fn from_rgba_vec(buffer_rgba: RgbaBuffer, buffer_width: usize, buffer_height: usize) -> (frame: Self)
        ensures
            frame.width == buffer_width,
            frame.height == buffer_height,
            frame.rgba_data@ == buffer_rgba@,
    {
        Self { width: buffer_width, height: buffer_height, rgba_data: buffer_rgba }
    }

    /// A frame made of BGRA bytes, turned into RGBA at once.
    pub fn from_bgra(width: u32, height: u32, bgra_buffer: Vec<u8>) -> (frame: Self)
        ensures
            frame.width == width,
            frame.height == height,
            frame.rgba_data@ == swap_red_blue(bgra_buffer@),
    {
        let mut bgra_buffer = bgra_buffer;
        swap_red_blue_in_place(bgra_buffer.as_mut_slice());
        Self { width: width as usize, height: height as usize, rgba_data: bgra_buffer }
    }

    /// The `view_width` by `view_height` pixels of the frame whose top left pixel is `(x, y)`,
    /// or none when that area leaves the frame. The frame's size is taken in 32 bits (higher
    /// bits are cut off), as the image buffer holds it.
    pub fn view(self, x: u32, y: u32, view_width: u32, view_height: u32) -> (cropped: Option<Self>)
        requires
            4 * (self.width as u32) * (self.height as u32) <= self.rgba_data@.len(),
        ensures
            x + view_width <= self.width as u32 && y + view_height <= self.height as u32 ==> (
            cropped matches Some(c) && c.width == view_width && c.height == view_height
                && c.rgba_data@ == crop_rows(
                self.rgba_data@,
                (self.width as u32) as int,
                x as int,
                y as int,
                view_width as int,
                view_height as nat,
            )),
            !(x + view_width <= self.width as u32 && y + view_height <= self.height as u32)
                ==> cropped is None,
    {
        let width = self.width as u32;
        let height = self.height as u32;
        if (x as u64) + (view_width as u64) > (width as u64) || (y as u64) + (view_height as u64)
            > (height as u64) {
            return None;
        }
        let cropped_image = crop_rgba_image(width, height, self.rgba_data, x, y, view_width, view_height);
        Some(Self { width: view_width as usize, height: view_height as usize, rgba_data: cropped_image })
    }
}

/// `Regex::new(r"(\d+)x(\d+)")` and `Regex::captures`: the two groups of the leftmost match
/// of that pattern in `text`, or none when nothing matches.
pub uninterp spec fn dimension_captures(text: Seq<char>) -> Option<(Seq<char>, Seq<char>)>;

/// `Regex::captures` with the pattern `(\d+)x(\d+)`: the two digit groups of the leftmost
/// match in `text`. Each group is a non-empty run of decimal digits (`\d`, which also
/// takes digits of scripts other than Latin), so it holds no `+`.
#[verifier::external_body]
fn find_dimension_captures(text: &str) -> (groups: Option<(String, String)>)
    ensures
        match groups {
            Some((w, h)) => {
                &&& dimension_captures(text@) == Some((w@, h@))
                &&& w@.len() > 0
                &&& h@.len() > 0
                &&& forall|i: int| 0 <= i < w@.len() ==> w@[i] != '+'
                &&& forall|i: int| 0 <= i < h@.len() ==> h@[i] != '+'
            },
            None => dimension_captures(text@) == None::<(Seq<char>, Seq<char>)>,
        },
{
    let re = Regex::new(r"(\d+)x(\d+)").ok()?;
    let caps = re.captures(text)?;
    Some((caps[1].to_string(), caps[2].to_string()))
}

/// True for the characters `0` to `9`.
pub open spec fn is_ascii_digit(c: char) -> bool {
    '0' <= c && c <= '9'
}

/// The value of a run of decimal digits.
pub open spec fn decimal_value(s: Seq<char>) -> int
    decreases s.len(),
{
    if s.len() == 0 {
        0
    } else {
        decimal_value(s.drop_last()) * 10 + (s.last() as int - '0' as int)
    }
}

/// What `str::parse::<u32>` gives for a text without a `+`: the value when the text is a
/// non-empty run of the digits `0` to `9` whose value fits in 32 bits, nothing otherwise.
pub open spec fn parse_decimal_u32(s: Seq<char>) -> Option<u32> {
    if s.len() > 0 && (forall|i: int| 0 <= i < s.len() ==> is_ascii_digit(#[trigger] s[i]))
        && decimal_value(s) <= u32::MAX {
        Some(decimal_value(s) as u32)
    } else {
        None
    }
}

/// `str::parse::<u32>`: a non-empty run of the digits `0` to `9` gives its value when
/// that fits in 32 bits and fails otherwise; an empty text fails, and so does a text
/// holding a character that is neither such a digit nor `+` (a leading `+` is accepted,
/// which this contract leaves unsaid).
#[verifier::external_body]
fn parse_u32(s: &str) -> (value: Option<u32>)
    ensures
        (forall|i: int| 0 <= i < s@.len() ==> s@[i] != '+') ==> value == parse_decimal_u32(s@),
{
    s.parse::<u32>().ok()
}

/// Why the size of an encoded frame could not be read from the decoder's report.
#[derive(Debug, Clone, Copy, PartialEq, Eq)]
pub enum DimensionsError {
    /// No `<width>x<height>` in the report.
    NotFound,
    /// The width or the height is not a number that fits in 32 bits.
    InvalidNumber,
}

/// The size read from the digit groups of a `<width>x<height>` match.
pub open spec fn dimensions_of(groups: Option<(Seq<char>, Seq<char>)>) -> Result<(u32, u32), DimensionsError> {
    match groups {
        None => Err(DimensionsError::NotFound),
        Some((w, h)) => match (parse_decimal_u32(w), parse_decimal_u32(h)) {
            (Some(wv), Some(hv)) => Ok((wv, hv)),
            _ => Err(DimensionsError::InvalidNumber),
        },
    }
}

/// Turns the digit groups of a `<width>x<height>` match into the frame size.
pub fn dimensions_from_captures(groups: Option<(String, String)>) -> (size: Result<(u32, u32), DimensionsError>)
    requires
        groups matches Some((w, h)) ==> (forall|i: int| 0 <= i < w@.len() ==> w@[i] != '+')
            && (forall|i: int| 0 <= i < h@.len() ==> h@[i] != '+'),
    ensures
        size == dimensions_of(
            match groups {
                Some((w, h)) => Some((w@, h@)),
                None => None,
            },
        ),
{
    match groups {
        None => Err(DimensionsError::NotFound),
        Some((w, h)) => {
            let width = parse_u32(w.as_str());
            let height = parse_u32(h.as_str());
            match (width, height) {
                (Some(wv), Some(hv)) => Ok((wv, hv)),
                _ => Err(DimensionsError::InvalidNumber),
            }
        },
    }
}

/// Reads the frame size from what the decoder reports on its error stream: the first
/// `<width>x<height>` in it.
pub fn parse_h265_dimensions(report: &str) -> (size: Result<(u32, u32), DimensionsError>)
    ensures
        size == dimensions_of(dimension_captures(report@)),
{
    let groups = find_dimension_captures(report);
    dimensions_from_captures(groups)
}

} // verus!
