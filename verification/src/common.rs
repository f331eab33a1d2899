use vstd::prelude::*;

verus! {

/// A buffer of RGBA pixels, four bytes per pixel, row after row.
pub type RgbaBuffer = Vec<u8>;

/// A rectangular region of a frame, in pixels.
#[derive(Debug, Clone, Copy, Default, PartialEq, Eq)]
pub struct CaptureArea {
    pub x: usize,
    pub y: usize,
    pub width: usize,
    pub height: usize,
}

/// The area that `new_with_safeguards` computes from a requested area and the size of
/// the buffer: the origin is clamped into the buffer, the extent is cut at the
/// buffer's edge, and an area that ends up empty in either direction becomes the
/// whole buffer.
pub open spec fn safeguarded_area(
    x: int,
    y: int,
    width: int,
    height: int,
    buffer_width: int,
    buffer_height: int,
) -> (int, int, int, int) {
    let cx = if x < buffer_width { x } else { buffer_width };
    let cy = if y < buffer_height { y } else { buffer_height };
    let w = if cx + width > buffer_width { buffer_width - cx } else { width };
    let h = if cy + height > buffer_height { buffer_height - cy } else { height };
    if w == 0 || h == 0 {
        (0, 0, buffer_width, buffer_height)
    } else {
        (cx, cy, w, h)
    }
}

impl CaptureArea {
    /// The area as a tuple of integers `(x, y, width, height)`.
    pub open spec fn spec_tuple(self) -> (int, int, int, int) {
        (self.x as int, self.y as int, self.width as int, self.height as int)
    }

    pub fn new_with_safeguards(
        x: usize,
        y: usize,
        width: usize,
        height: usize,
        buffer_width: usize,
        buffer_height: usize,
    ) -> (area: Self)
        requires
            (if x < buffer_width { x as int } else { buffer_width as int }) + width <= usize::MAX,
            (if y < buffer_height { y as int } else { buffer_height as int }) + height <= usize::MAX,
        ensures
            area.spec_tuple() == safeguarded_area(
                x as int,
                y as int,
                width as int,
                height as int,
                buffer_width as int,
                buffer_height as int,
            ),
    {
        let x = if x < buffer_width { x } else { buffer_width };
        let y = if y < buffer_height { y } else { buffer_height };

        let width = if x + width > buffer_width {
            buffer_width - x
        } else {
            width
        };

        let height = if y + height > buffer_height {
            buffer_height - y
        } else {
            height
        };

        if width == 0 || height == 0 {
            Self::full(buffer_width, buffer_height)
        } else {
            Self { x, y, width, height }
        }
    }

    pub fn full(buffer_width: usize, buffer_height: usize) -> (area: Self)
        ensures
            area.x == 0,
            area.y == 0,
            area.width == buffer_width,
            area.height == buffer_height,
    {
        Self { x: 0, y: 0, width: buffer_width, height: buffer_height }
    }
}

/// A safeguarded area always lies inside the buffer it was made for.
pub proof fn lemma_safeguarded_area_fits(
    x: int,
    y: int,
    width: int,
    height: int,
    buffer_width: int,
    buffer_height: int,
)
    requires
        0 <= x && 0 <= y && 0 <= width && 0 <= height,
        0 <= buffer_width && 0 <= buffer_height,
    ensures
        ({
            let (ax, ay, aw, ah) = safeguarded_area(x, y, width, height, buffer_width, buffer_height);
            ax + aw <= buffer_width && ay + ah <= buffer_height && 0 <= ax && 0 <= ay
        }),
{
}

/// Safeguarding an area that already lies inside the buffer and is not empty leaves
/// it as it was; safeguarding twice gives the same area as safeguarding once.
pub proof fn lemma_safeguarded_area_idempotent(
    x: int,
    y: int,
    width: int,
    height: int,
    buffer_width: int,
    buffer_height: int,
)
    requires
        0 <= x && 0 <= y && 0 <= width && 0 <= height,
        0 <= buffer_width && 0 <= buffer_height,
    ensures
        x + width <= buffer_width && y + height <= buffer_height && width > 0 && height > 0
            ==> safeguarded_area(x, y, width, height, buffer_width, buffer_height) == (
            x,
            y,
            width,
            height,
        ),
        ({
            let (ax, ay, aw, ah) = safeguarded_area(x, y, width, height, buffer_width, buffer_height);
            safeguarded_area(ax, ay, aw, ah, buffer_width, buffer_height) == (ax, ay, aw, ah)
        }),
{
}

/// The bytes of `h` rows of `w` pixels each, the first row starting at pixel `(x, y)` of
/// an image `width` pixels wide with four bytes per pixel, joined one row after the other.
pub open spec fn crop_rows(buf: Seq<u8>, width: int, x: int, y: int, w: int, h: nat) -> Seq<u8>
    decreases h,
{
    if h == 0 {
        Seq::empty()
    } else {
        let start = ((y + h - 1) * width + x) * 4;
        crop_rows(buf, width, x, y, w, (h - 1) as nat) + buf.subrange(start, start + w * 4)
    }
}

/// A cropped region holds `4 * w * h` bytes.
pub proof fn lemma_crop_rows_len(buf: Seq<u8>, width: int, x: int, y: int, w: int, h: nat)
    requires
        0 <= x,
        0 <= y,
        0 <= w,
        x + w <= width,
        (y + h) * width * 4 <= buf.len(),
    ensures
        crop_rows(buf, width, x, y, w, h).len() == 4 * w * h,
    decreases h,
{
    if h > 0 {
        assert((y + h - 1) * width * 4 <= (y + h) * width * 4) by (nonlinear_arith)
            requires
                width >= 0,
        ;
        lemma_crop_rows_len(buf, width, x, y, w, (h - 1) as nat);
        assert(((y + h - 1) * width + x) * 4 + w * 4 <= (y + h) * width * 4) by (nonlinear_arith)
            requires
                x + w <= width,
                0 <= x,
                0 <= w,
        ;
        assert(4 * w * h == 4 * w * (h - 1) + 4 * w) by (nonlinear_arith);
        assert(((y + h - 1) * width + x) * 4 >= 0) by (nonlinear_arith)
            requires
                width >= 0,
                y + h - 1 >= 0,
                x >= 0,
        ;
    } else {
        assert(4 * w * h == 0) by (nonlinear_arith)
            requires
                h == 0,
        ;
    }
}

/// Byte `i` of row `j` of a cropped region (four bytes per pixel) is the byte at the same
/// place of the image it was cut from: pixel `(x + i / 4, y + j)`, byte `i % 4`.
pub proof fn lemma_crop_rows_pixel(buf: Seq<u8>, width: int, x: int, y: int, w: int, h: nat, i: int, j: int)
    requires
        0 <= x,
        0 <= y,
        0 <= w,
        x + w <= width,
        (y + h) * width * 4 <= buf.len(),
        0 <= j < h,
        0 <= i < 4 * w,
    ensures
        crop_rows(buf, width, x, y, w, h)[4 * w * j + i] == buf[((y + j) * width + x) * 4 + i],
    decreases h,
{
    assert((y + h - 1) * width * 4 <= (y + h) * width * 4) by (nonlinear_arith)
        requires
            width >= 0,
    ;
    lemma_crop_rows_len(buf, width, x, y, w, (h - 1) as nat);
    let prefix = crop_rows(buf, width, x, y, w, (h - 1) as nat);
    let start = ((y + h - 1) * width + x) * 4;
    assert(start >= 0 && start + w * 4 <= (y + h) * width * 4) by (nonlinear_arith)
        requires
            start == ((y + h - 1) * width + x) * 4,
            0 <= x,
            0 <= w,
            x + w <= width,
            y + h - 1 >= 0,
    ;
    assert(crop_rows(buf, width, x, y, w, h) == prefix + buf.subrange(start, start + w * 4));
    if j == h - 1 {
        assert(4 * w * j == 4 * w * (h - 1)) by (nonlinear_arith)
            requires
                j == h - 1,
        ;
        assert((y + j) * width + x == (y + h - 1) * width + x);
    } else {
        lemma_crop_rows_pixel(buf, width, x, y, w, (h - 1) as nat, i, j);
        assert(4 * w * j + i < 4 * w * (h - 1)) by (nonlinear_arith)
            requires
                0 <= j < h - 1,
                0 <= i < 4 * w,
        ;
    }
}

/// Cropping an image to its full size gives back its bytes.
pub proof fn lemma_crop_rows_full(buf: Seq<u8>, width: int, height: nat)
    requires
        width >= 0,
        4 * width * height <= buf.len(),
    ensures
        crop_rows(buf, width, 0, 0, width, height) == buf.subrange(0, 4 * width * height),
    decreases height,
{
    if height > 0 {
        assert(4 * width * (height - 1) <= 4 * width * height) by (nonlinear_arith)
            requires
                width >= 0,
                height > 0,
        ;
        lemma_crop_rows_full(buf, width, (height - 1) as nat);
        assert(((height - 1) * width + 0) * 4 == 4 * width * (height - 1)) by (nonlinear_arith);
        assert(4 * width * (height - 1) + width * 4 == 4 * width * height) by (nonlinear_arith);
        assert(buf.subrange(0, 4 * width * (height - 1)) + buf.subrange(4 * width * (height - 1), 4 * width * height)
            =~= buf.subrange(0, 4 * width * height));
    } else {
        assert(4 * width * height == 0) by (nonlinear_arith)
            requires
                height == 0,
        ;
        assert(buf.subrange(0, 0) =~= Seq::<u8>::empty());
    }
}

} // verus!
