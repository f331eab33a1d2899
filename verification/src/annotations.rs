//! Drawing pen annotations into a captured screen.
use crate::capture::ScreenData;
use vstd::prelude::*;

verus! {

/// The drawing tool picked in the annotation window.
#[derive(Debug, Clone, Copy, PartialEq, Eq)]
pub enum AnnotationTool {
    Pen,
    Arrow,
    Text,
}

/// A pen stroke to draw into a captured screen: its points, in pixels, and its colour as
/// the four bytes of one pixel.
pub struct LineAnnotation {
    pub points: Vec<(i32, i32)>,
    pub color: [u8; 4],
}

/// The image with the pixel at `p` set to `color`, when `p` lies inside the `width` by
/// `height` image (the bounds compared as `i32`, as the drawing code compares them).
pub open spec fn put_pixel(img: Seq<u8>, width: u32, height: u32, p: (int, int), color: Seq<u8>) -> Seq<u8> {
    if 0 <= p.0 && 0 <= p.1 && p.0 < (width as i32) && p.1 < (height as i32) {
        let i = (p.1 * width + p.0) * 4;
        img.update(i, color[0]).update(i + 1, color[1]).update(i + 2, color[2]).update(i + 3, color[3])
    } else {
        img
    }
}

/// The image with the points set to `color`, one after the other.
pub open spec fn plot_points(img: Seq<u8>, width: u32, height: u32, pts: Seq<(int, int)>, color: Seq<u8>) -> Seq<u8>
    decreases pts.len(),
{
    if pts.len() == 0 {
        img
    } else {
        put_pixel(plot_points(img, width, height, pts.drop_last(), color), width, height, pts.last(), color)
    }
}

/// One step of Bresenham's line algorithm from `(x, y)` with error term `err`, for a line
/// with `dx = |x1 - x0|`, `dy = -|y1 - y0|` and step directions `sx`, `sy`.
pub open spec fn line_step(x: int, y: int, err: int, dx: int, dy: int, sx: int, sy: int) -> (int, int, int) {
    let e2 = 2 * err;
    let (nx, err1) = if e2 >= dy { (x + sx, err + dy) } else { (x, err) };
    let (ny, err2) = if e2 <= dx { (y + sy, err1 + dx) } else { (y, err1) };
    (nx, ny, err2)
}

/// The points Bresenham's algorithm visits from `(x, y)` until it reaches `(x1, y1)`,
/// taking at most `fuel` points.
pub open spec fn line_walk(
    x: int,
    y: int,
    err: int,
    x1: int,
    y1: int,
    dx: int,
    dy: int,
    sx: int,
    sy: int,
    fuel: nat,
) -> Seq<(int, int)>
    decreases fuel,
{
    if fuel == 0 {
        Seq::empty()
    } else if x == x1 && y == y1 {
        seq![(x, y)]
    } else {
        let (nx, ny, nerr) = line_step(x, y, err, dx, dy, sx, sy);
        seq![(x, y)] + line_walk(nx, ny, nerr, x1, y1, dx, dy, sx, sy, (fuel - 1) as nat)
    }
}

/// True when two pixels are the same or neighbours, across a side or a corner.
pub open spec fn touching(p: (int, int), q: (int, int)) -> bool {
    abs_int(q.0 - p.0) <= 1 && abs_int(q.1 - p.1) <= 1
}

/// The direction in which a coordinate moves from `a` towards `b`: `1` when `a < b`, `-1`
/// otherwise.
pub open spec fn step_dir(a: int, b: int) -> int {
    if a < b { 1 } else { -1 }
}

/// `|v|`.
pub open spec fn abs_int(v: int) -> int {
    if v < 0 { -v } else { v }
}

/// The pixels of the line from `(x0, y0)` to `(x1, y1)` in the order Bresenham's
/// algorithm visits them.
pub open spec fn line_points(x0: int, y0: int, x1: int, y1: int) -> Seq<(int, int)> {
    let dx = abs_int(x1 - x0);
    let dy = -abs_int(y1 - y0);
    let sx = step_dir(x0, x1);
    let sy = step_dir(y0, y1);
    line_walk(x0, y0, dx + dy, x1, y1, dx, dy, sx, sy, (dx - dy + 1) as nat)
}

/// An extent along each axis up to which every line can be drawn with 32-bit arithmetic;
/// longer lines can be drawn as long as `line_fits` holds of them.
pub open spec fn max_line_extent() -> int {
    0x1fff_ffff
}

/// True for the values of a 32-bit signed integer.
pub open spec fn in_i32(v: int) -> bool {
    i32::MIN <= v <= i32::MAX
}

/// Every value Bresenham's walk computes from this point until it reaches `(x1, y1)`, at
/// most `fuel` points on, fits in 32 bits: the doubled error term and the error term
/// after each step.
pub open spec fn walk_fits(
    x: int,
    y: int,
    err: int,
    x1: int,
    y1: int,
    dx: int,
    dy: int,
    sx: int,
    sy: int,
    fuel: nat,
) -> bool
    decreases fuel,
{
    if fuel == 0 || (x == x1 && y == y1) {
        true
    } else {
        let e2 = 2 * err;
        let err1 = if e2 >= dy { err + dy } else { err };
        let (nx, ny, nerr) = line_step(x, y, err, dx, dy, sx, sy);
        &&& in_i32(e2)
        &&& in_i32(err1)
        &&& (e2 <= dx ==> in_i32(err1 + dx))
        &&& walk_fits(nx, ny, nerr, x1, y1, dx, dy, sx, sy, (fuel - 1) as nat)
    }
}

/// The line from `start` to `end` can be drawn with 32-bit arithmetic: the differences of
/// the coordinates and their sizes fit, and so does every value of the walk.
pub open spec fn line_fits(start: (i32, i32), end: (i32, i32)) -> bool {
    let dx = abs_int(end.0 - start.0);
    let dy = -abs_int(end.1 - start.1);
    &&& in_i32(end.0 - start.0)
    &&& in_i32(end.1 - start.1)
    &&& in_i32(dx)
    &&& in_i32(-dy)
    &&& walk_fits(
        start.0 as int,
        start.1 as int,
        dx + dy,
        end.0 as int,
        end.1 as int,
        dx,
        dy,
        step_dir(start.0 as int, end.0 as int),
        step_dir(start.1 as int, end.1 as int),
        (dx - dy + 1) as nat,
    )
}

/// How far Bresenham's walk has come, and what stays true on the way.
pub open spec fn walk_state_ok(x0: int, y0: int, x1: int, y1: int, x: int, y: int, err: int) -> bool {
    let dx = abs_int(x1 - x0);
    let dy = -abs_int(y1 - y0);
    let ax = abs_int(x - x0);
    let by = abs_int(y - y0);
    &&& (if x0 < x1 { x0 <= x <= x1 } else { x1 <= x <= x0 })
    &&& (if y0 < y1 { y0 <= y <= y1 } else { y1 <= y <= y0 })
    &&& err == dx + dy + dy * ax + dx * by
    &&& 2 * dy <= err <= 2 * dx
}

/// One step keeps the walk inside the line's box, moves it closer to the end, and keeps
/// the error term what it should be.
proof fn lemma_line_step(x0: int, y0: int, x1: int, y1: int, x: int, y: int, err: int)
    requires
        walk_state_ok(x0, y0, x1, y1, x, y, err),
        !(x == x1 && y == y1),
    ensures
        ({
            let dx = abs_int(x1 - x0);
            let dy = -abs_int(y1 - y0);
            let sx = step_dir(x0, x1);
            let sy = step_dir(y0, y1);
            let (nx, ny, nerr) = line_step(x, y, err, dx, dy, sx, sy);
            &&& walk_state_ok(x0, y0, x1, y1, nx, ny, nerr)
            &&& abs_int(x1 - nx) + abs_int(y1 - ny) < abs_int(x1 - x) + abs_int(y1 - y)
        }),
{
    let dx = abs_int(x1 - x0);
    let dy = -abs_int(y1 - y0);
    let sx = step_dir(x0, x1);
    let sy = step_dir(y0, y1);
    let ax = abs_int(x - x0);
    let by = abs_int(y - y0);
    let e2 = 2 * err;
    assert(0 <= ax <= dx);
    assert(0 <= by <= -dy);
    if ax == dx && by < -dy {
        assert(dx * (1 + dy + by) <= 0) by (nonlinear_arith)
            requires
                dx >= 0,
                1 + dy + by <= 0,
        ;
        assert(err == dx * (1 + dy + by) + dy) by (nonlinear_arith)
            requires
                err == dx + dy + dy * ax + dx * by,
                ax == dx,
        ;
        assert(e2 < dy);
    }
    if by == -dy && ax < dx {
        assert(dy * (1 + ax - dx) >= 0) by (nonlinear_arith)
            requires
                dy <= 0,
                1 + ax - dx <= 0,
        ;
        assert(err == dy * (1 + ax - dx) + dx) by (nonlinear_arith)
            requires
                err == dx + dy + dy * ax + dx * by,
                by == -dy,
        ;
        assert(e2 > dx);
    }
    assert(dy * (ax + 1) == dy * ax + dy) by (nonlinear_arith);
    assert(dx * (by + 1) == dx * by + dx) by (nonlinear_arith);
}

/// The walk, given enough fuel, ends at `(x1, y1)`.
proof fn lemma_line_walk_ends(x0: int, y0: int, x1: int, y1: int, x: int, y: int, err: int, fuel: nat)
    requires
        walk_state_ok(x0, y0, x1, y1, x, y, err),
        fuel >= abs_int(x1 - x) + abs_int(y1 - y) + 1,
    ensures
        ({
            let dx = abs_int(x1 - x0);
            let dy = -abs_int(y1 - y0);
            let sx = step_dir(x0, x1);
            let sy = step_dir(y0, y1);
            let w = line_walk(x, y, err, x1, y1, dx, dy, sx, sy, fuel);
            &&& w.len() > 0
            &&& w[0] == (x, y)
            &&& w.last() == (x1, y1)
            &&& forall|i: int| 1 <= i < w.len() ==> touching(w[i - 1], #[trigger] w[i])
        }),
    decreases fuel,
{
    let dx = abs_int(x1 - x0);
    let dy = -abs_int(y1 - y0);
    let sx = step_dir(x0, x1);
    let sy = step_dir(y0, y1);
    if !(x == x1 && y == y1) {
        lemma_line_step(x0, y0, x1, y1, x, y, err);
        let (nx, ny, nerr) = line_step(x, y, err, dx, dy, sx, sy);
        lemma_line_walk_ends(x0, y0, x1, y1, nx, ny, nerr, (fuel - 1) as nat);
        let rest = line_walk(nx, ny, nerr, x1, y1, dx, dy, sx, sy, (fuel - 1) as nat);
        let w = line_walk(x, y, err, x1, y1, dx, dy, sx, sy, fuel);
        assert(w == seq![(x, y)] + rest);
        assert forall|i: int| 1 <= i < w.len() implies touching(w[i - 1], #[trigger] w[i]) by {
            if i > 1 {
                assert(w[i] == rest[i - 1]);
                assert(w[i - 1] == rest[i - 2]);
                assert(touching(rest[i - 2], rest[i - 1]));
            } else {
                assert(w[1] == rest[0]);
                assert(rest[0] == (nx, ny));
            }
        }
    }
}

/// The line from `(x0, y0)` to `(x1, y1)` starts at its first end, stops at its second, and
/// every pixel on it touches the one before (sides or corners).
pub proof fn lemma_line_points_connect(x0: int, y0: int, x1: int, y1: int)
    ensures
        ({
            let pts = line_points(x0, y0, x1, y1);
            &&& pts.len() > 0
            &&& pts[0] == (x0, y0)
            &&& pts.last() == (x1, y1)
            &&& forall|i: int| 1 <= i < pts.len() ==> touching(pts[i - 1], #[trigger] pts[i])
        }),
{
    let dx = abs_int(x1 - x0);
    let dy = -abs_int(y1 - y0);
    assert(walk_state_ok(x0, y0, x1, y1, x0, y0, dx + dy)) by {
        assert(dy * 0 == 0 && dx * 0 == 0) by (nonlinear_arith);
    }
    lemma_line_walk_ends(x0, y0, x1, y1, x0, y0, dx + dy, (dx - dy + 1) as nat);
}

/// While each extent of the line is at most `max_line_extent()`, the walk from any point
/// it reaches computes only values that fit in 32 bits.
proof fn lemma_walk_fits_short(x0: int, y0: int, x1: int, y1: int, x: int, y: int, err: int, fuel: nat)
    requires
        walk_state_ok(x0, y0, x1, y1, x, y, err),
        abs_int(x1 - x0) <= max_line_extent(),
        abs_int(y1 - y0) <= max_line_extent(),
    ensures
        walk_fits(
            x,
            y,
            err,
            x1,
            y1,
            abs_int(x1 - x0),
            -abs_int(y1 - y0),
            step_dir(x0, x1),
            step_dir(y0, y1),
            fuel,
        ),
    decreases fuel,
{
    let dx = abs_int(x1 - x0);
    let dy = -abs_int(y1 - y0);
    let sx = step_dir(x0, x1);
    let sy = step_dir(y0, y1);
    if fuel > 0 && !(x == x1 && y == y1) {
        lemma_line_step(x0, y0, x1, y1, x, y, err);
        let (nx, ny, nerr) = line_step(x, y, err, dx, dy, sx, sy);
        lemma_walk_fits_short(x0, y0, x1, y1, nx, ny, nerr, (fuel - 1) as nat);
    }
}

/// A line whose extent along each axis is at most `max_line_extent()` can be drawn with
/// 32-bit arithmetic.
pub proof fn lemma_short_lines_fit(start: (i32, i32), end: (i32, i32))
    requires
        abs_int(end.0 - start.0) <= max_line_extent(),
        abs_int(end.1 - start.1) <= max_line_extent(),
    ensures
        line_fits(start, end),
{
    let (x0, y0) = (start.0 as int, start.1 as int);
    let (x1, y1) = (end.0 as int, end.1 as int);
    let dx = abs_int(x1 - x0);
    let dy = -abs_int(y1 - y0);
    assert(walk_state_ok(x0, y0, x1, y1, x0, y0, dx + dy)) by {
        assert(dy * 0 == 0 && dx * 0 == 0) by (nonlinear_arith);
    }
    lemma_walk_fits_short(x0, y0, x1, y1, x0, y0, dx + dy, (dx - dy + 1) as nat);
}

/// Where pixel `(x, y)` of an image `width` pixels wide starts, and that it lies in the
/// image's bytes.
proof fn lemma_pixel_index(x: int, y: int, width: int, height: int)
    requires
        0 <= x < width,
        0 <= y < height,
    ensures
        0 <= (y * width + x) * 4,
        (y * width + x) * 4 + 4 <= 4 * width * height,
{
    assert(y * width + x < width * height) by (nonlinear_arith)
        requires
            0 <= x < width,
            0 <= y < height,
    ;
    assert(0 <= y * width) by (nonlinear_arith)
        requires
            0 <= y,
            0 <= width,
    ;
    assert(4 * width * height == 4 * (width * height)) by (nonlinear_arith);
}

/// Setting pixels inside the image keeps the image's length.
proof fn lemma_plot_points_len(img: Seq<u8>, width: u32, height: u32, pts: Seq<(int, int)>, color: Seq<u8>)
    requires
        4 * width * height <= img.len(),
    ensures
        plot_points(img, width, height, pts, color).len() == img.len(),
    decreases pts.len(),
{
    if pts.len() > 0 {
        lemma_plot_points_len(img, width, height, pts.drop_last(), color);
        let p = pts.last();
        assert(width > 0x7fff_ffff ==> (width as i32) < 0) by (bit_vector);
        assert(height > 0x7fff_ffff ==> (height as i32) < 0) by (bit_vector);
        assert(width <= 0x7fff_ffff ==> (width as i32) == width) by (bit_vector);
        assert(height <= 0x7fff_ffff ==> (height as i32) == height) by (bit_vector);
        if 0 <= p.0 && 0 <= p.1 && p.0 < (width as i32) && p.1 < (height as i32) {
            lemma_pixel_index(p.0, p.1, width as int, height as int);
        }
    }
}

/// Draws the line from `start` to `end` into an RGBA image of `width` by `height` pixels,
/// with Bresenham's algorithm; pixels outside the image are skipped.
pub fn draw_line(image: &mut Vec<u8>, width: u32, height: u32, start: (i32, i32), end: (i32, i32), color: [u8; 4])
    requires
        4 * width * height <= old(image)@.len(),
        line_fits(start, end),
    ensures
        final(image)@ == plot_points(
            old(image)@,
            width,
            height,
            line_points(start.0 as int, start.1 as int, end.0 as int, end.1 as int),
            color@,
        ),
{
    let (x0, y0) = start;
    let (x1, y1) = end;
    let dx: i32 = if x1 >= x0 { x1 - x0 } else { x0 - x1 };
    let dy: i32 = if y1 >= y0 { y0 - y1 } else { y1 - y0 };
    let sx: i32 = if x0 < x1 { 1 } else { -1 };
    let sy: i32 = if y0 < y1 { 1 } else { -1 };
    let mut err: i32 = dx + dy;
    let mut x: i32 = x0;
    let mut y: i32 = y0;
    let w_i32 = width as i32;
    let h_i32 = height as i32;
    proof {
        assert(width > 0x7fff_ffff ==> (width as i32) < 0) by (bit_vector);
        assert(height > 0x7fff_ffff ==> (height as i32) < 0) by (bit_vector);
        assert(width <= 0x7fff_ffff ==> (width as i32) == width) by (bit_vector);
        assert(height <= 0x7fff_ffff ==> (height as i32) == height) by (bit_vector);
    }
    let ghost orig = image@;
    let image_len = image.len();
    let ghost full = line_points(x0 as int, y0 as int, x1 as int, y1 as int);
    let ghost mut done: Seq<(int, int)> = Seq::empty();
    let ghost mut fuel: nat = (dx - dy + 1) as nat;
    assert(walk_state_ok(x0 as int, y0 as int, x1 as int, y1 as int, x as int, y as int, err as int)) by {
        assert(dy * 0 == 0 && dx * 0 == 0) by (nonlinear_arith);
    }
    assert(full == done + line_walk(x as int, y as int, err as int, x1 as int, y1 as int, dx as int, dy as int, sx as int, sy as int, fuel));
    loop
        invariant_except_break
            full == done + line_walk(
                x as int,
                y as int,
                err as int,
                x1 as int,
                y1 as int,
                dx as int,
                dy as int,
                sx as int,
                sy as int,
                fuel,
            ),
        invariant
            4 * width * height <= orig.len(),
            image_len == orig.len(),
            walk_fits(
                x as int,
                y as int,
                err as int,
                x1 as int,
                y1 as int,
                dx as int,
                dy as int,
                sx as int,
                sy as int,
                fuel,
            ),
            dx == abs_int(x1 - x0),
            dy == -abs_int(y1 - y0),
            sx == step_dir(x0 as int, x1 as int),
            sy == step_dir(y0 as int, y1 as int),
            w_i32 == width as i32,
            h_i32 == height as i32,
            width > 0x7fff_ffff ==> w_i32 < 0,
            height > 0x7fff_ffff ==> h_i32 < 0,
            walk_state_ok(x0 as int, y0 as int, x1 as int, y1 as int, x as int, y as int, err as int),
            fuel >= abs_int(x1 - x) + abs_int(y1 - y) + 1,
            full == line_points(x0 as int, y0 as int, x1 as int, y1 as int),
            image@ == plot_points(orig, width, height, done, color@),
            image@.len() == orig.len(),
            width <= 0x7fff_ffff ==> w_i32 == width,
            height <= 0x7fff_ffff ==> h_i32 == height,
        ensures
            image@ == plot_points(orig, width, height, full, color@),
        decreases abs_int(x1 - x) + abs_int(y1 - y),
    {
        if x >= 0 && y >= 0 && x < w_i32 && y < h_i32 {
            proof {
                lemma_pixel_index(x as int, y as int, width as int, height as int);
            }
            let i = ((y as usize) * (width as usize) + (x as usize)) * 4;
            image.set(i, color[0]);
            image.set(i + 1, color[1]);
            image.set(i + 2, color[2]);
            image.set(i + 3, color[3]);
        }
        let ghost rest_before = line_walk(
            x as int,
            y as int,
            err as int,
            x1 as int,
            y1 as int,
            dx as int,
            dy as int,
            sx as int,
            sy as int,
            fuel,
        );
        proof {
            assert(done.push((x as int, y as int)).drop_last() =~= done);
            done = done.push((x as int, y as int));
        }
        if x == x1 && y == y1 {
            assert(rest_before =~= seq![(x as int, y as int)]);
            assert(full =~= done);
            break;
        }
        proof {
            lemma_line_step(x0 as int, y0 as int, x1 as int, y1 as int, x as int, y as int, err as int);
        }
        let e2 = 2 * err;
        if e2 >= dy {
            err = err + dy;
            x = x + sx;
        }
        if e2 <= dx {
            err = err + dx;
            y = y + sy;
        }
        proof {
            let rest_after = line_walk(
                x as int,
                y as int,
                err as int,
                x1 as int,
                y1 as int,
                dx as int,
                dy as int,
                sx as int,
                sy as int,
                (fuel - 1) as nat,
            );
            assert(rest_before == seq![(done.last().0, done.last().1)] + rest_after);
            assert(full =~= done + rest_after);
            fuel = (fuel - 1) as nat;
        }
    }
}

/// The image with the line segments between consecutive points drawn in `color`, the
/// first segment first.
pub open spec fn draw_polyline(img: Seq<u8>, width: u32, height: u32, pts: Seq<(i32, i32)>, color: Seq<u8>) -> Seq<u8>
    decreases pts.len(),
{
    if pts.len() < 2 {
        img
    } else {
        let a = pts[pts.len() - 2];
        let b = pts[pts.len() - 1];
        plot_points(
            draw_polyline(img, width, height, pts.drop_last(), color),
            width,
            height,
            line_points(a.0 as int, a.1 as int, b.0 as int, b.1 as int),
            color,
        )
    }
}

/// The image with every stroke drawn, the first stroke first.
pub open spec fn draw_strokes(img: Seq<u8>, width: u32, height: u32, strokes: Seq<(Seq<(i32, i32)>, Seq<u8>)>) -> Seq<u8>
    decreases strokes.len(),
{
    if strokes.len() == 0 {
        img
    } else {
        draw_polyline(
            draw_strokes(img, width, height, strokes.drop_last()),
            width,
            height,
            strokes.last().0,
            strokes.last().1,
        )
    }
}

/// The strokes as points and colours.
pub open spec fn strokes_view(lines: Seq<LineAnnotation>) -> Seq<(Seq<(i32, i32)>, Seq<u8>)> {
    lines.map_values(|l: LineAnnotation| (l.points@, l.color@))
}

/// True when pixel `p` lies inside the `width` by `height` image (the bounds compared as
/// `i32`, as the drawing code compares them).
pub open spec fn pixel_inside(p: (int, int), width: u32, height: u32) -> bool {
    0 <= p.0 && 0 <= p.1 && p.0 < (width as i32) && p.1 < (height as i32)
}

/// The four bytes of pixel `p` of an RGBA image `width` pixels wide.
pub open spec fn pixel_at(img: Seq<u8>, width: u32, p: (int, int)) -> Seq<u8> {
    let i = (p.1 * width + p.0) * 4;
    img.subrange(i, i + 4)
}

/// The pixels of every segment of a stroke.
pub open spec fn polyline_points(pts: Seq<(i32, i32)>) -> Set<(int, int)>
    decreases pts.len(),
{
    if pts.len() < 2 {
        Set::empty()
    } else {
        let a = pts[pts.len() - 2];
        let b = pts[pts.len() - 1];
        polyline_points(pts.drop_last()).union(
            line_points(a.0 as int, a.1 as int, b.0 as int, b.1 as int).to_set(),
        )
    }
}

/// A pixel inside the image lies within its bytes and is `width`-compatible.
proof fn lemma_inside_bounds(p: (int, int), width: u32, height: u32)
    requires
        pixel_inside(p, width, height),
    ensures
        0 <= p.0 < width,
        0 <= p.1 < height,
        0 <= (p.1 * width + p.0) * 4,
        (p.1 * width + p.0) * 4 + 4 <= 4 * width * height,
{
    assert(width > 0x7fff_ffff ==> (width as i32) < 0) by (bit_vector);
    assert(height > 0x7fff_ffff ==> (height as i32) < 0) by (bit_vector);
    assert(width <= 0x7fff_ffff ==> (width as i32) == width) by (bit_vector);
    assert(height <= 0x7fff_ffff ==> (height as i32) == height) by (bit_vector);
    lemma_pixel_index(p.0, p.1, width as int, height as int);
}

/// Setting pixel `q` sets pixel `p` when they are the same and leaves it otherwise.
proof fn lemma_put_pixel_at(img: Seq<u8>, width: u32, height: u32, q: (int, int), color: Seq<u8>, p: (int, int))
    requires
        4 * width * height <= img.len(),
        color.len() == 4,
        pixel_inside(p, width, height),
    ensures
        put_pixel(img, width, height, q, color).len() == img.len(),
        pixel_at(put_pixel(img, width, height, q, color), width, p) == if q == p {
            color
        } else {
            pixel_at(img, width, p)
        },
{
    lemma_inside_bounds(p, width, height);
    let ip = (p.1 * width + p.0) * 4;
    let r = put_pixel(img, width, height, q, color);
    if pixel_inside(q, width, height) {
        lemma_inside_bounds(q, width, height);
        let iq = (q.1 * width + q.0) * 4;
        if q == p {
            assert(pixel_at(r, width, p) =~= color);
        } else {
            assert(iq + 4 <= ip || ip + 4 <= iq) by (nonlinear_arith)
                requires
                    iq == (q.1 * width + q.0) * 4,
                    ip == (p.1 * width + p.0) * 4,
                    0 <= q.0 < width,
                    0 <= p.0 < width,
                    0 <= q.1,
                    0 <= p.1,
                    q.0 != p.0 || q.1 != p.1,
            {
                if q.1 < p.1 {
                    assert(q.1 * width + width <= p.1 * width);
                } else if p.1 < q.1 {
                    assert(p.1 * width + width <= q.1 * width);
                }
            }
            assert(pixel_at(r, width, p) =~= pixel_at(img, width, p));
        }
    }
}

/// Drawing points sets each pixel among them to the colour and leaves every other pixel.
proof fn lemma_plot_points_at(img: Seq<u8>, width: u32, height: u32, pts: Seq<(int, int)>, color: Seq<u8>, p: (int, int))
    requires
        4 * width * height <= img.len(),
        color.len() == 4,
        pixel_inside(p, width, height),
    ensures
        pixel_at(plot_points(img, width, height, pts, color), width, p) == if pts.contains(p) {
            color
        } else {
            pixel_at(img, width, p)
        },
    decreases pts.len(),
{
    if pts.len() > 0 {
        let prev = plot_points(img, width, height, pts.drop_last(), color);
        lemma_plot_points_at(img, width, height, pts.drop_last(), color, p);
        lemma_plot_points_len(img, width, height, pts.drop_last(), color);
        lemma_put_pixel_at(prev, width, height, pts.last(), color, p);
        if pts.contains(p) && pts.last() != p {
            let i = choose|i: int| 0 <= i < pts.len() && pts[i] == p;
            assert(pts.drop_last()[i] == p);
        }
        if pts.drop_last().contains(p) {
            let i = choose|i: int| 0 <= i < pts.drop_last().len() && pts.drop_last()[i] == p;
            assert(pts[i] == p);
        }
        if pts.last() == p {
            assert(pts[pts.len() - 1] == p);
        }
    }
}

/// Drawing a stroke sets each pixel of its segments to its colour and leaves every other
/// pixel; it keeps the image's length.
proof fn lemma_polyline_at(img: Seq<u8>, width: u32, height: u32, pts: Seq<(i32, i32)>, color: Seq<u8>, p: (int, int))
    requires
        4 * width * height <= img.len(),
        color.len() == 4,
        pixel_inside(p, width, height),
    ensures
        draw_polyline(img, width, height, pts, color).len() == img.len(),
        pixel_at(draw_polyline(img, width, height, pts, color), width, p) == if polyline_points(pts).contains(p) {
            color
        } else {
            pixel_at(img, width, p)
        },
    decreases pts.len(),
{
    if pts.len() >= 2 {
        let a = pts[pts.len() - 2];
        let b = pts[pts.len() - 1];
        let line = line_points(a.0 as int, a.1 as int, b.0 as int, b.1 as int);
        let prev = draw_polyline(img, width, height, pts.drop_last(), color);
        lemma_polyline_at(img, width, height, pts.drop_last(), color, p);
        lemma_plot_points_len(prev, width, height, line, color);
        lemma_plot_points_at(prev, width, height, line, color, p);
        assert(line.to_set().contains(p) == line.contains(p));
    }
}

/// Drawing a stroke keeps the image's length.
proof fn lemma_polyline_len(img: Seq<u8>, width: u32, height: u32, pts: Seq<(i32, i32)>, color: Seq<u8>)
    requires
        4 * width * height <= img.len(),
    ensures
        draw_polyline(img, width, height, pts, color).len() == img.len(),
    decreases pts.len(),
{
    if pts.len() >= 2 {
        let a = pts[pts.len() - 2];
        let b = pts[pts.len() - 1];
        lemma_polyline_len(img, width, height, pts.drop_last(), color);
        let prev = draw_polyline(img, width, height, pts.drop_last(), color);
        lemma_plot_points_len(prev, width, height, line_points(a.0 as int, a.1 as int, b.0 as int, b.1 as int), color);
    }
}

/// Drawing strokes keeps the image's length.
proof fn lemma_strokes_len(img: Seq<u8>, width: u32, height: u32, strokes: Seq<(Seq<(i32, i32)>, Seq<u8>)>)
    requires
        4 * width * height <= img.len(),
        forall|j: int| 0 <= j < strokes.len() ==> (#[trigger] strokes[j]).1.len() == 4,
    ensures
        draw_strokes(img, width, height, strokes).len() == img.len(),
    decreases strokes.len(),
{
    if strokes.len() > 0 {
        lemma_strokes_len(img, width, height, strokes.drop_last());
        let prev = draw_strokes(img, width, height, strokes.drop_last());
        assert(strokes.last() == strokes[strokes.len() - 1]);
        lemma_polyline_len(prev, width, height, strokes.last().0, strokes.last().1);
    }
}

/// Every stroke is drawn: a pixel inside the image on a segment of stroke `k` ends up in
/// stroke `k`'s colour unless a later stroke passes over it, and a pixel that no stroke
/// passes over keeps its bytes.
pub proof fn lemma_every_stroke_drawn(
    img: Seq<u8>,
    width: u32,
    height: u32,
    strokes: Seq<(Seq<(i32, i32)>, Seq<u8>)>,
    k: int,
    p: (int, int),
)
    requires
        4 * width * height <= img.len(),
        forall|j: int| 0 <= j < strokes.len() ==> (#[trigger] strokes[j]).1.len() == 4,
        pixel_inside(p, width, height),
    ensures
        0 <= k < strokes.len() && polyline_points(strokes[k].0).contains(p) && (forall|j: int|
            k < j < strokes.len() ==> !polyline_points(#[trigger] strokes[j].0).contains(p))
            ==> pixel_at(draw_strokes(img, width, height, strokes), width, p) == strokes[k].1,
        (forall|j: int| 0 <= j < strokes.len() ==> !polyline_points(#[trigger] strokes[j].0).contains(p))
            ==> pixel_at(draw_strokes(img, width, height, strokes), width, p) == pixel_at(img, width, p),
    decreases strokes.len(),
{
    if strokes.len() > 0 {
        let n = strokes.len() as int;
        let rest = strokes.drop_last();
        assert forall|j: int| 0 <= j < rest.len() implies (#[trigger] rest[j]).1.len() == 4 by {
            assert(rest[j] == strokes[j]);
        }
        lemma_every_stroke_drawn(img, width, height, rest, k, p);
        lemma_strokes_len(img, width, height, rest);
        let prev = draw_strokes(img, width, height, rest);
        assert(strokes.last() == strokes[n - 1]);
        lemma_polyline_at(prev, width, height, strokes.last().0, strokes.last().1, p);
        if 0 <= k < n - 1 && (forall|j: int| k < j < n ==> !polyline_points(#[trigger] strokes[j].0).contains(p)) {
            assert(!polyline_points(strokes[n - 1].0).contains(p));
            assert forall|j: int| k < j < rest.len() implies !polyline_points(#[trigger] rest[j].0).contains(p) by {
                assert(rest[j] == strokes[j]);
                assert(!polyline_points(strokes[j].0).contains(p));
            }
            assert(rest[k] == strokes[k]);
        }
        if forall|j: int| 0 <= j < n ==> !polyline_points(#[trigger] strokes[j].0).contains(p) {
            assert(!polyline_points(strokes[n - 1].0).contains(p));
            assert forall|j: int| 0 <= j < rest.len() implies !polyline_points(#[trigger] rest[j].0).contains(p) by {
                assert(rest[j] == strokes[j]);
                assert(!polyline_points(strokes[j].0).contains(p));
            }
        }
    }
}

/// Every segment of the stroke can be drawn with 32-bit arithmetic.
pub open spec fn stroke_segments_fit(pts: Seq<(i32, i32)>) -> bool {
    forall|i: int| 1 <= i < pts.len() ==> line_fits(pts[i - 1], #[trigger] pts[i])
}

/// Draws the pen strokes into the captured screen. Gives `false`, leaving the screen as
/// it was, when the screen's bytes are fewer than its size asks for.
pub fn draw_line_annotations(screen_data: &mut ScreenData, lines: &Vec<LineAnnotation>) -> (drawn: bool)
    requires
        forall|k: int| 0 <= k < lines@.len() ==> stroke_segments_fit(#[trigger] lines@[k].points@),
    ensures
        final(screen_data).width == old(screen_data).width,
        final(screen_data).height == old(screen_data).height,
        drawn == (4 * old(screen_data).width * old(screen_data).height <= old(screen_data).data@.len()),
        drawn ==> final(screen_data).data@ == draw_strokes(
            old(screen_data).data@,
            old(screen_data).width,
            old(screen_data).height,
            strokes_view(lines@),
        ),
        !drawn ==> final(screen_data).data@ == old(screen_data).data@,
{
    let width = screen_data.width;
    let height = screen_data.height;
    assert((width as int) * (height as int) <= 0xffff_ffff * 0xffff_ffff) by (nonlinear_arith)
        requires
            width <= 0xffff_ffff,
            height <= 0xffff_ffff,
    ;
    assert((width as int) * (height as int) * 4 == 4 * width * height) by (nonlinear_arith);
    let needed: u128 = (width as u128) * (height as u128) * 4;
    if needed > screen_data.data.len() as u128 {
        return false;
    }
    let ghost orig = screen_data.data@;
    let n = lines.len();
    let mut k: usize = 0;
    while k < n
        invariant
            n == lines@.len(),
            0 <= k <= n,
            width == screen_data.width,
            height == screen_data.height,
            width == old(screen_data).width,
            height == old(screen_data).height,
            orig == old(screen_data).data@,
            4 * width * height <= orig.len(),
            screen_data.data@.len() == orig.len(),
            forall|j: int| 0 <= j < lines@.len() ==> stroke_segments_fit(#[trigger] lines@[j].points@),
            screen_data.data@ == draw_strokes(orig, width, height, strokes_view(lines@).take(k as int)),
        decreases n - k,
    {
        let line = &lines[k];
        let m = line.points.len();
        let ghost before = screen_data.data@;
        let mut i: usize = if m == 0 { 0 } else { 1 };
        while i < m
            invariant
                m == line.points@.len(),
                m > 0 ==> 1 <= i,
                i <= m,
                i < 2 ==> line.points@.take(i as int).len() < 2,
                width == screen_data.width,
                height == screen_data.height,
                4 * width * height <= before.len(),
                screen_data.data@.len() == before.len(),
                stroke_segments_fit(line.points@),
                screen_data.data@ == draw_polyline(before, width, height, line.points@.take(i as int), line.color@),
            decreases m - i,
        {
            let a = line.points[i - 1];
            let b = line.points[i];
            assert(stroke_segments_fit(line.points@));
            assert(line_fits(line.points@[i - 1], line.points@[i as int]));
            let ghost cur = screen_data.data@;
            draw_line(&mut screen_data.data, width, height, a, b, line.color);
            proof {
                lemma_plot_points_len(
                    cur,
                    width,
                    height,
                    line_points(a.0 as int, a.1 as int, b.0 as int, b.1 as int),
                    line.color@,
                );
                let t = line.points@.take(i + 1);
                assert(t.drop_last() =~= line.points@.take(i as int));
                assert(t[t.len() - 2] == a && t[t.len() - 1] == b);
            }
            i = i + 1;
        }
        proof {
            assert(line.points@.take(m as int) =~= line.points@);
            let sv = strokes_view(lines@);
            assert(sv.take(k + 1).drop_last() =~= sv.take(k as int));
            assert(sv.take(k + 1).last() == (line.points@, line.color@));
        }
        k = k + 1;
    }
    proof {
        assert(strokes_view(lines@).take(n as int) =~= strokes_view(lines@));
    }
    true
}

} // verus!
