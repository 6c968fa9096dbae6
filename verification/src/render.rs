//! Software rendering into a buffer of ARGB pixels.
//!
//! Every drawing operation is stated as a shape: the pixels inside the
//! shape take the colour, all others keep theirs. A shape may reach beyond
//! the buffer; what lies outside is cut off.

pub mod colors;
pub mod software;

use vstd::arithmetic::div_mod::lemma_fundamental_div_mod_converse;
use vstd::prelude::*;

verus! {

/// Color in ARGB format
pub type Color = u32;

/// True when the pixel `(x, y)` belongs to `shape`.
pub open spec fn in_shape(shape: spec_fn(int, int) -> bool, x: int, y: int) -> bool {
    shape(x, y)
}

/// The buffer with `color` on every pixel `(x, y)` for which `shape` holds.
/// The pixel `(x, y)` is the entry `y * width + x`.
pub open spec fn paint(
    buffer: Seq<u32>,
    width: int,
    shape: spec_fn(int, int) -> bool,
    color: u32,
) -> Seq<u32> {
    Seq::new(
        buffer.len(),
        |i: int|
            if in_shape(shape, i % width, i / width) {
                color
            } else {
                buffer[i]
            },
    )
}

/// The entry `y * width + x` is the pixel `(x, y)` and no other.
pub proof fn lemma_pixel_index(width: int, x: int, y: int)
    requires
        0 <= x < width,
        0 <= y,
    ensures
        (y * width + x) % width == x,
        (y * width + x) / width == y,
        0 <= y * width + x,
{
    lemma_fundamental_div_mod_converse(y * width + x, width, y, x);
    assert(0 <= y * width) by (nonlinear_arith)
        requires
            0 <= y,
            0 < width,
    ;
}

/// Every entry of a buffer of `width * height` pixels is a pixel of a row
/// below `height`.
pub proof fn lemma_index_pixel(width: int, height: int, i: int)
    requires
        0 <= i < width * height,
        0 <= width,
        0 <= height,
    ensures
        0 <= i % width < width,
        0 <= i / width < height,
        i == (i / width) * width + i % width,
{
    assert(width > 0) by (nonlinear_arith)
        requires
            0 <= i < width * height,
            0 <= width,
            0 <= height,
    ;
    vstd::arithmetic::div_mod::lemma_fundamental_div_mod(i, width);
    assert((i / width) * width == width * (i / width)) by (nonlinear_arith);
    assert(0 <= i / width < height) by (nonlinear_arith)
        requires
            i == width * (i / width) + i % width,
            0 <= i % width < width,
            0 <= i < width * height,
            0 <= height,
    ;
}

/// The shape that holds every pixel.
pub open spec fn everywhere() -> spec_fn(int, int) -> bool {
    |x: int, y: int| true
}

/// The shape of the single pixel `(px, py)`.
pub open spec fn point_shape(px: int, py: int) -> spec_fn(int, int) -> bool {
    |x: int, y: int| x == px && y == py
}

/// The shape of the rectangle with the corner `(rx, ry)`, `w` wide and `h`
/// high.
pub open spec fn rect_shape(rx: int, ry: int, w: int, h: int) -> spec_fn(int, int) -> bool {
    |x: int, y: int| rx <= x < rx + w && ry <= y < ry + h
}

/// The shape of the disc around `(cx, cy)` with the given radius; empty for
/// a negative radius.
pub open spec fn disc_shape(cx: int, cy: int, radius: int) -> spec_fn(int, int) -> bool {
    |x: int, y: int| radius >= 0 && (x - cx) * (x - cx) + (y - cy) * (y - cy) <= radius * radius
}

/// The shape `shape` with the pixel `(px, py)` added.
pub open spec fn with_point(shape: spec_fn(int, int) -> bool, px: int, py: int) -> spec_fn(
    int,
    int,
) -> bool {
    |x: int, y: int| shape(x, y) || (x == px && y == py)
}

/// The part of `shape` that a walk along the rows, each from left to right,
/// has passed when it stands at `(px, py)`.
pub open spec fn scanned(shape: spec_fn(int, int) -> bool, px: int, py: int) -> spec_fn(
    int,
    int,
) -> bool {
    |x: int, y: int| shape(x, y) && (y < py || (y == py && x < px))
}

/// The shape of the pixels listed in `points`.
pub open spec fn points_shape(points: Seq<(int, int)>) -> spec_fn(int, int) -> bool {
    |x: int, y: int| points.contains((x, y))
}

/// Shapes that hold the same pixels of the buffer paint the same picture.
pub proof fn lemma_paint_agree(
    buffer: Seq<u32>,
    width: int,
    height: int,
    first: spec_fn(int, int) -> bool,
    second: spec_fn(int, int) -> bool,
    color: u32,
)
    requires
        0 <= width,
        0 <= height,
        buffer.len() == width * height,
        forall|x: int, y: int|
            0 <= x < width && 0 <= y < height ==> #[trigger] in_shape(first, x, y) == in_shape(
                second,
                x,
                y,
            ),
    ensures
        paint(buffer, width, first, color) == paint(buffer, width, second, color),
{
    assert forall|i: int| 0 <= i < buffer.len() implies paint(buffer, width, first, color)[i]
        == paint(buffer, width, second, color)[i] by {
        lemma_index_pixel(width, height, i);
    }
    assert(paint(buffer, width, first, color) =~= paint(buffer, width, second, color));
}

/// Setting one more pixel of a painted picture paints the shape with that
/// pixel added.
pub proof fn lemma_paint_point(
    buffer: Seq<u32>,
    width: int,
    height: int,
    shape: spec_fn(int, int) -> bool,
    px: int,
    py: int,
    color: u32,
)
    requires
        0 <= width,
        0 <= height,
        buffer.len() == width * height,
    ensures
        paint(buffer, width, with_point(shape, px, py), color) == (if 0 <= px < width && 0 <= py
            < height {
            paint(buffer, width, shape, color).update(py * width + px, color)
        } else {
            paint(buffer, width, shape, color)
        }),
{
    let before = paint(buffer, width, shape, color);
    let after = paint(buffer, width, with_point(shape, px, py), color);
    if 0 <= px < width && 0 <= py < height {
        lemma_pixel_index(width, px, py);
        assert(py * width + px < width * height) by (nonlinear_arith)
            requires
                0 <= px < width,
                0 <= py < height,
        ;
        let target = before.update(py * width + px, color);
        assert forall|i: int| 0 <= i < buffer.len() implies after[i] == target[i] by {
            lemma_index_pixel(width, height, i);
        }
        assert(after =~= target);
    } else {
        assert forall|i: int| 0 <= i < buffer.len() implies after[i] == before[i] by {
            lemma_index_pixel(width, height, i);
        }
        assert(after =~= before);
    }
}

/// Painting nothing changes nothing.
pub proof fn lemma_paint_nothing(
    buffer: Seq<u32>,
    width: int,
    height: int,
    shape: spec_fn(int, int) -> bool,
    color: u32,
)
    requires
        0 <= width,
        0 <= height,
        buffer.len() == width * height,
        forall|x: int, y: int|
            0 <= x < width && 0 <= y < height ==> !#[trigger] in_shape(shape, x, y),
    ensures
        paint(buffer, width, shape, color) == buffer,
{
    assert forall|i: int| 0 <= i < buffer.len() implies paint(buffer, width, shape, color)[i]
        == buffer[i] by {
        lemma_index_pixel(width, height, i);
    }
    assert(paint(buffer, width, shape, color) =~= buffer);
}

/// One more pixel of a walk along a row: the picture changes at that pixel
/// if it belongs to the shape, and not at all otherwise.
pub proof fn lemma_scan_step(
    buffer: Seq<u32>,
    width: int,
    height: int,
    shape: spec_fn(int, int) -> bool,
    px: int,
    py: int,
    color: u32,
)
    requires
        0 <= px < width,
        0 <= py < height,
        buffer.len() == width * height,
    ensures
        paint(buffer, width, scanned(shape, px + 1, py), color) == (if in_shape(shape, px, py) {
            paint(buffer, width, scanned(shape, px, py), color).update(py * width + px, color)
        } else {
            paint(buffer, width, scanned(shape, px, py), color)
        }),
{
    if in_shape(shape, px, py) {
        lemma_paint_point(buffer, width, height, scanned(shape, px, py), px, py, color);
        lemma_paint_agree(
            buffer,
            width,
            height,
            with_point(scanned(shape, px, py), px, py),
            scanned(shape, px + 1, py),
            color,
        );
    } else {
        lemma_paint_agree(
            buffer,
            width,
            height,
            scanned(shape, px, py),
            scanned(shape, px + 1, py),
            color,
        );
    }
}

/// The end of one row of a walk is the start of the next, where the shape
/// has no pixel of the buffer outside the columns `x0 .. x1`.
pub proof fn lemma_scan_row(
    buffer: Seq<u32>,
    width: int,
    height: int,
    shape: spec_fn(int, int) -> bool,
    x0: int,
    x1: int,
    py: int,
    color: u32,
)
    requires
        0 <= width,
        0 <= height,
        buffer.len() == width * height,
        forall|x: int, y: int|
            0 <= x < width && 0 <= y < height && #[trigger] in_shape(shape, x, y) ==> x0 <= x < x1,
    ensures
        paint(buffer, width, scanned(shape, x1, py), color) == paint(
            buffer,
            width,
            scanned(shape, x0, py + 1),
            color,
        ),
{
    assert forall|x: int, y: int| 0 <= x < width && 0 <= y < height implies #[trigger] in_shape(
        scanned(shape, x1, py),
        x,
        y,
    ) == in_shape(scanned(shape, x0, py + 1), x, y) by {
        if in_shape(shape, x, y) {
            assert(x0 <= x < x1);
        }
    }
    lemma_paint_agree(
        buffer,
        width,
        height,
        scanned(shape, x1, py),
        scanned(shape, x0, py + 1),
        color,
    );
}

/// A walk that starts at the first row and column of a shape has passed
/// nothing, and one that stands behind its last row has passed all of it.
pub proof fn lemma_scan_ends(
    buffer: Seq<u32>,
    width: int,
    height: int,
    shape: spec_fn(int, int) -> bool,
    x0: int,
    y0: int,
    y1: int,
    color: u32,
)
    requires
        0 <= width,
        0 <= height,
        buffer.len() == width * height,
        forall|x: int, y: int|
            0 <= x < width && 0 <= y < height && #[trigger] in_shape(shape, x, y) ==> x0 <= x
                && y0 <= y < y1,
    ensures
        paint(buffer, width, scanned(shape, x0, y0), color) == buffer,
        y0 <= y1 ==> paint(buffer, width, scanned(shape, x0, y1), color) == paint(
            buffer,
            width,
            shape,
            color,
        ),
        y0 > y1 ==> paint(buffer, width, shape, color) == buffer,
{
    assert forall|x: int, y: int| 0 <= x < width && 0 <= y < height implies !#[trigger] in_shape(
        scanned(shape, x0, y0),
        x,
        y,
    ) by {
        if in_shape(shape, x, y) {
            assert(x0 <= x && y0 <= y);
        }
    }
    lemma_paint_nothing(buffer, width, height, scanned(shape, x0, y0), color);
    if y0 <= y1 {
        assert forall|x: int, y: int|
            0 <= x < width && 0 <= y < height implies #[trigger] in_shape(
            scanned(shape, x0, y1),
            x,
            y,
        ) == in_shape(shape, x, y) by {
            if in_shape(shape, x, y) {
                assert(y < y1);
            }
        }
        lemma_paint_agree(buffer, width, height, scanned(shape, x0, y1), shape, color);
    } else {
        assert forall|x: int, y: int|
            0 <= x < width && 0 <= y < height implies !#[trigger] in_shape(shape, x, y) by {
            if in_shape(shape, x, y) {
                assert(y0 <= y < y1);
            }
        }
        lemma_paint_nothing(buffer, width, height, shape, color);
    }
}

/// A pixel of a disc lies within the radius of the centre along each axis.
pub proof fn lemma_disc_bounds(cx: int, cy: int, radius: int, x: int, y: int)
    requires
        in_shape(disc_shape(cx, cy, radius), x, y),
    ensures
        cx - radius <= x <= cx + radius,
        cy - radius <= y <= cy + radius,
{
    assert(cx - radius <= x <= cx + radius && cy - radius <= y <= cy + radius) by (nonlinear_arith)
        requires
            radius >= 0,
            (x - cx) * (x - cx) + (y - cy) * (y - cy) <= radius * radius,
    ;
}

/// `v` kept between `low` and `high`.
fn clamp_i64(v: i64, low: i64, high: i64) -> (r: i64)
    requires
        low <= high,
    ensures
        low <= r <= high,
        low <= v <= high ==> r == v,
        v < low ==> r == low,
        v > high ==> r == high,
{
    if v < low {
        low
    } else if v > high {
        high
    } else {
        v
    }
}

/// The distance between `a` and `b`.
pub open spec fn span(a: int, b: int) -> int {
    if a <= b {
        b - a
    } else {
        a - b
    }
}

/// The direction from `a` to `b`: one, or minus one where `b` is not above
/// `a`.
pub open spec fn direction(a: int, b: int) -> int {
    if a < b {
        1
    } else {
        -1
    }
}

/// The pixels that Bresenham's walk visits from `(x, y)` to `(x1, y1)` in
/// at most `steps` steps, the start included.
///
/// `dx` is the distance to cover along X and `dy` minus the distance along
/// Y. The error term `err` decides each step: the walk moves along X where
/// twice the error is at least `dy`, and along Y where it is at most `dx`.
pub open spec fn line_from(
    x: int,
    y: int,
    x1: int,
    y1: int,
    dx: int,
    dy: int,
    err: int,
    steps: nat,
) -> Seq<(int, int)>
    decreases steps,
{
    if (x == x1 && y == y1) || steps == 0 {
        seq![(x, y)]
    } else {
        let along_x = 2 * err >= dy;
        let along_y = 2 * err <= dx;
        seq![(x, y)] + line_from(
            if along_x {
                x + direction(x, x1)
            } else {
                x
            },
            if along_y {
                y + direction(y, y1)
            } else {
                y
            },
            x1,
            y1,
            dx,
            dy,
            err + (if along_x {
                dy
            } else {
                0
            }) + (if along_y {
                dx
            } else {
                0
            }),
            (steps - 1) as nat,
        )
    }
}

/// The pixels of the line from `(x0, y0)` to `(x1, y1)`, in the order of
/// Bresenham's walk.
pub open spec fn line_points(x0: int, y0: int, x1: int, y1: int) -> Seq<(int, int)> {
    line_from(
        x0,
        y0,
        x1,
        y1,
        span(x0, x1),
        -span(y0, y1),
        span(x0, x1) - span(y0, y1),
        (span(x0, x1) + span(y0, y1)) as nat,
    )
}

/// The shape of the line from `(x0, y0)` to `(x1, y1)`.
pub open spec fn line_shape(x0: int, y0: int, x1: int, y1: int) -> spec_fn(int, int) -> bool {
    points_shape(line_points(x0, y0, x1, y1))
}

/// The error term of Bresenham's walk after `nx` steps along X and `ny`
/// along Y, of `dx` and `down` to make.
pub open spec fn line_error(dx: int, down: int, nx: int, ny: int) -> int {
    dx - down + ny * dx - nx * down
}

/// Bresenham's walk never steps past its end: once it has covered one
/// axis, the error term keeps it from moving along that axis again, and
/// it always moves along one of the two.
proof fn lemma_line_error(dx: int, down: int, nx: int, ny: int)
    requires
        0 <= nx <= dx <= 0x1_0000_0000,
        0 <= ny <= down <= 0x1_0000_0000,
        nx < dx || ny < down,
    ensures
        nx == dx ==> 2 * line_error(dx, down, nx, ny) < -down,
        ny == down ==> 2 * line_error(dx, down, nx, ny) > dx,
        line_error(dx, down, nx + 1, ny) == line_error(dx, down, nx, ny) - down,
        line_error(dx, down, nx, ny + 1) == line_error(dx, down, nx, ny) + dx,
        line_error(dx, down, nx + 1, ny + 1) == line_error(dx, down, nx, ny) - down + dx,
        -0x2_0000_0000_0000_0000 <= line_error(dx, down, nx, ny) <= 0x2_0000_0000_0000_0000,
{
    assert((ny + 1) * dx == ny * dx + dx) by (nonlinear_arith);
    assert((nx + 1) * down == nx * down + down) by (nonlinear_arith);
    if nx == dx {
        assert(dx + ny * dx - dx * down <= 0) by (nonlinear_arith)
            requires
                0 <= dx,
                0 <= ny < down,
        ;
    }
    if ny == down {
        assert(down * dx - nx * down - down >= 0) by (nonlinear_arith)
            requires
                0 <= down,
                0 <= nx < dx,
        ;
    }
    assert(0 <= nx * down <= 0x1_0000_0000_0000_0000) by (nonlinear_arith)
        requires
            0 <= nx <= 0x1_0000_0000,
            0 <= down <= 0x1_0000_0000,
    ;
    assert(0 <= ny * dx <= 0x1_0000_0000_0000_0000) by (nonlinear_arith)
        requires
            0 <= ny <= 0x1_0000_0000,
            0 <= dx <= 0x1_0000_0000,
    ;
}

/// A list with one more point is the shape of the list with that point
/// added.
proof fn lemma_points_pushed(
    buffer: Seq<u32>,
    width: int,
    height: int,
    points: Seq<(int, int)>,
    px: int,
    py: int,
    color: u32,
)
    requires
        0 <= width,
        0 <= height,
        buffer.len() == width * height,
    ensures
        paint(buffer, width, points_shape(points.push((px, py))), color) == paint(
            buffer,
            width,
            with_point(points_shape(points), px, py),
            color,
        ),
{
    let longer = points.push((px, py));
    assert forall|x: int, y: int| 0 <= x < width && 0 <= y < height implies #[trigger] in_shape(
        points_shape(longer),
        x,
        y,
    ) == in_shape(with_point(points_shape(points), px, py), x, y) by {
        if longer.contains((x, y)) {
            let k = choose|k: int| 0 <= k < longer.len() && longer[k] == (x, y);
            if k < points.len() {
                assert(points[k] == (x, y));
            }
        }
        if points.contains((x, y)) {
            let k = choose|k: int| 0 <= k < points.len() && points[k] == (x, y);
            assert(longer[k] == (x, y));
        }
        if x == px && y == py {
            assert(longer[points.len() as int] == (x, y));
        }
    }
    lemma_paint_agree(
        buffer,
        width,
        height,
        points_shape(longer),
        with_point(points_shape(points), px, py),
        color,
    );
}

/// Software renderer
pub struct Renderer {
    pub width: u32,
    pub height: u32,
    pub buffer: Vec<u32>,
}

impl Renderer {
    /// True when the buffer holds one entry for each pixel.
    pub open spec fn well_formed(&self) -> bool {
        self.buffer@.len() == self.width * self.height
    }

    /// True when `(x, y)` is a pixel of the buffer.
    pub open spec fn holds(&self, x: int, y: int) -> bool {
        0 <= x < self.width && 0 <= y < self.height
    }

    /// The colour of the pixel `(x, y)`.
    pub open spec fn pixel(&self, x: int, y: int) -> u32 {
        self.buffer@[y * self.width + x]
    }

    /// True when `self` is `before` with `color` on the pixels of `shape`.
    pub open spec fn is_painted(
        &self,
        before: &Renderer,
        shape: spec_fn(int, int) -> bool,
        color: u32,
    ) -> bool {
        &&& self.width == before.width
        &&& self.height == before.height
        &&& self.buffer@ == paint(before.buffer@, before.width as int, shape, color)
    }

    /// A buffer of `width` by `height` pixels, all zero.
    pub fn new(width: u32, height: u32) -> (r: Self)
        requires
            width * height <= u32::MAX,
        ensures
            r.well_formed(),
            r.width == width,
            r.height == height,
            forall|i: int| 0 <= i < r.buffer@.len() ==> r.buffer@[i] == 0,
    {
        assert(width * height <= usize::MAX);
        let size: usize = (width * height) as usize;
        let mut buffer: Vec<u32> = Vec::new();
        let mut i: usize = 0;
        while i < size
            invariant
                i <= size,
                buffer@.len() == i,
                forall|k: int| 0 <= k < i ==> buffer@[k] == 0,
            decreases size - i,
        {
            buffer.push(0);
            i += 1;
        }
        Renderer { width, height, buffer }
    }

    /// The place of the pixel `(x, y)` in the buffer, if it is a pixel of
    /// the buffer.
    fn index_of(&self, x: i64, y: i64) -> (r: Option<usize>)
        requires
            self.well_formed(),
        ensures
            r is Some <==> self.holds(x as int, y as int),
            r matches Some(i) ==> i == y * self.width + x && i < self.buffer@.len(),
    {
        if x >= 0 && x < self.width as i64 && y >= 0 && y < self.height as i64 {
            let row: usize = y as usize;
            let column: usize = x as usize;
            let width: usize = self.width as usize;
            let len: usize = self.buffer.len();
            assert(0 <= row * width && row * width + column < len) by (nonlinear_arith)
                requires
                    0 <= column < width,
                    0 <= row < self.height,
                    len == width * self.height,
            ;
            Some(row * width + column)
        } else {
            None
        }
    }

    /// Clear the buffer
    pub fn clear(&mut self, color: Color)
        requires
            old(self).well_formed(),
        ensures
            final(self).well_formed(),
            final(self).is_painted(old(self), everywhere(), color),
    {
        let n: usize = self.buffer.len();
        let mut i: usize = 0;
        while i < n
            invariant
                i <= n,
                n == self.buffer@.len(),
                self.width == old(self).width,
                self.height == old(self).height,
                self.buffer@.len() == old(self).buffer@.len(),
                forall|k: int| 0 <= k < i ==> self.buffer@[k] == color,
            decreases n - i,
        {
            self.buffer[i] = color;
            i += 1;
        }
        assert(self.buffer@ =~= paint(
            old(self).buffer@,
            old(self).width as int,
            everywhere(),
            color,
        ));
    }

    /// Set a pixel
    #[inline]
    pub fn set_pixel(&mut self, x: i32, y: i32, color: Color)
        requires
            old(self).well_formed(),
        ensures
            final(self).well_formed(),
            final(self).is_painted(old(self), point_shape(x as int, y as int), color),
    {
        self.put(x as i64, y as i64, color);
    }

    /// Sets the pixel `(x, y)`, whose coordinates may lie beyond 32 bits.
    fn put(&mut self, x: i64, y: i64, color: Color)
        requires
            old(self).well_formed(),
        ensures
            final(self).well_formed(),
            final(self).is_painted(old(self), point_shape(x as int, y as int), color),
            final(self).buffer@ == (if old(self).holds(x as int, y as int) {
                old(self).buffer@.update(y * old(self).width + x, color)
            } else {
                old(self).buffer@
            }),
    {
        let ghost w = self.width as int;
        let ghost h = self.height as int;
        if let Some(i) = self.index_of(x, y) {
            self.buffer[i] = color;
            proof {
                lemma_pixel_index(w, x as int, y as int);
                assert forall|k: int| 0 <= k < self.buffer@.len() implies self.buffer@[k] == paint(
                    old(self).buffer@,
                    w,
                    point_shape(x as int, y as int),
                    color,
                )[k] by {
                    lemma_index_pixel(w, h, k);
                }
                assert(self.buffer@ =~= paint(
                    old(self).buffer@,
                    w,
                    point_shape(x as int, y as int),
                    color,
                ));
            }
        } else {
            proof {
                assert forall|k: int| 0 <= k < self.buffer@.len() implies self.buffer@[k] == paint(
                    old(self).buffer@,
                    w,
                    point_shape(x as int, y as int),
                    color,
                )[k] by {
                    lemma_index_pixel(w, h, k);
                }
                assert(self.buffer@ =~= paint(
                    old(self).buffer@,
                    w,
                    point_shape(x as int, y as int),
                    color,
                ));
            }
        }
    }

    /// Get a pixel: its colour, or zero for a place outside the buffer.
    #[inline]
    pub fn get_pixel(&self, x: i32, y: i32) -> (r: Color)
        requires
            self.well_formed(),
        ensures
            r == (if self.holds(x as int, y as int) {
                self.pixel(x as int, y as int)
            } else {
                0
            }),
    {
        match self.index_of(x as i64, y as i64) {
            Some(i) => self.buffer[i],
            None => 0,
        }
    }

    /// Get buffer for display
    pub fn buffer(&self) -> (r: &[u32])
        ensures
            r@ == self.buffer@,
    {
        self.buffer.as_slice()
    }

    /// Get mutable buffer. What is written through it becomes the buffer;
    /// its length cannot change.
    pub fn buffer_mut(&mut self) -> (r: &mut [u32])
        ensures
            r@ == old(self).buffer@,
            final(self).buffer@ == final(r)@,
            final(self).width == old(self).width,
            final(self).height == old(self).height,
    {
        self.buffer.as_mut_slice()
    }

    /// Draw a filled rectangle
    pub fn fill_rect(&mut self, x: i32, y: i32, w: u32, h: u32, color: Color)
        requires
            old(self).well_formed(),
        ensures
            final(self).well_formed(),
            final(self).is_painted(
                old(self),
                rect_shape(x as int, y as int, w as int, h as int),
                color,
            ),
    {
        self.fill_box(x as i64, y as i64, x as i64 + w as i64, y as i64 + h as i64, color);
    }

    /// Paints the pixels from column `left` up to, not including, column
    /// `right`, in the rows from `top` up to, not including, `bottom`.
    pub(crate) fn fill_box(&mut self, left: i64, top: i64, right: i64, bottom: i64, color: Color)
        requires
            old(self).well_formed(),
        ensures
            final(self).well_formed(),
            final(self).is_painted(
                old(self),
                rect_shape(left as int, top as int, right - left, bottom - top),
                color,
            ),
    {
        let width: i64 = self.width as i64;
        let height: i64 = self.height as i64;
        let ghost start = self.buffer@;
        let ghost shape = rect_shape(left as int, top as int, right - left, bottom - top);
        if right <= left || bottom <= top {
            proof {
                lemma_paint_nothing(start, width as int, height as int, shape, color);
            }
            return ;
        }
        let x0: i64 = clamp_i64(left, 0, width);
        let y0: i64 = clamp_i64(top, 0, height);
        let x1: i64 = clamp_i64(right, 0, width);
        let y1: i64 = clamp_i64(bottom, 0, height);
        proof {
            assert forall|px: int, py: int|
                0 <= px < width && 0 <= py < height && #[trigger] in_shape(
                    shape,
                    px,
                    py,
                ) implies x0 <= px < x1 && y0 <= py < y1 by {}
            lemma_scan_ends(
                start,
                width as int,
                height as int,
                shape,
                x0 as int,
                y0 as int,
                y1 as int,
                color,
            );
        }

        let mut py: i64 = y0;
        while py < y1
            invariant
                y0 <= py <= y1,
                0 <= x0 <= x1 <= width,
                0 <= y0 <= y1 <= height,
                width == self.width,
                height == self.height,
                self.width == old(self).width,
                self.height == old(self).height,
                self.well_formed(),
                start == old(self).buffer@,
                shape == rect_shape(left as int, top as int, right - left, bottom - top),
                forall|px: int, py: int|
                    0 <= px < width && 0 <= py < height && #[trigger] in_shape(shape, px, py)
                        ==> x0 <= px < x1,
                forall|px: int, py: int|
                    x0 <= px < x1 && y0 <= py < y1 ==> #[trigger] in_shape(shape, px, py),
                self.buffer@ == paint(
                    start,
                    width as int,
                    scanned(shape, x0 as int, py as int),
                    color,
                ),
            decreases y1 - py,
        {
            let mut px: i64 = x0;
            while px < x1
                invariant
                    y0 <= py < y1,
                    x0 <= px <= x1,
                    0 <= x0 <= x1 <= width,
                    0 <= y0 <= y1 <= height,
                    width == self.width,
                    height == self.height,
                    self.width == old(self).width,
                    self.height == old(self).height,
                    self.well_formed(),
                    start == old(self).buffer@,
                    forall|px: int, py: int|
                        x0 <= px < x1 && y0 <= py < y1 ==> #[trigger] in_shape(shape, px, py),
                    self.buffer@ == paint(
                        start,
                        width as int,
                        scanned(shape, px as int, py as int),
                        color,
                    ),
                decreases x1 - px,
            {
                proof {
                    assert(in_shape(shape, px as int, py as int));
                    lemma_scan_step(
                        start,
                        width as int,
                        height as int,
                        shape,
                        px as int,
                        py as int,
                        color,
                    );
                }
                self.put(px, py, color);
                px += 1;
            }
            proof {
                lemma_scan_row(
                    start,
                    width as int,
                    height as int,
                    shape,
                    x0 as int,
                    x1 as int,
                    py as int,
                    color,
                );
            }
            py += 1;
        }
    }

    /// Draw a circle
    pub fn fill_circle(&mut self, cx: i32, cy: i32, radius: i32, color: Color)
        requires
            old(self).well_formed(),
        ensures
            final(self).well_formed(),
            final(self).is_painted(
                old(self),
                disc_shape(cx as int, cy as int, radius as int),
                color,
            ),
    {
        let width: i64 = self.width as i64;
        let height: i64 = self.height as i64;
        let ghost start = self.buffer@;
        let ghost shape = disc_shape(cx as int, cy as int, radius as int);
        if radius < 0 {
            proof {
                lemma_paint_nothing(start, width as int, height as int, shape, color);
            }
            return ;
        }
        let r: i64 = radius as i64;
        let x0: i64 = clamp_i64(cx as i64 - r, 0, width);
        let y0: i64 = clamp_i64(cy as i64 - r, 0, height);
        let x1: i64 = clamp_i64(cx as i64 + r + 1, 0, width);
        let y1: i64 = clamp_i64(cy as i64 + r + 1, 0, height);
        assert(x0 <= x1 && y0 <= y1);
        assert(0 <= r * r <= 0x4000_0000_0000_0000) by (nonlinear_arith)
            requires
                0 <= r <= 0x8000_0000,
        ;
        let r2: i128 = (r as i128) * (r as i128);
        proof {
            assert forall|px: int, py: int|
                0 <= px < width && 0 <= py < height && #[trigger] in_shape(
                    shape,
                    px,
                    py,
                ) implies x0 <= px < x1 && y0 <= py < y1 by {
                lemma_disc_bounds(cx as int, cy as int, radius as int, px, py);
            }
            lemma_scan_ends(
                start,
                width as int,
                height as int,
                shape,
                x0 as int,
                y0 as int,
                y1 as int,
                color,
            );
        }

        let mut py: i64 = y0;
        while py < y1
            invariant
                y0 <= py <= y1,
                0 <= x0 <= x1 <= width,
                0 <= y0 <= y1 <= height,
                width == self.width,
                height == self.height,
                self.width == old(self).width,
                self.height == old(self).height,
                self.well_formed(),
                start == old(self).buffer@,
                r == radius,
                r >= 0,
                r2 == r * r,
                shape == disc_shape(cx as int, cy as int, radius as int),
                forall|px: int, py: int|
                    0 <= px < width && 0 <= py < height && #[trigger] in_shape(shape, px, py)
                        ==> x0 <= px < x1,
                self.buffer@ == paint(
                    start,
                    width as int,
                    scanned(shape, x0 as int, py as int),
                    color,
                ),
            decreases y1 - py,
        {
            let mut px: i64 = x0;
            while px < x1
                invariant
                    y0 <= py < y1,
                    x0 <= px <= x1,
                    0 <= x0 <= x1 <= width,
                    0 <= y0 <= y1 <= height,
                    width == self.width,
                    height == self.height,
                    self.width == old(self).width,
                    self.height == old(self).height,
                    self.well_formed(),
                    start == old(self).buffer@,
                    r == radius,
                    r >= 0,
                    r2 == r * r,
                    shape == disc_shape(cx as int, cy as int, radius as int),
                    self.buffer@ == paint(
                        start,
                        width as int,
                        scanned(shape, px as int, py as int),
                        color,
                    ),
                decreases x1 - px,
            {
                let dx: i128 = (px - cx as i64) as i128;
                let dy: i128 = (py - cy as i64) as i128;
                assert(0 <= dx * dx < 0x4_0000_0000_0000_0000 && 0 <= dy * dy
                    < 0x4_0000_0000_0000_0000) by (nonlinear_arith)
                    requires
                        -0x2_0000_0000 < dx < 0x2_0000_0000,
                        -0x2_0000_0000 < dy < 0x2_0000_0000,
                ;
                proof {
                    lemma_scan_step(
                        start,
                        width as int,
                        height as int,
                        shape,
                        px as int,
                        py as int,
                        color,
                    );
                }
                if dx * dx + dy * dy <= r2 {
                    assert(in_shape(shape, px as int, py as int));
                    self.put(px, py, color);
                } else {
                    assert(!in_shape(shape, px as int, py as int));
                }
                px += 1;
            }
            proof {
                lemma_scan_row(
                    start,
                    width as int,
                    height as int,
                    shape,
                    x0 as int,
                    x1 as int,
                    py as int,
                    color,
                );
            }
            py += 1;
        }
    }

    /// Draw a line (Bresenham)
    pub fn draw_line(&mut self, x0: i32, y0: i32, x1: i32, y1: i32, color: Color)
        requires
            old(self).well_formed(),
        ensures
            final(self).well_formed(),
            final(self).is_painted(
                old(self),
                line_shape(x0 as int, y0 as int, x1 as int, y1 as int),
                color,
            ),
    {
        let tx: i64 = x1 as i64;
        let ty: i64 = y1 as i64;
        let dx: i64 = if x0 <= x1 { tx - x0 as i64 } else { x0 as i64 - tx };
        let down: i64 = if y0 <= y1 { ty - y0 as i64 } else { y0 as i64 - ty };
        let sx: i64 = if x0 < x1 { 1 } else { -1 };
        let sy: i64 = if y0 < y1 { 1 } else { -1 };
        let mut err: i128 = dx as i128 - down as i128;
        let mut x: i64 = x0 as i64;
        let mut y: i64 = y0 as i64;

        let ghost start = self.buffer@;
        let ghost w = self.width as int;
        let ghost h = self.height as int;
        let ghost line = line_points(x0 as int, y0 as int, x1 as int, y1 as int);
        let ghost mut nx: int = 0;
        let ghost mut ny: int = 0;
        let ghost mut fuel: nat = (dx + down) as nat;
        let ghost mut visited: Seq<(int, int)> = Seq::empty();
        proof {
            assert(0 * dx == 0 && 0 * down == 0) by (nonlinear_arith);
            assert(visited + line_from(
                x as int,
                y as int,
                tx as int,
                ty as int,
                dx as int,
                -down,
                err as int,
                fuel,
            ) =~= line);
            lemma_paint_nothing(start, w, h, points_shape(visited), color);
        }

        loop
            invariant_except_break
                0 <= nx <= dx,
                0 <= ny <= down,
                x == (if x0 <= x1 {
                    x0 + nx
                } else {
                    x0 - nx
                }),
                y == (if y0 <= y1 {
                    y0 + ny
                } else {
                    y0 - ny
                }),
                err == line_error(dx as int, down as int, nx, ny),
                fuel >= (dx - nx) + (down - ny),
                visited + line_from(
                    x as int,
                    y as int,
                    tx as int,
                    ty as int,
                    dx as int,
                    -down,
                    err as int,
                    fuel,
                ) == line,
                self.buffer@ == paint(start, w, points_shape(visited), color),
            invariant
                tx == x1,
                ty == y1,
                dx == span(x0 as int, x1 as int),
                down == span(y0 as int, y1 as int),
                sx == direction(x0 as int, x1 as int),
                sy == direction(y0 as int, y1 as int),
                w == self.width,
                h == self.height,
                start.len() == w * h,
                start == old(self).buffer@,
                self.width == old(self).width,
                self.height == old(self).height,
                self.well_formed(),
                line == line_points(x0 as int, y0 as int, x1 as int, y1 as int),
            ensures
                self.buffer@ == paint(start, w, points_shape(line), color),
            decreases (dx - nx) + (down - ny),
        {
            self.put(x, y, color);
            proof {
                lemma_paint_point(start, w, h, points_shape(visited), x as int, y as int, color);
                lemma_points_pushed(start, w, h, visited, x as int, y as int, color);
            }
            if x == tx && y == ty {
                proof {
                    assert(visited + seq![(x as int, y as int)] =~= visited.push(
                        (x as int, y as int),
                    ));
                }
                break ;
            }
            proof {
                lemma_line_error(dx as int, down as int, nx, ny);
                let along_x = 2 * err >= -down;
                let along_y = 2 * err <= dx;
                let rest = line_from(
                    if along_x {
                        x + direction(x as int, tx as int)
                    } else {
                        x as int
                    },
                    if along_y {
                        y + direction(y as int, ty as int)
                    } else {
                        y as int
                    },
                    tx as int,
                    ty as int,
                    dx as int,
                    -down,
                    err + (if along_x {
                        -down
                    } else {
                        0
                    }) + (if along_y {
                        dx as int
                    } else {
                        0
                    }),
                    (fuel - 1) as nat,
                );
                assert(visited + (seq![(x as int, y as int)] + rest) =~= visited.push(
                    (x as int, y as int),
                ) + rest);
                visited = visited.push((x as int, y as int));
                fuel = (fuel - 1) as nat;
            }
            let e2: i128 = 2 * err;
            if e2 >= -(down as i128) {
                err -= down as i128;
                x += sx;
                proof {
                    nx = nx + 1;
                }
            }
            if e2 <= dx as i128 {
                err += dx as i128;
                y += sy;
                proof {
                    ny = ny + 1;
                }
            }
        }
    }

    /// Draw text (simple 8x8 font placeholder): no font is built in, and
    /// nothing is drawn.
    pub fn draw_text(&mut self, _text: &str, _x: i32, _y: i32, _color: Color)
        ensures
            *final(self) == *old(self),
    {
    }
}

/// Draw command for batching
#[derive(Clone, Copy, Debug)]
pub enum DrawCommand {
    Clear(Color),
    Pixel { x: i32, y: i32, color: Color },
    Rect { x: i32, y: i32, w: u32, h: u32, color: Color },
    Circle { x: i32, y: i32, radius: i32, color: Color },
    Line { x0: i32, y0: i32, x1: i32, y1: i32, color: Color },
}

impl DrawCommand {
    /// The pixels that the command paints.
    pub open spec fn shape(self) -> spec_fn(int, int) -> bool {
        match self {
            DrawCommand::Clear(_) => everywhere(),
            DrawCommand::Pixel { x, y, .. } => point_shape(x as int, y as int),
            DrawCommand::Rect { x, y, w, h, .. } => rect_shape(
                x as int,
                y as int,
                w as int,
                h as int,
            ),
            DrawCommand::Circle { x, y, radius, .. } => disc_shape(
                x as int,
                y as int,
                radius as int,
            ),
            DrawCommand::Line { x0, y0, x1, y1, .. } => line_shape(
                x0 as int,
                y0 as int,
                x1 as int,
                y1 as int,
            ),
        }
    }

    /// The colour that the command paints with.
    pub open spec fn color(self) -> Color {
        match self {
            DrawCommand::Clear(color) => color,
            DrawCommand::Pixel { color, .. } => color,
            DrawCommand::Rect { color, .. } => color,
            DrawCommand::Circle { color, .. } => color,
            DrawCommand::Line { color, .. } => color,
        }
    }
}

/// The buffer after the commands have been carried out one after the
/// other.
pub open spec fn run_commands(buffer: Seq<u32>, width: int, commands: Seq<DrawCommand>) -> Seq<u32>
    decreases commands.len(),
{
    if commands.len() == 0 {
        buffer
    } else {
        paint(
            run_commands(buffer, width, commands.drop_last()),
            width,
            commands.last().shape(),
            commands.last().color(),
        )
    }
}

/// Command buffer for deferred rendering
pub struct CommandBuffer {
    commands: Vec<DrawCommand>,
}

impl View for CommandBuffer {
    type V = Seq<DrawCommand>;

    /// The commands in the order in which they were recorded.
    closed spec fn view(&self) -> Seq<DrawCommand> {
        self.commands@
    }
}

impl CommandBuffer {
    pub fn new() -> (r: Self)
        ensures
            r@ == Seq::<DrawCommand>::empty(),
    {
        CommandBuffer { commands: Vec::new() }
    }

    /// Records that the whole buffer is to be filled.
    pub fn clear(&mut self, color: Color)
        ensures
            final(self)@ == old(self)@.push(DrawCommand::Clear(color)),
    {
        self.commands.push(DrawCommand::Clear(color));
    }

    /// Records a filled rectangle.
    pub fn rect(&mut self, x: i32, y: i32, w: u32, h: u32, color: Color)
        ensures
            final(self)@ == old(self)@.push(DrawCommand::Rect { x, y, w, h, color }),
    {
        self.commands.push(DrawCommand::Rect { x, y, w, h, color });
    }

    /// Records a filled circle.
    pub fn circle(&mut self, x: i32, y: i32, radius: i32, color: Color)
        ensures
            final(self)@ == old(self)@.push(DrawCommand::Circle { x, y, radius, color }),
    {
        self.commands.push(DrawCommand::Circle { x, y, radius, color });
    }

    /// Carries out the recorded commands on `renderer`, in their order.
    pub fn execute(&self, renderer: &mut Renderer)
        requires
            old(renderer).well_formed(),
        ensures
            final(renderer).well_formed(),
            final(renderer).width == old(renderer).width,
            final(renderer).height == old(renderer).height,
            final(renderer).buffer@ == run_commands(
                old(renderer).buffer@,
                old(renderer).width as int,
                self@,
            ),
    {
        let n: usize = self.commands.len();
        let mut k: usize = 0;
        while k < n
            invariant
                k <= n,
                n == self.commands@.len(),
                renderer.well_formed(),
                renderer.width == old(renderer).width,
                renderer.height == old(renderer).height,
                renderer.buffer@ == run_commands(
                    old(renderer).buffer@,
                    old(renderer).width as int,
                    self.commands@.take(k as int),
                ),
            decreases n - k,
        {
            proof {
                let next = self.commands@.take(k as int + 1);
                assert(next.drop_last() == self.commands@.take(k as int));
                assert(next.last() == self.commands@[k as int]);
            }
            match self.commands[k] {
                DrawCommand::Clear(c) => renderer.clear(c),
                DrawCommand::Pixel { x, y, color } => renderer.set_pixel(x, y, color),
                DrawCommand::Rect { x, y, w, h, color } => renderer.fill_rect(x, y, w, h, color),
                DrawCommand::Circle { x, y, radius, color } => renderer.fill_circle(
                    x,
                    y,
                    radius,
                    color,
                ),
                DrawCommand::Line { x0, y0, x1, y1, color } => renderer.draw_line(
                    x0,
                    y0,
                    x1,
                    y1,
                    color,
                ),
            }
            k += 1;
        }
        assert(self.commands@.take(n as int) == self.commands@);
    }

    /// Forgets the recorded commands.
    pub fn reset(&mut self)
        ensures
            final(self)@ == Seq::<DrawCommand>::empty(),
    {
        self.commands.clear();
    }
}

impl Default for CommandBuffer {
    fn default() -> (r: CommandBuffer)
        ensures
            r@ == Seq::<DrawCommand>::empty(),
    {
        CommandBuffer::new()
    }
}

} // verus!
