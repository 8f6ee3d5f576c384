//! The canvas: a square pixel buffer, the dataset to render, and the draw
//! pipeline that fills the background, paints axis lines with tick marks,
//! and paints every dataset point as a square dot.

use crate::point::Point;
use crate::point::in_neighborhood;
use crate::worksheet::WorkSheet;
use vstd::prelude::*;

verus! {

/// The error kind of the render path: the axis lines or a transformed point
/// would fall outside the pixel buffer.
#[derive(Debug, PartialEq, Eq, Structural, Clone, Copy)]
pub struct RenderError;

/// A square RGB pixel buffer.
#[verifier::external_body]
pub struct PixelBuffer {
    img: image::RgbImage,
}

/// The contents of a pixel buffer: a map from device coordinates to the
/// (red, green, blue) channel values of the pixel there.
pub uninterp spec fn buf_pixels(b: PixelBuffer) -> Map<(int, int), (u8, u8, u8)>;

/// The device coordinates of a square buffer of the given side length.
pub open spec fn square_dom(side: int) -> Set<(int, int)> {
    Set::new(|q: (int, int)| 0 <= q.0 < side && 0 <= q.1 < side)
}

/// Relies on image::RgbImage::new: a fresh zero-filled buffer with the given
/// square dimensions.
#[verifier::external_body]
fn buffer_new(side: u32) -> (r: PixelBuffer)
    requires
        3 * (side as int) * (side as int) <= usize::MAX,
    ensures
        buf_pixels(r).dom() == square_dom(side as int),
        forall|q: (int, int)|
            #[trigger] buf_pixels(r).dom().contains(q) ==> buf_pixels(r)[q] == (0u8, 0u8, 0u8),
{
    PixelBuffer { img: image::RgbImage::new(side, side) }
}

/// Relies on image::ImageBuffer::put_pixel: sets the pixel at (x, y) and
/// changes nothing else.
#[verifier::external_body]
fn buffer_put(b: &mut PixelBuffer, x: u32, y: u32, color: (u8, u8, u8))
    requires
        buf_pixels(*old(b)).dom().contains((x as int, y as int)),
    ensures
        buf_pixels(*final(b)) == buf_pixels(*old(b)).insert((x as int, y as int), color),
{
    b.img.put_pixel(x, y, image::Rgb([color.0, color.1, color.2]));
}

/// Relies on image::ImageBuffer::get_pixel: reads the pixel at (x, y).
#[verifier::external_body]
fn buffer_get(b: &PixelBuffer, x: u32, y: u32) -> (c: (u8, u8, u8))
    requires
        buf_pixels(*b).dom().contains((x as int, y as int)),
    ensures
        c == buf_pixels(*b)[(x as int, y as int)],
{
    let p = b.img.get_pixel(x, y);
    (p.0[0], p.0[1], p.0[2])
}

/// The background color.
pub open spec fn white() -> (u8, u8, u8) {
    (255u8, 255u8, 255u8)
}

/// The color of axis lines and tick marks.
pub open spec fn axis_color() -> (u8, u8, u8) {
    (255u8, 0u8, 0u8)
}

/// The color of rendered data points.
pub open spec fn point_color() -> (u8, u8, u8) {
    (200u8, 0u8, 0u8)
}

/// Whether device pixel (x, y) belongs to the axis drawing: the vertical
/// axis line at column `b`, the horizontal axis line at row `h - b`, or a
/// tick mark beside either line at every tenth row or column.
pub open spec fn on_axis(h: int, b: int, x: int, y: int) -> bool {
    ||| x == b
    ||| y == h - b
    ||| (y % 10 == 0 && (x == b + 1 || x == b + 2))
    ||| (x % 10 == 0 && (y == h - b - 1 || y == h - b - 2))
}

/// Whether (x, y) is painted by the vertical-axis pass once its loop has
/// handled rows below `ylim`.
spec fn vert_axis_upto(b: int, ylim: int, x: int, y: int) -> bool {
    y < ylim && (x == b || (y % 10 == 0 && (x == b + 1 || x == b + 2)))
}

/// Whether (x, y) is painted by the horizontal-axis pass once its loop has
/// handled columns below `xlim`.
spec fn horiz_axis_upto(h: int, b: int, xlim: int, x: int, y: int) -> bool {
    x < xlim && (y == h - b || (x % 10 == 0 && (y == h - b - 1 || y == h - b - 2)))
}

/// Whether device pixel (x, y) is painted when data point `p` is drawn on a
/// canvas of height `h` and border `b`: the point is flipped to device
/// space, expanded by the fixed dot radius of two, and offset by the border.
pub open spec fn covered_by_point(h: int, b: int, p: (i64, i64), x: int, y: int) -> bool {
    &&& p.0 - 2 + b <= x <= p.0 + 2 + b
    &&& h - p.1 - 2 - b <= y <= h - p.1 + 2 - b
}

/// Whether device pixel (x, y) is painted by some point of the dataset.
pub open spec fn on_points(h: int, b: int, pts: Seq<(i64, i64)>, x: int, y: int) -> bool {
    exists|k: int| 0 <= k < pts.len() && covered_by_point(h, b, #[trigger] pts[k], x, y)
}

/// Whether device pixel `q` is painted once the first `j` pixels of a dot's
/// neighborhood, offset by the border, have been put.
spec fn hit_by_upto(pts: Seq<Point>, j: int, b: int, q: (int, int)) -> bool {
    exists|k: int|
        0 <= k < j && q.0 == #[trigger] pts[k].x + b && q.1 == pts[k].y - b
}

/// Whether device pixel (x, y) is painted once the first `lim` points of the
/// dataset have been drawn.
spec fn on_points_upto(h: int, b: int, pts: Seq<(i64, i64)>, lim: int, x: int, y: int) -> bool {
    exists|k: int| 0 <= k < lim && covered_by_point(h, b, #[trigger] pts[k], x, y)
}

/// The color a finished drawing gives device pixel (x, y): data points over
/// axis marks over the white background.
pub open spec fn rendered_color(h: int, b: int, pts: Seq<(i64, i64)>, x: int, y: int) -> (
    u8,
    u8,
    u8,
) {
    if on_points(h, b, pts, x, y) {
        point_color()
    } else if on_axis(h, b, x, y) {
        axis_color()
    } else {
        white()
    }
}

/// The full buffer contents of a finished drawing. The result depends only
/// on the canvas height, border and dataset, never on the buffer's prior
/// contents, so re-drawing leaves the buffer exactly as one draw does.
pub open spec fn rendered(h: int, b: int, pts: Seq<(i64, i64)>) -> Map<(int, int), (u8, u8, u8)> {
    Map::new(
        |q: (int, int)| 0 <= q.0 < h && 0 <= q.1 < h,
        |q: (int, int)| rendered_color(h, b, pts, q.0, q.1),
    )
}

/// Whether the axis lines and their tick marks all land inside a buffer of
/// height `h` with border `b`.
pub open spec fn axis_fits(h: int, b: int) -> bool {
    1 <= b && b + 2 < h
}

/// Whether every pixel of the dot for data point `p` lands inside the
/// buffer.
pub open spec fn point_fits(h: int, b: int, p: (i64, i64)) -> bool {
    &&& 0 <= p.0 - 2 + b
    &&& p.0 + 2 + b < h
    &&& 0 <= h - p.1 - 2 - b
    &&& h - p.1 + 2 - b < h
}

/// Whether a whole draw succeeds: the axis fits and every dataset point's
/// dot fits.
pub open spec fn can_render(h: int, b: int, pts: Seq<(i64, i64)>) -> bool {
    &&& axis_fits(h, b)
    &&& forall|i: int| 0 <= i < pts.len() ==> point_fits(h, b, #[trigger] pts[i])
}

/// Something that renders itself in place once it is ready.
pub trait Drawable {
    /// Whether the value is in a fit state to draw.
    spec fn ready(&self) -> bool;

    /// Whether everything to render lands on the drawing surface, so that a
    /// draw must succeed.
    spec fn renderable(&self) -> bool;

    /// Whether `self` holds the finished drawing of `prior`'s content.
    spec fn drawn_from(&self, prior: &Self) -> bool;

    /// Renders in place; fails exactly where something would fall outside
    /// the drawing surface.
    fn draw(&mut self) -> (r: Result<(), RenderError>)
        requires
            old(self).ready(),
        ensures
            final(self).ready(),
            r is Ok <==> old(self).renderable(),
            r is Ok ==> final(self).drawn_from(old(self)),
    ;
}

/// Which axis a tick mark belongs to.
enum Axis {
    X,
    Y,
}

/// A square canvas: the pixel buffer, its side length and border margin in
/// device units, the dataset to render, and the destination path the caller
/// should save the finished image to.
pub struct Canvas {
    pub filename: &'static str,
    pub border: i64,
    pub buffer: PixelBuffer,
    pub height: i64,
    pub worksheet: WorkSheet,
}

impl Canvas {
    /// The canvas invariant: the border margin lies inside the buffer and
    /// the buffer is square of side `height`.
    pub open spec fn wf(self) -> bool {
        &&& 0 <= self.border < self.height
        &&& self.height <= u32::MAX
        &&& buf_pixels(self.buffer).dom() == square_dom(self.height as int)
    }

    /// A canvas over a fresh `height` by `height` pixel buffer.
    pub fn new(border: i64, filename: &'static str, height: i64, worksheet: WorkSheet) -> (r:
        Canvas)
        requires
            0 <= border < height,
            height <= u32::MAX,
            3 * height * height <= usize::MAX,
        ensures
            r.wf(),
            r.border == border,
            r.filename == filename,
            r.height == height,
            r.worksheet == worksheet,
            forall|q: (int, int)|
                #[trigger] buf_pixels(r.buffer).dom().contains(q) ==> buf_pixels(r.buffer)[q] == (
                    0u8,
                    0u8,
                    0u8,
                ),
    {
        let buffer = buffer_new(height as u32);
        Canvas { filename, border, buffer, height, worksheet }
    }

    /// The color of the pixel at device coordinates (x, y).
    pub fn pixel_at(&self, x: u32, y: u32) -> (c: (u8, u8, u8))
        requires
            self.wf(),
            x < self.height,
            y < self.height,
        ensures
            c == buf_pixels(self.buffer)[(x as int, y as int)],
    {
        buffer_get(&self.buffer, x, y)
    }

    /// Sets every pixel of the buffer to white.
    fn fill_in_white(&mut self)
        requires
            old(self).wf(),
        ensures
            final(self).wf(),
            final(self).border == old(self).border,
            final(self).filename == old(self).filename,
            final(self).height == old(self).height,
            final(self).worksheet == old(self).worksheet,
            buf_pixels(final(self).buffer) == Map::new(
                |q: (int, int)| 0 <= q.0 < old(self).height && 0 <= q.1 < old(self).height,
                |q: (int, int)| white(),
            ),
    {
        let h: u32 = self.height as u32;
        let mut x: u32 = 0;
        while x < h
            invariant
                0 <= x <= h,
                h == old(self).height,
                self.wf(),
                self.border == old(self).border,
                self.filename == old(self).filename,
                self.height == old(self).height,
                self.worksheet == old(self).worksheet,
                forall|q: (int, int)|
                    #[trigger] buf_pixels(self.buffer).dom().contains(q) && q.0 < x
                        ==> buf_pixels(self.buffer)[q] == white(),
            decreases h - x,
        {
            let mut y: u32 = 0;
            while y < h
                invariant
                    0 <= x < h,
                    0 <= y <= h,
                    h == old(self).height,
                    self.wf(),
                    self.border == old(self).border,
                    self.filename == old(self).filename,
                    self.height == old(self).height,
                    self.worksheet == old(self).worksheet,
                    forall|q: (int, int)|
                        #[trigger] buf_pixels(self.buffer).dom().contains(q) && (q.0 < x || (q.0
                            == x && q.1 < y)) ==> buf_pixels(self.buffer)[q] == white(),
                decreases h - y,
            {
                buffer_put(&mut self.buffer, x, y, (255u8, 255u8, 255u8));
                proof {
                    assert(buf_pixels(self.buffer).dom() =~= square_dom(
                        self.height as int,
                    ));
                }
                y = y + 1;
            }
            x = x + 1;
        }
        proof {
            assert(buf_pixels(self.buffer) =~= Map::new(
                |q: (int, int)| 0 <= q.0 < old(self).height && 0 <= q.1 < old(self).height,
                |q: (int, int)| white(),
            ));
        }
    }

    /// Paints the two pixels of one tick mark: beside the vertical axis the
    /// two pixels right of `point`, beside the horizontal axis the two
    /// pixels above it.
    fn draw_tick(&mut self, point: Point, axis: Axis)
        requires
            old(self).wf(),
            (match axis {
                Axis::Y => 0 <= point.x && point.x + 2 < old(self).height && 0 <= point.y
                    < old(self).height,
                Axis::X => 0 <= point.x < old(self).height && 2 <= point.y < old(
                    self,
                ).height,
            }),
        ensures
            final(self).wf(),
            final(self).border == old(self).border,
            final(self).filename == old(self).filename,
            final(self).height == old(self).height,
            final(self).worksheet == old(self).worksheet,
            buf_pixels(final(self).buffer) == (match axis {
                Axis::Y => buf_pixels(old(self).buffer).insert(
                    (point.x + 1, point.y as int),
                    axis_color(),
                ).insert((point.x + 2, point.y as int), axis_color()),
                Axis::X => buf_pixels(old(self).buffer).insert(
                    (point.x as int, point.y - 1),
                    axis_color(),
                ).insert((point.x as int, point.y - 2), axis_color()),
            }),
    {
        let ghost h0 = self.height as int;
        match axis {
            Axis::Y => {
                buffer_put(
                    &mut self.buffer,
                    (point.x + 1) as u32,
                    point.y as u32,
                    (255u8, 0u8, 0u8),
                );
                buffer_put(
                    &mut self.buffer,
                    (point.x + 2) as u32,
                    point.y as u32,
                    (255u8, 0u8, 0u8),
                );
            },
            Axis::X => {
                buffer_put(
                    &mut self.buffer,
                    point.x as u32,
                    (point.y - 1) as u32,
                    (255u8, 0u8, 0u8),
                );
                buffer_put(
                    &mut self.buffer,
                    point.x as u32,
                    (point.y - 2) as u32,
                    (255u8, 0u8, 0u8),
                );
            },
        }
        proof {
            assert(buf_pixels(self.buffer).dom() =~= square_dom(h0));
        }
    }

    /// Paints the vertical axis line at column `border` and the horizontal
    /// axis line at row `height - border`, with two-pixel tick marks beside
    /// each line at every tenth row or column.
    fn draw_axis(&mut self)
        requires
            old(self).wf(),
            axis_fits(old(self).height as int, old(self).border as int),
        ensures
            final(self).wf(),
            final(self).border == old(self).border,
            final(self).filename == old(self).filename,
            final(self).height == old(self).height,
            final(self).worksheet == old(self).worksheet,
            buf_pixels(final(self).buffer) == Map::new(
                |q: (int, int)| 0 <= q.0 < old(self).height && 0 <= q.1 < old(self).height,
                |q: (int, int)|
                    if on_axis(old(self).height as int, old(self).border as int, q.0, q.1) {
                        axis_color()
                    } else {
                        buf_pixels(old(self).buffer)[q]
                    },
            ),
    {
        let h: u32 = self.height as u32;
        let b: u32 = self.border as u32;
        let ghost h0 = self.height as int;
        let ghost b0 = self.border as int;
        let ghost buf0 = buf_pixels(self.buffer);
        let mut y: u32 = 0;
        while y < h
            invariant
                0 <= y <= h,
                h == old(self).height,
                b == old(self).border,
                h0 == old(self).height as int,
                b0 == old(self).border as int,
                buf0 == buf_pixels(old(self).buffer),
                axis_fits(h0, b0),
                self.wf(),
                self.border == old(self).border,
                self.filename == old(self).filename,
                self.height == old(self).height,
                self.worksheet == old(self).worksheet,
                forall|q: (int, int)|
                    #[trigger] buf_pixels(self.buffer).dom().contains(q) ==> buf_pixels(
                        self.buffer,
                    )[q] == (if vert_axis_upto(b0, y as int, q.0, q.1) {
                        axis_color()
                    } else {
                        buf0[q]
                    }),
            decreases h - y,
        {
            if y % 10 == 0 {
                self.draw_tick(Point { x: self.border, y: y as i64 }, Axis::Y);
            }
            buffer_put(&mut self.buffer, b, y, (255u8, 0u8, 0u8));
            proof {
                assert(buf_pixels(self.buffer).dom() =~= square_dom(h0));
            }
            y = y + 1;
        }
        let hb: u32 = h - b;
        let mut x: u32 = 0;
        while x < h
            invariant
                0 <= x <= h,
                h == old(self).height,
                b == old(self).border,
                hb == h0 - b0,
                h0 == old(self).height as int,
                b0 == old(self).border as int,
                buf0 == buf_pixels(old(self).buffer),
                axis_fits(h0, b0),
                self.wf(),
                self.border == old(self).border,
                self.filename == old(self).filename,
                self.height == old(self).height,
                self.worksheet == old(self).worksheet,
                forall|q: (int, int)|
                    #[trigger] buf_pixels(self.buffer).dom().contains(q) ==> buf_pixels(
                        self.buffer,
                    )[q] == (if vert_axis_upto(b0, h0, q.0, q.1) || horiz_axis_upto(
                        h0,
                        b0,
                        x as int,
                        q.0,
                        q.1,
                    ) {
                        axis_color()
                    } else {
                        buf0[q]
                    }),
            decreases h - x,
        {
            if x % 10 == 0 {
                self.draw_tick(
                    Point { x: x as i64, y: self.height - self.border },
                    Axis::X,
                );
            }
            buffer_put(&mut self.buffer, x, hb, (255u8, 0u8, 0u8));
            proof {
                assert(buf_pixels(self.buffer).dom() =~= square_dom(h0));
            }
            x = x + 1;
        }
        proof {
            assert forall|q: (int, int)| 0 <= q.0 < h0 && 0 <= q.1 < h0 implies (on_axis(
                h0,
                b0,
                q.0,
                q.1,
            ) <==> (vert_axis_upto(b0, h0, q.0, q.1) || horiz_axis_upto(
                h0,
                b0,
                h0,
                q.0,
                q.1,
            ))) by {}
            assert(buf_pixels(self.buffer) =~= Map::new(
                |q: (int, int)| 0 <= q.0 < old(self).height && 0 <= q.1 < old(self).height,
                |q: (int, int)|
                    if on_axis(old(self).height as int, old(self).border as int, q.0, q.1) {
                        axis_color()
                    } else {
                        buf_pixels(old(self).buffer)[q]
                    },
            ));
        }
    }

    /// Draws one data point: flips it to device space, expands it to a dot
    /// of radius two, offsets each dot pixel by the border, and paints it.
    fn draw_point(&mut self, point: Point)
        requires
            old(self).wf(),
            point_fits(old(self).height as int, old(self).border as int, (point.x, point.y)),
        ensures
            final(self).wf(),
            final(self).border == old(self).border,
            final(self).filename == old(self).filename,
            final(self).height == old(self).height,
            final(self).worksheet == old(self).worksheet,
            buf_pixels(final(self).buffer) == Map::new(
                |q: (int, int)| 0 <= q.0 < old(self).height && 0 <= q.1 < old(self).height,
                |q: (int, int)|
                    if covered_by_point(
                        old(self).height as int,
                        old(self).border as int,
                        (point.x, point.y),
                        q.0,
                        q.1,
                    ) {
                        point_color()
                    } else {
                        buf_pixels(old(self).buffer)[q]
                    },
            ),
    {
        let ghost h0 = old(self).height as int;
        let ghost b0 = old(self).border as int;
        let ghost buf0 = buf_pixels(old(self).buffer);
        let t: Point = point.transform(self.height);
        proof {
            assert(i64::MIN <= t.x - 2);
            assert(t.x + 2 <= i64::MAX);
            assert(i64::MIN <= t.y - 2);
            assert(t.y + 2 <= i64::MAX);
            assert((2int * 2 + 1) * (2int * 2 + 1) == 25) by (nonlinear_arith);
            assert(25 <= usize::MAX);
        }
        let pts: Vec<Point> = t.scaled(2);
        let n: usize = pts.len();
        let b: i64 = self.border;
        let mut j: usize = 0;
        while j < n
            invariant
                0 <= j <= n,
                n == pts@.len(),
                b == old(self).border,
                h0 == old(self).height as int,
                b0 == old(self).border as int,
                buf0 == buf_pixels(old(self).buffer),
                point_fits(h0, b0, (point.x, point.y)),
                t.x == point.x,
                t.y == h0 - point.y,
                forall|q: Point| pts@.contains(q) <==> in_neighborhood(t, 2, q),
                self.wf(),
                self.border == old(self).border,
                self.filename == old(self).filename,
                self.height == old(self).height,
                self.worksheet == old(self).worksheet,
                forall|q: (int, int)|
                    #[trigger] buf_pixels(self.buffer).dom().contains(q) ==> buf_pixels(
                        self.buffer,
                    )[q] == (if hit_by_upto(pts@, j as int, b0, q) {
                        point_color()
                    } else {
                        buf0[q]
                    }),
            decreases n - j,
        {
            let s: Point = pts[j];
            proof {
                assert(pts@.contains(pts@[j as int]));
                assert(in_neighborhood(t, 2, s));
            }
            let px: u32 = (s.x + b) as u32;
            let py: u32 = (s.y - b) as u32;
            buffer_put(&mut self.buffer, px, py, (200u8, 0u8, 0u8));
            proof {
                assert(buf_pixels(self.buffer).dom() =~= square_dom(h0));
                assert forall|q: (int, int)|
                    #[trigger] buf_pixels(self.buffer).dom().contains(q) implies buf_pixels(
                    self.buffer,
                )[q] == (if hit_by_upto(pts@, j + 1, b0, q) {
                    point_color()
                } else {
                    buf0[q]
                }) by {
                    if q == ((s.x + b0), (s.y - b0)) {
                        assert(0 <= j < j + 1 && q.0 == pts@[j as int].x + b0 && q.1
                            == pts@[j as int].y - b0);
                        assert(hit_by_upto(pts@, j + 1, b0, q));
                    } else {
                        if hit_by_upto(pts@, j + 1, b0, q) {
                            let k = choose|k: int|
                                0 <= k < j + 1 && q.0 == #[trigger] pts@[k].x + b0 && q.1
                                    == pts@[k].y - b0;
                            assert(k < j);
                            assert(hit_by_upto(pts@, j as int, b0, q));
                        }
                    }
                }
            }
            j = j + 1;
        }
        proof {
            assert forall|q: (int, int)| 0 <= q.0 < h0 && 0 <= q.1 < h0 implies (hit_by_upto(
                pts@,
                n as int,
                b0,
                q,
            ) <==> covered_by_point(h0, b0, (point.x, point.y), q.0, q.1)) by {
                if hit_by_upto(pts@, n as int, b0, q) {
                    let k = choose|k: int|
                        0 <= k < n && q.0 == #[trigger] pts@[k].x + b0 && q.1 == pts@[k].y
                            - b0;
                    assert(pts@.contains(pts@[k]));
                    assert(in_neighborhood(t, 2, pts@[k]));
                }
                if covered_by_point(h0, b0, (point.x, point.y), q.0, q.1) {
                    let s0 = Point { x: (q.0 - b0) as i64, y: (q.1 + b0) as i64 };
                    assert(in_neighborhood(t, 2, s0));
                    assert(pts@.contains(s0));
                    let k = choose|k: int| 0 <= k < pts@.len() && pts@[k] == s0;
                    assert(0 <= k < n && q.0 == pts@[k].x + b0 && q.1 == pts@[k].y - b0);
                    assert(hit_by_upto(pts@, n as int, b0, q));
                }
            }
            assert(buf_pixels(self.buffer) =~= Map::new(
                |q: (int, int)| 0 <= q.0 < old(self).height && 0 <= q.1 < old(self).height,
                |q: (int, int)|
                    if covered_by_point(
                        old(self).height as int,
                        old(self).border as int,
                        (point.x, point.y),
                        q.0,
                        q.1,
                    ) {
                        point_color()
                    } else {
                        buf_pixels(old(self).buffer)[q]
                    },
            ));
        }
    }

    /// Draws every dataset point, in dataset order.
    fn draw_points(&mut self)
        requires
            old(self).wf(),
            forall|i: int|
                0 <= i < old(self).worksheet@.len() ==> point_fits(
                    old(self).height as int,
                    old(self).border as int,
                    #[trigger] old(self).worksheet@[i],
                ),
        ensures
            final(self).wf(),
            final(self).border == old(self).border,
            final(self).filename == old(self).filename,
            final(self).height == old(self).height,
            final(self).worksheet == old(self).worksheet,
            buf_pixels(final(self).buffer) == Map::new(
                |q: (int, int)| 0 <= q.0 < old(self).height && 0 <= q.1 < old(self).height,
                |q: (int, int)|
                    if on_points(
                        old(self).height as int,
                        old(self).border as int,
                        old(self).worksheet@,
                        q.0,
                        q.1,
                    ) {
                        point_color()
                    } else {
                        buf_pixels(old(self).buffer)[q]
                    },
            ),
    {
        let ghost h0 = old(self).height as int;
        let ghost b0 = old(self).border as int;
        let ghost buf0 = buf_pixels(old(self).buffer);
        let ghost pts = old(self).worksheet@;
        let n: usize = self.worksheet.len();
        let mut i: usize = 0;
        while i < n
            invariant
                0 <= i <= n,
                n == pts.len(),
                pts == old(self).worksheet@,
                h0 == old(self).height as int,
                b0 == old(self).border as int,
                buf0 == buf_pixels(old(self).buffer),
                forall|k: int|
                    0 <= k < pts.len() ==> point_fits(h0, b0, #[trigger] pts[k]),
                self.wf(),
                self.border == old(self).border,
                self.filename == old(self).filename,
                self.height == old(self).height,
                self.worksheet == old(self).worksheet,
                forall|q: (int, int)|
                    #[trigger] buf_pixels(self.buffer).dom().contains(q) ==> buf_pixels(
                        self.buffer,
                    )[q] == (if on_points_upto(h0, b0, pts, i as int, q.0, q.1) {
                        point_color()
                    } else {
                        buf0[q]
                    }),
            decreases n - i,
        {
            let p: (i64, i64) = self.worksheet.get(i);
            let ghost prev = buf_pixels(self.buffer);
            self.draw_point(Point { x: p.0, y: p.1 });
            proof {
                assert forall|q: (int, int)|
                    #[trigger] buf_pixels(self.buffer).dom().contains(q) implies buf_pixels(
                    self.buffer,
                )[q] == (if on_points_upto(h0, b0, pts, i + 1, q.0, q.1) {
                    point_color()
                } else {
                    buf0[q]
                }) by {
                    if covered_by_point(h0, b0, p, q.0, q.1) {
                        assert(0 <= i < i + 1 && covered_by_point(h0, b0, pts[i as int], q.0, q.1));
                        assert(on_points_upto(h0, b0, pts, i + 1, q.0, q.1));
                    } else {
                        if on_points_upto(h0, b0, pts, i + 1, q.0, q.1) {
                            let k = choose|k: int|
                                0 <= k < i + 1 && covered_by_point(
                                    h0,
                                    b0,
                                    #[trigger] pts[k],
                                    q.0,
                                    q.1,
                                );
                            assert(k < i);
                            assert(on_points_upto(h0, b0, pts, i as int, q.0, q.1));
                        }
                    }
                }
            }
            i = i + 1;
        }
        proof {
            assert(buf_pixels(self.buffer) =~= Map::new(
                |q: (int, int)| 0 <= q.0 < old(self).height && 0 <= q.1 < old(self).height,
                |q: (int, int)|
                    if on_points(
                        old(self).height as int,
                        old(self).border as int,
                        old(self).worksheet@,
                        q.0,
                        q.1,
                    ) {
                        point_color()
                    } else {
                        buf_pixels(old(self).buffer)[q]
                    },
            ));
        }
    }

    /// The whole draw sequence: white fill, axis lines with tick marks, then
    /// every dataset point as a square dot. Succeeds exactly when the axis
    /// and every point land inside the buffer; on failure the buffer is left
    /// untouched. The final buffer contents depend only on the canvas
    /// height, border and dataset, so drawing a canvas twice leaves the same
    /// buffer as drawing it once.
    pub fn draw(&mut self) -> (r: Result<(), RenderError>)
        requires
            old(self).wf(),
        ensures
            final(self).wf(),
            final(self).border == old(self).border,
            final(self).filename == old(self).filename,
            final(self).height == old(self).height,
            final(self).worksheet == old(self).worksheet,
            r is Ok <==> can_render(
                old(self).height as int,
                old(self).border as int,
                old(self).worksheet@,
            ),
            r is Ok ==> buf_pixels(final(self).buffer) == rendered(
                old(self).height as int,
                old(self).border as int,
                old(self).worksheet@,
            ),
            r is Err ==> buf_pixels(final(self).buffer) == buf_pixels(old(self).buffer),
    {
        let h: i64 = self.height;
        let b: i64 = self.border;
        if !(1 <= b && b + 2 < h) {
            return Err(RenderError);
        }
        let n: usize = self.worksheet.len();
        let mut i: usize = 0;
        while i < n
            invariant
                0 <= i <= n,
                n == self.worksheet@.len(),
                self == old(self),
                h == self.height,
                b == self.border,
                self.wf(),
                axis_fits(h as int, b as int),
                forall|k: int|
                    0 <= k < i ==> point_fits(h as int, b as int, #[trigger] self.worksheet@[k]),
            decreases n - i,
        {
            let p: (i64, i64) = self.worksheet.get(i);
            let pxw: i128 = p.0 as i128;
            let pyw: i128 = p.1 as i128;
            let bw: i128 = b as i128;
            let hw: i128 = h as i128;
            if !(0i128 <= pxw - 2 + bw && pxw + 2 + bw < hw && 0i128 <= hw - pyw - 2 - bw && hw
                - pyw + 2 - bw < hw) {
                return Err(RenderError);
            }
            i = i + 1;
        }
        self.fill_in_white();
        let ghost m1 = buf_pixels(self.buffer);
        self.draw_axis();
        let ghost m2 = buf_pixels(self.buffer);
        self.draw_points();
        proof {
            assert(buf_pixels(self.buffer) =~= rendered(
                h as int,
                b as int,
                old(self).worksheet@,
            ));
        }
        Ok(())
    }
}

impl Drawable for Canvas {
    open spec fn ready(&self) -> bool {
        self.wf()
    }

    open spec fn renderable(&self) -> bool {
        can_render(self.height as int, self.border as int, self.worksheet@)
    }

    open spec fn drawn_from(&self, prior: &Canvas) -> bool {
        &&& self.border == prior.border
        &&& self.filename == prior.filename
        &&& self.height == prior.height
        &&& self.worksheet == prior.worksheet
        &&& buf_pixels(self.buffer) == rendered(
            prior.height as int,
            prior.border as int,
            prior.worksheet@,
        )
    }

    fn draw(&mut self) -> Result<(), RenderError> {
        Canvas::draw(self)
    }
}

} // verus!
