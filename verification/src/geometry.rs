//! Pure coordinate mapping between board squares, the continuous board
//! drawing space, and widget pixels.
//!
//! Board space is measured in fixed-point units of 1/1000 of a square side.
//! The playing area spans `0 .. 8000` on each axis, with the y axis growing
//! downward ("inverted"): rank 7 is drawn at the top. A half-square border
//! surrounds the playing area, so the drawn region spans `-500 .. 8500`.
//! Flipping the orientation rotates the drawing by a half turn about the
//! board center.

use vstd::prelude::*;
use vstd::arithmetic::div_mod::lemma_fundamental_div_mod_converse;

use crate::board::{Color, Square};

verus! {

/// Half-width of the coordinate range the library works with, centered on
/// the board center; positions handed in from outside are clamped to it.
/// Generous: a thousand thousand squares.
pub const COORD_LIMIT: i64 = 1_000_000_000;

/// Largest widget dimension, in pixels, that the pixel transform accepts.
pub const MAX_PIXELS: u64 = 1_000_000;

/// A continuous position in board space, not necessarily aligned to a square.
#[derive(Clone, Copy, PartialEq, Eq, Structural, Debug)]
pub struct Pos {
    pub x: i64,
    pub y: i64,
}

impl Pos {
    /// Coordinates within the working range, which is symmetric about the
    /// board center so that the orientation flip stays inside it.
    pub open spec fn wf(self) -> bool {
        4000 - COORD_LIMIT <= self.x <= 4000 + COORD_LIMIT && 4000 - COORD_LIMIT <= self.y <= 4000
            + COORD_LIMIT
    }

    /// Build a position, clamping each coordinate into the working range.
    pub fn new(x: i64, y: i64) -> (p: Pos)
        ensures
            p.wf(),
            p.x == clamp_coord(x),
            p.y == clamp_coord(y),
    {
        Pos { x: clamp(x), y: clamp(y) }
    }
}

/// A coordinate pushed into the working range.
pub open spec fn clamp_coord(c: i64) -> i64 {
    if c < 4000 - COORD_LIMIT {
        (4000 - COORD_LIMIT) as i64
    } else if c > 4000 + COORD_LIMIT {
        (4000 + COORD_LIMIT) as i64
    } else {
        c
    }
}

fn clamp(c: i64) -> (r: i64)
    ensures
        r == clamp_coord(c),
{
    if c < 4000 - COORD_LIMIT {
        4000 - COORD_LIMIT
    } else if c > 4000 + COORD_LIMIT {
        4000 + COORD_LIMIT
    } else {
        c
    }
}

/// The center of `sq` in inverted board space, before any orientation flip.
pub open spec fn spec_square_center(sq: Square) -> Pos {
    Pos { x: (sq.file * 1000 + 500) as i64, y: ((7 - sq.rank) * 1000 + 500) as i64 }
}

/// A position rotated a half turn about the board center.
pub open spec fn spec_flip(p: Pos) -> Pos {
    Pos { x: (8000 - p.x) as i64, y: (8000 - p.y) as i64 }
}

/// The center of `sq` in board space under the given orientation.
pub open spec fn spec_square_to_point(sq: Square, orientation: Color) -> Pos {
    if orientation is White {
        spec_square_center(sq)
    } else {
        spec_flip(spec_square_center(sq))
    }
}

/// The square containing a white-oriented board-space position, if any.
pub open spec fn spec_inverted_to_square(p: Pos) -> Option<Square> {
    if 0 <= p.x < 8000 && 0 <= p.y < 8000 {
        Some(Square { file: (p.x / 1000) as u8, rank: (7 - p.y / 1000) as u8 })
    } else {
        None
    }
}

/// The square containing a board-space position under the given orientation.
pub open spec fn spec_point_to_square(p: Pos, orientation: Color) -> Option<Square> {
    if orientation is White {
        spec_inverted_to_square(p)
    } else {
        spec_inverted_to_square(spec_flip(p))
    }
}

/// The center of `sq` in inverted board space (orientation handled separately
/// by the drawing transform).
pub fn square_to_inverted(sq: Square) -> (p: Pos)
    requires
        sq.wf(),
    ensures
        p == spec_square_center(sq),
        p.wf(),
        0 <= p.x < 8000 && 0 <= p.y < 8000,
{
    Pos { x: sq.file as i64 * 1000 + 500, y: (7 - sq.rank as i64) * 1000 + 500 }
}

/// The square containing a white-oriented board-space position, or `None`
/// off the playing area.
pub fn inverted_to_square(p: Pos) -> (sq: Option<Square>)
    ensures
        sq == spec_inverted_to_square(p),
        sq is Some ==> sq->0.wf(),
{
    if 0 <= p.x && p.x < 8000 && 0 <= p.y && p.y < 8000 {
        let file = (p.x / 1000) as u8;
        let rank = 7 - (p.y / 1000) as u8;
        assert(0 <= p.x as int / 1000 < 8 && 0 <= p.y as int / 1000 < 8);
        Some(Square { file, rank })
    } else {
        None
    }
}

/// A position rotated a half turn about the board center, as the black
/// orientation requires.
pub fn flip_pos(p: Pos) -> (r: Pos)
    requires
        p.wf(),
    ensures
        r == spec_flip(p),
        r.wf(),
{
    Pos { x: 8000 - p.x, y: 8000 - p.y }
}

/// The center of `sq` in board space under `orientation`.
pub fn square_to_point(sq: Square, orientation: Color) -> (p: Pos)
    requires
        sq.wf(),
    ensures
        p == spec_square_to_point(sq, orientation),
        p.wf(),
{
    let c = square_to_inverted(sq);
    match orientation {
        Color::White => c,
        Color::Black => flip_pos(c),
    }
}

/// The square containing `p` under `orientation`, or `None` off the playing
/// area.
pub fn point_to_square(p: Pos, orientation: Color) -> (sq: Option<Square>)
    requires
        p.wf(),
    ensures
        sq == spec_point_to_square(p, orientation),
        sq is Some ==> sq->0.wf(),
{
    match orientation {
        Color::White => inverted_to_square(p),
        Color::Black => inverted_to_square(flip_pos(p)),
    }
}

/// Mapping squares to points and back is the identity, in both orientations:
/// the square's center always falls inside the square itself.
pub proof fn lemma_point_square_round_trip(sq: Square, orientation: Color)
    requires
        sq.wf(),
    ensures
        spec_point_to_square(spec_square_to_point(sq, orientation), orientation) == Some(sq),
{
    let c = spec_square_center(sq);
    assert(spec_flip(spec_flip(c)) == c);
    lemma_center_in_square(sq);
}

/// Largest pixel coordinate magnitude the transform can produce.
pub const PX_LIMIT: i64 = 1_000_000_000_000;

/// The widget's pixel dimensions. The board drawing (playing area plus its
/// half-square border, 9 square sides in all) fills a square of side
/// `min(width, height)` pixels, centered along the longer dimension.
#[derive(Clone, Copy, PartialEq, Eq, Structural, Debug)]
pub struct BoardGeometry {
    pub width: u64,
    pub height: u64,
}

impl BoardGeometry {
    pub open spec fn wf(&self) -> bool {
        0 < self.spec_side() && self.width <= MAX_PIXELS && self.height <= MAX_PIXELS
    }

    /// Pixel side length of the drawn board.
    pub open spec fn spec_side(&self) -> int {
        if self.width <= self.height {
            self.width as int
        } else {
            self.height as int
        }
    }

    /// Pixel offset of the drawn board's left edge.
    pub open spec fn spec_off_x(&self) -> int {
        (self.width - self.spec_side()) / 2
    }

    /// Pixel offset of the drawn board's top edge.
    pub open spec fn spec_off_y(&self) -> int {
        (self.height - self.spec_side()) / 2
    }

    /// Build a geometry, clamping each dimension into `1 ..= MAX_PIXELS`.
    pub fn new(width: u64, height: u64) -> (g: BoardGeometry)
        ensures
            g.wf(),
            1 <= width <= MAX_PIXELS ==> g.width == width,
            1 <= height <= MAX_PIXELS ==> g.height == height,
    {
        let w = if width < 1 {
            1
        } else if width > MAX_PIXELS {
            MAX_PIXELS
        } else {
            width
        };
        let h = if height < 1 {
            1
        } else if height > MAX_PIXELS {
            MAX_PIXELS
        } else {
            height
        };
        BoardGeometry { width: w, height: h }
    }

    fn side(&self) -> (s: u64)
        requires
            self.wf(),
        ensures
            s == self.spec_side(),
            0 < s <= MAX_PIXELS,
    {
        if self.width <= self.height {
            self.width
        } else {
            self.height
        }
    }

    fn off_x(&self) -> (o: u64)
        requires
            self.wf(),
        ensures
            o == self.spec_off_x(),
            o <= MAX_PIXELS,
    {
        (self.width - self.side()) / 2
    }

    fn off_y(&self) -> (o: u64)
        requires
            self.wf(),
        ensures
            o == self.spec_off_y(),
            o <= MAX_PIXELS,
    {
        (self.height - self.side()) / 2
    }
}

/// The pixel column of board-space coordinate `c`, rounded down. The drawn
/// region `-500 .. 8500` maps affinely onto `off .. off + side`.
pub open spec fn spec_px_floor(side: int, off: int, c: int) -> int {
    off + (c + 500) * side / 9000
}

/// The pixel column of board-space coordinate `c`, rounded up.
pub open spec fn spec_px_ceil(side: int, off: int, c: int) -> int {
    off + ((c + 500) * side + 8999) / 9000
}

/// Floor division of `(c + 500) * side` by 9000, shifted to keep the exec
/// numerator nonnegative.
fn px_floor(side: u64, off: u64, c: i64) -> (r: i64)
    requires
        0 < side <= MAX_PIXELS,
        off <= MAX_PIXELS,
        -COORD_LIMIT - 10_000 <= c <= COORD_LIMIT + 10_000,
    ensures
        r == spec_px_floor(side as int, off as int, c as int),
        -PX_LIMIT <= r <= PX_LIMIT,
{
    let s = side as i64;
    proof {
        assert(0 <= (c + 500 + 1_080_000_000) * (side as int) <= 0x7fff_ffff_ffff_ffff)
            by (nonlinear_arith)
            requires
                0 < side <= 1_000_000,
                -COORD_LIMIT - 10_000 <= c <= COORD_LIMIT + 10_000,
        ;
    }
    let n: i64 = (c + 500 + 1_080_000_000) * s;
    let q: i64 = (n as u64 / 9000) as i64;
    proof {
        lemma_px_shift(side as int, c as int);
        assert(q == (c + 500) * side / 9000 + 120_000 * side);
        assert(-PX_LIMIT <= off + (c + 500) * side / 9000 <= PX_LIMIT) by (nonlinear_arith)
            requires
                0 < side <= 1_000_000,
                off <= 1_000_000,
                -COORD_LIMIT - 10_000 <= c <= COORD_LIMIT + 10_000,
        ;
    }
    off as i64 + q - 120_000 * s
}

/// Ceiling counterpart of `px_floor`.
fn px_ceil(side: u64, off: u64, c: i64) -> (r: i64)
    requires
        0 < side <= MAX_PIXELS,
        off <= MAX_PIXELS,
        -COORD_LIMIT - 10_000 <= c <= COORD_LIMIT + 10_000,
    ensures
        r == spec_px_ceil(side as int, off as int, c as int),
        -PX_LIMIT <= r <= PX_LIMIT,
{
    let s = side as i64;
    proof {
        assert(0 <= (c + 500 + 1_080_000_000) * (side as int) && (c + 500 + 1_080_000_000) * (
        side as int) + 8999 <= 0x7fff_ffff_ffff_ffff) by (nonlinear_arith)
            requires
                0 < side <= 1_000_000,
                -COORD_LIMIT - 10_000 <= c <= COORD_LIMIT + 10_000,
        ;
    }
    let n: i64 = (c + 500 + 1_080_000_000) * s;
    let q: i64 = ((n as u64 + 8999) / 9000) as i64;
    proof {
        lemma_px_shift_ceil(side as int, c as int);
        assert(q == ((c + 500) * side + 8999) / 9000 + 120_000 * side);
        assert(-PX_LIMIT <= off + ((c + 500) * side + 8999) / 9000 <= PX_LIMIT)
            by (nonlinear_arith)
            requires
                0 < side <= 1_000_000,
                off <= 1_000_000,
                -COORD_LIMIT - 10_000 <= c <= COORD_LIMIT + 10_000,
        ;
    }
    off as i64 + q - 120_000 * s
}

/// Shifting the numerator by a multiple of the divisor shifts the quotient.
proof fn lemma_px_shift(side: int, c: int)
    requires
        0 < side,
    ensures
        (c + 500 + 1_080_000_000) * side / 9000 == (c + 500) * side / 9000 + 120_000 * side,
{
    assert((c + 500 + 1_080_000_000) * side == (c + 500) * side + (120_000 * side) * 9000)
        by (nonlinear_arith);
    vstd::arithmetic::div_mod::lemma_hoist_over_denominator(
        (c + 500) * side,
        120_000 * side,
        9000nat,
    );
}

/// Ceiling counterpart of `lemma_px_shift`.
proof fn lemma_px_shift_ceil(side: int, c: int)
    requires
        0 < side,
    ensures
        ((c + 500 + 1_080_000_000) * side + 8999) / 9000 == ((c + 500) * side + 8999) / 9000
            + 120_000 * side,
{
    assert((c + 500 + 1_080_000_000) * side + 8999 == (c + 500) * side + 8999 + (120_000 * side)
        * 9000) by (nonlinear_arith);
    vstd::arithmetic::div_mod::lemma_hoist_over_denominator(
        (c + 500) * side + 8999,
        120_000 * side,
        9000nat,
    );
}

/// A pixel-aligned rectangle: the smallest screen region that must be redrawn
/// to repaint some board-space region.
#[derive(Clone, Copy, PartialEq, Eq, Structural, Debug)]
pub struct PixelRect {
    pub x: i64,
    pub y: i64,
    pub width: i64,
    pub height: i64,
}

impl PixelRect {
    /// Coordinates and extents within the transform's output range.
    pub open spec fn wf(self) -> bool {
        &&& -PX_LIMIT <= self.x && self.x + self.width <= PX_LIMIT
        &&& -PX_LIMIT <= self.y && self.y + self.height <= PX_LIMIT
        &&& 0 <= self.width
        &&& 0 <= self.height
    }

    /// The smallest rectangle covering both `self` and `other`.
    pub fn union(self, other: PixelRect) -> (r: PixelRect)
        requires
            self.wf(),
            other.wf(),
        ensures
            r.wf(),
            r.x == if self.x <= other.x { self.x } else { other.x },
            r.y == if self.y <= other.y { self.y } else { other.y },
            r.x + r.width == if self.x + self.width >= other.x + other.width {
                self.x + self.width
            } else {
                other.x + other.width
            },
            r.y + r.height == if self.y + self.height >= other.y + other.height {
                self.y + self.height
            } else {
                other.y + other.height
            },
    {
        let x = if self.x <= other.x {
            self.x
        } else {
            other.x
        };
        let y = if self.y <= other.y {
            self.y
        } else {
            other.y
        };
        let xmax = if self.x + self.width >= other.x + other.width {
            self.x + self.width
        } else {
            other.x + other.width
        };
        let ymax = if self.y + self.height >= other.y + other.height {
            self.y + self.height
        } else {
            other.y + other.height
        };
        PixelRect { x, y, width: xmax - x, height: ymax - y }
    }
}

/// The pixel edges (left, top, right, bottom) covering the board-space
/// rectangle with corner `(x, y)` and extent `(w, h)`, under the given
/// orientation: the flip is applied in board space, then each edge is
/// rounded outward.
pub open spec fn spec_rect_to_pixels(
    geom: BoardGeometry,
    orientation: Color,
    x: int,
    y: int,
    w: int,
    h: int,
) -> (int, int, int, int) {
    let fx = if orientation is White {
        x
    } else {
        8000 - x - w
    };
    let fy = if orientation is White {
        y
    } else {
        8000 - y - h
    };
    let side = geom.spec_side();
    let xmin = spec_px_floor(side, geom.spec_off_x(), fx);
    let ymin = spec_px_floor(side, geom.spec_off_y(), fy);
    let xmax = spec_px_ceil(side, geom.spec_off_x(), fx + w);
    let ymax = spec_px_ceil(side, geom.spec_off_y(), fy + h);
    (xmin, ymin, xmax, ymax)
}

/// Whether a pixel rectangle has exactly the given edges.
pub open spec fn rect_matches(r: PixelRect, edges: (int, int, int, int)) -> bool {
    r.x == edges.0 && r.y == edges.1 && r.x + r.width == edges.2 && r.y + r.height == edges.3
}

/// Map a board-space rectangle to the pixel rectangle that covers it.
pub fn rect_to_pixels(
    geom: &BoardGeometry,
    orientation: Color,
    x: i64,
    y: i64,
    w: i64,
    h: i64,
) -> (r: PixelRect)
    requires
        geom.wf(),
        0 <= w <= 2 * COORD_LIMIT,
        0 <= h <= 2 * COORD_LIMIT,
        4000 - COORD_LIMIT - 1000 <= x && x + w <= 4000 + COORD_LIMIT + 1000,
        4000 - COORD_LIMIT - 1000 <= y && y + h <= 4000 + COORD_LIMIT + 1000,
    ensures
        rect_matches(
            r,
            spec_rect_to_pixels(*geom, orientation, x as int, y as int, w as int, h as int),
        ),
        r.wf(),
{
    let side = geom.side();
    let off_x = geom.off_x();
    let off_y = geom.off_y();
    let fx = match orientation {
        Color::White => x,
        Color::Black => 8000 - x - w,
    };
    let fy = match orientation {
        Color::White => y,
        Color::Black => 8000 - y - h,
    };
    let xmin = px_floor(side, off_x, fx);
    let ymin = px_floor(side, off_y, fy);
    let xmax = px_ceil(side, off_x, fx + w);
    let ymax = px_ceil(side, off_y, fy + h);
    proof {
        lemma_px_monotone(side as int, off_x as int, fx as int, fx + w);
        lemma_px_monotone(side as int, off_y as int, fy as int, fy + h);
    }
    PixelRect { x: xmin, y: ymin, width: xmax - xmin, height: ymax - ymin }
}

/// Rounding the right edge up never falls left of rounding the left edge
/// down.
proof fn lemma_px_monotone(side: int, off: int, a: int, b: int)
    requires
        0 < side,
        a <= b,
    ensures
        spec_px_floor(side, off, a) <= spec_px_ceil(side, off, b),
{
    assert((a + 500) * side <= (b + 500) * side + 8999) by (nonlinear_arith)
        requires
            0 < side && a <= b,
    ;
    vstd::arithmetic::div_mod::lemma_div_is_ordered(
        (a + 500) * side,
        (b + 500) * side + 8999,
        9000,
    );
}

/// The pixel rectangle covering one square.
pub fn square_rect_pixels(geom: &BoardGeometry, orientation: Color, sq: Square) -> (r: PixelRect)
    requires
        geom.wf(),
        sq.wf(),
    ensures
        rect_matches(
            r,
            spec_rect_to_pixels(
                *geom,
                orientation,
                sq.file * 1000,
                (7 - sq.rank) * 1000,
                1000,
                1000,
            ),
        ),
        r.wf(),
{
    rect_to_pixels(geom, orientation, sq.file as i64 * 1000, (7 - sq.rank as i64) * 1000, 1000, 1000)
}

/// The board-space coordinate whose pixel column is `v`: the inverse of the
/// drawing transform along one axis, with the pixel first clamped to within
/// one board width of the drawn board.
pub open spec fn spec_unpx(side: int, off: int, v: int) -> int {
    let d = if v - off < -side {
        -side
    } else if v - off > 2 * side {
        2 * side
    } else {
        v - off
    };
    d * 9000 / side - 500
}

fn unpx(side: u64, off: u64, v: i64) -> (c: i64)
    requires
        0 < side <= MAX_PIXELS,
        off <= MAX_PIXELS,
    ensures
        c == spec_unpx(side as int, off as int, v as int),
        -9500 <= c <= 17500,
{
    let s = side as i64;
    let o = off as i64;
    let lo = o - s;
    let hi = o + 2 * s;
    let vc = if v < lo {
        lo
    } else if v > hi {
        hi
    } else {
        v
    };
    let d = vc - o;
    let n: i64 = (d + s) * 9000;
    let q: i64 = (n as u64 / side) as i64;
    proof {
        assert((d + s) * 9000 == d * 9000 + 9000 * side) by (nonlinear_arith)
            requires
                s == side,
        ;
        vstd::arithmetic::div_mod::lemma_hoist_over_denominator(d * 9000, 9000, side as nat);
        assert(-side * 9000 <= d * 9000 <= 2 * side * 9000) by (nonlinear_arith)
            requires
                -side <= d <= 2 * side && 0 < side,
        ;
        assert(-9000 <= d * 9000 / (side as int) <= 18000) by {
            lemma_div_bounds_for_unpx(side as int, d as int);
        }
    }
    q - 9000 - 500
}

/// The clamped quotient stays within one board width of the playing area.
proof fn lemma_div_bounds_for_unpx(side: int, d: int)
    requires
        0 < side,
        -side <= d <= 2 * side,
    ensures
        -9000 <= d * 9000 / side <= 18000,
{
    assert(-side * 9000 <= d * 9000 <= side * 18000) by (nonlinear_arith)
        requires
            0 < side && -side <= d <= 2 * side,
    ;
    vstd::arithmetic::div_mod::lemma_div_is_ordered(-side * 9000, d * 9000, side);
    vstd::arithmetic::div_mod::lemma_div_is_ordered(d * 9000, side * 18000, side);
    assert(-side * 9000 == -9000 * side && side * 18000 == 18000 * side) by (nonlinear_arith);
    vstd::arithmetic::div_mod::lemma_div_multiples_vanish(-9000, side);
    vstd::arithmetic::div_mod::lemma_div_multiples_vanish(18000, side);
    assert(-9000 * side == side * -9000 && 18000 * side == side * 18000) by (nonlinear_arith);
}

/// The board-space position under a pixel position, with the orientation
/// flip applied.
pub open spec fn spec_invert_pos(geom: BoardGeometry, orientation: Color, px: int, py: int) -> Pos {
    let cx = spec_unpx(geom.spec_side(), geom.spec_off_x(), px);
    let cy = spec_unpx(geom.spec_side(), geom.spec_off_y(), py);
    if orientation is White {
        Pos { x: cx as i64, y: cy as i64 }
    } else {
        spec_flip(Pos { x: cx as i64, y: cy as i64 })
    }
}

/// Map a pixel position back into board space under `orientation`. Pixels
/// far outside the widget are clamped to within one board width first.
pub fn invert_pos(geom: &BoardGeometry, orientation: Color, px: i64, py: i64) -> (p: Pos)
    requires
        geom.wf(),
    ensures
        p == spec_invert_pos(*geom, orientation, px as int, py as int),
        p.wf(),
{
    let side = geom.side();
    let cx = unpx(side, geom.off_x(), px);
    let cy = unpx(side, geom.off_y(), py);
    match orientation {
        Color::White => Pos { x: cx, y: cy },
        Color::Black => flip_pos(Pos { x: cx, y: cy }),
    }
}

/// The square under a pixel position, or `None` off the playing area.
/// `invert_pos` already unfolds the orientation, so its result is read as a
/// white-oriented board-space position.
pub fn pos_to_square(geom: &BoardGeometry, orientation: Color, px: i64, py: i64) -> (sq: Option<
    Square,
>)
    requires
        geom.wf(),
    ensures
        sq == spec_inverted_to_square(spec_invert_pos(*geom, orientation, px as int, py as int)),
        sq is Some ==> sq->0.wf(),
{
    let p = invert_pos(geom, orientation, px, py);
    inverted_to_square(p)
}

/// The center of a square maps back to that square in white orientation.
proof fn lemma_center_in_square(sq: Square)
    requires
        sq.wf(),
    ensures
        spec_inverted_to_square(spec_square_center(sq)) == Some(sq),
{
    let c = spec_square_center(sq);
    lemma_fundamental_div_mod_converse(c.x as int, 1000, sq.file as int, 500);
    lemma_fundamental_div_mod_converse(c.y as int, 1000, 7 - sq.rank as int, 500);
}

} // verus!
