//! Rectangles in two coordinate systems.
//!
//! A `UnitRect` is a rectangle relative to an abstract container, in fixed
//! point: `UNIT` stands for the container's full width (or height).
//! A `PixelRect` is an absolute rectangle on screen, in whole pixels.
use vstd::prelude::*;

verus! {

/// The fixed-point value that stands for 1.0 in relative coordinates.
pub const UNIT: u64 = 4294967296;

/// A rectangle relative to its container; `UNIT` is the container's extent.
#[derive(Clone, Copy, Debug, PartialEq, Eq, Structural)]
pub struct UnitRect {
    pub min_x: u64,
    pub min_y: u64,
    pub max_x: u64,
    pub max_y: u64,
}

/// A point on screen, in pixels.
#[derive(Clone, Copy, Debug, PartialEq, Eq, Structural)]
pub struct Point {
    pub x: i64,
    pub y: i64,
}

/// An absolute rectangle on screen, in pixels. Its edges are inclusive; a
/// rectangle whose minimum exceeds its maximum contains no point.
#[derive(Clone, Copy, Debug, PartialEq, Eq, Structural)]
pub struct PixelRect {
    pub min_x: i64,
    pub min_y: i64,
    pub max_x: i64,
    pub max_y: i64,
}

/// A coordinate that a screen can hold: within the range of `i32`.
pub open spec fn on_screen(v: int) -> bool {
    i32::MIN <= v <= i32::MAX
}

impl UnitRect {
    /// Corners ordered and inside the unit square.
    pub open spec fn wf(self) -> bool {
        &&& self.min_x <= self.max_x <= UNIT
        &&& self.min_y <= self.max_y <= UNIT
    }

    /// The cell `[x, x + 1) x [y, y + 1)` of the fixed-point grid lies in
    /// the rectangle. The cells of a rectangle tile it exactly.
    pub open spec fn covers(self, x: int, y: int) -> bool {
        &&& self.min_x <= x < self.max_x
        &&& self.min_y <= y < self.max_y
    }

    pub open spec fn area(self) -> int {
        (self.max_x - self.min_x) * (self.max_y - self.min_y)
    }

    pub open spec fn full_spec() -> UnitRect {
        UnitRect { min_x: 0, min_y: 0, max_x: UNIT, max_y: UNIT }
    }

    /// The whole container.
    pub fn full() -> (r: UnitRect)
        ensures
            r == UnitRect::full_spec(),
            r.wf(),
    {
        UnitRect { min_x: 0, min_y: 0, max_x: UNIT, max_y: UNIT }
    }
}

impl PixelRect {
    /// A container rectangle: ordered corners whose coordinates a screen can hold.
    pub open spec fn is_screen(self) -> bool {
        &&& self.min_x <= self.max_x
        &&& self.min_y <= self.max_y
        &&& on_screen(self.min_x as int)
        &&& on_screen(self.min_y as int)
        &&& on_screen(self.max_x as int)
        &&& on_screen(self.max_y as int)
    }

    pub open spec fn spec_contains(&self, p: Point) -> bool {
        &&& self.min_x <= p.x <= self.max_x
        &&& self.min_y <= p.y <= self.max_y
    }

    /// Whether `p` lies in the rectangle, edges included.
    #[verifier::when_used_as_spec(spec_contains)]
    pub fn contains(&self, p: Point) -> (r: bool)
        ensures
            r == self.spec_contains(p),
    {
        self.min_x <= p.x && p.x <= self.max_x && self.min_y <= p.y && p.y <= self.max_y
    }

    pub open spec fn shrunk(self, margin: int) -> PixelRect {
        PixelRect {
            min_x: (self.min_x + margin) as i64,
            min_y: (self.min_y + margin) as i64,
            max_x: (self.max_x - margin) as i64,
            max_y: (self.max_y - margin) as i64,
        }
    }

    /// The rectangle moved inward by `margin` on all four sides.
    pub fn shrink(&self, margin: i64) -> (r: PixelRect)
        requires
            on_screen(self.min_x as int),
            on_screen(self.min_y as int),
            on_screen(self.max_x as int),
            on_screen(self.max_y as int),
            on_screen(margin as int),
        ensures
            r == self.shrunk(margin as int),
            r.min_x == self.min_x + margin,
            r.min_y == self.min_y + margin,
            r.max_x == self.max_x - margin,
            r.max_y == self.max_y - margin,
    {
        PixelRect {
            min_x: self.min_x + margin,
            min_y: self.min_y + margin,
            max_x: self.max_x - margin,
            max_y: self.max_y - margin,
        }
    }
}

/// A relative coordinate `v` scaled to an extent of `w` pixels, rounded down.
pub open spec fn scale(v: int, w: int) -> int {
    v * w / UNIT as int
}

/// `rel` placed in `container`, each corner rounded down to a whole pixel.
pub open spec fn absolute(rel: UnitRect, container: PixelRect) -> PixelRect {
    let w = container.max_x - container.min_x;
    let h = container.max_y - container.min_y;
    PixelRect {
        min_x: (container.min_x + scale(rel.min_x as int, w)) as i64,
        min_y: (container.min_y + scale(rel.min_y as int, h)) as i64,
        max_x: (container.min_x + scale(rel.max_x as int, w)) as i64,
        max_y: (container.min_y + scale(rel.max_y as int, h)) as i64,
    }
}

proof fn lemma_scale_bounds(v: int, w: int)
    requires
        0 <= v <= UNIT,
        0 <= w,
    ensures
        0 <= scale(v, w) <= w,
{
    assert(0 <= v * w <= UNIT * w) by (nonlinear_arith)
        requires 0 <= v <= UNIT, 0 <= w;
    assert(0 <= v * w / (UNIT as int) <= w) by (nonlinear_arith)
        requires 0 <= v * w <= UNIT * w, UNIT > 0;
}

fn scale_exec(v: u64, w: u64) -> (r: i64)
    requires
        v <= UNIT,
        w <= u32::MAX,
    ensures
        r == scale(v as int, w as int),
        0 <= r <= w,
{
    proof {
        lemma_scale_bounds(v as int, w as int);
        assert(v * w <= UNIT * u32::MAX) by (nonlinear_arith)
            requires v <= UNIT, w <= u32::MAX;
    }
    (v * w / UNIT) as i64
}

/// Resolves a relative rectangle against the current container.
pub fn calculate_absolute_rect(rel: UnitRect, container: PixelRect) -> (r: PixelRect)
    requires
        rel.wf(),
        container.is_screen(),
    ensures
        r == absolute(rel, container),
        container.min_x <= r.min_x <= r.max_x <= container.max_x,
        container.min_y <= r.min_y <= r.max_y <= container.max_y,
{
    let w = (container.max_x - container.min_x) as u64;
    let h = (container.max_y - container.min_y) as u64;
    let x0 = scale_exec(rel.min_x, w);
    let y0 = scale_exec(rel.min_y, h);
    let x1 = scale_exec(rel.max_x, w);
    let y1 = scale_exec(rel.max_y, h);
    proof {
        assert(rel.min_x * w <= rel.max_x * w) by (nonlinear_arith)
            requires rel.min_x <= rel.max_x, 0 <= w;
        assert(rel.min_y * h <= rel.max_y * h) by (nonlinear_arith)
            requires rel.min_y <= rel.max_y, 0 <= h;
        assert(scale(rel.min_x as int, w as int) <= scale(rel.max_x as int, w as int)) by (nonlinear_arith)
            requires rel.min_x * w <= rel.max_x * w;
        assert(scale(rel.min_y as int, h as int) <= scale(rel.max_y as int, h as int)) by (nonlinear_arith)
            requires rel.min_y * h <= rel.max_y * h;
    }
    PixelRect {
        min_x: container.min_x + x0,
        min_y: container.min_y + y0,
        max_x: container.min_x + x1,
        max_y: container.min_y + y1,
    }
}

/// Whether a split of `r` in a container of `cw` by `ch` pixels divides it
/// into a left and a right half: its absolute width exceeds its height.
pub open spec fn splits_side_by_side(r: UnitRect, cw: int, ch: int) -> bool {
    (r.max_x - r.min_x) * cw > (r.max_y - r.min_y) * ch
}

/// The two halves of `r`: left and right when it is wider than high on
/// screen, else top and bottom. The dividing line is the centre, rounded down.
pub open spec fn halves(r: UnitRect, cw: int, ch: int) -> (UnitRect, UnitRect) {
    if splits_side_by_side(r, cw, ch) {
        let mid = ((r.min_x + r.max_x) / 2) as u64;
        (
            UnitRect { min_x: r.min_x, min_y: r.min_y, max_x: mid, max_y: r.max_y },
            UnitRect { min_x: mid, min_y: r.min_y, max_x: r.max_x, max_y: r.max_y },
        )
    } else {
        let mid = ((r.min_y + r.max_y) / 2) as u64;
        (
            UnitRect { min_x: r.min_x, min_y: r.min_y, max_x: r.max_x, max_y: mid },
            UnitRect { min_x: r.min_x, min_y: mid, max_x: r.max_x, max_y: r.max_y },
        )
    }
}

impl UnitRect {
    /// Divides the rectangle in two along the axis on which it is longer on
    /// screen, in a container of `container_w` by `container_h` pixels.
    pub fn split_halves(&self, container_w: u64, container_h: u64) -> (r: (UnitRect, UnitRect))
        requires
            self.wf(),
        ensures
            r == halves(*self, container_w as int, container_h as int),
            r.0.wf(),
            r.1.wf(),
    {
        let rw = (self.max_x - self.min_x) as u128;
        let rh = (self.max_y - self.min_y) as u128;
        let cw = container_w as u128;
        let ch = container_h as u128;
        proof {
            assert(rw * cw <= u64::MAX * u64::MAX) by (nonlinear_arith)
                requires rw <= u64::MAX, cw <= u64::MAX;
            assert(rh * ch <= u64::MAX * u64::MAX) by (nonlinear_arith)
                requires rh <= u64::MAX, ch <= u64::MAX;
        }
        let abs_w = rw * cw;
        let abs_h = rh * ch;
        if abs_w > abs_h {
            let mid = (self.min_x + self.max_x) / 2;
            (
                UnitRect { min_x: self.min_x, min_y: self.min_y, max_x: mid, max_y: self.max_y },
                UnitRect { min_x: mid, min_y: self.min_y, max_x: self.max_x, max_y: self.max_y },
            )
        } else {
            let mid = (self.min_y + self.max_y) / 2;
            (
                UnitRect { min_x: self.min_x, min_y: self.min_y, max_x: self.max_x, max_y: mid },
                UnitRect { min_x: self.min_x, min_y: mid, max_x: self.max_x, max_y: self.max_y },
            )
        }
    }
}

/// Splitting loses and doubles nothing: every cell of the rectangle lies in
/// exactly one of the two halves, no cell outside it lies in either, and the
/// areas add up; this holds for both orientations.
pub proof fn lemma_split_partitions(r: UnitRect, cw: int, ch: int)
    requires
        r.wf(),
    ensures
        ({
            let (a, b) = halves(r, cw, ch);
            &&& a.wf() && b.wf()
            &&& forall|x: int, y: int| r.covers(x, y) <==> (a.covers(x, y) || b.covers(x, y))
            &&& forall|x: int, y: int| !(a.covers(x, y) && b.covers(x, y))
            &&& a.area() + b.area() == r.area()
        }),
{
    let (a, b) = halves(r, cw, ch);
    if splits_side_by_side(r, cw, ch) {
        assert(a.area() + b.area() == r.area()) by (nonlinear_arith)
            requires
                a.min_x == r.min_x, b.max_x == r.max_x, a.max_x == b.min_x,
                a.min_y == r.min_y, b.min_y == r.min_y, a.max_y == r.max_y, b.max_y == r.max_y;
    } else {
        assert(a.area() + b.area() == r.area()) by (nonlinear_arith)
            requires
                a.min_y == r.min_y, b.max_y == r.max_y, a.max_y == b.min_y,
                a.min_x == r.min_x, b.min_x == r.min_x, a.max_x == r.max_x, b.max_x == r.max_x;
    }
}

} // verus!
