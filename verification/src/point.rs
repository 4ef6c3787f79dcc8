//! Integer grid coordinates, the eight compass directions and the two grid
//! metrics.

use vstd::prelude::*;
use vstd::std_specs::convert::FromSpecImpl;
use vstd::std_specs::ops::{AddSpecImpl, DivSpecImpl, MulSpecImpl, SubSpecImpl};

verus! {

/// A coordinate on the grid. Points are ordered by `x`, then by `y`.
#[derive(Clone, Copy, Default, Hash, PartialEq, Eq, Structural, Debug, PartialOrd, Ord)]
pub struct Point {
    pub x: i32,
    pub y: i32,
}

/// `|a - b|` as a mathematical integer.
pub open spec fn spec_abs_diff(a: int, b: int) -> int {
    if a >= b {
        a - b
    } else {
        b - a
    }
}

/// Manhattan distance `|dx| + |dy|` between two points.
pub open spec fn spec_manhattan(a: Point, b: Point) -> int {
    spec_abs_diff(a.x as int, b.x as int) + spec_abs_diff(a.y as int, b.y as int)
}

/// Chebyshev distance `max(|dx|, |dy|)` between two points.
pub open spec fn spec_chebyshev(a: Point, b: Point) -> int {
    let dx = spec_abs_diff(a.x as int, b.x as int);
    let dy = spec_abs_diff(a.y as int, b.y as int);
    if dx >= dy {
        dx
    } else {
        dy
    }
}

/// The eight unit steps: the four cardinal directions, then the four
/// diagonals.
pub open spec fn spec_octant() -> Seq<Point> {
    seq![
        Point { x: 0, y: 1 },
        Point { x: 1, y: 0 },
        Point { x: 0, y: -1i32 },
        Point { x: -1i32, y: 0 },
        Point { x: 1, y: 1 },
        Point { x: 1, y: -1i32 },
        Point { x: -1i32, y: -1i32 },
        Point { x: -1i32, y: 1 },
    ]
}

/// Each of the eight steps moves by at most one cell along each axis, and
/// moves at all.
pub proof fn lemma_octant_unit(k: int)
    requires
        0 <= k < 8,
    ensures
        -1 <= spec_octant()[k].x <= 1,
        -1 <= spec_octant()[k].y <= 1,
        spec_octant()[k].x != 0 || spec_octant()[k].y != 0,
{
}

/// Whether `p + d` stays inside the coordinate range on both axes.
pub open spec fn spec_offset_fits(p: Point, d: Point) -> bool {
    &&& i32::MIN <= p.x + d.x <= i32::MAX
    &&& i32::MIN <= p.y + d.y <= i32::MAX
}

/// The point `p + d`, for an offset that fits.
pub open spec fn spec_offset(p: Point, d: Point) -> Point {
    Point { x: (p.x + d.x) as i32, y: (p.y + d.y) as i32 }
}

/// Two points are adjacent when they differ and their Chebyshev distance is 1.
pub open spec fn spec_adjacent(a: Point, b: Point) -> bool {
    spec_chebyshev(a, b) == 1
}

impl Point {
    pub fn new(x: i32, y: i32) -> (p: Point)
        ensures
            p == (Point { x, y }),
    {
        Point { x, y }
    }

    pub fn north() -> (p: Point)
        ensures
            p == (Point { x: 0, y: 1 }),
    {
        Point { x: 0, y: 1 }
    }

    pub fn south() -> (p: Point)
        ensures
            p == (Point { x: 0, y: -1i32 }),
    {
        Point { x: 0, y: -1i32 }
    }

    pub fn east() -> (p: Point)
        ensures
            p == (Point { x: 1, y: 0 }),
    {
        Point { x: 1, y: 0 }
    }

    pub fn west() -> (p: Point)
        ensures
            p == (Point { x: -1i32, y: 0 }),
    {
        Point { x: -1i32, y: 0 }
    }

    pub fn north_east() -> (p: Point)
        ensures
            p == (Point { x: 1, y: 1 }),
    {
        Point { x: 1, y: 1 }
    }

    pub fn north_west() -> (p: Point)
        ensures
            p == (Point { x: -1i32, y: 1 }),
    {
        Point { x: -1i32, y: 1 }
    }

    pub fn south_east() -> (p: Point)
        ensures
            p == (Point { x: 1, y: -1i32 }),
    {
        Point { x: 1, y: -1i32 }
    }

    pub fn south_west() -> (p: Point)
        ensures
            p == (Point { x: -1i32, y: -1i32 }),
    {
        Point { x: -1i32, y: -1i32 }
    }

    /// North, east, south, west.
    pub fn cardinals() -> (dirs: [Point; 4])
        ensures
            dirs@ == spec_octant().subrange(0, 4),
    {
        let dirs = [Point::north(), Point::east(), Point::south(), Point::west()];
        assert(dirs@ =~= spec_octant().subrange(0, 4));
        dirs
    }

    /// North-east, south-east, south-west, north-west.
    pub fn diagonals() -> (dirs: [Point; 4])
        ensures
            dirs@ == spec_octant().subrange(4, 8),
    {
        let dirs = [
            Point::north_east(),
            Point::south_east(),
            Point::south_west(),
            Point::north_west(),
        ];
        assert(dirs@ =~= spec_octant().subrange(4, 8));
        dirs
    }

    /// The cardinal directions followed by the diagonals.
    pub fn octant() -> (dirs: [Point; 8])
        ensures
            dirs@ == spec_octant(),
    {
        let dirs = [
            Point::north(),
            Point::east(),
            Point::south(),
            Point::west(),
            Point::north_east(),
            Point::south_east(),
            Point::south_west(),
            Point::north_west(),
        ];
        assert(dirs@ =~= spec_octant());
        dirs
    }

    /// Manhattan distance to `other`.
    pub fn dist_manhattan(&self, other: Point) -> (d: i32)
        requires
            spec_manhattan(*self, other) <= i32::MAX,
        ensures
            d == spec_manhattan(*self, other),
    {
        let dx: i64 = self.x as i64 - other.x as i64;
        let dy: i64 = self.y as i64 - other.y as i64;
        let ax: i64 = if dx >= 0 { dx } else { -dx };
        let ay: i64 = if dy >= 0 { dy } else { -dy };
        (ax + ay) as i32
    }

    /// Chebyshev distance to `other`.
    pub fn dist_chebyshev(&self, other: Point) -> (d: i32)
        requires
            spec_chebyshev(*self, other) <= i32::MAX,
        ensures
            d == spec_chebyshev(*self, other),
    {
        let dx: i64 = self.x as i64 - other.x as i64;
        let dy: i64 = self.y as i64 - other.y as i64;
        let ax: i64 = if dx >= 0 { dx } else { -dx };
        let ay: i64 = if dy >= 0 { dy } else { -dy };
        if ax >= ay {
            ax as i32
        } else {
            ay as i32
        }
    }

    /// Whether `other` lies within Chebyshev distance `reach` of this point.
    /// Unlike [`Point::dist_chebyshev`] this is defined for every pair of
    /// points.
    pub fn within_chebyshev(&self, other: Point, reach: u32) -> (b: bool)
        ensures
            b == (spec_chebyshev(*self, other) <= reach),
    {
        let dx: i64 = self.x as i64 - other.x as i64;
        let dy: i64 = self.y as i64 - other.y as i64;
        let ax: i64 = if dx >= 0 { dx } else { -dx };
        let ay: i64 = if dy >= 0 { dy } else { -dy };
        ax <= reach as i64 && ay <= reach as i64
    }

    /// `self + d`, or `None` where a coordinate would leave the `i32` range.
    pub fn checked_offset(&self, d: Point) -> (r: Option<Point>)
        ensures
            r == (if spec_offset_fits(*self, d) {
                Some(spec_offset(*self, d))
            } else {
                None
            }),
    {
        match (self.x.checked_add(d.x), self.y.checked_add(d.y)) {
            (Some(x), Some(y)) => Some(Point { x, y }),
            _ => None,
        }
    }

    pub fn add_assign(&mut self, rhs: Point)
        requires
            spec_offset_fits(*old(self), rhs),
        ensures
            *final(self) == spec_offset(*old(self), rhs),
    {
        self.x = self.x + rhs.x;
        self.y = self.y + rhs.y;
    }

    pub fn sub_assign(&mut self, rhs: Point)
        requires
            i32::MIN <= old(self).x - rhs.x <= i32::MAX,
            i32::MIN <= old(self).y - rhs.y <= i32::MAX,
        ensures
            final(self).x == old(self).x - rhs.x,
            final(self).y == old(self).y - rhs.y,
    {
        self.x = self.x - rhs.x;
        self.y = self.y - rhs.y;
    }
}

impl core::ops::Add for Point {
    type Output = Point;

    fn add(self, rhs: Point) -> (sum: Point) {
        Point { x: self.x + rhs.x, y: self.y + rhs.y }
    }
}

impl AddSpecImpl for Point {
    open spec fn obeys_add_spec() -> bool {
        true
    }

    open spec fn add_req(self, rhs: Point) -> bool {
        spec_offset_fits(self, rhs)
    }

    open spec fn add_spec(self, rhs: Point) -> Point {
        spec_offset(self, rhs)
    }
}

impl core::ops::Sub for Point {
    type Output = Point;

    fn sub(self, rhs: Point) -> (diff: Point) {
        Point { x: self.x - rhs.x, y: self.y - rhs.y }
    }
}

impl SubSpecImpl for Point {
    open spec fn obeys_sub_spec() -> bool {
        true
    }

    open spec fn sub_req(self, rhs: Point) -> bool {
        &&& i32::MIN <= self.x - rhs.x <= i32::MAX
        &&& i32::MIN <= self.y - rhs.y <= i32::MAX
    }

    open spec fn sub_spec(self, rhs: Point) -> Point {
        Point { x: (self.x - rhs.x) as i32, y: (self.y - rhs.y) as i32 }
    }
}

/// The quotient of `a / b` rounded towards zero, as machine division rounds.
pub open spec fn spec_div_trunc(a: int, b: int) -> int
    recommends
        b != 0,
{
    if a >= 0 {
        a / b
    } else {
        -((-a) / b)
    }
}

impl core::ops::Div<i32> for Point {
    type Output = Point;

    fn div(self, rhs: i32) -> (quot: Point) {
        Point { x: self.x / rhs, y: self.y / rhs }
    }
}

impl DivSpecImpl<i32> for Point {
    open spec fn obeys_div_spec() -> bool {
        true
    }

    open spec fn div_req(self, rhs: i32) -> bool {
        &&& rhs != 0
        &&& rhs == -1 ==> self.x != i32::MIN && self.y != i32::MIN
    }

    open spec fn div_spec(self, rhs: i32) -> Point {
        Point {
            x: spec_div_trunc(self.x as int, rhs as int) as i32,
            y: spec_div_trunc(self.y as int, rhs as int) as i32,
        }
    }
}

impl core::ops::Mul<i32> for Point {
    type Output = Point;

    fn mul(self, rhs: i32) -> (prod: Point) {
        Point { x: self.x * rhs, y: self.y * rhs }
    }
}

impl MulSpecImpl<i32> for Point {
    open spec fn obeys_mul_spec() -> bool {
        true
    }

    open spec fn mul_req(self, rhs: i32) -> bool {
        &&& i32::MIN <= self.x * rhs <= i32::MAX
        &&& i32::MIN <= self.y * rhs <= i32::MAX
    }

    open spec fn mul_spec(self, rhs: i32) -> Point {
        Point { x: (self.x * rhs) as i32, y: (self.y * rhs) as i32 }
    }
}

impl core::ops::Mul<Point> for i32 {
    type Output = Point;

    fn mul(self, rhs: Point) -> (prod: Point) {
        Point { x: rhs.x * self, y: rhs.y * self }
    }
}

impl MulSpecImpl<Point> for i32 {
    open spec fn obeys_mul_spec() -> bool {
        true
    }

    open spec fn mul_req(self, rhs: Point) -> bool {
        &&& i32::MIN <= rhs.x * self <= i32::MAX
        &&& i32::MIN <= rhs.y * self <= i32::MAX
    }

    open spec fn mul_spec(self, rhs: Point) -> Point {
        Point { x: (rhs.x * self) as i32, y: (rhs.y * self) as i32 }
    }
}

impl From<(i32, i32)> for Point {
    fn from(value: (i32, i32)) -> (p: Point) {
        Point { x: value.0, y: value.1 }
    }
}

impl FromSpecImpl<(i32, i32)> for Point {
    open spec fn obeys_from_spec() -> bool {
        true
    }

    open spec fn from_spec(value: (i32, i32)) -> Point {
        Point { x: value.0, y: value.1 }
    }
}

impl From<(u32, u32)> for Point {
    /// Each coordinate is reinterpreted as a signed number: values above
    /// `i32::MAX` wrap around to negative ones.
    fn from(value: (u32, u32)) -> (p: Point) {
        Point { x: #[verifier::truncate] (value.0 as i32), y: #[verifier::truncate] (value.1 as i32) }
    }
}

impl FromSpecImpl<(u32, u32)> for Point {
    open spec fn obeys_from_spec() -> bool {
        true
    }

    open spec fn from_spec(value: (u32, u32)) -> Point {
        Point { x: value.0 as i32, y: value.1 as i32 }
    }
}

} // verus!
