//! The tiles on a line between two tiles.

use crate::grid::Coordinate;
use bresenham::Bresenham;
use vstd::prelude::*;

verus! {

/// The points that `bresenham::Bresenham` yields for the line from
/// `(x0, y0)` to `(x1, y1)`, in its order. The iterator stops short of the
/// end of the line.
pub uninterp spec fn bresenham_points(x0: int, y0: int, x1: int, y1: int) -> Seq<(int, int)>;

/// Whether the line from `(x0, y0)` to `(x1, y1)` can be drawn on this
/// machine: the iterator negates the numbers it is given and takes their
/// differences, so each of these has to be a machine-sized integer.
pub open spec fn line_fits(x0: int, y0: int, x1: int, y1: int) -> bool {
    &&& isize::MIN < x0 <= isize::MAX
    &&& isize::MIN < y0 <= isize::MAX
    &&& isize::MIN < x1 <= isize::MAX
    &&& isize::MIN < y1 <= isize::MAX
    &&& isize::MIN < x1 - x0 <= isize::MAX
    &&& isize::MIN < y1 - y0 <= isize::MAX
}

/// The number of steps from `(x0, y0)` to `(x1, y1)`: the larger of the two
/// distances.
pub open spec fn line_length(x0: int, y0: int, x1: int, y1: int) -> int {
    let dx = if x1 >= x0 {
        x1 - x0
    } else {
        x0 - x1
    };
    let dy = if y1 >= y0 {
        y1 - y0
    } else {
        y0 - y1
    };
    if dx >= dy {
        dx
    } else {
        dy
    }
}

/// `Bresenham::new` and its iterator, run to the end: the points of the
/// line from `(x0, y0)` towards `(x1, y1)`. The same line always gives the
/// same points. The iterator walks the longer axis one step at a time from
/// the start and stops short of the end, so there is one point for each
/// step, and the first point is the start. Nothing more is claimed of the
/// points in between.
#[verifier::external_body]
pub(crate) fn bresenham_line(x0: isize, y0: isize, x1: isize, y1: isize) -> (points: Vec<
    (isize, isize),
>)
    requires
        line_fits(x0 as int, y0 as int, x1 as int, y1 as int),
    ensures
        points_of(points@) == bresenham_points(x0 as int, y0 as int, x1 as int, y1 as int),
        points@.len() == line_length(x0 as int, y0 as int, x1 as int, y1 as int),
        points@.len() > 0 ==> points@[0] == (x0, y0),
{
    Bresenham::new((x0, y0), (x1, y1)).collect()
}

/// Machine-sized points as points.
pub open spec fn points_of(points: Seq<(isize, isize)>) -> Seq<(int, int)> {
    Seq::new(points.len(), |i: int| (points[i].0 as int, points[i].1 as int))
}

/// The tile of a point. The numbers of a point on a line between two tiles
/// are 32-bit numbers; any other number is cut to 32 bits.
pub open spec fn tile_of_point(point: (int, int)) -> Coordinate {
    Coordinate::Tile { x: point.0 as i32, y: point.1 as i32 }
}

/// The tiles of a line: the tile of each point, then the tile at the end of
/// the line.
pub open spec fn ray_tiles(points: Seq<(int, int)>, end: Coordinate) -> Seq<Coordinate> {
    Seq::new(points.len(), |i: int| tile_of_point(points[i])).push(
        Coordinate::Tile { x: end.x() as i32, y: end.y() as i32 },
    )
}

/// The tiles of a line from its points and its end.
pub fn tiles_along(points: &Vec<(isize, isize)>, end: Coordinate) -> (tiles: Vec<Coordinate>)
    ensures
        tiles@ == ray_tiles(points_of(points@), end),
{
    let mut tiles: Vec<Coordinate> = Vec::new();
    let mut i: usize = 0;
    while i < points.len()
        invariant
            i <= points@.len(),
            tiles@.len() == i,
            forall|j: int| 0 <= j < i ==> #[trigger] tiles@[j] == tile_of_point(points_of(points@)[j]),
        decreases points@.len() - i,
    {
        let (x, y) = points[i];
        tiles.push(Coordinate::Tile {
            x: #[verifier::truncate]
            (x as i32),
            y: #[verifier::truncate]
            (y as i32),
        });
        i = i + 1;
    }
    tiles.push(Coordinate::Tile { x: end.x_i32(), y: end.y_i32() });
    assert(tiles@ =~= ray_tiles(points_of(points@), end));
    tiles
}

impl Coordinate {
    /// Whether the line from this position to `other` can be drawn on this
    /// machine. It always can where machine-sized integers have 64 bits.
    pub open spec fn can_raycast_to(&self, other: Coordinate) -> bool {
        line_fits(self.x(), self.y(), other.x(), other.y())
    }

    /// The tiles on the line from this position to `other`, both ends
    /// included, from this end to the other: one tile for each step along
    /// the longer axis, and the tile at the other end.
    pub fn raycast_to(&self, other_tile_coord: Coordinate) -> (tiles: Vec<Coordinate>)
        requires
            self.can_raycast_to(other_tile_coord),
        ensures
            tiles@ == ray_tiles(
                bresenham_points(
                    self.x(),
                    self.y(),
                    other_tile_coord.x(),
                    other_tile_coord.y(),
                ),
                other_tile_coord,
            ),
            tiles@.len() == line_length(
                self.x(),
                self.y(),
                other_tile_coord.x(),
                other_tile_coord.y(),
            ) + 1,
            tiles@.first() == (Coordinate::Tile { x: self.x() as i32, y: self.y() as i32 }),
            tiles@.last() == (Coordinate::Tile {
                x: other_tile_coord.x() as i32,
                y: other_tile_coord.y() as i32,
            }),
    {
        let points = bresenham_line(
            self.x_isize(),
            self.y_isize(),
            other_tile_coord.x_isize(),
            other_tile_coord.y_isize(),
        );
        proof {
            assert(points_of(points@).len() == points@.len());
            if points@.len() > 0 {
                assert(points_of(points@)[0] == (self.x(), self.y()));
            }
        }
        tiles_along(&points, other_tile_coord)
    }
}

} // verus!
