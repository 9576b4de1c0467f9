//! Turning a path dragged over the car grid into tiles.

use crate::course::TileCoord;
use crate::direction::{rotation_for, DihedralElement, Direction};
use crate::simulator::CarCoord;
use crate::tile::{Tile, TileType};
use vstd::prelude::*;

verus! {

/// A path dragged over the car grid: the edge midpoints it passes, in order.
pub struct Path(Vec<CarCoord>);

impl View for Path {
    type V = Seq<CarCoord>;

    closed spec fn view(&self) -> Seq<CarCoord> {
        self.0@
    }
}

/// `x / 4` rounded to the nearest integer, unless `x` lies half way between two multiples
/// of 4.
pub open spec fn spec_div_4_round(x: int) -> Option<int> {
    if x % 4 == 2 {
        None
    } else {
        Some((x + 1) / 4)
    }
}

fn div_4_round(x: i128) -> (r: Option<i128>)
    requires
        2 * (isize::MIN as int) <= x <= 2 * (isize::MAX as int),
    ensures
        r is Some == spec_div_4_round(x as int) is Some,
        r is Some ==> r->0 == spec_div_4_round(x as int)->0,
{
    let rem = x.checked_rem_euclid(4).unwrap();
    if rem == 2 {
        None
    } else {
        Some((x + 1).checked_div_euclid(4).unwrap())
    }
}

/// Whether the car point `p` is the midpoint of an edge of the tile `t`: whether it lies at
/// distance 1 from the tile's centre.
pub open spec fn spec_is_boundary(t: (int, int), p: CarCoord) -> bool {
    let dx = 2 * t.0 - p.0;
    let dy = 2 * t.1 - p.1;
    dx * dx + dy * dy == 1
}

/// A sum of two squares is 1 exactly if one term is 0 and the other is 1 or -1.
proof fn lemma_unit_distance(dx: int, dy: int)
    ensures
        (dx * dx + dy * dy == 1) == ((dx == 0 && (dy == 1 || dy == -1)) || (dy == 0 && (dx == 1
            || dx == -1))),
{
    assert(dx * dx >= 0 && dy * dy >= 0) by (nonlinear_arith);
    assert(dx >= 2 || dx <= -2 ==> dx * dx >= 4) by (nonlinear_arith);
    assert(dy >= 2 || dy <= -2 ==> dy * dy >= 4) by (nonlinear_arith);
    assert(dx == 1 || dx == -1 ==> dx * dx == 1) by (nonlinear_arith);
    assert(dy == 1 || dy == -1 ==> dy * dy == 1) by (nonlinear_arith);
    assert(dx == 0 ==> dx * dx == 0);
    assert(dy == 0 ==> dy * dy == 0);
}

fn is_boundary(tx: i128, ty: i128, p: CarCoord) -> (r: bool)
    requires
        (isize::MIN as int) - 1 <= 2 * tx <= (isize::MAX as int) + 1,
        (isize::MIN as int) - 1 <= 2 * ty <= (isize::MAX as int) + 1,
    ensures
        r == spec_is_boundary((tx as int, ty as int), p),
{
    let dx: i128 = 2 * tx - (p.0 as i128);
    let dy: i128 = 2 * ty - (p.1 as i128);
    proof {
        lemma_unit_distance(dx as int, dy as int);
    }
    (dx == 0 && (dy == 1 || dy == -1)) || (dy == 0 && (dx == 1 || dx == -1))
}

/// The tile of which both `p1` and `p2` are edge midpoints, if there is one.
///
/// Its centre lies half way between the two points, rounded to the grid; where a sum of
/// components leaves the remainder 2 modulo 4 no tile qualifies.
pub open spec fn spec_common_tile(p1: CarCoord, p2: CarCoord) -> Option<TileCoord> {
    let tx = spec_div_4_round(p1.0 + p2.0);
    let ty = spec_div_4_round(p1.1 + p2.1);
    if tx is Some && ty is Some && spec_is_boundary((tx->0, ty->0), p1) && spec_is_boundary(
        (tx->0, ty->0),
        p2,
    ) {
        Some(TileCoord(tx->0 as isize, ty->0 as isize))
    } else {
        None
    }
}

/// The tile of which both `p1` and `p2` are edge midpoints, if there is one.
#[verifier::when_used_as_spec(spec_common_tile)]
pub fn common_tile(p1: CarCoord, p2: CarCoord) -> (r: Option<TileCoord>)
    ensures
        r == spec_common_tile(p1, p2),
        r matches Some(t) ==> spec_is_boundary((t.0 as int, t.1 as int), p1) && spec_is_boundary(
            (t.0 as int, t.1 as int),
            p2,
        ),
{
    let x: i128 = (p1.0 as i128) + (p2.0 as i128);
    let y: i128 = (p1.1 as i128) + (p2.1 as i128);
    match div_4_round(x) {
        None => None,
        Some(tx) => match div_4_round(y) {
            None => None,
            Some(ty) => {
                if is_boundary(tx, ty, p1) && is_boundary(tx, ty, p2) {
                    proof {
                        lemma_unit_distance(2 * tx - p1.0, 2 * ty - p1.1);
                    }
                    Some(TileCoord(tx as isize, ty as isize))
                } else {
                    None
                }
            },
        },
    }
}

/// The axis direction from `p1` towards `p2`, by the sign of the difference: the horizontal
/// component decides unless it is zero, and equal points give `Up`.
pub open spec fn spec_direction_to(p1: CarCoord, p2: CarCoord) -> Direction {
    if p2.0 > p1.0 {
        Direction::Right
    } else if p2.0 < p1.0 {
        Direction::Left
    } else if p2.1 > p1.1 {
        Direction::Down
    } else {
        Direction::Up
    }
}

/// The axis direction from `p1` towards `p2`.
#[verifier::when_used_as_spec(spec_direction_to)]
pub fn direction_to(p1: CarCoord, p2: CarCoord) -> (r: Direction)
    ensures
        r == spec_direction_to(p1, p2),
{
    if p2.0 > p1.0 {
        Direction::Right
    } else if p2.0 < p1.0 {
        Direction::Left
    } else if p2.1 > p1.1 {
        Direction::Down
    } else {
        Direction::Up
    }
}

/// The tile through which a car drives from the edge midpoint `p1` to the edge midpoint
/// `p2` of the tile `pos`: a straight if the two lie on opposite edges, else a turn, mirrored
/// if the car turns right.
pub open spec fn spec_track_tile_at(pos: TileCoord, p1: CarCoord, p2: CarCoord) -> Tile {
    let center = CarCoord((2 * pos.0) as isize, (2 * pos.1) as isize);
    let d1 = spec_direction_to(center, p1);
    let d2 = spec_direction_to(center, p2);
    if d2 == d1.spec_opposite() {
        Tile { tile_type: TileType::Straight, transform: rotation_for(Direction::Up, d2), offset: 0 }
    } else if d2 == DihedralElement::Rot90.spec_apply(d1) {
        Tile { tile_type: TileType::Turn, transform: rotation_for(Direction::Left, d2), offset: 0 }
    } else {
        Tile {
            tile_type: TileType::Turn,
            transform: rotation_for(Direction::Left, d2).compose(DihedralElement::Flip90),
            offset: 0,
        }
    }
}

/// The cell and the tile for the step of a path from `p1` to `p2`.
pub fn track_tile(p1: CarCoord, p2: CarCoord) -> (r: (TileCoord, Tile))
    requires
        spec_common_tile(p1, p2) is Some,
    ensures
        r.0 == spec_common_tile(p1, p2)->0,
        r.1 == spec_track_tile_at(r.0, p1, p2),
{
    let pos = common_tile(p1, p2).unwrap();
    proof {
        lemma_unit_distance(2 * pos.0 - p1.0, 2 * pos.1 - p1.1);
    }
    let car_pos = CarCoord::from_tile(pos);
    let d1 = direction_to(car_pos, p1);
    let d2 = direction_to(car_pos, p2);
    let tile = if d2 == d1.opposite() {
        Tile { tile_type: TileType::Straight, transform: rotation_for(Direction::Up, d2), offset: 0 }
    } else {
        let transform = if d2 == DihedralElement::Rot90 * d1 {
            rotation_for(Direction::Left, d2)
        } else {
            rotation_for(Direction::Left, d2) * DihedralElement::Flip90
        };
        Tile { tile_type: TileType::Turn, transform, offset: 0 }
    };
    (pos, tile)
}

/// -1, 0 or 1 by the sign of `v`.
pub open spec fn signum(v: int) -> int {
    if v > 0 {
        1
    } else if v < 0 {
        -1
    } else {
        0
    }
}

/// The number of unit steps along the axes between two car points.
pub open spec fn grid_distance(a: CarCoord, b: CarCoord) -> int {
    (if b.0 >= a.0 {
        b.0 - a.0
    } else {
        a.0 - b.0
    }) + (if b.1 >= a.1 {
        b.1 - a.1
    } else {
        a.1 - b.1
    })
}

/// The next point on the way from the edge midpoint `start` to `end`, which never crosses a
/// tile diagonally.
///
/// From the midpoint of a horizontal edge (even `x`) the way first goes up or down, a whole
/// tile at a time, to the row next to `end`'s, and then through the corner of that tile
/// onto a vertical edge; from the midpoint of a vertical edge it goes sideways likewise.
/// The way ends at `end`, or where the next step would have to run along an edge.
pub open spec fn spec_next_step(start: CarCoord, end: CarCoord) -> Option<CarCoord> {
    let dx = end.0 - start.0;
    let dy = end.1 - start.1;
    if start == end {
        None
    } else if start.0 % 2 == 0 {
        if dy <= -2 {
            Some(CarCoord(start.0, (start.1 - 2) as isize))
        } else if dy >= 2 {
            Some(CarCoord(start.0, (start.1 + 2) as isize))
        } else if dy == 0 {
            None
        } else {
            Some(CarCoord((start.0 + signum(dx)) as isize, end.1))
        }
    } else {
        if dx <= -2 {
            Some(CarCoord((start.0 - 2) as isize, start.1))
        } else if dx >= 2 {
            Some(CarCoord((start.0 + 2) as isize, start.1))
        } else if dx == 0 {
            None
        } else {
            Some(CarCoord(end.0, (start.1 + signum(dy)) as isize))
        }
    }
}

/// Each step brings the way closer to its end.
pub proof fn lemma_next_step_closer(start: CarCoord, end: CarCoord)
    requires
        spec_next_step(start, end) is Some,
    ensures
        0 <= grid_distance(spec_next_step(start, end)->0, end) < grid_distance(start, end),
{
}

/// All the points on the way from `start` to `end`, without `start`.
pub open spec fn spec_steps(start: CarCoord, end: CarCoord) -> Seq<CarCoord>
    decreases grid_distance(start, end),
{
    match spec_next_step(start, end) {
        None => Seq::empty(),
        Some(next) => {
            if grid_distance(next, end) < grid_distance(start, end) {
                seq![next] + spec_steps(next, end)
            } else {
                Seq::empty()
            }
        },
    }
}

/// The path after the point `new` has been reached.
///
/// A step back to the point before the last takes the last point away. A step that stays on
/// the tile of the step before replaces the last point. Any other step is added.
pub open spec fn spec_push_point(path: Seq<CarCoord>, new: CarCoord) -> Seq<CarCoord> {
    if path.len() >= 2 {
        let pvs = path[path.len() - 2];
        let last = path[path.len() - 1];
        if pvs == new {
            path.drop_last()
        } else if spec_common_tile(pvs, last) == spec_common_tile(last, new) {
            path.drop_last().push(new)
        } else {
            path.push(new)
        }
    } else {
        path.push(new)
    }
}

/// The path after each of `points` has been reached in turn.
pub open spec fn spec_extend(path: Seq<CarCoord>, points: Seq<CarCoord>) -> Seq<CarCoord>
    decreases points.len(),
{
    if points.len() == 0 {
        path
    } else {
        spec_extend(spec_push_point(path, points[0]), points.drop_first())
    }
}

/// The path after the pointer has moved to `pos`: the first point is taken as it is, and
/// later ones are reached step by step from the last point.
pub open spec fn spec_add(path: Seq<CarCoord>, pos: CarCoord) -> Seq<CarCoord> {
    if path.len() == 0 {
        seq![pos]
    } else {
        spec_extend(path, spec_steps(path[path.len() - 1], pos))
    }
}

/// The way from one edge midpoint to another, one step at a time.
struct PathIter {
    start: CarCoord,
    end: CarCoord,
}

impl PathIter {
    fn next(&mut self) -> (r: Option<CarCoord>)
        ensures
            r == spec_next_step(old(self).start, old(self).end),
            final(self).end == old(self).end,
            r is Some ==> final(self).start == r->0,
            r is None ==> final(self).start == old(self).start,
    {
        if self.start == self.end {
            None
        } else {
            let dx: i128 = (self.end.0 as i128) - (self.start.0 as i128);
            let dy: i128 = (self.end.1 as i128) - (self.start.1 as i128);
            let sx: isize = if dx > 0 {
                1
            } else if dx < 0 {
                -1
            } else {
                0
            };
            let sy: isize = if dy > 0 {
                1
            } else if dy < 0 {
                -1
            } else {
                0
            };
            let next = if self.start.0 % 2 == 0 {
                if dy <= -2 {
                    CarCoord(self.start.0, self.start.1 - 2)
                } else if dy >= 2 {
                    CarCoord(self.start.0, self.start.1 + 2)
                } else if dy == 0 {
                    return None;
                } else {
                    CarCoord(self.start.0 + sx, self.end.1)
                }
            } else {
                if dx <= -2 {
                    CarCoord(self.start.0 - 2, self.start.1)
                } else if dx >= 2 {
                    CarCoord(self.start.0 + 2, self.start.1)
                } else if dx == 0 {
                    return None;
                } else {
                    CarCoord(self.end.0, self.start.1 + sy)
                }
            };
            self.start = next;
            Some(next)
        }
    }
}

fn same_tile(a: Option<TileCoord>, b: Option<TileCoord>) -> (r: bool)
    ensures
        r == (a == b),
{
    match (a, b) {
        (None, None) => true,
        (Some(x), Some(y)) => x == y,
        _ => false,
    }
}

impl Path {
    /// The empty path.
    pub fn new() -> (r: Path)
        ensures
            r@.len() == 0,
    {
        Path(Vec::new())
    }

    /// The points of the path, in order.
    pub fn path(&self) -> (r: &[CarCoord])
        ensures
            r@ == self@,
    {
        self.0.as_slice()
    }

    /// Forgets every point.
    pub fn clear(&mut self)
        ensures
            final(self)@.len() == 0,
    {
        self.0.clear()
    }

    fn second_last(&self) -> (r: Option<CarCoord>)
        ensures
            r == (if self@.len() >= 2 {
                Some(self@[self@.len() - 2])
            } else {
                None
            }),
    {
        if self.0.len() >= 2 {
            Some(self.0[self.0.len() - 2])
        } else {
            None
        }
    }

    fn push_point(&mut self, new: CarCoord)
        ensures
            final(self)@ == spec_push_point(old(self)@, new),
    {
        match self.second_last() {
            Some(pvs) => {
                let last = self.0[self.0.len() - 1];
                if pvs == new {
                    self.0.pop();
                } else if same_tile(common_tile(pvs, last), common_tile(last, new)) {
                    self.0.pop();
                    self.0.push(new);
                } else {
                    self.0.push(new);
                }
            },
            None => {
                self.0.push(new);
            },
        }
    }

    /// Moves the end of the path to `pos`.
    pub fn add(&mut self, pos: CarCoord)
        ensures
            final(self)@ == spec_add(old(self)@, pos),
    {
        if self.0.len() == 0 {
            self.0.push(pos);
            assert(self@ =~= seq![pos]);
        } else {
            let old_last = self.0[self.0.len() - 1];
            let mut it = PathIter { start: old_last, end: pos };
            loop
                invariant
                    it.end == pos,
                    spec_extend(self@, spec_steps(it.start, pos)) == spec_add(old(self)@, pos),
                ensures
                    self@ == spec_add(old(self)@, pos),
                decreases grid_distance(it.start, pos),
            {
                let ghost before = it.start;
                let ghost path_before = self@;
                match it.next() {
                    None => {
                        break ;
                    },
                    Some(new) => {
                        proof {
                            lemma_next_step_closer(before, pos);
                            let rest = spec_steps(new, pos);
                            assert(spec_steps(before, pos) == seq![new] + rest);
                            assert((seq![new] + rest).drop_first() =~= rest);
                        }
                        self.push_point(new);
                    },
                }
            }
        }
    }
}

impl Default for Path {
    fn default() -> (r: Path)
        ensures
            r@.len() == 0,
    {
        Path::new()
    }
}

/// The edge midpoint of the tile `pos` on the side towards `d`, as a pair of unbounded
/// integers.
pub open spec fn edge_point(pos: TileCoord, d: Direction) -> (int, int) {
    (2 * pos.0 + d.spec_dx(), 2 * pos.1 + d.spec_dy())
}

/// Drawing through a tile gives that tile back. If `p1` and `p2` are the edge midpoints
/// through which cars enter and leave a straight or a turn placed on `pos` with transform
/// `e`, then `track_tile(p1, p2)` is that cell and that tile in phase 0. For a straight `e`
/// is a rotation.
pub proof fn lemma_track_tile_round_trip(pos: TileCoord, e: DihedralElement, p1: CarCoord, p2: CarCoord)
    requires
        p1.is_at(edge_point(pos, e.spec_apply(Direction::Down))),
    ensures
        p2.is_at(edge_point(pos, e.spec_apply(Direction::Left))) ==> spec_common_tile(p1, p2)
            == Some(pos) && spec_track_tile_at(pos, p1, p2) == (Tile {
            tile_type: TileType::Turn,
            transform: e,
            offset: 0,
        }),
        e.spec_sign() == 1 && p2.is_at(edge_point(pos, e.spec_apply(Direction::Up)))
            ==> spec_common_tile(p1, p2) == Some(pos) && spec_track_tile_at(pos, p1, p2) == (Tile {
            tile_type: TileType::Straight,
            transform: e,
            offset: 0,
        }),
{
    lemma_unit_distance(2 * pos.0 - p1.0, 2 * pos.1 - p1.1);
    lemma_unit_distance(2 * pos.0 - p2.0, 2 * pos.1 - p2.1);
    match e {
        DihedralElement::Id => {},
        DihedralElement::Rot90 => {},
        DihedralElement::Rot180 => {},
        DihedralElement::Rot270 => {},
        DihedralElement::Flip0 => {},
        DihedralElement::Flip45 => {},
        DihedralElement::Flip90 => {},
        DihedralElement::Flip135 => {},
    }
}

} // verus!
