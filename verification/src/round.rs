//! The rules of one round of traffic, as mathematics: which cars are held up, which move,
//! in which order they are resolved, and where they end up.

use crate::course::{fits_isize, TileCoord};
use crate::direction::{DihedralElement, Direction};
use crate::simulator::{spec_is_entrance_id, CarCoord, CarData};
use crate::tile::{Tile, TileType};
use vstd::prelude::*;

verus! {

/// What a round starts from: the course, the number of the round, and the cars on the
/// course in the order in which they are kept.
pub struct Traffic {
    pub course: Map<TileCoord, Tile>,
    pub round: nat,
    pub cars: Seq<CarData>,
}

/// How a car stands after a round.
#[derive(Copy, Clone, PartialEq, Eq, Structural, Debug)]
pub enum CarStatus {
    /// The car faces a tile that it can enter.
    Racing,
    /// The car faces the finish line.
    Finished,
    /// The car faces no tile, or a side of a tile that is no entrance.
    Crashed,
}

/// The point one step from `p` in direction `d`.
pub open spec fn step(p: CarCoord, d: Direction) -> CarCoord {
    CarCoord((p.0 + d.spec_dx()) as isize, (p.1 + d.spec_dy()) as isize)
}

/// The point one step from `p` against direction `d`.
pub open spec fn step_back(p: CarCoord, d: Direction) -> CarCoord {
    CarCoord((p.0 - d.spec_dx()) as isize, (p.1 - d.spec_dy()) as isize)
}

/// The cell whose centre is the car point `p`.
pub open spec fn cell_of(p: CarCoord) -> TileCoord {
    TileCoord((p.0 / 2) as isize, (p.1 / 2) as isize)
}

/// The tile whose centre is the car point `p`, if `p` is the centre of an occupied cell.
pub open spec fn tile_at(course: Map<TileCoord, Tile>, p: CarCoord) -> Option<Tile> {
    if p.is_center() && course.dom().contains(cell_of(p)) {
        Some(course[cell_of(p)])
    } else {
        None
    }
}

/// The centre of the tile that the car faces.
pub open spec fn tile_pos(car: CarData) -> CarCoord {
    step(car.pos, car.dir)
}

/// Whether bit 0 of `v` is set.
pub open spec fn is_odd(v: int) -> bool {
    v % 2 == 1
}

/// Whether a tile with lights shows its second phase in the given round: the phases
/// alternate from round to round, and bit 0 of the tile's offset swaps them.
pub open spec fn second_phase(round: nat, tile: Tile) -> bool {
    is_odd(round as int) != is_odd(tile.offset as int)
}

/// The direction in which a car leaves `tile` that entered it in direction `in_dir`.
///
/// Straights and intersections are crossed. A turn is left to its canonical left. Turns
/// with lights send cars left in the first phase and right in the second; a fork with lights
/// sends them left in the first phase and straight on in the second. A merge is left by its
/// one exit. Nothing leaves a finish line: `in_dir` stands in.
pub open spec fn out_dir(tile: Tile, round: nat, in_dir: Direction) -> Direction {
    match tile.tile_type {
        TileType::Straight | TileType::LightIntersection | TileType::YieldIntersection => in_dir,
        TileType::Turn => tile.transform.spec_apply(Direction::Left),
        TileType::LightTurns => tile.transform.spec_apply(
            if second_phase(round, tile) {
                Direction::Right
            } else {
                Direction::Left
            },
        ),
        TileType::LightForwardTurn => tile.transform.spec_apply(
            if second_phase(round, tile) {
                Direction::Up
            } else {
                Direction::Left
            },
        ),
        TileType::Merge => tile.transform.spec_apply(Direction::Up),
        TileType::Finish => in_dir,
    }
}

/// The tile that a car at `pos` faces that looks in direction `dir`, if there is one. At
/// the end of the number range there is none.
pub open spec fn tile_ahead(course: Map<TileCoord, Tile>, pos: CarCoord, dir: Direction) -> Option<
    Tile,
> {
    if fits_isize(pos.0 + dir.spec_dx()) && fits_isize(pos.1 + dir.spec_dy()) {
        tile_at(course, step(pos, dir))
    } else {
        None
    }
}

/// How a car stands that is at `pos` and faces `dir`.
pub open spec fn car_status(course: Map<TileCoord, Tile>, pos: CarCoord, dir: Direction) -> CarStatus {
    match tile_ahead(course, pos, dir) {
        Some(tile) => {
            if spec_is_entrance_id(tile.tile_type, tile.transform.spec_apply_inverse(dir)) {
                if tile.tile_type == TileType::Finish {
                    CarStatus::Finished
                } else {
                    CarStatus::Racing
                }
            } else {
                CarStatus::Crashed
            }
        },
        None => CarStatus::Crashed,
    }
}

/// Whether the car is in the race: it faces a tile other than the finish line, on a side
/// that is an entrance.
pub open spec fn is_racing(course: Map<TileCoord, Tile>, car: CarData) -> bool {
    car_status(course, car.pos, car.dir) == CarStatus::Racing
}

/// The far edge of the tile that the car faces, where it stands once it has moved.
pub open spec fn out_pos(t: Traffic, car: CarData) -> CarCoord {
    match tile_at(t.course, tile_pos(car)) {
        Some(tile) => step(tile_pos(car), out_dir(tile, t.round, car.dir)),
        None => car.pos,
    }
}

/// The car after it has driven through the tile that it faces.
pub open spec fn advance(t: Traffic, car: CarData) -> CarData {
    match tile_at(t.course, tile_pos(car)) {
        Some(tile) => CarData {
            id: car.id,
            pos: step(tile_pos(car), out_dir(tile, t.round, car.dir)),
            dir: out_dir(tile, t.round, car.dir),
        },
        None => car,
    }
}

/// The index of the car that counts as standing at `p`: the last of `cars` with that
/// position, if there is any.
pub open spec fn car_index_at(cars: Seq<CarData>, p: CarCoord) -> Option<int>
    decreases cars.len(),
{
    if cars.len() == 0 {
        None
    } else if cars.last().pos == p {
        Some(cars.len() - 1)
    } else {
        car_index_at(cars.drop_last(), p)
    }
}

/// Whether a car is about to enter the tile centred at `center` in direction `from_dir`.
pub open spec fn is_entering(t: Traffic, center: CarCoord, from_dir: Direction) -> bool {
    match car_index_at(t.cars, step_back(center, from_dir)) {
        Some(j) => t.cars[j].dir == from_dir,
        None => false,
    }
}

/// Whether the right of way of the tile centred at `center` holds up a car that is about
/// to enter it in direction `dir`.
///
/// At an intersection with lights the two entrances are open in alternate rounds: the
/// canonical `Up` in the second phase, the canonical `Left` in the first. At an
/// intersection with a yield sign the car that enters along the canonical `Up` waits while
/// another is about to enter along the canonical `Left`. At a merge the car that enters
/// along the canonical `Left` waits while another is about to enter along the canonical
/// `Up`. No other tile holds cars up.
pub open spec fn blocked_at(t: Traffic, center: CarCoord, dir: Direction) -> bool {
    match tile_at(t.course, center) {
        Some(tile) => {
            let dir_norm = tile.transform.spec_apply_inverse(dir);
            match tile.tile_type {
                TileType::LightIntersection => is_odd(dir_norm.index()) == second_phase(
                    t.round,
                    tile,
                ),
                TileType::YieldIntersection => dir_norm == Direction::Up && is_entering(
                    t,
                    center,
                    tile.transform.spec_apply(Direction::Left),
                ),
                TileType::Merge => dir_norm == Direction::Left && is_entering(
                    t,
                    center,
                    tile.transform.spec_apply(Direction::Up),
                ),
                _ => false,
            }
        },
        None => false,
    }
}

/// Whether the right of way of the tile that car `i` faces holds the car up.
pub open spec fn blocked_incoming(t: Traffic, i: int) -> bool {
    blocked_at(t, tile_pos(t.cars[i]), t.cars[i].dir)
}

/// The car in the way of car `i`: the one that stands where car `i` would move to.
pub open spec fn successor(t: Traffic, i: int) -> Option<int> {
    car_index_at(t.cars, out_pos(t, t.cars[i]))
}

/// The car `k` places ahead of car `i`, if the line of cars is that long.
pub open spec fn nth_successor(t: Traffic, i: int, k: nat) -> Option<int>
    decreases k,
{
    if k == 0 {
        Some(i)
    } else {
        match successor(t, i) {
            Some(j) => nth_successor(t, j, (k - 1) as nat),
            None => None,
        }
    }
}

/// Whether the car `k` places ahead of car `i` is not held up, if the line of cars is that
/// long.
pub open spec fn free_at(t: Traffic, i: int, k: nat) -> bool {
    nth_successor(t, i, k) matches Some(j) ==> !blocked_incoming(t, j)
}

/// Whether car `i` moves in this round: neither the car itself nor any car in the line
/// ahead of it is held up by a right of way. A line that closes to a ring moves as a whole.
pub open spec fn moves(t: Traffic, i: int) -> bool {
    forall|k: nat| #[trigger] free_at(t, i, k)
}

/// The car `i` after the round: moved on if it moves, else as it was.
pub open spec fn outcome(t: Traffic, i: int) -> CarData {
    if moves(t, i) {
        advance(t, t.cars[i])
    } else {
        t.cars[i]
    }
}

/// The cars that are resolved together when the resolution starts at the unresolved car
/// `cur`: `cur`, then the car in its way if `cur` is not held up and that car is unresolved
/// too, and so on.
pub open spec fn chain(t: Traffic, unresolved: Set<int>, cur: int) -> Seq<int>
    decreases unresolved.len(),
    when unresolved.finite() && unresolved.contains(cur)
{
    if blocked_incoming(t, cur) {
        seq![cur]
    } else {
        match successor(t, cur) {
            Some(j) => {
                if unresolved.remove(cur).contains(j) {
                    seq![cur] + chain(t, unresolved.remove(cur), j)
                } else {
                    seq![cur]
                }
            },
            None => seq![cur],
        }
    }
}

/// The order in which the cars from index `i` on are resolved, given those that are still
/// unresolved: the cars are taken by index, and with each unresolved one its chain is
/// resolved from the far end back.
pub open spec fn order_from(t: Traffic, unresolved: Set<int>, i: int) -> Seq<int>
    decreases t.cars.len() - i,
{
    if i >= t.cars.len() || i < 0 {
        Seq::empty()
    } else if unresolved.contains(i) {
        let c = chain(t, unresolved, i);
        c.reverse() + order_from(t, unresolved.difference(c.to_set()), i + 1)
    } else {
        order_from(t, unresolved, i + 1)
    }
}

/// The indices from 0 up to `n`.
pub open spec fn indices(n: int) -> Set<int> {
    Set::new(|i: int| 0 <= i < n)
}

/// The order in which the cars are resolved in a round.
pub open spec fn resolution_order(t: Traffic) -> Seq<int> {
    order_from(t, indices(t.cars.len() as int), 0)
}

/// The cars after all have been resolved, in the order of their resolution.
pub open spec fn moved_cars(t: Traffic) -> Seq<CarData> {
    Seq::new(resolution_order(t).len(), |k: int| outcome(t, resolution_order(t)[k]))
}

/// Whether a car may start at `p`: no car stands there, or the one that counts as standing
/// there moves away.
pub open spec fn spot_free(t: Traffic, p: CarCoord) -> bool {
    match car_index_at(t.cars, p) {
        Some(i) => moves(t, i),
        None => true,
    }
}

/// A car moves exactly if it is not held up and the car in its way, if there is one,
/// moves.
pub proof fn lemma_moves_unfold(t: Traffic, i: int)
    ensures
        moves(t, i) == (!blocked_incoming(t, i) && (successor(t, i) matches Some(j) ==> moves(
            t,
            j,
        ))),
{
    assert(nth_successor(t, i, 0) == Some(i));
    if moves(t, i) {
        assert(free_at(t, i, 0));
    }
    match successor(t, i) {
        Some(j) => {
            if moves(t, i) {
                assert forall|k: nat| #[trigger] free_at(t, j, k) by {
                    assert(nth_successor(t, i, k + 1) == nth_successor(t, j, k));
                    assert(free_at(t, i, k + 1));
                }
            }
            if !blocked_incoming(t, i) && moves(t, j) {
                assert forall|k: nat| #[trigger] free_at(t, i, k) by {
                    if k > 0 {
                        assert(nth_successor(t, i, k) == nth_successor(t, j, (k - 1) as nat));
                        assert(free_at(t, j, (k - 1) as nat));
                    }
                }
            }
        },
        None => {
            if !blocked_incoming(t, i) {
                assert forall|k: nat| #[trigger] free_at(t, i, k) by {
                    if k > 0 {
                        assert(nth_successor(t, i, k) is None);
                    }
                }
            }
        },
    }
}

/// Whether `ring` is a ring of cars of which none is held up: each is in the way of the one
/// before it, and the first is in the way of the last.
pub open spec fn is_free_ring(t: Traffic, ring: Seq<int>) -> bool {
    &&& ring.len() > 0
    &&& forall|a: int| 0 <= a < ring.len() ==> !blocked_incoming(t, #[trigger] ring[a])
    &&& forall|a: int|
        0 <= a < ring.len() - 1 ==> successor(t, #[trigger] ring[a]) == Some(ring[a + 1])
    &&& successor(t, ring.last()) == Some(ring[0])
}

/// The line ahead of a car of a ring never leaves the ring.
proof fn lemma_ring_closed(t: Traffic, ring: Seq<int>, a: int, k: nat)
    requires
        is_free_ring(t, ring),
        0 <= a < ring.len(),
    ensures
        exists|b: int| 0 <= b < ring.len() && nth_successor(t, ring[a], k) == Some(#[trigger] ring[b]),
    decreases k,
{
    if k == 0 {
        assert(nth_successor(t, ring[a], k) == Some(ring[a]));
    } else {
        let next = if a < ring.len() - 1 {
            a + 1
        } else {
            0
        };
        assert(successor(t, ring[a]) == Some(ring[next]));
        lemma_ring_closed(t, ring, next, (k - 1) as nat);
    }
}

/// Every car of a ring of cars that are not held up moves.
pub proof fn lemma_ring_moves(t: Traffic, ring: Seq<int>, a: int)
    requires
        is_free_ring(t, ring),
        0 <= a < ring.len(),
    ensures
        moves(t, ring[a]),
{
    assert forall|k: nat| #[trigger] free_at(t, ring[a], k) by {
        lemma_ring_closed(t, ring, a, k);
    }
}

/// In a line of cars of which none but perhaps the last is held up, all cars move exactly
/// if the last one does.
pub proof fn lemma_line_moves(t: Traffic, line: Seq<int>, k: int)
    requires
        0 <= k < line.len(),
        forall|a: int| 0 <= a < line.len() - 1 ==> !blocked_incoming(t, #[trigger] line[a]),
        forall|a: int|
            0 <= a < line.len() - 1 ==> successor(t, #[trigger] line[a]) == Some(line[a + 1]),
    ensures
        moves(t, line[k]) == moves(t, line.last()),
    decreases line.len() - k,
{
    if k < line.len() - 1 {
        lemma_moves_unfold(t, line[k]);
        lemma_line_moves(t, line, k + 1);
    }
}

/// The cars that start at the first `k` of the starting points `starts`, in that order.
///
/// A car starts at a point if not all cars have started yet, the point is free, and the
/// spawn policy allows a start there in this round, which `allow` tells. The cars are
/// numbered on from `next_car`, up to `max_cars` cars in all.
pub open spec fn spawned(
    t: Traffic,
    starts: Seq<(CarCoord, Direction)>,
    allow: Seq<bool>,
    next_car: nat,
    max_cars: nat,
    k: int,
) -> Seq<CarData>
    decreases k,
{
    if k <= 0 {
        Seq::empty()
    } else {
        let before = spawned(t, starts, allow, next_car, max_cars, k - 1);
        let id = next_car + before.len();
        if id < max_cars && spot_free(t, starts[k - 1].0) && allow[k - 1] {
            before.push(CarData { id: id as usize, pos: starts[k - 1].0, dir: starts[k - 1].1 })
        } else {
            before
        }
    }
}

/// The cars among `cars` that are in the race, in order.
pub open spec fn survivors(course: Map<TileCoord, Tile>, cars: Seq<CarData>) -> Seq<CarData>
    decreases cars.len(),
{
    if cars.len() == 0 {
        Seq::empty()
    } else if is_racing(course, cars.last()) {
        survivors(course, cars.drop_last()).push(cars.last())
    } else {
        survivors(course, cars.drop_last())
    }
}

/// Which cars start at the first `k` starting points depends on the first `k` entries of
/// `allow` only.
pub proof fn lemma_spawned_prefix(
    t: Traffic,
    starts: Seq<(CarCoord, Direction)>,
    allow1: Seq<bool>,
    allow2: Seq<bool>,
    next_car: nat,
    max_cars: nat,
    k: int,
)
    requires
        forall|i: int| 0 <= i < k ==> allow1[i] == allow2[i],
    ensures
        spawned(t, starts, allow1, next_car, max_cars, k) == spawned(
            t,
            starts,
            allow2,
            next_car,
            max_cars,
            k,
        ),
    decreases k,
{
    if k > 0 {
        lemma_spawned_prefix(t, starts, allow1, allow2, next_car, max_cars, k - 1);
    }
}

/// A car that counts as standing at its point and faces a point within the number range is
/// about to enter the tile centred there.
pub proof fn lemma_is_entering(t: Traffic, a: int)
    requires
        0 <= a < t.cars.len(),
        car_index_at(t.cars, t.cars[a].pos) == Some(a),
        fits_isize(t.cars[a].pos.0 + t.cars[a].dir.spec_dx()),
        fits_isize(t.cars[a].pos.1 + t.cars[a].dir.spec_dy()),
    ensures
        is_entering(t, tile_pos(t.cars[a]), t.cars[a].dir),
{
    let car = t.cars[a];
    assert(step_back(tile_pos(car), car.dir) == car.pos);
}

/// The right of way at a merge: a car that enters along the canonical `Up` is never held
/// up; a car that enters along the canonical `Left` is held up exactly while another is
/// about to enter along the canonical `Up`, and then it does not move.
pub proof fn lemma_merge_right_of_way(t: Traffic, center: CarCoord, tile: Tile)
    requires
        tile_at(t.course, center) == Some(tile),
        tile.tile_type == TileType::Merge,
    ensures
        !blocked_at(t, center, tile.transform.spec_apply(Direction::Up)),
        blocked_at(t, center, tile.transform.spec_apply(Direction::Left)) == is_entering(
            t,
            center,
            tile.transform.spec_apply(Direction::Up),
        ),
        forall|i: int|
            0 <= i < t.cars.len() && tile_pos(t.cars[i]) == center && t.cars[i].dir
                == tile.transform.spec_apply(Direction::Left) && is_entering(
                t,
                center,
                tile.transform.spec_apply(Direction::Up),
            ) ==> !#[trigger] moves(t, i),
{
    crate::direction::lemma_apply_inverse(tile.transform, Direction::Up);
    crate::direction::lemma_apply_inverse(tile.transform, Direction::Left);
    assert forall|i: int|
        0 <= i < t.cars.len() && tile_pos(t.cars[i]) == center && t.cars[i].dir
            == tile.transform.spec_apply(Direction::Left) && is_entering(
            t,
            center,
            tile.transform.spec_apply(Direction::Up),
        ) implies !#[trigger] moves(t, i) by {
        lemma_moves_unfold(t, i);
    }
}

/// The right of way at an intersection with a yield sign, the reverse of a merge: a car
/// that enters along the canonical `Left` is never held up; a car that enters along the
/// canonical `Up` is held up exactly while another is about to enter along the canonical
/// `Left`, and then it does not move.
pub proof fn lemma_yield_right_of_way(t: Traffic, center: CarCoord, tile: Tile)
    requires
        tile_at(t.course, center) == Some(tile),
        tile.tile_type == TileType::YieldIntersection,
    ensures
        !blocked_at(t, center, tile.transform.spec_apply(Direction::Left)),
        blocked_at(t, center, tile.transform.spec_apply(Direction::Up)) == is_entering(
            t,
            center,
            tile.transform.spec_apply(Direction::Left),
        ),
        forall|i: int|
            0 <= i < t.cars.len() && tile_pos(t.cars[i]) == center && t.cars[i].dir
                == tile.transform.spec_apply(Direction::Up) && is_entering(
                t,
                center,
                tile.transform.spec_apply(Direction::Left),
            ) ==> !#[trigger] moves(t, i),
{
    crate::direction::lemma_apply_inverse(tile.transform, Direction::Up);
    crate::direction::lemma_apply_inverse(tile.transform, Direction::Left);
    assert forall|i: int|
        0 <= i < t.cars.len() && tile_pos(t.cars[i]) == center && t.cars[i].dir
            == tile.transform.spec_apply(Direction::Up) && is_entering(
            t,
            center,
            tile.transform.spec_apply(Direction::Left),
        ) implies !#[trigger] moves(t, i) by {
        lemma_moves_unfold(t, i);
    }
}

} // verus!
