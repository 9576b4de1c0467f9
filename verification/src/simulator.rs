//! Car coordinates, the entrance and exit tables of the tile types, and the simulator.

use crate::course::{fits_isize, lists_entries, Course, TileCoord};
use crate::direction::{DihedralElement, Direction};
use crate::round::{
    advance, car_index_at, car_status, cell_of, is_racing, moved_cars, out_dir, out_pos, spawned,
    step, survivors, tile_at, tile_pos, CarStatus, Traffic,
};
use crate::tile::{Tile, TileType};
use std::collections::HashMap;
use vstd::prelude::*;

verus! {

/// A point of the car grid, which is twice as fine as the tile grid.
///
/// The centre of tile `(x, y)` is the car point `(2x, 2y)`; cars stand on the midpoints of
/// tile edges, where exactly one component is odd.
#[derive(Copy, Clone, PartialEq, Eq, Structural, Debug, Hash)]
pub struct CarCoord(pub isize, pub isize);

impl CarCoord {
    /// Whether both components are even, so that the point is the centre of a tile.
    pub open spec fn is_center(self) -> bool {
        self.0 % 2 == 0 && self.1 % 2 == 0
    }

    /// The centre of the tile `c`, as a pair of unbounded integers.
    pub open spec fn center_of(c: TileCoord) -> (int, int) {
        (2 * c.0, 2 * c.1)
    }

    /// The point `n` steps away in direction `dir`, as a pair of unbounded integers.
    pub open spec fn spec_add_multiple(self, dir: Direction, n: int) -> (int, int) {
        (self.0 + n * dir.spec_dx(), self.1 + n * dir.spec_dy())
    }

    /// The square of the Euclidean distance to `other`.
    pub open spec fn spec_distance_squared(self, other: CarCoord) -> int {
        (other.0 - self.0) * (other.0 - self.0) + (other.1 - self.1) * (other.1 - self.1)
    }

    /// Whether the pair of unbounded integers `p` is this point.
    pub open spec fn is_at(self, p: (int, int)) -> bool {
        self.0 == p.0 && self.1 == p.1
    }

    /// The centre of the tile `c`.
    pub fn from_tile(c: TileCoord) -> (r: CarCoord)
        requires
            fits_isize(2 * c.0),
            fits_isize(2 * c.1),
        ensures
            r.is_at(CarCoord::center_of(c)),
            r.is_center(),
    {
        CarCoord(2 * c.0, 2 * c.1)
    }

    /// The tile whose centre this point is.
    pub fn to_tile(self) -> (r: TileCoord)
        requires
            self.is_center(),
        ensures
            self.is_at(CarCoord::center_of(r)),
    {
        TileCoord(self.0 / 2, self.1 / 2)
    }

    /// The tile whose centre this point is, if it is the centre of one.
    pub fn try_to_tile(self) -> (r: Option<TileCoord>)
        ensures
            r is Some == self.is_center(),
            r is Some ==> self.is_at(CarCoord::center_of(r->0)),
    {
        if self.0 % 2 == 0 && self.1 % 2 == 0 {
            Some(self.to_tile())
        } else {
            None
        }
    }

    /// The point `n` steps away in direction `dir`.
    pub fn add_multiple(self, dir: Direction, n: isize) -> (r: CarCoord)
        requires
            fits_isize(n * dir.spec_dx()),
            fits_isize(n * dir.spec_dy()),
            fits_isize(self.spec_add_multiple(dir, n as int).0),
            fits_isize(self.spec_add_multiple(dir, n as int).1),
        ensures
            r.is_at(self.spec_add_multiple(dir, n as int)),
    {
        CarCoord(self.0 + n * dir.dx(), self.1 + n * dir.dy())
    }

    /// The square of the Euclidean distance to `other`.
    pub fn distance_squared(self, other: CarCoord) -> (r: isize)
        requires
            fits_isize(other.0 - self.0),
            fits_isize(other.1 - self.1),
            fits_isize((other.0 - self.0) * (other.0 - self.0)),
            fits_isize((other.1 - self.1) * (other.1 - self.1)),
            fits_isize(self.spec_distance_squared(other)),
        ensures
            r == self.spec_distance_squared(other),
    {
        let dx = other.0 - self.0;
        let dy = other.1 - self.1;
        dx * dx + dy * dy
    }
}

impl core::ops::Add<Direction> for CarCoord {
    type Output = CarCoord;

    fn add(self, rhs: Direction) -> (r: CarCoord) {
        CarCoord(self.0 + rhs.dx(), self.1 + rhs.dy())
    }
}

impl vstd::std_specs::ops::AddSpecImpl<Direction> for CarCoord {
    open spec fn obeys_add_spec() -> bool {
        true
    }

    open spec fn add_req(self, rhs: Direction) -> bool {
        fits_isize(self.0 + rhs.spec_dx()) && fits_isize(self.1 + rhs.spec_dy())
    }

    open spec fn add_spec(self, rhs: Direction) -> CarCoord {
        CarCoord((self.0 + rhs.spec_dx()) as isize, (self.1 + rhs.spec_dy()) as isize)
    }
}

impl core::ops::Sub<Direction> for CarCoord {
    type Output = CarCoord;

    fn sub(self, rhs: Direction) -> (r: CarCoord) {
        CarCoord(self.0 - rhs.dx(), self.1 - rhs.dy())
    }
}

impl vstd::std_specs::ops::SubSpecImpl<Direction> for CarCoord {
    open spec fn obeys_sub_spec() -> bool {
        true
    }

    open spec fn sub_req(self, rhs: Direction) -> bool {
        fits_isize(self.0 - rhs.spec_dx()) && fits_isize(self.1 - rhs.spec_dy())
    }

    open spec fn sub_spec(self, rhs: Direction) -> CarCoord {
        CarCoord((self.0 - rhs.spec_dx()) as isize, (self.1 - rhs.spec_dy()) as isize)
    }
}

/// A car: its number, the edge midpoint it stands on, and the direction it faces.
#[derive(Copy, Clone, PartialEq, Eq, Structural, Debug, Hash)]
pub struct CarData {
    pub id: usize,
    pub pos: CarCoord,
    pub dir: Direction,
}

/// The car direction in which a straight is entered, in canonical position.
pub const STRAIGHT_ENTRANCE: Direction = Direction::Up;

/// The car direction in which a straight is left, in canonical position.
pub const STRAIGHT_EXIT: Direction = Direction::Up;

/// The car direction in which a turn is entered, in canonical position.
pub const TURN_ENTRANCE: Direction = Direction::Up;

/// The car direction in which a turn is left, in canonical position.
pub const TURN_EXIT: Direction = Direction::Left;

/// The canonical entrance table: the directions in which a car may drive into a tile of
/// type `tile` that is in canonical position.
pub open spec fn spec_is_entrance_id(tile: TileType, car_dir: Direction) -> bool {
    match tile {
        TileType::Straight
        | TileType::Turn
        | TileType::Finish
        | TileType::LightForwardTurn
        | TileType::LightTurns => car_dir == Direction::Up,
        TileType::Merge | TileType::YieldIntersection | TileType::LightIntersection => car_dir
            == Direction::Up || car_dir == Direction::Left,
    }
}

/// The canonical exit table: the directions in which a car may drive out of a tile of
/// type `tile` that is in canonical position.
pub open spec fn spec_is_exit_id(tile: TileType, car_dir: Direction) -> bool {
    match tile {
        TileType::Straight | TileType::Finish | TileType::Merge => car_dir == Direction::Up,
        TileType::Turn => car_dir == Direction::Left,
        TileType::LightTurns => car_dir == Direction::Left || car_dir == Direction::Right,
        TileType::LightForwardTurn
        | TileType::LightIntersection
        | TileType::YieldIntersection => car_dir == Direction::Up || car_dir == Direction::Left,
    }
}

/// Whether a car driving in direction `car_dir` may enter the placed tile: the canonical
/// table, read in the tile's own frame.
pub open spec fn spec_is_entrance(tile: Tile, car_dir: Direction) -> bool {
    spec_is_entrance_id(tile.tile_type, tile.transform.spec_apply_inverse(car_dir))
}

/// Whether a car driving in direction `car_dir` may leave the placed tile: the canonical
/// table, read in the tile's own frame.
pub open spec fn spec_is_exit(tile: Tile, car_dir: Direction) -> bool {
    spec_is_exit_id(tile.tile_type, tile.transform.spec_apply_inverse(car_dir))
}

/// Whether a tile of type `tile` in canonical position is entered in direction `car_dir`.
#[verifier::when_used_as_spec(spec_is_entrance_id)]
pub fn is_entrance_id(tile: TileType, car_dir: Direction) -> (r: bool)
    ensures
        r == spec_is_entrance_id(tile, car_dir),
{
    match tile {
        TileType::Straight
        | TileType::Turn
        | TileType::Finish
        | TileType::LightForwardTurn
        | TileType::LightTurns => car_dir == Direction::Up,
        TileType::Merge | TileType::YieldIntersection | TileType::LightIntersection => car_dir
            == Direction::Up || car_dir == Direction::Left,
    }
}

/// Whether a tile of type `tile` in canonical position is left in direction `car_dir`.
#[verifier::when_used_as_spec(spec_is_exit_id)]
pub fn is_exit_id(tile: TileType, car_dir: Direction) -> (r: bool)
    ensures
        r == spec_is_exit_id(tile, car_dir),
{
    match tile {
        TileType::Straight | TileType::Finish | TileType::Merge => car_dir == Direction::Up,
        TileType::Turn => car_dir == Direction::Left,
        TileType::LightTurns => car_dir == Direction::Left || car_dir == Direction::Right,
        TileType::LightForwardTurn
        | TileType::LightIntersection
        | TileType::YieldIntersection => car_dir == Direction::Up || car_dir == Direction::Left,
    }
}

/// Whether the placed tile is entered in direction `car_dir`.
#[verifier::when_used_as_spec(spec_is_entrance)]
pub fn is_entrance(tile: Tile, car_dir: Direction) -> (r: bool)
    ensures
        r == spec_is_entrance(tile, car_dir),
{
    is_entrance_id(tile.tile_type, tile.transform.apply_inverse(car_dir))
}

/// Whether the placed tile is left in direction `car_dir`.
#[verifier::when_used_as_spec(spec_is_exit)]
pub fn is_exit(tile: Tile, car_dir: Direction) -> (r: bool)
    ensures
        r == spec_is_exit(tile, car_dir),
{
    is_exit_id(tile.tile_type, tile.transform.apply_inverse(car_dir))
}

/// No side of a tile is both a way in and a way out: a car never enters in the direction
/// opposite to one in which cars leave. This holds of the canonical tables and of every
/// placed tile.
pub proof fn lemma_entrance_exit_disjoint(tile: Tile, d: Direction)
    ensures
        !(spec_is_entrance_id(tile.tile_type, d.spec_opposite()) && spec_is_exit_id(
            tile.tile_type,
            d,
        )),
        !(spec_is_entrance(tile, d.spec_opposite()) && spec_is_exit(tile, d)),
{
    crate::direction::lemma_apply_opposite(tile.transform, d);
}

/// What the simulator reports.
#[derive(Clone, Debug)]
pub enum SimEvent {
    /// A round is over; these are all cars after it, the order being that of their
    /// resolution, with the cars that left the race in this round still among them.
    Round(Vec<CarData>),
    /// The car with this number has reached the finish line.
    Finished(usize),
    /// The car with this number has crashed.
    Crashed(usize),
}

/// A `SimEvent` as mathematics.
pub enum EventView {
    Round(Seq<CarData>),
    Finished(usize),
    Crashed(usize),
}

impl View for SimEvent {
    type V = EventView;

    open spec fn view(&self) -> EventView {
        match *self {
            SimEvent::Round(cars) => EventView::Round(cars@),
            SimEvent::Finished(id) => EventView::Finished(id),
            SimEvent::Crashed(id) => EventView::Crashed(id),
        }
    }
}

/// When a new car may start at a finish line whose exit is free.
#[derive(Copy, Clone, PartialEq, Eq, Structural, Debug)]
pub enum SpawnPolicy {
    /// In every round.
    Always,
    /// In a round with probability `n / 8`; `n` is at most 8.
    Random(u8),
}

impl SpawnPolicy {
    /// Whether `said` can be what the policy says of one start: `Always` says yes, as does a
    /// probability of 8 / 8; a probability of 0 / 8 says no; any other may say either.
    pub open spec fn may_answer(self, said: bool) -> bool {
        match self {
            SpawnPolicy::Always => said,
            SpawnPolicy::Random(n) => (n >= 8 ==> said) && (n == 0 ==> !said),
        }
    }
}

/// The most rounds that a race lasts.
pub const MAX_ROUNDS: usize = 1000;

/// Whether the cell lies so far inside the number range that every car point on and around
/// its tile can be held.
pub open spec fn cell_in_range(c: TileCoord) -> bool {
    &&& -(isize::MAX / 2) < c.0 < isize::MAX / 2
    &&& -(isize::MAX / 2) < c.1 < isize::MAX / 2
}

/// Whether all cells of the course lie in that range.
pub open spec fn course_in_range(course: Map<TileCoord, Tile>) -> bool {
    forall|c: TileCoord| #[trigger] course.dom().contains(c) ==> cell_in_range(c)
}

/// Where the cars of the finish line `tile` on the cell `c` start, and in which direction:
/// on the edge through which the finish line is left.
pub open spec fn spawn_point(c: TileCoord, tile: Tile) -> (CarCoord, Direction) {
    let dir = tile.transform.spec_apply(Direction::Up);
    (step(CarCoord((2 * c.0) as isize, (2 * c.1) as isize), dir), dir)
}

/// The spawn points of the finish lines among `entries`, in the order of the entries.
pub open spec fn spawn_points(entries: Seq<(TileCoord, Tile)>) -> Seq<(CarCoord, Direction)>
    decreases entries.len(),
{
    if entries.len() == 0 {
        Seq::empty()
    } else {
        let rest = spawn_points(entries.drop_last());
        let (c, tile) = entries.last();
        if tile.tile_type == TileType::Finish {
            rest.push(spawn_point(c, tile))
        } else {
            rest
        }
    }
}

/// Whether `starts` lists the spawn points of the finish lines of `course`, each once, in
/// some order.
pub open spec fn lists_spawn_points(
    starts: Seq<(CarCoord, Direction)>,
    course: Map<TileCoord, Tile>,
) -> bool {
    exists|entries: Seq<(TileCoord, Tile)>| #[trigger]
        lists_entries(entries, course) && starts == spawn_points(entries)
}

#[verifier::external_type_specification]
#[verifier::external_body]
pub struct ExFxBuildHasher(rustc_hash::FxBuildHasher);

/// `HashMap::default` with `rustc_hash::FxBuildHasher`, which is
/// `rustc_hash::FxHashMap::default`: a map that holds nothing.
#[verifier::external_body]
pub(crate) fn grid_new() -> (r: HashMap<(isize, isize), usize, rustc_hash::FxBuildHasher>)
    ensures
        r@.dom() == Set::<(isize, isize)>::empty(),
{
    HashMap::default()
}

/// `HashMap::insert`: stores the value under the key, in place of any value stored there
/// before, and leaves the other keys alone.
#[verifier::external_body]
pub(crate) fn grid_insert(
    grid: &mut HashMap<(isize, isize), usize, rustc_hash::FxBuildHasher>,
    pos: CarCoord,
    index: usize,
)
    ensures
        final(grid)@ == old(grid)@.insert((pos.0, pos.1), index),
{
    grid.insert((pos.0, pos.1), index);
}

/// `HashMap::get`: the value stored under the key, if the key is present.
#[verifier::external_body]
pub(crate) fn grid_get(grid: &HashMap<(isize, isize), usize, rustc_hash::FxBuildHasher>, pos: CarCoord) -> (r:
    Option<usize>)
    ensures
        r == (if grid@.dom().contains((pos.0, pos.1)) {
            Some(grid@[(pos.0, pos.1)])
        } else {
            None
        }),
{
    grid.get(&(pos.0, pos.1)).copied()
}

/// Whether `grid` finds for every car point the car that counts as standing there.
pub open spec fn grid_finds(grid: Map<(isize, isize), usize>, cars: Seq<CarData>) -> bool {
    forall|p: CarCoord|
        (#[trigger] car_index_at(cars, p)) == (if grid.dom().contains((p.0, p.1)) {
            Some(grid[(p.0, p.1)] as int)
        } else {
            None
        })
}

/// The index found for a point is that of a car at that point.
pub proof fn lemma_car_index_at(cars: Seq<CarData>, p: CarCoord)
    ensures
        car_index_at(cars, p) matches Some(i) ==> 0 <= i < cars.len() && cars[i].pos == p,
    decreases cars.len(),
{
    if cars.len() > 0 && cars.last().pos != p {
        lemma_car_index_at(cars.drop_last(), p);
    }
}

/// The map from each car's position to its index.
pub(crate) fn build_grid(cars: &Vec<CarData>) -> (grid: HashMap<(isize, isize), usize, rustc_hash::FxBuildHasher>)
    ensures
        grid_finds(grid@, cars@),
{
    let mut grid = grid_new();
    let mut i: usize = 0;
    while i < cars.len()
        invariant
            i <= cars.len(),
            grid_finds(grid@, cars@.take(i as int)),
        decreases cars.len() - i,
    {
        let ghost before = grid@;
        grid_insert(&mut grid, cars[i].pos, i);
        proof {
            let now = cars@.take(i + 1);
            assert(now.drop_last() =~= cars@.take(i as int));
            assert(now.last() == cars@[i as int]);
            assert forall|p: CarCoord|
                (#[trigger] car_index_at(now, p)) == (if grid@.dom().contains((p.0, p.1)) {
                    Some(grid@[(p.0, p.1)] as int)
                } else {
                    None
                }) by {
                assert(car_index_at(cars@.take(i as int), p) == (if before.dom().contains(
                    (p.0, p.1),
                ) {
                    Some(before[(p.0, p.1)] as int)
                } else {
                    None
                }));
            }
        }
        i += 1;
    }
    proof {
        assert(cars@.take(cars@.len() as int) =~= cars@);
    }
    grid
}

/// The simulator: a course, the cars on it, and the events not yet collected.
pub struct Simulator {
    pub(crate) course: Course,
    pub(crate) starts: Vec<(CarCoord, Direction)>,
    pub(crate) round: usize,
    pub(crate) cars: Vec<CarData>,
    pub(crate) spawn_policy: SpawnPolicy,
    pub(crate) next_car: usize,
    pub(crate) max_cars: usize,
    pub(crate) stream: Vec<SimEvent>,
}

/// A `Simulator` as mathematics.
pub struct SimulatorView {
    pub course: Map<TileCoord, Tile>,
    /// Where cars start, and in which direction.
    pub starts: Seq<(CarCoord, Direction)>,
    /// The number of rounds run.
    pub round: nat,
    /// The cars in the race.
    pub cars: Seq<CarData>,
    pub spawn_policy: SpawnPolicy,
    /// The number of the next car to start.
    pub next_car: nat,
    /// The number of cars that start in all.
    pub max_cars: nat,
    /// The events not yet collected.
    pub pending: Seq<EventView>,
}

/// Whether the cars that the event speaks of have numbers below `max_cars`.
pub open spec fn names_car_below(e: EventView, max_cars: nat) -> bool {
    match e {
        EventView::Round(cars) => forall|i: int|
            0 <= i < cars.len() ==> (#[trigger] cars[i]).id < max_cars,
        EventView::Finished(id) => id < max_cars,
        EventView::Crashed(id) => id < max_cars,
    }
}

/// The views of the events, in order.
pub open spec fn event_views(events: Seq<SimEvent>) -> Seq<EventView> {
    Seq::new(events.len(), |i: int| events[i]@)
}

impl View for Simulator {
    type V = SimulatorView;

    open(crate) spec fn view(&self) -> SimulatorView {
        SimulatorView {
            course: self.course@,
            starts: self.starts@,
            round: self.round as nat,
            cars: self.cars@,
            spawn_policy: self.spawn_policy,
            next_car: self.next_car as nat,
            max_cars: self.max_cars as nat,
            pending: event_views(self.stream@),
        }
    }
}

impl SimulatorView {
    /// The traffic that the next round starts from.
    pub open spec fn traffic(self) -> Traffic {
        Traffic { course: self.course, round: self.round, cars: self.cars }
    }

    /// Whether the state is one that a simulator can be in: the course lies within the number
    /// range, every car is in the race, the cars start at the finish lines, a random spawn
    /// policy has a probability of at most 8 / 8, and the cars on the course and in the
    /// events have numbers below the number of cars that start in all.
    pub open spec fn wf(self) -> bool {
        &&& course_in_range(self.course)
        &&& forall|i: int| 0 <= i < self.cars.len() ==> is_racing(self.course, #[trigger] self.cars[i])
        &&& lists_spawn_points(self.starts, self.course)
        &&& self.spawn_policy matches SpawnPolicy::Random(n) ==> n <= 8
        &&& forall|i: int| 0 <= i < self.cars.len() ==> (#[trigger] self.cars[i]).id < self.max_cars
        &&& forall|i: int|
            0 <= i < self.pending.len() ==> names_car_below(#[trigger] self.pending[i], self.max_cars)
        &&& self.round <= usize::MAX
        &&& self.next_car <= usize::MAX
        &&& self.max_cars <= usize::MAX
    }
}

/// A car that starts at the spawn point of a finish line on a cell within the range faces
/// the centre of a cell.
proof fn lemma_spawn_points_in_range(
    entries: Seq<(TileCoord, Tile)>,
    course: Map<TileCoord, Tile>,
    k: int,
    id: usize,
)
    requires
        course_in_range(course),
        forall|i: int|
            0 <= i < entries.len() ==> course.dom().contains(#[trigger] entries[i].0),
        0 <= k < spawn_points(entries).len(),
    ensures
        faces_cell(
            CarData { id, pos: spawn_points(entries)[k].0, dir: spawn_points(entries)[k].1 },
        ),
    decreases entries.len(),
{
    if entries.len() > 0 {
        let rest = spawn_points(entries.drop_last());
        assert(course.dom().contains(entries[entries.len() - 1].0));
        if k < rest.len() {
            assert forall|i: int| 0 <= i < entries.drop_last().len() implies course.dom().contains(
                #[trigger] entries.drop_last()[i].0,
            ) by {
                assert(entries.drop_last()[i] == entries[i]);
            }
            lemma_spawn_points_in_range(entries.drop_last(), course, k, id);
        }
    }
}

/// Whether the car faces the centre of a cell, within the number range.
pub open spec fn faces_cell(car: CarData) -> bool {
    &&& tile_pos(car).is_center()
    &&& tile_pos(car).0 == car.pos.0 + car.dir.spec_dx()
    &&& tile_pos(car).1 == car.pos.1 + car.dir.spec_dy()
}

/// A car in the race on a course within the range faces the centre of a cell within the
/// range.
pub proof fn lemma_racing_faces_cell(course: Map<TileCoord, Tile>, car: CarData)
    requires
        course_in_range(course),
        is_racing(course, car),
    ensures
        faces_cell(car),
        isize::MIN + 2 < tile_pos(car).0 < isize::MAX - 2,
        isize::MIN + 2 < tile_pos(car).1 < isize::MAX - 2,
        tile_at(course, tile_pos(car)) is Some,
        tile_at(course, tile_pos(car))->0.tile_type != TileType::Finish,
        spec_is_entrance(tile_at(course, tile_pos(car))->0, car.dir),
{
    let p = tile_pos(car);
    assert(course.dom().contains(cell_of(p)));
    assert(cell_in_range(cell_of(p)));
}

impl CarData {
    /// The centre of the tile that the car faces.
    pub(crate) fn tile_pos(&self) -> (r: CarCoord)
        requires
            faces_cell(*self),
        ensures
            r == tile_pos(*self),
    {
        self.pos + self.dir
    }
}

impl Simulator {
    pub(crate) fn tile_at(&self, pos: CarCoord) -> (r: Option<Tile>)
        requires
            pos.is_center(),
        ensures
            r == tile_at(self@.course, pos),
    {
        self.course.get(&pos.to_tile())
    }

    pub(crate) fn out_dir(&self, tile: &Tile, in_dir: Direction) -> (r: Direction)
        requires
            tile.tile_type != TileType::Finish,
        ensures
            r == out_dir(*tile, self@.round, in_dir),
    {
        let offset = (self.round % 2 == 1) != (tile.offset % 2 == 1);
        match tile.tile_type {
            TileType::Straight | TileType::LightIntersection | TileType::YieldIntersection => in_dir,
            TileType::Turn => tile.transform * Direction::Left,
            TileType::LightTurns => tile.transform * (if offset {
                Direction::Right
            } else {
                Direction::Left
            }),
            TileType::LightForwardTurn => tile.transform * (if offset {
                Direction::Up
            } else {
                Direction::Left
            }),
            TileType::Merge => tile.transform * Direction::Up,
            TileType::Finish => in_dir,
        }
    }

    pub(crate) fn out_pos(&self, car: &CarData) -> (r: CarCoord)
        requires
            self@.wf(),
            is_racing(self@.course, *car),
        ensures
            r == out_pos(self@.traffic(), *car),
    {
        proof {
            lemma_racing_faces_cell(self@.course, *car);
        }
        let center = car.tile_pos();
        let tile = self.tile_at(center).unwrap();
        center + self.out_dir(&tile, car.dir)
    }

    pub(crate) fn new_pos(&self, car: &CarData) -> (r: CarData)
        requires
            self@.wf(),
            is_racing(self@.course, *car),
        ensures
            r == advance(self@.traffic(), *car),
            faces_cell(r),
    {
        proof {
            lemma_racing_faces_cell(self@.course, *car);
        }
        let center = car.tile_pos();
        let tile = self.tile_at(center).unwrap();
        let new_dir = self.out_dir(&tile, car.dir);
        CarData { id: car.id, pos: center + new_dir, dir: new_dir }
    }

    pub(crate) fn check_finish(&self, pos: CarCoord, car_dir: Direction) -> (r: CarStatus)
        requires
            faces_cell(CarData { id: 0, pos, dir: car_dir }),
        ensures
            r == car_status(self@.course, pos, car_dir),
    {
        if let Some(tile) = self.tile_at(pos + car_dir) {
            let car_dir_norm = tile.transform.apply_inverse(car_dir);
            if is_entrance_id(tile.tile_type, car_dir_norm) {
                if tile.tile_type == TileType::Finish {
                    CarStatus::Finished
                } else {
                    CarStatus::Racing
                }
            } else {
                CarStatus::Crashed
            }
        } else {
            CarStatus::Crashed
        }
    }
}

/// What the cars among `cars` that are not in the race are reported as, in order: those
/// that face the finish line as finished, the others as crashed.
pub open spec fn departures(course: Map<TileCoord, Tile>, cars: Seq<CarData>) -> Seq<EventView>
    decreases cars.len(),
{
    if cars.len() == 0 {
        Seq::empty()
    } else {
        let before = departures(course, cars.drop_last());
        match car_status(course, cars.last().pos, cars.last().dir) {
            CarStatus::Racing => before,
            CarStatus::Finished => before.push(EventView::Finished(cars.last().id)),
            CarStatus::Crashed => before.push(EventView::Crashed(cars.last().id)),
        }
    }
}

impl SimulatorView {
    /// The cars that start in the next round, given where the spawn policy allows a start.
    pub open spec fn newcomers(self, allow: Seq<bool>) -> Seq<CarData> {
        spawned(
            self.traffic(),
            self.starts,
            allow,
            self.next_car,
            self.max_cars,
            self.starts.len() as int,
        )
    }

    /// All cars after the next round: those on the course, in the order of their
    /// resolution, and then those that start.
    pub open spec fn cars_after_round(self, allow: Seq<bool>) -> Seq<CarData> {
        moved_cars(self.traffic()) + self.newcomers(allow)
    }

    /// The state after the next round, given where the spawn policy allows a start.
    ///
    /// The round is reported with all its cars; after it each car that has left the race is
    /// reported, and the others stay.
    pub open spec fn after_round(self, allow: Seq<bool>) -> SimulatorView {
        let all = self.cars_after_round(allow);
        SimulatorView {
            round: self.round + 1,
            cars: survivors(self.course, all),
            next_car: self.next_car + self.newcomers(allow).len(),
            pending: self.pending + seq![EventView::Round(all)] + departures(self.course, all),
            ..self
        }
    }

    /// Whether `allow` can be what the spawn policy says in a round, for each starting point
    /// in turn: every entry is an answer that the policy may give.
    pub open spec fn may_say(self, allow: Seq<bool>) -> bool {
        &&& allow.len() == self.starts.len()
        &&& forall|k: int| 0 <= k < allow.len() ==> self.spawn_policy.may_answer(#[trigger] allow[k])
    }

    /// What a new simulator for `course` and `max_cars` cars looks like, but for the order of
    /// its starting points.
    pub open spec fn is_fresh(self, course: Map<TileCoord, Tile>, max_cars: usize) -> bool {
        &&& self.course == course
        &&& lists_spawn_points(self.starts, course)
        &&& self.round == 0
        &&& self.cars.len() == 0
        &&& self.spawn_policy == SpawnPolicy::Always
        &&& self.next_car == 0
        &&& self.max_cars == max_cars
        &&& self.pending.len() == 0
    }
}

/// `Rng::gen_ratio` on `rand::thread_rng()`: a random draw that is true with probability
/// `numerator / denominator`; it is sure to be true if the two are equal and sure to be
/// false if `numerator` is 0.
#[verifier::external_body]
fn random_ratio(numerator: u32, denominator: u32) -> (r: bool)
    requires
        denominator != 0,
        numerator <= denominator,
    ensures
        numerator == denominator ==> r,
        numerator == 0 ==> !r,
{
    rand::Rng::gen_ratio(&mut rand::thread_rng(), numerator, denominator)
}

/// A random draw that is true with probability `n / 8`.
pub(crate) fn random_8(n: u8) -> (r: bool)
    requires
        n <= 8,
    ensures
        n == 8 ==> r,
        n == 0 ==> !r,
{
    random_ratio(n as u32, 8)
}

/// A car that starts at a starting point of a simulator faces the centre of a cell.
pub proof fn lemma_start_faces_cell(v: SimulatorView, k: int, id: usize)
    requires
        v.wf(),
        0 <= k < v.starts.len(),
    ensures
        faces_cell(CarData { id, pos: v.starts[k].0, dir: v.starts[k].1 }),
{
    let entries = choose|entries: Seq<(TileCoord, Tile)>| #[trigger]
        lists_entries(entries, v.course) && v.starts == spawn_points(entries);
    lemma_spawn_points_in_range(entries, v.course, k, id);
}

/// A copy of `cars`.
pub(crate) fn copy_cars(cars: &Vec<CarData>) -> (r: Vec<CarData>)
    ensures
        r@ == cars@,
{
    let mut r: Vec<CarData> = Vec::new();
    let mut i: usize = 0;
    while i < cars.len()
        invariant
            i <= cars.len(),
            r@ == cars@.take(i as int),
        decreases cars.len() - i,
    {
        r.push(cars[i]);
        assert(cars@.take(i + 1) =~= cars@.take(i as int).push(cars@[i as int]));
        i += 1;
    }
    assert(cars@.take(cars@.len() as int) =~= cars@);
    r
}

/// One more event in the stream is one more view among the views.
proof fn lemma_event_pushed(events: Seq<SimEvent>, e: SimEvent)
    ensures
        event_views(events.push(e)) == event_views(events).push(e@),
{
    assert(event_views(events.push(e)) =~= event_views(events).push(e@));
}

impl Simulator {
    /// Whether all cells of `course` lie within the range in which a simulator can run.
    pub fn fits(course: &Course) -> (r: bool)
        ensures
            r == course_in_range(course@),
    {
        let entries = course.entries();
        let half = isize::MAX / 2;
        let mut i: usize = 0;
        while i < entries.len()
            invariant
                i <= entries.len(),
                half == isize::MAX / 2,
                lists_entries(entries@, course@),
                forall|j: int| 0 <= j < i ==> cell_in_range(#[trigger] entries@[j].0),
            decreases entries.len() - i,
        {
            let c = entries[i].0;
            if !(-half < c.0 && c.0 < half && -half < c.1 && c.1 < half) {
                assert(course@.dom().contains(entries@[i as int].0));
                return false;
            }
            i += 1;
        }
        proof {
            assert forall|c: TileCoord| #[trigger] course@.dom().contains(c) implies cell_in_range(
                c,
            ) by {
                let j = choose|j: int| 0 <= j < entries@.len() && entries@[j].0 == c;
                assert(cell_in_range(entries@[j].0));
            }
        }
        true
    }

    /// A simulator for `course` on which `max_cars` cars start, one after the other, at each
    /// finish line.
    pub fn new(course: Course, max_cars: usize) -> (r: Simulator)
        requires
            course_in_range(course@),
        ensures
            r@.wf(),
            r@.is_fresh(course@, max_cars),
    {
        let entries = course.entries();
        let mut starts: Vec<(CarCoord, Direction)> = Vec::new();
        let mut i: usize = 0;
        while i < entries.len()
            invariant
                i <= entries.len(),
                course_in_range(course@),
                lists_entries(entries@, course@),
                starts@ == spawn_points(entries@.take(i as int)),
            decreases entries.len() - i,
        {
            let (pos, tile) = entries[i];
            proof {
                let now = entries@.take(i + 1);
                assert(now.drop_last() =~= entries@.take(i as int));
                assert(now.last() == entries@[i as int]);
                assert(course@.dom().contains(entries@[i as int].0));
            }
            if tile.tile_type == TileType::Finish {
                let dir = tile.transform * Direction::Up;
                starts.push((CarCoord::from_tile(pos) + dir, dir));
            }
            i += 1;
        }
        proof {
            assert(entries@.take(entries@.len() as int) =~= entries@);
        }
        let r = Simulator {
            course,
            starts,
            round: 0,
            cars: Vec::new(),
            spawn_policy: SpawnPolicy::Always,
            next_car: 0,
            max_cars,
            stream: Vec::new(),
        };
        proof {
            assert(lists_entries(entries@, r@.course) && r@.starts == spawn_points(entries@));
            assert(r@.pending =~= Seq::<EventView>::empty());
        }
        r
    }

    /// A simulator for `course`, unless a cell of the course lies outside the range in which
    /// a simulator can run.
    pub fn try_new(course: Course, max_cars: usize) -> (r: Option<Simulator>)
        ensures
            r is Some == course_in_range(course@),
            r matches Some(sim) ==> sim@.wf() && sim@.is_fresh(course@, max_cars),
    {
        if Simulator::fits(&course) {
            Some(Simulator::new(course, max_cars))
        } else {
            None
        }
    }

    /// Hands over the events reported since the last call, oldest first.
    pub fn events(&mut self) -> (r: Vec<SimEvent>)
        ensures
            event_views(r@) == old(self)@.pending,
            final(self)@ == (SimulatorView { pending: Seq::empty(), ..old(self)@ }),
    {
        let mut out: Vec<SimEvent> = Vec::new();
        core::mem::swap(&mut out, &mut self.stream);
        proof {
            assert(self@.pending =~= Seq::<EventView>::empty());
        }
        out
    }

    /// Sets when new cars start.
    pub fn set_spawn_policy(&mut self, p: SpawnPolicy)
        requires
            p matches SpawnPolicy::Random(n) ==> n <= 8,
        ensures
            final(self)@ == (SimulatorView { spawn_policy: p, ..old(self)@ }),
    {
        self.spawn_policy = p;
    }

    /// Sorts the cars after a round into those that stay in the race and those that have
    /// left it, which are reported.
    fn remove_finished(&mut self, cars_new: &Vec<CarData>)
        requires
            forall|k: int| 0 <= k < cars_new@.len() ==> faces_cell(#[trigger] cars_new@[k]),
        ensures
            final(self)@ == (SimulatorView {
                cars: survivors(old(self)@.course, cars_new@),
                pending: old(self)@.pending + departures(old(self)@.course, cars_new@),
                ..old(self)@
            }),
    {

        self.cars.clear();
        let ghost course = self@.course;
        let ghost pending = old(self)@.pending;
        let mut i: usize = 0;
        proof {
            assert(cars_new@.take(0) =~= Seq::<CarData>::empty());
            assert(pending + departures(course, cars_new@.take(0)) =~= pending);
        }
        while i < cars_new.len()
            invariant
                i <= cars_new.len(),
                forall|k: int| 0 <= k < cars_new@.len() ==> faces_cell(#[trigger] cars_new@[k]),
                course == old(self)@.course,
                pending == old(self)@.pending,
                self@ == (SimulatorView {
                    cars: survivors(course, cars_new@.take(i as int)),
                    pending: pending + departures(course, cars_new@.take(i as int)),
                    ..old(self)@
                }),
            decreases cars_new.len() - i,
        {
            let car = cars_new[i];
            let ghost before = self.stream@;
            proof {
                let now = cars_new@.take(i + 1);
                assert(now.drop_last() =~= cars_new@.take(i as int));
                assert(now.last() == car);
                assert(faces_cell(cars_new@[i as int]));
            }
            match self.check_finish(car.pos, car.dir) {
                CarStatus::Racing => {
                    self.cars.push(car);
                },
                CarStatus::Finished => {
                    self.stream.push(SimEvent::Finished(car.id));
                    proof {
                        lemma_event_pushed(before, SimEvent::Finished(car.id));
                        let left = departures(course, cars_new@.take(i as int));
                        assert(pending + left.push(EventView::Finished(car.id)) =~= (pending
                            + left).push(EventView::Finished(car.id)));
                    }
                },
                CarStatus::Crashed => {
                    self.stream.push(SimEvent::Crashed(car.id));
                    proof {
                        lemma_event_pushed(before, SimEvent::Crashed(car.id));
                        let left = departures(course, cars_new@.take(i as int));
                        assert(pending + left.push(EventView::Crashed(car.id)) =~= (pending
                            + left).push(EventView::Crashed(car.id)));
                    }
                },
            }
            i += 1;
        }
        proof {
            assert(cars_new@.take(cars_new@.len() as int) =~= cars_new@);
        }
    }

    /// Runs a round. Where the spawn policy has a say, `given` tells what it says if there
    /// is a `given`, else the policy is asked. Returns what the policy said, or would have
    /// been taken to say, for each starting point.
    fn advance_round(&mut self, given: Option<&Vec<bool>>) -> (r: Ghost<Seq<bool>>)
        requires
            old(self)@.wf(),
            old(self)@.round < usize::MAX,
            given matches Some(v) ==> v@.len() == old(self)@.starts.len(),
        ensures
            final(self)@.wf(),
            final(self)@ == old(self)@.after_round(r@),
            r@.len() == old(self)@.starts.len(),
            given matches Some(v) ==> r@ == v@,
            given is None ==> old(self)@.may_say(r@),
    {
        let ghost v = self@;
        let mut runner = crate::runner::RoundRunner::new(&*self);
        runner.move_cars();
        let (next_car, allow) = runner.add_cars(given);
        let cars_new = runner.cars_new;
        self.next_car = next_car;
        let snapshot = copy_cars(&cars_new);
        let ghost before = self.stream@;
        self.stream.push(SimEvent::Round(snapshot));
        proof {
            lemma_event_pushed(before, SimEvent::Round(snapshot));
        }
        self.remove_finished(&cars_new);
        self.round += 1;
        proof {
            let all = v.cars_after_round(allow@);
            assert(self@.pending =~= v.pending + seq![EventView::Round(all)] + departures(
                v.course,
                all,
            ));
            lemma_survivors_race(v.course, all);
            lemma_departures_from(v.course, all, v.max_cars);
            assert forall|i: int| 0 <= i < self@.pending.len() implies names_car_below(
                #[trigger] self@.pending[i],
                self@.max_cars,
            ) by {
                let left = departures(v.course, all);
                if i < v.pending.len() {
                    assert(self@.pending[i] == v.pending[i]);
                } else if i == v.pending.len() {
                    assert(self@.pending[i] == EventView::Round(all));
                } else {
                    assert(self@.pending[i] == left[i - v.pending.len() - 1]);
                }
            }
        }
        allow
    }

    /// Runs a round: the cars move, new cars start as the spawn policy allows, the round is
    /// reported with all its cars, and the cars that have left the race are reported and
    /// taken off the course.
    pub fn run_round(&mut self)
        requires
            old(self)@.wf(),
            old(self)@.round < usize::MAX,
        ensures
            final(self)@.wf(),
            exists|allow: Seq<bool>| #[trigger]
                old(self)@.may_say(allow) && final(self)@ == old(self)@.after_round(allow),
    {
        let allow = self.advance_round(None);
        assert(old(self)@.may_say(allow@));
    }

    /// Runs a round in which the spawn policy says `allow[k]` to a start at the `k`th
    /// starting point.
    pub fn run_round_with(&mut self, allow: &Vec<bool>)
        requires
            old(self)@.wf(),
            old(self)@.round < usize::MAX,
            allow@.len() == old(self)@.starts.len(),
        ensures
            final(self)@.wf(),
            final(self)@ == old(self)@.after_round(allow@),
    {
        let _ = self.advance_round(Some(allow));
    }

    /// The course.
    pub fn get_course(&self) -> (r: &Course)
        ensures
            r@ == self@.course,
    {
        &self.course
    }

    /// Gives up the simulator for its course.
    pub fn take_course(self) -> (r: Course)
        ensures
            r@ == self@.course,
    {
        self.course
    }

    /// The number of rounds run.
    pub fn get_round(&self) -> (r: usize)
        ensures
            r == self@.round,
    {
        self.round
    }

    /// Whether the race is over: `MAX_ROUNDS` rounds have been run, or no car is in the race
    /// and none is left to start.
    pub fn is_finished(&self) -> (r: bool)
        ensures
            r == (self@.round >= MAX_ROUNDS || (self@.cars.len() == 0 && self@.next_car
                >= self@.max_cars)),
    {
        self.round >= MAX_ROUNDS || (self.cars.len() == 0 && self.next_car >= self.max_cars)
    }

    /// The cars in the race.
    pub fn get_cars(&self) -> (r: &Vec<CarData>)
        ensures
            r@ == self@.cars,
    {
        &self.cars
    }

    /// The places where cars start, and the directions in which they do.
    pub fn get_starts(&self) -> (r: &Vec<(CarCoord, Direction)>)
        ensures
            r@ == self@.starts,
    {
        &self.starts
    }
}

/// The cars reported as having left the race, and those that stay, are among `cars`: if the
/// numbers of those are below `bound`, so are theirs.
pub proof fn lemma_departures_from(course: Map<TileCoord, Tile>, cars: Seq<CarData>, bound: nat)
    requires
        forall|i: int| 0 <= i < cars.len() ==> (#[trigger] cars[i]).id < bound,
    ensures
        forall|k: int|
            0 <= k < departures(course, cars).len() ==> names_car_below(
                #[trigger] departures(course, cars)[k],
                bound,
            ),
        forall|k: int|
            0 <= k < survivors(course, cars).len() ==> (#[trigger] survivors(course, cars)[k]).id
                < bound,
    decreases cars.len(),
{
    if cars.len() > 0 {
        assert forall|i: int| 0 <= i < cars.drop_last().len() implies (
        #[trigger] cars.drop_last()[i]).id < bound by {
            assert(cars.drop_last()[i] == cars[i]);
        }
        lemma_departures_from(course, cars.drop_last(), bound);
        let left = departures(course, cars);
        let left0 = departures(course, cars.drop_last());
        let stay = survivors(course, cars);
        let stay0 = survivors(course, cars.drop_last());
        assert(cars[cars.len() - 1].id < bound);
        assert forall|k: int| 0 <= k < left.len() implies names_car_below(
            #[trigger] left[k],
            bound,
        ) by {
            if k < left0.len() {
                assert(left[k] == left0[k]);
            }
        }
        assert forall|k: int| 0 <= k < stay.len() implies (#[trigger] stay[k]).id < bound by {
            if k < stay0.len() {
                assert(stay[k] == stay0[k]);
            }
        }
    }
}

/// No car that has left the race is reported as a round.
pub proof fn lemma_departures_kind(course: Map<TileCoord, Tile>, cars: Seq<CarData>)
    ensures
        forall|k: int|
            0 <= k < departures(course, cars).len() ==> !(#[trigger] departures(course, cars)[k]
                is Round),
    decreases cars.len(),
{
    if cars.len() > 0 {
        lemma_departures_kind(course, cars.drop_last());
        let left = departures(course, cars);
        let left0 = departures(course, cars.drop_last());
        assert forall|k: int| 0 <= k < left.len() implies !(#[trigger] left[k] is Round) by {
            if k < left0.len() {
                assert(left[k] == left0[k]);
            }
        }
    }
}

/// All survivors are in the race.
pub proof fn lemma_survivors_race(course: Map<TileCoord, Tile>, cars: Seq<CarData>)
    ensures
        forall|i: int|
            0 <= i < survivors(course, cars).len() ==> is_racing(
                course,
                #[trigger] survivors(course, cars)[i],
            ),
    decreases cars.len(),
{
    if cars.len() > 0 {
        lemma_survivors_race(course, cars.drop_last());
        let earlier = survivors(course, cars.drop_last());
        let all = survivors(course, cars);
        assert forall|i: int| 0 <= i < all.len() implies is_racing(course, #[trigger] all[i]) by {
            if i < earlier.len() {
                assert(all[i] == earlier[i]);
            }
        }
    }
}

} // verus!
