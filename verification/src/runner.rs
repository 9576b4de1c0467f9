//! The resolution of one round: the working state and the walk along the lines of cars.

use crate::direction::Direction;
use crate::round::{
    blocked_at, blocked_incoming, car_index_at, chain, indices, is_entering, lemma_line_moves,
    lemma_moves_unfold, lemma_ring_moves, lemma_spawned_prefix, moved_cars, moves, order_from,
    outcome, resolution_order, spawned, spot_free, successor, Traffic,
};
use crate::simulator::{
    build_grid, faces_cell, grid_finds, grid_get, lemma_car_index_at, lemma_racing_faces_cell,
    lemma_start_faces_cell, random_8, CarCoord, CarData, Simulator, SpawnPolicy,
};
use crate::tile::TileType;
use std::collections::HashMap;
use vstd::prelude::*;

verus! {

/// What is known of a car while a round is resolved.
#[derive(Copy, Clone, PartialEq, Eq, Structural)]
pub(crate) enum MoveStatus {
    /// Not looked at yet.
    Unknown,
    /// The car moves.
    Moving,
    /// The car stays where it is.
    Stopped,
}

/// Whether `u` holds `j` exactly if car `j` has not been looked at.
pub(crate) open spec fn tracks_at(s: Seq<MoveStatus>, u: Set<int>, j: int) -> bool {
    u.contains(j) <==> (0 <= j < s.len() && s[j] == MoveStatus::Unknown)
}

/// Whether `u` is the set of the cars that have not been looked at.
pub(crate) open spec fn tracks(s: Seq<MoveStatus>, u: Set<int>) -> bool {
    u.finite() && forall|j: int| #[trigger] tracks_at(s, u, j)
}

/// Whether what is recorded of car `j` is right, if anything is recorded.
pub(crate) open spec fn right_about(t: Traffic, s: Seq<MoveStatus>, j: int) -> bool {
    s[j] != MoveStatus::Unknown ==> (s[j] == MoveStatus::Moving) == moves(t, j)
}

/// Whether all that is recorded is right.
pub(crate) open spec fn all_right(t: Traffic, s: Seq<MoveStatus>) -> bool {
    s.len() == t.cars.len() && forall|j: int| 0 <= j < s.len() ==> #[trigger] right_about(t, s, j)
}

/// Whether car `c` is marked as a car of the line being walked.
pub(crate) open spec fn on_line(s: Seq<MoveStatus>, u0: Set<int>, c: int) -> bool {
    0 <= c < s.len() && s[c] == MoveStatus::Moving && u0.contains(c)
}

/// Whether the car at place `k` of the line is not held up and has the next car of the line
/// in its way.
pub(crate) open spec fn linked(t: Traffic, line: Seq<int>, k: int) -> bool {
    successor(t, line[k]) == Some(line[k + 1]) && !blocked_incoming(t, line[k])
}

/// Whether car `j` is accounted for while `line` is walked: a car resolved before is
/// recorded as before, and one unresolved before is still so or is on the line.
pub(crate) open spec fn kept(
    s0: Seq<MoveStatus>,
    u0: Set<int>,
    s: Seq<MoveStatus>,
    u: Set<int>,
    line: Seq<int>,
    j: int,
) -> bool {
    if u0.contains(j) {
        u.contains(j) || line.contains(j)
    } else {
        s[j] == s0[j]
    }
}

/// What holds while a line is walked. `s0` and `u0` are the record before the walk, `s` and
/// `u` the record now, and `line` the cars walked so far.
pub(crate) open spec fn walking(
    t: Traffic,
    s0: Seq<MoveStatus>,
    u0: Set<int>,
    s: Seq<MoveStatus>,
    u: Set<int>,
    line: Seq<int>,
) -> bool {
    &&& s.len() == s0.len()
    &&& all_right(t, s0)
    &&& tracks(s0, u0)
    &&& tracks(s, u)
    &&& forall|k: int| 0 <= k < line.len() ==> on_line(s, u0, #[trigger] line[k])
    &&& forall|k: int| 0 <= k < line.len() - 1 ==> #[trigger] linked(t, line, k)
    &&& forall|j: int| 0 <= j < s.len() ==> #[trigger] kept(s0, u0, s, u, line, j)
}

/// Taking the unresolved car `cur` onto the line keeps the walk in order.
pub(crate) proof fn lemma_step(
    t: Traffic,
    s0: Seq<MoveStatus>,
    u0: Set<int>,
    s: Seq<MoveStatus>,
    u: Set<int>,
    line: Seq<int>,
    cur: int,
)
    requires
        walking(t, s0, u0, s, u, line),
        u.contains(cur),
        line.len() > 0 ==> successor(t, line.last()) == Some(cur) && !blocked_incoming(
            t,
            line.last(),
        ),
    ensures
        0 <= cur < s.len(),
        u0.contains(cur),
        walking(t, s0, u0, s.update(cur, MoveStatus::Moving), u.remove(cur), line.push(cur)),
        u.remove(cur).len() < u.len(),
{
    let s2 = s.update(cur, MoveStatus::Moving);
    let u2 = u.remove(cur);
    let line2 = line.push(cur);
    assert(tracks_at(s, u, cur));
    assert(kept(s0, u0, s, u, line, cur));
    assert(tracks_at(s0, u0, cur));
    assert forall|j: int| #[trigger] tracks_at(s2, u2, j) by {
        assert(tracks_at(s, u, j));
    }
    assert forall|k: int| 0 <= k < line2.len() implies on_line(s2, u0, #[trigger] line2[k]) by {
        if k < line.len() {
            assert(on_line(s, u0, line[k]));
        }
    }
    assert forall|k: int| 0 <= k < line2.len() - 1 implies #[trigger] linked(t, line2, k) by {
        if k < line.len() - 1 {
            assert(linked(t, line, k));
        }
    }
    assert forall|j: int| 0 <= j < s2.len() implies #[trigger] kept(s0, u0, s2, u2, line2, j) by {
        assert(kept(s0, u0, s, u, line, j));
        if j == cur {
            assert(line2[line.len() as int] == cur);
        } else if line.contains(j) {
            let k = choose|k: int| 0 <= k < line.len() && line[k] == j;
            assert(line2[k] == j);
        }
    }
}

/// If the last car of the line is not held up and the car in its way is resolved or on the
/// line, the last car moves exactly if that car is marked as moving.
pub(crate) proof fn lemma_known_successor(
    t: Traffic,
    s0: Seq<MoveStatus>,
    u0: Set<int>,
    s: Seq<MoveStatus>,
    u: Set<int>,
    line: Seq<int>,
    j: int,
)
    requires
        walking(t, s0, u0, s, u, line),
        line.len() > 0,
        !blocked_incoming(t, line.last()),
        successor(t, line.last()) == Some(j),
        0 <= j < s.len(),
        s[j] != MoveStatus::Unknown,
    ensures
        moves(t, line.last()) == (s[j] == MoveStatus::Moving),
{
    lemma_moves_unfold(t, line.last());
    assert(kept(s0, u0, s, u, line, j));
    assert(tracks_at(s, u, j));
    if u0.contains(j) {
        let c = choose|c: int| 0 <= c < line.len() && line[c] == j;
        assert(on_line(s, u0, line[c]));
        let ring = line.subrange(c, line.len() as int);
        assert forall|a: int| 0 <= a < ring.len() implies !blocked_incoming(
            t,
            #[trigger] ring[a],
        ) by {
            if c + a < line.len() - 1 {
                assert(linked(t, line, c + a));
            }
        }
        assert forall|a: int| 0 <= a < ring.len() - 1 implies successor(t, #[trigger] ring[a])
            == Some(ring[a + 1]) by {
            assert(linked(t, line, c + a));
        }
        lemma_ring_moves(t, ring, ring.len() - 1);
    } else {
        assert(right_about(t, s0, j));
    }
}

/// Whether car `c` is a car of the line that is being resolved with the result `result`.
pub(crate) open spec fn line_car(
    t: Traffic,
    s: Seq<MoveStatus>,
    u0: Set<int>,
    c: int,
    result: bool,
) -> bool {
    &&& 0 <= c < s.len()
    &&& u0.contains(c)
    &&& s[c] != MoveStatus::Unknown
    &&& moves(t, c) == result
}

/// What holds while the line is resolved from its far end back. The cars at the places from
/// `k` on have been resolved.
pub(crate) open spec fn unwinding(
    t: Traffic,
    s0: Seq<MoveStatus>,
    u0: Set<int>,
    s: Seq<MoveStatus>,
    u: Set<int>,
    line: Seq<int>,
    k: int,
    result: bool,
) -> bool {
    &&& s.len() == s0.len()
    &&& all_right(t, s0)
    &&& tracks(s0, u0)
    &&& tracks(s, u)
    &&& 0 <= k <= line.len()
    &&& forall|a: int| 0 <= a < line.len() ==> line_car(t, s, u0, #[trigger] line[a], result)
    &&& forall|j: int| 0 <= j < s.len() ==> #[trigger] kept(s0, u0, s, u, line, j)
    &&& forall|j: int|
        0 <= j < s.len() && !line.subrange(0, k).contains(j) ==> #[trigger] right_about(t, s, j)
}

/// When a walk has ended, the resolution of its line can start.
pub(crate) proof fn lemma_walked(
    t: Traffic,
    s0: Seq<MoveStatus>,
    u0: Set<int>,
    s: Seq<MoveStatus>,
    u: Set<int>,
    line: Seq<int>,
    result: bool,
)
    requires
        walking(t, s0, u0, s, u, line),
        line.len() > 0,
        moves(t, line.last()) == result,
    ensures
        unwinding(t, s0, u0, s, u, line, line.len() as int, result),
{
    assert forall|a: int| 0 <= a < line.len() implies line_car(
        t,
        s,
        u0,
        #[trigger] line[a],
        result,
    ) by {
        assert(on_line(s, u0, line[a]));
        assert forall|b: int| 0 <= b < line.len() - 1 implies !blocked_incoming(
            t,
            #[trigger] line[b],
        ) by {
            assert(linked(t, line, b));
        }
        assert forall|b: int| 0 <= b < line.len() - 1 implies successor(t, #[trigger] line[b])
            == Some(line[b + 1]) by {
            assert(linked(t, line, b));
        }
        lemma_line_moves(t, line, a);
    }
    assert(line.subrange(0, line.len() as int) =~= line);
    assert forall|j: int|
        0 <= j < s.len() && !line.subrange(0, line.len() as int).contains(
            j,
        ) implies #[trigger] right_about(t, s, j) by {
        assert(kept(s0, u0, s, u, line, j));
        assert(tracks_at(s, u, j));
        assert(right_about(t, s0, j));
    }
}

/// Recording the outcome of the car at place `k - 1` of the line keeps the resolution in
/// order.
pub(crate) proof fn lemma_unwind_step(
    t: Traffic,
    s0: Seq<MoveStatus>,
    u0: Set<int>,
    s: Seq<MoveStatus>,
    u: Set<int>,
    line: Seq<int>,
    k: int,
    result: bool,
)
    requires
        unwinding(t, s0, u0, s, u, line, k, result),
        k > 0,
    ensures
        0 <= line[k - 1] < s.len(),
        moves(t, line[k - 1]) == result,
        unwinding(
            t,
            s0,
            u0,
            s.update(
                line[k - 1],
                if result {
                    MoveStatus::Moving
                } else {
                    MoveStatus::Stopped
                },
            ),
            u,
            line,
            k - 1,
            result,
        ),
{
    let c = line[k - 1];
    let s2 = s.update(
        c,
        if result {
            MoveStatus::Moving
        } else {
            MoveStatus::Stopped
        },
    );
    assert(line_car(t, s, u0, line[k - 1], result));
    assert forall|a: int| 0 <= a < line.len() implies line_car(
        t,
        s2,
        u0,
        #[trigger] line[a],
        result,
    ) by {
        assert(line_car(t, s, u0, line[a], result));
    }
    assert forall|j: int| #[trigger] tracks_at(s2, u, j) by {
        assert(tracks_at(s, u, j));
    }
    assert forall|j: int| 0 <= j < s2.len() implies #[trigger] kept(s0, u0, s2, u, line, j) by {
        assert(kept(s0, u0, s, u, line, j));
    }
    assert forall|j: int|
        0 <= j < s2.len() && !line.subrange(0, k - 1).contains(j) implies #[trigger] right_about(
        t,
        s2,
        j,
    ) by {
        if j != c {
            let longer = line.subrange(0, k);
            let shorter = line.subrange(0, k - 1);
            if longer.contains(j) {
                let a = choose|a: int| 0 <= a < longer.len() && #[trigger] longer[a] == j;
                assert(shorter[a] == j);
            }
            assert(right_about(t, s, j));
        }
    }
}

/// When the whole line is resolved, all that is recorded is right, and the cars of the line
/// are the ones that have become resolved.
pub(crate) proof fn lemma_unwound(
    t: Traffic,
    s0: Seq<MoveStatus>,
    u0: Set<int>,
    s: Seq<MoveStatus>,
    u: Set<int>,
    line: Seq<int>,
    result: bool,
)
    requires
        unwinding(t, s0, u0, s, u, line, 0, result),
    ensures
        all_right(t, s),
        u == u0.difference(line.to_set()),
        forall|j: int|
            0 <= j < s0.len() && s0[j] != MoveStatus::Unknown ==> #[trigger] s[j]
                != MoveStatus::Unknown,
{
    assert forall|j: int| 0 <= j < s.len() implies #[trigger] right_about(t, s, j) by {
        assert(!line.subrange(0, 0).contains(j));
    }
    assert forall|j: int| u.contains(j) == (u0.contains(j) && !line.to_set().contains(j)) by {
        assert(tracks_at(s, u, j));
        assert(tracks_at(s0, u0, j));
        if 0 <= j < s.len() {
            assert(kept(s0, u0, s, u, line, j));
            if line.contains(j) {
                let a = choose|a: int| 0 <= a < line.len() && line[a] == j;
                assert(line_car(t, s, u0, line[a], result));
            }
        }
    }
    assert(u =~= u0.difference(line.to_set()));
    assert forall|j: int|
        0 <= j < s0.len() && s0[j] != MoveStatus::Unknown implies #[trigger] s[j]
        != MoveStatus::Unknown by {
        assert(kept(s0, u0, s, u, line, j));
        assert(tracks_at(s0, u0, j));
    }
}

/// Whether the `k`th car resolved is recorded among `cars` as it ends up.
pub(crate) open spec fn recorded(t: Traffic, order: Seq<int>, cars: Seq<CarData>, k: int) -> bool {
    &&& 0 <= order[k] < t.cars.len()
    &&& cars[k] == outcome(t, order[k])
    &&& faces_cell(cars[k])
}

/// Whether `cars` are the cars resolved in `order`, as they end up.
pub(crate) open spec fn all_recorded(t: Traffic, order: Seq<int>, cars: Seq<CarData>) -> bool {
    cars.len() == order.len() && forall|k: int|
        0 <= k < order.len() ==> #[trigger] recorded(t, order, cars, k)
}

/// One more car resolved and recorded.
pub(crate) proof fn lemma_record(t: Traffic, order: Seq<int>, cars: Seq<CarData>, c: int, car: CarData)
    requires
        all_recorded(t, order, cars),
        0 <= c < t.cars.len(),
        car == outcome(t, c),
        faces_cell(car),
    ensures
        all_recorded(t, order.push(c), cars.push(car)),
{
    assert forall|k: int| 0 <= k < order.push(c).len() implies #[trigger] recorded(
        t,
        order.push(c),
        cars.push(car),
        k,
    ) by {
        if k < order.len() {
            assert(recorded(t, order, cars, k));
        }
    }
}

/// The working state of one round.
pub(crate) struct RoundRunner<'a> {
    pub(crate) sim: &'a Simulator,
    pub(crate) status: Vec<MoveStatus>,
    pub(crate) car_grid: HashMap<(isize, isize), usize, rustc_hash::FxBuildHasher>,
    pub(crate) cars_new: Vec<CarData>,
    /// The indices of the cars not looked at yet.
    pub(crate) unresolved: Ghost<Set<int>>,
    /// The indices of the cars resolved, in the order of their resolution.
    pub(crate) order: Ghost<Seq<int>>,
}

/// The indices held in `path`, as mathematical integers.
pub(crate) open spec fn ints(path: Seq<usize>) -> Seq<int> {
    Seq::new(path.len(), |k: int| path[k] as int)
}

impl<'a> RoundRunner<'a> {
    pub(crate) open spec fn traffic(self) -> Traffic {
        self.sim@.traffic()
    }

    /// What holds of the working state at any time.
    pub(crate) open spec fn base(self) -> bool {
        &&& self.sim@.wf()
        &&& grid_finds(self.car_grid@, self.sim@.cars)
        &&& self.status@.len() == self.sim@.cars.len()
        &&& tracks(self.status@, self.unresolved@)
    }

    /// What holds of the working state whenever no line is being walked.
    pub(crate) open spec fn settled(self) -> bool {
        &&& self.base()
        &&& all_right(self.traffic(), self.status@)
        &&& all_recorded(self.traffic(), self.order@, self.cars_new@)
    }

    /// Whether the round and the grid are those of `before`.
    pub(crate) open spec fn same_round(self, before: Self) -> bool {
        &&& self.sim == before.sim
        &&& self.car_grid == before.car_grid
        &&& self.status@.len() == before.status@.len()
    }

    pub(crate) fn new(sim: &'a Simulator) -> (r: RoundRunner<'a>)
        requires
            sim@.wf(),
        ensures
            r.settled(),
            r.sim == sim,
            r.unresolved@ == indices(sim@.cars.len() as int),
            r.order@.len() == 0,
    {
        let car_grid = build_grid(&sim.cars);
        let mut status: Vec<MoveStatus> = Vec::new();
        let mut i: usize = 0;
        while i < sim.cars.len()
            invariant
                i <= sim.cars.len(),
                status@.len() == i,
                forall|j: int| 0 <= j < i ==> status@[j] == MoveStatus::Unknown,
            decreases sim.cars.len() - i,
        {
            status.push(MoveStatus::Unknown);
            i += 1;
        }
        let ghost all = indices(sim@.cars.len() as int);
        proof {
            vstd::set_lib::lemma_int_range(0, sim@.cars.len() as int);
            assert(all =~= vstd::set_lib::set_int_range(0, sim@.cars.len() as int));
            assert forall|j: int| #[trigger] tracks_at(status@, all, j) by {}
            assert forall|j: int| 0 <= j < status@.len() implies #[trigger] right_about(
                sim@.traffic(),
                status@,
                j,
            ) by {}
        }
        RoundRunner {
            sim,
            status,
            car_grid,
            cars_new: Vec::new(),
            unresolved: Ghost(all),
            order: Ghost(Seq::empty()),
        }
    }

    fn car_at(&self, pos: CarCoord) -> (r: Option<CarData>)
        requires
            self.base(),
        ensures
            r == (match car_index_at(self.sim@.cars, pos) {
                Some(i) => Some(self.sim@.cars[i]),
                None => None,
            }),
    {
        proof {
            lemma_car_index_at(self.sim@.cars, pos);
        }
        match grid_get(&self.car_grid, pos) {
            Some(i) => Some(self.sim.cars[i]),
            None => None,
        }
    }

    fn is_entering_tile(&self, tile_pos: CarCoord, from_dir: Direction) -> (r: bool)
        requires
            self.base(),
            isize::MIN + 2 < tile_pos.0 < isize::MAX - 2,
            isize::MIN + 2 < tile_pos.1 < isize::MAX - 2,
        ensures
            r == is_entering(self.traffic(), tile_pos, from_dir),
    {
        match self.car_at(tile_pos - from_dir) {
            Some(c) => c.dir == from_dir,
            None => false,
        }
    }

    fn is_blocked_incoming(&self, pos: CarCoord, dir: Direction) -> (r: bool)
        requires
            self.base(),
            pos.is_center(),
            isize::MIN + 2 < pos.0 < isize::MAX - 2,
            isize::MIN + 2 < pos.1 < isize::MAX - 2,
        ensures
            r == blocked_at(self.traffic(), pos, dir),
    {
        if let Some(tile) = self.sim.tile_at(pos) {
            let dir_norm = tile.transform.apply_inverse(dir);
            match tile.tile_type {
                TileType::LightIntersection => {
                    let second = (self.sim.round % 2 == 1) != (tile.offset % 2 == 1);
                    (dir_norm.repr() % 2 == 1) == second
                },
                TileType::YieldIntersection => {
                    dir_norm == Direction::Up && self.is_entering_tile(
                        pos,
                        tile.transform * Direction::Left,
                    )
                },
                TileType::Merge => {
                    dir_norm == Direction::Left && self.is_entering_tile(
                        pos,
                        tile.transform * Direction::Up,
                    )
                },
                _ => false,
            }
        } else {
            false
        }
    }

    /// Walks from the unresolved car `id` along the cars in each other's way, marking them,
    /// until one is held up, has a free way, or has a car in its way of which it is known
    /// whether it moves. Returns the cars walked and whether the last of them moves.
    fn walk(&mut self, id: usize) -> (r: (Vec<usize>, bool))
        requires
            old(self).settled(),
            id < old(self).status@.len(),
            old(self).status@[id as int] == MoveStatus::Unknown,
        ensures
            final(self).base(),
            final(self).same_round(*old(self)),
            final(self).cars_new == old(self).cars_new,
            final(self).order == old(self).order,
            walking(
                old(self).traffic(),
                old(self).status@,
                old(self).unresolved@,
                final(self).status@,
                final(self).unresolved@,
                ints(r.0@),
            ),
            r.0@.len() > 0,
            chain(old(self).traffic(), old(self).unresolved@, id as int) == ints(r.0@),
            moves(old(self).traffic(), ints(r.0@).last()) == r.1,
    {
        let ghost t = self.traffic();
        let ghost s0 = self.status@;
        let ghost u0 = self.unresolved@;
        let mut path: Vec<usize> = Vec::new();
        let mut cur: usize = id;
        let mut result: bool = true;
        let ghost mut line: Seq<int> = Seq::empty();
        proof {
            assert(ints(path@) =~= line);
            assert(tracks_at(s0, u0, id as int));
            assert(line + chain(t, u0, cur as int) =~= chain(t, u0, id as int));
            assert forall|j: int| 0 <= j < s0.len() implies #[trigger] kept(s0, u0, s0, u0, line, j) by {}
        }
        loop
            invariant_except_break
                self.unresolved@.contains(cur as int),
                line.len() > 0 ==> successor(t, line.last()) == Some(cur as int)
                    && !blocked_incoming(t, line.last()),
                chain(t, u0, id as int) == line + chain(t, self.unresolved@, cur as int),
            invariant
                t == self.traffic(),
                self.base(),
                self.same_round(*old(self)),
                self.cars_new == old(self).cars_new,
                self.order == old(self).order,
                s0 == old(self).status@,
                u0 == old(self).unresolved@,
                line == ints(path@),
                walking(t, s0, u0, self.status@, self.unresolved@, line),
            ensures
                line.len() > 0,
                chain(t, u0, id as int) == line,
                moves(t, line.last()) == result,
            decreases self.unresolved@.len(),
        {
            let ghost u_before = self.unresolved@;
            let ghost line_before = line;
            proof {
                lemma_step(t, s0, u0, self.status@, u_before, line, cur as int);
            }
            self.status[cur] = MoveStatus::Moving;
            path.push(cur);
            proof {
                self.unresolved@ = u_before.remove(cur as int);
                line = line.push(cur as int);
                assert(ints(path@) =~= line);
            }
            let car = self.sim.cars[cur];
            proof {
                lemma_racing_faces_cell(self.sim@.course, car);
                lemma_moves_unfold(t, cur as int);
            }
            if self.is_blocked_incoming(car.tile_pos(), car.dir) {
                result = false;
                proof {
                    assert(chain(t, u_before, cur as int) =~= seq![cur as int]);
                    assert(line_before + seq![cur as int] =~= line);
                }
                break ;
            }
            let new_pos = self.sim.out_pos(&car);
            proof {
                lemma_car_index_at(self.sim@.cars, new_pos);
            }
            match grid_get(&self.car_grid, new_pos) {
                None => {
                    result = true;
                    proof {
                        assert(chain(t, u_before, cur as int) =~= seq![cur as int]);
                        assert(line_before + seq![cur as int] =~= line);
                    }
                    break ;
                },
                Some(j) => {
                    assert(successor(t, cur as int) == Some(j as int));
                    proof {
                        assert(tracks_at(self.status@, self.unresolved@, j as int));
                    }
                    match self.status[j] {
                        MoveStatus::Moving => {
                            result = true;
                            proof {
                                assert(chain(t, u_before, cur as int) =~= seq![cur as int]);
                                assert(line_before + seq![cur as int] =~= line);
                                lemma_known_successor(
                                    t,
                                    s0,
                                    u0,
                                    self.status@,
                                    self.unresolved@,
                                    line,
                                    j as int,
                                );
                            }
                            break ;
                        },
                        MoveStatus::Stopped => {
                            result = false;
                            proof {
                                assert(chain(t, u_before, cur as int) =~= seq![cur as int]);
                                assert(line_before + seq![cur as int] =~= line);
                                lemma_known_successor(
                                    t,
                                    s0,
                                    u0,
                                    self.status@,
                                    self.unresolved@,
                                    line,
                                    j as int,
                                );
                            }
                            break ;
                        },
                        MoveStatus::Unknown => {
                            proof {
                                let rest = chain(t, self.unresolved@, j as int);
                                assert(chain(t, u_before, cur as int) =~= seq![cur as int] + rest);
                                assert(line_before + (seq![cur as int] + rest) =~= line + rest);
                            }
                            cur = j;
                        },
                    }
                },
            }
        }
        (path, result)
    }

    /// Records for each car of `path`, from the last to the first, whether it moves and
    /// where it ends up.
    fn unwind(&mut self, path: &Vec<usize>, result: bool, Ghost(before): Ghost<Self>)
        requires
            old(self).base(),
            old(self).same_round(before),
            before.settled(),
            old(self).cars_new == before.cars_new,
            old(self).order == before.order,
            path@.len() > 0,
            walking(
                before.traffic(),
                before.status@,
                before.unresolved@,
                old(self).status@,
                old(self).unresolved@,
                ints(path@),
            ),
            moves(before.traffic(), ints(path@).last()) == result,
        ensures
            final(self).settled(),
            final(self).same_round(before),
            final(self).unresolved@ == before.unresolved@.difference(ints(path@).to_set()),
            final(self).order@ == before.order@ + ints(path@).reverse(),
            forall|a: int|
                0 <= a < path@.len() ==> moves(before.traffic(), #[trigger] ints(path@)[a])
                    == result,
            forall|j: int|
                0 <= j < before.status@.len() && before.status@[j] != MoveStatus::Unknown
                    ==> #[trigger] final(self).status@[j] != MoveStatus::Unknown,
    {
        let ghost t = self.traffic();
        let ghost s0 = before.status@;
        let ghost u0 = before.unresolved@;
        let ghost line = ints(path@);
        proof {
            lemma_walked(t, s0, u0, self.status@, self.unresolved@, line, result);
            assert(line.subrange(line.len() as int, line.len() as int).reverse() =~= Seq::<
                int,
            >::empty());
            assert(before.order@ + Seq::<int>::empty() =~= before.order@);
            assert forall|a: int| 0 <= a < line.len() implies moves(t, #[trigger] line[a])
                == result by {
                assert(line_car(t, self.status@, u0, line[a], result));
            }
        }
        let mut k: usize = path.len();
        while k > 0
            invariant
                k <= path@.len(),
                t == self.traffic(),
                t == before.traffic(),
                s0 == before.status@,
                u0 == before.unresolved@,
                line == ints(path@),
                self.base(),
                self.same_round(before),
                self.unresolved@ == old(self).unresolved@,
                unwinding(t, s0, u0, self.status@, self.unresolved@, line, k as int, result),
                all_recorded(t, self.order@, self.cars_new@),
                self.order@ == before.order@ + line.subrange(k as int, line.len() as int).reverse(),
            decreases k,
        {
            proof {
                lemma_unwind_step(t, s0, u0, self.status@, self.unresolved@, line, k as int, result);
            }
            k -= 1;
            let c = path[k];
            assert(line[k as int] == c);
            let car = self.sim.cars[c];
            let ghost order_before = self.order@;
            let ghost cars_before = self.cars_new@;
            if result {
                self.status[c] = MoveStatus::Moving;
                let moved = self.sim.new_pos(&car);
                self.cars_new.push(moved);
            } else {
                self.status[c] = MoveStatus::Stopped;
                proof {
                    lemma_racing_faces_cell(self.sim@.course, car);
                }
                self.cars_new.push(car);
            }
            proof {
                self.order@ = self.order@.push(c as int);
                lemma_record(t, order_before, cars_before, c as int, self.cars_new@.last());
                assert(self.cars_new@ =~= cars_before.push(self.cars_new@.last()));
                assert(line.subrange(k as int, line.len() as int).reverse() =~= line.subrange(
                    k + 1,
                    line.len() as int,
                ).reverse().push(c as int));
            }
        }
        proof {
            lemma_unwound(t, s0, u0, self.status@, self.unresolved@, line, result);
            assert(line.subrange(0, line.len() as int) =~= line);
        }
    }

    /// Resolves car `id` and, with it, the unresolved cars in its way. Returns whether car
    /// `id` moves.
    pub(crate) fn try_move(&mut self, id: usize) -> (r: bool)
        requires
            old(self).settled(),
            id < old(self).status@.len(),
        ensures
            final(self).settled(),
            final(self).same_round(*old(self)),
            r == moves(old(self).traffic(), id as int),
            final(self).status@[id as int] != MoveStatus::Unknown,
            final(self).order@ + order_from(old(self).traffic(), final(self).unresolved@, id + 1)
                == old(self).order@ + order_from(
                old(self).traffic(),
                old(self).unresolved@,
                id as int,
            ),
            forall|j: int|
                0 <= j < old(self).status@.len() && old(self).status@[j] != MoveStatus::Unknown
                    ==> #[trigger] final(self).status@[j] != MoveStatus::Unknown,
    {
        let ghost t = self.traffic();
        let ghost before = *self;
        proof {
            assert(right_about(t, self.status@, id as int));
            assert(tracks_at(self.status@, self.unresolved@, id as int));
        }
        match self.status[id] {
            MoveStatus::Moving => true,
            MoveStatus::Stopped => false,
            MoveStatus::Unknown => {
                let (path, result) = self.walk(id);
                self.unwind(&path, result, Ghost(before));
                proof {
                    let line = ints(path@);
                    assert(line[0] == id as int) by {
                        assert(chain(t, before.unresolved@, id as int)[0] == id as int);
                    }
                    assert(tracks_at(self.status@, self.unresolved@, id as int));
                    assert(line.to_set().contains(line[0]));
                    assert(before.order@ + order_from(t, before.unresolved@, id as int) =~= (
                    before.order@ + line.reverse()) + order_from(t, self.unresolved@, id + 1));
                }
                result
            },
        }
    }

    /// Resolves all cars.
    pub(crate) fn move_cars(&mut self)
        requires
            old(self).settled(),
            old(self).unresolved@ == indices(old(self).status@.len() as int),
            old(self).order@.len() == 0,
        ensures
            final(self).settled(),
            final(self).same_round(*old(self)),
            final(self).order@ == crate::round::resolution_order(old(self).traffic()),
            forall|j: int|
                0 <= j < final(self).status@.len() ==> #[trigger] final(self).status@[j]
                    != MoveStatus::Unknown,
    {
        let ghost t = self.traffic();
        let n = self.sim.cars.len();
        let mut i: usize = 0;
        proof {
            assert(Seq::<int>::empty() + order_from(t, self.unresolved@, 0) =~= order_from(
                t,
                self.unresolved@,
                0,
            ));
            assert(self.order@ =~= Seq::<int>::empty());
        }
        while i < n
            invariant
                i <= n,
                n == self.status@.len(),
                t == self.traffic(),
                self.settled(),
                self.same_round(*old(self)),
                self.order@ + order_from(t, self.unresolved@, i as int)
                    == crate::round::resolution_order(t),
                forall|j: int|
                    0 <= j < i ==> #[trigger] self.status@[j] != MoveStatus::Unknown,
            decreases n - i,
        {
            self.try_move(i);
            i += 1;
        }
        proof {
            assert(self.order@ + Seq::<int>::empty() =~= self.order@);
        }
    }

    /// Whether a car may start at `pos`: no car stands there, or the one that counts as
    /// standing there moves away.
    pub(crate) fn is_spot_free(&self, pos: CarCoord) -> (r: bool)
        requires
            self.base(),
            all_right(self.traffic(), self.status@),
            forall|j: int|
                0 <= j < self.status@.len() ==> #[trigger] self.status@[j] != MoveStatus::Unknown,
        ensures
            r == crate::round::spot_free(self.traffic(), pos),
    {
        proof {
            lemma_car_index_at(self.sim@.cars, pos);
        }
        match grid_get(&self.car_grid, pos) {
            None => true,
            Some(i) => {
                assert(right_about(self.traffic(), self.status@, i as int));
                self.status[i] == MoveStatus::Moving
            },
        }
    }
}

/// Whether every car of `cars` faces the centre of a cell.
pub(crate) open spec fn all_face_cells(cars: Seq<CarData>) -> bool {
    forall|k: int| 0 <= k < cars.len() ==> faces_cell(#[trigger] cars[k])
}

impl<'a> RoundRunner<'a> {
    /// What the spawn policy says of a start in this round: yes under `Always`, and under a
    /// random policy the outcome of a draw, which is sure where the probability is 8 / 8 or
    /// 0 / 8.
    fn check_add_car(&self) -> (r: bool)
        requires
            self.sim@.wf(),
        ensures
            self.sim@.spawn_policy.may_answer(r),
    {
        match self.sim.spawn_policy {
            SpawnPolicy::Always => true,
            SpawnPolicy::Random(n) => random_8(n),
        }
    }

    /// Lets the cars start that can. Where the spawn policy has a say, `given` tells what it
    /// says if there is a `given`, else the policy is asked. Returns the number of the next
    /// car to start and what the policy said, or would have been taken to say, for each
    /// starting point.
    pub(crate) fn add_cars(&mut self, given: Option<&Vec<bool>>) -> (r: (
        usize,
        Ghost<Seq<bool>>,
    ))
        requires
            old(self).settled(),
            old(self).order@ == resolution_order(old(self).traffic()),
            forall|j: int|
                0 <= j < old(self).status@.len() ==> #[trigger] old(self).status@[j]
                    != MoveStatus::Unknown,
            given matches Some(v) ==> v@.len() == old(self).sim@.starts.len(),
        ensures
            final(self).sim == old(self).sim,
            r.1@.len() == old(self).sim@.starts.len(),
            given matches Some(v) ==> r.1@ == v@,
            given is None ==> forall|k: int|
                0 <= k < r.1@.len() ==> old(self).sim@.spawn_policy.may_answer(#[trigger] r.1@[k]),
            final(self).cars_new@ == old(self).sim@.cars_after_round(r.1@),
            r.0 == old(self).sim@.next_car + old(self).sim@.newcomers(r.1@).len(),
            all_face_cells(final(self).cars_new@),
            forall|k: int|
                0 <= k < final(self).cars_new@.len() ==> (#[trigger] final(self).cars_new@[k]).id
                    < old(self).sim@.max_cars,
    {
        let ghost t = self.traffic();
        let ghost v = self.sim@;
        let ghost moved = self.cars_new@;
        let ghost mut allow: Seq<bool> = Seq::empty();
        let mut next_car = self.sim.next_car;
        let n = self.sim.starts.len();
        proof {
            assert(moved =~= moved_cars(t)) by {
                assert forall|k: int| 0 <= k < moved.len() implies moved[k] == moved_cars(t)[k] by {
                    assert(recorded(t, self.order@, moved, k));
                }
            }
            assert(all_face_cells(moved)) by {
                assert forall|k: int| 0 <= k < moved.len() implies faces_cell(#[trigger] moved[k]) by {
                    assert(recorded(t, self.order@, moved, k));
                }
            }
            assert(moved + spawned(t, v.starts, allow, v.next_car, v.max_cars, 0) =~= moved);
            assert forall|k: int| 0 <= k < moved.len() implies (#[trigger] moved[k]).id
                < v.max_cars by {
                assert(recorded(t, self.order@, moved, k));
                assert(v.cars[self.order@[k]].id < v.max_cars);
            }
        }
        let mut k: usize = 0;
        while k < n
            invariant
                k <= n,
                n == v.starts.len(),
                t == self.traffic(),
                v == self.sim@,
                self.sim == old(self).sim,
                self.base(),
                all_right(t, self.status@),
                forall|j: int|
                    0 <= j < self.status@.len() ==> #[trigger] self.status@[j]
                        != MoveStatus::Unknown,
                given matches Some(g) ==> g@.len() == n && allow == g@.take(k as int),
                given is None ==> forall|i: int|
                    0 <= i < allow.len() ==> v.spawn_policy.may_answer(#[trigger] allow[i]),
                allow.len() == k,
                self.cars_new@ == moved + spawned(t, v.starts, allow, v.next_car, v.max_cars, k as int),
                next_car == v.next_car + spawned(t, v.starts, allow, v.next_car, v.max_cars, k as int).len(),
                all_face_cells(self.cars_new@),
                forall|i: int|
                    0 <= i < self.cars_new@.len() ==> (#[trigger] self.cars_new@[i]).id < v.max_cars,
                self.order == old(self).order,
                self.status == old(self).status,
                self.car_grid == old(self).car_grid,
                self.unresolved == old(self).unresolved,
            decreases n - k,
        {
            let start = self.sim.starts[k];
            let ghost allow_before = allow;
            let ghost cars_before = self.cars_new@;
            let ghost said = match given {
                Some(g) => g@[k as int],
                None => v.spawn_policy != SpawnPolicy::Random(0),
            };
            let mut starts_now = false;
            if next_car < self.sim.max_cars && self.is_spot_free(start.0) {
                starts_now = match given {
                    Some(g) => g[k],
                    None => self.check_add_car(),
                };
                proof {
                    allow = allow.push(starts_now);
                }
            } else {
                proof {
                    allow = allow.push(said);
                }
            }
            proof {
                lemma_spawned_prefix(
                    t,
                    v.starts,
                    allow_before,
                    allow,
                    v.next_car,
                    v.max_cars,
                    k as int,
                );
                if given is Some {
                    assert(allow =~= given->0@.take(k + 1));
                }
                lemma_start_faces_cell(v, k as int, next_car);
            }
            if starts_now {
                self.cars_new.push(CarData { id: next_car, pos: start.0, dir: start.1 });
                next_car += 1;
                proof {
                    let now = spawned(t, v.starts, allow, v.next_car, v.max_cars, k + 1);
                    let earlier = spawned(t, v.starts, allow, v.next_car, v.max_cars, k as int);
                    assert(now == earlier.push(self.cars_new@.last()));
                    assert(self.cars_new@ =~= moved + now);
                }
            }
            k += 1;
        }
        proof {
            if given is Some {
                assert(given->0@.take(n as int) =~= given->0@);
            }
        }
        (next_car, Ghost(allow))
    }
}

} // verus!
