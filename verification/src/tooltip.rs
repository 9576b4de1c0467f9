//! The small race that shows what a tile type does.

use crate::course::{empty_course, Course, TileCoord};
use crate::direction::{DihedralElement, Direction, ROTATIONS};
use crate::playback::{animations, lists_ways, CarAnimation};
use crate::simulator::{
    copy_cars, course_in_range, departures, is_entrance_id, is_exit_id, lemma_departures_kind,
    CarData, EventView, SimEvent, Simulator, SimulatorView, SpawnPolicy,
};
use crate::tile::{Tile, TileType};
use core::time::Duration;
use vstd::prelude::*;

verus! {

/// The cell of the tile that is shown.
pub open spec fn shown_cell() -> TileCoord {
    TileCoord(1, 1)
}

/// The tiles with the roads that lead to and from the tile of type `tile` on the side
/// towards which `rot` takes `Up`: where cars enter driving that way, a straight with a
/// finish line behind it lies on the opposite side; where cars leave driving that way, a
/// straight lies on that side.
pub open spec fn with_roads(
    tiles: Map<TileCoord, Tile>,
    tile: TileType,
    rot: DihedralElement,
) -> Map<TileCoord, Tile> {
    let dir = rot.spec_apply(Direction::Up);
    let (dx, dy) = (dir.spec_dx(), dir.spec_dy());
    let straight = Tile { tile_type: TileType::Straight, transform: rot, offset: 0 };
    let finish = Tile { tile_type: TileType::Finish, transform: rot, offset: 0 };
    let entered = if is_entrance_id(tile, dir) {
        tiles.insert(TileCoord((1 - dx) as isize, (1 - dy) as isize), straight).insert(
            TileCoord((1 - 2 * dx) as isize, (1 - 2 * dy) as isize),
            finish,
        )
    } else {
        tiles
    };
    if is_exit_id(tile, dir) {
        entered.insert(TileCoord((1 + dx) as isize, (1 + dy) as isize), straight)
    } else {
        entered
    }
}

/// The course that shows a tile of type `tile`: the tile in canonical position, with a road
/// from a finish line to each of its entrances and a piece of road at each of its exits.
pub open spec fn demo_course(tile: TileType) -> Map<TileCoord, Tile> {
    let alone = empty_course().insert(
        shown_cell(),
        Tile { tile_type: tile, transform: DihedralElement::Id, offset: 0 },
    );
    with_roads(
        with_roads(
            with_roads(with_roads(alone, tile, DihedralElement::Id), tile, DihedralElement::Rot90),
            tile,
            DihedralElement::Rot180,
        ),
        tile,
        DihedralElement::Rot270,
    )
}

/// The course that shows a tile of type `tile`.
pub fn course_for(tile: TileType) -> (r: Course)
    ensures
        r@ == demo_course(tile),
        course_in_range(r@),
{
    let mut course = Course::new();
    let orig = TileCoord(1, 1);
    course.insert_mut(orig, Tile { tile_type: tile, transform: DihedralElement::Id, offset: 0 });
    let mut k: usize = 0;
    while k < 4
        invariant
            k <= 4,
            orig == shown_cell(),
            course_in_range(course@),
            ({
                let alone = empty_course().insert(
                    shown_cell(),
                    Tile { tile_type: tile, transform: DihedralElement::Id, offset: 0 },
                );
                let one = with_roads(alone, tile, DihedralElement::Id);
                let two = with_roads(one, tile, DihedralElement::Rot90);
                let three = with_roads(two, tile, DihedralElement::Rot180);
                let four = with_roads(three, tile, DihedralElement::Rot270);
                course@ == (if k == 0 {
                    alone
                } else if k == 1 {
                    one
                } else if k == 2 {
                    two
                } else if k == 3 {
                    three
                } else {
                    four
                })
            }),
        decreases 4 - k,
    {
        let rot = ROTATIONS[k];
        let dir = rot * Direction::Up;
        if is_entrance_id(tile, dir) {
            course.insert_mut(
                orig - dir,
                Tile { tile_type: TileType::Straight, transform: rot, offset: 0 },
            );
            course.insert_mut(
                orig - dir - dir,
                Tile { tile_type: TileType::Finish, transform: rot, offset: 0 },
            );
        }
        if is_exit_id(tile, dir) {
            course.insert_mut(
                orig + dir,
                Tile { tile_type: TileType::Straight, transform: rot, offset: 0 },
            );
        }
        k += 1;
    }
    course
}

/// The small race that shows what a tile type does.
pub struct TooltipState {
    pub tile: TileType,
    pub sim: Simulator,
    /// The cars after the round run last.
    pub cars: Vec<CarData>,
    /// The ways of the cars in the round run last.
    pub animations: Vec<CarAnimation>,
    /// The time at which the round was run.
    pub last_sim_time: Duration,
}

/// `Duration::default`: the span of no time.
#[verifier::external_body]
pub(crate) fn no_time() -> (r: Duration)
    ensures
        crate::playback::duration_nanos(r) == 0,
{
    Duration::default()
}

impl TooltipState {
    /// Whether the state is valid: the simulator is, and its events have been collected.
    pub open spec fn wf(self) -> bool {
        &&& self.sim@.wf()
        &&& self.sim@.pending.len() == 0
        &&& self.sim@.course == demo_course(self.tile)
    }

    /// The race for the tile type `tile`, before its first round: cars start without end,
    /// in each round with probability one half.
    pub fn new(tile: TileType) -> (r: TooltipState)
        ensures
            r.wf(),
            r.tile == tile,
            (SimulatorView { spawn_policy: SpawnPolicy::Always, ..r.sim@ }).is_fresh(
                demo_course(tile),
                usize::MAX,
            ),
            r.sim@.spawn_policy == SpawnPolicy::Random(4),
            r.cars@.len() == 0,
            r.animations@.len() == 0,
    {
        let mut sim = Simulator::new(course_for(tile), usize::MAX);
        sim.set_spawn_policy(SpawnPolicy::Random(4));
        TooltipState {
            tile,
            sim,
            cars: Vec::new(),
            last_sim_time: no_time(),
            animations: Vec::new(),
        }
    }

    /// Runs a round at the time `time`, and notes the cars after it and their ways.
    pub fn advance(&mut self, time: Duration)
        requires
            old(self).wf(),
            old(self).sim@.round < usize::MAX,
        ensures
            final(self).wf(),
            final(self).tile == old(self).tile,
            final(self).last_sim_time == time,
            exists|allow: Seq<bool>| #[trigger]
                old(self).sim@.may_say(allow) && final(self).sim@ == (SimulatorView {
                    pending: Seq::empty(),
                    ..old(self).sim@.after_round(allow)
                }) && final(self).cars@ == old(self).sim@.cars_after_round(allow),
            lists_ways(final(self).animations@, old(self).cars@, final(self).cars@),
    {
        self.last_sim_time = time;
        let ghost before = self.sim@;
        self.sim.run_round();
        let ghost allow = choose|allow: Seq<bool>| #[trigger]
            before.may_say(allow) && self.sim@ == before.after_round(allow);
        let ghost all = before.cars_after_round(allow);
        let events = self.sim.events();
        proof {
            let pending = before.after_round(allow).pending;
            let left = departures(before.course, all);
            lemma_departures_kind(before.course, all);
            assert(pending[0] == EventView::Round(all));
            assert(events@[0]@ == pending[0]);
            assert forall|j: int| 1 <= j < events@.len() implies !((#[trigger] events@[j])@
                is Round) by {
                assert(events@[j]@ == pending[j]);
                assert(pending[j] == left[j - 1]);
            }
        }
        let mut i: usize = 0;
        while i < events.len()
            invariant
                i <= events@.len(),
                events@.len() >= 1,
                events@[0]@ == EventView::Round(all),
                forall|j: int| 1 <= j < events@.len() ==> !((#[trigger] events@[j])@ is Round),
                self.tile == old(self).tile,
                self.last_sim_time == time,
                self.sim@ == (SimulatorView { pending: Seq::empty(), ..before.after_round(allow) }),
                i == 0 ==> self.cars == old(self).cars,
                i > 0 ==> self.cars@ == all && lists_ways(
                    self.animations@,
                    old(self).cars@,
                    self.cars@,
                ),
            decreases events.len() - i,
        {
            if let SimEvent::Round(v) = &events[i] {
                assert(i == 0);
                self.animations = animations(self.cars.as_slice(), v.as_slice());
                self.cars = copy_cars(v);
            }
            i += 1;
        }
        proof {
            assert(before.may_say(allow));
        }
    }
}

} // verus!
