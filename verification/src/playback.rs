//! Playing back a race: the speeds, and how a car gets from one round's place to the next.

use crate::direction::Direction;
use crate::simulator::{CarCoord, CarData};
use core::time::Duration;
use vstd::prelude::*;

verus! {

/// How the rounds of a race follow each other on the screen.
#[derive(Copy, Clone, PartialEq, Eq, Structural, Debug)]
pub enum Playback {
    Paused,
    Playing,
    Fast,
}

impl Playback {
    /// The time for which a round is shown, in milliseconds.
    pub open spec fn spec_frame_millis(self) -> u64 {
        match self {
            Playback::Paused => 100,
            Playback::Playing => 500,
            Playback::Fast => 100,
        }
    }

    /// The time for which a round is shown, in milliseconds.
    #[verifier::when_used_as_spec(spec_frame_millis)]
    pub fn frame_millis(self) -> (r: u64)
        ensures
            r == self.spec_frame_millis(),
    {
        match self {
            Playback::Paused => 100,
            Playback::Playing => 500,
            Playback::Fast => 100,
        }
    }
}

/// The length of a span of time in nanoseconds: what `Duration::as_nanos` returns.
pub uninterp spec fn duration_nanos(d: Duration) -> nat;

/// `Duration::from_millis`: the span of that many milliseconds.
#[verifier::external_body]
fn duration_from_millis(millis: u64) -> (r: Duration)
    ensures
        duration_nanos(r) == millis * 1_000_000,
{
    Duration::from_millis(millis)
}

/// `Duration::checked_sub`: the span by which `a` is longer than `b`, if it is not shorter.
#[verifier::external_body]
fn duration_checked_sub(a: Duration, b: Duration) -> (r: Option<Duration>)
    ensures
        r is Some == (duration_nanos(a) >= duration_nanos(b)),
        r matches Some(d) ==> duration_nanos(d) == duration_nanos(a) - duration_nanos(b),
{
    a.checked_sub(b)
}

/// `Duration::as_nanos`: the length of the span in nanoseconds.
#[verifier::external_body]
fn duration_as_nanos(d: Duration) -> (r: u128)
    ensures
        r == duration_nanos(d),
{
    d.as_nanos()
}

/// Whether at the time `now` at least the span `span` has passed since the time `since`,
/// which is not later than `now`.
pub fn has_elapsed(now: Duration, since: Duration, span: Duration) -> (r: bool)
    requires
        duration_nanos(now) >= duration_nanos(since),
    ensures
        r == (duration_nanos(now) - duration_nanos(since) >= duration_nanos(span)),
{
    match duration_checked_sub(now, since) {
        Some(passed) => duration_as_nanos(passed) >= duration_as_nanos(span),
        None => false,
    }
}

/// Whether the time `a` is not earlier than the time `b`.
pub fn not_before(a: Duration, b: Duration) -> (r: bool)
    ensures
        r == (duration_nanos(a) >= duration_nanos(b)),
{
    duration_as_nanos(a) >= duration_as_nanos(b)
}

impl Playback {
    /// The time for which a round is shown.
    pub fn frame_duration(self) -> (r: Duration)
        ensures
            duration_nanos(r) == self.spec_frame_millis() * 1_000_000,
    {
        duration_from_millis(self.frame_millis())
    }
}

/// Where a car is and where it looks.
#[derive(Copy, Clone, PartialEq, Eq, Structural, Debug)]
pub struct CarPosition {
    pub pos: CarCoord,
    pub dir: Direction,
}

impl core::convert::From<CarData> for CarPosition {
    fn from(value: CarData) -> (r: CarPosition) {
        CarPosition { pos: value.pos, dir: value.dir }
    }
}

impl vstd::std_specs::convert::FromSpecImpl<CarData> for CarPosition {
    open spec fn obeys_from_spec() -> bool {
        true
    }

    open spec fn from_spec(value: CarData) -> CarPosition {
        CarPosition { pos: value.pos, dir: value.dir }
    }
}

/// The way of a car from one round to the next: where it was, if it was on the course, and
/// where it is.
#[derive(Copy, Clone, PartialEq, Eq, Structural, Debug)]
pub struct CarAnimation {
    pub id: usize,
    pub old_pos: Option<CarPosition>,
    pub new_pos: CarPosition,
}

/// The ways of the cars of a round, and the time at which the round came up.
pub struct AnimationData {
    pub animations: Vec<CarAnimation>,
    pub start: Duration,
}

/// The ways of cars by the cars' numbers.
#[verifier::external_body]
pub struct AnimationMap {
    map: hashbrown::HashMap<usize, CarAnimation>,
}

/// What an animation map holds: for each number that is present, the way of the car.
pub uninterp spec fn animation_map(m: AnimationMap) -> Map<usize, CarAnimation>;

/// `hashbrown::HashMap::new`: a map that holds nothing.
#[verifier::external_body]
fn animation_map_new() -> (r: AnimationMap)
    ensures
        animation_map(r) == no_animations(),
{
    AnimationMap { map: hashbrown::HashMap::new() }
}

/// `hashbrown::HashMap::insert`: stores the value under the key, in place of any value
/// stored there before, and leaves the other keys alone.
#[verifier::external_body]
fn animation_map_insert(m: &mut AnimationMap, id: usize, animation: CarAnimation)
    ensures
        animation_map(*final(m)) == animation_map(*old(m)).insert(id, animation),
{
    m.map.insert(id, animation);
}

/// `hashbrown::HashMap::get`: the value stored under the key, if the key is present.
#[verifier::external_body]
fn animation_map_get(m: &AnimationMap, id: usize) -> (r: Option<CarAnimation>)
    ensures
        r == (if animation_map(*m).dom().contains(id) {
            Some(animation_map(*m)[id])
        } else {
            None
        }),
{
    m.map.get(&id).copied()
}

/// `hashbrown::HashMap::into_values`, collected: the value of every key, once for each key,
/// in an order that is not specified.
#[verifier::external_body]
fn animation_map_into_values(m: AnimationMap) -> (r: Vec<CarAnimation>)
    ensures
        exists|keys: Seq<usize>| #[trigger]
            lists_values(keys, r@, animation_map(m)),
{
    m.map.into_values().collect()
}

/// The map that holds no way.
pub open spec fn no_animations() -> Map<usize, CarAnimation> {
    Map::empty()
}

/// Whether `values` lists the values of `map`, and `keys` their keys, each key once.
pub open spec fn lists_values(
    keys: Seq<usize>,
    values: Seq<CarAnimation>,
    map: Map<usize, CarAnimation>,
) -> bool {
    &&& keys.len() == values.len()
    &&& forall|i: int|
        0 <= i < keys.len() ==> map.dom().contains(#[trigger] keys[i]) && map[keys[i]]
            == values[i]
    &&& forall|k: usize| #[trigger]
        map.dom().contains(k) ==> exists|i: int| 0 <= i < keys.len() && keys[i] == k
    &&& forall|i: int, j: int| 0 <= i < j < keys.len() ==> #[trigger] keys[i] != #[trigger] keys[j]
}

/// The place of the last car of `cars` with the number `id`, if there is one.
pub open spec fn last_position(cars: Seq<CarData>, id: usize) -> Option<CarPosition>
    decreases cars.len(),
{
    if cars.len() == 0 {
        None
    } else if cars.last().id == id {
        Some(CarPosition { pos: cars.last().pos, dir: cars.last().dir })
    } else {
        last_position(cars.drop_last(), id)
    }
}

/// The way of the car with the number `id` from the round with the cars `old_cars` to the
/// round with the cars `new_cars`, if the car is among the latter.
pub open spec fn way_of(old_cars: Seq<CarData>, new_cars: Seq<CarData>, id: usize) -> Option<
    CarAnimation,
> {
    match last_position(new_cars, id) {
        Some(new_pos) => Some(CarAnimation { id, old_pos: last_position(old_cars, id), new_pos }),
        None => None,
    }
}

/// Whether `r` lists the ways of the cars of `new_cars`, one for each number, in some order.
pub open spec fn lists_ways(r: Seq<CarAnimation>, old_cars: Seq<CarData>, new_cars: Seq<CarData>) -> bool {
    &&& forall|i: int|
        0 <= i < r.len() ==> way_of(old_cars, new_cars, (#[trigger] r[i]).id) == Some(r[i])
    &&& forall|id: usize| #[trigger]
        way_of(old_cars, new_cars, id) is Some ==> exists|i: int| 0 <= i < r.len() && r[i].id == id
    &&& forall|i: int, j: int|
        0 <= i < j < r.len() ==> (#[trigger] r[i]).id != (#[trigger] r[j]).id
}

/// Whether `map` holds the ways of the cars of `new_cars` as far as the places of the cars
/// of `old_cars` have been entered.
spec fn holds_ways(map: Map<usize, CarAnimation>, old_cars: Seq<CarData>, new_cars: Seq<CarData>) -> bool {
    forall|id: usize|
        (if map.dom().contains(id) {
            Some(map[id])
        } else {
            None
        }) == #[trigger] way_of(old_cars, new_cars, id)
}

/// The ways of the cars from one round to the next: one for each car of `new`, with the
/// place that the car had among `old`, if it was there. The order is not specified.
pub fn animations(old: &[CarData], new: &[CarData]) -> (r: Vec<CarAnimation>)
    ensures
        lists_ways(r@, old@, new@),
{
    let mut cars = animation_map_new();
    let mut i: usize = 0;
    let ghost none = Seq::<CarData>::empty();
    while i < new.len()
        invariant
            i <= new@.len(),
            none.len() == 0,
            holds_ways(animation_map(cars), none, new@.take(i as int)),
        decreases new.len() - i,
    {
        let c = new[i];
        let ghost before = animation_map(cars);
        animation_map_insert(
            &mut cars,
            c.id,
            CarAnimation { id: c.id, old_pos: None, new_pos: CarPosition { pos: c.pos, dir: c.dir } },
        );
        proof {
            let now = new@.take(i + 1);
            assert(now.drop_last() =~= new@.take(i as int));
            assert(now.last() == c);
            assert forall|id: usize|
                (if animation_map(cars).dom().contains(id) {
                    Some(animation_map(cars)[id])
                } else {
                    None
                }) == #[trigger] way_of(none, now, id) by {
                assert((if before.dom().contains(id) {
                    Some(before[id])
                } else {
                    None
                }) == way_of(none, new@.take(i as int), id));
            }
        }
        i += 1;
    }
    proof {
        assert(new@.take(new@.len() as int) =~= new@);
        assert(old@.take(0) =~= none);
    }
    let mut k: usize = 0;
    while k < old.len()
        invariant
            k <= old@.len(),
            holds_ways(animation_map(cars), old@.take(k as int), new@),
        decreases old.len() - k,
    {
        let c = old[k];
        let ghost before = animation_map(cars);
        if let Some(p) = animation_map_get(&cars, c.id) {
            animation_map_insert(
                &mut cars,
                c.id,
                CarAnimation { old_pos: Some(CarPosition { pos: c.pos, dir: c.dir }), ..p },
            );
        }
        proof {
            let now = old@.take(k + 1);
            assert(now.drop_last() =~= old@.take(k as int));
            assert(now.last() == c);
            assert forall|id: usize|
                (if animation_map(cars).dom().contains(id) {
                    Some(animation_map(cars)[id])
                } else {
                    None
                }) == #[trigger] way_of(now, new@, id) by {
                assert((if before.dom().contains(id) {
                    Some(before[id])
                } else {
                    None
                }) == way_of(old@.take(k as int), new@, id));
            }
        }
        k += 1;
    }
    proof {
        assert(old@.take(old@.len() as int) =~= old@);
    }
    let ghost map = animation_map(cars);
    let r = animation_map_into_values(cars);
    proof {
        let keys = choose|keys: Seq<usize>| #[trigger] lists_values(keys, r@, map);
        assert forall|i: int| 0 <= i < r@.len() implies way_of(old@, new@, (#[trigger] r@[i]).id)
            == Some(r@[i]) by {
            assert(map.dom().contains(keys[i]));
            assert(way_of(old@, new@, keys[i]) == Some(map[keys[i]]));
        }
        assert forall|id: usize| #[trigger] way_of(old@, new@, id) is Some implies exists|i: int|
            0 <= i < r@.len() && r@[i].id == id by {
            assert(map.dom().contains(id));
            let i = choose|i: int| 0 <= i < keys.len() && keys[i] == id;
            assert(way_of(old@, new@, keys[i]) == Some(map[keys[i]]));
            assert(r@[i].id == id);
        }
        assert forall|i: int, j: int| 0 <= i < j < r@.len() implies (#[trigger] r@[i]).id != (
        #[trigger] r@[j]).id by {
            assert(way_of(old@, new@, keys[i]) == Some(map[keys[i]]));
            assert(way_of(old@, new@, keys[j]) == Some(map[keys[j]]));
        }
    }
    r
}

} // verus!
