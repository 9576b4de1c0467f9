//! The record of a race: the cars after each round, the finishing order, the crashes, and
//! whether the race has started to repeat itself.

use crate::simulator::{CarData, EventView, SimEvent};
use vstd::multiset::Multiset;
use vstd::prelude::*;

verus! {

#[verifier::external_type_specification]
#[verifier::external_body]
pub struct ExDefaultHashBuilder(hashbrown::DefaultHashBuilder);

/// An index from hash values to round numbers.
#[verifier::external_body]
pub struct RoundIndex {
    table: hashbrown::HashTable<usize>,
}

/// What a round index holds: the round numbers, each with the hash value under which it was
/// entered.
pub uninterp spec fn index_entries(index: RoundIndex) -> Multiset<(u64, usize)>;

/// `hashbrown::HashTable::new`: a table that holds nothing.
#[verifier::external_body]
fn index_new() -> (r: RoundIndex)
    ensures
        index_entries(r) == Multiset::<(u64, usize)>::empty(),
{
    RoundIndex { table: hashbrown::HashTable::new() }
}

/// `hashbrown::HashTable::find` with `same_state` as the test: an entry that passes the
/// test if the result is `Some`; if it is `None`, no entry under `hash` passes it.
#[verifier::external_body]
fn index_find(index: &RoundIndex, hash: u64, data: &Vec<Vec<CarData>>, round: usize) -> (r: Option<
    usize,
>)
    requires
        round < data@.len(),
        forall|h: u64, n: usize| #[trigger] index_entries(*index).contains((h, n)) ==> n < data@.len(),
    ensures
        r matches Some(n) ==> n < data@.len() && spec_same_state(data@, n as int, round as int),
        r matches Some(n) ==> exists|h: u64| #[trigger] index_entries(*index).contains((h, n)),
        r is None ==> forall|n: usize| #[trigger]
            index_entries(*index).contains((hash, n)) ==> !spec_same_state(
                data@,
                n as int,
                round as int,
            ),
{
    index.table.find(hash, |n| same_state(data, *n, round)).copied()
}

/// `hashbrown::HashTable::insert_unique` with `stored_hash` to give each entry's hash value
/// again: enters the round number under the hash value and leaves the other entries alone.
#[verifier::external_body]
fn index_insert_unique(index: &mut RoundIndex, hash: u64, round: usize, hashes: &Vec<u64>)
    requires
        forall|h: u64, n: usize| #[trigger]
            index_entries(*old(index)).contains((h, n)) ==> n < hashes@.len() && hashes@[n as int]
                == h,
    ensures
        index_entries(*final(index)) == index_entries(*old(index)).insert((hash, round)),
{
    index.table.insert_unique(hash, round, |n| stored_hash(hashes, *n));
}

/// `BuildHasher::hash_one` of `hashbrown::DefaultHashBuilder` on a round's parity and cars:
/// some hash value, which depends on how the builder was seeded.
#[verifier::external_body]
fn hash_state(builder: &hashbrown::DefaultHashBuilder, odd: bool, cars: &Vec<CarData>) -> (r: u64) {
    core::hash::BuildHasher::hash_one(builder, (odd, cars))
}

/// `Default::default` of `hashbrown::DefaultHashBuilder`: a hash builder with a seed of its
/// own.
#[verifier::external_body]
fn hash_builder_new() -> (r: hashbrown::DefaultHashBuilder) {
    hashbrown::DefaultHashBuilder::default()
}

/// Whether the rounds `a` and `b` have the same state: the same cars in the same order,
/// and numbers of the same parity, so that the lights show the same phase.
pub open spec fn spec_same_state(data: Seq<Vec<CarData>>, a: int, b: int) -> bool {
    a % 2 == b % 2 && data[a]@ == data[b]@
}

/// Whether the rounds `a` and `b` have the same state.
fn same_state(data: &Vec<Vec<CarData>>, a: usize, b: usize) -> (r: bool)
    requires
        a < data@.len(),
        b < data@.len(),
    ensures
        r == spec_same_state(data@, a as int, b as int),
{
    if a % 2 != b % 2 {
        return false;
    }
    let x = &data[a];
    let y = &data[b];
    if x.len() != y.len() {
        return false;
    }
    let mut i: usize = 0;
    while i < x.len()
        invariant
            i <= x@.len(),
            x@.len() == y@.len(),
            *x == data@[a as int],
            *y == data@[b as int],
            a % 2 == b % 2,
            forall|j: int| 0 <= j < i ==> x@[j] == y@[j],
        decreases x.len() - i,
    {
        if x[i] != y[i] {
            return false;
        }
        i += 1;
    }
    assert(x@ =~= y@);
    true
}

/// The hash value under which the round `n` was entered.
fn stored_hash(hashes: &Vec<u64>, n: usize) -> (r: u64)
    requires
        n < hashes@.len(),
    ensures
        r == hashes@[n as int],
{
    hashes[n]
}

/// The entries of an index that holds the rounds 0 to `hashes.len() - 1`, each under its
/// hash value.
pub open spec fn indexed(hashes: Seq<u64>) -> Multiset<(u64, usize)>
    decreases hashes.len(),
{
    if hashes.len() == 0 {
        Multiset::empty()
    } else {
        indexed(hashes.drop_last()).insert((hashes.last(), (hashes.len() - 1) as usize))
    }
}

/// The entries of `indexed` are the rounds with their hash values.
proof fn lemma_indexed(hashes: Seq<u64>, h: u64, n: usize)
    requires
        hashes.len() <= usize::MAX,
    ensures
        indexed(hashes).contains((h, n)) <==> (n < hashes.len() && hashes[n as int] == h),
    decreases hashes.len(),
{
    if hashes.len() > 0 {
        lemma_indexed(hashes.drop_last(), h, n);
    }
}

/// The states of the rounds with a hash index for finding an earlier round of the same
/// state.
struct CarDataLookup {
    data: Vec<Vec<CarData>>,
    hashes: Vec<u64>,
    table: RoundIndex,
    builder: hashbrown::DefaultHashBuilder,
}

impl CarDataLookup {
    spec fn wf(self) -> bool {
        &&& self.hashes@.len() == self.data@.len()
        &&& index_entries(self.table) == indexed(self.hashes@)
    }

    fn new() -> (r: CarDataLookup)
        ensures
            r.wf(),
            r.data@.len() == 0,
    {
        CarDataLookup {
            data: Vec::new(),
            hashes: Vec::new(),
            table: index_new(),
            builder: hash_builder_new(),
        }
    }

    fn hash_for(&self, odd: bool, item: &Vec<CarData>) -> (r: u64) {
        hash_state(&self.builder, odd, item)
    }

    /// Adds the state `item` of the next round, entered under `hash`. Returns whether an
    /// earlier round was found to have the same state: one is found if there is one that
    /// was entered under `hash`.
    fn add_hashed(&mut self, item: Vec<CarData>, hash: u64) -> (found: bool)
        requires
            old(self).wf(),
        ensures
            final(self).wf(),
            final(self).data@ == old(self).data@.push(item),
            final(self).hashes@ == old(self).hashes@.push(hash),
            found ==> repeats(final(self).data@),
            repeats_under(final(self).data@, final(self).hashes@) ==> found,
    {
        let round = self.data.len();
        self.data.push(item);
        proof {
            assert forall|h: u64, n: usize| #[trigger]
                index_entries(self.table).contains((h, n)) implies n < self.data@.len()
                && n < self.hashes@.len() && self.hashes@[n as int] == h by {
                lemma_indexed(self.hashes@, h, n);
            }
        }
        let found = index_find(&self.table, hash, &self.data, round);
        index_insert_unique(&mut self.table, hash, round, &self.hashes);
        self.hashes.push(hash);
        proof {
            assert(self.hashes@.drop_last() =~= old(self).hashes@);
            let data = self.data@;
            let hashes = self.hashes@;
            match found {
                Some(n) => {
                    let h = choose|h: u64| #[trigger] index_entries(old(self).table).contains((h, n));
                    lemma_indexed(old(self).hashes@, h, n);
                    assert(is_repeat_of(data, n as int));
                    assert(!repeats_under(data, hashes) || found is Some);
                },
                None => {
                    assert forall|m: int| 0 <= m < data.len() - 1 && hashes[m] == hashes.last() implies !is_repeat_of(
                        data,
                        m,
                    ) by {
                        lemma_indexed(old(self).hashes@, hash, m as usize);
                        assert(index_entries(old(self).table).contains((hash, m as usize)));
                    }
                },
            }
        }
        found.is_some()
    }

    /// Adds the state `item` of the next round. Returns whether an earlier round was found
    /// to have the same state.
    fn add(&mut self, item: Vec<CarData>) -> (found: bool)
        requires
            old(self).wf(),
        ensures
            final(self).wf(),
            final(self).data@ == old(self).data@.push(item),
            final(self).hashes@.drop_last() == old(self).hashes@,
            found ==> repeats(final(self).data@),
            repeats_under(final(self).data@, final(self).hashes@) ==> found,
    {
        let hash = self.hash_for(self.data.len() % 2 != 0, &item);
        let found = self.add_hashed(item, hash);
        assert(self.hashes@.drop_last() =~= old(self).hashes@);
        found
    }

    fn values(&self) -> (r: &Vec<Vec<CarData>>)
        ensures
            r == self.data,
    {
        &self.data
    }
}

/// Whether the last round of `data` has the same state as the earlier round `m`.
pub open spec fn is_repeat_of(data: Seq<Vec<CarData>>, m: int) -> bool {
    0 <= m < data.len() - 1 && spec_same_state(data, m, data.len() - 1)
}

/// Whether the last round of `data` has the same state as an earlier round.
pub open spec fn repeats(data: Seq<Vec<CarData>>) -> bool {
    exists|m: int| #[trigger] is_repeat_of(data, m)
}

/// Whether the last round of `data` has the same state as an earlier round with the same
/// hash value.
pub open spec fn repeats_under(data: Seq<Vec<CarData>>, hashes: Seq<u64>) -> bool {
    exists|m: int| #[trigger] is_repeat_of(data, m) && hashes[m] == hashes.last()
}

/// The views of the rounds, in order.
pub open spec fn round_views(data: Seq<Vec<CarData>>) -> Seq<Seq<CarData>> {
    Seq::new(data.len(), |i: int| data[i]@)
}

/// The record of a race.
pub struct Tracker {
    round_data: CarDataLookup,
    finished: Vec<usize>,
    crashed: Vec<bool>,
    loop_detected: bool,
}

/// A `Tracker` as mathematics.
pub struct TrackerView {
    /// The cars after each round, starting with the empty course before the first.
    pub rounds: Seq<Seq<CarData>>,
    /// The hash value of each round's state.
    pub hashes: Seq<u64>,
    /// The numbers of the cars that have finished, in the order in which they did.
    pub finished: Seq<usize>,
    /// For each car, by its number, whether it has crashed.
    pub crashed: Seq<bool>,
    /// Whether a round was found to have the same state as an earlier one.
    pub loop_detected: bool,
}

/// Whether round `n` of `rounds` has the same state as the earlier round `m`: the same cars
/// in the same order, and a number of the same parity.
pub open spec fn same_round_state(rounds: Seq<Seq<CarData>>, m: int, n: int) -> bool {
    0 <= m < n < rounds.len() && m % 2 == n % 2 && rounds[m] == rounds[n]
}

/// Whether the last round of `rounds` has the same state as an earlier one.
pub open spec fn repeats_last(rounds: Seq<Seq<CarData>>) -> bool {
    exists|m: int| #[trigger] same_round_state(rounds, m, rounds.len() - 1)
}

/// Whether the last round of `rounds` has the same state and the same hash value as an
/// earlier one.
pub open spec fn repeats_last_under(rounds: Seq<Seq<CarData>>, hashes: Seq<u64>) -> bool {
    exists|m: int| #[trigger]
        same_round_state(rounds, m, rounds.len() - 1) && hashes[m] == hashes[rounds.len() - 1]
}

/// Whether some round of `rounds` has the same state as an earlier one: from then on the
/// race repeats itself, round for round.
pub open spec fn has_loop(rounds: Seq<Seq<CarData>>) -> bool {
    exists|m: int, n: int| #[trigger] same_round_state(rounds, m, n)
}

/// Whether some round of `rounds` has the same state and the same hash value as an earlier
/// one.
pub open spec fn has_hashed_loop(rounds: Seq<Seq<CarData>>, hashes: Seq<u64>) -> bool {
    exists|m: int, n: int| #[trigger] same_round_state(rounds, m, n) && hashes[m] == hashes[n]
}

/// What `crashed` says after the race is over: a car has crashed if it has not finished.
pub open spec fn not_finishing(num_cars: usize, finished: Seq<usize>) -> Seq<bool> {
    Seq::new(num_cars as nat, |i: int| !finished.contains(i as usize))
}

/// For each of `num_cars` cars, by its number, whether it is not among `finished`.
pub fn compute_not_finishing(num_cars: usize, finished: &Vec<usize>) -> (r: Vec<bool>)
    requires
        forall|k: int| 0 <= k < finished@.len() ==> finished@[k] < num_cars,
    ensures
        r@ == not_finishing(num_cars, finished@),
{
    let mut unseen: Vec<bool> = Vec::new();
    let mut i: usize = 0;
    while i < num_cars
        invariant
            i <= num_cars,
            unseen@.len() == i,
            forall|j: int| 0 <= j < i ==> unseen@[j],
        decreases num_cars - i,
    {
        unseen.push(true);
        i += 1;
    }
    let mut k: usize = 0;
    while k < finished.len()
        invariant
            k <= finished@.len(),
            unseen@.len() == num_cars,
            forall|j: int| 0 <= j < finished@.len() ==> finished@[j] < num_cars,
            forall|i: int|
                0 <= i < num_cars ==> unseen@[i] == !finished@.take(k as int).contains(i as usize),
        decreases finished.len() - k,
    {
        let n = finished[k];
        unseen[n] = false;
        proof {
            let before = finished@.take(k as int);
            let now = finished@.take(k + 1);
            assert(now =~= before.push(n));
            assert forall|i: int| 0 <= i < num_cars implies unseen@[i] == !now.contains(
                i as usize,
            ) by {
                if before.contains(i as usize) {
                    let j = choose|j: int| 0 <= j < before.len() && before[j] == i as usize;
                    assert(now[j] == i as usize);
                }
                if i == n {
                    assert(now[k as int] == n);
                }
            }
        }
        k += 1;
    }
    proof {
        assert(finished@.take(finished@.len() as int) =~= finished@);
        assert(unseen@ =~= not_finishing(num_cars, finished@));
    }
    unseen
}

impl View for Tracker {
    type V = TrackerView;

    closed spec fn view(&self) -> TrackerView {
        TrackerView {
            rounds: round_views(self.round_data.data@),
            hashes: self.round_data.hashes@,
            finished: self.finished@,
            crashed: self.crashed@,
            loop_detected: self.loop_detected,
        }
    }
}

impl TrackerView {
    /// Whether the state is one that a tracker can be in: each round has a hash value, and a
    /// loop was detected only if there is one, and was detected if there is one that the
    /// hash values show.
    pub open spec fn wf(self) -> bool {
        &&& self.hashes.len() == self.rounds.len()
        &&& self.rounds.len() >= 1
        &&& self.loop_detected ==> has_loop(self.rounds)
        &&& has_hashed_loop(self.rounds, self.hashes) ==> self.loop_detected
    }

    /// The state after the event `ev`. A round is added to the rounds; a finished car is
    /// added to the finishing order; a crashed car is marked.
    pub open spec fn after_event(self, ev: EventView, hash: u64, found: bool) -> TrackerView {
        match ev {
            EventView::Round(cars) => TrackerView {
                rounds: self.rounds.push(cars),
                hashes: self.hashes.push(hash),
                loop_detected: self.loop_detected || found,
                ..self
            },
            EventView::Finished(car) => TrackerView { finished: self.finished.push(car), ..self },
            EventView::Crashed(car) => TrackerView {
                crashed: self.crashed.update(car as int, true),
                ..self
            },
        }
    }
}

impl Tracker {
    /// Whether the tracker is valid: its index holds its rounds.
    pub closed spec fn wf(self) -> bool {
        &&& self.round_data.wf()
        &&& self@.wf()
    }

    /// The record of a valid tracker is one that a tracker can be in: a loop was detected
    /// only if there is one, and was detected if there is one that the hash values show.
    pub proof fn lemma_wf(self)
        requires
            self.wf(),
        ensures
            self@.wf(),
    {
    }

    /// A tracker for a race of `num_cars` cars: the course is empty before the first round,
    /// and no car has finished or crashed.
    pub fn new(num_cars: usize) -> (r: Tracker)
        ensures
            r.wf(),
            r@.wf(),
            r@.rounds == seq![Seq::<CarData>::empty()],
            r@.finished.len() == 0,
            r@.crashed == Seq::new(num_cars as nat, |i: int| false),
            !r@.loop_detected,
    {
        let mut round_data = CarDataLookup::new();
        let found = round_data.add(Vec::new());
        proof {
            if found {
                let m = choose|m: int| #[trigger] is_repeat_of(round_data.data@, m);
            }
        }
        let mut crashed: Vec<bool> = Vec::new();
        let mut i: usize = 0;
        while i < num_cars
            invariant
                i <= num_cars,
                crashed@.len() == i,
                forall|j: int| 0 <= j < i ==> !crashed@[j],
            decreases num_cars - i,
        {
            crashed.push(false);
            i += 1;
        }
        let r = Tracker { round_data, finished: Vec::new(), crashed, loop_detected: false };
        proof {
            assert(r@.rounds =~= seq![Seq::<CarData>::empty()]);
            assert(r@.crashed =~= Seq::new(num_cars as nat, |i: int| false));
            assert forall|m: int, n: int| !(#[trigger] same_round_state(r@.rounds, m, n)) by {}
        }
        r
    }

    /// The numbers of the cars that have finished, in the order in which they did.
    pub fn get_finishes(&self) -> (r: &Vec<usize>)
        ensures
            r@ == self@.finished,
    {
        &self.finished
    }

    /// For each car, by its number, whether it has crashed.
    pub fn get_crashes(&self) -> (r: &Vec<bool>)
        ensures
            r@ == self@.crashed,
    {
        &self.crashed
    }

    /// Ends the race for `num_cars` cars: every car that has not finished counts as crashed.
    pub fn compute_final_crashes(&mut self, num_cars: usize)
        requires
            forall|k: int|
                0 <= k < old(self)@.finished.len() ==> old(self)@.finished[k] < num_cars,
        ensures
            final(self)@ == (TrackerView {
                crashed: not_finishing(num_cars, old(self)@.finished),
                ..old(self)@
            }),
            old(self).wf() ==> final(self).wf(),
    {
        self.crashed = compute_not_finishing(num_cars, &self.finished);
    }

    /// The cars after each round, starting with the empty course before the first.
    pub fn get_cars(&self) -> (r: &Vec<Vec<CarData>>)
        ensures
            round_views(r@) == self@.rounds,
    {
        self.round_data.values()
    }

    /// Takes note of an event of the simulator.
    pub fn process_event(&mut self, ev: SimEvent)
        requires
            old(self).wf(),
            ev matches SimEvent::Crashed(car) ==> car < old(self)@.crashed.len(),
        ensures
            final(self).wf(),
            final(self)@.wf(),
            exists|hash: u64, found: bool| #[trigger]
                final(self)@ == old(self)@.after_event(ev@, hash, found),
    {
        match ev {
            SimEvent::Round(cars) => {
                self.add_round(cars);
                assert(self@.hashes =~= self@.hashes.drop_last().push(self@.hashes.last()));
                assert(self@ == old(self)@.after_event(
                    ev@,
                    self@.hashes.last(),
                    self@.loop_detected && !old(self)@.loop_detected,
                ));
            },
            SimEvent::Finished(car) => {
                self.finished.push(car);
                assert(self@ == old(self)@.after_event(ev@, 0, false));
            },
            SimEvent::Crashed(car) => {
                self.crashed[car] = true;
                assert(self@ == old(self)@.after_event(ev@, 0, false));
            },
        }
    }

    /// Adds the cars after the next round, and looks for an earlier round with the same
    /// state.
    pub fn add_round(&mut self, round: Vec<CarData>)
        requires
            old(self).wf(),
        ensures
            final(self).wf(),
            final(self)@.wf(),
            final(self)@.rounds == old(self)@.rounds.push(round@),
            final(self)@.hashes.drop_last() == old(self)@.hashes,
            final(self)@.finished == old(self)@.finished,
            final(self)@.crashed == old(self)@.crashed,
            old(self)@.loop_detected ==> final(self)@.loop_detected,
            final(self)@.loop_detected ==> old(self)@.loop_detected || repeats_last(
                final(self)@.rounds,
            ),
            repeats_last_under(final(self)@.rounds, final(self)@.hashes)
                ==> final(self)@.loop_detected,
    {
        let hash = self.round_data.hash_for(self.round_data.data.len() % 2 != 0, &round);
        self.add_round_hashed(round, hash);
        assert(self@.hashes.drop_last() =~= old(self)@.hashes);
    }

    /// Adds the cars after the next round, entered under the hash value `hash`, and looks
    /// for an earlier round with the same state. One is found if there is one that was
    /// entered under the same hash value; none is found if there is none at all.
    pub fn add_round_hashed(&mut self, round: Vec<CarData>, hash: u64)
        requires
            old(self).wf(),
        ensures
            final(self).wf(),
            final(self)@.wf(),
            final(self)@.rounds == old(self)@.rounds.push(round@),
            final(self)@.hashes == old(self)@.hashes.push(hash),
            final(self)@.finished == old(self)@.finished,
            final(self)@.crashed == old(self)@.crashed,
            old(self)@.loop_detected ==> final(self)@.loop_detected,
            final(self)@.loop_detected ==> old(self)@.loop_detected || repeats_last(
                final(self)@.rounds,
            ),
            repeats_last_under(final(self)@.rounds, final(self)@.hashes)
                ==> final(self)@.loop_detected,
    {
        let ghost before = self@;
        let found = self.round_data.add_hashed(round, hash);
        self.loop_detected = self.loop_detected || found;
        proof {
            let data = self.round_data.data@;
            let now = self@;
            let n = data.len() - 1;
            assert(now.rounds =~= before.rounds.push(round@));
            assert forall|a: int, b: int| #[trigger]
                same_round_state(before.rounds, a, b) implies same_round_state(now.rounds, a, b) by {}
            if before.loop_detected {
                let (a, b) = choose|a: int, b: int| #[trigger] same_round_state(before.rounds, a, b);
                assert(same_round_state(now.rounds, a, b));
            }
            if found {
                let m = choose|m: int| #[trigger] is_repeat_of(data, m);
                assert(same_round_state(now.rounds, m, n));
            }
            if has_hashed_loop(now.rounds, now.hashes) {
                let (a, b) = choose|a: int, b: int| #[trigger]
                    same_round_state(now.rounds, a, b) && now.hashes[a] == now.hashes[b];
                if b < n {
                    assert(same_round_state(before.rounds, a, b));
                    assert(before.hashes[a] == before.hashes[b]);
                } else {
                    assert(data[a]@ == now.rounds[a]);
                    assert(data[n]@ == now.rounds[n]);
                    assert(is_repeat_of(data, a) && now.hashes[a] == now.hashes.last());
                }
            }
            if repeats_last_under(now.rounds, now.hashes) {
                let m = choose|m: int| #[trigger]
                    same_round_state(now.rounds, m, now.rounds.len() - 1) && now.hashes[m]
                        == now.hashes[now.rounds.len() - 1];
                assert(data[m]@ == now.rounds[m]);
                assert(data[n]@ == now.rounds[n]);
                assert(is_repeat_of(data, m) && now.hashes[m] == now.hashes.last());
            }
        }
    }

    /// The number of rounds recorded, the empty course before the first among them.
    pub fn rounds_available(&self) -> (r: usize)
        ensures
            r == self@.rounds.len(),
    {
        self.get_cars().len()
    }

    /// Whether a round was found to have the same state as an earlier one, which means that
    /// the race goes on for ever.
    pub fn is_loop_detected(&self) -> (r: bool)
        ensures
            r == self@.loop_detected,
    {
        self.loop_detected
    }
}

} // verus!
