//! What a level asks for: the number of cars, the finishing order, and the banned tiles.

use crate::tile::TileType;
use vstd::prelude::*;

verus! {

/// The set of tile types that a level does not allow.
#[derive(Copy, Clone, Debug)]
pub struct BannedTiles {
    flags: [bool; 8],
}

impl View for BannedTiles {
    type V = Set<TileType>;

    closed spec fn view(&self) -> Set<TileType> {
        Set::new(|t: TileType| self.flags@[t.index()])
    }
}

impl BannedTiles {
    /// The empty set: every tile type is allowed.
    pub fn new() -> (r: BannedTiles)
        ensures
            r@ == Set::<TileType>::empty(),
    {
        let r = BannedTiles { flags: [false; 8] };
        assert(r@ =~= Set::<TileType>::empty());
        r
    }

    /// Adds `t` to the set.
    pub fn ban(&mut self, t: TileType)
        ensures
            final(self)@ == old(self)@.insert(t),
    {
        self.flags[t.repr()] = true;
        assert(self@ =~= old(self)@.insert(t));
    }

    /// Whether `t` is in the set.
    pub fn is_banned(&self, t: TileType) -> (r: bool)
        ensures
            r == self@.contains(t),
    {
        self.flags[t.repr()]
    }

    /// The set of the types in `list`.
    pub fn from_list(list: &Vec<TileType>) -> (r: BannedTiles)
        ensures
            r@ == list@.to_set(),
    {
        let mut r = BannedTiles::new();
        let mut i: usize = 0;
        while i < list.len()
            invariant
                i <= list.len(),
                forall|t: TileType|
                    r@.contains(t) <==> exists|j: int| 0 <= j < i && list@[j] == t,
            decreases list.len() - i,
        {
            let ghost before = r@;
            r.ban(list[i]);
            assert forall|t: TileType|
                r@.contains(t) <==> exists|j: int| 0 <= j < i + 1 && list@[j] == t by {
                if before.contains(t) {
                    let j = choose|j: int| 0 <= j < i && list@[j] == t;
                    assert(0 <= j < i + 1 && list@[j] == t);
                }
                if t == list@[i as int] {
                    assert(0 <= i < i + 1 && list@[i as int] == t);
                }
            }
            i += 1;
        }
        assert(r@ =~= list@.to_set()) by {
            assert forall|t: TileType| r@.contains(t) == list@.to_set().contains(t) by {
                if list@.contains(t) {
                    let j = choose|j: int| 0 <= j < list@.len() && list@[j] == t;
                    assert(0 <= j < i && list@[j] == t);
                }
            }
        }
        r
    }
}

impl Default for BannedTiles {
    fn default() -> (r: BannedTiles)
        ensures
            r@ == Set::<TileType>::empty(),
    {
        BannedTiles::new()
    }
}

/// A level: the puzzle that a course has to solve.
#[derive(Clone, Debug)]
pub struct LevelData {
    pub name: String,
    /// The number of cars that start.
    pub cars: usize,
    /// The car numbers in the order in which they must finish.
    pub finish: Vec<usize>,
    /// The number of the tutorial shown with the level, if any.
    pub tutorial: Option<usize>,
    pub banned: BannedTiles,
}

/// How good a solution is: the number of tiles placed and the number of rounds taken.
#[derive(Copy, Clone, Debug)]
pub struct SolveData {
    pub tiles: usize,
    pub turns: usize,
}

/// The smaller of two numbers.
pub open spec fn min_of(a: usize, b: usize) -> usize {
    if a <= b {
        a
    } else {
        b
    }
}

impl SolveData {
    pub open spec fn spec_combine(self, other: SolveData) -> SolveData {
        SolveData { tiles: min_of(self.tiles, other.tiles), turns: min_of(self.turns, other.turns) }
    }

    /// The best of two records: the smaller count of each kind.
    pub fn combine(&self, other: &SolveData) -> (r: SolveData)
        ensures
            r == self.spec_combine(*other),
    {
        SolveData {
            tiles: if self.tiles <= other.tiles {
                self.tiles
            } else {
                other.tiles
            },
            turns: if self.turns <= other.turns {
                self.turns
            } else {
                other.turns
            },
        }
    }

    /// `combine` with the other record if there is one, else the record itself.
    pub fn combine_option(&self, other: &Option<SolveData>) -> (r: SolveData)
        ensures
            r == (match *other {
                Some(d) => self.spec_combine(d),
                None => *self,
            }),
    {
        match other {
            Some(d) => self.combine(d),
            None => *self,
        }
    }
}

} // verus!
