//! Grid coordinates and the course: the persistent map from grid cell to tile.

use crate::direction::{DihedralElement, Direction};
use crate::tile::{Tile, TileType};
use core::ops::RangeInclusive;
use vstd::prelude::*;

verus! {

/// Whether `v` can be held in an `isize`.
pub open spec fn fits_isize(v: int) -> bool {
    isize::MIN <= v <= isize::MAX
}

/// A cell of the tile grid, as `(x, y)` with `y` growing downwards.
#[derive(Copy, Clone, PartialEq, Eq, Structural, Debug, Hash)]
pub struct TileCoord(pub isize, pub isize);

impl TileCoord {
    /// The cell one step away in direction `d`, as a pair of unbounded integers.
    pub open spec fn step(self, d: Direction) -> (int, int) {
        (self.0 + d.spec_dx(), self.1 + d.spec_dy())
    }

    /// The cell one step away against direction `d`, as a pair of unbounded integers.
    pub open spec fn step_back(self, d: Direction) -> (int, int) {
        (self.0 - d.spec_dx(), self.1 - d.spec_dy())
    }

    /// Whether the pair of unbounded integers `p` is this cell.
    pub open spec fn is_at(self, p: (int, int)) -> bool {
        self.0 == p.0 && self.1 == p.1
    }
}

impl core::ops::Add<Direction> for TileCoord {
    type Output = TileCoord;

    fn add(self, rhs: Direction) -> (r: TileCoord) {
        TileCoord(self.0 + rhs.dx(), self.1 + rhs.dy())
    }
}

impl vstd::std_specs::ops::AddSpecImpl<Direction> for TileCoord {
    open spec fn obeys_add_spec() -> bool {
        true
    }

    open spec fn add_req(self, rhs: Direction) -> bool {
        fits_isize(self.0 + rhs.spec_dx()) && fits_isize(self.1 + rhs.spec_dy())
    }

    open spec fn add_spec(self, rhs: Direction) -> TileCoord {
        TileCoord((self.0 + rhs.spec_dx()) as isize, (self.1 + rhs.spec_dy()) as isize)
    }
}

impl core::ops::Sub<Direction> for TileCoord {
    type Output = TileCoord;

    fn sub(self, rhs: Direction) -> (r: TileCoord) {
        TileCoord(self.0 - rhs.dx(), self.1 - rhs.dy())
    }
}

impl vstd::std_specs::ops::SubSpecImpl<Direction> for TileCoord {
    open spec fn obeys_sub_spec() -> bool {
        true
    }

    open spec fn sub_req(self, rhs: Direction) -> bool {
        fits_isize(self.0 - rhs.spec_dx()) && fits_isize(self.1 - rhs.spec_dy())
    }

    open spec fn sub_spec(self, rhs: Direction) -> TileCoord {
        TileCoord((self.0 - rhs.spec_dx()) as isize, (self.1 - rhs.spec_dy()) as isize)
    }
}

impl core::ops::Sub<TileCoord> for TileCoord {
    type Output = TileCoord;

    fn sub(self, rhs: TileCoord) -> (r: TileCoord) {
        TileCoord(self.0 - rhs.0, self.1 - rhs.1)
    }
}

impl vstd::std_specs::ops::SubSpecImpl<TileCoord> for TileCoord {
    open spec fn obeys_sub_spec() -> bool {
        true
    }

    open spec fn sub_req(self, rhs: TileCoord) -> bool {
        fits_isize(self.0 - rhs.0) && fits_isize(self.1 - rhs.1)
    }

    open spec fn sub_spec(self, rhs: TileCoord) -> TileCoord {
        TileCoord((self.0 - rhs.0) as isize, (self.1 - rhs.1) as isize)
    }
}

impl core::ops::Add<TileCoord> for TileCoord {
    type Output = TileCoord;

    fn add(self, rhs: TileCoord) -> (r: TileCoord) {
        TileCoord(self.0 + rhs.0, self.1 + rhs.1)
    }
}

impl vstd::std_specs::ops::AddSpecImpl<TileCoord> for TileCoord {
    open spec fn obeys_add_spec() -> bool {
        true
    }

    open spec fn add_req(self, rhs: TileCoord) -> bool {
        fits_isize(self.0 + rhs.0) && fits_isize(self.1 + rhs.1)
    }

    open spec fn add_spec(self, rhs: TileCoord) -> TileCoord {
        TileCoord((self.0 + rhs.0) as isize, (self.1 + rhs.1) as isize)
    }
}

impl core::ops::Neg for TileCoord {
    type Output = TileCoord;

    fn neg(self) -> (r: TileCoord) {
        TileCoord(-self.0, -self.1)
    }
}

impl vstd::std_specs::ops::NegSpecImpl for TileCoord {
    open spec fn obeys_neg_spec() -> bool {
        true
    }

    open spec fn neg_req(self) -> bool {
        self.0 > isize::MIN && self.1 > isize::MIN
    }

    open spec fn neg_spec(self) -> TileCoord {
        TileCoord((-self.0) as isize, (-self.1) as isize)
    }
}

impl core::convert::From<Direction> for TileCoord {
    fn from(value: Direction) -> (r: TileCoord) {
        TileCoord(value.dx(), value.dy())
    }
}

impl vstd::std_specs::convert::FromSpecImpl<Direction> for TileCoord {
    open spec fn obeys_from_spec() -> bool {
        true
    }

    open spec fn from_spec(value: Direction) -> TileCoord {
        TileCoord(value.spec_dx() as isize, value.spec_dy() as isize)
    }
}

/// The tiles placed on the grid: a persistent map from cell to tile, cheap to clone because
/// clones share their structure.
#[verifier::external_body]
pub struct Course {
    tiles: rpds::HashTrieMap<
        (isize, isize),
        Tile,
        archery::shared_pointer::kind::RcK,
        rustc_hash::FxBuildHasher,
    >,
}

/// What a course holds: the tile on each occupied cell.
pub uninterp spec fn course_tiles(course: Course) -> Map<TileCoord, Tile>;

/// What a course without tiles holds.
pub open spec fn empty_course() -> Map<TileCoord, Tile> {
    Map::empty()
}

impl View for Course {
    type V = Map<TileCoord, Tile>;

    open spec fn view(&self) -> Map<TileCoord, Tile> {
        course_tiles(*self)
    }
}

/// `rpds::HashTrieMap::new_with_hasher_and_ptr_kind` with the default `FxBuildHasher`: a
/// map that holds nothing.
#[verifier::external_body]
fn trie_new() -> (r: Course)
    ensures
        course_tiles(r) == empty_course(),
{
    Course { tiles: rpds::HashTrieMap::new_with_hasher_and_ptr_kind(Default::default()) }
}

/// `rpds::HashTrieMap::get`: the value stored under the key, if the key is present.
#[verifier::external_body]
fn trie_get(course: &Course, pos: TileCoord) -> (r: Option<Tile>)
    ensures
        r == (if course_tiles(*course).dom().contains(pos) {
            Some(course_tiles(*course)[pos])
        } else {
            None
        }),
{
    course.tiles.get(&(pos.0, pos.1)).copied()
}

/// `rpds::HashTrieMap::contains_key`: whether the key is present.
#[verifier::external_body]
fn trie_contains_key(course: &Course, pos: TileCoord) -> (r: bool)
    ensures
        r == course_tiles(*course).dom().contains(pos),
{
    course.tiles.contains_key(&(pos.0, pos.1))
}

/// `rpds::HashTrieMap::insert_mut`: stores the value under the key, in place of any value
/// stored there before, and leaves the other keys alone.
#[verifier::external_body]
fn trie_insert_mut(course: &mut Course, pos: TileCoord, tile: Tile)
    ensures
        course_tiles(*final(course)) == course_tiles(*old(course)).insert(pos, tile),
{
    course.tiles.insert_mut((pos.0, pos.1), tile)
}

/// `rpds::HashTrieMap::remove_mut`: takes the key out, leaves the other keys alone, and
/// returns whether the key was present.
#[verifier::external_body]
fn trie_remove_mut(course: &mut Course, pos: TileCoord) -> (r: bool)
    ensures
        course_tiles(*final(course)) == course_tiles(*old(course)).remove(pos),
        r == course_tiles(*old(course)).dom().contains(pos),
{
    course.tiles.remove_mut(&(pos.0, pos.1))
}

/// `rpds::HashTrieMap::size`: the number of keys.
#[verifier::external_body]
fn trie_size(course: &Course) -> (r: usize)
    ensures
        r == course_tiles(*course).dom().len(),
{
    course.tiles.size()
}

/// `rpds::HashTrieMap::is_empty`: whether the map holds nothing.
#[verifier::external_body]
fn trie_is_empty(course: &Course) -> (r: bool)
    ensures
        r == (course_tiles(*course) == empty_course()),
{
    course.tiles.is_empty()
}

/// `rpds::HashTrieMap::iter`, collected: every entry once, in an order that is not
/// specified.
#[verifier::external_body]
fn trie_iter(course: &Course) -> (r: Vec<(TileCoord, Tile)>)
    ensures
        forall|i: int|
            0 <= i < r@.len() ==> course_tiles(*course).dom().contains(#[trigger] r@[i].0)
                && course_tiles(*course)[r@[i].0] == r@[i].1,
        forall|pos: TileCoord| #[trigger]
            course_tiles(*course).dom().contains(pos) ==> exists|i: int|
                0 <= i < r@.len() && r@[i].0 == pos,
        forall|i: int, j: int|
            0 <= i < j < r@.len() ==> (#[trigger] r@[i]).0 != (#[trigger] r@[j]).0,
{
    course.tiles.iter().map(|(k, v)| (TileCoord(k.0, k.1), *v)).collect()
}

/// `Clone::clone` of `rpds::HashTrieMap`: a map that holds the same entries.
#[verifier::external_body]
fn trie_clone(course: &Course) -> (r: Course)
    ensures
        course_tiles(r) == course_tiles(*course),
{
    Course { tiles: course.tiles.clone() }
}

/// The map that holds the entries of `entries`, where a later entry for a cell replaces an
/// earlier one.
pub open spec fn map_of_entries(entries: Seq<(TileCoord, Tile)>) -> Map<TileCoord, Tile>
    decreases entries.len(),
{
    if entries.len() == 0 {
        Map::empty()
    } else {
        map_of_entries(entries.drop_last()).insert(entries.last().0, entries.last().1)
    }
}

/// Whether `entries` lists each entry of `map` once, in some order.
pub open spec fn lists_entries(entries: Seq<(TileCoord, Tile)>, map: Map<TileCoord, Tile>) -> bool {
    &&& forall|i: int|
        0 <= i < entries.len() ==> map.dom().contains(#[trigger] entries[i].0)
            && map[entries[i].0] == entries[i].1
    &&& forall|pos: TileCoord| #[trigger]
        map.dom().contains(pos) ==> exists|i: int| 0 <= i < entries.len() && entries[i].0 == pos
    &&& forall|i: int, j: int|
        0 <= i < j < entries.len() ==> (#[trigger] entries[i]).0 != (#[trigger] entries[j]).0
}

impl Course {
    /// The course without tiles.
    pub fn new() -> (r: Course)
        ensures
            r@ == empty_course(),
    {
        trie_new()
    }

    /// The tile on the cell `pos`, if there is one.
    pub fn get(&self, pos: &TileCoord) -> (r: Option<Tile>)
        ensures
            r == (if self@.dom().contains(*pos) {
                Some(self@[*pos])
            } else {
                None
            }),
    {
        trie_get(self, *pos)
    }

    /// Whether there is a tile on the cell `pos`.
    pub fn contains_key(&self, pos: &TileCoord) -> (r: bool)
        ensures
            r == self@.dom().contains(*pos),
    {
        trie_contains_key(self, *pos)
    }

    /// Puts `tile` on the cell `pos`, in place of any tile there.
    pub fn insert_mut(&mut self, pos: TileCoord, tile: Tile)
        ensures
            final(self)@ == old(self)@.insert(pos, tile),
    {
        trie_insert_mut(self, pos, tile)
    }

    /// Clears the cell `pos` and returns whether there was a tile on it.
    pub fn remove_mut(&mut self, pos: &TileCoord) -> (r: bool)
        ensures
            final(self)@ == old(self)@.remove(*pos),
            r == old(self)@.dom().contains(*pos),
    {
        trie_remove_mut(self, *pos)
    }

    /// The number of tiles.
    pub fn size(&self) -> (r: usize)
        ensures
            r == self@.dom().len(),
    {
        trie_size(self)
    }

    /// Whether the course has no tile.
    pub fn is_empty(&self) -> (r: bool)
        ensures
            r == (self@ == empty_course()),
    {
        trie_is_empty(self)
    }

    /// The cells and their tiles, each once, in no particular order.
    pub fn entries(&self) -> (r: Vec<(TileCoord, Tile)>)
        ensures
            lists_entries(r@, self@),
    {
        trie_iter(self)
    }

    /// The course that holds `entries`, where a later entry for a cell replaces an earlier
    /// one.
    pub fn from_entries(entries: &Vec<(TileCoord, Tile)>) -> (r: Course)
        ensures
            r@ == map_of_entries(entries@),
    {
        let mut course = Course::new();
        let mut i: usize = 0;
        while i < entries.len()
            invariant
                i <= entries.len(),
                course@ == map_of_entries(entries@.take(i as int)),
            decreases entries.len() - i,
        {
            let (pos, tile) = entries[i];
            course.insert_mut(pos, tile);
            proof {
                let next = entries@.take(i + 1);
                assert(next.drop_last() =~= entries@.take(i as int));
                assert(next.last() == entries@[i as int]);
            }
            i += 1;
        }
        proof {
            assert(entries@.take(entries@.len() as int) =~= entries@);
        }
        course
    }
}

impl Clone for Course {
    fn clone(&self) -> (r: Course)
        ensures
            r@ == self@,
    {
        trie_clone(self)
    }
}

impl Default for Course {
    fn default() -> (r: Course)
        ensures
            r@ == empty_course(),
    {
        Course::new()
    }
}

/// Whether `v` is the least of the numbers `f(0)`, ..., `f(n - 1)`, or `empty` if `n` is 0.
pub open spec fn is_least(v: int, n: int, f: spec_fn(int) -> int, empty: int) -> bool {
    if n <= 0 {
        v == empty
    } else {
        (forall|i: int| 0 <= i < n ==> v <= #[trigger] f(i)) && (exists|i: int|
            0 <= i < n && v == #[trigger] f(i))
    }
}

/// Whether `v` is the greatest of the numbers `f(0)`, ..., `f(n - 1)`, or `empty` if `n` is
/// 0.
pub open spec fn is_greatest(v: int, n: int, f: spec_fn(int) -> int, empty: int) -> bool {
    if n <= 0 {
        v == empty
    } else {
        (forall|i: int| 0 <= i < n ==> v >= #[trigger] f(i)) && (exists|i: int|
            0 <= i < n && v == #[trigger] f(i))
    }
}

/// Whether the two ranges are the smallest that hold the columns and the rows of all
/// `squares`. For no squares at all both ranges are empty: they run from `isize::MAX` to
/// `isize::MIN`.
pub open spec fn is_bounding_rect(
    squares: Seq<TileCoord>,
    xs: RangeInclusive<isize>,
    ys: RangeInclusive<isize>,
) -> bool {
    let n = squares.len() as int;
    &&& !xs@.exhausted
    &&& !ys@.exhausted
    &&& is_least(xs@.start as int, n, |i: int| squares[i].0 as int, isize::MAX as int)
    &&& is_greatest(xs@.end as int, n, |i: int| squares[i].0 as int, isize::MIN as int)
    &&& is_least(ys@.start as int, n, |i: int| squares[i].1 as int, isize::MAX as int)
    &&& is_greatest(ys@.end as int, n, |i: int| squares[i].1 as int, isize::MIN as int)
}

/// The smallest ranges of columns and of rows that hold all `squares`.
pub fn bounding_rect(squares: &[TileCoord]) -> (r: (RangeInclusive<isize>, RangeInclusive<isize>))
    ensures
        is_bounding_rect(squares@, r.0, r.1),
{
    let mut xmin = isize::MAX;
    let mut xmax = isize::MIN;
    let mut ymin = isize::MAX;
    let mut ymax = isize::MIN;
    let ghost fx = |i: int| squares@[i].0 as int;
    let ghost fy = |i: int| squares@[i].1 as int;
    let mut k: usize = 0;
    while k < squares.len()
        invariant
            k <= squares.len(),
            fx == |i: int| squares@[i].0 as int,
            fy == |i: int| squares@[i].1 as int,
            is_least(xmin as int, k as int, fx, isize::MAX as int),
            is_greatest(xmax as int, k as int, fx, isize::MIN as int),
            is_least(ymin as int, k as int, fy, isize::MAX as int),
            is_greatest(ymax as int, k as int, fy, isize::MIN as int),
        decreases squares.len() - k,
    {
        let pos = squares[k];
        let ghost (xmin0, xmax0, ymin0, ymax0) = (xmin, xmax, ymin, ymax);
        if pos.0 < xmin {
            xmin = pos.0;
        }
        if pos.0 > xmax {
            xmax = pos.0;
        }
        if pos.1 < ymin {
            ymin = pos.1;
        }
        if pos.1 > ymax {
            ymax = pos.1;
        }
        proof {
            assert(fx(k as int) == pos.0 && fy(k as int) == pos.1);
            if k > 0 {
                let ix = choose|i: int| 0 <= i < k && xmin0 == #[trigger] fx(i);
                let jx = choose|i: int| 0 <= i < k && xmax0 == #[trigger] fx(i);
                let iy = choose|i: int| 0 <= i < k && ymin0 == #[trigger] fy(i);
                let jy = choose|i: int| 0 <= i < k && ymax0 == #[trigger] fy(i);
                assert(fx(ix) == xmin0 && fx(jx) == xmax0 && fy(iy) == ymin0 && fy(jy) == ymax0);
            }
        }
        k += 1;
    }
    (RangeInclusive::new(xmin, xmax), RangeInclusive::new(ymin, ymax))
}

/// A course as the editor keeps it: the tiles, and the cell that counts as the finish
/// line.
///
/// A course under edit has at most one finish line that the editor follows: placing another
/// turns the one it followed into a straight.
pub struct CourseEditState {
    course: Course,
    finish: Option<TileCoord>,
}

/// The tile with its type changed to a straight.
pub open spec fn demoted(tile: Tile) -> Tile {
    Tile { tile_type: TileType::Straight, ..tile }
}

/// The tiles after `tile` has been put on `pos`, where `finish` was the cell of the finish
/// line before: if `tile` is a finish line and the finish line was on another cell, the
/// tile on that cell becomes a straight.
pub open spec fn tiles_after_set(
    tiles: Map<TileCoord, Tile>,
    finish: Option<TileCoord>,
    pos: TileCoord,
    tile: Tile,
) -> Map<TileCoord, Tile> {
    let placed = tiles.insert(pos, tile);
    if tile.tile_type == TileType::Finish && finish is Some && finish != Some(pos) {
        placed.insert(finish->0, demoted(placed[finish->0]))
    } else {
        placed
    }
}

/// Whether the cell `finish`, if there is one, holds a finish line.
pub open spec fn holds_finish(tiles: Map<TileCoord, Tile>, finish: Option<TileCoord>) -> bool {
    finish matches Some(f) ==> tiles.dom().contains(f) && tiles[f].tile_type == TileType::Finish
}

/// Whether the course has no finish line but on the cell `finish`.
pub open spec fn only_finish(tiles: Map<TileCoord, Tile>, finish: Option<TileCoord>) -> bool {
    forall|c: TileCoord| #[trigger]
        tiles.dom().contains(c) && tiles[c].tile_type == TileType::Finish ==> finish == Some(c)
}

/// The cell of the finish line after `tile` has been put on `pos`.
pub open spec fn finish_after_set(finish: Option<TileCoord>, pos: TileCoord, tile: Tile) -> Option<
    TileCoord,
> {
    if tile.tile_type == TileType::Finish {
        Some(pos)
    } else if finish == Some(pos) {
        None
    } else {
        finish
    }
}

impl CourseEditState {
    /// Whether the state is valid: the cell that counts as the finish line holds a finish
    /// line.
    pub closed spec fn wf(self) -> bool {
        holds_finish(self.course@, self.finish)
    }

    /// The tiles of the course.
    pub closed spec fn tiles(self) -> Map<TileCoord, Tile> {
        self.course@
    }

    /// The cell that counts as the finish line, if any.
    pub closed spec fn finish(self) -> Option<TileCoord> {
        self.finish
    }

    /// Clears the cell `pos` and returns whether anything changed.
    pub fn remove(&mut self, pos: TileCoord) -> (changed: bool)
        requires
            old(self).wf(),
        ensures
            final(self).wf(),
            changed == old(self).tiles().dom().contains(pos),
            final(self).tiles() == old(self).tiles().remove(pos),
            final(self).finish() == (if changed && old(self).finish() == Some(pos) {
                None
            } else {
                old(self).finish()
            }),
    {
        if self.course.contains_key(&pos) {
            if self.finish == Some(pos) {
                self.finish = None;
            }
            self.course.remove_mut(&pos);
            true
        } else {
            assert(self.course@.remove(pos) =~= self.course@);
            false
        }
    }

    /// Puts `tile` on the cell `pos` and returns whether anything changed. If `tile` is a
    /// finish line, its cell counts as the finish line from now on, and the finish line
    /// that was followed so far, if it lies on another cell, becomes a straight.
    pub fn set(&mut self, pos: TileCoord, tile: Tile) -> (changed: bool)
        requires
            old(self).wf(),
        ensures
            final(self).wf(),
            changed == !(old(self).tiles().dom().contains(pos) && old(self).tiles()[pos] == tile),
            changed ==> final(self).tiles() == tiles_after_set(
                old(self).tiles(),
                old(self).finish(),
                pos,
                tile,
            ),
            changed ==> final(self).finish() == finish_after_set(old(self).finish(), pos, tile),
            !changed ==> final(self).tiles() == old(self).tiles() && final(self).finish() == old(self).finish(),
    {
        let present = match self.course.get(&pos) {
            Some(t) => t == tile,
            None => false,
        };
        if present {
            false
        } else {
            self.course.insert_mut(pos, tile);
            if tile.tile_type == TileType::Finish {
                if let Some(old_finish) = self.finish {
                    if old_finish != pos {
                        let t = self.course.get(&old_finish).unwrap();
                        self.course.insert_mut(
                            old_finish,
                            Tile { tile_type: TileType::Straight, ..t },
                        );
                    }
                }
                self.finish = Some(pos);
            } else if self.finish == Some(pos) {
                self.finish = None;
            }
            true
        }
    }

    /// The state for `course`. If the course has finish lines, one of them is followed.
    pub fn from_course(course: Course) -> (r: CourseEditState)
        ensures
            r.wf(),
            r.tiles() == course@,
            r.finish() matches Some(f) ==> course@.dom().contains(f) && course@[f].tile_type
                == TileType::Finish,
            r.finish() is None ==> forall|pos: TileCoord| #[trigger]
                course@.dom().contains(pos) ==> course@[pos].tile_type != TileType::Finish,
    {
        let entries = course.entries();
        let mut finish: Option<TileCoord> = None;
        let mut i: usize = 0;
        while i < entries.len() && finish.is_none()
            invariant
                i <= entries.len(),
                lists_entries(entries@, course@),
                finish matches Some(f) ==> course@.dom().contains(f) && course@[f].tile_type
                    == TileType::Finish,
                finish is None ==> forall|j: int|
                    0 <= j < i ==> (#[trigger] entries@[j]).1.tile_type != TileType::Finish,
            decreases entries.len() - i,
        {
            let (pos, tile) = entries[i];
            if tile.tile_type == TileType::Finish {
                finish = Some(pos);
            }
            i += 1;
        }
        proof {
            if finish is None {
                assert forall|pos: TileCoord| #[trigger] course@.dom().contains(pos) implies course@[pos].tile_type
                    != TileType::Finish by {
                    let j = choose|j: int| 0 <= j < entries@.len() && entries@[j].0 == pos;
                    assert(entries@[j].1 == course@[pos]);
                }
            }
        }
        CourseEditState { finish, course }
    }

    /// Puts `tile` on the occupied cell `pos` in place of a tile of the same type; the
    /// finish line stays where it is.
    fn replace(&mut self, pos: TileCoord, tile: Tile)
        requires
            old(self).wf(),
            old(self).tiles().dom().contains(pos),
            old(self).tiles()[pos].tile_type == tile.tile_type,
        ensures
            final(self).wf(),
            final(self).tiles() == old(self).tiles().insert(pos, tile),
            final(self).finish() == old(self).finish(),
    {
        self.course.insert_mut(pos, tile);
    }

    /// The course of the state.
    pub fn course(&self) -> (r: &Course)
        ensures
            r@ == self.tiles(),
    {
        &self.course
    }

    /// The cell that counts as the finish line, if any.
    pub fn get_finish(&self) -> (r: Option<TileCoord>)
        ensures
            r == self.finish(),
    {
        self.finish
    }

    /// In a valid state there is a finish line on the cell that counts as the finish line.
    pub proof fn lemma_finish_is_occupied(self)
        requires
            self.wf(),
        ensures
            holds_finish(self.tiles(), self.finish()),
    {
    }
}

/// A course under edit keeps its one finish line. If the course has no finish line but on
/// the cell that counts as the finish line, then this is still so after a tile has been put
/// on a cell: a finish line put on another cell takes the place of the old one, which
/// becomes a straight with its transform and its phase, and a finish line put on the cell
/// of the old one stays there.
pub proof fn lemma_set_keeps_one_finish(
    tiles: Map<TileCoord, Tile>,
    finish: Option<TileCoord>,
    pos: TileCoord,
    tile: Tile,
)
    requires
        holds_finish(tiles, finish),
        only_finish(tiles, finish),
    ensures
        holds_finish(tiles_after_set(tiles, finish, pos, tile), finish_after_set(finish, pos, tile)),
        only_finish(tiles_after_set(tiles, finish, pos, tile), finish_after_set(finish, pos, tile)),
        tiles_after_set(tiles, finish, pos, tile)[pos] == tile,
        forall|c: TileCoord|
            c != pos && #[trigger] tiles.dom().contains(c) ==> tiles_after_set(
                tiles,
                finish,
                pos,
                tile,
            )[c] == (if tile.tile_type == TileType::Finish && finish == Some(c) {
                demoted(tiles[c])
            } else {
                tiles[c]
            }),
        tiles_after_set(tiles, finish, pos, tile).dom() == tiles.dom().insert(pos),
{
    let after = tiles_after_set(tiles, finish, pos, tile);
    assert(after.dom() =~= tiles.dom().insert(pos));
    assert forall|c: TileCoord| #[trigger]
        after.dom().contains(c) && after[c].tile_type == TileType::Finish implies finish_after_set(
        finish,
        pos,
        tile,
    ) == Some(c) by {
        if c != pos {
            assert(tiles.dom().contains(c));
        }
    }
}

impl Clone for CourseEditState {
    fn clone(&self) -> (r: CourseEditState)
        ensures
            r.tiles() == self.tiles(),
            r.finish() == self.finish(),
            r.wf() == self.wf(),
    {
        CourseEditState { course: self.course.clone(), finish: self.finish }
    }
}

/// A set of changes to a course under edit, made on a copy of the current state and added
/// to the history as one step by [`Transaction::commit`].
pub struct Transaction {
    state: CourseEditState,
    changed: bool,
}

impl Transaction {
    /// Whether the transaction is valid: its state is.
    pub closed spec fn wf(self) -> bool {
        self.state.wf()
    }

    /// The state that the changes have led to.
    pub closed spec fn state(self) -> CourseEditState {
        self.state
    }

    /// Whether any change was made.
    pub closed spec fn changed(self) -> bool {
        self.changed
    }

    /// The course as changed so far.
    pub fn course(&self) -> (r: &Course)
        ensures
            r@ == self.state().tiles(),
    {
        self.state.course()
    }

    /// Clears the cell `pos`.
    pub fn remove(&mut self, pos: TileCoord)
        requires
            old(self).wf(),
        ensures
            final(self).wf(),
            final(self).state().tiles() == old(self).state().tiles().remove(pos),
            final(self).state().finish() == (if old(self).state().tiles().dom().contains(pos)
                && old(self).state().finish() == Some(pos) {
                None
            } else {
                old(self).state().finish()
            }),
            final(self).changed() == (old(self).changed() || old(self).state().tiles().dom().contains(
                pos,
            )),
    {
        let changed = self.state.remove(pos);
        self.changed = self.changed || changed;
    }

    /// Puts `tile` on the cell `pos`. If `tile` is a finish line, the finish line that was
    /// followed so far, if it lies on another cell, becomes a straight.
    pub fn set(&mut self, pos: TileCoord, tile: Tile)
        requires
            old(self).wf(),
        ensures
            final(self).wf(),
            ({
                let before = old(self).state();
                let same = before.tiles().dom().contains(pos) && before.tiles()[pos] == tile;
                &&& final(self).changed() == (old(self).changed() || !same)
                &&& same ==> final(self).state().tiles() == before.tiles() && final(self).state().finish() == before.finish()
                &&& !same ==> final(self).state().tiles() == tiles_after_set(
                    before.tiles(),
                    before.finish(),
                    pos,
                    tile,
                ) && final(self).state().finish() == finish_after_set(before.finish(), pos, tile)
            }),
    {
        let changed = self.state.set(pos, tile);
        self.changed = self.changed || changed;
    }

    /// Flips the phase of the tile on the cell `pos`, if that tile has lights.
    pub fn toggle_lights(&mut self, pos: TileCoord)
        requires
            old(self).wf(),
        ensures
            final(self).wf(),
            final(self).state().finish() == old(self).state().finish(),
            ({
                let tiles = old(self).state().tiles();
                if tiles.dom().contains(pos) && tiles[pos].tile_type.has_lights() {
                    &&& final(self).changed()
                    &&& final(self).state().tiles() == tiles.insert(
                        pos,
                        Tile { offset: tiles[pos].offset ^ 1, ..tiles[pos] },
                    )
                } else {
                    &&& final(self).changed() == old(self).changed()
                    &&& final(self).state().tiles() == tiles
                }
            }),
    {
        if let Some(tile) = self.state.course().get(&pos) {
            if tile.tile_type.has_lights() {
                let new_tile = Tile { offset: tile.offset ^ 1, ..tile };
                self.state.replace(pos, new_tile);
                self.changed = true;
            }
        }
    }

    /// Moves the tile on the cell `pos`, if there is one, by `trans`.
    pub fn apply_transform(&mut self, pos: TileCoord, trans: DihedralElement)
        requires
            old(self).wf(),
        ensures
            final(self).wf(),
            final(self).state().finish() == old(self).state().finish(),
            ({
                let tiles = old(self).state().tiles();
                if tiles.dom().contains(pos) {
                    &&& final(self).changed()
                    &&& final(self).state().tiles() == tiles.insert(
                        pos,
                        tiles[pos].apply_transform(trans),
                    )
                } else {
                    &&& final(self).changed() == old(self).changed()
                    &&& final(self).state().tiles() == tiles
                }
            }),
    {
        if let Some(tile) = self.state.course().get(&pos) {
            self.modify(pos, tile.apply_transform(trans));
        }
    }

    /// Puts the tile `tile` in place of the one on the cell `pos`, which has all but perhaps
    /// its transform and its offset in common with it.
    fn modify(&mut self, pos: TileCoord, tile: Tile)
        requires
            old(self).wf(),
            old(self).state().tiles().dom().contains(pos),
            old(self).state().tiles()[pos].tile_type == tile.tile_type,
        ensures
            final(self).wf(),
            final(self).changed(),
            final(self).state().finish() == old(self).state().finish(),
            final(self).state().tiles() == old(self).state().tiles().insert(pos, tile),
    {
        self.state.replace(pos, tile);
        self.changed = true;
    }

    /// Puts the tile on the cell `pos`, if there is one, into its other phase, as
    /// `Tile::toggle_lights` does.
    pub fn toggle_tile(&mut self, pos: TileCoord)
        requires
            old(self).wf(),
        ensures
            final(self).wf(),
            final(self).state().finish() == old(self).state().finish(),
            ({
                let tiles = old(self).state().tiles();
                if tiles.dom().contains(pos) {
                    &&& final(self).changed()
                    &&& final(self).state().tiles() == tiles.insert(pos, tiles[pos].toggle_lights())
                } else {
                    &&& final(self).changed() == old(self).changed()
                    &&& final(self).state().tiles() == tiles
                }
            }),
    {
        if let Some(tile) = self.state.course().get(&pos) {
            self.modify(pos, tile.toggle_lights());
        }
    }

    /// Turns the tile on the cell `pos` around, if there is one, as `Tile::reverse` does.
    pub fn reverse_tile(&mut self, pos: TileCoord)
        requires
            old(self).wf(),
        ensures
            final(self).wf(),
            final(self).state().finish() == old(self).state().finish(),
            ({
                let tiles = old(self).state().tiles();
                if tiles.dom().contains(pos) {
                    &&& final(self).changed()
                    &&& final(self).state().tiles() == tiles.insert(pos, tiles[pos].reverse())
                } else {
                    &&& final(self).changed() == old(self).changed()
                    &&& final(self).state().tiles() == tiles
                }
            }),
    {
        if let Some(tile) = self.state.course().get(&pos) {
            self.modify(pos, tile.reverse());
        }
    }

    /// Ends the transaction. If anything changed, the state reached becomes the next step
    /// of `edit`'s history, in place of any steps that had been undone. Returns whether
    /// anything changed.
    pub fn commit(self, edit: &mut CourseEdit) -> (r: bool)
        requires
            self.wf(),
            old(edit).wf(),
        ensures
            final(edit).wf(),
            r == self.changed(),
            r ==> final(edit).states() == old(edit).states().take(old(edit).position() + 1).push(
                self.state(),
            ) && final(edit).position() == old(edit).position() + 1,
            r ==> final(edit).is_step_from(*old(edit), self.state().tiles(), self.state().finish()),
            !r ==> final(edit).same_as(*old(edit)),
    {
        if self.changed {
            edit.push(self.state);
            proof {
                let kept = old(edit).states().take(old(edit).position() + 1);
                assert(edit.states().take(edit.position()) =~= kept);
                assert(kept =~= old(edit).states().take(edit.position()));
            }
            true
        } else {
            false
        }
    }
}

/// A course under edit with its history: the states reached so far and the position of the
/// current one among them.
pub struct CourseEdit {
    stack: Vec<CourseEditState>,
    pos: usize,
}

impl CourseEdit {
    /// Whether the history is valid: the position lies within the states, and each state is
    /// valid.
    pub closed spec fn wf(self) -> bool {
        &&& self.pos < self.stack@.len()
        &&& forall|i: int| 0 <= i < self.stack@.len() ==> (#[trigger] self.stack@[i]).wf()
    }

    /// The states reached so far, oldest first.
    pub closed spec fn states(self) -> Seq<CourseEditState> {
        self.stack@
    }

    /// The position of the current state.
    pub closed spec fn position(self) -> int {
        self.pos as int
    }

    /// The current state.
    pub open spec fn current(self) -> CourseEditState {
        self.states()[self.position()]
    }

    /// Whether this history is `before` with one more step, which has led to the given tiles
    /// and finish line and has taken the place of any steps that had been undone.
    pub open spec fn is_step_from(
        self,
        before: CourseEdit,
        tiles: Map<TileCoord, Tile>,
        finish: Option<TileCoord>,
    ) -> bool {
        &&& self.position() == before.position() + 1
        &&& self.states().len() == self.position() + 1
        &&& self.states().take(self.position()) == before.states().take(self.position())
        &&& self.current().tiles() == tiles
        &&& self.current().finish() == finish
    }

    /// Whether this history has the states and the position of `before`.
    pub open spec fn same_as(self, before: CourseEdit) -> bool {
        self.states() == before.states() && self.position() == before.position()
    }

    /// In a valid history the position lies within the states, and each state is valid.
    pub proof fn lemma_wf(self)
        requires
            self.wf(),
        ensures
            0 <= self.position() < self.states().len(),
            forall|i: int| 0 <= i < self.states().len() ==> (#[trigger] self.states()[i]).wf(),
    {
    }

    /// The history that starts with `course`.
    pub fn new(course: Course) -> (r: CourseEdit)
        ensures
            r.wf(),
            r.states().len() == 1,
            r.position() == 0,
            r.current().tiles() == course@,
            r.current().finish() matches Some(f) ==> course@.dom().contains(f)
                && course@[f].tile_type == TileType::Finish,
            r.current().finish() is None ==> forall|pos: TileCoord| #[trigger]
                course@.dom().contains(pos) ==> course@[pos].tile_type != TileType::Finish,
    {
        let state = CourseEditState::from_course(course);
        let mut stack = Vec::new();
        stack.push(state);
        CourseEdit { stack, pos: 0 }
    }

    fn get_state(&self) -> (r: &CourseEditState)
        requires
            self.wf(),
        ensures
            *r == self.current(),
            r.wf(),
    {
        &self.stack[self.pos]
    }

    /// The current course.
    pub fn get_course(&self) -> (r: &Course)
        requires
            self.wf(),
        ensures
            r@ == self.current().tiles(),
    {
        self.get_state().course()
    }

    /// Gives up the history for the course of its newest state.
    pub fn take_course(self) -> (r: Course)
        requires
            self.wf(),
        ensures
            r@ == self.states().last().tiles(),
    {
        let mut stack = self.stack;
        let state = stack.pop().unwrap();
        state.course
    }

    /// The cell that counts as the finish line in the current course, if any.
    pub fn get_finish(&self) -> (r: Option<TileCoord>)
        requires
            self.wf(),
        ensures
            r == self.current().finish(),
    {
        self.get_state().get_finish()
    }

    /// The tile on the cell `c` of the current course, if there is one.
    pub fn get(&self, c: TileCoord) -> (r: Option<Tile>)
        requires
            self.wf(),
        ensures
            r == (if self.current().tiles().dom().contains(c) {
                Some(self.current().tiles()[c])
            } else {
                None
            }),
    {
        self.get_course().get(&c)
    }

    /// Starts a transaction on a copy of the current state.
    pub fn edit(&self) -> (r: Transaction)
        requires
            self.wf(),
        ensures
            r.wf(),
            !r.changed(),
            r.state().tiles() == self.current().tiles(),
            r.state().finish() == self.current().finish(),
    {
        Transaction { state: self.get_state().clone(), changed: false }
    }

    /// Puts `tile` on the cell `pos` as a step of its own. Returns whether anything
    /// changed.
    pub fn set_single(&mut self, pos: TileCoord, tile: Tile) -> (r: bool)
        requires
            old(self).wf(),
        ensures
            final(self).wf(),
            ({
                let before = old(self).current();
                let same = before.tiles().dom().contains(pos) && before.tiles()[pos] == tile;
                &&& r == !same
                &&& same ==> final(self).states() == old(self).states() && final(self).position()
                    == old(self).position()
                &&& !same ==> {
                    &&& final(self).position() == old(self).position() + 1
                    &&& final(self).states().len() == final(self).position() + 1
                    &&& final(self).states().take(final(self).position()) == old(self).states().take(final(self).position())
                    &&& final(self).current().tiles() == tiles_after_set(
                        before.tiles(),
                        before.finish(),
                        pos,
                        tile,
                    )
                    &&& final(self).current().finish() == finish_after_set(
                        before.finish(),
                        pos,
                        tile,
                    )
                }
            }),
    {
        let mut transaction = self.edit();
        transaction.set(pos, tile);
        let r = transaction.commit(self);
        proof {
            if r {
                let kept = old(self).states().take(old(self).position() + 1);
                assert(self.states().take(self.position()) =~= kept);
            }
        }
        r
    }

    /// Makes `course` the next step of the history.
    pub fn set_course(&mut self, course: Course)
        requires
            old(self).wf(),
        ensures
            final(self).wf(),
            final(self).position() == old(self).position() + 1,
            final(self).states().len() == final(self).position() + 1,
            final(self).states().take(final(self).position()) == old(self).states().take(
                final(self).position(),
            ),
            final(self).current().tiles() == course@,
    {
        self.push(CourseEditState::from_course(course));
        proof {
            let kept = old(self).states().take(old(self).position() + 1);
            assert(self.states().take(self.position()) =~= kept);
        }
    }

    fn push(&mut self, st: CourseEditState)
        requires
            old(self).wf(),
            st.wf(),
        ensures
            final(self).wf(),
            final(self).states() == old(self).states().take(old(self).position() + 1).push(st),
            final(self).position() == old(self).position() + 1,
    {
        let len = self.stack.len();
        assert(self.pos < len);
        self.stack.truncate(self.pos + 1);
        self.stack.push(st);
        self.pos += 1;
    }

    /// Steps back to the state before the current one, if there is one. Returns whether
    /// the current state changed.
    pub fn undo(&mut self) -> (r: bool)
        requires
            old(self).wf(),
        ensures
            final(self).wf(),
            final(self).states() == old(self).states(),
            r == (old(self).position() > 0),
            final(self).position() == (if r {
                old(self).position() - 1
            } else {
                old(self).position()
            }),
    {
        if self.pos > 0 {
            self.pos -= 1;
            true
        } else {
            false
        }
    }

    /// Steps forward to the state that was undone last, if there is one. Returns whether
    /// the current state changed.
    pub fn redo(&mut self) -> (r: bool)
        requires
            old(self).wf(),
        ensures
            final(self).wf(),
            final(self).states() == old(self).states(),
            r == (old(self).position() + 1 < old(self).states().len()),
            final(self).position() == (if r {
                old(self).position() + 1
            } else {
                old(self).position()
            }),
    {
        if self.pos < self.stack.len() - 1 {
            self.pos += 1;
            true
        } else {
            false
        }
    }
}

} // verus!
