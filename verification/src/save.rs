//! The form in which a course is stored: a list of cells with their tiles.

use crate::course::{lists_entries, map_of_entries, Course, TileCoord};
use crate::tile::Tile;
use vstd::prelude::*;

verus! {

/// A tile with the cell that it is on.
#[derive(Copy, Clone, PartialEq, Eq, Structural, Debug)]
pub struct TileData {
    pub coord: TileCoord,
    pub tile: Tile,
}

/// The entries that the records stand for, in order.
pub open spec fn entries_of(data: Seq<TileData>) -> Seq<(TileCoord, Tile)> {
    Seq::new(data.len(), |i: int| (data[i].coord, data[i].tile))
}

/// The tiles of the course with their cells, each once, in no particular order.
pub fn course_to_vec(course: &Course) -> (r: Vec<TileData>)
    ensures
        lists_entries(entries_of(r@), course@),
{
    let entries = course.entries();
    let mut r: Vec<TileData> = Vec::new();
    let mut i: usize = 0;
    while i < entries.len()
        invariant
            i <= entries.len(),
            entries_of(r@) == entries@.take(i as int),
        decreases entries.len() - i,
    {
        let (coord, tile) = entries[i];
        let ghost before = r@;
        r.push(TileData { coord, tile });
        proof {
            assert(entries_of(r@) =~= entries_of(before).push((coord, tile)));
            assert(entries@.take(i + 1) =~= entries@.take(i as int).push(entries@[i as int]));
        }
        i += 1;
    }
    proof {
        assert(entries@.take(entries@.len() as int) =~= entries@);
    }
    r
}

/// The course that holds the tiles of the records, where a later record for a cell replaces
/// an earlier one.
pub fn course_from_vec(data: &Vec<TileData>) -> (r: Course)
    ensures
        r@ == map_of_entries(entries_of(data@)),
{
    let mut course = Course::new();
    let mut i: usize = 0;
    while i < data.len()
        invariant
            i <= data.len(),
            course@ == map_of_entries(entries_of(data@).take(i as int)),
        decreases data.len() - i,
    {
        let d = data[i];
        course.insert_mut(d.coord, d.tile);
        proof {
            let now = entries_of(data@).take(i + 1);
            assert(now.drop_last() =~= entries_of(data@).take(i as int));
            assert(now.last() == (d.coord, d.tile));
        }
        i += 1;
    }
    proof {
        assert(entries_of(data@).take(data@.len() as int) =~= entries_of(data@));
    }
    course
}

} // verus!
