//! Selecting tiles of a course, changing them, and dragging them about.

use crate::course::{
    bounding_rect, finish_after_set, fits_isize, is_bounding_rect, lists_entries, tiles_after_set,
    Course, CourseEdit, TileCoord, Transaction,
};
use crate::direction::{DihedralElement, Isometry};
use crate::tile::Tile;
use core::ops::RangeInclusive;
use vstd::prelude::*;

verus! {

/// A set of cells.
#[verifier::external_body]
pub struct CellSet {
    cells: hashbrown::HashSet<(isize, isize)>,
}

/// What a cell set holds.
pub uninterp spec fn cell_set(set: CellSet) -> Set<TileCoord>;

impl View for CellSet {
    type V = Set<TileCoord>;

    open spec fn view(&self) -> Set<TileCoord> {
        cell_set(*self)
    }
}

/// The set without cells.
pub open spec fn no_cells() -> Set<TileCoord> {
    Set::empty()
}

/// Whether `cells` lists the cells of `set`, each once.
pub open spec fn lists_cells(cells: Seq<TileCoord>, set: Set<TileCoord>) -> bool {
    &&& forall|i: int| 0 <= i < cells.len() ==> set.contains(#[trigger] cells[i])
    &&& forall|c: TileCoord| #[trigger]
        set.contains(c) ==> exists|i: int| 0 <= i < cells.len() && cells[i] == c
    &&& forall|i: int, j: int| 0 <= i < j < cells.len() ==> #[trigger] cells[i] != #[trigger] cells[j]
}

/// `hashbrown::HashSet::new`: a set that holds nothing.
#[verifier::external_body]
fn set_new() -> (r: CellSet)
    ensures
        cell_set(r) == no_cells(),
{
    CellSet { cells: hashbrown::HashSet::new() }
}

/// `hashbrown::HashSet::clear`: takes every value out.
#[verifier::external_body]
fn set_clear(set: &mut CellSet)
    ensures
        cell_set(*final(set)) == no_cells(),
{
    set.cells.clear()
}

/// `hashbrown::HashSet::insert`: puts the value in, and returns whether it was not there
/// before.
#[verifier::external_body]
fn set_insert(set: &mut CellSet, c: TileCoord) -> (r: bool)
    ensures
        cell_set(*final(set)) == cell_set(*old(set)).insert(c),
        r == !cell_set(*old(set)).contains(c),
{
    set.cells.insert((c.0, c.1))
}

/// `hashbrown::HashSet::contains`: whether the value is in the set.
#[verifier::external_body]
fn set_contains(set: &CellSet, c: TileCoord) -> (r: bool)
    ensures
        r == cell_set(*set).contains(c),
{
    set.cells.contains(&(c.0, c.1))
}

/// `hashbrown::HashSet::len`: the number of values.
#[verifier::external_body]
fn set_len(set: &CellSet) -> (r: usize)
    ensures
        r == cell_set(*set).len(),
{
    set.cells.len()
}

/// `hashbrown::HashSet::iter`, collected: every value once, in an order that is not
/// specified.
#[verifier::external_body]
fn set_iter(set: &CellSet) -> (r: Vec<TileCoord>)
    ensures
        lists_cells(r@, cell_set(*set)),
{
    set.cells.iter().map(|c| TileCoord(c.0, c.1)).collect()
}

impl CellSet {
    /// The set without cells.
    pub fn new() -> (r: CellSet)
        ensures
            r@ == no_cells(),
    {
        set_new()
    }

    /// Takes every cell out.
    pub fn clear(&mut self)
        ensures
            final(self)@ == no_cells(),
    {
        set_clear(self)
    }

    /// Puts the cell `c` in, and returns whether it was not there before.
    pub fn insert(&mut self, c: TileCoord) -> (r: bool)
        ensures
            final(self)@ == old(self)@.insert(c),
            r == !old(self)@.contains(c),
    {
        set_insert(self, c)
    }

    /// Whether the cell `c` is in the set.
    pub fn contains(&self, c: &TileCoord) -> (r: bool)
        ensures
            r == self@.contains(*c),
    {
        set_contains(self, *c)
    }

    /// The number of cells.
    pub fn len(&self) -> (r: usize)
        ensures
            r == self@.len(),
    {
        set_len(self)
    }

    /// The cells, each once, in no particular order.
    pub fn cells(&self) -> (r: Vec<TileCoord>)
        ensures
            lists_cells(r@, self@),
    {
        set_iter(self)
    }
}

impl Default for CellSet {
    fn default() -> (r: CellSet)
        ensures
            r@ == no_cells(),
    {
        CellSet::new()
    }
}

/// A drag under way: what is dragged, and how it has been changed while dragged.
pub struct DragData {
    /// The cell that was under the pointer when the drag began.
    pub anchor: TileCoord,
    /// How the tiles have been turned since.
    pub transform: DihedralElement,
    /// Whether the tiles are put into their other phase.
    pub toggle_lights: bool,
    /// Whether the tiles are turned around.
    pub reverse: bool,
    /// The course that is dragged in, if the tiles are not those of the selection.
    pub external: Option<Course>,
}

/// What the pointer is doing.
pub enum DragState {
    /// A rectangle is being drawn from this cell.
    Selecting(TileCoord),
    /// Tiles are being dragged.
    Dragging(DragData),
    NoDrag,
}

impl Default for DragState {
    fn default() -> (r: DragState)
        ensures
            r is NoDrag,
    {
        DragState::NoDrag
    }
}

/// The selection of the editor: the cells selected, and what the pointer is doing.
pub struct SelectState {
    pub selection: CellSet,
    pub drag: DragState,
}

impl Default for SelectState {
    fn default() -> (r: SelectState)
        ensures
            r.selection@ == no_cells(),
            r.drag is NoDrag,
    {
        SelectState { selection: CellSet::new(), drag: DragState::NoDrag }
    }
}

/// The smallest ranges of columns and of rows that hold both cells.
pub fn selection_rect(start: TileCoord, pos: TileCoord) -> (r: (
    RangeInclusive<isize>,
    RangeInclusive<isize>,
))
    ensures
        is_bounding_rect(seq![start, pos], r.0, r.1),
        r.0@.start == (if start.0 <= pos.0 {
            start.0
        } else {
            pos.0
        }),
        r.0@.end == (if start.0 <= pos.0 {
            pos.0
        } else {
            start.0
        }),
        r.1@.start == (if start.1 <= pos.1 {
            start.1
        } else {
            pos.1
        }),
        r.1@.end == (if start.1 <= pos.1 {
            pos.1
        } else {
            start.1
        }),
{
    let cells = [start, pos];
    let r = bounding_rect(cells.as_slice());
    proof {
        assert(cells@ =~= seq![start, pos]);
        let s = seq![start, pos];
        assert(s[0] == start && s[1] == pos);
        let fx = |i: int| s[i].0 as int;
        let fy = |i: int| s[i].1 as int;
        assert(fx(0) == start.0 && fx(1) == pos.0);
        assert(fy(0) == start.1 && fy(1) == pos.1);
    }
    r
}

/// Whether the cell `c` lies in the rectangle spanned by the cells `a` and `b`.
pub open spec fn in_rect(c: TileCoord, a: TileCoord, b: TileCoord) -> bool {
    &&& (a.0 <= c.0 <= b.0 || b.0 <= c.0 <= a.0)
    &&& (a.1 <= c.1 <= b.1 || b.1 <= c.1 <= a.1)
}

impl DragData {
    /// The drag of the tiles of the selection that begins at the cell `anchor`.
    pub open spec fn begun_at(self, anchor: TileCoord) -> bool {
        &&& self.anchor == anchor
        &&& self.transform == DihedralElement::Id
        &&& !self.toggle_lights
        &&& !self.reverse
        &&& self.external is None
    }
}

impl SelectState {
    /// Forgets the selection and any drag.
    pub fn clear(&mut self)
        ensures
            final(self).selection@ == no_cells(),
            final(self).drag is NoDrag,
    {
        self.selection.clear();
        self.drag = DragState::NoDrag;
    }

    /// Adds the cell `pos` to the selection if there is a tile on it.
    fn select(&mut self, course: &Course, pos: TileCoord)
        ensures
            final(self).drag == old(self).drag,
            final(self).selection@ == (if course@.dom().contains(pos) {
                old(self).selection@.insert(pos)
            } else {
                old(self).selection@
            }),
    {
        if course.contains_key(&pos) {
            self.selection.insert(pos);
        }
    }

    /// The pointer goes down on the cell `pos`. Nothing happens if a drag is under way. On
    /// a selected cell, without `retain`, a drag of the selection begins. Else a rectangle
    /// is begun, and the selection is forgotten unless `retain` holds.
    pub fn click(&mut self, pos: TileCoord, retain: bool)
        ensures
            !(old(self).drag is NoDrag) ==> final(self).selection@ == old(self).selection@
                && final(self).drag == old(self).drag,
            old(self).drag is NoDrag && (retain || !old(self).selection@.contains(pos)) ==> {
                &&& final(self).drag == DragState::Selecting(pos)
                &&& final(self).selection@ == (if retain {
                    old(self).selection@
                } else {
                    no_cells()
                })
            },
            old(self).drag is NoDrag && !retain && old(self).selection@.contains(pos) ==> {
                &&& final(self).selection@ == old(self).selection@
                &&& final(self).drag matches DragState::Dragging(d) && d.begun_at(pos)
            },
    {
        match self.drag {
            DragState::NoDrag => {},
            _ => {
                return ;
            },
        }
        if retain || !self.selection.contains(&pos) {
            if !retain {
                self.selection.clear();
            }
            self.drag = DragState::Selecting(pos);
        } else {
            self.drag = DragState::Dragging(
                DragData {
                    anchor: pos,
                    transform: DihedralElement::Id,
                    toggle_lights: false,
                    reverse: false,
                    external: None,
                },
            );
        }
    }

    /// Adds to the selection the cells of the rectangle spanned by `start` and `pos` on which
    /// `course` has a tile.
    pub fn finish_rect(&mut self, course: &Course, start: TileCoord, pos: TileCoord)
        ensures
            final(self).drag == old(self).drag,
            forall|c: TileCoord| #[trigger]
                final(self).selection@.contains(c) == (old(self).selection@.contains(c) || (
                course@.dom().contains(c) && in_rect(c, start, pos))),
    {
        let (xrange, yrange) = selection_rect(start, pos);
        let entries = course.entries();
        let mut i: usize = 0;
        while i < entries.len()
            invariant
                i <= entries.len(),
                lists_entries(entries@, course@),
                self.drag == old(self).drag,
                !xrange@.exhausted,
                !yrange@.exhausted,
                xrange@.start == (if start.0 <= pos.0 {
                    start.0
                } else {
                    pos.0
                }),
                xrange@.end == (if start.0 <= pos.0 {
                    pos.0
                } else {
                    start.0
                }),
                yrange@.start == (if start.1 <= pos.1 {
                    start.1
                } else {
                    pos.1
                }),
                yrange@.end == (if start.1 <= pos.1 {
                    pos.1
                } else {
                    start.1
                }),
                forall|c: TileCoord|
                    self.selection@.contains(c) == (old(self).selection@.contains(c) || (exists|
                        j: int,
                    |
                        0 <= j < i && entries@[j].0 == c && in_rect(c, start, pos))),
            decreases entries.len() - i,
        {
            let c = entries[i].0;
            let ghost before = self.selection@;
            let inside = xrange.contains(&c.0) && yrange.contains(&c.1);
            assert(inside == in_rect(c, start, pos));
            if inside {
                assert(course@.dom().contains(entries@[i as int].0));
                self.select(course, c);
            }
            proof {
                assert forall|d: TileCoord|
                    self.selection@.contains(d) == (old(self).selection@.contains(d) || (exists|
                        j: int,
                    |
                        0 <= j < i + 1 && entries@[j].0 == d && in_rect(d, start, pos))) by {
                    if exists|j: int| 0 <= j < i && entries@[j].0 == d && in_rect(d, start, pos) {
                        let j = choose|j: int|
                            0 <= j < i && entries@[j].0 == d && in_rect(d, start, pos);
                        assert(0 <= j < i + 1 && entries@[j].0 == d && in_rect(d, start, pos));
                    }
                    if d == c && in_rect(c, start, pos) {
                        assert(0 <= i < i + 1 && entries@[i as int].0 == d && in_rect(
                            d,
                            start,
                            pos,
                        ));
                    }
                }
            }
            i += 1;
        }
        proof {
            assert forall|c: TileCoord|
                self.selection@.contains(c) == (old(self).selection@.contains(c) || (
                course@.dom().contains(c) && in_rect(c, start, pos))) by {
                if course@.dom().contains(c) && in_rect(c, start, pos) {
                    let j = choose|j: int| 0 <= j < entries@.len() && entries@[j].0 == c;
                    assert(0 <= j < i && entries@[j].0 == c && in_rect(c, start, pos));
                }
                if exists|j: int| 0 <= j < i && entries@[j].0 == c && in_rect(c, start, pos) {
                    let j = choose|j: int|
                        0 <= j < i && entries@[j].0 == c && in_rect(c, start, pos);
                    assert(course@.dom().contains(entries@[j].0));
                }
            }
        }
    }
}

/// The cells listed up to and with the place `i` are those listed before it and the cell at
/// `i`, which is not among those.
pub proof fn lemma_prefix_cells(cells: Seq<TileCoord>, set: Set<TileCoord>, i: int)
    requires
        lists_cells(cells, set),
        0 <= i < cells.len(),
    ensures
        cells.take(i + 1).to_set() == cells.take(i).to_set().insert(cells[i]),
        !cells.take(i).to_set().contains(cells[i]),
{
    let shorter = cells.take(i);
    let longer = cells.take(i + 1);
    assert(longer =~= shorter.push(cells[i]));
    assert forall|c: TileCoord|
        longer.to_set().contains(c) == (shorter.to_set().contains(c) || c == cells[i]) by {
        if shorter.to_set().contains(c) {
            let j = choose|j: int| 0 <= j < shorter.len() && #[trigger] shorter[j] == c;
            assert(longer[j] == c);
        }
        if c == cells[i] {
            assert(longer[i] == c);
        }
        if longer.to_set().contains(c) {
            let j = choose|j: int| 0 <= j < longer.len() && #[trigger] longer[j] == c;
            if j < i {
                assert(shorter[j] == c);
            }
        }
    }
    assert(longer.to_set() =~= shorter.to_set().insert(cells[i]));
    if shorter.to_set().contains(cells[i]) {
        let j = choose|j: int| 0 <= j < shorter.len() && #[trigger] shorter[j] == cells[i];
        assert(cells[j] == cells[i]);
    }
}

/// A list of the cells of a set has the set as its set.
pub proof fn lemma_all_cells(cells: Seq<TileCoord>, set: Set<TileCoord>)
    requires
        lists_cells(cells, set),
    ensures
        cells.to_set() == set,
        cells.take(cells.len() as int) == cells,
{
    assert(cells.take(cells.len() as int) =~= cells);
    assert forall|c: TileCoord| cells.to_set().contains(c) == set.contains(c) by {
        if set.contains(c) {
            let j = choose|j: int| 0 <= j < cells.len() && cells[j] == c;
            assert(cells[j] == c);
        }
        if cells.to_set().contains(c) {
            let j = choose|j: int| 0 <= j < cells.len() && #[trigger] cells[j] == c;
        }
    }
    assert(cells.to_set() =~= set);
}

/// A change to a tile that leaves its type alone.
#[derive(Copy, Clone)]
pub enum TileChange {
    /// `Tile::toggle_lights`.
    Toggle,
    /// `Tile::reverse`.
    Reverse,
    /// `Tile::apply_transform`.
    Transform(DihedralElement),
}

impl TileChange {
    /// The tile after the change.
    pub open spec fn spec_apply(self, tile: Tile) -> Tile {
        match self {
            TileChange::Toggle => tile.toggle_lights(),
            TileChange::Reverse => tile.reverse(),
            TileChange::Transform(e) => tile.apply_transform(e),
        }
    }
}

/// The tiles after each tile on a cell of `cells` has been changed.
pub open spec fn changed_tiles(
    tiles: Map<TileCoord, Tile>,
    cells: Set<TileCoord>,
    change: TileChange,
) -> Map<TileCoord, Tile> {
    Map::new(
        |c: TileCoord| tiles.dom().contains(c),
        |c: TileCoord|
            if cells.contains(c) {
                change.spec_apply(tiles[c])
            } else {
                tiles[c]
            },
    )
}

/// Whether there is a tile on a cell of `cells`.
pub open spec fn any_tile(tiles: Map<TileCoord, Tile>, cells: Set<TileCoord>) -> bool {
    exists|c: TileCoord| #[trigger] cells.contains(c) && tiles.dom().contains(c)
}

/// Whether the tiles of the selection of `sel` have been changed as one step from the
/// history `before` to the history `after`, if there was a tile to change, which `step`
/// tells.
pub open spec fn selection_changed(
    sel: SelectState,
    before: CourseEdit,
    after: CourseEdit,
    change: TileChange,
    step: bool,
) -> bool {
    &&& step == any_tile(before.current().tiles(), sel.selection@)
    &&& step ==> after.is_step_from(
        before,
        changed_tiles(before.current().tiles(), sel.selection@, change),
        before.current().finish(),
    )
    &&& !step ==> after.same_as(before)
}

/// What `SelectState::toggle_lights` does: the tiles that are dragged are noted to be put
/// into their other phase, if a drag is under way; else those of the selection are put into
/// it, unless a rectangle is being drawn.
pub open spec fn lights_toggled(
    sel: SelectState,
    before: CourseEdit,
    sel_after: SelectState,
    after: CourseEdit,
    step: bool,
) -> bool {
    &&& sel_after.selection@ == sel.selection@
    &&& match sel.drag {
        DragState::Dragging(d) => {
            &&& !step
            &&& after.same_as(before)
            &&& sel_after.drag == DragState::Dragging(
                DragData { toggle_lights: !d.toggle_lights, ..d },
            )
        },
        DragState::NoDrag => {
            &&& sel_after.drag is NoDrag
            &&& selection_changed(sel, before, after, TileChange::Toggle, step)
        },
        DragState::Selecting(_) => {
            &&& !step
            &&& after.same_as(before)
            &&& sel_after.drag == sel.drag
        },
    }
}

/// What `SelectState::delete` does: unless the pointer is busy, the cells of the selection
/// are cleared as one step, and the selection is forgotten.
pub open spec fn selection_deleted(
    sel: SelectState,
    before: CourseEdit,
    sel_after: SelectState,
    after: CourseEdit,
    step: bool,
) -> bool {
    &&& sel_after.drag == sel.drag
    &&& !(sel.drag is NoDrag) ==> !step && after.same_as(before) && sel_after.selection@
        == sel.selection@
    &&& sel.drag is NoDrag ==> {
        &&& sel_after.selection@ == no_cells()
        &&& step == any_tile(before.current().tiles(), sel.selection@)
        &&& step ==> after.is_step_from(
            before,
            before.current().tiles().remove_keys(sel.selection@),
            if before.current().finish() matches Some(f) && sel.selection@.contains(f) {
                None
            } else {
                before.current().finish()
            },
        )
        &&& !step ==> after.same_as(before)
    }
}

/// What `SelectState::reverse_track` does: the tiles that are dragged are noted to be
/// turned around, if a drag is under way; else those of the selection are turned around.
pub open spec fn track_reversed(
    sel: SelectState,
    before: CourseEdit,
    sel_after: SelectState,
    after: CourseEdit,
    step: bool,
) -> bool {
    &&& sel_after.selection@ == sel.selection@
    &&& match sel.drag {
        DragState::Dragging(d) => {
            &&& !step
            &&& after.same_as(before)
            &&& sel_after.drag == DragState::Dragging(DragData { reverse: !d.reverse, ..d })
        },
        _ => {
            &&& sel_after.drag == sel.drag
            &&& selection_changed(sel, before, after, TileChange::Reverse, step)
        },
    }
}

/// What `SelectState::apply_transform` does: the tiles that are dragged are moved by
/// `trans`, if a drag is under way; else the tile of the selection is, if the selection is a
/// single cell.
pub open spec fn transform_applied(
    sel: SelectState,
    before: CourseEdit,
    sel_after: SelectState,
    after: CourseEdit,
    trans: DihedralElement,
    step: bool,
) -> bool {
    &&& sel_after.selection@ == sel.selection@
    &&& match sel.drag {
        DragState::Dragging(d) => {
            &&& !step
            &&& after.same_as(before)
            &&& sel_after.drag == DragState::Dragging(
                DragData { transform: trans.compose(d.transform), ..d },
            )
        },
        _ => {
            &&& sel_after.drag == sel.drag
            &&& if sel.selection@.len() == 1 {
                selection_changed(sel, before, after, TileChange::Transform(trans), step)
            } else {
                !step && after.same_as(before)
            }
        },
    }
}

impl SelectState {
    /// Changes each tile of the selection, as one step of the history. Returns whether
    /// there was a tile to change, and so a step.
    fn change_selected(&self, course: &mut CourseEdit, change: TileChange) -> (r: bool)
        requires
            old(course).wf(),
        ensures
            final(course).wf(),
            r == any_tile(old(course).current().tiles(), self.selection@),
            r ==> final(course).is_step_from(
                *old(course),
                changed_tiles(old(course).current().tiles(), self.selection@, change),
                old(course).current().finish(),
            ),
            !r ==> final(course).same_as(*old(course)),
    {
        let mut edit = course.edit();
        let cells = self.selection.cells();
        let ghost tiles = course.current().tiles();
        let ghost chosen = self.selection@;
        let mut i: usize = 0;
        proof {
            assert(edit.state().tiles() =~= changed_tiles(tiles, cells@.take(0).to_set(), change));
        }
        while i < cells.len()
            invariant
                i <= cells.len(),
                lists_cells(cells@, chosen),
                edit.wf(),
                edit.state().finish() == old(course).current().finish(),
                edit.state().tiles() == changed_tiles(tiles, cells@.take(i as int).to_set(), change),
                edit.changed() == any_tile(tiles, cells@.take(i as int).to_set()),
            decreases cells.len() - i,
        {
            let pos = cells[i];
            let ghost before = cells@.take(i as int).to_set();
            let ghost now = cells@.take(i + 1).to_set();
            proof {
                lemma_prefix_cells(cells@, chosen, i as int);
            }
            match change {
                TileChange::Toggle => edit.toggle_tile(pos),
                TileChange::Reverse => edit.reverse_tile(pos),
                TileChange::Transform(e) => edit.apply_transform(pos, e),
            }
            proof {
                assert(edit.state().tiles() =~= changed_tiles(tiles, now, change));
                if any_tile(tiles, before) {
                    let c = choose|c: TileCoord| #[trigger]
                        before.contains(c) && tiles.dom().contains(c);
                    assert(now.contains(c));
                }
                if tiles.dom().contains(pos) {
                    assert(now.contains(pos));
                }
                if any_tile(tiles, now) {
                    let c = choose|c: TileCoord| #[trigger]
                        now.contains(c) && tiles.dom().contains(c);
                    assert(before.contains(c) || c == pos);
                }
            }
            i += 1;
        }
        proof {
            lemma_all_cells(cells@, chosen);
        }
        edit.commit(course)
    }

    /// Puts tiles into their other phase: those that are dragged, if a drag is under way,
    /// else those of the selection, unless a rectangle is being drawn. Returns whether a
    /// step was added to the history.
    pub fn toggle_lights(&mut self, course: &mut CourseEdit) -> (r: bool)
        requires
            old(course).wf(),
        ensures
            final(course).wf(),
            lights_toggled(*old(self), *old(course), *final(self), *final(course), r),
    {
        match &mut self.drag {
            DragState::Dragging(drag) => {
                drag.toggle_lights = !drag.toggle_lights;
                false
            },
            DragState::NoDrag => self.change_selected(course, TileChange::Toggle),
            _ => false,
        }
    }

    /// Clears the cells of the selection and forgets the selection, unless the pointer is
    /// busy. Returns whether a step was added to the history.
    pub fn delete(&mut self, course: &mut CourseEdit) -> (r: bool)
        requires
            old(course).wf(),
        ensures
            final(course).wf(),
            selection_deleted(*old(self), *old(course), *final(self), *final(course), r),
    {
        match self.drag {
            DragState::NoDrag => {},
            _ => {
                return false;
            },
        }
        let mut edit = course.edit();
        let cells = self.selection.cells();
        let ghost tiles = course.current().tiles();
        let ghost finish = course.current().finish();
        let ghost chosen = self.selection@;
        let mut i: usize = 0;
        proof {
            course.lemma_wf();
            course.current().lemma_finish_is_occupied();
            assert(tiles.remove_keys(cells@.take(0).to_set()) =~= tiles);
        }
        while i < cells.len()
            invariant
                i <= cells.len(),
                lists_cells(cells@, chosen),
                edit.wf(),
                finish matches Some(f) ==> tiles.dom().contains(f),
                edit.state().tiles() == tiles.remove_keys(cells@.take(i as int).to_set()),
                edit.state().finish() == (if finish matches Some(f) && cells@.take(
                    i as int,
                ).to_set().contains(f) {
                    None
                } else {
                    finish
                }),
                edit.changed() == any_tile(tiles, cells@.take(i as int).to_set()),
            decreases cells.len() - i,
        {
            let pos = cells[i];
            let ghost before = cells@.take(i as int).to_set();
            let ghost now = cells@.take(i + 1).to_set();
            proof {
                lemma_prefix_cells(cells@, chosen, i as int);
            }
            edit.remove(pos);
            proof {
                assert(edit.state().tiles() =~= tiles.remove_keys(now));
                if any_tile(tiles, before) {
                    let c = choose|c: TileCoord| #[trigger]
                        before.contains(c) && tiles.dom().contains(c);
                    assert(now.contains(c));
                }
                if tiles.dom().contains(pos) && !before.contains(pos) {
                    assert(now.contains(pos));
                }
                if any_tile(tiles, now) {
                    let c = choose|c: TileCoord| #[trigger]
                        now.contains(c) && tiles.dom().contains(c);
                    assert(before.contains(c) || c == pos);
                }
            }
            i += 1;
        }
        proof {
            lemma_all_cells(cells@, chosen);
        }
        self.selection.clear();
        edit.commit(course)
    }

    /// Turns tiles around: those that are dragged, if a drag is under way, else those of
    /// the selection. Returns whether a step was added to the history.
    pub fn reverse_track(&mut self, course: &mut CourseEdit) -> (r: bool)
        requires
            old(course).wf(),
        ensures
            final(course).wf(),
            track_reversed(*old(self), *old(course), *final(self), *final(course), r),
    {
        match &mut self.drag {
            DragState::Dragging(drag) => {
                drag.reverse = !drag.reverse;
                false
            },
            _ => self.change_selected(course, TileChange::Reverse),
        }
    }

    /// Moves tiles by `trans`: those that are dragged, if a drag is under way, else the
    /// tile of the selection if the selection is a single cell. Returns whether a step was
    /// added to the history.
    pub fn apply_transform(&mut self, course: &mut CourseEdit, trans: DihedralElement) -> (r: bool)
        requires
            old(course).wf(),
        ensures
            final(course).wf(),
            transform_applied(*old(self), *old(course), *final(self), *final(course), trans, r),
    {
        match &mut self.drag {
            DragState::Dragging(drag) => {
                drag.transform = trans * drag.transform;
                false
            },
            _ => {
                if self.selection.len() == 1 {
                    self.change_selected(course, TileChange::Transform(trans))
                } else {
                    false
                }
            },
        }
    }
}

/// Whether the cell lies in the inner quarter of the number range, where cells can be
/// dragged about without leaving the range.
pub open spec fn near(c: TileCoord) -> bool {
    &&& -(isize::MAX / 4) <= c.0 <= isize::MAX / 4
    &&& -(isize::MAX / 4) <= c.1 <= isize::MAX / 4
}

/// Whether the cell lies in the inner quarter of the number range.
pub fn is_near(c: TileCoord) -> (r: bool)
    ensures
        r == near(c),
{
    let q = isize::MAX / 4;
    -q <= c.0 && c.0 <= q && -q <= c.1 && c.1 <= q
}

/// The cell to which the motion takes the cell `c`.
pub open spec fn moved_cell(m: Isometry, c: TileCoord) -> TileCoord {
    TileCoord(m.image(c.0 as int, c.1 as int).0 as isize, m.image(c.0 as int, c.1 as int).1 as isize)
}

/// The cell that the motion takes to the cell `c`.
pub open spec fn source_cell(m: Isometry, c: TileCoord) -> TileCoord {
    TileCoord(
        m.preimage(c.0 as int, c.1 as int).0 as isize,
        m.preimage(c.0 as int, c.1 as int).1 as isize,
    )
}

impl DragData {
    /// The motion of the drag when the pointer is over the cell `pos`, as mathematics.
    pub open spec fn spec_isometry_to(self, pos: TileCoord) -> Isometry {
        Isometry {
            dihedral: self.transform,
            offset: TileCoord(
                (pos.0 - self.transform.act(self.anchor.0 as int, self.anchor.1 as int).0) as isize,
                (pos.1 - self.transform.act(self.anchor.0 as int, self.anchor.1 as int).1) as isize,
            ),
        }
    }

    /// A dragged tile as it is put down: moved by the drag's transform, then put into its
    /// other phase and turned around as the drag says.
    pub open spec fn dragged_tile(self, tile: Tile) -> Tile {
        let turned = tile.apply_transform(self.transform);
        let toggled = if self.toggle_lights {
            turned.toggle_lights()
        } else {
            turned
        };
        if self.reverse {
            toggled.reverse()
        } else {
            toggled
        }
    }

    /// The tiles that are dragged, on the cells from which they are dragged: those of the
    /// course dragged in, or those of `course` on the cells of `selection`.
    pub open spec fn sources(self, selection: Set<TileCoord>, course: Map<TileCoord, Tile>) -> Map<
        TileCoord,
        Tile,
    > {
        match self.external {
            Some(c) => c@,
            None => course.restrict(selection),
        }
    }

    /// The motion of the drag when the pointer is over the cell `pos`: the drag's transform,
    /// and the translation that takes the anchor to `pos`.
    pub fn isometry_to(&self, pos: TileCoord) -> (r: Isometry)
        requires
            near(self.anchor),
            near(pos),
        ensures
            r == self.spec_isometry_to(pos),
            pos.is_at(r.image(self.anchor.0 as int, self.anchor.1 as int)),
            -(isize::MAX / 2) <= r.offset.0 <= isize::MAX / 2,
            -(isize::MAX / 2) <= r.offset.1 <= isize::MAX / 2,
    {
        proof {
            lemma_act_near(self.transform, self.anchor);
        }
        Isometry::from_anchors(self.anchor, pos, self.transform)
    }
}

/// A dihedral element takes cells of the inner quarter to cells of the inner quarter.
pub proof fn lemma_act_near(e: DihedralElement, c: TileCoord)
    requires
        near(c),
    ensures
        -(isize::MAX / 4) <= e.act(c.0 as int, c.1 as int).0 <= isize::MAX / 4,
        -(isize::MAX / 4) <= e.act(c.0 as int, c.1 as int).1 <= isize::MAX / 4,
{
    match e {
        DihedralElement::Id => {},
        DihedralElement::Rot90 => {},
        DihedralElement::Rot180 => {},
        DihedralElement::Rot270 => {},
        DihedralElement::Flip0 => {},
        DihedralElement::Flip45 => {},
        DihedralElement::Flip90 => {},
        DihedralElement::Flip135 => {},
    }
}

/// The entries as the drag puts them down: each cell moved by `m`, each tile changed as the
/// drag says.
pub open spec fn dragged_entries(src: Seq<(TileCoord, Tile)>, m: Isometry, drag: DragData) -> Seq<
    (TileCoord, Tile),
> {
    Seq::new(src.len(), |i: int| (moved_cell(m, src[i].0), drag.dragged_tile(src[i].1)))
}

/// Whether all cells of the set lie in the inner quarter of the number range.
pub open spec fn all_near(cells: Set<TileCoord>) -> bool {
    forall|c: TileCoord| #[trigger] cells.contains(c) ==> near(c)
}

/// The tiles that a drag would put down if the pointer were released over the cell `pos`,
/// with the cells on which it would put them, in no particular order.
pub fn drag_tiles(selection: &CellSet, drag: &DragData, course: &Course, pos: TileCoord) -> (r: Vec<
    (TileCoord, Tile),
>)
    requires
        near(drag.anchor),
        near(pos),
        all_near(drag.sources(selection@, course@).dom()),
        drag.external is None ==> selection@.subset_of(course@.dom()),
    ensures
        exists|src: Seq<(TileCoord, Tile)>| #[trigger]
            lists_entries(src, drag.sources(selection@, course@)) && r@ == dragged_entries(
                src,
                drag.spec_isometry_to(pos),
                *drag,
            ),
{
    let isom = drag.isometry_to(pos);
    let from = match &drag.external {
        Some(c) => c.entries(),
        None => {
            let cells = selection.cells();
            let mut from: Vec<(TileCoord, Tile)> = Vec::new();
            let mut i: usize = 0;
            while i < cells.len()
                invariant
                    i <= cells.len(),
                    lists_cells(cells@, selection@),
                    selection@.subset_of(course@.dom()),
                    from@.len() == i,
                    forall|j: int|
                        0 <= j < i ==> (#[trigger] from@[j]).0 == cells@[j] && from@[j].1
                            == course@[cells@[j]],
                decreases cells.len() - i,
            {
                let c = cells[i];
                assert(selection@.contains(cells@[i as int]));
                let tile = course.get(&c).unwrap();
                from.push((c, tile));
                i += 1;
            }
            proof {
                let map = course@.restrict(selection@);
                assert forall|c: TileCoord| #[trigger] map.dom().contains(c) implies exists|j: int|
                    0 <= j < from@.len() && from@[j].0 == c by {
                    let j = choose|j: int| 0 <= j < cells@.len() && cells@[j] == c;
                    assert(from@[j].0 == c);
                }
                assert forall|j: int| 0 <= j < from@.len() implies map.dom().contains(
                    #[trigger] from@[j].0,
                ) && map[from@[j].0] == from@[j].1 by {
                    assert(selection@.contains(cells@[j]));
                }
                assert forall|a: int, b: int| 0 <= a < b < from@.len() implies (#[trigger] from@[a]).0
                    != (#[trigger] from@[b]).0 by {
                    assert(cells@[a] != cells@[b]);
                }
            }
            from
        },
    };
    let ghost sources = drag.sources(selection@, course@);
    let mut r: Vec<(TileCoord, Tile)> = Vec::new();
    let mut i: usize = 0;
    while i < from.len()
        invariant
            i <= from.len(),
            lists_entries(from@, sources),
            all_near(sources.dom()),
            isom == drag.spec_isometry_to(pos),
            -(isize::MAX / 2) <= isom.offset.0 <= isize::MAX / 2,
            -(isize::MAX / 2) <= isom.offset.1 <= isize::MAX / 2,
            r@ == dragged_entries(from@.take(i as int), isom, *drag),
        decreases from.len() - i,
    {
        let (from_pos, tile) = from[i];
        proof {
            assert(sources.dom().contains(from@[i as int].0));
            lemma_act_near(isom.dihedral, from_pos);
        }
        let to = isom * from_pos;
        let put = tile.apply_transform(drag.transform).toggle_lights_if(
            drag.toggle_lights,
        ).reverse_if(drag.reverse);
        r.push((to, put));
        proof {
            assert(from@.take(i + 1) =~= from@.take(i as int).push(from@[i as int]));
            assert(r@ =~= dragged_entries(from@.take(i + 1), isom, *drag));
        }
        i += 1;
    }
    proof {
        assert(from@.take(from@.len() as int) =~= from@);
    }
    r
}

/// The tiles and the finish line after `tile` has been put on `pos`.
pub open spec fn after_set(
    state: (Map<TileCoord, Tile>, Option<TileCoord>),
    pos: TileCoord,
    tile: Tile,
) -> (Map<TileCoord, Tile>, Option<TileCoord>) {
    if state.0.dom().contains(pos) && state.0[pos] == tile {
        state
    } else {
        (tiles_after_set(state.0, state.1, pos, tile), finish_after_set(state.1, pos, tile))
    }
}

/// The tiles and the finish line after each of `items` has been put on its cell, in order.
pub open spec fn after_all_set(
    state: (Map<TileCoord, Tile>, Option<TileCoord>),
    items: Seq<(TileCoord, Tile)>,
) -> (Map<TileCoord, Tile>, Option<TileCoord>)
    decreases items.len(),
{
    if items.len() == 0 {
        state
    } else {
        after_set(after_all_set(state, items.drop_last()), items.last().0, items.last().1)
    }
}

/// The cells of `selection` that a drag by `m` leaves empty: those to which no cell of the
/// selection is taken.
pub open spec fn vacated(selection: Set<TileCoord>, m: Isometry) -> Set<TileCoord> {
    Set::new(|c: TileCoord| selection.contains(c) && !selection.contains(source_cell(m, c)))
}

/// The cells of the entries.
pub open spec fn cells_of(items: Seq<(TileCoord, Tile)>) -> Set<TileCoord> {
    Set::new(|c: TileCoord| exists|i: int| 0 <= i < items.len() && #[trigger] items[i].0 == c)
}

/// What a drag that ends over the cell `pos` makes of a course with the given tiles and
/// finish line, if it puts down `items`: the cells that it leaves empty are cleared, and
/// then the items are put on their cells.
pub open spec fn after_drag(
    tiles: Map<TileCoord, Tile>,
    finish: Option<TileCoord>,
    selection: Set<TileCoord>,
    m: Isometry,
    items: Seq<(TileCoord, Tile)>,
) -> (Map<TileCoord, Tile>, Option<TileCoord>) {
    let gone = vacated(selection, m);
    let cleared = (
        tiles.remove_keys(gone),
        if finish matches Some(f) && gone.contains(f) && tiles.dom().contains(f) {
            None
        } else {
            finish
        },
    );
    after_all_set(cleared, items)
}

/// Whether the drag `drag`, ended over the cell `pos`, has put down the tiles listed by
/// `src`: they are the new selection `selection`, and the history `after` is `before` with
/// a step that has led to what the drag makes of the course, or `before` itself if `step`
/// does not hold.
pub open spec fn drag_put_down(
    src: Seq<(TileCoord, Tile)>,
    drag: DragData,
    pos: TileCoord,
    chosen: Set<TileCoord>,
    before: CourseEdit,
    after: CourseEdit,
    selection: Set<TileCoord>,
    step: bool,
) -> bool {
    let m = drag.spec_isometry_to(pos);
    let items = dragged_entries(src, m, drag);
    let made = after_drag(before.current().tiles(), before.current().finish(), chosen, m, items);
    &&& lists_entries(src, drag.sources(chosen, before.current().tiles()))
    &&& selection == cells_of(items)
    &&& step ==> after.is_step_from(before, made.0, made.1)
    &&& !step ==> after.same_as(before) && made.0 == before.current().tiles() && made.1
        == before.current().finish()
}

/// Clears in `edit` the cells of `selection` that a drag by `isom` leaves empty.
fn clear_vacated(selection: &CellSet, edit: &mut Transaction, isom: Isometry)
    requires
        old(edit).wf(),
        !old(edit).changed(),
        all_near(selection@),
        -(isize::MAX / 2) <= isom.offset.0 <= isize::MAX / 2,
        -(isize::MAX / 2) <= isom.offset.1 <= isize::MAX / 2,
        old(edit).state().finish() matches Some(f) ==> old(edit).state().tiles().dom().contains(f),
    ensures
        final(edit).wf(),
        final(edit).state().tiles() == old(edit).state().tiles().remove_keys(
            vacated(selection@, isom),
        ),
        final(edit).state().finish() == (if old(edit).state().finish() matches Some(f) && vacated(
            selection@,
            isom,
        ).contains(f) {
            None
        } else {
            old(edit).state().finish()
        }),
        final(edit).changed() == any_tile(old(edit).state().tiles(), vacated(selection@, isom)),
{
    let ghost tiles = edit.state().tiles();
    let ghost finish = edit.state().finish();
    let ghost chosen = selection@;
    let ghost gone = vacated(chosen, isom);
    let cells = selection.cells();
    proof {
        assert(Set::<TileCoord>::empty().intersect(gone) =~= Set::<TileCoord>::empty());
        assert(tiles.remove_keys(cells@.take(0).to_set().intersect(gone)) =~= tiles);
    }
    let mut i: usize = 0;
    while i < cells.len()
        invariant
            i <= cells.len(),
            lists_cells(cells@, chosen),
            all_near(chosen),
            -(isize::MAX / 2) <= isom.offset.0 <= isize::MAX / 2,
            -(isize::MAX / 2) <= isom.offset.1 <= isize::MAX / 2,
            gone == vacated(chosen, isom),
            selection@ == chosen,
            edit.wf(),
            finish matches Some(f) ==> tiles.dom().contains(f),
            edit.state().tiles() == tiles.remove_keys(cells@.take(i as int).to_set().intersect(gone)),
            edit.state().finish() == (if finish matches Some(f) && cells@.take(
                i as int,
            ).to_set().intersect(gone).contains(f) {
                None
            } else {
                finish
            }),
            edit.changed() == any_tile(tiles, cells@.take(i as int).to_set().intersect(gone)),
        decreases cells.len() - i,
    {
        let p = cells[i];
        let ghost before = cells@.take(i as int).to_set().intersect(gone);
        let ghost now = cells@.take(i + 1).to_set().intersect(gone);
        proof {
            lemma_prefix_cells(cells@, chosen, i as int);
            assert(chosen.contains(cells@[i as int]));
        }
        let source = isom.apply_inverse(p);
        assert(source == source_cell(isom, p));
        if !selection.contains(&source) {
            edit.remove(p);
            proof {
                assert(gone.contains(p));
                assert(now =~= before.insert(p));
                assert(edit.state().tiles() =~= tiles.remove_keys(now));
                if any_tile(tiles, before) {
                    let c = choose|c: TileCoord| #[trigger]
                        before.contains(c) && tiles.dom().contains(c);
                    assert(now.contains(c));
                }
                if tiles.dom().contains(p) {
                    assert(now.contains(p));
                }
                if any_tile(tiles, now) {
                    let c = choose|c: TileCoord| #[trigger]
                        now.contains(c) && tiles.dom().contains(c);
                    assert(before.contains(c) || c == p);
                }
            }
        } else {
            proof {
                assert(!gone.contains(p));
                assert(now =~= before);
            }
        }
        i += 1;
    }
    proof {
        lemma_all_cells(cells@, chosen);
        assert(chosen.intersect(gone) =~= gone);
    }
}

/// Puts each of `items` on its cell in `edit`, in order, and returns the cells.
fn put_down(edit: &mut Transaction, items: &Vec<(TileCoord, Tile)>) -> (r: CellSet)
    requires
        old(edit).wf(),
    ensures
        final(edit).wf(),
        r@ == cells_of(items@),
        (final(edit).state().tiles(), final(edit).state().finish()) == after_all_set(
            (old(edit).state().tiles(), old(edit).state().finish()),
            items@,
        ),
        !final(edit).changed() ==> !old(edit).changed() && final(edit).state().tiles() == old(
            edit,
        ).state().tiles() && final(edit).state().finish() == old(edit).state().finish(),
{
    let mut new_selection = CellSet::new();
    let ghost cleared = (edit.state().tiles(), edit.state().finish());
    let ghost cleared_changed = edit.changed();
    let mut k: usize = 0;
    proof {
        assert(items@.take(0) =~= Seq::<(TileCoord, Tile)>::empty());
        assert(cells_of(items@.take(0)) =~= no_cells());
    }
    while k < items.len()
        invariant
            k <= items.len(),
            edit.wf(),
            new_selection@ == cells_of(items@.take(k as int)),
            (edit.state().tiles(), edit.state().finish()) == after_all_set(
                cleared,
                items@.take(k as int),
            ),
            !edit.changed() ==> !cleared_changed && (edit.state().tiles(), edit.state().finish())
                == cleared,
        decreases items.len() - k,
    {
        let (p, tile) = items[k];
        let ghost shorter = items@.take(k as int);
        let ghost longer = items@.take(k + 1);
        proof {
            assert(longer.drop_last() =~= shorter);
            assert(longer.last() == items@[k as int]);
        }
        edit.set(p, tile);
        new_selection.insert(p);
        proof {
            assert(new_selection@ =~= cells_of(longer)) by {
                assert forall|c: TileCoord|
                    new_selection@.contains(c) == cells_of(longer).contains(c) by {
                    if cells_of(shorter).contains(c) {
                        let j = choose|j: int|
                            0 <= j < shorter.len() && #[trigger] shorter[j].0 == c;
                        assert(longer[j].0 == c);
                    }
                    if c == p {
                        assert(longer[k as int].0 == c);
                    }
                    if cells_of(longer).contains(c) {
                        let j = choose|j: int|
                            0 <= j < longer.len() && #[trigger] longer[j].0 == c;
                        if j < k {
                            assert(shorter[j].0 == c);
                        }
                    }
                }
            }
        }
        k += 1;
    }
    proof {
        assert(items@.take(items@.len() as int) =~= items@);
    }
    new_selection
}

impl SelectState {
    /// Ends the drag `drag` over the cell `pos`: the dragged tiles are put down, as one step
    /// of the history, and are the new selection. Returns whether a step was added.
    fn apply_drag(&mut self, course: &mut CourseEdit, drag: DragData, pos: TileCoord) -> (r: bool)
        requires
            old(course).wf(),
            near(drag.anchor),
            near(pos),
            all_near(old(self).selection@),
            all_near(drag.sources(old(self).selection@, old(course).current().tiles()).dom()),
            drag.external is None ==> old(self).selection@.subset_of(
                old(course).current().tiles().dom(),
            ),
        ensures
            final(course).wf(),
            final(self).drag == old(self).drag,
            exists|src: Seq<(TileCoord, Tile)>| #[trigger]
                drag_put_down(
                    src,
                    drag,
                    pos,
                    old(self).selection@,
                    *old(course),
                    *final(course),
                    final(self).selection@,
                    r,
                ),
    {
        let isom = drag.isometry_to(pos);
        let old_course = course.get_course().clone();
        let mut edit = course.edit();
        let ghost tiles = course.current().tiles();
        let ghost finish = course.current().finish();
        let ghost chosen = self.selection@;
        let ghost gone = vacated(chosen, isom);
        proof {
            course.lemma_wf();
            course.current().lemma_finish_is_occupied();
        }
        clear_vacated(&self.selection, &mut edit, isom);
        let items = drag_tiles(&self.selection, &drag, &old_course, pos);
        let ghost src = choose|src: Seq<(TileCoord, Tile)>| #[trigger]
            lists_entries(src, drag.sources(chosen, tiles)) && items@ == dragged_entries(
                src,
                isom,
                drag,
            );
        let ghost cleared = (edit.state().tiles(), edit.state().finish());
        self.selection = put_down(&mut edit, &items);
        let r = edit.commit(course);
        proof {
            let m = drag.spec_isometry_to(pos);
            let after = after_drag(tiles, finish, chosen, m, items@);
            assert(cleared.0 == tiles.remove_keys(gone));
            assert(after == after_all_set(cleared, items@));
            if !r {
                assert(tiles.remove_keys(gone) == tiles);
                if finish is Some && gone.contains(finish->0) {
                    assert(any_tile(tiles, gone));
                }
            }
            assert(drag_put_down(src, drag, pos, chosen, *old(course), *course, self.selection@, r));
        }
        r
    }

    /// The pointer goes up over the cell `pos`. A drag under way ends, and its tiles are
    /// put down; a rectangle that was being drawn is added to the selection. Returns
    /// whether a step was added to the history.
    pub fn release(&mut self, course: &mut CourseEdit, pos: TileCoord) -> (r: bool)
        requires
            old(course).wf(),
            old(self).drag matches DragState::Dragging(drag) ==> {
                &&& near(drag.anchor)
                &&& near(pos)
                &&& all_near(old(self).selection@)
                &&& all_near(drag.sources(old(self).selection@, old(course).current().tiles()).dom())
                &&& drag.external is None ==> old(self).selection@.subset_of(
                    old(course).current().tiles().dom(),
                )
            },
        ensures
            final(course).wf(),
            final(self).drag is NoDrag,
            old(self).drag matches DragState::Dragging(drag) ==> exists|src: Seq<(TileCoord, Tile)>| #[trigger]
                drag_put_down(
                    src,
                    drag,
                    pos,
                    old(self).selection@,
                    *old(course),
                    *final(course),
                    final(self).selection@,
                    r,
                ),
            old(self).drag matches DragState::Selecting(start) ==> {
                &&& !r
                &&& final(course).same_as(*old(course))
                &&& forall|c: TileCoord| #[trigger]
                    final(self).selection@.contains(c) == (old(self).selection@.contains(c) || (
                    old(course).current().tiles().dom().contains(c) && in_rect(c, start, pos)))
            },
            old(self).drag is NoDrag ==> {
                &&& !r
                &&& final(course).same_as(*old(course))
                &&& final(self).selection@ == old(self).selection@
            },
    {
        let mut old_drag = DragState::NoDrag;
        core::mem::swap(&mut self.drag, &mut old_drag);
        match old_drag {
            DragState::Dragging(drag) => self.apply_drag(course, drag, pos),
            DragState::Selecting(start) => {
                self.finish_rect(course.get_course(), start, pos);
                false
            },
            DragState::NoDrag => false,
        }
    }

    /// The state in which `course` is dragged in from elsewhere, held at the cell `anchor`.
    pub fn load_external(course: Course, anchor: TileCoord) -> (r: SelectState)
        ensures
            r.selection@ == no_cells(),
            r.drag == DragState::Dragging(
                DragData {
                    anchor,
                    transform: DihedralElement::Id,
                    toggle_lights: false,
                    reverse: false,
                    external: Some(course),
                },
            ),
    {
        SelectState {
            selection: CellSet::new(),
            drag: DragState::Dragging(
                DragData {
                    anchor,
                    transform: DihedralElement::Id,
                    toggle_lights: false,
                    reverse: false,
                    external: Some(course),
                },
            ),
        }
    }
}

} // verus!
