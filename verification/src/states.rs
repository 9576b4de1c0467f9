//! What the screens hold and decide: the tool of the editor, the race that is shown, and the
//! dialog for a level of one's own.

use crate::course::{Course, CourseEdit, TileCoord};
use crate::course::{finish_after_set, tiles_after_set};
use crate::direction::{DihedralElement, Direction};
use crate::input::Action;
use crate::level::{LevelData, SolveData};
use crate::path::Path;
use crate::playback::{
    animations, duration_nanos, has_elapsed, lists_ways, CarAnimation, Playback,
};
use crate::selection::{
    lights_toggled, no_cells, selection_deleted, transform_applied, SelectState as Selection,
};
use crate::simulator::{
    course_in_range, names_car_below, CarData, EventView, SimEvent, Simulator, SimulatorView,
    MAX_ROUNDS,
};
use crate::tile::{Tile, TileType};
use crate::tooltip::TooltipState;
use crate::tracker::{not_finishing, Tracker, TrackerView};
use core::time::Duration;
use vstd::prelude::*;
use vstd::string::*;

verus! {

/// The tool of the editor.
pub enum TrackSelection {
    /// Tiles like this one are placed.
    Draw(Tile),
    /// Tiles are cleared.
    Erase,
    /// Tiles are selected, changed and dragged about.
    Modify(Selection),
    /// Paths are drawn.
    Path(Path),
}

impl TrackSelection {
    pub open spec fn spec_tile_type(&self) -> Option<TileType> {
        match self {
            TrackSelection::Draw(t) => Some(t.tile_type),
            _ => None,
        }
    }

    /// The type of the tiles that are placed, if the tool places tiles.
    #[verifier::when_used_as_spec(spec_tile_type)]
    pub fn tile_type(&self) -> (r: Option<TileType>)
        ensures
            r == self.spec_tile_type(),
    {
        match self {
            TrackSelection::Draw(t) => Some(t.tile_type),
            _ => None,
        }
    }

    /// Takes up the tool that places tiles of the type `tile`, in canonical position,
    /// unless it is in use already.
    pub fn select(&mut self, tile: TileType)
        ensures
            old(self).spec_tile_type() == Some(tile) ==> *final(self) == *old(self),
            old(self).spec_tile_type() != Some(tile) ==> *final(self) == TrackSelection::Draw(
                Tile::default_for_type(tile),
            ),
    {
        let same = match self.tile_type() {
            Some(t) => t == tile,
            None => false,
        };
        if !same {
            *self = TrackSelection::Draw(
                Tile { tile_type: tile, transform: DihedralElement::Id, offset: 0 },
            );
        }
    }

    /// Forgets what is selected, if the tool is the one that selects.
    pub fn reset_selection(&mut self)
        ensures
            match *old(self) {
                TrackSelection::Modify(_) => *final(self) matches TrackSelection::Modify(sel)
                    && sel.selection@ == no_cells() && sel.drag is NoDrag,
                _ => *final(self) == *old(self),
            },
    {
        if let TrackSelection::Modify(sel) = self {
            sel.clear();
        }
    }

    /// Whether `action` is the action that takes up the tool in use.
    pub fn is_action_selected(&self, action: &Action) -> (r: bool)
        ensures
            r == (match *self {
                TrackSelection::Draw(t) => *action == Action::SelectTile(t.tile_type),
                TrackSelection::Erase => *action == Action::SelectErase,
                TrackSelection::Modify(_) => *action == Action::SelectModify,
                TrackSelection::Path(_) => *action == Action::SelectPath,
            }),
    {
        match self {
            TrackSelection::Draw(t) => *action == Action::SelectTile(t.tile_type),
            TrackSelection::Erase => *action == Action::SelectErase,
            TrackSelection::Modify(_) => *action == Action::SelectModify,
            TrackSelection::Path(_) => *action == Action::SelectPath,
        }
    }
}

impl Default for TrackSelection {
    fn default() -> (r: TrackSelection)
        ensures
            r matches TrackSelection::Modify(sel) && sel.selection@ == no_cells() && sel.drag
                is NoDrag,
    {
        TrackSelection::Modify(Selection::default())
    }
}

/// The screen on which a level is chosen: for each level, the best solution so far.
pub struct SelectState {
    pub solved: Vec<Option<SolveData>>,
}

/// What was chosen on that screen.
pub enum SelectStatus {
    Level(usize),
    Custom,
    Settings,
    Credits,
    Idle,
}

/// How far the end of a race has been dealt with.
#[derive(Copy, Clone, PartialEq, Eq, Structural)]
pub enum RaceEndStatus {
    Simulating,
    PopupQueued,
    ShowingPopup,
    Finished,
}

/// The answer of a dialog.
pub enum DialogResponse<T> {
    Accepted(T),
    Rejected,
    Waiting,
}

/// The dialog for a level of one's own: the number of cars, and the finishing order as
/// typed.
pub struct CustomSpecState {
    pub cars: usize,
    pub finish: String,
    pub finish_is_valid: bool,
}

/// Whether the character is one of the ten digits.
pub open spec fn is_digit(c: char) -> bool {
    '0' <= c <= '9'
}

/// The numbers written in the text `s`, in order: each run of digits that cannot be made
/// longer is a number, whatever stands between the runs. `current` is the value of the
/// digits of a run that ends where `s` starts, if there is such a run.
pub open spec fn numbers_from(s: Seq<char>, current: Option<nat>) -> Seq<nat>
    decreases s.len(),
{
    if s.len() == 0 {
        match current {
            Some(v) => seq![v],
            None => Seq::empty(),
        }
    } else if is_digit(s[0]) {
        let v = match current {
            Some(v) => v,
            None => 0,
        };
        numbers_from(s.drop_first(), Some(10 * v + (s[0] as nat - '0' as nat) as nat))
    } else {
        (match current {
            Some(v) => seq![v],
            None => Seq::empty(),
        }) + numbers_from(s.drop_first(), None)
    }
}

/// The numbers written in the text `s`, in order.
pub open spec fn numbers(s: Seq<char>) -> Seq<nat> {
    numbers_from(s, None)
}

/// What the `k`th number of a finishing order stands for: a car, if the number is that of
/// one of the `cars` cars and has not come before.
pub open spec fn finisher(nums: Seq<nat>, cars: usize, k: int) -> Option<usize> {
    if nums[k] < cars && !nums.take(k).contains(nums[k]) {
        Some(nums[k] as usize)
    } else {
        None
    }
}

/// What the numbers of a finishing order stand for, in order.
pub open spec fn finishers(nums: Seq<nat>, cars: usize) -> Seq<Option<usize>> {
    Seq::new(nums.len(), |k: int| finisher(nums, cars, k))
}

/// Whether the text `s` is a finishing order for `cars` cars: each number is that of a car,
/// and none comes twice.
pub open spec fn is_finishing_order(s: Seq<char>, cars: usize) -> bool {
    forall|k: int| 0 <= k < numbers(s).len() ==> (#[trigger] finisher(numbers(s), cars, k)) is Some
}

/// The value of a run of digits with one more digit, as far as it matters: values from
/// `cars` on all stand for no car, so `cars` stands in for them.
fn push_digit(v: usize, digit: usize, cars: usize) -> (r: usize)
    requires
        digit < 10,
        v <= cars,
    ensures
        r <= cars,
        v < cars && 10 * v + digit < cars ==> r == 10 * v + digit,
        v >= cars || 10 * v + digit >= cars ==> r == cars,
{
    if v >= cars {
        cars
    } else {
        match v.checked_mul(10) {
            Some(w) => match w.checked_add(digit) {
                Some(x) => if x < cars {
                    x
                } else {
                    cars
                },
                None => cars,
            },
            None => cars,
        }
    }
}

/// Whether `v` stands for the number `n` as far as it matters: it is `n` if `n` is below
/// `cars`, and `cars` if not.
spec fn stands_for(v: usize, n: nat, cars: usize) -> bool {
    if n < cars {
        v == n
    } else {
        v == cars
    }
}

/// The numbers written in `text`, with `cars` in place of each that is not below `cars`.
fn scan_numbers(text: &str, cars: usize) -> (r: Vec<usize>)
    ensures
        r@.len() == numbers(text@).len(),
        forall|k: int| 0 <= k < r@.len() ==> stands_for(#[trigger] r@[k], numbers(text@)[k], cars),
{
    let n = text.unicode_len();
    let mut r: Vec<usize> = Vec::new();
    let mut current: Option<usize> = None;
    let ghost mut done: Seq<nat> = Seq::empty();
    let ghost mut value: Option<nat> = None;
    let mut i: usize = 0;
    proof {
        assert(text@.skip(0) =~= text@);
        assert(done + numbers_from(text@.skip(0), value) =~= numbers(text@));
    }
    while i < n
        invariant
            i <= n,
            n == text@.len(),
            numbers(text@) == done + numbers_from(text@.skip(i as int), value),
            r@.len() == done.len(),
            forall|k: int| 0 <= k < r@.len() ==> stands_for(#[trigger] r@[k], done[k], cars),
            current is Some == value is Some,
            current matches Some(v) ==> stands_for(v, value->0, cars),
        decreases n - i,
    {
        let c = text.get_char(i);
        let ghost rest = text@.skip(i as int);
        proof {
            assert(rest[0] == c);
            assert(rest.drop_first() =~= text@.skip(i + 1));
        }
        let digit: Option<usize> = if c == '0' {
            Some(0)
        } else if c == '1' {
            Some(1)
        } else if c == '2' {
            Some(2)
        } else if c == '3' {
            Some(3)
        } else if c == '4' {
            Some(4)
        } else if c == '5' {
            Some(5)
        } else if c == '6' {
            Some(6)
        } else if c == '7' {
            Some(7)
        } else if c == '8' {
            Some(8)
        } else if c == '9' {
            Some(9)
        } else {
            None
        };
        assert(digit is Some == is_digit(c));
        assert(digit matches Some(d) ==> d == c as nat - '0' as nat);
        match digit {
            Some(d) => {
                let v = match current {
                    Some(v) => v,
                    None => 0,
                };
                let ghost before: nat = match value {
                    Some(v) => v,
                    None => 0,
                };
                proof {
                    if current is None {
                        assert(stands_for(0usize, 0nat, cars) || cars == 0);
                    }
                }
                let capped = if v <= cars {
                    v
                } else {
                    cars
                };
                current = Some(push_digit(capped, d, cars));
                proof {
                    value = Some(10 * before + d as nat);
                }
            },
            None => {
                if let Some(v) = current {
                    r.push(v);
                    proof {
                        let flushed = done.push(value->0);
                        assert(done + (seq![value->0] + numbers_from(text@.skip(i + 1), None))
                            =~= flushed + numbers_from(text@.skip(i + 1), None));
                        done = flushed;
                    }
                } else {
                    proof {
                        assert(done + (Seq::<nat>::empty() + numbers_from(
                            text@.skip(i + 1),
                            None,
                        )) =~= done + numbers_from(text@.skip(i + 1), None));
                    }
                }
                current = None;
                proof {
                    value = None;
                }
            },
        }
        i += 1;
    }
    proof {
        assert(text@.skip(n as int) =~= Seq::<char>::empty());
    }
    if let Some(v) = current {
        r.push(v);
        proof {
            assert(done + seq![value->0] =~= done.push(value->0));
            done = done.push(value->0);
        }
    } else {
        proof {
            assert(done + Seq::<nat>::empty() =~= done);
        }
    }
    r
}

impl CustomSpecState {
    /// The dialog as it comes up: no cars, and an empty finishing order, which is valid.
    pub fn new() -> (r: CustomSpecState)
        ensures
            r.cars == 0,
            r.finish@.len() == 0,
            r.finish_is_valid,
    {
        let r = CustomSpecState { cars: 0, finish: String::new(), finish_is_valid: true };
        r
    }

    /// What the numbers written in `finish` stand for, in order: a car, for a number that
    /// is that of one of the `cars` cars and has not come before.
    pub fn parse_finish(cars: usize, finish: &str) -> (r: Vec<Option<usize>>)
        ensures
            r@ == finishers(numbers(finish@), cars),
    {
        let nums = scan_numbers(finish, cars);
        let ghost written = numbers(finish@);
        let mut seen: Vec<bool> = Vec::new();
        let mut i: usize = 0;
        while i < cars
            invariant
                i <= cars,
                seen@.len() == i,
                forall|m: int| 0 <= m < i ==> !seen@[m],
            decreases cars - i,
        {
            seen.push(false);
            i += 1;
        }
        let mut r: Vec<Option<usize>> = Vec::new();
        let mut k: usize = 0;
        while k < nums.len()
            invariant
                k <= nums@.len(),
                written == numbers(finish@),
                nums@.len() == written.len(),
                forall|j: int|
                    0 <= j < nums@.len() ==> stands_for(#[trigger] nums@[j], written[j], cars),
                seen@.len() == cars,
                forall|m: int| 0 <= m < cars ==> seen@[m] == written.take(k as int).contains(m as nat),
                r@ == finishers(written, cars).take(k as int),
            decreases nums.len() - k,
        {
            let n = nums[k];
            let ghost shorter = written.take(k as int);
            let ghost longer = written.take(k + 1);
            proof {
                assert(stands_for(nums@[k as int], written[k as int], cars));
                assert(longer =~= shorter.push(written[k as int]));
                assert forall|m: nat|
                    longer.contains(m) == (shorter.contains(m) || m == written[k as int]) by {
                    if shorter.contains(m) {
                        let j = choose|j: int| 0 <= j < shorter.len() && #[trigger] shorter[j] == m;
                        assert(longer[j] == m);
                    }
                    if m == written[k as int] {
                        assert(longer[k as int] == m);
                    }
                    if longer.contains(m) {
                        let j = choose|j: int| 0 <= j < longer.len() && #[trigger] longer[j] == m;
                        if j < k {
                            assert(shorter[j] == m);
                        }
                    }
                }
            }
            let item = if n < cars && !seen[n] {
                seen[n] = true;
                Some(n)
            } else {
                None
            };
            r.push(item);
            proof {
                assert(item == finisher(written, cars, k as int));
                assert(r@ =~= finishers(written, cars).take(k + 1));
            }
            k += 1;
        }
        proof {
            assert(finishers(written, cars).take(nums@.len() as int) =~= finishers(written, cars));
        }
        r
    }

    /// Notes whether `finish` is a finishing order for `cars` cars.
    pub fn check_finish(&mut self)
        ensures
            final(self).cars == old(self).cars,
            final(self).finish == old(self).finish,
            final(self).finish_is_valid == is_finishing_order(old(self).finish@, old(self).cars),
    {
        let items = CustomSpecState::parse_finish(self.cars, self.finish.as_str());
        let ghost written = numbers(self.finish@);
        let mut all = true;
        let mut k: usize = 0;
        while k < items.len()
            invariant
                k <= items@.len(),
                written == numbers(self.finish@),
                self.finish == old(self).finish,
                self.cars == old(self).cars,
                items@ == finishers(written, self.cars),
                all == forall|j: int| 0 <= j < k ==> (#[trigger] finisher(written, self.cars, j)) is Some,
            decreases items.len() - k,
        {
            if items[k].is_none() {
                all = false;
                assert(finisher(written, self.cars, k as int) is None);
            }
            k += 1;
        }
        self.finish_is_valid = all;
    }

    /// The finishing order that `finish` gives, if it is one.
    pub fn get_finish(&self) -> (r: Option<Vec<usize>>)
        ensures
            r is Some == is_finishing_order(self.finish@, self.cars),
            r matches Some(order) ==> order@.len() == numbers(self.finish@).len() && forall|k: int|
                0 <= k < order@.len() ==> #[trigger] order@[k] == numbers(self.finish@)[k],
    {
        let items = CustomSpecState::parse_finish(self.cars, self.finish.as_str());
        let ghost written = numbers(self.finish@);
        let mut order: Vec<usize> = Vec::new();
        let mut k: usize = 0;
        while k < items.len()
            invariant
                k <= items@.len(),
                written == numbers(self.finish@),
                items@ == finishers(written, self.cars),
                order@.len() == k,
                forall|j: int| 0 <= j < k ==> (#[trigger] finisher(written, self.cars, j)) is Some,
                forall|j: int| 0 <= j < k ==> #[trigger] order@[j] == written[j],
            decreases items.len() - k,
        {
            match items[k] {
                Some(n) => {
                    assert(finisher(written, self.cars, k as int) == Some(n));
                    order.push(n);
                },
                None => {
                    assert(finisher(numbers(self.finish@), self.cars, k as int) is None);
                    assert(k < numbers(self.finish@).len());
                    return None;
                },
            }
            k += 1;
        }
        assert(items@.len() == written.len());
        assert(is_finishing_order(self.finish@, self.cars));
        Some(order)
    }
}

impl Default for CustomSpecState {
    fn default() -> (r: CustomSpecState)
        ensures
            r.cars == 0,
            r.finish@.len() == 0,
            r.finish_is_valid,
    {
        CustomSpecState::new()
    }
}

/// What an action asks of the editor's screen beyond the state kept here.
#[derive(Copy, Clone, PartialEq, Eq, Structural)]
pub enum EditEffect {
    Nothing,
    /// A step was added to the history, or the current state has changed.
    CourseChanged,
    /// The view is to move by one cell.
    Scroll(Direction),
}

/// The editor: the level, the course with its history, and the tool in use.
pub struct EditState {
    pub level_data: LevelData,
    pub course: CourseEdit,
    pub track_selection: TrackSelection,
    pub tooltip: Option<TooltipState>,
    pub show_keys: bool,
    pub copy_dialog_data: Option<Vec<bool>>,
    pub click_in_gui: bool,
}

/// The dihedral element by which an action moves tiles, if it moves tiles.
pub open spec fn transform_of(action: Action) -> Option<DihedralElement> {
    match action {
        Action::RotCW => Some(DihedralElement::Rot90),
        Action::RotCCW => Some(DihedralElement::Rot270),
        Action::Flip => Some(DihedralElement::Flip0),
        _ => None,
    }
}

/// Whether the action changes tiles: it moves them, puts them into their other phase, or
/// clears them.
pub open spec fn changes_tiles(action: Action) -> bool {
    transform_of(action) is Some || action == Action::ToggleLights || action == Action::Delete
}

impl EditState {
    /// Whether the state is valid: the history is.
    pub open spec fn wf(self) -> bool {
        self.course.wf()
    }

    /// Whether all but the course and the tool are as in `before`.
    pub open spec fn same_frame(self, before: EditState) -> bool {
        &&& self.level_data == before.level_data
        &&& self.tooltip == before.tooltip
        &&& self.show_keys == before.show_keys
        &&& self.copy_dialog_data == before.copy_dialog_data
        &&& self.click_in_gui == before.click_in_gui
    }

    /// What `process_transform` makes of the tool and the course, for an action that
    /// changes tiles. With the tool that places tiles, the tile to be placed is changed; with
    /// the tool that selects, the selection is; the other tools are not concerned.
    pub open spec fn transformed(self, before: EditState, action: Action, step: bool) -> bool {
        match before.track_selection {
            TrackSelection::Draw(tile) => {
                &&& !step
                &&& self.course.same_as(before.course)
                &&& self.track_selection == TrackSelection::Draw(
                    match transform_of(action) {
                        Some(e) => Tile { transform: e.compose(tile.transform), ..tile },
                        None => if action == Action::ToggleLights {
                            Tile { offset: tile.offset ^ 1, ..tile }
                        } else {
                            tile
                        },
                    },
                )
            },
            TrackSelection::Modify(sel) => self.track_selection matches TrackSelection::Modify(
                sel_after,
            ) && (match transform_of(action) {
                Some(e) => transform_applied(sel, before.course, sel_after, self.course, e, step),
                None => if action == Action::ToggleLights {
                    lights_toggled(sel, before.course, sel_after, self.course, step)
                } else {
                    selection_deleted(sel, before.course, sel_after, self.course, step)
                },
            }),
            _ => !step && self.course.same_as(before.course) && self.track_selection
                == before.track_selection,
        }
    }

    /// The editor for a level and a course with its history.
    pub fn new_with_course_edit(data: LevelData, course: CourseEdit) -> (r: EditState)
        ensures
            r.level_data == data,
            r.course == course,
            r.track_selection matches TrackSelection::Modify(sel) && sel.selection@ == no_cells()
                && sel.drag is NoDrag,
            r.tooltip is None,
            !r.show_keys,
            r.copy_dialog_data is None,
            !r.click_in_gui,
    {
        EditState {
            level_data: data,
            course,
            track_selection: TrackSelection::default(),
            tooltip: None,
            show_keys: false,
            copy_dialog_data: None,
            click_in_gui: false,
        }
    }

    /// The editor for a level and a course.
    pub fn new_with_course(data: LevelData, course: Course) -> (r: EditState)
        ensures
            r.wf(),
            r.level_data == data,
            r.course.states().len() == 1,
            r.course.current().tiles() == course@,
            r.track_selection matches TrackSelection::Modify(sel) && sel.selection@ == no_cells()
                && sel.drag is NoDrag,
            r.tooltip is None,
            !r.show_keys,
            r.copy_dialog_data is None,
            !r.click_in_gui,
    {
        EditState::new_with_course_edit(data, CourseEdit::new(course))
    }

    /// Puts `tile` on the cell `pos` as a step of its own. Returns whether anything changed.
    pub fn set_tile(&mut self, pos: TileCoord, tile: Tile) -> (r: bool)
        requires
            old(self).wf(),
        ensures
            final(self).wf(),
            final(self).same_frame(*old(self)),
            final(self).track_selection == old(self).track_selection,
            ({
                let before = old(self).course.current();
                let same = before.tiles().dom().contains(pos) && before.tiles()[pos] == tile;
                &&& r == !same
                &&& same ==> final(self).course.same_as(old(self).course)
                &&& !same ==> final(self).course.is_step_from(
                    old(self).course,
                    tiles_after_set(before.tiles(), before.finish(), pos, tile),
                    finish_after_set(before.finish(), pos, tile),
                )
            }),
    {
        self.course.set_single(pos, tile)
    }

    /// Clears the cell `pos` as a step of its own. Returns whether anything changed.
    pub fn remove_tile(&mut self, pos: TileCoord) -> (r: bool)
        requires
            old(self).wf(),
        ensures
            final(self).wf(),
            final(self).same_frame(*old(self)),
            final(self).track_selection == old(self).track_selection,
            ({
                let before = old(self).course.current();
                &&& r == before.tiles().dom().contains(pos)
                &&& !r ==> final(self).course.same_as(old(self).course)
                &&& r ==> final(self).course.is_step_from(
                    old(self).course,
                    before.tiles().remove(pos),
                    if before.finish() == Some(pos) {
                        None
                    } else {
                        before.finish()
                    },
                )
            }),
    {
        let mut transaction = self.course.edit();
        transaction.remove(pos);
        transaction.commit(&mut self.course)
    }

    /// Steps back in the history and forgets the selection. Returns whether the current state
    /// changed.
    pub fn undo(&mut self) -> (r: bool)
        requires
            old(self).wf(),
        ensures
            final(self).wf(),
            final(self).same_frame(*old(self)),
            final(self).course.states() == old(self).course.states(),
            r == (old(self).course.position() > 0),
            final(self).course.position() == (if r {
                old(self).course.position() - 1
            } else {
                old(self).course.position()
            }),
            match old(self).track_selection {
                TrackSelection::Modify(_) => final(self).track_selection matches TrackSelection::Modify(
                    sel,
                ) && sel.selection@ == no_cells() && sel.drag is NoDrag,
                _ => final(self).track_selection == old(self).track_selection,
            },
    {
        let r = self.course.undo();
        self.track_selection.reset_selection();
        r
    }

    /// Steps forward in the history and forgets the selection. Returns whether the current
    /// state changed.
    pub fn redo(&mut self) -> (r: bool)
        requires
            old(self).wf(),
        ensures
            final(self).wf(),
            final(self).same_frame(*old(self)),
            final(self).course.states() == old(self).course.states(),
            r == (old(self).course.position() + 1 < old(self).course.states().len()),
            final(self).course.position() == (if r {
                old(self).course.position() + 1
            } else {
                old(self).course.position()
            }),
            match old(self).track_selection {
                TrackSelection::Modify(_) => final(self).track_selection matches TrackSelection::Modify(
                    sel,
                ) && sel.selection@ == no_cells() && sel.drag is NoDrag,
                _ => final(self).track_selection == old(self).track_selection,
            },
    {
        let r = self.course.redo();
        self.track_selection.reset_selection();
        r
    }

    /// Carries out an action that changes tiles, on the tile to be placed or on the
    /// selection. Returns whether a step was added to the history.
    pub fn process_transform(&mut self, action: Action) -> (r: bool)
        requires
            old(self).wf(),
            changes_tiles(action),
        ensures
            final(self).wf(),
            final(self).same_frame(*old(self)),
            final(self).transformed(*old(self), action, r),
    {
        match &mut self.track_selection {
            TrackSelection::Draw(tile) => {
                match action {
                    Action::RotCW => {
                        tile.transform = DihedralElement::Rot90 * tile.transform;
                    },
                    Action::RotCCW => {
                        tile.transform = DihedralElement::Rot270 * tile.transform;
                    },
                    Action::Flip => {
                        tile.transform = DihedralElement::Flip0 * tile.transform;
                    },
                    Action::ToggleLights => {
                        tile.offset = tile.offset ^ 1;
                    },
                    _ => {},
                }
                false
            },
            TrackSelection::Modify(selection) => {
                match action {
                    Action::RotCW => selection.apply_transform(
                        &mut self.course,
                        DihedralElement::Rot90,
                    ),
                    Action::RotCCW => selection.apply_transform(
                        &mut self.course,
                        DihedralElement::Rot270,
                    ),
                    Action::Flip => selection.apply_transform(
                        &mut self.course,
                        DihedralElement::Flip0,
                    ),
                    Action::ToggleLights => selection.toggle_lights(&mut self.course),
                    _ => selection.delete(&mut self.course),
                }
            },
            _ => false,
        }
    }

    /// Carries out an action of the editor, as far as it concerns the state kept here, and
    /// returns what is left for the screen to do.
    pub fn process_action(&mut self, action: Action) -> (r: EditEffect)
        requires
            old(self).wf(),
        ensures
            final(self).wf(),
            final(self).same_frame(*old(self)),
            changes_tiles(action) ==> exists|step: bool| #[trigger]
                final(self).transformed(*old(self), action, step) && r == (if step {
                    EditEffect::CourseChanged
                } else {
                    EditEffect::Nothing
                }),
            action == Action::SelectModify ==> {
                &&& r == EditEffect::Nothing
                &&& final(self).course == old(self).course
                &&& final(self).track_selection matches TrackSelection::Modify(sel)
                    && sel.selection@ == no_cells() && sel.drag is NoDrag
            },
            action == Action::SelectErase ==> r == EditEffect::Nothing && final(self).course
                == old(self).course && final(self).track_selection == TrackSelection::Erase,
            action == Action::SelectPath ==> {
                &&& r == EditEffect::Nothing
                &&& final(self).course == old(self).course
                &&& final(self).track_selection matches TrackSelection::Path(path) && path@.len()
                    == 0
            },
            action matches Action::SelectTile(t) ==> r == EditEffect::Nothing && final(self).course == old(self).course && final(self).track_selection == (if old(self).track_selection.spec_tile_type() == Some(t) {
                old(self).track_selection
            } else {
                TrackSelection::Draw(Tile::default_for_type(t))
            }),
            action matches Action::Scroll(dir) ==> r == EditEffect::Scroll(dir) && final(self).course == old(self).course && final(self).track_selection == old(self).track_selection,
            action == Action::Undo ==> r == (if old(self).course.position() > 0 {
                EditEffect::CourseChanged
            } else {
                EditEffect::Nothing
            }) && final(self).course.states() == old(self).course.states() && final(self).course.position() == (if old(self).course.position() > 0 {
                old(self).course.position() - 1
            } else {
                old(self).course.position()
            }),
            action == Action::Redo ==> r == (if old(self).course.position() + 1 < old(self).course.states().len() {
                EditEffect::CourseChanged
            } else {
                EditEffect::Nothing
            }) && final(self).course.states() == old(self).course.states() && final(self).course.position() == (if old(self).course.position() + 1 < old(self).course.states().len() {
                old(self).course.position() + 1
            } else {
                old(self).course.position()
            }),
            !changes_tiles(action) && !(action == Action::SelectModify || action
                == Action::SelectErase || action == Action::SelectPath || action is SelectTile
                || action is Scroll || action == Action::Undo || action == Action::Redo) ==> r
                == EditEffect::Nothing && final(self).course == old(self).course && final(self).track_selection == old(self).track_selection,
    {
        match action {
            Action::RotCW
            | Action::RotCCW
            | Action::Flip
            | Action::ToggleLights
            | Action::Delete => {
                if self.process_transform(action) {
                    assert(self.transformed(*old(self), action, true));
                    EditEffect::CourseChanged
                } else {
                    assert(self.transformed(*old(self), action, false));
                    EditEffect::Nothing
                }
            },
            Action::SelectModify => {
                self.track_selection = TrackSelection::default();
                EditEffect::Nothing
            },
            Action::SelectErase => {
                self.track_selection = TrackSelection::Erase;
                EditEffect::Nothing
            },
            Action::SelectPath => {
                self.track_selection = TrackSelection::Path(Path::default());
                EditEffect::Nothing
            },
            Action::SelectTile(t) => {
                self.track_selection.select(t);
                EditEffect::Nothing
            },
            Action::Scroll(dir) => EditEffect::Scroll(dir),
            Action::Undo => {
                if self.undo() {
                    EditEffect::CourseChanged
                } else {
                    EditEffect::Nothing
                }
            },
            Action::Redo => {
                if self.redo() {
                    EditEffect::CourseChanged
                } else {
                    EditEffect::Nothing
                }
            },
            _ => EditEffect::Nothing,
        }
    }
}

/// A race that is shown: the simulator, the record of the rounds run so far, and the round
/// on the screen.
pub struct RaceState {
    pub level_data: LevelData,
    pub playback: Playback,
    pub sim: Simulator,
    pub tracker: Tracker,
    /// The number of the round on the screen.
    pub round: usize,
    pub status: RaceEndStatus,
    /// The course with its history, for the way back to the editor.
    pub edit: CourseEdit,
    pub show_keys: bool,
    /// The ways of the cars into the round on the screen, if they are to be shown.
    pub animations: Vec<CarAnimation>,
    /// The time at which the round on the screen came up.
    pub round_display_time: Duration,
}

/// The rounds on record after `events` have been noted.
pub open spec fn rounds_after(rounds: Seq<Seq<CarData>>, events: Seq<EventView>) -> Seq<
    Seq<CarData>,
>
    decreases events.len(),
{
    if events.len() == 0 {
        rounds
    } else {
        let before = rounds_after(rounds, events.drop_last());
        match events.last() {
            EventView::Round(cars) => before.push(cars),
            _ => before,
        }
    }
}

/// The finishing order after `events` have been noted.
pub open spec fn finished_after(finished: Seq<usize>, events: Seq<EventView>) -> Seq<usize>
    decreases events.len(),
{
    if events.len() == 0 {
        finished
    } else {
        let before = finished_after(finished, events.drop_last());
        match events.last() {
            EventView::Finished(car) => before.push(car),
            _ => before,
        }
    }
}

/// The crashes on record after `events` have been noted.
pub open spec fn crashed_after(crashed: Seq<bool>, events: Seq<EventView>) -> Seq<bool>
    decreases events.len(),
{
    if events.len() == 0 {
        crashed
    } else {
        let before = crashed_after(crashed, events.drop_last());
        match events.last() {
            EventView::Crashed(car) => before.update(car as int, true),
            _ => before,
        }
    }
}

/// Whether the two lists hold the same numbers in the same order.
fn same_order(a: &Vec<usize>, b: &Vec<usize>) -> (r: bool)
    ensures
        r == (a@ == b@),
{
    if a.len() != b.len() {
        return false;
    }
    let mut i: usize = 0;
    while i < a.len()
        invariant
            i <= a@.len(),
            a@.len() == b@.len(),
            forall|j: int| 0 <= j < i ==> a@[j] == b@[j],
        decreases a.len() - i,
    {
        if a[i] != b[i] {
            return false;
        }
        i += 1;
    }
    assert(a@ =~= b@);
    true
}

impl RaceState {
    /// Whether the state is valid: the simulator and the record are, the events of the
    /// simulator have been noted, the round on the screen is on record, and the record is for
    /// the cars of the level, which are those that start.
    pub open spec fn wf(self) -> bool {
        &&& self.sim@.wf()
        &&& self.tracker.wf()
        &&& self.edit.wf()
        &&& self.sim@.pending.len() == 0
        &&& self.round < self.tracker@.rounds.len()
        &&& self.level_data.cars == self.sim@.max_cars
        &&& self.tracker@.crashed.len() == self.level_data.cars
        &&& forall|k: int|
            0 <= k < self.tracker@.finished.len() ==> #[trigger] self.tracker@.finished[k]
                < self.level_data.cars
    }

    /// Whether the race is over: the simulator has finished, or the race repeats itself.
    pub open spec fn spec_is_finished(self) -> bool {
        self.sim@.round >= MAX_ROUNDS || (self.sim@.cars.len() == 0 && self.sim@.next_car
            >= self.sim@.max_cars) || self.tracker@.loop_detected
    }

    /// Whether all but the simulator, the record, the round and the ways shown are as in
    /// `before`.
    pub open spec fn same_frame(self, before: RaceState) -> bool {
        &&& self.level_data == before.level_data
        &&& self.status == before.status
        &&& self.edit == before.edit
        &&& self.show_keys == before.show_keys
    }

    /// Whether the simulator has run one more round than in `before`, and the record has
    /// noted it.
    pub open spec fn ran_round(self, before: RaceState) -> bool {
        exists|allow: Seq<bool>| #[trigger]
            before.sim@.may_say(allow) && ({
                let ran = before.sim@.after_round(allow);
                &&& self.sim@ == (SimulatorView { pending: Seq::empty(), ..ran })
                &&& self.tracker@.rounds == rounds_after(before.tracker@.rounds, ran.pending)
                &&& self.tracker@.finished == finished_after(before.tracker@.finished, ran.pending)
                &&& self.tracker@.crashed == crashed_after(before.tracker@.crashed, ran.pending)
                &&& self.tracker@.rounds.len() == before.tracker@.rounds.len() + 1
                &&& before.tracker@.loop_detected ==> self.tracker@.loop_detected
            })
    }

    /// The race on the course that `edit` holds, for the cars of the level, before its first
    /// round.
    pub fn new(level_data: LevelData, edit: CourseEdit) -> (r: RaceState)
        requires
            edit.wf(),
            course_in_range(edit.current().tiles()),
        ensures
            r.wf(),
            r.level_data == level_data,
            r.edit == edit,
            r.playback == Playback::Paused,
            r.round == 0,
            r.status == RaceEndStatus::Simulating,
            !r.show_keys,
            r.animations@.len() == 0,
            r.sim@.is_fresh(edit.current().tiles(), level_data.cars),
            r.tracker@.rounds == seq![Seq::<CarData>::empty()],
            r.tracker@.finished.len() == 0,
            !r.tracker@.loop_detected,
    {
        let cars = level_data.cars;
        let sim = Simulator::new(edit.get_course().clone(), cars);
        let tracker = Tracker::new(cars);
        RaceState {
            level_data,
            playback: Playback::Paused,
            sim,
            tracker,
            round: 0,
            status: RaceEndStatus::Simulating,
            edit,
            show_keys: false,
            animations: Vec::new(),
            round_display_time: crate::tooltip::no_time(),
        }
    }

    /// The number of rounds on record, the empty course before the first among them.
    pub fn rounds_available(&self) -> (r: usize)
        ensures
            r == self.tracker@.rounds.len(),
    {
        self.tracker.rounds_available()
    }

    /// Whether the race is over.
    pub fn is_finished(&self) -> (r: bool)
        ensures
            r == self.spec_is_finished(),
    {
        self.sim.is_finished() || self.tracker.is_loop_detected()
    }

    /// Runs a round and notes its events, unless the race is over.
    pub fn sim_round(&mut self)
        requires
            old(self).wf(),
        ensures
            final(self).wf(),
            final(self).same_frame(*old(self)),
            final(self).playback == old(self).playback,
            final(self).round == old(self).round,
            final(self).animations == old(self).animations,
            final(self).round_display_time == old(self).round_display_time,
            old(self).spec_is_finished() ==> final(self).sim == old(self).sim && final(self).tracker == old(self).tracker,
            !old(self).spec_is_finished() ==> final(self).ran_round(*old(self)),
    {
        if self.is_finished() {
            return ;
        }
        let ghost before = *self;
        self.sim.run_round();
        let ghost allow = choose|allow: Seq<bool>| #[trigger]
            before.sim@.may_say(allow) && self.sim@ == before.sim@.after_round(allow);
        let ghost ran = before.sim@.after_round(allow);
        let events = self.sim.events();
        let ghost views = crate::simulator::event_views(events@);
        proof {
            assert(views == ran.pending);
            assert(views.take(0) =~= Seq::<EventView>::empty());
            crate::simulator::lemma_departures_kind(
                before.sim@.course,
                before.sim@.cars_after_round(allow),
            );
        }
        let mut events = events;
        let mut i: usize = 0;
        let n = events.len();
        // The events are noted oldest first; each is taken out of the list as it is noted.
        let mut rest: Vec<SimEvent> = Vec::new();
        while events.len() > 0
            invariant
                rest@.len() + events@.len() == n,
                n == views.len(),
                forall|j: int|
                    0 <= j < events@.len() ==> (#[trigger] events@[j])@ == views[j],
                forall|j: int|
                    0 <= j < rest@.len() ==> (#[trigger] rest@[j])@ == views[n - 1 - j],
            decreases events@.len(),
        {
            let ghost m = events@.len();
            let e = events.pop().unwrap();
            rest.push(e);
        }
        while rest.len() > 0
            invariant
                i + rest@.len() == n,
                n == views.len(),
                views == ran.pending,
                forall|j: int|
                    0 <= j < rest@.len() ==> (#[trigger] rest@[j])@ == views[n - 1 - j],
                forall|j: int| 0 <= j < views.len() ==> names_car_below(
                    #[trigger] views[j],
                    before.sim@.max_cars,
                ),
                self.tracker.wf(),
                self.tracker@.rounds == rounds_after(before.tracker@.rounds, views.take(i as int)),
                self.tracker@.finished == finished_after(
                    before.tracker@.finished,
                    views.take(i as int),
                ),
                self.tracker@.crashed == crashed_after(before.tracker@.crashed, views.take(i as int)),
                self.tracker@.crashed.len() == before.tracker@.crashed.len(),
                before.tracker@.crashed.len() == before.sim@.max_cars,
                before.tracker@.loop_detected ==> self.tracker@.loop_detected,
                forall|k: int|
                    0 <= k < self.tracker@.finished.len() ==> #[trigger] self.tracker@.finished[k]
                        < before.sim@.max_cars,
                self.sim@ == (SimulatorView { pending: Seq::empty(), ..ran }),
                self.same_frame(before),
                self.playback == before.playback,
                self.round == before.round,
                self.animations == before.animations,
                self.round_display_time == before.round_display_time,
            decreases rest@.len(),
        {
            let ghost tv = self.tracker@;
            let ev = rest.pop().unwrap();
            proof {
                assert(ev@ == views[i as int]);
                assert(names_car_below(views[i as int], before.sim@.max_cars));
                let now = views.take(i + 1);
                assert(now.drop_last() =~= views.take(i as int));
                assert(now.last() == views[i as int]);
            }
            self.tracker.process_event(ev);
            proof {
                let (hash, found) = choose|hash: u64, found: bool| #[trigger]
                    self.tracker@ == tv.after_event(ev@, hash, found);
                assert(self.tracker@ == tv.after_event(ev@, hash, found));
                assert forall|k: int| 0 <= k < self.tracker@.finished.len() implies #[trigger] self.tracker@.finished[k]
                    < before.sim@.max_cars by {
                    if k < tv.finished.len() {
                        assert(self.tracker@.finished[k] == tv.finished[k]);
                    }
                }
            }
            i += 1;
        }
        proof {
            assert(views.take(n as int) =~= views);
            let left = crate::simulator::departures(
                before.sim@.course,
                before.sim@.cars_after_round(allow),
            );
            assert(ran.pending[0] is Round);
            assert forall|j: int| 1 <= j < ran.pending.len() implies !(#[trigger] ran.pending[j]
                is Round) by {
                assert(ran.pending[j] == left[j - 1]);
            }
            lemma_one_round(before.tracker@.rounds, ran.pending);
            assert(self.ran_round(before)) by {
                assert(before.sim@.may_say(allow));
            }
            assert(self.sim@.wf());
            assert(self.edit.wf());
            assert(self.round < self.tracker@.rounds.len());
        }
    }
}

impl RaceState {
    /// What `forward` does after a round has been run if one was needed: if the round on the
    /// screen is not the last on record, the next comes up, with the ways of the cars into it
    /// if `animate` holds, else without.
    pub open spec fn stepped(self, before: RaceState, animate: bool) -> bool {
        &&& self.sim == before.sim
        &&& self.tracker == before.tracker
        &&& self.playback == before.playback
        &&& self.round_display_time == before.round_display_time
        &&& if before.round < before.tracker@.rounds.len() - 1 {
            &&& self.round == before.round + 1
            &&& if animate {
                lists_ways(
                    self.animations@,
                    before.tracker@.rounds[before.round as int],
                    before.tracker@.rounds[before.round + 1],
                )
            } else {
                self.animations@.len() == 0
            }
        } else {
            &&& self.round == before.round
            &&& self.animations == before.animations
        }
    }

    /// The state in which a round has been run if the round on the screen was the last on
    /// record and the race was not over, and which is `before` else.
    pub open spec fn round_supplied(self, before: RaceState) -> bool {
        &&& self.wf()
        &&& self.same_frame(before)
        &&& self.playback == before.playback
        &&& self.round == before.round
        &&& self.animations == before.animations
        &&& self.round_display_time == before.round_display_time
        &&& if before.round >= before.tracker@.rounds.len() - 1 && !before.spec_is_finished() {
            self.ran_round(before)
        } else {
            self.sim == before.sim && self.tracker == before.tracker
        }
    }

    /// Whether this state is `before` moved on by one round, as `forward` does: `mid` is the
    /// state in between, in which the round has been run if one was needed.
    pub open spec fn forwarded(self, before: RaceState, mid: RaceState, animate: bool) -> bool {
        mid.round_supplied(before) && self.same_frame(before) && self.stepped(mid, animate)
    }

    /// Moves on to the next round, which is run first if it is not on record and the race
    /// is not over.
    pub fn forward(&mut self, animate: bool)
        requires
            old(self).wf(),
        ensures
            final(self).wf(),
            exists|mid: RaceState| #[trigger] final(self).forwarded(*old(self), mid, animate),
    {
        if self.round >= self.rounds_available() - 1 {
            self.sim_round();
        }
        let ghost mid = *self;
        if self.round < self.rounds_available() - 1 {
            let old_round = self.round;
            self.round += 1;
            if animate {
                let rounds = self.tracker.get_cars();
                assert(crate::tracker::round_views(rounds@)[old_round as int]
                    == self.tracker@.rounds[old_round as int]);
                assert(crate::tracker::round_views(rounds@)[self.round as int]
                    == self.tracker@.rounds[self.round as int]);
                self.animations = animations(
                    rounds[old_round].as_slice(),
                    rounds[self.round].as_slice(),
                );
            } else {
                self.animations.clear();
            }
        }
        assert(self.forwarded(*old(self), mid, animate));
    }

    /// Pauses the playback if the last round of a race that is over is on the screen.
    pub fn check_playback_end(&mut self)
        requires
            old(self).wf(),
        ensures
            *final(self) == (RaceState {
                playback: if old(self).spec_is_at_end() {
                    Playback::Paused
                } else {
                    old(self).playback
                },
                ..*old(self)
            }),
    {
        if self.round == self.rounds_available() - 1 && self.is_finished() {
            self.playback = Playback::Paused;
        }
    }

    /// Whether the last round of a race that is over is on the screen.
    pub open spec fn spec_is_at_end(self) -> bool {
        self.spec_is_finished() && self.round == self.tracker@.rounds.len() - 1
    }

    /// Whether the last round of a race that is over is on the screen.
    pub fn is_at_end(&self) -> (r: bool)
        requires
            self.wf(),
        ensures
            r == self.spec_is_at_end(),
    {
        self.is_finished() && self.round == self.rounds_available() - 1
    }

    /// The cars of the round on the screen.
    pub fn get_cars(&self) -> (r: &Vec<CarData>)
        requires
            self.wf(),
        ensures
            r@ == self.tracker@.rounds[self.round as int],
    {
        let rounds = self.tracker.get_cars();
        assert(crate::tracker::round_views(rounds@)[self.round as int] == rounds@[self.round as int]@);
        &rounds[self.round]
    }

    /// The course of the race.
    pub fn get_course(&self) -> (r: &Course)
        ensures
            r@ == self.sim@.course,
    {
        self.sim.get_course()
    }

    /// How good the solution is, if it is one: the number of tiles, and the number of rounds
    /// run.
    pub fn solve_data(&self) -> (r: SolveData)
        requires
            self.wf(),
        ensures
            r.tiles == self.sim@.course.dom().len(),
            r.turns == self.tracker@.rounds.len() - 1,
    {
        SolveData { tiles: self.sim.get_course().size(), turns: self.rounds_available() - 1 }
    }

    /// Whether the cars have finished in the order that the level asks for.
    pub open spec fn solved(self) -> bool {
        self.level_data.finish@ == self.tracker@.finished
    }

    /// Ends the race if it is over: every car that has not finished counts as crashed, and
    /// the level is solved if the cars have finished in the order that it asks for. Returns
    /// the record of the solution, which is to be stored, if the level is solved.
    pub fn check_finished(&mut self) -> (r: Option<SolveData>)
        requires
            old(self).wf(),
        ensures
            final(self).wf(),
            !old(self).spec_is_finished() ==> r is None && *final(self) == *old(self),
            old(self).spec_is_finished() ==> {
                &&& final(self).tracker@ == (TrackerView {
                    crashed: not_finishing(old(self).level_data.cars, old(self).tracker@.finished),
                    ..old(self).tracker@
                })
                &&& final(self).status == (if old(self).solved() {
                    RaceEndStatus::PopupQueued
                } else {
                    RaceEndStatus::Finished
                })
                &&& r is Some == old(self).solved()
                &&& r matches Some(d) ==> d.tiles == old(self).sim@.course.dom().len() && d.turns
                    == old(self).tracker@.rounds.len() - 1
                &&& final(self).sim == old(self).sim
                &&& final(self).level_data == old(self).level_data
                &&& final(self).playback == old(self).playback
                &&& final(self).round == old(self).round
                &&& final(self).edit == old(self).edit
                &&& final(self).show_keys == old(self).show_keys
                &&& final(self).animations == old(self).animations
                &&& final(self).round_display_time == old(self).round_display_time
            },
    {
        if self.is_finished() {
            self.tracker.compute_final_crashes(self.level_data.cars);
            if same_order(&self.level_data.finish, self.tracker.get_finishes()) {
                self.status = RaceEndStatus::PopupQueued;
                Some(self.solve_data())
            } else {
                self.status = RaceEndStatus::Finished;
                None
            }
        } else {
            None
        }
    }

    /// What a playback command other than a step forward makes of the state.
    pub open spec fn commanded(self, command: Action, time: Duration) -> RaceState {
        match command {
            Action::Seek(n) => RaceState { round: n, round_display_time: time, ..self },
            Action::Start => RaceState {
                round: 0,
                playback: Playback::Paused,
                round_display_time: time,
                ..self
            },
            Action::StepBack => RaceState {
                round: if self.round > 0 {
                    (self.round - 1) as usize
                } else {
                    self.round
                },
                playback: Playback::Paused,
                round_display_time: time,
                ..self
            },
            Action::Pause => RaceState {
                playback: Playback::Paused,
                round_display_time: time,
                ..self
            },
            Action::Play => RaceState {
                playback: Playback::Playing,
                round_display_time: time,
                ..self
            },
            Action::FastForward => RaceState {
                playback: Playback::Fast,
                round_display_time: time,
                ..self
            },
            Action::End => RaceState {
                round: (self.tracker@.rounds.len() - 1) as usize,
                playback: if self.sim@.round >= MAX_ROUNDS || (self.sim@.cars.len() == 0
                    && self.sim@.next_car >= self.sim@.max_cars) {
                    Playback::Paused
                } else {
                    self.playback
                },
                round_display_time: time,
                ..self
            },
            Action::Keys => RaceState {
                show_keys: !self.show_keys,
                round_display_time: time,
                ..self
            },
            _ => RaceState { round_display_time: time, ..self },
        }
    }

    /// Whether the command leaves the ways of the cars on the screen: the others take them
    /// off.
    pub open spec fn keeps_animations(command: Action) -> bool {
        !(command is Seek || command == Action::Start || command == Action::StepBack || command
            == Action::Pause || command == Action::End)
    }

    /// What the command to step forward at the time `time` makes of the state `before`: the
    /// state moved on by one round, with the ways of the cars, and paused.
    pub open spec fn stepped_forward(self, before: RaceState, time: Duration) -> bool {
        let shown = RaceState {
            playback: before.playback,
            round_display_time: before.round_display_time,
            ..self
        };
        &&& self.playback == Playback::Paused
        &&& self.round_display_time == time
        &&& exists|mid: RaceState| #[trigger] shown.forwarded(before, mid, true)
    }

    /// Whether at the time `time` the next round is due in the state: the playback runs, and
    /// the round on the screen has been shown for its time.
    pub open spec fn is_due(self, time: Duration) -> bool {
        self.playback != Playback::Paused && duration_nanos(time) - duration_nanos(
            self.round_display_time,
        ) >= self.playback.spec_frame_millis() * 1_000_000
    }

    /// Whether this state is `moved` as it is put on the screen at the time `time`: the
    /// playback pauses if the race is at its end.
    pub open spec fn shown_at(self, moved: RaceState, time: Duration) -> bool {
        self == (RaceState {
            round_display_time: time,
            playback: if moved.spec_is_at_end() {
                Playback::Paused
            } else {
                moved.playback
            },
            ..moved
        })
    }

    /// Carries out a playback command at the time `time`.
    pub fn process_command(&mut self, command: Action, time: Duration)
        requires
            old(self).wf(),
            command matches Action::Seek(n) ==> n < old(self).tracker@.rounds.len(),
        ensures
            final(self).wf(),
            command != Action::StepForward ==> {
                let expected = old(self).commanded(command, time);
                &&& final(self).level_data == expected.level_data
                &&& final(self).playback == expected.playback
                &&& final(self).sim == expected.sim
                &&& final(self).tracker == expected.tracker
                &&& final(self).round == expected.round
                &&& final(self).status == expected.status
                &&& final(self).edit == expected.edit
                &&& final(self).show_keys == expected.show_keys
                &&& final(self).round_display_time == expected.round_display_time
                &&& if RaceState::keeps_animations(command) {
                    final(self).animations == old(self).animations
                } else {
                    final(self).animations@.len() == 0
                }
            },
            command == Action::StepForward ==> final(self).stepped_forward(*old(self), time),
    {
        self.round_display_time = time;
        match command {
            Action::Seek(n) => {
                self.round = n;
                self.animations.clear();
            },
            Action::Start => {
                self.round = 0;
                self.animations.clear();
                self.playback = Playback::Paused;
            },
            Action::StepBack => {
                if self.round > 0 {
                    self.round -= 1;
                }
                self.animations.clear();
                self.playback = Playback::Paused;
            },
            Action::Pause => {
                self.animations.clear();
                self.playback = Playback::Paused;
            },
            Action::Play => {
                self.playback = Playback::Playing;
            },
            Action::StepForward => {
                let ghost start = *self;
                self.forward(true);
                let ghost mid = choose|mid: RaceState| #[trigger] self.forwarded(start, mid, true);
                self.playback = Playback::Paused;
                proof {
                    let shown = RaceState {
                        playback: old(self).playback,
                        round_display_time: old(self).round_display_time,
                        ..*self
                    };
                    let mid0 = RaceState {
                        round_display_time: old(self).round_display_time,
                        ..mid
                    };
                    assert(mid.round_supplied(start));
                    assert(mid0.round_supplied(*old(self)));
                    assert(shown.forwarded(*old(self), mid0, true));
                    assert(self.stepped_forward(*old(self), time));
                }
            },
            Action::FastForward => {
                self.playback = Playback::Fast;
            },
            Action::End => {
                self.round = self.rounds_available() - 1;
                self.animations.clear();
                if self.sim.is_finished() {
                    self.playback = Playback::Paused;
                }
            },
            Action::Keys => {
                self.show_keys = !self.show_keys;
            },
            _ => {},
        }
    }

    /// Moves on to the next round if the playback runs and the round on the screen has been
    /// shown for long enough at the time `time`, and pauses the playback at the end of the
    /// race.
    pub fn check_advance(&mut self, time: Duration)
        requires
            old(self).wf(),
            duration_nanos(time) >= duration_nanos(old(self).round_display_time),
        ensures
            final(self).wf(),
            old(self).is_due(time) ==> exists|mid: RaceState, moved: RaceState| #[trigger]
                moved.forwarded(*old(self), mid, true) && moved.wf() && final(self).shown_at(
                    moved,
                    time,
                ),
            !old(self).is_due(time) ==> final(self).shown_at(
                *old(self),
                old(self).round_display_time,
            ),
    {
        let running = match self.playback {
            Playback::Paused => false,
            _ => true,
        };
        if running && has_elapsed(time, self.round_display_time, self.playback.frame_duration()) {
            self.forward(true);
            let ghost moved = *self;
            let ghost mid = choose|mid: RaceState| #[trigger] moved.forwarded(*old(self), mid, true);
            self.round_display_time = time;
            self.check_playback_end();
            proof {
                assert(moved.forwarded(*old(self), mid, true) && moved.wf());
                let shown = RaceState { round_display_time: time, ..moved };
                assert(shown.spec_is_at_end() == moved.spec_is_at_end());
                assert(self.shown_at(moved, time));
            }
        } else {
            self.check_playback_end();
        }
    }
}

/// A list of events of which the first is a round and no other is adds one round to the
/// record.
proof fn lemma_one_round(rounds: Seq<Seq<CarData>>, events: Seq<EventView>)
    requires
        events.len() >= 1,
        events[0] is Round,
        forall|j: int| 1 <= j < events.len() ==> !(#[trigger] events[j] is Round),
    ensures
        rounds_after(rounds, events).len() == rounds.len() + 1,
    decreases events.len(),
{
    if events.len() == 1 {
        assert(events.drop_last() =~= Seq::<EventView>::empty());
        assert(rounds_after(rounds, events.drop_last()) == rounds);
    } else {
        assert forall|j: int| 1 <= j < events.drop_last().len() implies !(
        #[trigger] events.drop_last()[j] is Round) by {
            assert(events.drop_last()[j] == events[j]);
        }
        assert(events.drop_last()[0] == events[0]);
        lemma_one_round(rounds, events.drop_last());
    }
}

} // verus!
