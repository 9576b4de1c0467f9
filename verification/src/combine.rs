//! Joining a newly drawn straight or turn with the tile already on its cell.

use crate::direction::{
    lemma_apply_inverse, lemma_apply_opposite, lemma_associative, lemma_identity, lemma_inverse,
    lemma_inverse_of_product, lemma_trans_for_dirs_moved, trans_for_dirs, DihedralElement,
    Direction,
};
use crate::level::BannedTiles;
use crate::simulator::{
    is_entrance, is_entrance_id, is_exit, is_exit_id, STRAIGHT_ENTRANCE, STRAIGHT_EXIT, TURN_ENTRANCE, TURN_EXIT,
};
use crate::tile::{Tile, TileType};
use vstd::prelude::*;

verus! {

/// What a tile type has on the side that lies in a given direction from its centre.
#[derive(Copy, Clone, PartialEq, Eq, Structural)]
pub enum EnterExit {
    /// Cars drive in through that side.
    Entrance,
    /// Cars drive out through that side.
    Exit,
    Neither,
}

/// The side of a tile of type `t` that lies in direction `d`, in canonical position: an
/// entrance if cars enter driving against `d`, an exit if cars leave driving along `d`.
pub open spec fn spec_check_entrance_exit(t: TileType, d: Direction) -> EnterExit {
    if is_entrance_id(t, d.spec_opposite()) {
        EnterExit::Entrance
    } else if is_exit_id(t, d) {
        EnterExit::Exit
    } else {
        EnterExit::Neither
    }
}

fn check_entrance_exit(t: TileType, d: Direction) -> (r: EnterExit)
    ensures
        r == spec_check_entrance_exit(t, d),
{
    if is_entrance_id(t, d.opposite()) {
        EnterExit::Entrance
    } else if is_exit_id(t, d) {
        EnterExit::Exit
    } else {
        EnterExit::Neither
    }
}

/// A junction tile of type `tile_type` in phase 0, placed so that its canonical directions
/// `from1` and `from2` point along `to1` and `to2`.
pub open spec fn junction(
    tile_type: TileType,
    from1: Direction,
    from2: Direction,
    to1: Direction,
    to2: Direction,
) -> Tile {
    Tile { tile_type, transform: trans_for_dirs(from1, from2, to1, to2), offset: 0 }
}

/// The two intersections in which the flow along `dir_no_yield` has the right of way over
/// the flow along `dir_yield`: the one with a yield sign first, then the one with lights.
pub open spec fn spec_intersections(dir_no_yield: Direction, dir_yield: Direction) -> Seq<Tile> {
    seq![
        junction(
            TileType::YieldIntersection,
            Direction::Left,
            Direction::Up,
            dir_no_yield,
            dir_yield,
        ),
        junction(
            TileType::LightIntersection,
            Direction::Left,
            Direction::Up,
            dir_no_yield,
            dir_yield,
        ),
    ]
}

/// The merge that leaves along `dir_straight` and is joined by the flow along `dir_merge`.
pub open spec fn spec_merge(dir_straight: Direction, dir_merge: Direction) -> Seq<Tile> {
    seq![junction(TileType::Merge, Direction::Up, Direction::Left, dir_straight, dir_merge)]
}

/// The fork with lights that goes on along `dir_straight`; `dir_turn` points away from the
/// side on which it branches off.
pub open spec fn spec_light_forward_turn(dir_straight: Direction, dir_turn: Direction) -> Seq<
    Tile,
> {
    seq![
        junction(
            TileType::LightForwardTurn,
            Direction::Up,
            Direction::Right,
            dir_straight,
            dir_turn,
        ),
    ]
}

fn yield_intersection_trans(dir_no_yield: Direction, dir_yield: Direction) -> (r: DihedralElement)
    ensures
        r == trans_for_dirs(Direction::Left, Direction::Up, dir_no_yield, dir_yield),
{
    trans_for_dirs(Direction::Left, Direction::Up, dir_no_yield, dir_yield)
}

fn intersections(dir_no_yield: Direction, dir_yield: Direction) -> (r: Vec<Tile>)
    ensures
        r@ == spec_intersections(dir_no_yield, dir_yield),
{
    let transform = yield_intersection_trans(dir_no_yield, dir_yield);
    vec![
        Tile { tile_type: TileType::YieldIntersection, transform, offset: 0 },
        Tile { tile_type: TileType::LightIntersection, transform, offset: 0 },
    ]
}

fn merge(dir_straight: Direction, dir_merge: Direction) -> (r: Vec<Tile>)
    ensures
        r@ == spec_merge(dir_straight, dir_merge),
{
    vec![
        Tile {
            tile_type: TileType::Merge,
            transform: trans_for_dirs(Direction::Up, Direction::Left, dir_straight, dir_merge),
            offset: 0,
        },
    ]
}

fn light_forward_turn(dir_straight: Direction, dir_turn: Direction) -> (r: Vec<Tile>)
    ensures
        r@ == spec_light_forward_turn(dir_straight, dir_turn),
{
    vec![
        Tile {
            tile_type: TileType::LightForwardTurn,
            transform: trans_for_dirs(Direction::Up, Direction::Right, dir_straight, dir_turn),
            offset: 0,
        },
    ]
}

/// The options when a straight is drawn over `orig`. `trans` is the straight's transform
/// seen from `orig`'s frame.
pub open spec fn straight_options(orig: Tile, add: Tile, trans: DihedralElement) -> Seq<Tile> {
    let up = add.transform.spec_apply(Direction::Up);
    let left = add.transform.spec_apply(Direction::Left);
    let right = add.transform.spec_apply(Direction::Right);
    if is_entrance_id(orig.tile_type, trans.spec_apply(STRAIGHT_ENTRANCE)) && is_exit_id(
        orig.tile_type,
        trans.spec_apply(STRAIGHT_EXIT),
    ) {
        seq![orig]
    } else {
        let l = spec_check_entrance_exit(orig.tile_type, trans.spec_apply(Direction::Left));
        let r = spec_check_entrance_exit(orig.tile_type, trans.spec_apply(Direction::Right));
        match (l, r) {
            (EnterExit::Entrance, EnterExit::Exit) => spec_intersections(up, right),
            (EnterExit::Exit, EnterExit::Entrance) => spec_intersections(up, left),
            (EnterExit::Entrance, EnterExit::Neither) => spec_merge(up, right),
            (EnterExit::Neither, EnterExit::Entrance) => spec_merge(up, left),
            (EnterExit::Exit, EnterExit::Neither) => spec_light_forward_turn(up, right),
            (EnterExit::Neither, EnterExit::Exit) => spec_light_forward_turn(up, left),
            _ => Seq::empty(),
        }
    }
}

/// The options when a turn is drawn over `orig`. `trans` is the turn's transform seen from
/// `orig`'s frame.
pub open spec fn turn_options(orig: Tile, add: Tile, trans: DihedralElement) -> Seq<Tile> {
    let up = add.transform.spec_apply(Direction::Up);
    let left = add.transform.spec_apply(Direction::Left);
    let right = add.transform.spec_apply(Direction::Right);
    if is_entrance_id(orig.tile_type, trans.spec_apply(TURN_ENTRANCE)) && is_exit_id(
        orig.tile_type,
        trans.spec_apply(TURN_EXIT),
    ) {
        seq![orig]
    } else {
        let u = spec_check_entrance_exit(orig.tile_type, trans.spec_apply(Direction::Up));
        let r = spec_check_entrance_exit(orig.tile_type, trans.spec_apply(Direction::Right));
        match (u, r) {
            (EnterExit::Exit, EnterExit::Entrance) => spec_intersections(up, left),
            (EnterExit::Exit, EnterExit::Neither) => spec_light_forward_turn(up, right),
            (EnterExit::Neither, EnterExit::Entrance) => spec_merge(left, up),
            (EnterExit::Neither, EnterExit::Exit) => seq![
                Tile { tile_type: TileType::LightTurns, transform: add.transform, offset: 0 },
            ],
            _ => Seq::empty(),
        }
    }
}

/// The tiles that could replace `orig` so that the roads of both `orig` and the newly drawn
/// `add` are kept, by priority. Only a straight or a turn is ever joined with what lies
/// under it; if `orig` already has the road of `add`, `orig` itself is the one option.
pub open spec fn spec_combine_options(orig: Tile, add: Tile) -> Seq<Tile> {
    let trans = orig.transform.spec_inverse().compose(add.transform);
    match add.tile_type {
        TileType::Straight => straight_options(orig, add, trans),
        TileType::Turn => turn_options(orig, add, trans),
        _ => Seq::empty(),
    }
}

/// No tile type has entrances on two opposite sides.
proof fn lemma_no_opposite_entrances(t: TileType, d: Direction)
    ensures
        !(spec_check_entrance_exit(t, d) == EnterExit::Entrance && spec_check_entrance_exit(
            t,
            d.spec_opposite(),
        ) == EnterExit::Entrance),
{
}

/// The tiles that could replace `orig` when `add` is drawn over it, by priority.
pub fn combine_options(orig: Tile, add: Tile) -> (r: Vec<Tile>)
    ensures
        r@ == spec_combine_options(orig, add),
{
    let trans = orig.transform.inverse() * add.transform;
    match add.tile_type {
        TileType::Straight => {
            if is_entrance_id(orig.tile_type, trans * STRAIGHT_ENTRANCE) && is_exit_id(
                orig.tile_type,
                trans * STRAIGHT_EXIT,
            ) {
                vec![orig]
            } else {
                let l = check_entrance_exit(orig.tile_type, trans * Direction::Left);
                let r = check_entrance_exit(orig.tile_type, trans * Direction::Right);
                proof {
                    lemma_apply_opposite(trans, Direction::Left);
                    lemma_no_opposite_entrances(orig.tile_type, trans.spec_apply(Direction::Left));
                }
                match (l, r) {
                    (EnterExit::Entrance, EnterExit::Exit) => intersections(
                        add.transform * Direction::Up,
                        add.transform * Direction::Right,
                    ),
                    (EnterExit::Exit, EnterExit::Entrance) => intersections(
                        add.transform * Direction::Up,
                        add.transform * Direction::Left,
                    ),
                    (EnterExit::Entrance, EnterExit::Neither) => merge(
                        add.transform * Direction::Up,
                        add.transform * Direction::Right,
                    ),
                    (EnterExit::Neither, EnterExit::Entrance) => merge(
                        add.transform * Direction::Up,
                        add.transform * Direction::Left,
                    ),
                    (EnterExit::Exit, EnterExit::Neither) => light_forward_turn(
                        add.transform * Direction::Up,
                        add.transform * Direction::Right,
                    ),
                    (EnterExit::Neither, EnterExit::Exit) => light_forward_turn(
                        add.transform * Direction::Up,
                        add.transform * Direction::Left,
                    ),
                    (EnterExit::Neither, EnterExit::Neither)
                    | (EnterExit::Exit, EnterExit::Exit) => Vec::new(),
                    (EnterExit::Entrance, EnterExit::Entrance) => {
                        assert(false);
                        Vec::new()
                    },
                }
            }
        },
        TileType::Turn => {
            if is_entrance_id(orig.tile_type, trans * TURN_ENTRANCE) && is_exit_id(
                orig.tile_type,
                trans * TURN_EXIT,
            ) {
                vec![orig]
            } else {
                let u = check_entrance_exit(orig.tile_type, trans * Direction::Up);
                let r = check_entrance_exit(orig.tile_type, trans * Direction::Right);
                match (u, r) {
                    (EnterExit::Exit, EnterExit::Entrance) => intersections(
                        add.transform * Direction::Up,
                        add.transform * Direction::Left,
                    ),
                    (EnterExit::Exit, EnterExit::Neither) => light_forward_turn(
                        add.transform * Direction::Up,
                        add.transform * Direction::Right,
                    ),
                    (EnterExit::Neither, EnterExit::Entrance) => merge(
                        add.transform * Direction::Left,
                        add.transform * Direction::Up,
                    ),
                    (EnterExit::Neither, EnterExit::Exit) => vec![
                        Tile {
                            tile_type: TileType::LightTurns,
                            transform: add.transform,
                            offset: 0,
                        },
                    ],
                    (EnterExit::Entrance, _)
                    | (EnterExit::Exit, EnterExit::Exit)
                    | (EnterExit::Neither, EnterExit::Neither) => Vec::new(),
                }
            }
        },
        _ => Vec::new(),
    }
}

/// The tile to place when `add` is drawn over `orig`: the first option whose type the
/// level allows, or `add` itself if there is none.
pub fn combine(orig: Tile, add: Tile, banned: &BannedTiles) -> (r: Tile)
    ensures
        ({
            let options = spec_combine_options(orig, add);
            ||| exists|i: int|
                0 <= i < options.len() && r == options[i] && !banned@.contains(
                    #[trigger] options[i].tile_type,
                ) && forall|j: int| 0 <= j < i ==> banned@.contains(#[trigger] options[j].tile_type)
            ||| r == add && forall|j: int|
                0 <= j < options.len() ==> banned@.contains(#[trigger] options[j].tile_type)
        }),
{
    let options = combine_options(orig, add);
    let mut i: usize = 0;
    while i < options.len()
        invariant
            i <= options.len(),
            options@ == spec_combine_options(orig, add),
            forall|j: int| 0 <= j < i ==> banned@.contains(#[trigger] options@[j].tile_type),
        decreases options.len() - i,
    {
        let opt = options[i];
        if !banned.is_banned(opt.tile_type) {
            return opt;
        }
        i += 1;
    }
    add
}

/// What it means for `combined` to join the roads of `orig` and `add`, seen from the
/// direction `d`: cars enter `combined` driving along `d` exactly if they enter `add` so, or
/// enter `orig` so and the side they come through is not a way out of `add`; likewise for
/// leaving.
pub open spec fn keeps_roads(combined: Tile, orig: Tile, add: Tile, d: Direction) -> bool {
    &&& is_entrance(combined, d) == ((is_entrance(orig, d) && !is_exit(add, d.spec_opposite()))
        || is_entrance(add, d))
    &&& is_exit(combined, d) == ((is_exit(orig, d) && !is_entrance(add, d.spec_opposite()))
        || is_exit(add, d))
}

/// A junction seen from the frame of the drawn tile: its type and its transform there.
spec fn row(
    tile_type: TileType,
    from1: Direction,
    from2: Direction,
    to1: Direction,
    to2: Direction,
) -> (TileType, DihedralElement) {
    (tile_type, trans_for_dirs(from1, from2, to1, to2))
}

/// The options for a drawn straight, seen from its frame.
spec fn straight_rows(ot: TileType, trans: DihedralElement) -> Seq<(TileType, DihedralElement)> {
    let (up, left, right) = (Direction::Up, Direction::Left, Direction::Right);
    if is_entrance_id(ot, trans.spec_apply(STRAIGHT_ENTRANCE)) && is_exit_id(
        ot,
        trans.spec_apply(STRAIGHT_EXIT),
    ) {
        seq![(ot, trans.spec_inverse())]
    } else {
        let l = spec_check_entrance_exit(ot, trans.spec_apply(Direction::Left));
        let r = spec_check_entrance_exit(ot, trans.spec_apply(Direction::Right));
        match (l, r) {
            (EnterExit::Entrance, EnterExit::Exit) => seq![
                row(TileType::YieldIntersection, left, up, up, right),
                row(TileType::LightIntersection, left, up, up, right),
            ],
            (EnterExit::Exit, EnterExit::Entrance) => seq![
                row(TileType::YieldIntersection, left, up, up, left),
                row(TileType::LightIntersection, left, up, up, left),
            ],
            (EnterExit::Entrance, EnterExit::Neither) => seq![
                row(TileType::Merge, up, left, up, right),
            ],
            (EnterExit::Neither, EnterExit::Entrance) => seq![
                row(TileType::Merge, up, left, up, left),
            ],
            (EnterExit::Exit, EnterExit::Neither) => seq![
                row(TileType::LightForwardTurn, up, right, up, right),
            ],
            (EnterExit::Neither, EnterExit::Exit) => seq![
                row(TileType::LightForwardTurn, up, right, up, left),
            ],
            _ => Seq::empty(),
        }
    }
}

/// The options for a drawn turn, seen from its frame.
spec fn turn_rows(ot: TileType, trans: DihedralElement) -> Seq<(TileType, DihedralElement)> {
    let (up, left, right) = (Direction::Up, Direction::Left, Direction::Right);
    if is_entrance_id(ot, trans.spec_apply(TURN_ENTRANCE)) && is_exit_id(
        ot,
        trans.spec_apply(TURN_EXIT),
    ) {
        seq![(ot, trans.spec_inverse())]
    } else {
        let u = spec_check_entrance_exit(ot, trans.spec_apply(Direction::Up));
        let r = spec_check_entrance_exit(ot, trans.spec_apply(Direction::Right));
        match (u, r) {
            (EnterExit::Exit, EnterExit::Entrance) => seq![
                row(TileType::YieldIntersection, left, up, up, left),
                row(TileType::LightIntersection, left, up, up, left),
            ],
            (EnterExit::Exit, EnterExit::Neither) => seq![
                row(TileType::LightForwardTurn, up, right, up, right),
            ],
            (EnterExit::Neither, EnterExit::Entrance) => seq![
                row(TileType::Merge, up, left, left, up),
            ],
            (EnterExit::Neither, EnterExit::Exit) => seq![
                (TileType::LightTurns, DihedralElement::Id),
            ],
            _ => Seq::empty(),
        }
    }
}

/// The options seen from the frame of the drawn tile.
spec fn rows(ot: TileType, at: TileType, trans: DihedralElement) -> Seq<
    (TileType, DihedralElement),
> {
    match at {
        TileType::Straight => straight_rows(ot, trans),
        TileType::Turn => turn_rows(ot, trans),
        _ => Seq::empty(),
    }
}

/// Each option is one of `rows`, moved from the frame of `add` to the grid.
proof fn lemma_options_are_rows(orig: Tile, add: Tile, k: int)
    requires
        0 <= k < spec_combine_options(orig, add).len(),
    ensures
        ({
            let a = add.transform;
            let trans = orig.transform.spec_inverse().compose(a);
            let rs = rows(orig.tile_type, add.tile_type, trans);
            let c = spec_combine_options(orig, add)[k];
            &&& k < rs.len()
            &&& c.tile_type == rs[k].0
            &&& c.transform == a.compose(rs[k].1)
        }),
{
    let a = add.transform;
    let o = orig.transform;
    let trans = o.spec_inverse().compose(a);
    let (up, left, right) = (Direction::Up, Direction::Left, Direction::Right);
    lemma_trans_for_dirs_moved(a, left, up, up, right);
    lemma_trans_for_dirs_moved(a, left, up, up, left);
    lemma_trans_for_dirs_moved(a, up, left, up, right);
    lemma_trans_for_dirs_moved(a, up, left, up, left);
    lemma_trans_for_dirs_moved(a, up, right, up, right);
    lemma_trans_for_dirs_moved(a, up, right, up, left);
    lemma_trans_for_dirs_moved(a, up, left, left, up);
    lemma_identity(a);
    // orig.transform is a * trans^-1
    lemma_inverse_of_product(o.spec_inverse(), a, up);
    lemma_associative(a, a.spec_inverse(), o.spec_inverse().spec_inverse());
    lemma_inverse(a);
    lemma_identity(o);
    assert(o.spec_inverse().spec_inverse() == o);
    assert(a.compose(trans.spec_inverse()) == o);
}

/// `keeps_roads` in the frame of the drawn tile, where a direction `alpha` there is the
/// direction `trans * alpha` in the frame of the tile underneath.
proof fn lemma_rows_keep_roads(
    ot: TileType,
    at: TileType,
    trans: DihedralElement,
    alpha: Direction,
    k: int,
)
    requires
        0 <= k < rows(ot, at, trans).len(),
    ensures
        ({
            let (ct, j) = rows(ot, at, trans)[k];
            let delta = trans.spec_apply(alpha);
            let gamma = j.spec_apply_inverse(alpha);
            &&& is_entrance_id(ct, gamma) == ((is_entrance_id(ot, delta) && !is_exit_id(
                at,
                alpha.spec_opposite(),
            )) || is_entrance_id(at, alpha))
            &&& is_exit_id(ct, gamma) == ((is_exit_id(ot, delta) && !is_entrance_id(
                at,
                alpha.spec_opposite(),
            )) || is_exit_id(at, alpha))
        }),
{
    match trans {
        DihedralElement::Id => {},
        DihedralElement::Rot90 => {},
        DihedralElement::Rot180 => {},
        DihedralElement::Rot270 => {},
        DihedralElement::Flip0 => {},
        DihedralElement::Flip45 => {},
        DihedralElement::Flip90 => {},
        DihedralElement::Flip135 => {},
    }
}

/// Every option that `combine_options` offers joins the roads of both tiles: in every
/// direction it has the entrances and exits of `add`, and those of `orig` that `add` does
/// not turn around.
pub proof fn lemma_options_keep_roads(orig: Tile, add: Tile, k: int, d: Direction)
    requires
        0 <= k < spec_combine_options(orig, add).len(),
    ensures
        keeps_roads(spec_combine_options(orig, add)[k], orig, add, d),
{
    let a = add.transform;
    let o = orig.transform;
    let trans = o.spec_inverse().compose(a);
    let alpha = a.spec_apply_inverse(d);
    let c = spec_combine_options(orig, add)[k];
    lemma_options_are_rows(orig, add, k);
    let (ct, j) = rows(orig.tile_type, add.tile_type, trans)[k];
    lemma_rows_keep_roads(orig.tile_type, add.tile_type, trans, alpha, k);
    // The three tiles, read in the frame of `add`.
    lemma_inverse_of_product(a, j, d);
    assert(c.transform.spec_apply_inverse(d) == j.spec_apply_inverse(alpha));
    lemma_apply_opposite(a, d);
    lemma_apply_opposite(o, d);
    assert(o.spec_apply_inverse(d) == trans.spec_apply(alpha)) by {
        // trans * alpha = o^-1 * (a * (a^-1 * d)) = o^-1 * d
        crate::direction::lemma_action(o.spec_inverse(), a, alpha);
        lemma_apply_inverse(a, d);
        lemma_apply_inverse(o, d);
    }
}

} // verus!
