//! The four axis directions and the dihedral group of the square that acts on them.

use crate::course::{fits_isize, TileCoord};
use vstd::prelude::*;

verus! {

/// `i` reduced modulo 4, for `-4 <= i < 8`: the range of a sum or difference of two indices.
pub open spec fn wrap4(i: int) -> int {
    if i < 0 {
        i + 4
    } else if i >= 4 {
        i - 4
    } else {
        i
    }
}

/// One of the four axis directions, in clockwise order starting from `Up`.
///
/// The screen's y axis points down, so `Up` is the unit vector `(0, -1)`.
#[derive(Copy, Clone, PartialEq, Eq, Structural, Debug, Hash)]
pub enum Direction {
    Up,
    Right,
    Down,
    Left,
}

impl Direction {
    /// Position of the direction in clockwise order: `Up` is 0, `Left` is 3.
    pub open spec fn index(self) -> int {
        match self {
            Direction::Up => 0,
            Direction::Right => 1,
            Direction::Down => 2,
            Direction::Left => 3,
        }
    }

    /// The direction with index `i`, for `0 <= i < 4`.
    pub open spec fn from_index(i: int) -> Direction {
        if i == 0 {
            Direction::Up
        } else if i == 1 {
            Direction::Right
        } else if i == 2 {
            Direction::Down
        } else {
            Direction::Left
        }
    }

    pub open spec fn spec_dx(self) -> int {
        match self {
            Direction::Left => -1,
            Direction::Right => 1,
            _ => 0,
        }
    }

    pub open spec fn spec_dy(self) -> int {
        match self {
            Direction::Up => -1,
            Direction::Down => 1,
            _ => 0,
        }
    }

    pub open spec fn spec_opposite(self) -> Direction {
        Direction::from_index(wrap4(self.index() + 2))
    }

    /// Horizontal component of the unit vector.
    pub fn dx(self) -> (r: isize)
        ensures
            r == self.spec_dx(),
    {
        match self {
            Direction::Left => -1,
            Direction::Right => 1,
            _ => 0,
        }
    }

    /// Vertical component of the unit vector.
    pub fn dy(self) -> (r: isize)
        ensures
            r == self.spec_dy(),
    {
        match self {
            Direction::Up => -1,
            Direction::Down => 1,
            _ => 0,
        }
    }

    /// The direction's index as a machine integer.
    pub fn repr(self) -> (r: usize)
        ensures
            r == self.index(),
    {
        match self {
            Direction::Up => 0,
            Direction::Right => 1,
            Direction::Down => 2,
            Direction::Left => 3,
        }
    }

    /// The direction with index `i`, if `i` is below 4.
    pub fn from_repr(i: usize) -> (r: Option<Direction>)
        ensures
            i < 4 ==> r == Some(Direction::from_index(i as int)),
            i >= 4 ==> r is None,
    {
        if i == 0 {
            Some(Direction::Up)
        } else if i == 1 {
            Some(Direction::Right)
        } else if i == 2 {
            Some(Direction::Down)
        } else if i == 3 {
            Some(Direction::Left)
        } else {
            None
        }
    }

    /// The direction pointing the other way.
    #[verifier::when_used_as_spec(spec_opposite)]
    pub fn opposite(self) -> (r: Direction)
        ensures
            r == self.spec_opposite(),
    {
        match self {
            Direction::Up => Direction::Down,
            Direction::Right => Direction::Left,
            Direction::Down => Direction::Up,
            Direction::Left => Direction::Right,
        }
    }

    /// The direction's name, as shown in the key-binding list.
    pub fn name(self) -> (r: &'static str)
        ensures
            r@ == self.spec_name(),
    {
        match self {
            Direction::Up => "Up",
            Direction::Right => "Right",
            Direction::Down => "Down",
            Direction::Left => "Left",
        }
    }

    pub open spec fn spec_name(self) -> Seq<char> {
        match self {
            Direction::Up => "Up"@,
            Direction::Right => "Right"@,
            Direction::Down => "Down"@,
            Direction::Left => "Left"@,
        }
    }
}

/// `i` reduced modulo 4, for `i < 8`.
fn wrap(i: usize) -> (r: usize)
    requires
        i < 8,
    ensures
        r == i % 4,
        r == wrap4(i as int),
        r == wrap4(i - 4),
{
    if i >= 4 {
        i - 4
    } else {
        i
    }
}

/// `wrap4` is reduction modulo 4 on its range.
pub proof fn lemma_wrap4(i: int)
    requires
        -4 <= i < 8,
    ensures
        wrap4(i) == i % 4,
{
}

/// An element of the dihedral group of the square: four rotations and four reflections.
///
/// `Rot90` takes each direction to the next one clockwise. `FlipN` first mirrors a
/// direction's index (`Up` and `Down` stay, `Left` and `Right` swap) and then rotates it by
/// twice `N` degrees, so `Flip0` mirrors left and right and `Flip90` mirrors up and down.
#[derive(Copy, Clone, PartialEq, Eq, Structural, Debug)]
pub enum DihedralElement {
    Id,
    Rot90,
    Rot180,
    Rot270,
    Flip0,
    Flip45,
    Flip90,
    Flip135,
}

impl DihedralElement {
    /// Position of the element in declaration order: `Id` is 0, `Flip135` is 7.
    pub open spec fn index(self) -> int {
        match self {
            DihedralElement::Id => 0,
            DihedralElement::Rot90 => 1,
            DihedralElement::Rot180 => 2,
            DihedralElement::Rot270 => 3,
            DihedralElement::Flip0 => 4,
            DihedralElement::Flip45 => 5,
            DihedralElement::Flip90 => 6,
            DihedralElement::Flip135 => 7,
        }
    }

    /// The element with index `i`, for `0 <= i < 8`.
    pub open spec fn from_index(i: int) -> DihedralElement {
        let r = i;
        if r == 0 {
            DihedralElement::Id
        } else if r == 1 {
            DihedralElement::Rot90
        } else if r == 2 {
            DihedralElement::Rot180
        } else if r == 3 {
            DihedralElement::Rot270
        } else if r == 4 {
            DihedralElement::Flip0
        } else if r == 5 {
            DihedralElement::Flip45
        } else if r == 6 {
            DihedralElement::Flip90
        } else {
            DihedralElement::Flip135
        }
    }

    /// Whether the element reverses orientation.
    pub open spec fn is_reflection(self) -> bool {
        self.index() >= 4
    }

    /// `1` for a rotation, `-1` for a reflection.
    pub open spec fn spec_sign(self) -> int {
        if self.is_reflection() {
            -1
        } else {
            1
        }
    }

    /// The number of quarter turns applied after the optional mirroring.
    pub open spec fn spec_shift(self) -> int {
        if self.index() >= 4 {
            self.index() - 4
        } else {
            self.index()
        }
    }

    /// The action on a direction. The image has index `sign * index + shift`, modulo 4; see
    /// [`lemma_apply_index`].
    pub open spec fn spec_apply(self, d: Direction) -> Direction {
        match self {
            DihedralElement::Id => match d {
                Direction::Up => Direction::Up,
                Direction::Right => Direction::Right,
                Direction::Down => Direction::Down,
                Direction::Left => Direction::Left,
            },
            DihedralElement::Rot90 => match d {
                Direction::Up => Direction::Right,
                Direction::Right => Direction::Down,
                Direction::Down => Direction::Left,
                Direction::Left => Direction::Up,
            },
            DihedralElement::Rot180 => match d {
                Direction::Up => Direction::Down,
                Direction::Right => Direction::Left,
                Direction::Down => Direction::Up,
                Direction::Left => Direction::Right,
            },
            DihedralElement::Rot270 => match d {
                Direction::Up => Direction::Left,
                Direction::Right => Direction::Up,
                Direction::Down => Direction::Right,
                Direction::Left => Direction::Down,
            },
            DihedralElement::Flip0 => match d {
                Direction::Up => Direction::Up,
                Direction::Right => Direction::Left,
                Direction::Down => Direction::Down,
                Direction::Left => Direction::Right,
            },
            DihedralElement::Flip45 => match d {
                Direction::Up => Direction::Right,
                Direction::Right => Direction::Up,
                Direction::Down => Direction::Left,
                Direction::Left => Direction::Down,
            },
            DihedralElement::Flip90 => match d {
                Direction::Up => Direction::Down,
                Direction::Right => Direction::Right,
                Direction::Down => Direction::Up,
                Direction::Left => Direction::Left,
            },
            DihedralElement::Flip135 => match d {
                Direction::Up => Direction::Left,
                Direction::Right => Direction::Down,
                Direction::Down => Direction::Right,
                Direction::Left => Direction::Up,
            },
        }
    }

    /// The action of the inverse element. The image has index `sign * (index - shift)`,
    /// modulo 4; see [`lemma_apply_index`].
    pub open spec fn spec_apply_inverse(self, d: Direction) -> Direction {
        match self {
            DihedralElement::Id => match d {
                Direction::Up => Direction::Up,
                Direction::Right => Direction::Right,
                Direction::Down => Direction::Down,
                Direction::Left => Direction::Left,
            },
            DihedralElement::Rot90 => match d {
                Direction::Up => Direction::Left,
                Direction::Right => Direction::Up,
                Direction::Down => Direction::Right,
                Direction::Left => Direction::Down,
            },
            DihedralElement::Rot180 => match d {
                Direction::Up => Direction::Down,
                Direction::Right => Direction::Left,
                Direction::Down => Direction::Up,
                Direction::Left => Direction::Right,
            },
            DihedralElement::Rot270 => match d {
                Direction::Up => Direction::Right,
                Direction::Right => Direction::Down,
                Direction::Down => Direction::Left,
                Direction::Left => Direction::Up,
            },
            DihedralElement::Flip0 => match d {
                Direction::Up => Direction::Up,
                Direction::Right => Direction::Left,
                Direction::Down => Direction::Down,
                Direction::Left => Direction::Right,
            },
            DihedralElement::Flip45 => match d {
                Direction::Up => Direction::Right,
                Direction::Right => Direction::Up,
                Direction::Down => Direction::Left,
                Direction::Left => Direction::Down,
            },
            DihedralElement::Flip90 => match d {
                Direction::Up => Direction::Down,
                Direction::Right => Direction::Right,
                Direction::Down => Direction::Up,
                Direction::Left => Direction::Left,
            },
            DihedralElement::Flip135 => match d {
                Direction::Up => Direction::Left,
                Direction::Right => Direction::Down,
                Direction::Down => Direction::Right,
                Direction::Left => Direction::Up,
            },
        }
    }

    pub open spec fn spec_inverse(self) -> DihedralElement {
        match self {
            DihedralElement::Rot90 => DihedralElement::Rot270,
            DihedralElement::Rot270 => DihedralElement::Rot90,
            _ => self,
        }
    }

    /// The product `self * rhs`: first `rhs`, then `self`.
    ///
    /// The product is a reflection when exactly one factor is, and its shift is
    /// `shift(self) + sign(self) * shift(rhs)`, modulo 4; see [`lemma_compose_parts`].
    pub open spec fn compose(self, rhs: DihedralElement) -> DihedralElement {
        match self {
            DihedralElement::Id => match rhs {
                DihedralElement::Id => DihedralElement::Id,
                DihedralElement::Rot90 => DihedralElement::Rot90,
                DihedralElement::Rot180 => DihedralElement::Rot180,
                DihedralElement::Rot270 => DihedralElement::Rot270,
                DihedralElement::Flip0 => DihedralElement::Flip0,
                DihedralElement::Flip45 => DihedralElement::Flip45,
                DihedralElement::Flip90 => DihedralElement::Flip90,
                DihedralElement::Flip135 => DihedralElement::Flip135,
            },
            DihedralElement::Rot90 => match rhs {
                DihedralElement::Id => DihedralElement::Rot90,
                DihedralElement::Rot90 => DihedralElement::Rot180,
                DihedralElement::Rot180 => DihedralElement::Rot270,
                DihedralElement::Rot270 => DihedralElement::Id,
                DihedralElement::Flip0 => DihedralElement::Flip45,
                DihedralElement::Flip45 => DihedralElement::Flip90,
                DihedralElement::Flip90 => DihedralElement::Flip135,
                DihedralElement::Flip135 => DihedralElement::Flip0,
            },
            DihedralElement::Rot180 => match rhs {
                DihedralElement::Id => DihedralElement::Rot180,
                DihedralElement::Rot90 => DihedralElement::Rot270,
                DihedralElement::Rot180 => DihedralElement::Id,
                DihedralElement::Rot270 => DihedralElement::Rot90,
                DihedralElement::Flip0 => DihedralElement::Flip90,
                DihedralElement::Flip45 => DihedralElement::Flip135,
                DihedralElement::Flip90 => DihedralElement::Flip0,
                DihedralElement::Flip135 => DihedralElement::Flip45,
            },
            DihedralElement::Rot270 => match rhs {
                DihedralElement::Id => DihedralElement::Rot270,
                DihedralElement::Rot90 => DihedralElement::Id,
                DihedralElement::Rot180 => DihedralElement::Rot90,
                DihedralElement::Rot270 => DihedralElement::Rot180,
                DihedralElement::Flip0 => DihedralElement::Flip135,
                DihedralElement::Flip45 => DihedralElement::Flip0,
                DihedralElement::Flip90 => DihedralElement::Flip45,
                DihedralElement::Flip135 => DihedralElement::Flip90,
            },
            DihedralElement::Flip0 => match rhs {
                DihedralElement::Id => DihedralElement::Flip0,
                DihedralElement::Rot90 => DihedralElement::Flip135,
                DihedralElement::Rot180 => DihedralElement::Flip90,
                DihedralElement::Rot270 => DihedralElement::Flip45,
                DihedralElement::Flip0 => DihedralElement::Id,
                DihedralElement::Flip45 => DihedralElement::Rot270,
                DihedralElement::Flip90 => DihedralElement::Rot180,
                DihedralElement::Flip135 => DihedralElement::Rot90,
            },
            DihedralElement::Flip45 => match rhs {
                DihedralElement::Id => DihedralElement::Flip45,
                DihedralElement::Rot90 => DihedralElement::Flip0,
                DihedralElement::Rot180 => DihedralElement::Flip135,
                DihedralElement::Rot270 => DihedralElement::Flip90,
                DihedralElement::Flip0 => DihedralElement::Rot90,
                DihedralElement::Flip45 => DihedralElement::Id,
                DihedralElement::Flip90 => DihedralElement::Rot270,
                DihedralElement::Flip135 => DihedralElement::Rot180,
            },
            DihedralElement::Flip90 => match rhs {
                DihedralElement::Id => DihedralElement::Flip90,
                DihedralElement::Rot90 => DihedralElement::Flip45,
                DihedralElement::Rot180 => DihedralElement::Flip0,
                DihedralElement::Rot270 => DihedralElement::Flip135,
                DihedralElement::Flip0 => DihedralElement::Rot180,
                DihedralElement::Flip45 => DihedralElement::Rot90,
                DihedralElement::Flip90 => DihedralElement::Id,
                DihedralElement::Flip135 => DihedralElement::Rot270,
            },
            DihedralElement::Flip135 => match rhs {
                DihedralElement::Id => DihedralElement::Flip135,
                DihedralElement::Rot90 => DihedralElement::Flip90,
                DihedralElement::Rot180 => DihedralElement::Flip45,
                DihedralElement::Rot270 => DihedralElement::Flip0,
                DihedralElement::Flip0 => DihedralElement::Rot270,
                DihedralElement::Flip45 => DihedralElement::Rot180,
                DihedralElement::Flip90 => DihedralElement::Rot90,
                DihedralElement::Flip135 => DihedralElement::Id,
            },
        }
    }

    /// The linear action on a grid vector: the image of `Right` scaled by `x` plus the image
    /// of `Down` scaled by `y`.
    pub open spec fn act(self, x: int, y: int) -> (int, int) {
        let r = self.spec_apply(Direction::Right);
        let d = self.spec_apply(Direction::Down);
        (
            times_unit(r.spec_dx(), x) + times_unit(d.spec_dx(), y),
            times_unit(r.spec_dy(), x) + times_unit(d.spec_dy(), y),
        )
    }

    /// The element's index as a machine integer.
    pub fn repr(self) -> (r: usize)
        ensures
            r == self.index(),
    {
        match self {
            DihedralElement::Id => 0,
            DihedralElement::Rot90 => 1,
            DihedralElement::Rot180 => 2,
            DihedralElement::Rot270 => 3,
            DihedralElement::Flip0 => 4,
            DihedralElement::Flip45 => 5,
            DihedralElement::Flip90 => 6,
            DihedralElement::Flip135 => 7,
        }
    }

    /// The element with index `i`, if `i` is below 8.
    pub fn from_repr(i: usize) -> (r: Option<DihedralElement>)
        ensures
            i < 8 ==> r == Some(DihedralElement::from_index(i as int)),
            i >= 8 ==> r is None,
    {
        if i == 0 {
            Some(DihedralElement::Id)
        } else if i == 1 {
            Some(DihedralElement::Rot90)
        } else if i == 2 {
            Some(DihedralElement::Rot180)
        } else if i == 3 {
            Some(DihedralElement::Rot270)
        } else if i == 4 {
            Some(DihedralElement::Flip0)
        } else if i == 5 {
            Some(DihedralElement::Flip45)
        } else if i == 6 {
            Some(DihedralElement::Flip90)
        } else if i == 7 {
            Some(DihedralElement::Flip135)
        } else {
            None
        }
    }

    /// `1` for a rotation, `-1` for a reflection.
    pub fn sign(self) -> (r: isize)
        ensures
            r == self.spec_sign(),
    {
        match self {
            DihedralElement::Flip0
            | DihedralElement::Flip45
            | DihedralElement::Flip90
            | DihedralElement::Flip135 => -1,
            _ => 1,
        }
    }

    fn shift(self) -> (r: usize)
        ensures
            r == self.spec_shift(),
    {
        let i = self.repr();
        if i >= 4 {
            i - 4
        } else {
            i
        }
    }

    /// Applies the element to a direction.
    #[verifier::when_used_as_spec(spec_apply)]
    pub fn apply(self, rhs: Direction) -> (r: Direction)
        ensures
            r == self.spec_apply(rhs),
            r.index() == (self.spec_sign() * rhs.index() + self.spec_shift()) % 4,
    {
        proof {
            lemma_apply_index(self, rhs);
        }
        let i: usize = if self.sign() < 0 {
            wrap(self.shift() + 4 - rhs.repr())
        } else {
            wrap(rhs.repr() + self.shift())
        };
        Direction::from_repr(i).unwrap()
    }

    /// Applies the inverse of the element to a direction.
    #[verifier::when_used_as_spec(spec_apply_inverse)]
    pub fn apply_inverse(self, rhs: Direction) -> (r: Direction)
        ensures
            r == self.spec_apply_inverse(rhs),
            r == self.spec_inverse().spec_apply(rhs),
            r.index() == (self.spec_sign() * (rhs.index() - self.spec_shift())) % 4,
    {
        proof {
            lemma_apply_index(self, rhs);
        }
        let i: usize = if self.sign() < 0 {
            wrap(self.shift() + 4 - rhs.repr())
        } else {
            wrap(rhs.repr() + 4 - self.shift())
        };
        Direction::from_repr(i).unwrap()
    }

    /// The element that undoes this one.
    #[verifier::when_used_as_spec(spec_inverse)]
    pub fn inverse(self) -> (r: DihedralElement)
        ensures
            r == self.spec_inverse(),
            self.compose(r) == DihedralElement::Id,
            r.compose(self) == DihedralElement::Id,
    {
        match self {
            DihedralElement::Rot90 => DihedralElement::Rot270,
            DihedralElement::Rot270 => DihedralElement::Rot90,
            _ => self,
        }
    }
}

/// The four rotations, by increasing angle.
pub const ROTATIONS: [DihedralElement; 4] = [
    DihedralElement::Id,
    DihedralElement::Rot90,
    DihedralElement::Rot180,
    DihedralElement::Rot270,
];

impl core::ops::Mul<Direction> for DihedralElement {
    type Output = Direction;

    fn mul(self, rhs: Direction) -> (r: Direction) {
        self.apply(rhs)
    }
}

impl vstd::std_specs::ops::MulSpecImpl<Direction> for DihedralElement {
    open spec fn obeys_mul_spec() -> bool {
        true
    }

    open spec fn mul_req(self, rhs: Direction) -> bool {
        true
    }

    open spec fn mul_spec(self, rhs: Direction) -> Direction {
        self.spec_apply(rhs)
    }
}

impl core::ops::Mul<DihedralElement> for DihedralElement {
    type Output = DihedralElement;

    fn mul(self, rhs: DihedralElement) -> (r: DihedralElement) {
        let flip: usize = if (self.sign() < 0) != (rhs.sign() < 0) {
            4
        } else {
            0
        };
        let i: usize = if self.sign() < 0 {
            wrap(self.shift() + 4 - rhs.shift())
        } else {
            wrap(self.shift() + rhs.shift())
        };
        DihedralElement::from_repr(flip + i).unwrap()
    }
}

impl vstd::std_specs::ops::MulSpecImpl<DihedralElement> for DihedralElement {
    open spec fn obeys_mul_spec() -> bool {
        true
    }

    open spec fn mul_req(self, rhs: DihedralElement) -> bool {
        true
    }

    open spec fn mul_spec(self, rhs: DihedralElement) -> DihedralElement {
        self.compose(rhs)
    }
}

/// The product `c * v` for a unit component `c`, which is -1, 0 or 1.
pub open spec fn times_unit(c: int, v: int) -> int {
    if c == 0 {
        0
    } else if c == 1 {
        v
    } else {
        -v
    }
}

fn scale(d: isize, v: isize) -> (r: isize)
    requires
        -1 <= d <= 1,
        d == -1 ==> v > isize::MIN,
    ensures
        r == times_unit(d as int, v as int),
{
    if d == 0 {
        0
    } else if d == 1 {
        v
    } else {
        -v
    }
}

impl core::ops::Mul<TileCoord> for DihedralElement {
    type Output = TileCoord;

    fn mul(self, rhs: TileCoord) -> (r: TileCoord) {
        let r = self.apply(Direction::Right);
        let d = self.apply(Direction::Down);
        TileCoord(
            scale(r.dx(), rhs.0) + scale(d.dx(), rhs.1),
            scale(r.dy(), rhs.0) + scale(d.dy(), rhs.1),
        )
    }
}

impl vstd::std_specs::ops::MulSpecImpl<TileCoord> for DihedralElement {
    open spec fn obeys_mul_spec() -> bool {
        true
    }

    /// The image must be representable: no component of the image is `-isize::MIN`.
    open spec fn mul_req(self, rhs: TileCoord) -> bool {
        let (x, y) = self.act(rhs.0 as int, rhs.1 as int);
        fits_isize(x) && fits_isize(y)
    }

    open spec fn mul_spec(self, rhs: TileCoord) -> TileCoord {
        let (x, y) = self.act(rhs.0 as int, rhs.1 as int);
        TileCoord(x as isize, y as isize)
    }
}

/// The rotation whose shift is `to - from`, modulo 4.
pub open spec fn spec_rotation_for(from: Direction, to: Direction) -> DihedralElement {
    DihedralElement::from_index(wrap4(to.index() - from.index()))
}

/// The rotation that takes `from` to `to`.
#[verifier::when_used_as_spec(spec_rotation_for)]
pub fn rotation_for(from: Direction, to: Direction) -> (r: DihedralElement)
    ensures
        r == spec_rotation_for(from, to),
        r.spec_apply(from) == to,
        r.spec_sign() == 1,
{
    let n: usize = wrap(to.repr() + 4 - from.repr());
    DihedralElement::from_repr(n).unwrap()
}

/// `Flip0` for a vertical direction, `Flip90` for a horizontal one.
pub open spec fn spec_reflection_along(d: Direction) -> DihedralElement {
    match d {
        Direction::Up | Direction::Down => DihedralElement::Flip0,
        Direction::Left | Direction::Right => DihedralElement::Flip90,
    }
}

/// The reflection that leaves `d` in place.
#[verifier::when_used_as_spec(spec_reflection_along)]
pub fn reflection_along(d: Direction) -> (r: DihedralElement)
    ensures
        r == spec_reflection_along(d),
        r.spec_apply(d) == d,
        r.spec_sign() == -1,
{
    match d {
        Direction::Up | Direction::Down => DihedralElement::Flip0,
        Direction::Left | Direction::Right => DihedralElement::Flip90,
    }
}

/// Whether two directions lie on different axes.
pub open spec fn orthogonal(a: Direction, b: Direction) -> bool {
    a != b && a != b.spec_opposite()
}

/// The rotation from `from1` to `to1` if it also takes `from2` to `to2`, else that rotation
/// followed by the reflection along `to1`.
pub open spec fn spec_trans_for_dirs(
    from1: Direction,
    from2: Direction,
    to1: Direction,
    to2: Direction,
) -> DihedralElement {
    let r = spec_rotation_for(from1, to1);
    if r.spec_apply(from2) == to2 {
        r
    } else {
        spec_reflection_along(to1).compose(r)
    }
}

/// The element that takes `from1` to `to1` and `from2` to `to2`.
///
/// Such an element exists and is unique when both pairs are orthogonal; see
/// [`lemma_trans_for_dirs`] and [`lemma_trans_for_dirs_unique`].
#[verifier::when_used_as_spec(spec_trans_for_dirs)]
pub fn trans_for_dirs(from1: Direction, from2: Direction, to1: Direction, to2: Direction) -> (r:
    DihedralElement)
    ensures
        r == spec_trans_for_dirs(from1, from2, to1, to2),
        r.spec_apply(from1) == to1,
        orthogonal(from1, from2) && orthogonal(to1, to2) ==> r.spec_apply(from2) == to2,
{
    proof {
        lemma_trans_for_dirs(from1, from2, to1, to2);
    }
    let r = rotation_for(from1, to1);
    if r.apply(from2) == to2 {
        r
    } else {
        reflection_along(to1) * r
    }
}

/// A rigid motion of the grid: a dihedral element followed by a translation.
#[derive(Copy, Clone, PartialEq, Eq, Structural)]
pub struct Isometry {
    pub dihedral: DihedralElement,
    pub offset: TileCoord,
}

impl Isometry {
    /// Where the motion takes the point `(x, y)`.
    pub open spec fn image(self, x: int, y: int) -> (int, int) {
        let (ax, ay) = self.dihedral.act(x, y);
        (self.offset.0 + ax, self.offset.1 + ay)
    }

    /// The point that the motion takes to `(x, y)`.
    pub open spec fn preimage(self, x: int, y: int) -> (int, int) {
        self.dihedral.spec_inverse().act(x - self.offset.0, y - self.offset.1)
    }

    /// The inverse motion, as a dihedral element and an unbounded offset.
    pub open spec fn inverse_parts(self) -> (DihedralElement, (int, int)) {
        let inv = self.dihedral.spec_inverse();
        let (ax, ay) = inv.act(self.offset.0 as int, self.offset.1 as int);
        (inv, (-ax, -ay))
    }

    /// The motion that undoes this one.
    pub fn inverse(&self) -> (r: Isometry)
        requires
            self.offset.0 > isize::MIN,
            self.offset.1 > isize::MIN,
        ensures
            r.dihedral == self.inverse_parts().0,
            r.offset.0 == self.inverse_parts().1.0,
            r.offset.1 == self.inverse_parts().1.1,
    {
        let turned = self.dihedral.inverse() * self.offset;
        Isometry { dihedral: self.dihedral.inverse(), offset: core::ops::Neg::neg(turned) }
    }

    /// The cell that the motion takes to `pos`.
    pub fn apply_inverse(&self, pos: TileCoord) -> (r: TileCoord)
        requires
            isize::MIN < pos.0 - self.offset.0 <= isize::MAX,
            isize::MIN < pos.1 - self.offset.1 <= isize::MAX,
        ensures
            r.is_at(self.preimage(pos.0 as int, pos.1 as int)),
    {
        self.dihedral.inverse() * (pos - self.offset)
    }

    /// The motion with the given dihedral part that takes `from` to `to`.
    pub fn from_anchors(from: TileCoord, to: TileCoord, dihedral: DihedralElement) -> (r: Isometry)
        requires
            from.0 > isize::MIN,
            from.1 > isize::MIN,
            fits_isize(to.0 - dihedral.act(from.0 as int, from.1 as int).0),
            fits_isize(to.1 - dihedral.act(from.0 as int, from.1 as int).1),
        ensures
            r.dihedral == dihedral,
            r.offset.0 == to.0 - dihedral.act(from.0 as int, from.1 as int).0,
            r.offset.1 == to.1 - dihedral.act(from.0 as int, from.1 as int).1,
            to.is_at(r.image(from.0 as int, from.1 as int)),
    {
        let offset = to - dihedral * from;
        Isometry { dihedral, offset }
    }
}

impl core::ops::Mul<TileCoord> for Isometry {
    type Output = TileCoord;

    fn mul(self, rhs: TileCoord) -> (r: TileCoord) {
        self.offset + self.dihedral * rhs
    }
}

impl vstd::std_specs::ops::MulSpecImpl<TileCoord> for Isometry {
    open spec fn obeys_mul_spec() -> bool {
        true
    }

    /// Both the turned cell and the translated one must be representable.
    open spec fn mul_req(self, rhs: TileCoord) -> bool {
        let (ax, ay) = self.dihedral.act(rhs.0 as int, rhs.1 as int);
        let (x, y) = self.image(rhs.0 as int, rhs.1 as int);
        fits_isize(ax) && fits_isize(ay) && fits_isize(x) && fits_isize(y)
    }

    open spec fn mul_spec(self, rhs: TileCoord) -> TileCoord {
        let (x, y) = self.image(rhs.0 as int, rhs.1 as int);
        TileCoord(x as isize, y as isize)
    }
}

/// `a - b` for a reflection and `a + b` for a rotation, modulo 4: the shift of a product and
/// the index of an image.
pub open spec fn turn_of(flip: bool, a: int, b: int) -> int {
    if flip {
        wrap4(a - b)
    } else {
        wrap4(a + b)
    }
}

/// Associativity, on the parts of three elements.
proof fn lemma_turn_associative(f1: bool, s1: int, f2: bool, s2: int, s3: int)
    requires
        0 <= s1 < 4,
        0 <= s2 < 4,
        0 <= s3 < 4,
    ensures
        0 <= turn_of(f1, s1, s2) < 4,
        turn_of(f1 != f2, turn_of(f1, s1, s2), s3) == turn_of(f1, s1, turn_of(f2, s2, s3)),
{
}

/// The shift of an element lies between 0 and 3.
proof fn lemma_shift_range(e: DihedralElement)
    ensures
        0 <= e.spec_shift() < 4,
{
}

/// An element is determined by whether it reflects and by its shift.
proof fn lemma_same_parts(a: DihedralElement, b: DihedralElement)
    requires
        a.is_reflection() == b.is_reflection(),
        a.spec_shift() == b.spec_shift(),
    ensures
        a == b,
{
}

/// The two parts of a product: it reflects when exactly one factor does, and its shift is
/// `shift(a) + sign(a) * shift(b)`, modulo 4.
pub proof fn lemma_compose_parts(a: DihedralElement, b: DihedralElement)
    ensures
        a.compose(b).is_reflection() == (a.is_reflection() != b.is_reflection()),
        a.compose(b).spec_shift() == turn_of(a.is_reflection(), a.spec_shift(), b.spec_shift()),
        a.compose(b).spec_shift() == (a.spec_shift() + a.spec_sign() * b.spec_shift()) % 4,
{
    match a {
        DihedralElement::Id => {},
        DihedralElement::Rot90 => {},
        DihedralElement::Rot180 => {},
        DihedralElement::Rot270 => {},
        DihedralElement::Flip0 => {},
        DihedralElement::Flip45 => {},
        DihedralElement::Flip90 => {},
        DihedralElement::Flip135 => {},
    }
}

/// The index of an image is `sign * index + shift`, modulo 4, and that of an image under
/// the inverse is `sign * (index - shift)`, modulo 4.
pub proof fn lemma_apply_index(e: DihedralElement, d: Direction)
    ensures
        e.spec_apply(d).index() == turn_of(e.is_reflection(), e.spec_shift(), d.index()),
        e.spec_apply(d).index() == (e.spec_sign() * d.index() + e.spec_shift()) % 4,
        e.spec_apply_inverse(d).index() == (e.spec_sign() * (d.index() - e.spec_shift())) % 4,
{
    match e {
        DihedralElement::Id => {},
        DihedralElement::Rot90 => {},
        DihedralElement::Rot180 => {},
        DihedralElement::Rot270 => {},
        DihedralElement::Flip0 => {},
        DihedralElement::Flip45 => {},
        DihedralElement::Flip90 => {},
        DihedralElement::Flip135 => {},
    }
}

/// A direction is determined by its index.
proof fn lemma_same_index(a: Direction, b: Direction)
    requires
        a.index() == b.index(),
    ensures
        a == b,
{
}

/// Every element composed with its inverse, on either side, is the identity.
pub proof fn lemma_inverse(e: DihedralElement)
    ensures
        e.compose(e.spec_inverse()) == DihedralElement::Id,
        e.spec_inverse().compose(e) == DihedralElement::Id,
{
}

/// Composition is associative.
pub proof fn lemma_associative(e1: DihedralElement, e2: DihedralElement, e3: DihedralElement)
    ensures
        e1.compose(e2).compose(e3) == e1.compose(e2.compose(e3)),
{
    let ab = e1.compose(e2);
    let bc = e2.compose(e3);
    lemma_compose_parts(e1, e2);
    lemma_compose_parts(e2, e3);
    lemma_compose_parts(ab, e3);
    lemma_compose_parts(e1, bc);
    lemma_shift_range(e1);
    lemma_shift_range(e2);
    lemma_shift_range(e3);
    lemma_turn_associative(
        e1.is_reflection(),
        e1.spec_shift(),
        e2.is_reflection(),
        e2.spec_shift(),
        e3.spec_shift(),
    );
    lemma_same_parts(ab.compose(e3), e1.compose(bc));
}

/// The action on directions is a group action: applying a product is applying its factors
/// in turn, and the identity moves nothing.
pub proof fn lemma_action(e1: DihedralElement, e2: DihedralElement, d: Direction)
    ensures
        e1.compose(e2).spec_apply(d) == e1.spec_apply(e2.spec_apply(d)),
        DihedralElement::Id.spec_apply(d) == d,
{
    let ab = e1.compose(e2);
    let m = e2.spec_apply(d);
    lemma_compose_parts(e1, e2);
    lemma_apply_index(e2, d);
    lemma_apply_index(ab, d);
    lemma_apply_index(e1, m);
    lemma_shift_range(e1);
    lemma_shift_range(e2);
    lemma_turn_associative(
        e1.is_reflection(),
        e1.spec_shift(),
        e2.is_reflection(),
        e2.spec_shift(),
        d.index(),
    );
    lemma_same_index(ab.spec_apply(d), e1.spec_apply(m));
}

/// The identity element is neutral on both sides.
pub proof fn lemma_identity(e: DihedralElement)
    ensures
        DihedralElement::Id.compose(e) == e,
        e.compose(DihedralElement::Id) == e,
{
}

/// Applying the inverse is the inverse of applying: each undoes the other.
pub proof fn lemma_apply_inverse(e: DihedralElement, d: Direction)
    ensures
        e.spec_apply_inverse(d) == e.spec_inverse().spec_apply(d),
        e.spec_apply_inverse(e.spec_apply(d)) == d,
        e.spec_apply(e.spec_apply_inverse(d)) == d,
{
}

/// The opposite of a direction is its half turn, and the opposite of the opposite is the
/// direction itself.
pub proof fn lemma_opposite(d: Direction)
    ensures
        d.spec_opposite() == DihedralElement::Rot180.spec_apply(d),
        d.spec_opposite().spec_opposite() == d,
        d.spec_opposite() != d,
{
}

/// Exactly one rotation takes `from` to `to`: any rotation that does is `rotation_for`.
pub proof fn lemma_rotation_for_unique(e: DihedralElement, from: Direction, to: Direction)
    requires
        e.spec_sign() == 1,
        e.spec_apply(from) == to,
    ensures
        e == spec_rotation_for(from, to),
{
}

/// Exactly one reflection leaves `d` in place: any reflection that does is
/// `reflection_along`.
pub proof fn lemma_reflection_along_unique(e: DihedralElement, d: Direction)
    requires
        e.spec_sign() == -1,
        e.spec_apply(d) == d,
    ensures
        e == spec_reflection_along(d),
{
}

/// `trans_for_dirs` takes `from1` to `to1`, and `from2` to `to2` when both pairs are
/// orthogonal.
pub proof fn lemma_trans_for_dirs(from1: Direction, from2: Direction, to1: Direction, to2: Direction)
    ensures
        spec_trans_for_dirs(from1, from2, to1, to2).spec_apply(from1) == to1,
        orthogonal(from1, from2) && orthogonal(to1, to2) ==> spec_trans_for_dirs(
            from1,
            from2,
            to1,
            to2,
        ).spec_apply(from2) == to2,
{
    match from1 {
        Direction::Up => match to1 {
            Direction::Up => {},
            Direction::Right => {},
            Direction::Down => {},
            Direction::Left => {},
        },
        Direction::Right => match to1 {
            Direction::Up => {},
            Direction::Right => {},
            Direction::Down => {},
            Direction::Left => {},
        },
        Direction::Down => match to1 {
            Direction::Up => {},
            Direction::Right => {},
            Direction::Down => {},
            Direction::Left => {},
        },
        Direction::Left => match to1 {
            Direction::Up => {},
            Direction::Right => {},
            Direction::Down => {},
            Direction::Left => {},
        },
    }
}

/// An element is determined by the images of two orthogonal directions: any element that
/// takes `from1` to `to1` and `from2` to `to2` is `trans_for_dirs` of the four.
pub proof fn lemma_trans_for_dirs_unique(e: DihedralElement, from1: Direction, from2: Direction)
    requires
        orthogonal(from1, from2),
    ensures
        e == spec_trans_for_dirs(from1, from2, e.spec_apply(from1), e.spec_apply(from2)),
        orthogonal(e.spec_apply(from1), e.spec_apply(from2)),
{
    match e {
        DihedralElement::Id => {},
        DihedralElement::Rot90 => {},
        DihedralElement::Rot180 => {},
        DihedralElement::Rot270 => {},
        DihedralElement::Flip0 => {},
        DihedralElement::Flip45 => {},
        DihedralElement::Flip90 => {},
        DihedralElement::Flip135 => {},
    }
}

/// The action on grid vectors agrees with the action on directions: the image of a unit
/// vector is the unit vector of the image.
pub proof fn lemma_act_unit(e: DihedralElement, d: Direction)
    ensures
        e.act(d.spec_dx(), d.spec_dy()) == (e.spec_apply(d).spec_dx(), e.spec_apply(d).spec_dy()),
{
}

/// The action on grid vectors is a group action.
pub proof fn lemma_act_compose(e1: DihedralElement, e2: DihedralElement, x: int, y: int)
    ensures
        e1.compose(e2).act(x, y) == e1.act(e2.act(x, y).0, e2.act(x, y).1),
        DihedralElement::Id.act(x, y) == (x, y),
{
}

/// An isometry's inverse undoes it, and `preimage` is the inverse's `image`.
pub proof fn lemma_isometry_inverse(m: Isometry, x: int, y: int)
    ensures
        m.preimage(m.image(x, y).0, m.image(x, y).1) == (x, y),
        m.image(m.preimage(x, y).0, m.preimage(x, y).1) == (x, y),
        ({
            let (inv, off) = m.inverse_parts();
            let (ax, ay) = inv.act(x, y);
            (off.0 + ax, off.1 + ay) == m.preimage(x, y)
        }),
{
}

/// `trans_for_dirs` commutes with moving the targets: if both targets are moved by `g`, the
/// element found is `g` times the one found before.
pub proof fn lemma_trans_for_dirs_moved(
    g: DihedralElement,
    from1: Direction,
    from2: Direction,
    to1: Direction,
    to2: Direction,
)
    requires
        orthogonal(from1, from2),
        orthogonal(to1, to2),
    ensures
        spec_trans_for_dirs(from1, from2, g.spec_apply(to1), g.spec_apply(to2)) == g.compose(
            spec_trans_for_dirs(from1, from2, to1, to2),
        ),
{
    let t = spec_trans_for_dirs(from1, from2, to1, to2);
    let e = g.compose(t);
    lemma_trans_for_dirs(from1, from2, to1, to2);
    lemma_action(g, t, from1);
    lemma_action(g, t, from2);
    lemma_trans_for_dirs_unique(e, from1, from2);
}

/// The inverse of a product is the product of the inverses in reverse order, and so is its
/// action.
pub proof fn lemma_inverse_of_product(a: DihedralElement, b: DihedralElement, d: Direction)
    ensures
        a.compose(b).spec_inverse() == b.spec_inverse().compose(a.spec_inverse()),
        a.compose(b).spec_apply_inverse(d) == b.spec_apply_inverse(a.spec_apply_inverse(d)),
{
    let ab = a.compose(b);
    let x = b.spec_inverse().compose(a.spec_inverse());
    // x * (a * b) is the identity, so x is the inverse of a * b.
    lemma_associative(x, a, b);
    lemma_associative(b.spec_inverse(), a.spec_inverse(), a);
    lemma_inverse(a);
    lemma_inverse(b);
    lemma_identity(b.spec_inverse());
    assert(x.compose(ab) == DihedralElement::Id);
    lemma_associative(x, ab, ab.spec_inverse());
    lemma_inverse(ab);
    lemma_identity(x);
    lemma_identity(ab.spec_inverse());
    assert(x == ab.spec_inverse());
    lemma_apply_inverse(ab, d);
    lemma_apply_inverse(a, d);
    lemma_apply_inverse(b, a.spec_apply_inverse(d));
    lemma_action(b.spec_inverse(), a.spec_inverse(), d);
}

/// The image of an opposite is the opposite of the image, under an element and under its
/// inverse.
pub proof fn lemma_apply_opposite(e: DihedralElement, d: Direction)
    ensures
        e.spec_apply(d.spec_opposite()) == e.spec_apply(d).spec_opposite(),
        e.spec_apply_inverse(d.spec_opposite()) == e.spec_apply_inverse(d).spec_opposite(),
{
    match e {
        DihedralElement::Id => {},
        DihedralElement::Rot90 => {},
        DihedralElement::Rot180 => {},
        DihedralElement::Rot270 => {},
        DihedralElement::Flip0 => {},
        DihedralElement::Flip45 => {},
        DihedralElement::Flip90 => {},
        DihedralElement::Flip135 => {},
    }
}

} // verus!
