//! Tiles: a tile type, the transform that places it, and a phase bit.

use crate::direction::DihedralElement;
use vstd::prelude::*;

verus! {

/// The kinds of road tile.
#[derive(Copy, Clone, PartialEq, Eq, Structural, Debug, Hash)]
pub enum TileType {
    Straight,
    Turn,
    Finish,
    LightTurns,
    LightForwardTurn,
    Merge,
    YieldIntersection,
    LightIntersection,
}

impl TileType {
    /// Position of the type in declaration order: `Straight` is 0, `LightIntersection` is 7.
    pub open spec fn index(self) -> int {
        match self {
            TileType::Straight => 0,
            TileType::Turn => 1,
            TileType::Finish => 2,
            TileType::LightTurns => 3,
            TileType::LightForwardTurn => 4,
            TileType::Merge => 5,
            TileType::YieldIntersection => 6,
            TileType::LightIntersection => 7,
        }
    }

    pub open spec fn spec_has_lights(self) -> bool {
        self == TileType::LightIntersection || self == TileType::LightTurns || self
            == TileType::LightForwardTurn
    }

    pub open spec fn spec_name(self) -> Seq<char> {
        match self {
            TileType::Straight => "Straight"@,
            TileType::Turn => "Turn"@,
            TileType::Finish => "Start/Finish"@,
            TileType::LightIntersection => "Intersection with lights"@,
            TileType::YieldIntersection => "Intersection with yield sign"@,
            TileType::LightTurns => "Left/right turn with lights"@,
            TileType::Merge => "Merge with yield sign"@,
            TileType::LightForwardTurn => "Straight/turn with lights"@,
        }
    }

    pub open spec fn spec_reverse_trans(self) -> DihedralElement {
        match self {
            TileType::Straight
            | TileType::Finish
            | TileType::LightForwardTurn
            | TileType::Merge => DihedralElement::Flip90,
            TileType::LightIntersection | TileType::YieldIntersection => DihedralElement::Rot180,
            TileType::Turn => DihedralElement::Flip45,
            TileType::LightTurns => DihedralElement::Id,
        }
    }

    /// The type's index as a machine integer.
    pub fn repr(self) -> (r: usize)
        ensures
            r == self.index(),
    {
        match self {
            TileType::Straight => 0,
            TileType::Turn => 1,
            TileType::Finish => 2,
            TileType::LightTurns => 3,
            TileType::LightForwardTurn => 4,
            TileType::Merge => 5,
            TileType::YieldIntersection => 6,
            TileType::LightIntersection => 7,
        }
    }

    /// The type with index `i`, if `i` is below 8.
    pub fn from_repr(i: usize) -> (r: Option<TileType>)
        ensures
            i < 8 ==> r is Some && r->0.index() == i,
            i >= 8 ==> r is None,
    {
        if i == 0 {
            Some(TileType::Straight)
        } else if i == 1 {
            Some(TileType::Turn)
        } else if i == 2 {
            Some(TileType::Finish)
        } else if i == 3 {
            Some(TileType::LightTurns)
        } else if i == 4 {
            Some(TileType::LightForwardTurn)
        } else if i == 5 {
            Some(TileType::Merge)
        } else if i == 6 {
            Some(TileType::YieldIntersection)
        } else if i == 7 {
            Some(TileType::LightIntersection)
        } else {
            None
        }
    }

    /// Whether the tile carries traffic lights, which alternate between two phases.
    #[verifier::when_used_as_spec(spec_has_lights)]
    pub fn has_lights(self) -> (r: bool)
        ensures
            r == self.spec_has_lights(),
    {
        match self {
            TileType::LightIntersection | TileType::LightTurns | TileType::LightForwardTurn => true,
            _ => false,
        }
    }

    /// The type's name, as shown in the tile palette.
    pub fn name(self) -> (r: &'static str)
        ensures
            r@ == self.spec_name(),
    {
        match self {
            TileType::Straight => "Straight",
            TileType::Turn => "Turn",
            TileType::Finish => "Start/Finish",
            TileType::LightIntersection => "Intersection with lights",
            TileType::YieldIntersection => "Intersection with yield sign",
            TileType::LightTurns => "Left/right turn with lights",
            TileType::Merge => "Merge with yield sign",
            TileType::LightForwardTurn => "Straight/turn with lights",
        }
    }

    /// The element that, applied before a tile's transform, turns the tile's main flow
    /// around.
    #[verifier::when_used_as_spec(spec_reverse_trans)]
    pub fn reverse_trans(self) -> (r: DihedralElement)
        ensures
            r == self.spec_reverse_trans(),
            r.compose(r) == DihedralElement::Id,
    {
        match self {
            TileType::Straight
            | TileType::Finish
            | TileType::LightForwardTurn
            | TileType::Merge => DihedralElement::Flip90,
            TileType::LightIntersection | TileType::YieldIntersection => DihedralElement::Rot180,
            TileType::Turn => DihedralElement::Flip45,
            TileType::LightTurns => DihedralElement::Id,
        }
    }
}

/// A placed tile.
///
/// `transform` takes the type's canonical directions to the directions on the grid.
/// Bit 0 of `offset` selects the phase of a tile with lights.
#[derive(Copy, Clone, PartialEq, Eq, Structural, Debug)]
pub struct Tile {
    pub tile_type: TileType,
    pub transform: DihedralElement,
    pub offset: u8,
}

impl Tile {
    pub open spec fn spec_apply_transform(self, transform: DihedralElement) -> Tile {
        Tile { transform: transform.compose(self.transform), ..self }
    }

    pub open spec fn spec_default_for_type(tile_type: TileType) -> Tile {
        Tile { tile_type, transform: DihedralElement::Id, offset: 0 }
    }

    pub open spec fn spec_toggle_lights(self) -> Tile {
        Tile {
            transform: if self.tile_type == TileType::YieldIntersection {
                self.transform.compose(DihedralElement::Flip135)
            } else {
                self.transform
            },
            offset: self.offset ^ 1,
            ..self
        }
    }

    pub open spec fn spec_reverse(self) -> Tile {
        Tile { transform: self.transform.compose(self.tile_type.spec_reverse_trans()), ..self }
    }

    /// The tile moved by `transform`: the new transform is `transform * self.transform`.
    #[verifier::when_used_as_spec(spec_apply_transform)]
    pub fn apply_transform(self, transform: DihedralElement) -> (r: Tile)
        ensures
            r == self.spec_apply_transform(transform),
    {
        Tile { transform: transform * self.transform, ..self }
    }

    /// The tile of the given type in canonical position and phase 0.
    #[verifier::when_used_as_spec(spec_default_for_type)]
    pub fn default_for_type(tile_type: TileType) -> (r: Tile)
        ensures
            r == Tile::spec_default_for_type(tile_type),
    {
        Tile { tile_type, transform: DihedralElement::Id, offset: 0 }
    }

    /// The tile in its other phase: bit 0 of the offset is flipped, and a yield
    /// intersection is mirrored so that the yield sign changes sides.
    #[verifier::when_used_as_spec(spec_toggle_lights)]
    pub fn toggle_lights(self) -> (r: Tile)
        ensures
            r == self.spec_toggle_lights(),
    {
        let transform = if self.tile_type == TileType::YieldIntersection {
            self.transform * DihedralElement::Flip135
        } else {
            self.transform
        };
        Tile { transform, offset: self.offset ^ 1, ..self }
    }

    /// `toggle_lights` if `toggle` holds, else the tile itself.
    pub fn toggle_lights_if(self, toggle: bool) -> (r: Tile)
        ensures
            r == (if toggle {
                self.spec_toggle_lights()
            } else {
                self
            }),
    {
        if toggle {
            self.toggle_lights()
        } else {
            self
        }
    }

    /// The tile with its main flow turned around: the new transform is
    /// `self.transform * reverse_trans`.
    #[verifier::when_used_as_spec(spec_reverse)]
    pub fn reverse(self) -> (r: Tile)
        ensures
            r == self.spec_reverse(),
    {
        Tile { transform: self.transform * self.tile_type.reverse_trans(), ..self }
    }

    /// `reverse` if `toggle` holds, else the tile itself.
    pub fn reverse_if(self, toggle: bool) -> (r: Tile)
        ensures
            r == (if toggle {
                self.spec_reverse()
            } else {
                self
            }),
    {
        if toggle {
            self.reverse()
        } else {
            self
        }
    }
}

/// Toggling the lights flips the parity of the offset and leaves its other bits alone.
pub proof fn lemma_toggle_offset(offset: u8)
    ensures
        (offset ^ 1) % 2 == 1 - offset % 2,
        (offset ^ 1) / 2 == offset / 2,
        (offset ^ 1) ^ 1 == offset,
{
    assert((offset ^ 1) % 2 == 1 - offset % 2) by (bit_vector);
    assert((offset ^ 1) / 2 == offset / 2) by (bit_vector);
    assert((offset ^ 1) ^ 1 == offset) by (bit_vector);
}

/// Toggling the lights twice, or reversing twice, gives the tile back.
pub proof fn lemma_toggle_reverse_twice(tile: Tile)
    ensures
        tile.spec_toggle_lights().spec_toggle_lights() == tile,
        tile.spec_reverse().spec_reverse() == tile,
{
    lemma_toggle_offset(tile.offset);
    let f = DihedralElement::Flip135;
    let r = tile.tile_type.spec_reverse_trans();
    crate::direction::lemma_associative(tile.transform, f, f);
    crate::direction::lemma_associative(tile.transform, r, r);
    crate::direction::lemma_identity(tile.transform);
    assert(f.compose(f) == DihedralElement::Id);
    assert(r.compose(r) == DihedralElement::Id);
}

} // verus!
