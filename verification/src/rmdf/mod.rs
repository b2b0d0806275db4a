//! Identifiers and constants of the tiled map data files.

use vstd::prelude::*;
use vstd::string::*;
use crate::text::{decimal, push_decimal};
use crate::generation::LineDirection;
use crate::generation::restriction::GenerationRestrictionRuleType;

pub mod manifest;
pub mod writer;

verus! {

/// A tile of the world grid: `col` counts tiles eastwards from longitude -180,
/// `row` counts tiles northwards from latitude -90.
#[derive(Clone, Copy, Debug, PartialEq, Eq, Hash, Structural)]
pub struct TileId {
    pub col: u16,
    pub row: u16,
}

/// A tag set record as stored in a tile: one tag value index per tag.
#[derive(Clone, Copy, Debug, PartialEq, Eq, Structural)]
pub struct TagSetRecord {
    pub name_idx: u32,
    pub hw_ref_idx: u32,
    pub highway_idx: u32,
    pub surface_idx: u32,
    pub smoothness_idx: u32,
}

/// The tag value index that stands for "tag absent".
pub const TAG_VALUE_NONE: u32 = 0xFFFF_FFFFu32;

/// The tile that tags are attributed to while a tile is still being built.
pub open spec fn placeholder_tile() -> TileId {
    TileId { col: 0, row: 0 }
}

impl TileId {
    /// The tile at `col`, `row`.
    pub fn new(col: u16, row: u16) -> (res: Self)
        ensures
            res.col == col,
            res.row == row,
    {
        TileId { col, row }
    }
}


/// The file name of a tile: `tile_<col>_<row>.rmdf`, with decimal numbers.
pub open spec fn tile_filename(tile: TileId) -> Seq<char> {
    "tile_"@ + decimal(tile.col as nat) + "_"@ + decimal(tile.row as nat) + ".rmdf"@
}

impl TileId {
    /// The file name of this tile (see `tile_filename`).
    pub fn to_filename(&self) -> (res: String)
        ensures
            res@ == tile_filename(*self),
    {
        let mut name = String::from_str("tile_");
        push_decimal(&mut name, self.col as u64);
        name.append("_");
        push_decimal(&mut name, self.row as u64);
        name.append(".rmdf");
        name
    }
}

/// The code under which a line direction is stored.
pub open spec fn direction_code_spec(direction: LineDirection) -> u8 {
    match direction {
        LineDirection::BothWays => 0,
        LineDirection::OneWay => 1,
        LineDirection::Roundabout => 2,
    }
}

/// The line direction of a stored code; unknown codes read as both ways.
pub open spec fn direction_of_code_spec(code: u8) -> LineDirection {
    if code == 1 {
        LineDirection::OneWay
    } else if code == 2 {
        LineDirection::Roundabout
    } else {
        LineDirection::BothWays
    }
}

/// The code under which a line direction is stored.
pub fn direction_code(direction: LineDirection) -> (res: u8)
    ensures
        res == direction_code_spec(direction),
{
    match direction {
        LineDirection::BothWays => 0,
        LineDirection::OneWay => 1,
        LineDirection::Roundabout => 2,
    }
}

/// The line direction of a stored code; unknown codes read as both ways.
pub fn direction_of_code(code: u8) -> (res: LineDirection)
    ensures
        res == direction_of_code_spec(code),
{
    match code {
        0 => LineDirection::BothWays,
        1 => LineDirection::OneWay,
        2 => LineDirection::Roundabout,
        _ => LineDirection::BothWays,
    }
}

/// Reading back the stored code of a direction gives the direction.
pub proof fn lemma_direction_code_roundtrip(direction: LineDirection)
    ensures
        direction_of_code_spec(direction_code_spec(direction)) == direction,
{
}

/// The code under which a restriction rule type is stored.
pub open spec fn rule_type_code_spec(rule_type: GenerationRestrictionRuleType) -> u8 {
    match rule_type {
        GenerationRestrictionRuleType::OnlyAllowed => 0,
        GenerationRestrictionRuleType::NotAllowed => 1,
    }
}

/// The code under which a restriction rule type is stored.
pub fn serialize_rule_type(rule_type: &GenerationRestrictionRuleType) -> (res: u8)
    ensures
        res == rule_type_code_spec(*rule_type),
{
    match rule_type {
        GenerationRestrictionRuleType::OnlyAllowed => 0,
        GenerationRestrictionRuleType::NotAllowed => 1,
    }
}

} // verus!
