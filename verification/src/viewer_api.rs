//! The computations behind the tile viewer's answers: which tile file names are
//! accepted, and how a tile's records are described.

use vstd::prelude::*;
use vstd::string::*;
use crate::map_data::graph::TileTagTable;
use crate::rmdf::{TagSetRecord, TAG_VALUE_NONE};
use crate::text::{contains, ends_with, occurs_in, is_suffix};

verus! {

/// The point and line counts of a tile.
#[derive(Clone, Copy, Debug, PartialEq, Eq, Structural)]
pub struct TileHeader {
    pub point_count: u64,
    pub line_count: u64,
}

/// The resolved tags of a line.
#[derive(Clone, Debug, PartialEq, Eq)]
pub struct TagResponse {
    pub name: Option<String>,
    pub highway: Option<String>,
    pub surface: Option<String>,
    pub smoothness: Option<String>,
}

impl Default for TagResponse {
    fn default() -> (res: Self)
        ensures
            res.name is None && res.highway is None && res.surface is None && res.smoothness is None,
    {
        TagResponse { name: None, highway: None, surface: None, smoothness: None }
    }
}

/// Why a requested tile file name is refused.
#[derive(Clone, Copy, Debug, PartialEq, Eq, Structural)]
pub enum TileFilenameError {
    /// It could leave the tile directory: it holds `..`, `/` or `\`.
    InvalidFilename,
    /// It does not end with `.rmdf`.
    NotRmdf,
}

/// Which error, if any, a requested tile file name gets.
pub open spec fn tile_filename_error(name: Seq<char>) -> Option<TileFilenameError> {
    if occurs_in(".."@, name) || occurs_in("/"@, name) || occurs_in("\\"@, name) {
        Some(TileFilenameError::InvalidFilename)
    } else if !is_suffix(".rmdf"@, name) {
        Some(TileFilenameError::NotRmdf)
    } else {
        None
    }
}

/// Accepts a tile file name only if it stays inside the tile directory and names an
/// `.rmdf` file.
pub fn check_tile_filename(filename: &str) -> (res: Result<(), TileFilenameError>)
    ensures
        match tile_filename_error(filename@) {
            Some(e) => res == Err::<(), TileFilenameError>(e),
            None => res is Ok,
        },
{
    if contains(filename, "..") || contains(filename, "/") || contains(filename, "\\") {
        return Err(TileFilenameError::InvalidFilename);
    }
    if !ends_with(filename, ".rmdf") {
        return Err(TileFilenameError::NotRmdf);
    }
    Ok(())
}

/// The name of a stored line direction code.
pub open spec fn direction_name_spec(direction: u8) -> Seq<char> {
    if direction == 0 {
        "BothWays"@
    } else if direction == 1 {
        "OneWay"@
    } else if direction == 2 {
        "Roundabout"@
    } else {
        "Unknown"@
    }
}

/// The name of a stored line direction code.
pub fn direction_name(direction: u8) -> (res: &'static str)
    ensures
        res@ == direction_name_spec(direction),
{
    match direction {
        0 => "BothWays",
        1 => "OneWay",
        2 => "Roundabout",
        _ => "Unknown",
    }
}

/// The flag names of a point: `residential_in_proximity` and then `nogo_area`, each
/// when set.
pub open spec fn point_flags_spec(residential: bool, nogo: bool) -> Seq<Seq<char>> {
    (if residential {
        seq!["residential_in_proximity"@]
    } else {
        Seq::empty()
    }) + (if nogo {
        seq!["nogo_area"@]
    } else {
        Seq::empty()
    })
}

/// The flag names of a point (see `point_flags_spec`).
pub fn point_flags(residential_in_proximity: bool, nogo_area: bool) -> (res: Vec<String>)
    ensures
        res.deep_view() == point_flags_spec(residential_in_proximity, nogo_area),
{
    let mut flags: Vec<String> = Vec::new();
    if residential_in_proximity {
        flags.push(String::from_str("residential_in_proximity"));
    }
    if nogo_area {
        flags.push(String::from_str("nogo_area"));
    }
    assert(flags.deep_view() =~= point_flags_spec(residential_in_proximity, nogo_area));
    flags
}

/// The string of a tag value index of a tile table: none for `TAG_VALUE_NONE` or an
/// index the table does not hold.
pub open spec fn resolved_value(table: TileTagTable, idx: u32) -> Option<Seq<char>> {
    if idx == TAG_VALUE_NONE || idx as int >= table.tag_values@.len() {
        None
    } else {
        Some(table.tag_values@[idx as int]@)
    }
}

/// Whether an optional string is the given optional character sequence.
pub open spec fn opt_string_is(s: Option<String>, v: Option<Seq<char>>) -> bool {
    match (s, v) {
        (Some(a), Some(b)) => a@ == b,
        (None, None) => true,
        _ => false,
    }
}

fn resolve_value(table: &TileTagTable, idx: u32) -> (res: Option<String>)
    ensures
        opt_string_is(res, resolved_value(*table, idx)),
{
    if idx == TAG_VALUE_NONE {
        return None;
    }
    if (idx as usize) < table.tag_values.len() {
        Some(table.tag_values[idx as usize].clone())
    } else {
        None
    }
}

/// The tags of tag set `tag_set_index` of a tile; `None` when the tile has no such set.
pub fn resolve_tags(table: &TileTagTable, tag_set_index: u32) -> (res: Option<TagResponse>)
    ensures
        (tag_set_index as int) >= table.tag_sets@.len() ==> res is None,
        (tag_set_index as int) < table.tag_sets@.len() ==> (res matches Some(r) && {
            let set: TagSetRecord = table.tag_sets@[tag_set_index as int];
            &&& opt_string_is(r.name, resolved_value(*table, set.name_idx))
            &&& opt_string_is(r.highway, resolved_value(*table, set.highway_idx))
            &&& opt_string_is(r.surface, resolved_value(*table, set.surface_idx))
            &&& opt_string_is(r.smoothness, resolved_value(*table, set.smoothness_idx))
        }),
{
    if (tag_set_index as usize) >= table.tag_sets.len() {
        return None;
    }
    let set = table.tag_sets[tag_set_index as usize];
    Some(
        TagResponse {
            name: resolve_value(table, set.name_idx),
            highway: resolve_value(table, set.highway_idx),
            surface: resolve_value(table, set.surface_idx),
            smoothness: resolve_value(table, set.smoothness_idx),
        },
    )
}

} // verus!
