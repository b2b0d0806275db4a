//! The tile manifest: reading tile ids back from tile file names, the order
//! in which tiles are listed, and the neighbours of each tile.

use vstd::prelude::*;
use vstd::relations::{sorted_by, total_ordering};
use vstd::string::*;
use crate::numbers::{all_digits, digit_value, digits_value, is_digit, parse_u64, u64_text_value, unsigned_digits};
use crate::rmdf::{TileId, tile_filename};
use crate::text::decimal;

verus! {

/// The value of an unsigned 16-bit literal as `str::parse::<u16>` reads it.
pub open spec fn u16_text_value(s: Seq<char>) -> Option<u16> {
    match u64_text_value(s) {
        Some(v) => if v <= u16::MAX {
            Some(v as u16)
        } else {
            None
        },
        None => None,
    }
}

/// Whether `s` has an underscore at `k` and nowhere else.
pub open spec fn single_underscore(s: Seq<char>, k: int) -> bool {
    &&& 0 <= k < s.len()
    &&& s[k] == '_'
    &&& forall|i: int| 0 <= i < s.len() && i != k ==> #[trigger] s[i] != '_'
}

/// The tile that a file stem names: `tile_<col>_<row>` with exactly these
/// three parts between underscores, and column and row as `u16` numbers.
pub open spec fn tile_id_of_stem(stem: Seq<char>) -> Option<TileId> {
    if stem.len() >= 5 && stem.take(5) == "tile_"@ && exists|k: int| single_underscore(stem.skip(5), k) {
        let rest = stem.skip(5);
        let k = choose|k: int| single_underscore(rest, k);
        match (u16_text_value(rest.take(k)), u16_text_value(rest.skip(k + 1))) {
            (Some(col), Some(row)) => Some(TileId { col, row }),
            _ => None,
        }
    } else {
        None
    }
}

fn parse_u16(s: &str) -> (r: Option<u16>)
    ensures
        r == u16_text_value(s@),
{
    match parse_u64(s) {
        Some(v) => if v <= 0xffff {
            Some(v as u16)
        } else {
            None
        },
        None => None,
    }
}

/// The tile that the stem of a tile file name names (see `tile_id_of_stem`).
pub fn parse_tile_id_from_filename(stem: &str) -> (r: Option<TileId>)
    ensures
        r == tile_id_of_stem(stem@),
{
    proof {
        reveal_strlit("tile_");
    }
    let n = stem.unicode_len();
    if n < 5 {
        return None;
    }
    let head = stem.substring_char(0, 5);
    if !crate::text::str_eq(head, "tile_") {
        assert(stem@.take(5) =~= head@);
        return None;
    }
    assert(stem@.take(5) =~= head@);
    let rest = stem.substring_char(5, n);
    assert(rest@ =~= stem@.skip(5));
    let m = rest.unicode_len();
    let mut k: usize = 0;
    while k < m && rest.get_char(k) != '_'
        invariant
            k <= m,
            m == rest@.len(),
            forall|i: int| 0 <= i < k ==> rest@[i] != '_',
        decreases m - k,
    {
        k = k + 1;
    }
    if k == m {
        assert(!exists|j: int| single_underscore(rest@, j));
        return None;
    }
    let mut j: usize = k + 1;
    while j < m && rest.get_char(j) != '_'
        invariant
            k < j <= m,
            m == rest@.len(),
            forall|i: int| k < i < j ==> rest@[i] != '_',
        decreases m - j,
    {
        j = j + 1;
    }
    if j < m {
        assert(!exists|x: int| single_underscore(rest@, x)) by {
            if exists|x: int| single_underscore(rest@, x) {
                let x = choose|x: int| single_underscore(rest@, x);
                assert(rest@[k as int] == '_');
                assert(rest@[j as int] == '_');
            }
        }
        return None;
    }
    assert(single_underscore(rest@, k as int));
    assert forall|x: int| single_underscore(rest@, x) implies x == k by {
        if x != k {
            assert(rest@[k as int] != '_');
        }
    }
    let col_text = rest.substring_char(0, k);
    let row_text = rest.substring_char(k + 1, m);
    assert(col_text@ =~= rest@.take(k as int));
    assert(row_text@ =~= rest@.skip(k + 1));
    match (parse_u16(col_text), parse_u16(row_text)) {
        (Some(col), Some(row)) => Some(TileId { col, row }),
        _ => None,
    }
}

proof fn lemma_digit_char(d: nat)
    requires
        d < 10,
    ensures
        is_digit(crate::text::digit_char(d)),
        digit_value(crate::text::digit_char(d)) == d,
{
}

proof fn lemma_decimal_digits(n: nat)
    ensures
        decimal(n).len() > 0,
        all_digits(decimal(n)),
        digits_value(decimal(n)) == n,
    decreases n,
{
    if n < 10 {
        lemma_digit_char(n);
        assert(decimal(n) == seq![crate::text::digit_char(n)]);
        assert(seq![crate::text::digit_char(n)].drop_last() =~= Seq::<char>::empty());
        assert(digits_value(Seq::<char>::empty()) == 0);
        assert(digits_value(seq![crate::text::digit_char(n)]) == digits_value(Seq::<char>::empty()) * 10 + digit_value(crate::text::digit_char(n)));
    } else {
        lemma_decimal_digits(n / 10);
        lemma_digit_char(n % 10);
        let s = decimal(n / 10);
        let c = crate::text::digit_char(n % 10);
        assert(decimal(n) == s.push(c));
        assert(s.push(c).drop_last() =~= s);
        assert(digits_value(s.push(c)) == digits_value(s) * 10 + digit_value(c));
        assert(n == (n / 10) * 10 + n % 10);
        assert forall|i: int| 0 <= i < s.push(c).len() implies is_digit(#[trigger] s.push(c)[i]) by {
            if i < s.len() {
                assert(s.push(c)[i] == s[i]);
            }
        }
    }
}

proof fn lemma_decimal_reads_back(n: u16)
    ensures
        u16_text_value(decimal(n as nat)) == Some(n),
        forall|i: int| 0 <= i < decimal(n as nat).len() ==> #[trigger] decimal(n as nat)[i] != '_',
{
    lemma_decimal_digits(n as nat);
    let d = decimal(n as nat);
    assert(d[0] != '+') by {
        assert(is_digit(d[0]));
    }
    assert(unsigned_digits(d) == d);
    assert forall|i: int| 0 <= i < d.len() implies #[trigger] d[i] != '_' by {
        assert(is_digit(d[i]));
    }
}

/// A tile's file name read back without its `.rmdf` extension names the
/// tile again.
pub proof fn lemma_tile_filename_round_trip(tile: TileId)
    ensures
        tile_id_of_stem(tile_filename(tile).take(tile_filename(tile).len() - 5)) == Some(tile),
{
    reveal_strlit("tile_");
    reveal_strlit("_");
    reveal_strlit(".rmdf");
    lemma_decimal_reads_back(tile.col);
    lemma_decimal_reads_back(tile.row);
    let a = decimal(tile.col as nat);
    let b = decimal(tile.row as nat);
    let stem = "tile_"@ + a + "_"@ + b;
    assert(tile_filename(tile) == stem + ".rmdf"@);
    assert(tile_filename(tile).take(tile_filename(tile).len() - 5) =~= stem);
    let rest = stem.skip(5);
    assert(stem.take(5) =~= "tile_"@);
    assert(rest =~= a + "_"@ + b);
    let k = a.len() as int;
    assert(single_underscore(rest, k)) by {
        assert forall|i: int| 0 <= i < rest.len() && i != k implies #[trigger] rest[i] != '_' by {
            if i < k {
                assert(rest[i] == a[i]);
            } else {
                assert(rest[i] == b[i - k - 1]);
            }
        }
    }
    assert forall|x: int| single_underscore(rest, x) implies x == k by {
        if x != k {
            assert(rest[k] == '_');
        }
    }
    assert(rest.take(k) =~= a);
    assert(rest.skip(k + 1) =~= b);
}

/// The order in which tiles are listed: by column, then by row.
pub open spec fn tile_leq(a: TileId, b: TileId) -> bool {
    a.col < b.col || (a.col == b.col && a.row <= b.row)
}

/// The tile order is a total order.
pub proof fn lemma_tile_leq_total()
    ensures
        total_ordering(|a: TileId, b: TileId| tile_leq(a, b)),
{
}

/// Sorts tile ids by column, then by row (as the discovered tiles are
/// listed).
pub fn sort_tile_ids(ids: Vec<TileId>) -> (sorted: Vec<TileId>)
    ensures
        sorted@ == ids@.sort_by(|a: TileId, b: TileId| tile_leq(a, b)),
{
    let ghost leq = |a: TileId, b: TileId| tile_leq(a, b);
    let mut sorted: Vec<TileId> = Vec::new();
    let mut i: usize = 0;
    assert(ids@.take(0) =~= Seq::<TileId>::empty());
    while i < ids.len()
        invariant
            i <= ids.len(),
            leq == (|a: TileId, b: TileId| tile_leq(a, b)),
            sorted_by(sorted@, leq),
            sorted@.to_multiset() == ids@.take(i as int).to_multiset(),
        decreases ids.len() - i,
    {
        let x = ids[i];
        let mut pos: usize = 0;
        while pos < sorted.len() && (sorted[pos].col < x.col || (sorted[pos].col == x.col && sorted[pos].row <= x.row))
            invariant
                pos <= sorted.len(),
                forall|k: int| 0 <= k < pos ==> tile_leq(#[trigger] sorted@[k], x),
            decreases sorted.len() - pos,
        {
            pos = pos + 1;
        }
        let ghost before = sorted@;
        sorted.insert(pos, x);
        proof {
            broadcast use vstd::seq_lib::to_multiset_insert;
            broadcast use vstd::seq_lib::to_multiset_build;
            assert(ids@.take(i + 1) =~= ids@.take(i as int).push(x));
            assert(sorted@ == before.insert(pos as int, x));
            assert forall|a: int, b: int| 0 <= a < b < sorted@.len() implies #[trigger] leq(sorted@[a], sorted@[b]) by {
                if pos < before.len() {
                    assert(!tile_leq(before[pos as int], x));
                }
                if b < pos {
                    assert(leq(before[a], before[b]));
                } else if a < pos && b == pos {
                } else if a < pos {
                    assert(leq(before[a], before[b - 1]));
                } else if a == pos {
                    assert(leq(before[pos as int], before[b - 1]) || b - 1 == pos);
                } else {
                    assert(leq(before[a - 1], before[b - 1]));
                }
            }
        }
        i = i + 1;
    }
    proof {
        assert(ids@.take(ids.len() as int) =~= ids@);
        lemma_tile_leq_total();
        ids@.lemma_sort_by_ensures(leq);
        vstd::seq_lib::lemma_sorted_unique(sorted@, ids@.sort_by(leq), leq);
    }
    sorted
}

/// The file names of the eight neighbours of a tile that are among the
/// generated tiles.
#[derive(Debug, PartialEq, Eq)]
pub struct TileNeighbors {
    pub north: Option<String>,
    pub south: Option<String>,
    pub east: Option<String>,
    pub west: Option<String>,
    pub northeast: Option<String>,
    pub northwest: Option<String>,
    pub southeast: Option<String>,
    pub southwest: Option<String>,
}

/// The file name of the tile at `col`, `row` if the grid has that tile
/// (columns 0 to 359, rows 0 to 179) and it is among `tiles`.
pub open spec fn neighbor_name(tiles: Seq<TileId>, col: int, row: int) -> Option<Seq<char>> {
    if 0 <= col <= 359 && 0 <= row <= 179 && tiles.contains(TileId { col: col as u16, row: row as u16 }) {
        Some(tile_filename(TileId { col: col as u16, row: row as u16 }))
    } else {
        None
    }
}

/// The characters of an optional name.
pub open spec fn opt_name(s: Option<String>) -> Option<Seq<char>> {
    match s {
        Some(t) => Some(t@),
        None => None,
    }
}

fn get_neighbor(tiles: &[TileId], col: i32, row: i32) -> (r: Option<String>)
    ensures
        opt_name(r) == neighbor_name(tiles@, col as int, row as int),
{
    if col < 0 || col > 359 || row < 0 || row > 179 {
        return None;
    }
    let want = TileId { col: col as u16, row: row as u16 };
    let mut i: usize = 0;
    while i < tiles.len()
        invariant
            i <= tiles@.len(),
            0 <= col <= 359,
            0 <= row <= 179,
            want == (TileId { col: col as u16, row: row as u16 }),
            forall|k: int| 0 <= k < i ==> tiles@[k] != want,
        decreases tiles@.len() - i,
    {
        if tiles[i].col == want.col && tiles[i].row == want.row {
            assert(tiles@[i as int] == want);
            assert(tiles@.contains(want));
            return Some(want.to_filename());
        }
        i = i + 1;
    }
    None
}

/// The neighbours of `tile_id` among `all_tiles`: for each of the eight
/// directions, the file name of the adjacent tile if it was generated.
pub fn compute_neighbors(tile_id: TileId, all_tiles: &[TileId]) -> (n: TileNeighbors)
    ensures
        opt_name(n.north) == neighbor_name(all_tiles@, tile_id.col as int, tile_id.row + 1),
        opt_name(n.south) == neighbor_name(all_tiles@, tile_id.col as int, tile_id.row - 1),
        opt_name(n.east) == neighbor_name(all_tiles@, tile_id.col + 1, tile_id.row as int),
        opt_name(n.west) == neighbor_name(all_tiles@, tile_id.col - 1, tile_id.row as int),
        opt_name(n.northeast) == neighbor_name(all_tiles@, tile_id.col + 1, tile_id.row + 1),
        opt_name(n.northwest) == neighbor_name(all_tiles@, tile_id.col - 1, tile_id.row + 1),
        opt_name(n.southeast) == neighbor_name(all_tiles@, tile_id.col + 1, tile_id.row - 1),
        opt_name(n.southwest) == neighbor_name(all_tiles@, tile_id.col - 1, tile_id.row - 1),
{
    let col = tile_id.col as i32;
    let row = tile_id.row as i32;
    TileNeighbors {
        north: get_neighbor(all_tiles, col, row + 1),
        south: get_neighbor(all_tiles, col, row - 1),
        east: get_neighbor(all_tiles, col + 1, row),
        west: get_neighbor(all_tiles, col - 1, row),
        northeast: get_neighbor(all_tiles, col + 1, row + 1),
        northwest: get_neighbor(all_tiles, col - 1, row + 1),
        southeast: get_neighbor(all_tiles, col + 1, row - 1),
        southwest: get_neighbor(all_tiles, col - 1, row - 1),
    }
}

/// The lowercase hexadecimal digit of `n` (below 16).
pub open spec fn hex_digit(n: int) -> char {
    if n < 10 {
        ('0' as int + n) as char
    } else {
        ('a' as int + (n - 10)) as char
    }
}

/// Bytes as lowercase hexadecimal text, two digits per byte, high digit first.
pub open spec fn hex_lower(bytes: Seq<u8>) -> Seq<char>
    decreases bytes.len(),
{
    if bytes.len() == 0 {
        Seq::empty()
    } else {
        hex_lower(bytes.drop_last()) + seq![hex_digit(bytes.last() as int / 16), hex_digit(bytes.last() as int % 16)]
    }
}

fn hex_digit_str(n: u8) -> (s: &'static str)
    requires
        n < 16,
    ensures
        s@ == seq![hex_digit(n as int)],
{
    proof {
        reveal_strlit("0");
        reveal_strlit("1");
        reveal_strlit("2");
        reveal_strlit("3");
        reveal_strlit("4");
        reveal_strlit("5");
        reveal_strlit("6");
        reveal_strlit("7");
        reveal_strlit("8");
        reveal_strlit("9");
        reveal_strlit("a");
        reveal_strlit("b");
        reveal_strlit("c");
        reveal_strlit("d");
        reveal_strlit("e");
        reveal_strlit("f");
    }
    match n {
        0 => "0",
        1 => "1",
        2 => "2",
        3 => "3",
        4 => "4",
        5 => "5",
        6 => "6",
        7 => "7",
        8 => "8",
        9 => "9",
        10 => "a",
        11 => "b",
        12 => "c",
        13 => "d",
        14 => "e",
        _ => "f",
    }
}

/// The checksum entry of a tile in the manifest: `sha256:` and the digest
/// bytes (the last 32 bytes of the tile file) in lowercase hexadecimal.
pub fn checksum_text(digest: &[u8]) -> (s: String)
    ensures
        s@ == "sha256:"@ + hex_lower(digest@),
{
    let mut out = String::from_str("sha256:");
    proof {
        reveal_strlit("sha256:");
    }
    let mut i: usize = 0;
    assert(digest@.take(0) =~= Seq::<u8>::empty());
    while i < digest.len()
        invariant
            i <= digest@.len(),
            out@ == "sha256:"@ + hex_lower(digest@.take(i as int)),
        decreases digest.len() - i,
    {
        let b = digest[i];
        let ghost before = out@;
        out.append(hex_digit_str(b / 16));
        out.append(hex_digit_str(b % 16));
        proof {
            assert(digest@.take(i + 1).drop_last() =~= digest@.take(i as int));
            assert(digest@.take(i + 1).last() == b);
            assert(out@ =~= "sha256:"@ + hex_lower(digest@.take(i + 1)));
        }
        i = i + 1;
    }
    assert(digest@.take(digest.len() as int) =~= digest@);
    out
}

} // verus!
