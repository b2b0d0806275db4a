//! The rasterized proximity grid and its byte format.
//!
//! A cell holds the residential area (square metres, as `f32`) in each of eight
//! directional sectors, N, NE, E, SE, S, SW, W, NW, and whether the cell centre
//! lies deep inside a military area. The floating-point values are held as
//! their IEEE-754 bit patterns, exactly as the byte format stores them.
//!
//! Byte format, little endian: a header of `cols` (u32), `rows` (u32), the
//! minimum longitude and the minimum latitude (f32 bits each), then
//! `cols * rows` cells in row-major order of 36 bytes each: the eight sector
//! values, one byte for the military flag and three bytes of padding.

use vstd::prelude::*;

verus! {

/// The largest grid that may be made: about 4 GB of cells.
pub const MAX_CELLS: u64 = 110_000_000;

/// The size of the header in bytes.
pub const HEADER_SIZE: usize = 16;

/// The size of a cell in bytes.
pub const CELL_SIZE: usize = 36;

/// A grid cell: the `f32` bit patterns of the residential area in each sector
/// and the military flag.
#[derive(Clone, Copy, Debug, PartialEq, Eq)]
pub struct GridCell {
    pub residential_sectors: [u32; 8],
    pub is_military_interior: bool,
}

impl GridCell {
    /// An empty cell: no residential area (`0.0` in every sector) and not
    /// military.
    pub fn new() -> (res: Self)
        ensures
            forall|i: int| 0 <= i < 8 ==> res.residential_sectors@[i] == 0,
            !res.is_military_interior,
    {
        GridCell { residential_sectors: [0, 0, 0, 0, 0, 0, 0, 0], is_military_interior: false }
    }

    /// Whether the cell is a no-go area: deep inside a military area.
    pub fn is_nogo_area(&self) -> (res: bool)
        ensures
            res == self.is_military_interior,
    {
        self.is_military_interior
    }
}

impl Default for GridCell {
    fn default() -> (res: Self)
        ensures
            forall|i: int| 0 <= i < 8 ==> res.residential_sectors@[i] == 0,
            !res.is_military_interior,
    {
        GridCell::new()
    }
}

/// The grid: its dimensions, the bit patterns of its minimum longitude and
/// latitude, and its cells in row-major order.
#[derive(Debug)]
pub struct RasterizedProximityGrid {
    cells: Vec<GridCell>,
    cols: u32,
    rows: u32,
    lon_min_bits: u32,
    lat_min_bits: u32,
}

/// A grid as values.
pub struct GridView {
    pub cells: Seq<GridCell>,
    pub cols: u32,
    pub rows: u32,
    pub lon_min_bits: u32,
    pub lat_min_bits: u32,
}

impl View for RasterizedProximityGrid {
    type V = GridView;

    closed spec fn view(&self) -> GridView {
        GridView {
            cells: self.cells@,
            cols: self.cols,
            rows: self.rows,
            lon_min_bits: self.lon_min_bits,
            lat_min_bits: self.lat_min_bits,
        }
    }
}

/// Whether the grid has one cell per column and row.
pub open spec fn grid_wf(g: GridView) -> bool {
    g.cells.len() == g.cols * g.rows
}

/// The four little-endian bytes of `v`.
pub open spec fn le_u32(v: u32) -> Seq<u8> {
    seq![(v & 0xff) as u8, ((v >> 8) & 0xff) as u8, ((v >> 16) & 0xff) as u8, ((v >> 24) & 0xff) as u8]
}

/// The little-endian `u32` at `at`.
pub open spec fn read_u32(b: Seq<u8>, at: int) -> u32 {
    (b[at] as u32) | ((b[at + 1] as u32) << 8) | ((b[at + 2] as u32) << 16) | ((b[at + 3] as u32)
        << 24)
}

/// The bytes of the eight sector values of a cell, from sector `from` on.
pub open spec fn sectors_bytes(s: Seq<u32>, from: int) -> Seq<u8>
    decreases 8 - from,
{
    if from >= 8 || from < 0 {
        seq![]
    } else {
        le_u32(s[from]) + sectors_bytes(s, from + 1)
    }
}

/// The 36 bytes of a cell.
pub open spec fn cell_bytes(c: GridCell) -> Seq<u8> {
    sectors_bytes(c.residential_sectors@, 0) + seq![
        if c.is_military_interior {
            1u8
        } else {
            0u8
        },
        0u8,
        0u8,
        0u8,
    ]
}

/// The bytes of cells, one after the other.
pub open spec fn cells_bytes(cells: Seq<GridCell>) -> Seq<u8>
    decreases cells.len(),
{
    if cells.len() == 0 {
        seq![]
    } else {
        cells_bytes(cells.drop_last()) + cell_bytes(cells.last())
    }
}

/// The bytes of a grid: header, then cells.
pub open spec fn grid_bytes(g: GridView) -> Seq<u8> {
    le_u32(g.cols) + le_u32(g.rows) + le_u32(g.lon_min_bits) + le_u32(g.lat_min_bits) + cells_bytes(
        g.cells,
    )
}

/// Whether `c` is the cell that the 36 bytes at `at` hold (any non-zero flag
/// byte means military).
pub open spec fn cell_read_at(c: GridCell, b: Seq<u8>, at: int) -> bool {
    &&& forall|i: int| 0 <= i < 8 ==> #[trigger] c.residential_sectors@[i] == read_u32(b, at + 4 * i)
    &&& c.is_military_interior == (b[at + 32] != 0)
}

proof fn lemma_read_le_u32(v: u32)
    ensures
        read_u32(le_u32(v), 0) == v,
{
    let b0 = (v & 0xff) as u8;
    let b1 = ((v >> 8) & 0xff) as u8;
    let b2 = ((v >> 16) & 0xff) as u8;
    let b3 = ((v >> 24) & 0xff) as u8;
    assert(((b0 as u32) | ((b1 as u32) << 8) | ((b2 as u32) << 16) | ((b3 as u32) << 24)) == v)
        by (bit_vector)
        requires
            b0 == (v & 0xff) as u8,
            b1 == ((v >> 8) & 0xff) as u8,
            b2 == ((v >> 16) & 0xff) as u8,
            b3 == ((v >> 24) & 0xff) as u8,
    ;
}

proof fn lemma_read_u32_shift(a: Seq<u8>, b: Seq<u8>, at: int)
    requires
        0 <= at,
        at + 4 <= b.len(),
    ensures
        read_u32(a + b, a.len() + at) == read_u32(b, at),
{
    assert((a + b)[a.len() + at] == b[at]);
    assert((a + b)[a.len() + at + 1] == b[at + 1]);
    assert((a + b)[a.len() + at + 2] == b[at + 2]);
    assert((a + b)[a.len() + at + 3] == b[at + 3]);
}

proof fn lemma_sectors_bytes(s: Seq<u32>, from: int)
    requires
        0 <= from <= 8,
        s.len() == 8,
    ensures
        sectors_bytes(s, from).len() == 4 * (8 - from),
        forall|i: int| from <= i < 8 ==> read_u32(sectors_bytes(s, from), 4 * (i - from)) == #[trigger] s[i],
    decreases 8 - from,
{
    if from < 8 {
        lemma_sectors_bytes(s, from + 1);
        let head = le_u32(s[from]);
        let tail = sectors_bytes(s, from + 1);
        lemma_read_le_u32(s[from]);
        assert(read_u32(head + tail, 0) == read_u32(head, 0)) by {
            assert((head + tail)[0] == head[0]);
            assert((head + tail)[1] == head[1]);
            assert((head + tail)[2] == head[2]);
            assert((head + tail)[3] == head[3]);
        }
        assert forall|i: int| from + 1 <= i < 8 implies read_u32(head + tail, 4 * (i - from))
            == #[trigger] s[i] by {
            lemma_read_u32_shift(head, tail, 4 * (i - (from + 1)));
        }
    }
}

proof fn lemma_cell_bytes(c: GridCell)
    ensures
        cell_bytes(c).len() == 36,
        cell_read_at(c, cell_bytes(c), 0),
{
    lemma_sectors_bytes(c.residential_sectors@, 0);
    let s = sectors_bytes(c.residential_sectors@, 0);
    let tail = seq![
        if c.is_military_interior {
            1u8
        } else {
            0u8
        },
        0u8,
        0u8,
        0u8,
    ];
    assert forall|i: int| 0 <= i < 8 implies #[trigger] c.residential_sectors@[i] == read_u32(
        cell_bytes(c),
        4 * i,
    ) by {
        assert(cell_bytes(c)[4 * i] == s[4 * i]);
        assert(cell_bytes(c)[4 * i + 1] == s[4 * i + 1]);
        assert(cell_bytes(c)[4 * i + 2] == s[4 * i + 2]);
        assert(cell_bytes(c)[4 * i + 3] == s[4 * i + 3]);
    }
    assert(cell_bytes(c)[32] == tail[0]);
}

proof fn lemma_cells_bytes(cells: Seq<GridCell>)
    ensures
        cells_bytes(cells).len() == 36 * cells.len(),
        forall|k: int| 0 <= k < cells.len() ==> cell_read_at(#[trigger] cells[k], cells_bytes(cells), 36 * k),
    decreases cells.len(),
{
    if cells.len() > 0 {
        let front = cells.drop_last();
        lemma_cells_bytes(front);
        lemma_cell_bytes(cells.last());
        let a = cells_bytes(front);
        let b = cell_bytes(cells.last());
        assert forall|k: int| 0 <= k < cells.len() implies cell_read_at(
            #[trigger] cells[k],
            a + b,
            36 * k,
        ) by {
            if k < cells.len() - 1 {
                assert(cells[k] == front[k]);
                assert forall|i: int| 0 <= i < 8 implies #[trigger] cells[k].residential_sectors@[i]
                    == read_u32(a + b, 36 * k + 4 * i) by {
                    assert((a + b)[36 * k + 4 * i] == a[36 * k + 4 * i]);
                    assert((a + b)[36 * k + 4 * i + 1] == a[36 * k + 4 * i + 1]);
                    assert((a + b)[36 * k + 4 * i + 2] == a[36 * k + 4 * i + 2]);
                    assert((a + b)[36 * k + 4 * i + 3] == a[36 * k + 4 * i + 3]);
                }
                assert((a + b)[36 * k + 32] == a[36 * k + 32]);
            } else {
                assert forall|i: int| 0 <= i < 8 implies #[trigger] cells[k].residential_sectors@[i]
                    == read_u32(a + b, 36 * k + 4 * i) by {
                    lemma_read_u32_shift(a, b, 4 * i);
                }
                assert((a + b)[36 * k + 32] == b[32]);
            }
        }
    }
}

/// What reading a grid back from its bytes gives: the header fields, and
/// every cell as it was (the law that `from_bytes` undoes `to_bytes`, with
/// `from_bytes`'s own contract).
pub proof fn lemma_grid_bytes_round_trip(g: GridView)
    requires
        grid_wf(g),
    ensures
        grid_bytes(g).len() == HEADER_SIZE + CELL_SIZE * (g.cols * g.rows),
        read_u32(grid_bytes(g), 0) == g.cols,
        read_u32(grid_bytes(g), 4) == g.rows,
        read_u32(grid_bytes(g), 8) == g.lon_min_bits,
        read_u32(grid_bytes(g), 12) == g.lat_min_bits,
        forall|k: int| 0 <= k < g.cells.len() ==> cell_read_at(#[trigger] g.cells[k], grid_bytes(g), HEADER_SIZE + CELL_SIZE * k),
{
    let h0 = le_u32(g.cols);
    let h1 = le_u32(g.rows);
    let h2 = le_u32(g.lon_min_bits);
    let h3 = le_u32(g.lat_min_bits);
    let header = h0 + h1 + h2 + h3;
    let body = cells_bytes(g.cells);
    lemma_cells_bytes(g.cells);
    assert(grid_bytes(g) == header + body);
    lemma_read_le_u32(g.cols);
    lemma_read_le_u32(g.rows);
    lemma_read_le_u32(g.lon_min_bits);
    lemma_read_le_u32(g.lat_min_bits);
    assert(header.len() == 16);
    assert(read_u32(header + body, 0) == read_u32(h0, 0)) by {
        assert((header + body)[0] == h0[0]);
        assert((header + body)[1] == h0[1]);
        assert((header + body)[2] == h0[2]);
        assert((header + body)[3] == h0[3]);
    }
    assert(read_u32(header + body, 4) == read_u32(h1, 0)) by {
        assert((header + body)[4] == h1[0]);
        assert((header + body)[5] == h1[1]);
        assert((header + body)[6] == h1[2]);
        assert((header + body)[7] == h1[3]);
    }
    assert(read_u32(header + body, 8) == read_u32(h2, 0)) by {
        assert((header + body)[8] == h2[0]);
        assert((header + body)[9] == h2[1]);
        assert((header + body)[10] == h2[2]);
        assert((header + body)[11] == h2[3]);
    }
    assert(read_u32(header + body, 12) == read_u32(h3, 0)) by {
        assert((header + body)[12] == h3[0]);
        assert((header + body)[13] == h3[1]);
        assert((header + body)[14] == h3[2]);
        assert((header + body)[15] == h3[3]);
    }
    assert forall|k: int| 0 <= k < g.cells.len() implies cell_read_at(
        #[trigger] g.cells[k],
        header + body,
        16 + 36 * k,
    ) by {
        assert forall|i: int| 0 <= i < 8 implies #[trigger] g.cells[k].residential_sectors@[i]
            == read_u32(header + body, 16 + 36 * k + 4 * i) by {
            lemma_read_u32_shift(header, body, 36 * k + 4 * i);
        }
        assert((header + body)[16 + 36 * k + 32] == body[36 * k + 32]);
    }
    assert(g.cells.len() == g.cols * g.rows);
}

/// Whether `c` is an empty cell.
pub open spec fn is_empty_cell(c: GridCell) -> bool {
    &&& forall|i: int| 0 <= i < 8 ==> #[trigger] c.residential_sectors@[i] == 0
    &&& !c.is_military_interior
}

/// The number of no-go cells.
pub open spec fn nogo_count(cells: Seq<GridCell>) -> nat
    decreases cells.len(),
{
    if cells.len() == 0 {
        0
    } else {
        nogo_count(cells.drop_last()) + if cells.last().is_military_interior {
            1nat
        } else {
            0nat
        }
    }
}

/// Whether `g` is the grid that the bytes `b` hold: the header's dimensions and
/// minimum coordinates, and one cell per column and row read in order.
pub open spec fn grid_read_from(g: GridView, b: Seq<u8>) -> bool {
    &&& g.cols == read_u32(b, 0)
    &&& g.rows == read_u32(b, 4)
    &&& g.lon_min_bits == read_u32(b, 8)
    &&& g.lat_min_bits == read_u32(b, 12)
    &&& g.cells.len() == g.cols * g.rows
    &&& forall|k: int| 0 <= k < g.cells.len() ==> cell_read_at(#[trigger] g.cells[k], b, HEADER_SIZE + CELL_SIZE * k)
}

/// Reading back the bytes of a grid gives that grid: any grid that
/// `from_bytes` may return for `grid_bytes(g)` is `g` itself.
pub proof fn lemma_grid_decode_of_encode(g: GridView, h: GridView)
    requires
        grid_wf(g),
        grid_read_from(h, grid_bytes(g)),
    ensures
        h == g,
{
    lemma_grid_bytes_round_trip(g);
    assert(h.cells.len() == g.cells.len());
    assert forall|k: int| 0 <= k < g.cells.len() implies #[trigger] h.cells[k] == g.cells[k] by {
        let at = HEADER_SIZE + CELL_SIZE * k;
        assert(cell_read_at(h.cells[k], grid_bytes(g), at));
        assert(cell_read_at(g.cells[k], grid_bytes(g), at));
        assert(h.cells[k].residential_sectors@ =~= g.cells[k].residential_sectors@);
        broadcast use vstd::array::axiom_array_ext_equal;
        assert(h.cells[k].residential_sectors == g.cells[k].residential_sectors);
    }
    assert(h.cells =~= g.cells);
}

/// Appends the four little-endian bytes of `v`.
fn push_u32_le(out: &mut Vec<u8>, v: u32)
    ensures
        final(out)@ == old(out)@ + le_u32(v),
{
    out.push((v & 0xff) as u8);
    out.push(((v >> 8) & 0xff) as u8);
    out.push(((v >> 16) & 0xff) as u8);
    out.push(((v >> 24) & 0xff) as u8);
    assert(out@ =~= old(out)@ + le_u32(v));
}

/// The little-endian `u32` at `at`.
fn u32_at(b: &[u8], at: usize) -> (r: u32)
    requires
        at + 4 <= b@.len(),
    ensures
        r == read_u32(b@, at as int),
{
    (b[at] as u32) | ((b[at + 1] as u32) << 8) | ((b[at + 2] as u32) << 16) | ((b[at + 3] as u32)
        << 24)
}

/// The cell whose 36 bytes start at `at`.
fn cell_at(b: &[u8], at: usize) -> (c: GridCell)
    requires
        at + 36 <= b@.len(),
    ensures
        cell_read_at(c, b@, at as int),
{
    let _len = b.len();
    let s0 = u32_at(b, at);
    let s1 = u32_at(b, at + 4);
    let s2 = u32_at(b, at + 8);
    let s3 = u32_at(b, at + 12);
    let s4 = u32_at(b, at + 16);
    let s5 = u32_at(b, at + 20);
    let s6 = u32_at(b, at + 24);
    let s7 = u32_at(b, at + 28);
    let c = GridCell {
        residential_sectors: [s0, s1, s2, s3, s4, s5, s6, s7],
        is_military_interior: b[at + 32] != 0,
    };
    assert(c.residential_sectors@ =~= seq![s0, s1, s2, s3, s4, s5, s6, s7]);
    c
}

proof fn lemma_sectors_bytes_unrolled(s: Seq<u32>)
    requires
        s.len() == 8,
    ensures
        sectors_bytes(s, 0) == le_u32(s[0]) + le_u32(s[1]) + le_u32(s[2]) + le_u32(s[3]) + le_u32(
            s[4],
        ) + le_u32(s[5]) + le_u32(s[6]) + le_u32(s[7]),
{
    reveal_with_fuel(sectors_bytes, 9);
    assert(sectors_bytes(s, 0) =~= le_u32(s[0]) + le_u32(s[1]) + le_u32(s[2]) + le_u32(s[3])
        + le_u32(s[4]) + le_u32(s[5]) + le_u32(s[6]) + le_u32(s[7]));
}

/// Appends the 36 bytes of a cell.
fn push_cell(out: &mut Vec<u8>, cell: &GridCell)
    ensures
        final(out)@ == old(out)@ + cell_bytes(*cell),
{
    push_u32_le(out, cell.residential_sectors[0]);
    push_u32_le(out, cell.residential_sectors[1]);
    push_u32_le(out, cell.residential_sectors[2]);
    push_u32_le(out, cell.residential_sectors[3]);
    push_u32_le(out, cell.residential_sectors[4]);
    push_u32_le(out, cell.residential_sectors[5]);
    push_u32_le(out, cell.residential_sectors[6]);
    push_u32_le(out, cell.residential_sectors[7]);
    out.push(if cell.is_military_interior {
        1u8
    } else {
        0u8
    });
    out.push(0u8);
    out.push(0u8);
    out.push(0u8);
    proof {
        lemma_sectors_bytes_unrolled(cell.residential_sectors@);
        assert(out@ =~= old(out)@ + cell_bytes(*cell));
    }
}

impl RasterizedProximityGrid {
    /// An empty grid of `cols` columns and `rows` rows whose south-west corner
    /// has the given coordinates (the grid that `new` makes once it has
    /// derived these from the bounds of the map data).
    pub fn with_dimensions(cols: u32, rows: u32, lon_min_bits: u32, lat_min_bits: u32) -> (g: Self)
        requires
            cols * rows <= MAX_CELLS,
        ensures
            g@.cols == cols,
            g@.rows == rows,
            g@.lon_min_bits == lon_min_bits,
            g@.lat_min_bits == lat_min_bits,
            grid_wf(g@),
            forall|k: int| 0 <= k < g@.cells.len() ==> is_empty_cell(#[trigger] g@.cells[k]),
    {
        let n: u64 = cols as u64 * rows as u64;
        let mut cells: Vec<GridCell> = Vec::new();
        let mut k: u64 = 0;
        while k < n
            invariant
                k <= n,
                n == cols * rows,
                n <= MAX_CELLS,
                cells@.len() == k,
                forall|j: int| 0 <= j < k ==> is_empty_cell(#[trigger] cells@[j]),
            decreases n - k,
        {
            cells.push(GridCell::new());
            k = k + 1;
        }
        RasterizedProximityGrid { cells, cols, rows, lon_min_bits, lat_min_bits }
    }

    /// The number of cells.
    pub fn cell_count(&self) -> (r: usize)
        ensures
            r == self@.cells.len(),
    {
        self.cells.len()
    }

    /// The number of columns and rows.
    pub fn dimensions(&self) -> (r: (u32, u32))
        ensures
            r == (self@.cols, self@.rows),
    {
        (self.cols, self.rows)
    }

    /// The `f32` bit pattern of the minimum longitude.
    pub fn lon_min_bits(&self) -> (r: u32)
        ensures
            r == self@.lon_min_bits,
    {
        self.lon_min_bits
    }

    /// The `f32` bit pattern of the minimum latitude.
    pub fn lat_min_bits(&self) -> (r: u32)
        ensures
            r == self@.lat_min_bits,
    {
        self.lat_min_bits
    }

    /// The cells in row-major order.
    pub fn cells(&self) -> (r: &[GridCell])
        ensures
            r@ == self@.cells,
    {
        self.cells.as_slice()
    }

    /// The row-major index of the cell in column `col` and row `row` (counted
    /// from the south-west corner), when the grid has such a cell, the
    /// dimensions compared as `i32` as the coordinate lookup does.
    pub fn cell_index_at(&self, col: i32, row: i32) -> (r: Option<usize>)
        requires
            grid_wf(self@),
        ensures
            r == if 0 <= col && col < (self@.cols as i32) && 0 <= row && row < (self@.rows as i32) {
                Some((row * self@.cols + col) as usize)
            } else {
                None::<usize>
            },
            r matches Some(i) ==> i < self@.cells.len(),
    {
        let cols_i = self.cols as i32;
        let rows_i = self.rows as i32;
        if col < 0 || col >= cols_i || row < 0 || row >= rows_i {
            return None;
        }
        let cols = self.cols;
        let rows = self.rows;
        assert(cols_i > 0 ==> cols_i as u32 == cols) by (bit_vector)
            requires
                cols_i == cols as i32,
        ;
        assert(rows_i > 0 ==> rows_i as u32 == rows) by (bit_vector)
            requires
                rows_i == rows as i32,
        ;
        let r = row as u64;
        let c = col as u64;
        let w = cols as u64;
        assert(r * w + c < (rows as u64) * w) by (nonlinear_arith)
            requires
                r < rows,
                c < w,
        ;
        assert(self.cells@.len() == (rows as u64) * w) by (nonlinear_arith)
            requires
                self.cells@.len() == cols * rows,
                w == cols,
        ;
        let n = self.cells.len();
        assert(r * w + c < n);
        let index = (row as usize) * (self.cols as usize) + (col as usize);
        Some(index)
    }

    /// The cell at `index`, to be changed in place.
    pub fn get_cell_by_index_mut(&mut self, index: usize) -> (r: Option<&mut GridCell>)
        ensures
            index < old(self)@.cells.len() ==> (r is Some),
            index >= old(self)@.cells.len() ==> (r is None) && final(self)@ == old(self)@,
            r matches Some(c) ==> *c == old(self)@.cells[index as int] && final(self)@ == (GridView {
                cells: old(self)@.cells.update(index as int, *final(c)),
                ..old(self)@
            }),
    {
        if index < self.cells.len() {
            Some(&mut self.cells[index])
        } else {
            None
        }
    }

    /// The number of no-go cells.
    pub fn count_nogo(&self) -> (r: usize)
        ensures
            r == nogo_count(self@.cells),
    {
        let mut count: usize = 0;
        let mut i: usize = 0;
        assert(self.cells@.take(0) =~= Seq::<GridCell>::empty());
        while i < self.cells.len()
            invariant
                i <= self.cells.len(),
                count == nogo_count(self.cells@.take(i as int)),
                count <= i,
            decreases self.cells.len() - i,
        {
            assert(self.cells@.take(i + 1).drop_last() =~= self.cells@.take(i as int));
            if self.cells[i].is_nogo_area() {
                count = count + 1;
            }
            i = i + 1;
        }
        assert(self.cells@.take(self.cells.len() as int) =~= self.cells@);
        count
    }

    /// The grid in its byte format.
    pub fn to_bytes(&self) -> (bytes: Vec<u8>)
        ensures
            bytes@ == grid_bytes(self@),
    {
        let mut bytes: Vec<u8> = Vec::new();
        push_u32_le(&mut bytes, self.cols);
        push_u32_le(&mut bytes, self.rows);
        push_u32_le(&mut bytes, self.lon_min_bits);
        push_u32_le(&mut bytes, self.lat_min_bits);
        let ghost header = bytes@;
        let mut i: usize = 0;
        assert(self.cells@.take(0) =~= Seq::<GridCell>::empty());
        assert(bytes@ =~= header + cells_bytes(self.cells@.take(0)));
        while i < self.cells.len()
            invariant
                i <= self.cells.len(),
                header == le_u32(self.cols) + le_u32(self.rows) + le_u32(self.lon_min_bits)
                    + le_u32(self.lat_min_bits),
                bytes@ == header + cells_bytes(self.cells@.take(i as int)),
            decreases self.cells.len() - i,
        {
            let ghost before = bytes@;
            push_cell(&mut bytes, &self.cells[i]);
            proof {
                assert(self.cells@.take(i + 1).drop_last() =~= self.cells@.take(i as int));
                assert(bytes@ =~= header + cells_bytes(self.cells@.take(i + 1)));
            }
            i = i + 1;
        }
        assert(self.cells@.take(self.cells.len() as int) =~= self.cells@);
        bytes
    }

    /// Reads a grid from its byte format: an error when the bytes are too few
    /// for the header, or for the cells that the header announces.
    pub fn from_bytes(bytes: &[u8]) -> (r: Result<Self, &'static str>)
        ensures
            bytes@.len() < HEADER_SIZE ==> (r matches Err(m) && m@ == "Buffer too small for header"@),
            bytes@.len() >= HEADER_SIZE && bytes@.len() < HEADER_SIZE + CELL_SIZE * (read_u32(
                bytes@,
                0,
            ) * read_u32(bytes@, 4)) ==> (r matches Err(m) && m@ == "Buffer too small for cells"@),
            bytes@.len() >= HEADER_SIZE && bytes@.len() >= HEADER_SIZE + CELL_SIZE * (read_u32(
                bytes@,
                0,
            ) * read_u32(bytes@, 4)) ==> (r matches Ok(g) && grid_read_from(g@, bytes@)),
    {
        if bytes.len() < HEADER_SIZE {
            return Err("Buffer too small for header");
        }
        let cols = u32_at(bytes, 0);
        let rows = u32_at(bytes, 4);
        let lon_min_bits = u32_at(bytes, 8);
        let lat_min_bits = u32_at(bytes, 12);
        assert(cols * rows <= 0xffff_ffff_ffff_ffff) by (nonlinear_arith)
            requires
                cols <= 0xffff_ffff,
                rows <= 0xffff_ffff,
        ;
        let cell_count: u64 = cols as u64 * rows as u64;
        let needed: u128 = 16 + 36 * (cell_count as u128);
        if (bytes.len() as u128) < needed {
            return Err("Buffer too small for cells");
        }
        let n = cell_count as usize;
        let len = bytes.len();
        let mut cells: Vec<GridCell> = Vec::new();
        let mut k: usize = 0;
        let mut offset: usize = HEADER_SIZE;
        while k < n
            invariant
                k <= n,
                n == cols * rows,
                HEADER_SIZE + CELL_SIZE * n <= bytes@.len(),
                len == bytes@.len(),
                offset == HEADER_SIZE + CELL_SIZE * k,
                cells@.len() == k,
                forall|j: int| 0 <= j < k ==> cell_read_at(#[trigger] cells@[j], bytes@, HEADER_SIZE + CELL_SIZE * j),
            decreases n - k,
        {
            let cell = cell_at(bytes, offset);
            cells.push(cell);
            offset = offset + CELL_SIZE;
            k = k + 1;
        }
        Ok(RasterizedProximityGrid { cells, cols, rows, lon_min_bits, lat_min_bits })
    }
}

} // verus!
