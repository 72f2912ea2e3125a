//! The card arrangement engine: a greedy, forward-only packing of card
//! shapes into a grid of `rows` by `cols` cells.
//!
//! Each entry is placed at the first position, scanning rows from the
//! current floor downward and columns left to right, where its block lies in
//! the grid and covers no occupied cell. The floor then moves to the row of
//! that placement. An entry that fits nowhere is skipped and leaves the
//! floor where it was.

use vstd::prelude::*;
use crate::shape::{cell_entry, parse_entry};
use crate::text::views;

verus! {

/// Where a card was placed and how large it is.
#[derive(Debug, Clone)]
pub struct CellSize {
    start_row: usize,
    start_col: usize,
    width: usize,
    height: usize,
    card_type: String,
}

/// A placement, as a mathematical value.
pub struct Placement {
    pub row: nat,
    pub col: nat,
    pub height: nat,
    pub width: nat,
    pub card_type: Seq<char>,
}

impl View for CellSize {
    type V = Placement;

    closed spec fn view(&self) -> Placement {
        Placement {
            row: self.start_row as nat,
            col: self.start_col as nat,
            height: self.height as nat,
            width: self.width as nat,
            card_type: self.card_type@,
        }
    }
}

/// Whether the placement covers the cell at row `i`, column `j`.
pub open spec fn covers(p: Placement, i: int, j: int) -> bool {
    p.row <= i < p.row + p.height && p.col <= j < p.col + p.width
}

/// A grid of `rows` by `cols` cells, none of them occupied.
pub open spec fn empty_grid(rows: nat, cols: nat) -> Seq<Seq<bool>> {
    Seq::new(rows, |i: int| Seq::new(cols, |j: int| false))
}

/// Whether the `h` by `w` block at row `r`, column `c` lies in the grid and
/// covers no occupied cell.
pub open spec fn block_free(g: Seq<Seq<bool>>, cols: nat, r: nat, c: nat, h: nat, w: nat) -> bool {
    &&& r + h <= g.len()
    &&& c + w <= cols
    &&& forall|i: int, j: int| r <= i < r + h && c <= j < c + w ==> !#[trigger] g[i][j]
}

/// The grid with the `h` by `w` block at row `r`, column `c` occupied.
pub open spec fn mark(g: Seq<Seq<bool>>, r: nat, c: nat, h: nat, w: nat) -> Seq<Seq<bool>> {
    Seq::new(
        g.len(),
        |i: int|
            if r <= i < r + h {
                Seq::new(g[i].len(), |j: int| if c <= j < c + w { true } else { g[i][j] })
            } else {
                g[i]
            },
    )
}

/// The first free position for an `h` by `w` block, scanning from row `r`,
/// column `c` onward: along the row, then from the start of each next row.
pub open spec fn scan_from(g: Seq<Seq<bool>>, cols: nat, h: nat, w: nat, r: nat, c: nat) -> Option<
    (nat, nat),
>
    decreases g.len() - r, cols + 1 - c,
    when r <= g.len() && c <= cols + 1
{
    if r >= g.len() {
        None
    } else if c + w > cols {
        scan_from(g, cols, h, w, r + 1, 0)
    } else if block_free(g, cols, r, c, h, w) {
        Some((r, c))
    } else {
        scan_from(g, cols, h, w, r, c + 1)
    }
}

/// The position where an `h` by `w` block goes, searching from row `floor`.
pub open spec fn first_fit(g: Seq<Seq<bool>>, cols: nat, h: nat, w: nat, floor: nat) -> Option<
    (nat, nat),
> {
    if h > g.len() || w > cols || floor > g.len() {
        None
    } else {
        scan_from(g, cols, h, w, floor, 0)
    }
}

/// The state of a packing run: occupied cells, the floor, what was placed
/// so far and, for each placement, the index of the entry it came from.
pub struct PackState {
    pub grid: Seq<Seq<bool>>,
    pub floor: nat,
    pub placed: Seq<Placement>,
    pub sources: Seq<int>,
}

/// One entry, at input index `index`, handled in state `st`.
pub open spec fn pack_step(st: PackState, cols: nat, entry: Seq<char>, index: int) -> PackState {
    match cell_entry(entry) {
        Some((ty, h, w)) => match first_fit(st.grid, cols, h, w, st.floor) {
            Some((r, c)) => PackState {
                grid: mark(st.grid, r, c, h, w),
                floor: r,
                placed: st.placed.push(Placement { row: r, col: c, height: h, width: w, card_type: ty }),
                sources: st.sources.push(index),
            },
            None => st,
        },
        None => st,
    }
}

/// The packing run over the entries, in order, on a `rows` by `cols` grid.
pub open spec fn pack(rows: nat, cols: nat, entries: Seq<Seq<char>>) -> PackState
    decreases entries.len(),
{
    if entries.len() == 0 {
        PackState { grid: empty_grid(rows, cols), floor: 0, placed: seq![], sources: seq![] }
    } else {
        pack_step(pack(rows, cols, entries.drop_last()), cols, entries.last(), entries.len() - 1)
    }
}

/// The cells of a grid held as rows of flags.
pub open spec fn grid_view(g: Seq<Vec<bool>>) -> Seq<Seq<bool>> {
    g.map_values(|row: Vec<bool>| row@)
}

/// Every row of the grid is `cols` cells long.
pub open spec fn grid_wf(g: Seq<Seq<bool>>, cols: nat) -> bool {
    forall|i: int| 0 <= i < g.len() ==> (#[trigger] g[i]).len() == cols
}

/// A grid of `rows` by `cols` free cells.
fn new_grid(rows: usize, cols: usize) -> (g: Vec<Vec<bool>>)
    ensures
        grid_view(g@) == empty_grid(rows as nat, cols as nat),
{
    let mut g: Vec<Vec<bool>> = Vec::new();
    let mut i: usize = 0;
    while i < rows
        invariant
            i <= rows,
            grid_view(g@) == empty_grid(i as nat, cols as nat),
        decreases rows - i,
    {
        let mut row: Vec<bool> = Vec::new();
        let mut j: usize = 0;
        while j < cols
            invariant
                j <= cols,
                row@ == Seq::new(j as nat, |k: int| false),
            decreases cols - j,
        {
            row.push(false);
            j = j + 1;
            assert(row@ =~= Seq::new(j as nat, |k: int| false));
        }
        let ghost before = grid_view(g@);
        g.push(row);
        i = i + 1;
        assert(grid_view(g@) =~= before.push(row@));
        assert(grid_view(g@) =~= empty_grid(i as nat, cols as nat));
    }
    g
}

/// Whether the block lies in the grid and covers no occupied cell.
fn can_place_cell(grid: &Vec<Vec<bool>>, cols: usize, row: usize, col: usize, width: usize, height: usize) -> (r: bool)
    requires
        grid_wf(grid_view(grid@), cols as nat),
    ensures
        r == block_free(grid_view(grid@), cols as nat, row as nat, col as nat, height as nat, width as nat),
{
    let ghost g = grid_view(grid@);
    if row > grid.len() || height > grid.len() - row || col > cols || width > cols - col {
        return false;
    }
    let end = row + height;
    let mut r = row;
    while r < end
        invariant
            end == row + height,
            g == grid_view(grid@),
            grid_wf(g, cols as nat),
            row + height <= g.len(),
            col + width <= cols,
            row <= r <= row + height,
            forall|i: int, j: int| row <= i < r && col <= j < col + width ==> !#[trigger] g[i][j],
        decreases row + height - r,
    {
        let mut c = col;
        while c < col + width
            invariant
                g == grid_view(grid@),
                grid_wf(g, cols as nat),
                row + height <= g.len(),
                col + width <= cols,
                row <= r < row + height,
                col <= c <= col + width,
                forall|i: int, j: int| row <= i < r && col <= j < col + width ==> !#[trigger] g[i][j],
                forall|j: int| col <= j < c ==> !#[trigger] g[r as int][j],
            decreases col + width - c,
        {
            assert(g[r as int] == grid@[r as int]@);
            if grid[r][c] {
                return false;
            }
            c = c + 1;
        }
        r = r + 1;
    }
    true
}

/// Occupies every cell of the block.
fn place_cell(grid: &mut Vec<Vec<bool>>, cols: usize, row: usize, col: usize, width: usize, height: usize)
    requires
        grid_wf(grid_view(old(grid)@), cols as nat),
        row + height <= old(grid)@.len(),
        col + width <= cols,
    ensures
        grid_view(final(grid)@) == mark(grid_view(old(grid)@), row as nat, col as nat, height as nat, width as nat),
{
    let ghost g0 = grid_view(grid@);
    let rows = grid.len();
    assert(row + height <= rows);
    let end = row + height;
    let mut r = row;
    assert(mark(g0, row as nat, col as nat, 0, width as nat) =~= g0);
    while r < end
        invariant
            end == row + height,
            grid_wf(g0, cols as nat),
            g0.len() == grid@.len(),
            row + height <= g0.len(),
            col + width <= cols,
            row <= r <= row + height,
            grid_view(grid@) == mark(g0, row as nat, col as nat, (r - row) as nat, width as nat),
        decreases row + height - r,
    {
        let mut line: Vec<bool> = Vec::new();
        let mut j: usize = 0;
        while j < cols
            invariant
                grid_wf(g0, cols as nat),
                g0.len() == grid@.len(),
                row <= r < row + height,
                row + height <= g0.len(),
                col + width <= cols,
                grid_view(grid@) == mark(g0, row as nat, col as nat, (r - row) as nat, width as nat),
                j <= cols,
                line@ == Seq::new(j as nat, |k: int| if col <= k < col + width { true } else { g0[r as int][k] }),
            decreases cols - j,
        {
            let ghost gv = grid_view(grid@);
            assert(gv[r as int] == g0[r as int]);
            assert(gv[r as int] == grid@[r as int]@);
            let v = if col <= j && j < col + width { true } else { grid[r][j] };
            line.push(v);
            j = j + 1;
            assert(line@ =~= Seq::new(j as nat, |k: int| if col <= k < col + width { true } else { g0[r as int][k] }));
        }
        let ghost before = grid_view(grid@);
        grid.set(r, line);
        proof {
            let m = mark(g0, row as nat, col as nat, (r + 1 - row) as nat, width as nat);
            assert forall|i: int| 0 <= i < m.len() implies grid_view(grid@)[i] =~= m[i] by {
                if i != r {
                    assert(grid_view(grid@)[i] == before[i]);
                }
            }
            assert(grid_view(grid@) =~= m);
        }
        r = r + 1;
    }
}

/// Occupies the first free position for a `height` by `width` block,
/// searching from row `start_row`, and says where it is.
fn try_place_cell(grid: &mut Vec<Vec<bool>>, cols: usize, width: usize, height: usize, start_row: usize) -> (r: Option<(usize, usize)>)
    requires
        grid_wf(grid_view(old(grid)@), cols as nat),
    ensures
        grid_wf(grid_view(final(grid)@), cols as nat),
        match first_fit(grid_view(old(grid)@), cols as nat, height as nat, width as nat, start_row as nat) {
            Some(p) => r matches Some((a, b)) && a == p.0 && b == p.1 && grid_view(final(grid)@) == mark(
                grid_view(old(grid)@),
                p.0,
                p.1,
                height as nat,
                width as nat,
            ),
            None => r is None && final(grid)@ == old(grid)@,
        },
{
    let ghost g = grid_view(grid@);
    let rows = grid.len();
    if height > rows || width > cols || start_row > rows {
        return None;
    }
    let mut row = start_row;
    while row < rows
        invariant
            rows == grid@.len(),
            g == grid_view(grid@),
            g == grid_view(old(grid)@),
            grid@ == old(grid)@,
            grid_wf(g, cols as nat),
            height <= rows,
            width <= cols,
            start_row <= row <= rows,
            scan_from(g, cols as nat, height as nat, width as nat, start_row as nat, 0) == scan_from(
                g,
                cols as nat,
                height as nat,
                width as nat,
                row as nat,
                0,
            ),
        decreases rows - row,
    {
        let last = cols - width;
        let mut col: usize = 0;
        loop
            invariant
                rows == grid@.len(),
                g == grid_view(grid@),
                g == grid_view(old(grid)@),
                grid@ == old(grid)@,
                grid_wf(g, cols as nat),
                height <= rows,
                width <= cols,
                last == cols - width,
                start_row <= row < rows,
                col <= last,
                scan_from(g, cols as nat, height as nat, width as nat, start_row as nat, 0) == scan_from(
                    g,
                    cols as nat,
                    height as nat,
                    width as nat,
                    row as nat,
                    col as nat,
                ),
            ensures
                scan_from(g, cols as nat, height as nat, width as nat, start_row as nat, 0) == scan_from(
                    g,
                    cols as nat,
                    height as nat,
                    width as nat,
                    (row + 1) as nat,
                    0,
                ),
            decreases last - col,
        {
            if can_place_cell(grid, cols, row, col, width, height) {
                assert(scan_from(g, cols as nat, height as nat, width as nat, row as nat, col as nat) == Some(
                    (row as nat, col as nat),
                ));
                assert(first_fit(g, cols as nat, height as nat, width as nat, start_row as nat) == Some(
                    (row as nat, col as nat),
                ));
                place_cell(grid, cols, row, col, width, height);
                assert(grid_view(grid@) == mark(g, row as nat, col as nat, height as nat, width as nat));
                proof {
                    assert forall|i: int| 0 <= i < grid_view(grid@).len() implies (#[trigger] grid_view(grid@)[i]).len() == cols by {
                        assert(grid_view(grid@)[i].len() == g[i].len());
                    }
                }
                return Some((row, col));
            }
            assert(scan_from(g, cols as nat, height as nat, width as nat, row as nat, col as nat) == scan_from(
                g,
                cols as nat,
                height as nat,
                width as nat,
                row as nat,
                (col + 1) as nat,
            ));
            if col == last {
                assert(scan_from(g, cols as nat, height as nat, width as nat, row as nat, (col + 1) as nat) == scan_from(
                    g,
                    cols as nat,
                    height as nat,
                    width as nat,
                    (row + 1) as nat,
                    0,
                ));
                break;
            }
            col = col + 1;
        }
        row = row + 1;
    }
    assert(scan_from(g, cols as nat, height as nat, width as nat, row as nat, 0) is None);
    None
}

/// Places a card of the given type and size, searching from row
/// `start_row`; `None` where the block fits nowhere.
fn add_cell(grid: &mut Vec<Vec<bool>>, cols: usize, cell_type: String, height: usize, width: usize, start_row: usize) -> (r: Option<CellSize>)
    requires
        grid_wf(grid_view(old(grid)@), cols as nat),
    ensures
        grid_wf(grid_view(final(grid)@), cols as nat),
        match first_fit(grid_view(old(grid)@), cols as nat, height as nat, width as nat, start_row as nat) {
            Some(p) => r matches Some(cs) && cs@ == (Placement {
                row: p.0,
                col: p.1,
                height: height as nat,
                width: width as nat,
                card_type: cell_type@,
            }) && grid_view(final(grid)@) == mark(grid_view(old(grid)@), p.0, p.1, height as nat, width as nat),
            None => r is None && final(grid)@ == old(grid)@,
        },
{
    match try_place_cell(grid, cols, width, height, start_row) {
        Some((start_row, start_col)) => Some(CellSize { start_row, start_col, width, height, card_type: cell_type }),
        None => None,
    }
}

/// Lays out the entries, each written `<card type>-<height>x<width>`, on a
/// grid of `grid_size.0` rows by `grid_size.1` columns. Entries that are
/// malformed or fit nowhere are skipped.
pub fn arrange_grid(grid_size: (usize, usize), cell_list: &[String]) -> (r: Vec<CellSize>)
    ensures
        r@.map_values(|c: CellSize| c@) == pack(grid_size.0 as nat, grid_size.1 as nat, views(cell_list@)).placed,
{
    let (grow, gcol) = grid_size;
    let ghost entries = views(cell_list@);
    let mut grid = new_grid(grow, gcol);
    let mut start_row: usize = 0;
    let mut cell_size_list: Vec<CellSize> = Vec::new();
    let mut i: usize = 0;
    assert(grid_view(grid@).len() == grid@.len());
    assert(entries.take(0) =~= Seq::<Seq<char>>::empty());
    assert(cell_size_list@.map_values(|c: CellSize| c@) =~= Seq::<Placement>::empty());
    while i < cell_list.len()
        invariant
            i <= cell_list@.len(),
            entries == views(cell_list@),
            grid@.len() == grow,
            grid_wf(grid_view(grid@), gcol as nat),
            grid_view(grid@) == pack(grow as nat, gcol as nat, entries.take(i as int)).grid,
            start_row as nat == pack(grow as nat, gcol as nat, entries.take(i as int)).floor,
            cell_size_list@.map_values(|c: CellSize| c@) == pack(grow as nat, gcol as nat, entries.take(i as int)).placed,
        decreases cell_list@.len() - i,
    {
        let ghost st = pack(grow as nat, gcol as nat, entries.take(i as int));
        let ghost before = cell_size_list@;
        proof {
            assert(entries.take(i + 1).drop_last() =~= entries.take(i as int));
            assert(entries.take(i + 1).last() == cell_list@[i as int]@);
        }
        let ghost entry = cell_list@[i as int]@;
        assert(pack(grow as nat, gcol as nat, entries.take(i + 1)) == pack_step(st, gcol as nat, entry, i as int));
        match parse_entry(cell_list[i].as_str()) {
            Some((cell_type, h, w)) => {
                match add_cell(&mut grid, gcol, cell_type, h, w, start_row) {
                    Some(cell_size) => {
                        start_row = cell_size.start_row;
                        cell_size_list.push(cell_size);
                        assert(cell_size_list@.map_values(|c: CellSize| c@) =~= before.map_values(|c: CellSize| c@).push(cell_size@));
                    },
                    None => {},
                }
            },
            None => {},
        }
        assert(grid_view(grid@).len() == grid@.len());
        i = i + 1;
    }
    assert(entries.take(cell_list@.len() as int) =~= entries);
    cell_size_list
}

impl CellSize {
    pub fn get_start_row(&self) -> (r: usize)
        ensures
            r == self@.row,
    {
        self.start_row
    }

    pub fn get_start_col(&self) -> (r: usize)
        ensures
            r == self@.col,
    {
        self.start_col
    }

    pub fn get_width(&self) -> (r: usize)
        ensures
            r == self@.width,
    {
        self.width
    }

    pub fn get_height(&self) -> (r: usize)
        ensures
            r == self@.height,
    {
        self.height
    }

    pub fn get_card_type(&self) -> (r: &String)
        ensures
            r@ == self@.card_type,
    {
        &self.card_type
    }
}

proof fn lemma_scan_from(g: Seq<Seq<bool>>, cols: nat, h: nat, w: nat, r: nat, c: nat)
    requires
        r <= g.len(),
        c <= cols + 1,
    ensures
        scan_from(g, cols, h, w, r, c) matches Some(p) ==> p.0 >= r && block_free(g, cols, p.0, p.1, h, w),
    decreases g.len() - r, cols + 1 - c,
{
    if r < g.len() {
        if c + w > cols {
            lemma_scan_from(g, cols, h, w, r + 1, 0);
        } else if !block_free(g, cols, r, c, h, w) {
            lemma_scan_from(g, cols, h, w, r, c + 1);
        }
    }
}

/// What holds of every state of a packing run over `entries`.
pub open spec fn pack_inv(rows: nat, cols: nat, entries: Seq<Seq<char>>, st: PackState) -> bool {
    &&& st.grid.len() == rows
    &&& grid_wf(st.grid, cols)
    &&& st.placed.len() == st.sources.len()
    &&& forall|k: int|
        #![trigger st.placed[k]]
        #![trigger st.sources[k]]
        0 <= k < st.placed.len() ==> {
        &&& st.placed[k].row + st.placed[k].height <= rows
        &&& st.placed[k].col + st.placed[k].width <= cols
        &&& 0 <= st.sources[k] < entries.len()
        &&& cell_entry(entries[st.sources[k]]) == Some(
            (st.placed[k].card_type, st.placed[k].height, st.placed[k].width),
        )
        &&& st.placed[k].row <= st.floor
    }
    &&& forall|k: int, i: int, j: int| 0 <= k < st.placed.len() && #[trigger] covers(st.placed[k], i, j) ==> st.grid[i][j]
    &&& forall|k: int, l: int, i: int, j: int|
        0 <= k < l < st.placed.len() ==> !(#[trigger] covers(st.placed[k], i, j) && #[trigger] covers(st.placed[l], i, j))
    &&& forall|k: int, l: int| 0 <= k < l < st.placed.len() ==> #[trigger] st.sources[k] < #[trigger] st.sources[l]
    &&& forall|k: int, l: int| 0 <= k < l < st.placed.len() ==> #[trigger] st.placed[k].row <= #[trigger] st.placed[l].row
    &&& st.floor <= rows
    &&& st.placed.len() > 0 ==> st.floor == st.placed.last().row
}

proof fn lemma_pack_inv(rows: nat, cols: nat, entries: Seq<Seq<char>>)
    ensures
        pack_inv(rows, cols, entries, pack(rows, cols, entries)),
    decreases entries.len(),
{
    if entries.len() == 0 {
        return;
    }
    let prev_entries = entries.drop_last();
    lemma_pack_inv(rows, cols, prev_entries);
    let st = pack(rows, cols, prev_entries);
    let n = entries.len() - 1;
    assert forall|k: int| 0 <= k < st.placed.len() implies entries[st.sources[k]] == prev_entries[st.sources[k]] && st.sources[k] < n by {
        assert(st.placed[k].row <= st.floor);
        assert(0 <= st.sources[k] < prev_entries.len());
    }
    match cell_entry(entries.last()) {
        Some((ty, h, w)) => {
            match first_fit(st.grid, cols, h, w, st.floor) {
                Some((r, c)) => {
                    lemma_scan_from(st.grid, cols, h, w, st.floor, 0);
                    let p = Placement { row: r, col: c, height: h, width: w, card_type: ty };
                    let nx = pack(rows, cols, entries);
                    assert(nx.placed == st.placed.push(p));
                    assert(nx.sources == st.sources.push(n));
                    assert(nx.grid == mark(st.grid, r, c, h, w));
                    assert forall|k: int, i: int, j: int| 0 <= k < nx.placed.len() && #[trigger] covers(nx.placed[k], i, j) implies nx.grid[i][j] by {
                        if k < st.placed.len() {
                            assert(st.grid[i][j]);
                        }
                    }
                    assert forall|k: int, l: int, i: int, j: int|
                        0 <= k < l < nx.placed.len() implies !(#[trigger] covers(nx.placed[k], i, j) && #[trigger] covers(nx.placed[l], i, j)) by {
                        if l == st.placed.len() && covers(nx.placed[k], i, j) && covers(nx.placed[l], i, j) {
                            assert(st.grid[i][j]);
                        }
                    }
                    assert forall|i: int| 0 <= i < nx.grid.len() implies (#[trigger] nx.grid[i]).len() == cols by {
                        assert(st.grid[i].len() == cols);
                    }
                    assert forall|k: int| 0 <= k < nx.placed.len() implies (#[trigger] nx.placed[k]).row <= nx.floor by {
                        if k < st.placed.len() {
                            assert(st.placed[k].row <= st.floor);
                        }
                    }
                },
                None => {},
            }
        },
        None => {},
    }
}

/// No two rectangles of a packing run share a grid cell.
pub proof fn lemma_no_overlap(rows: nat, cols: nat, entries: Seq<Seq<char>>)
    ensures
        forall|k: int, l: int, i: int, j: int|
            0 <= k < l < pack(rows, cols, entries).placed.len() ==> !(#[trigger] covers(
                pack(rows, cols, entries).placed[k],
                i,
                j,
            ) && #[trigger] covers(pack(rows, cols, entries).placed[l], i, j)),
{
    lemma_pack_inv(rows, cols, entries);
}

/// Every rectangle of a packing run lies inside the grid.
pub proof fn lemma_in_bounds(rows: nat, cols: nat, entries: Seq<Seq<char>>)
    ensures
        forall|k: int| 0 <= k < pack(rows, cols, entries).placed.len() ==> {
            let p = #[trigger] pack(rows, cols, entries).placed[k];
            p.row + p.height <= rows && p.col + p.width <= cols
        },
{
    lemma_pack_inv(rows, cols, entries);
}

/// The rectangles come out in the order of the entries they were made from:
/// each one is the card type and size of its entry, and the entries' indices
/// strictly increase.
pub proof fn lemma_order_preserved(rows: nat, cols: nat, entries: Seq<Seq<char>>)
    ensures
        ({
            let st = pack(rows, cols, entries);
            &&& st.sources.len() == st.placed.len()
            &&& forall|k: int| 0 <= k < st.placed.len() ==> {
                &&& 0 <= #[trigger] st.sources[k] < entries.len()
                &&& cell_entry(entries[st.sources[k]]) == Some(
                    (st.placed[k].card_type, st.placed[k].height, st.placed[k].width),
                )
            }
            &&& forall|k: int, l: int| 0 <= k < l < st.placed.len() ==> #[trigger] st.sources[k] < #[trigger] st.sources[l]
        }),
{
    lemma_pack_inv(rows, cols, entries);
}

/// A later rectangle never starts on a row above an earlier one.
pub proof fn lemma_forward_only(rows: nat, cols: nat, entries: Seq<Seq<char>>)
    ensures
        forall|k: int|
            0 <= k && k + 1 < pack(rows, cols, entries).placed.len() ==> (#[trigger] pack(rows, cols, entries).placed[k]).row
                <= pack(rows, cols, entries).placed[k + 1].row,
{
    lemma_pack_inv(rows, cols, entries);
    let st = pack(rows, cols, entries);
    assert forall|k: int| 0 <= k && k + 1 < st.placed.len() implies (#[trigger] st.placed[k]).row <= st.placed[k + 1].row by {
        assert(st.placed[k].row <= st.placed[k + 1].row);
    }
}

/// An entry asking for more columns than the grid has is never placed.
pub proof fn lemma_overflow_skipped(rows: nat, cols: nat, entries: Seq<Seq<char>>, i: int)
    requires
        0 <= i < entries.len(),
        cell_entry(entries[i]) matches Some(e) && e.2 > cols,
    ensures
        !pack(rows, cols, entries).sources.contains(i),
{
    lemma_pack_inv(rows, cols, entries);
    let st = pack(rows, cols, entries);
    if st.sources.contains(i) {
        let k = choose|k: int| 0 <= k < st.sources.len() && st.sources[k] == i;
        assert(st.placed[k].col + st.placed[k].width <= cols);
    }
}

} // verus!
