//! The maze grid: a ragged matrix of cells, each empty or one of three
//! orientation-coded wall kinds, together with the fixed-point coordinate
//! conventions and the indexing rule shared by the ray marcher and the
//! collision test.

use vstd::prelude::*;

verus! {

/// Number of fixed-point subunits per coordinate unit. All positions,
/// distances and direction components are carried as `i64` counts of
/// these subunits.
pub const FP_SCALE: i64 = 65536;

/// Largest cell side length (in coordinate units) the indexing rule
/// accepts; keeps `block_size * FP_SCALE` well inside the `i64` range.
pub const BLOCK_MAX: u64 = 0x1_0000_0000;

/// Largest magnitude (in subunits) a player coordinate may take; keeps
/// every ray-sample and movement computation free of overflow.
pub const COORD_LIMIT: i64 = 0x4_0000_0000_0000;

/// One of the three wall orientations the maze format distinguishes,
/// each rendered with its own texture or color.
#[derive(Clone, Copy, PartialEq, Eq, Structural, Debug)]
pub enum WallKind {
    /// A corner piece, written `+` in the maze text.
    Corner,
    /// A horizontal run, written `-` in the maze text.
    Horizontal,
    /// A vertical run, written `|` in the maze text.
    Vertical,
}

/// One grid cell: open space or a wall of some kind.
#[derive(Clone, Copy, PartialEq, Eq, Structural, Debug)]
pub enum Cell {
    Empty,
    Wall(WallKind),
}

/// The mathematical view of a maze: a ragged sequence of rows of cells.
pub open spec fn grid_view(maze: &Vec<Vec<Cell>>) -> Seq<Seq<Cell>> {
    maze@.map_values(|row: Vec<Cell>| row@)
}

/// The shared indexing rule: a fixed-point coordinate names the cell at
/// its integer quotient by the cell side length.
pub open spec fn cell_index(p: int, block_size: int) -> int {
    p / (block_size * FP_SCALE)
}

/// Whether the coordinate pair falls on some cell of the grid. Negative
/// coordinates and indices past the row count or past the indexed row's
/// length are outside; rows may be ragged.
pub open spec fn in_bounds(g: Seq<Seq<Cell>>, x: int, y: int, block_size: int) -> bool {
    let i = cell_index(x, block_size);
    let j = cell_index(y, block_size);
    &&& 0 <= x
    &&& 0 <= y
    &&& 0 <= j < g.len()
    &&& 0 <= i < g[j].len()
}

/// The cell a coordinate pair falls on (meaningful when `in_bounds`).
pub open spec fn cell_at(g: Seq<Seq<Cell>>, x: int, y: int, block_size: int) -> Cell {
    g[cell_index(y, block_size)][cell_index(x, block_size)]
}

/// Whether the coordinate pair lies inside a wall cell: outside the grid
/// counts as open space by policy.
pub open spec fn wall_at(g: Seq<Seq<Cell>>, x: int, y: int, block_size: int) -> bool {
    in_bounds(g, x, y, block_size) && cell_at(g, x, y, block_size) !== Cell::Empty
}

/// Grid lookup by fixed-point coordinates: `None` when the position is
/// outside the grid, otherwise the cell it falls on.
pub fn cell_lookup(maze: &Vec<Vec<Cell>>, x: i64, y: i64, block_size: u64) -> (r: Option<Cell>)
    requires
        1 <= block_size <= BLOCK_MAX,
    ensures
        r is None <==> !in_bounds(grid_view(maze), x as int, y as int, block_size as int),
        r matches Some(c) ==> in_bounds(grid_view(maze), x as int, y as int, block_size as int)
            && c == cell_at(grid_view(maze), x as int, y as int, block_size as int),
{
    if x < 0 || y < 0 {
        return None;
    }
    let divisor: u64 = block_size * 65536;
    let i: u64 = (x as u64) / divisor;
    let j: u64 = (y as u64) / divisor;
    if j >= maze.len() as u64 {
        return None;
    }
    let row: &Vec<Cell> = &maze[j as usize];
    if i >= row.len() as u64 {
        return None;
    }
    Some(row[i as usize])
}

/// What a byte of the maze text denotes: space is open floor, the three
/// wall marks are walls, anything else is malformed.
pub open spec fn cell_of_byte(b: u8) -> Option<Cell> {
    if b == 32 {
        Some(Cell::Empty)
    } else if b == 43 {
        Some(Cell::Wall(WallKind::Corner))
    } else if b == 45 {
        Some(Cell::Wall(WallKind::Horizontal))
    } else if b == 124 {
        Some(Cell::Wall(WallKind::Vertical))
    } else {
        None
    }
}

/// Whether every byte of every line is a recognized cell mark.
pub open spec fn lines_well_formed(lines: Seq<Seq<u8>>) -> bool {
    forall|j: int, i: int|
        0 <= j < lines.len() && 0 <= i < lines[j].len() ==> cell_of_byte(
            #[trigger] lines[j][i],
        ) is Some
}

/// Whether a grid is the cell-for-cell reading of the given maze text.
pub open spec fn parses_to(lines: Seq<Seq<u8>>, g: Seq<Seq<Cell>>) -> bool {
    &&& g.len() == lines.len()
    &&& forall|j: int| 0 <= j < g.len() ==> (#[trigger] g[j]).len() == lines[j].len()
    &&& forall|j: int, i: int|
        0 <= j < g.len() && 0 <= i < g[j].len() ==> cell_of_byte(lines[j][i]) == Some(
            #[trigger] g[j][i],
        )
}

/// Reads a maze text, one byte per cell, one line per row. Returns the
/// grid exactly when every byte is a recognized mark; a malformed maze
/// is rejected whole, as a startup error.
pub fn parse_maze(lines: &Vec<Vec<u8>>) -> (r: Option<Vec<Vec<Cell>>>)
    ensures
        r is Some <==> lines_well_formed(lines@.map_values(|line: Vec<u8>| line@)),
        r matches Some(g) ==> parses_to(
            lines@.map_values(|line: Vec<u8>| line@),
            grid_view(&g),
        ),
{
    let ghost lv = lines@.map_values(|line: Vec<u8>| line@);
    let mut g: Vec<Vec<Cell>> = Vec::new();
    let mut j: usize = 0;
    while j < lines.len()
        invariant
            0 <= j <= lines.len(),
            lv == lines@.map_values(|line: Vec<u8>| line@),
            grid_view(&g).len() == j,
            forall|jj: int| 0 <= jj < j ==> (#[trigger] grid_view(&g)[jj]).len() == lv[jj].len(),
            forall|jj: int, ii: int|
                0 <= jj < j && 0 <= ii < grid_view(&g)[jj].len() ==> cell_of_byte(lv[jj][ii])
                    == Some(#[trigger] grid_view(&g)[jj][ii]),
            forall|jj: int, ii: int|
                0 <= jj < j && 0 <= ii < lv[jj].len() ==> cell_of_byte(
                    #[trigger] lv[jj][ii],
                ) is Some,
        decreases lines.len() - j,
    {
        let line: &Vec<u8> = &lines[j];
        let mut row: Vec<Cell> = Vec::new();
        let mut i: usize = 0;
        while i < line.len()
            invariant
                0 <= i <= line.len(),
                lv == lines@.map_values(|line: Vec<u8>| line@),
                j < lines.len(),
                line@ == lv[j as int],
                row@.len() == i,
                forall|ii: int| 0 <= ii < i ==> cell_of_byte(line@[ii]) == Some(
                    #[trigger] row@[ii],
                ),
            decreases line.len() - i,
        {
            let c = match line[i] {
                32 => Cell::Empty,
                43 => Cell::Wall(WallKind::Corner),
                45 => Cell::Wall(WallKind::Horizontal),
                124 => Cell::Wall(WallKind::Vertical),
                _ => {
                    proof {
                        assert(lv[j as int][i as int] == line@[i as int]);
                        assert(cell_of_byte(lv[j as int][i as int]) is None);
                        assert(!lines_well_formed(lv));
                    }
                    return None;
                },
            };
            row.push(c);
            i += 1;
        }
        proof {
            assert forall|ii: int| 0 <= ii < lv[j as int].len() implies cell_of_byte(
                #[trigger] lv[j as int][ii],
            ) is Some by {
                assert(lv[j as int][ii] == line@[ii]);
                assert(cell_of_byte(line@[ii]) == Some(row@[ii]));
            }
        }
        let ghost gv0 = grid_view(&g);
        let ghost rowv = row@;
        g.push(row);
        proof {
            assert(grid_view(&g) =~= gv0.push(rowv));
        }
        j += 1;
    }
    Some(g)
}

} // verus!
