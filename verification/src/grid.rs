use vstd::prelude::*;

verus! {

/// The cell symbol of traversable floor; every other symbol is a wall the
/// ray caster stops at.
pub const OPEN_CELL: char = ' ';

/// The mathematical view of a maze: the sequence of its rows, each row a
/// sequence of cell symbols. Rows may have irregular lengths.
pub open spec fn grid_view(maze: &Vec<Vec<char>>) -> Seq<Seq<char>> {
    maze@.map_values(|row: Vec<char>| row@)
}

/// The symbol of cell `(i, j)` — column `i` of row `j` — or `None` where the
/// grid has no such cell.
pub open spec fn grid_cell(m: Seq<Seq<char>>, i: int, j: int) -> Option<char> {
    if 0 <= j < m.len() && 0 <= i < m[j].len() {
        Some(m[j][i])
    } else {
        None
    }
}

/// A defined cell holding anything but the traversable symbol.
pub open spec fn grid_blocked(m: Seq<Seq<char>>, i: int, j: int) -> bool {
    match grid_cell(m, i, j) {
        Some(c) => c != OPEN_CELL,
        None => false,
    }
}

/// A finished maze row: the collected symbols, with a carriage return
/// before the newline dropped.
pub open spec fn strip_cr(row: Seq<char>) -> Seq<char> {
    if row.len() > 0 && row.last() == '\r' {
        row.drop_last()
    } else {
        row
    }
}

/// The grid the maze text denotes, read from byte `i` with the partial row
/// `cur` and the finished rows `acc`: rows split at newline bytes, one
/// cell symbol per byte, and a final unterminated row kept iff non-empty.
pub open spec fn parse_rows(
    bytes: Seq<u8>,
    i: int,
    cur: Seq<char>,
    acc: Seq<Seq<char>>,
) -> Seq<Seq<char>>
    decreases bytes.len() - i when 0 <= i <= bytes.len()
{
    if i >= bytes.len() {
        if cur.len() > 0 {
            acc.push(cur)
        } else {
            acc
        }
    } else if bytes[i] == 10 {
        parse_rows(bytes, i + 1, Seq::empty(), acc.push(strip_cr(cur)))
    } else {
        parse_rows(bytes, i + 1, cur.push(bytes[i] as char), acc)
    }
}

/// The grid a whole maze text denotes.
pub open spec fn parse_maze_spec(bytes: Seq<u8>) -> Seq<Seq<char>> {
    parse_rows(bytes, 0, Seq::empty(), Seq::empty())
}

/// Parses a maze text — rows of single-byte cell symbols, newline
/// delimited — into the grid, exactly as `parse_maze_spec` reads it.
pub fn parse_maze(bytes: &Vec<u8>) -> (maze: Vec<Vec<char>>)
    ensures
        grid_view(&maze) == parse_maze_spec(bytes@),
{
    let mut acc: Vec<Vec<char>> = Vec::new();
    let mut cur: Vec<char> = Vec::new();
    proof {
        assert(grid_view(&acc) =~= Seq::<Seq<char>>::empty());
        assert(cur@ =~= Seq::<char>::empty());
    }
    let n: usize = bytes.len();
    let mut i: usize = 0;
    while i < n
        invariant
            i <= n,
            n == bytes@.len(),
            parse_rows(bytes@, i as int, cur@, grid_view(&acc)) == parse_maze_spec(bytes@),
        decreases n - i,
    {
        let b: u8 = bytes[i];
        if b == 10 {
            let mut row: Vec<char> = cur;
            cur = Vec::new();
            if row.len() > 0 && row[row.len() - 1] == '\r' {
                row.pop();
            }
            let ghost gv_before = grid_view(&acc);
            acc.push(row);
            proof {
                assert(grid_view(&acc) =~= gv_before.push(acc@.last()@));
            }
        } else {
            cur.push(b as char);
        }
        i = i + 1;
    }
    if cur.len() > 0 {
        let ghost gv_before = grid_view(&acc);
        acc.push(cur);
        proof {
            assert(grid_view(&acc) =~= gv_before.push(acc@.last()@));
        }
    }
    acc
}

/// Looks the cell up the way the walkers do: a miss outside the defined rows
/// or columns is `None`, never an error.
pub fn grid_lookup(maze: &Vec<Vec<char>>, i: usize, j: usize) -> (r: Option<char>)
    ensures
        r == grid_cell(grid_view(maze), i as int, j as int),
{
    if j < maze.len() {
        let row: &Vec<char> = &maze[j];
        if i < row.len() {
            Some(row[i])
        } else {
            None
        }
    } else {
        None
    }
}

} // verus!
