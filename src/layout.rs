use vstd::prelude::*;
use crate::tile::{Tile, tile_of};
use crate::room::{Room, ROOM_WIDTH, ROOM_HEIGHT, ROOM_CELLS, row_of, col_of, seeds_valid};

verus! {

/// Character p ends a line: a newline, or a carriage return just before one.
pub open spec fn ends_line(t: Seq<char>, p: int) -> bool {
    t[p] == '\n' || (t[p] == '\r' && p + 1 < t.len() && t[p + 1] == '\n')
}

/// The line that character p stands on, counting from zero.
pub open spec fn line_of(t: Seq<char>, p: int) -> int
    decreases p,
{
    if p <= 0 {
        0
    } else {
        line_of(t, p - 1) + if t[p - 1] == '\n' {
            1int
        } else {
            0int
        }
    }
}

/// The column that character p stands on within its line, counting from zero.
pub open spec fn column_of(t: Seq<char>, p: int) -> int
    decreases p,
{
    if p <= 0 {
        0
    } else if t[p - 1] == '\n' {
        0
    } else {
        column_of(t, p - 1) + 1
    }
}

/// Character p lands on cell k: lines and columns past the room's size wrap
/// around onto it.
pub open spec fn lands_on(t: Seq<char>, p: int, k: int) -> bool {
    &&& !ends_line(t, p)
    &&& line_of(t, p) % (ROOM_HEIGHT as int) == row_of(k)
    &&& column_of(t, p) % (ROOM_WIDTH as int) == col_of(k)
}

/// The last of the first n characters that lands on cell k, or -1.
pub open spec fn last_landing(t: Seq<char>, n: int, k: int) -> int
    decreases n,
{
    if n <= 0 {
        -1
    } else if lands_on(t, n - 1, k) {
        n - 1
    } else {
        last_landing(t, n - 1, k)
    }
}

pub open spec fn cell_after(t: Seq<char>, n: int, k: int) -> Tile {
    let p = last_landing(t, n, k);
    if p < 0 {
        Tile::Open
    } else {
        tile_of(t[p])
    }
}

/// The tiles a layout text describes: each cell holds the last character that
/// lands on it, and open floor where none does.
pub open spec fn text_layout(t: Seq<char>) -> Seq<Tile> {
    Seq::new(ROOM_CELLS as nat, |k: int| cell_after(t, t.len() as int, k))
}

/// Reads a room layout written one row per line.
pub fn parse_layout(text: &Vec<char>) -> (cells: Vec<Tile>)
    ensures
        cells@ == text_layout(text@),
{
    let ghost t = text@;
    let mut cells: Vec<Tile> = Vec::new();
    while cells.len() < ROOM_CELLS
        invariant
            cells.len() <= ROOM_CELLS,
            forall|k: int| 0 <= k < cells.len() ==> cells@[k] == Tile::Open,
        decreases ROOM_CELLS - cells.len(),
    {
        cells.push(Tile::Open);
    }
    let mut line: usize = 0;
    let mut col: usize = 0;
    let mut p: usize = 0;
    while p < text.len()
        invariant
            t == text@,
            p <= text.len(),
            line == line_of(t, p as int),
            col == column_of(t, p as int),
            line <= p,
            col <= p,
            cells.len() == ROOM_CELLS,
            forall|k: int| 0 <= k < ROOM_CELLS ==> cells@[k] == cell_after(t, p as int, k),
        decreases text.len() - p,
    {
        let c = text[p];
        if c == '\n' {
            line += 1;
            col = 0;
            assert forall|k: int| 0 <= k < ROOM_CELLS implies cells@[k] == cell_after(t, p + 1, k) by {
                assert(!lands_on(t, p as int, k));
            }
        } else {
            let ends = c == '\r' && p + 1 < text.len() && text[p + 1] == '\n';
            if !ends {
                let r = line % ROOM_HEIGHT;
                let q = col % ROOM_WIDTH;
                let at = r * ROOM_WIDTH + q;
                cells.set(at, Tile::from_symbol(c));
                proof {
                    vstd::arithmetic::div_mod::lemma_fundamental_div_mod_converse(
                        at as int,
                        ROOM_WIDTH as int,
                        r as int,
                        q as int,
                    );
                    assert forall|k: int| 0 <= k < ROOM_CELLS implies cells@[k] == cell_after(t, p + 1, k) by {
                        vstd::arithmetic::div_mod::lemma_fundamental_div_mod(k, ROOM_WIDTH as int);
                        if lands_on(t, p as int, k) {
                            assert(k == at);
                        } else {
                            assert(k != at);
                        }
                    }
                }
            } else {
                assert forall|k: int| 0 <= k < ROOM_CELLS implies cells@[k] == cell_after(t, p + 1, k) by {
                    assert(!lands_on(t, p as int, k));
                }
            }
            col += 1;
        }
        p += 1;
    }
    assert(cells@ =~= text_layout(t));
    cells
}

/// The starting room: every exit open, its tiles read from a layout text.
pub fn starting_room(text: &Vec<char>) -> (r: Room)
    ensures
        r.wf(),
        r.exit_flags() == seq![true, true, true, true],
        r.tiles() == text_layout(text@),
        seeds_valid(r.seeds()),
{
    let r = Room::new([true, true, true, true]).with_tiles(parse_layout(text));
    assert(r.exit_flags() =~= seq![true, true, true, true]);
    r
}

} // verus!
