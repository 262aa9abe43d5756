use vstd::prelude::*;
use crate::tile::Tile;
use crate::room::{Room, ROOM_WIDTH, ROOM_CELLS, row_of, col_of};

verus! {

/// One entity to spawn for a room: where, what, and how many were spawned
/// before it (brick sprites cycle through their atlas by that count).
#[derive(Clone, Copy, Debug, PartialEq, Eq, Structural)]
pub struct Spawn {
    pub row: usize,
    pub col: usize,
    pub tile: Tile,
    pub ordinal: usize,
}

/// The spawns for the first n cells, row by row: one for each cell that is not
/// open floor.
pub open spec fn spawns_in(g: Seq<Tile>, n: int) -> Seq<Spawn>
    decreases n,
{
    if n <= 0 {
        seq![]
    } else {
        let prev = spawns_in(g, n - 1);
        if g[n - 1] == Tile::Open {
            prev
        } else {
            prev.push(
                Spawn {
                    row: row_of(n - 1) as usize,
                    col: col_of(n - 1) as usize,
                    tile: g[n - 1],
                    ordinal: prev.len() as usize,
                },
            )
        }
    }
}

proof fn lemma_spawns_len(g: Seq<Tile>, n: int)
    ensures
        spawns_in(g, n).len() <= if n < 0 {
            0
        } else {
            n
        },
    decreases n,
{
    if n > 0 {
        lemma_spawns_len(g, n - 1);
    }
}

/// What a room spawns when the player enters it, in the order the grid is
/// walked.
pub fn spawn_plan(room: &Room) -> (v: Vec<Spawn>)
    requires
        room.wf(),
    ensures
        v@ == spawns_in(room.tiles(), ROOM_CELLS as int),
{
    let cells = room.cells();
    let mut v: Vec<Spawn> = Vec::new();
    let mut k: usize = 0;
    while k < ROOM_CELLS
        invariant
            k <= ROOM_CELLS,
            cells@ == room.tiles(),
            cells@.len() == ROOM_CELLS,
            v@ == spawns_in(cells@, k as int),
        decreases ROOM_CELLS - k,
    {
        proof {
            lemma_spawns_len(cells@, k as int);
        }
        let t = cells[k];
        if t != Tile::Open {
            let s = Spawn { row: k / ROOM_WIDTH, col: k % ROOM_WIDTH, tile: t, ordinal: v.len() };
            v.push(s);
        }
        k += 1;
    }
    v
}

/// The atlas frame of a brick: its spawn ordinal wrapped around the atlas.
pub fn sprite_frame(ordinal: usize, frames: usize) -> (f: usize)
    requires
        frames > 0,
    ensures
        f == ordinal % frames,
{
    ordinal % frames
}

} // verus!
