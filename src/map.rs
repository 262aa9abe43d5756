use vstd::prelude::*;
use crate::tile::Tile;
use crate::layout::{parse_layout, text_layout, ends_line, lands_on};
use crate::tile::tile_of;
use crate::random::random_below;
use crate::room::{
    Room, FeatureRolls, Smoothing, ROOM_CELLS, ROOM_WIDTH, ROOM_HEIGHT, LEFT, RIGHT, TOP, BOTTOM, room_layout, border_contained,
    seeds_valid, rolls_valid, build_room, gen_seed_wall_locations, gen_feature_rolls,
    lemma_finished_border_contained,
};

verus! {

/// Columns of rooms in a map.
pub const MAP_WIDTH: usize = 30;
/// Rows of rooms in a map.
pub const MAP_HEIGHT: usize = 30;

/// The two exits drawn for a cell: the others follow from its neighbours.
#[derive(Clone, Copy, Debug, PartialEq, Eq, Structural)]
pub struct ExitDraw {
    pub bottom: bool,
    pub right: bool,
}

/// The draws a room's content is made from.
#[derive(Clone, Debug)]
pub struct RoomDraws {
    pub seeds: Vec<usize>,
    pub rolls: Vec<FeatureRolls>,
}

pub open spec fn center_row(h: int) -> int {
    (h - 1) / 2
}

pub open spec fn center_col(w: int) -> int {
    (w - 1) / 2
}

pub open spec fn is_center(h: int, w: int, i: int, j: int) -> bool {
    i == center_row(h) && j == center_col(w)
}

/// The bottom exit of cell (i, j): open at the centre and just above it, closed
/// on the last row, drawn elsewhere.
pub open spec fn bottom_exit(h: int, w: int, d: Seq<Vec<ExitDraw>>, i: int, j: int) -> bool {
    if is_center(h, w, i, j) {
        true
    } else if i == h - 1 {
        false
    } else if j == center_col(w) && i == center_row(h) - 1 {
        true
    } else {
        d[i]@[j].bottom
    }
}

/// The right exit of cell (i, j): open at the centre and just left of it, closed
/// on the last column, drawn elsewhere.
pub open spec fn right_exit(h: int, w: int, d: Seq<Vec<ExitDraw>>, i: int, j: int) -> bool {
    if is_center(h, w, i, j) {
        true
    } else if j == w - 1 {
        false
    } else if i == center_row(h) && j == center_col(w) - 1 {
        true
    } else {
        d[i]@[j].right
    }
}

/// The exit flags of cell (i, j), indexed left, right, top, bottom: the top and
/// left ones are those of the neighbours above and to the left.
pub open spec fn exits_at(h: int, w: int, d: Seq<Vec<ExitDraw>>, i: int, j: int) -> Seq<bool> {
    if is_center(h, w, i, j) {
        seq![true, true, true, true]
    } else {
        seq![
            j > 0 && right_exit(h, w, d, i, j - 1),
            right_exit(h, w, d, i, j),
            i > 0 && bottom_exit(h, w, d, i - 1, j),
            bottom_exit(h, w, d, i, j),
        ]
    }
}

/// Each pair of neighbours agrees on the edge between them.
pub open spec fn exits_consistent(rooms: Seq<Seq<Room>>, h: int, w: int) -> bool {
    &&& forall|i: int, j: int|
        0 <= i < h && 0 <= j < w - 1 ==> (#[trigger] rooms[i][j]).exit_flags()[RIGHT as int]
            == rooms[i][j + 1].exit_flags()[LEFT as int]
    &&& forall|i: int, j: int|
        0 <= i < h - 1 && 0 <= j < w ==> (#[trigger] rooms[i][j]).exit_flags()[BOTTOM as int]
            == rooms[i + 1][j].exit_flags()[TOP as int]
}

/// No exit leads off the map.
pub open spec fn boundary_closed(rooms: Seq<Seq<Room>>, h: int, w: int) -> bool {
    forall|i: int, j: int|
        0 <= i < h && 0 <= j < w ==> {
            &&& (i == 0 ==> !(#[trigger] rooms[i][j]).exit_flags()[TOP as int])
            &&& (i == h - 1 ==> !rooms[i][j].exit_flags()[BOTTOM as int])
            &&& (j == 0 ==> !rooms[i][j].exit_flags()[LEFT as int])
            &&& (j == w - 1 ==> !rooms[i][j].exit_flags()[RIGHT as int])
        }
}

/// The rooms left of and above the centre open onto it.
pub open spec fn center_reachable(rooms: Seq<Seq<Room>>, h: int, w: int) -> bool {
    &&& rooms[center_row(h)][center_col(w) - 1].exit_flags()[RIGHT as int]
    &&& rooms[center_row(h) - 1][center_col(w)].exit_flags()[BOTTOM as int]
}

/// The grid of rooms a map is generated from: its sizes, its exit draws and,
/// for each cell, the draws of its content.
pub open spec fn draws_fit(
    h: int,
    w: int,
    exit_draws: Seq<Vec<ExitDraw>>,
    room_draws: Seq<Vec<RoomDraws>>,
) -> bool {
    &&& exit_draws.len() == h
    &&& room_draws.len() == h
    &&& forall|i: int| 0 <= i < h ==> (#[trigger] exit_draws[i]).len() == w
    &&& forall|i: int| 0 <= i < h ==> (#[trigger] room_draws[i]).len() == w
    &&& forall|i: int, j: int|
        0 <= i < h && 0 <= j < w ==> (#[trigger] room_draws[i]@[j]).rolls.len() == ROOM_CELLS
}

/// The room at cell (i, j) is the one the draws give: the starting layout at the
/// centre, a generated room elsewhere.
pub open spec fn room_as_drawn(
    room: Room,
    h: int,
    w: int,
    exit_draws: Seq<Vec<ExitDraw>>,
    room_draws: Seq<Vec<RoomDraws>>,
    start: Seq<Tile>,
    mode: Smoothing,
    i: int,
    j: int,
) -> bool {
    &&& room.wf()
    &&& room.exit_flags() == exits_at(h, w, exit_draws, i, j)
    &&& room.seeds() == room_draws[i]@[j].seeds@
    &&& room.tiles() == if is_center(h, w, i, j) {
        start
    } else {
        room_layout(
            exits_at(h, w, exit_draws, i, j),
            room_draws[i]@[j].seeds@,
            room_draws[i]@[j].rolls@,
            mode,
        )
    }
}

/// Every room of the grid is the one its draws give.
#[verifier::opaque]
pub open spec fn map_as_drawn(
    rooms: Seq<Seq<Room>>,
    h: int,
    w: int,
    exit_draws: Seq<Vec<ExitDraw>>,
    room_draws: Seq<Vec<RoomDraws>>,
    start: Seq<Tile>,
    mode: Smoothing,
) -> bool {
    forall|i: int, j: int|
        0 <= i < h && 0 <= j < w ==> room_as_drawn(
            #[trigger] rooms[i][j],
            h,
            w,
            exit_draws,
            room_draws,
            start,
            mode,
            i,
            j,
        )
}

/// An exit draw for every cell of an h by w grid.
pub open spec fn exit_draws_fit(h: int, w: int, exit_draws: Seq<Vec<ExitDraw>>) -> bool {
    &&& exit_draws.len() == h
    &&& forall|i: int| 0 <= i < h ==> (#[trigger] exit_draws[i]).len() == w
}

/// Every room of the grid has the exits that the exit draws give its cell.
pub open spec fn exits_as_drawn(rooms: Seq<Seq<Room>>, h: int, w: int, exit_draws: Seq<Vec<ExitDraw>>) -> bool {
    forall|i: int, j: int|
        0 <= i < h && 0 <= j < w ==> (#[trigger] rooms[i][j]).exit_flags() == exits_at(h, w, exit_draws, i, j)
}

/// The exits of the grid are those that some grid of exit draws gives it.
#[verifier::opaque]
pub open spec fn exits_from_some_draws(rooms: Seq<Seq<Room>>, h: int, w: int) -> bool {
    exists|ed: Seq<Vec<ExitDraw>>| exit_draws_fit(h, w, ed) && #[trigger] exits_as_drawn(rooms, h, w, ed)
}

/// Every room but the centre is generated from valid draws.
#[verifier::opaque]
pub open spec fn rooms_generated(rooms: Seq<Seq<Room>>, h: int, w: int, mode: Smoothing) -> bool {
    forall|i: int, j: int|
        0 <= i < h && 0 <= j < w && !is_center(h, w, i, j) ==> generated_room(
            #[trigger] rooms[i][j],
            mode,
        )
}

/// A grid of rooms, with the coordinates of the room the player is in.
#[derive(Clone, Debug)]
pub struct LevelMap {
    map_coords: Vec<Vec<Room>>,
    pub x_coords: usize,
    pub y_coords: usize,
}

impl LevelMap {
    pub closed spec fn rooms(&self) -> Seq<Seq<Room>> {
        self.map_coords@.map_values(|row: Vec<Room>| row@)
    }

    pub closed spec fn current_col(&self) -> int {
        self.x_coords as int
    }

    pub closed spec fn current_row(&self) -> int {
        self.y_coords as int
    }

    pub open spec fn height(&self) -> int {
        self.rooms().len() as int
    }

    pub open spec fn width(&self) -> int {
        self.rooms()[0].len() as int
    }

    pub open spec fn wf(&self) -> bool {
        &&& self.height() > 0
        &&& forall|i: int| 0 <= i < self.height() ==> (#[trigger] self.rooms()[i]).len() == self.width()
        &&& forall|i: int, j: int|
            0 <= i < self.height() && 0 <= j < self.width() ==> (#[trigger] self.rooms()[i][j]).wf()
        &&& 0 <= self.current_col() < self.width()
        &&& 0 <= self.current_row() < self.height()
    }

    /// A full-size map of open rooms with every exit open, sharing one draw of
    /// seed walls, with the player in the top-left room.
    pub fn new() -> (m: LevelMap)
        ensures
            m.wf(),
            m.height() == MAP_HEIGHT,
            m.width() == MAP_WIDTH,
            m.current_row() == 0,
            m.current_col() == 0,
            forall|i: int, j: int|
                0 <= i < MAP_HEIGHT && 0 <= j < MAP_WIDTH ==> {
                    &&& (#[trigger] m.rooms()[i][j]).exit_flags() == seq![true, true, true, true]
                    &&& m.rooms()[i][j].tiles() == Seq::new(ROOM_CELLS as nat, |k: int| Tile::Open)
                    &&& m.rooms()[i][j].seeds() == m.rooms()[0][0].seeds()
                },
            seeds_valid(m.rooms()[0][0].seeds()),
    {
        let seeds = gen_seed_wall_locations();
        let mut rows: Vec<Vec<Room>> = Vec::new();
        while rows.len() < MAP_HEIGHT
            invariant
                rows.len() <= MAP_HEIGHT,
                forall|r: int| 0 <= r < rows.len() ==> (#[trigger] rows@[r]).len() == MAP_WIDTH,
                forall|r: int, c: int|
                    0 <= r < rows.len() && 0 <= c < MAP_WIDTH ==> {
                        &&& (#[trigger] rows@[r]@[c]).wf()
                        &&& rows@[r]@[c].exit_flags() == seq![true, true, true, true]
                        &&& rows@[r]@[c].tiles() == Seq::new(ROOM_CELLS as nat, |k: int| Tile::Open)
                        &&& rows@[r]@[c].seeds() == seeds@
                    },
                seeds_valid(seeds@),
            decreases MAP_HEIGHT - rows.len(),
        {
            let mut row: Vec<Room> = Vec::new();
            while row.len() < MAP_WIDTH
                invariant
                    row.len() <= MAP_WIDTH,
                    forall|c: int|
                        0 <= c < row.len() ==> {
                            &&& (#[trigger] row@[c]).wf()
                            &&& row@[c].exit_flags() == seq![true, true, true, true]
                            &&& row@[c].tiles() == Seq::new(ROOM_CELLS as nat, |k: int| Tile::Open)
                            &&& row@[c].seeds() == seeds@
                        },
                decreases MAP_WIDTH - row.len(),
            {
                let room = Room::with_seeds([true, true, true, true], copy_seeds(&seeds));
                assert(room.exit_flags() =~= seq![true, true, true, true]);
                row.push(room);
            }
            rows.push(row);
        }
        let m = LevelMap { map_coords: rows, x_coords: 0, y_coords: 0 };
        assert forall|r: int| 0 <= r < MAP_HEIGHT implies #[trigger] m.rooms()[r] == rows@[r]@ by {}
        m
    }

    /// Moves the player to the room at a row and column of the map.
    pub fn move_to(&mut self, row: usize, col: usize)
        requires
            old(self).wf(),
            row < old(self).height(),
            col < old(self).width(),
        ensures
            final(self).wf(),
            final(self).rooms() == old(self).rooms(),
            final(self).current_row() == row,
            final(self).current_col() == col,
    {
        self.y_coords = row;
        self.x_coords = col;
    }

    /// Rows of rooms in the map.
    pub fn num_rows(&self) -> (n: usize)
        ensures
            n == self.height(),
    {
        self.map_coords.len()
    }

    /// Columns of rooms in the map.
    pub fn num_cols(&self) -> (n: usize)
        requires
            self.wf(),
        ensures
            n == self.width(),
    {
        assert(self.rooms()[0] == self.map_coords@[0]@);
        self.map_coords[0].len()
    }

    /// The room at a row and column of the map.
    pub fn room(&self, row: usize, col: usize) -> (r: &Room)
        requires
            self.wf(),
            row < self.height(),
            col < self.width(),
        ensures
            *r == self.rooms()[row as int][col as int],
    {
        assert(self.rooms()[row as int] == self.map_coords@[row as int]@);
        &self.map_coords[row][col]
    }

    /// The room the player is in.
    pub fn current_room(&self) -> (r: &Room)
        requires
            self.wf(),
        ensures
            *r == self.rooms()[self.current_row()][self.current_col()],
    {
        assert(self.rooms()[self.current_row()] == self.map_coords@[self.current_row()]@);
        &self.map_coords[self.y_coords][self.x_coords]
    }
}

/// The exits of the planned grid meet the map's laws: neighbours agree, no exit
/// leads off the map, and the centre is open from the left and from above.
pub proof fn lemma_exit_plan_laws(h: int, w: int, d: Seq<Vec<ExitDraw>>)
    requires
        h >= 3,
        w >= 3,
    ensures
        forall|i: int, j: int|
            0 <= i < h && 0 <= j < w - 1 ==> (#[trigger] exits_at(h, w, d, i, j))[RIGHT as int]
                == exits_at(h, w, d, i, j + 1)[LEFT as int],
        forall|i: int, j: int|
            0 <= i < h - 1 && 0 <= j < w ==> (#[trigger] exits_at(h, w, d, i, j))[BOTTOM as int]
                == exits_at(h, w, d, i + 1, j)[TOP as int],
        forall|i: int, j: int|
            0 <= i < h && 0 <= j < w ==> {
                &&& (i == 0 ==> !(#[trigger] exits_at(h, w, d, i, j))[TOP as int])
                &&& (i == h - 1 ==> !exits_at(h, w, d, i, j)[BOTTOM as int])
                &&& (j == 0 ==> !exits_at(h, w, d, i, j)[LEFT as int])
                &&& (j == w - 1 ==> !exits_at(h, w, d, i, j)[RIGHT as int])
            },
        exits_at(h, w, d, center_row(h), center_col(w) - 1)[RIGHT as int],
        exits_at(h, w, d, center_row(h) - 1, center_col(w))[BOTTOM as int],
{
}

/// The exits of a planned map depend on its exit draws alone: two draw grids
/// that agree on them give the same exits to every cell, whatever the content
/// draws.
pub proof fn lemma_exits_follow_exit_draws(
    h: int,
    w: int,
    d1: Seq<Vec<ExitDraw>>,
    d2: Seq<Vec<ExitDraw>>,
    i: int,
    j: int,
)
    requires
        d1.len() == h,
        d2.len() == h,
        forall|r: int| 0 <= r < h ==> (#[trigger] d1[r])@ == d2[r]@,
        0 <= i < h,
        0 <= j < w,
    ensures
        exits_at(h, w, d1, i, j) == exits_at(h, w, d2, i, j),
{
    if i > 0 {
        assert(d1[i - 1]@ == d2[i - 1]@);
    }
    assert(d1[i]@ == d2[i]@);
}

/// Generation is determined by its draws: two grids that are each what the
/// same draws, starting layout and smoothing mode give have, room for room, the
/// same exits and the same tiles.
pub proof fn lemma_same_draws_same_map(
    a: Seq<Seq<Room>>,
    b: Seq<Seq<Room>>,
    h: int,
    w: int,
    exit_draws: Seq<Vec<ExitDraw>>,
    room_draws: Seq<Vec<RoomDraws>>,
    start: Seq<Tile>,
    mode: Smoothing,
)
    requires
        map_as_drawn(a, h, w, exit_draws, room_draws, start, mode),
        map_as_drawn(b, h, w, exit_draws, room_draws, start, mode),
    ensures
        forall|i: int, j: int|
            0 <= i < h && 0 <= j < w ==> (#[trigger] a[i][j]).exit_flags() == b[i][j].exit_flags()
                && a[i][j].tiles() == b[i][j].tiles(),
{
    reveal(map_as_drawn);
    assert forall|i: int, j: int| 0 <= i < h && 0 <= j < w implies (#[trigger] a[i][j]).exit_flags()
        == b[i][j].exit_flags() && a[i][j].tiles() == b[i][j].tiles() by {
        assert(room_as_drawn(a[i][j], h, w, exit_draws, room_draws, start, mode, i, j));
        assert(room_as_drawn(b[i][j], h, w, exit_draws, room_draws, start, mode, i, j));
    }
}

proof fn lemma_rooms_laws(
    rooms: Seq<Seq<Room>>,
    h: int,
    w: int,
    d: Seq<Vec<ExitDraw>>,
)
    requires
        h >= 3,
        w >= 3,
        rooms.len() == h,
        forall|i: int| 0 <= i < h ==> (#[trigger] rooms[i]).len() == w,
        forall|i: int, j: int|
            0 <= i < h && 0 <= j < w ==> (#[trigger] rooms[i][j]).exit_flags() == exits_at(h, w, d, i, j),
    ensures
        exits_consistent(rooms, h, w),
        boundary_closed(rooms, h, w),
        center_reachable(rooms, h, w),
{
    lemma_exit_plan_laws(h, w, d);
    assert forall|i: int, j: int| 0 <= i < h && 0 <= j < w - 1 implies (#[trigger] rooms[i][j]).exit_flags()[RIGHT as int]
            == rooms[i][j + 1].exit_flags()[LEFT as int] by {
        assert(rooms[i][j + 1].exit_flags() == exits_at(h, w, d, i, j + 1));
    }
    assert forall|i: int, j: int| 0 <= i < h - 1 && 0 <= j < w implies (#[trigger] rooms[i][j]).exit_flags()[BOTTOM as int]
            == rooms[i + 1][j].exit_flags()[TOP as int] by {
        assert(rooms[i + 1][j].exit_flags() == exits_at(h, w, d, i + 1, j));
    }
    assert(rooms[center_row(h)][center_col(w) - 1].exit_flags() == exits_at(h, w, d, center_row(h), center_col(w) - 1));
    assert(rooms[center_row(h) - 1][center_col(w)].exit_flags() == exits_at(h, w, d, center_row(h) - 1, center_col(w)));
}

fn copy_seeds(seeds: &Vec<usize>) -> (c: Vec<usize>)
    ensures
        c@ == seeds@,
{
    let mut c: Vec<usize> = Vec::new();
    let mut k: usize = 0;
    while k < seeds.len()
        invariant
            k <= seeds.len(),
            c@ == seeds@.subrange(0, k as int),
        decreases seeds.len() - k,
    {
        c.push(seeds[k]);
        k += 1;
        assert(c@ =~= seeds@.subrange(0, k as int));
    }
    assert(c@ =~= seeds@);
    c
}

/// Builds a map from its draws in one pass, row by row and left to right: each
/// cell takes its top and left exits from the rooms already built above and to
/// its left, and the centre takes the starting layout.
pub fn build_map(
    height: usize,
    width: usize,
    exit_draws: &Vec<Vec<ExitDraw>>,
    room_draws: &Vec<Vec<RoomDraws>>,
    start: &Vec<Tile>,
    mode: Smoothing,
) -> (m: LevelMap)
    requires
        height >= 3,
        width >= 3,
        draws_fit(height as int, width as int, exit_draws@, room_draws@),
        start.len() == ROOM_CELLS,
    ensures
        m.wf(),
        m.height() == height,
        m.width() == width,
        m.current_row() == center_row(height as int),
        m.current_col() == center_col(width as int),
        map_as_drawn(m.rooms(), height as int, width as int, exit_draws@, room_draws@, start@, mode),
        exits_consistent(m.rooms(), height as int, width as int),
        boundary_closed(m.rooms(), height as int, width as int),
        center_reachable(m.rooms(), height as int, width as int),
{
    let ghost h = height as int;
    let ghost w = width as int;
    let ghost ed = exit_draws@;
    let ghost rd = room_draws@;
    let mid_row = (height - 1) / 2;
    let mid_col = (width - 1) / 2;
    let mut rows: Vec<Vec<Room>> = Vec::new();
    let mut i: usize = 0;
    while i < height
        invariant
            h == height,
            w == width,
            ed == exit_draws@,
            rd == room_draws@,
            height >= 3,
            width >= 3,
            mid_row == center_row(h),
            mid_col == center_col(w),
            draws_fit(h, w, ed, rd),
            start.len() == ROOM_CELLS,
            i <= height,
            rows.len() == i,
            forall|r: int| 0 <= r < i ==> (#[trigger] rows@[r]).len() == width,
            forall|r: int, c: int|
                0 <= r < i && 0 <= c < width ==> room_as_drawn(
                    #[trigger] rows@[r]@[c],
                    h,
                    w,
                    ed,
                    rd,
                    start@,
                    mode,
                    r,
                    c,
                ),
        decreases height - i,
    {
        let mut row: Vec<Room> = Vec::new();
        let mut j: usize = 0;
        while j < width
            invariant
                h == height,
                w == width,
                ed == exit_draws@,
                rd == room_draws@,
                height >= 3,
                width >= 3,
                mid_row == center_row(h),
                mid_col == center_col(w),
                draws_fit(h, w, ed, rd),
                start.len() == ROOM_CELLS,
                i < height,
                rows.len() == i,
                forall|r: int| 0 <= r < i ==> (#[trigger] rows@[r]).len() == width,
                forall|r: int, c: int|
                    0 <= r < i && 0 <= c < width ==> room_as_drawn(
                        #[trigger] rows@[r]@[c],
                        h,
                        w,
                        ed,
                        rd,
                        start@,
                        mode,
                        r,
                        c,
                    ),
                j <= width,
                row.len() == j,
                forall|c: int|
                    0 <= c < j ==> room_as_drawn(
                        #[trigger] row@[c],
                        h,
                        w,
                        ed,
                        rd,
                        start@,
                        mode,
                        i as int,
                        c,
                    ),
            decreases width - j,
        {
            assert(ed[i as int].len() == w);
            assert(rd[i as int].len() == w);
            let draws = &room_draws[i][j];
            let seeds = copy_seeds(&draws.seeds);
            if i == mid_row && j == mid_col {
                let layout = copy_tiles(start);
                let room = Room::with_seeds([true, true, true, true], seeds).with_tiles(layout);
                assert(room.exit_flags() =~= exits_at(h, w, ed, i as int, j as int));
                row.push(room);
            } else {
                let drawn = exit_draws[i][j];
                let mut bottom = drawn.bottom;
                let mut right = drawn.right;
                if i == mid_row && j == mid_col - 1 {
                    right = true;
                }
                if j == mid_col && i == mid_row - 1 {
                    bottom = true;
                }
                let top = if i > 0 {
                    assert(room_as_drawn(rows@[i - 1]@[j as int], h, w, ed, rd, start@, mode, i - 1, j as int));
                    rows[i - 1][j].exits()[BOTTOM]
                } else {
                    false
                };
                let left = if j > 0 {
                    assert(room_as_drawn(row@[j - 1], h, w, ed, rd, start@, mode, i as int, j - 1));
                    row[j - 1].exits()[RIGHT]
                } else {
                    false
                };
                if i == height - 1 {
                    bottom = false;
                }
                if j == width - 1 {
                    right = false;
                }
                let exits = [left, right, top, bottom];
                assert(exits@ =~= exits_at(h, w, ed, i as int, j as int));
                let blank = Room::with_seeds(exits, seeds);
                let room = build_room(blank, &draws.rolls, mode);
                row.push(room);
            }
            j += 1;
        }
        rows.push(row);
        i += 1;
    }
    let m = LevelMap { map_coords: rows, x_coords: mid_col, y_coords: mid_row };
    assert forall|r: int| 0 <= r < h implies #[trigger] m.rooms()[r] == rows@[r]@ by {}
    proof {
        lemma_rooms_laws(m.rooms(), h, w, ed);
        reveal(map_as_drawn);
    }
    m
}

/// Every draw is one the random source can give.
pub open spec fn draws_valid(h: int, w: int, room_draws: Seq<Vec<RoomDraws>>) -> bool {
    forall|i: int, j: int|
        0 <= i < h && 0 <= j < w ==> seeds_valid((#[trigger] room_draws[i]@[j]).seeds@)
            && rolls_valid(room_draws[i]@[j].rolls@)
}

/// A room generated at random for a cell: laid out from valid draws, its ring
/// closed but for its open exits.
pub open spec fn generated_room(room: Room, mode: Smoothing) -> bool {
    &&& room.wf()
    &&& seeds_valid(room.seeds())
    &&& exists|rolls: Seq<FeatureRolls>|
        rolls_valid(rolls) && room.tiles() == #[trigger] room_layout(
            room.exit_flags(),
            room.seeds(),
            rolls,
            mode,
        )
    &&& border_contained(room.exit_flags(), room.tiles())
}

/// Draws the exits and the content of every cell of a map of the given size.
fn draw_map(height: usize, width: usize) -> (r: (Vec<Vec<ExitDraw>>, Vec<Vec<RoomDraws>>))
    ensures
        draws_fit(height as int, width as int, r.0@, r.1@),
        draws_valid(height as int, width as int, r.1@),
{
    let mut exit_draws: Vec<Vec<ExitDraw>> = Vec::new();
    let mut room_draws: Vec<Vec<RoomDraws>> = Vec::new();
    let mut i: usize = 0;
    while i < height
        invariant
            i <= height,
            exit_draws.len() == i,
            room_draws.len() == i,
            forall|r: int| 0 <= r < i ==> (#[trigger] exit_draws@[r]).len() == width,
            forall|r: int| 0 <= r < i ==> (#[trigger] room_draws@[r]).len() == width,
            forall|r: int, c: int|
                0 <= r < i && 0 <= c < width ==> (#[trigger] room_draws@[r]@[c]).rolls.len()
                    == ROOM_CELLS && seeds_valid(room_draws@[r]@[c].seeds@) && rolls_valid(
                    room_draws@[r]@[c].rolls@,
                ),
        decreases height - i,
    {
        let mut exit_row: Vec<ExitDraw> = Vec::new();
        let mut room_row: Vec<RoomDraws> = Vec::new();
        let mut j: usize = 0;
        while j < width
            invariant
                j <= width,
                exit_row.len() == j,
                room_row.len() == j,
                forall|c: int|
                    0 <= c < j ==> (#[trigger] room_row@[c]).rolls.len() == ROOM_CELLS
                        && seeds_valid(room_row@[c].seeds@) && rolls_valid(room_row@[c].rolls@),
            decreases width - j,
        {
            let bottom = random_below(2) == 1;
            let right = random_below(2) == 1;
            exit_row.push(ExitDraw { bottom, right });
            let seeds = gen_seed_wall_locations();
            let rolls = gen_feature_rolls();
            room_row.push(RoomDraws { seeds, rolls });
            j += 1;
        }
        exit_draws.push(exit_row);
        room_draws.push(room_row);
        i += 1;
    }
    (exit_draws, room_draws)
}

proof fn lemma_drawn_room_generated(
    room: Room,
    h: int,
    w: int,
    exit_draws: Seq<Vec<ExitDraw>>,
    room_draws: Seq<Vec<RoomDraws>>,
    start: Seq<Tile>,
    mode: Smoothing,
    i: int,
    j: int,
)
    requires
        0 <= i < h,
        0 <= j < w,
        !is_center(h, w, i, j),
        draws_valid(h, w, room_draws),
        room_as_drawn(room, h, w, exit_draws, room_draws, start, mode, i, j),
    ensures
        generated_room(room, mode),
{
    assert(seeds_valid(room_draws[i]@[j].seeds@));
    let rolls = room_draws[i]@[j].rolls@;
    assert(rolls_valid(rolls) && room.tiles() == room_layout(
        room.exit_flags(),
        room.seeds(),
        rolls,
        mode,
    ));
    lemma_finished_border_contained(
        room.exit_flags(),
        crate::room::smoothed(
            mode,
            crate::room::initial_layout(room.exit_flags(), room.seeds(), rolls),
            crate::room::SMOOTHING_PASSES as nat,
        ),
    );
}

proof fn lemma_drawn_map_generated(
    rooms: Seq<Seq<Room>>,
    h: int,
    w: int,
    exit_draws: Seq<Vec<ExitDraw>>,
    room_draws: Seq<Vec<RoomDraws>>,
    start: Seq<Tile>,
    mode: Smoothing,
)
    requires
        h >= 3,
        w >= 3,
        draws_valid(h, w, room_draws),
        draws_fit(h, w, exit_draws, room_draws),
        map_as_drawn(rooms, h, w, exit_draws, room_draws, start, mode),
    ensures
        rooms[center_row(h)][center_col(w)].tiles() == start,
        rooms[center_row(h)][center_col(w)].exit_flags() == seq![true, true, true, true],
        rooms_generated(rooms, h, w, mode),
        exits_from_some_draws(rooms, h, w),
{
    reveal(map_as_drawn);
    reveal(rooms_generated);
    reveal(exits_from_some_draws);
    assert(room_as_drawn(rooms[center_row(h)][center_col(w)], h, w, exit_draws, room_draws, start, mode, center_row(h), center_col(w)));
    assert forall|i: int, j: int| 0 <= i < h && 0 <= j < w implies (#[trigger] rooms[i][j]).exit_flags()
        == exits_at(h, w, exit_draws, i, j) by {
        assert(room_as_drawn(rooms[i][j], h, w, exit_draws, room_draws, start, mode, i, j));
    }
    assert forall|i: int, j: int| 0 <= i < h && 0 <= j < w && !is_center(h, w, i, j) implies generated_room(
        #[trigger] rooms[i][j],
        mode,
    ) by {
        lemma_drawn_room_generated(rooms[i][j], h, w, exit_draws, room_draws, start, mode, i, j);
    }
    assert(exit_draws_fit(h, w, exit_draws));
    assert(exits_as_drawn(rooms, h, w, exit_draws));
}

/// Generates a map of the given size at random, with the starting room read
/// from its layout text at the centre and the player there; `mode` chooses how
/// the smoothing passes read the grid. Each room's exits are those that some
/// grid of exit draws gives it.
#[verifier::spinoff_prover]
#[verifier::rlimit(40)]
pub fn generate_map_sized(
    height: usize,
    width: usize,
    start_text: &Vec<char>,
    mode: Smoothing,
) -> (m: LevelMap)
    requires
        height >= 3,
        width >= 3,
    ensures
        m.wf(),
        m.height() == height,
        m.width() == width,
        m.current_row() == center_row(height as int),
        m.current_col() == center_col(width as int),
        exits_consistent(m.rooms(), height as int, width as int),
        boundary_closed(m.rooms(), height as int, width as int),
        center_reachable(m.rooms(), height as int, width as int),
        m.rooms()[center_row(height as int)][center_col(width as int)].tiles() == text_layout(
            start_text@,
        ),
        m.rooms()[center_row(height as int)][center_col(width as int)].exit_flags() == seq![
            true,
            true,
            true,
            true,
        ],
        rooms_generated(m.rooms(), height as int, width as int, mode),
        exits_from_some_draws(m.rooms(), height as int, width as int),
{
    let start = parse_layout(start_text);
    let (exit_draws, room_draws) = draw_map(height, width);
    let m = build_map(height, width, &exit_draws, &room_draws, &start, mode);
    proof {
        lemma_drawn_map_generated(m.rooms(), height as int, width as int, exit_draws@, room_draws@, start@, mode);
    }
    m
}

/// Generates the full-size map at random.
#[verifier::spinoff_prover]
#[verifier::rlimit(40)]
pub fn generate_map(start_text: &Vec<char>) -> (m: LevelMap)
    ensures
        m.wf(),
        m.height() == MAP_HEIGHT,
        m.width() == MAP_WIDTH,
        m.current_row() == center_row(MAP_HEIGHT as int),
        m.current_col() == center_col(MAP_WIDTH as int),
        exits_consistent(m.rooms(), MAP_HEIGHT as int, MAP_WIDTH as int),
        boundary_closed(m.rooms(), MAP_HEIGHT as int, MAP_WIDTH as int),
        center_reachable(m.rooms(), MAP_HEIGHT as int, MAP_WIDTH as int),
        m.rooms()[center_row(MAP_HEIGHT as int)][center_col(MAP_WIDTH as int)].tiles()
            == text_layout(start_text@),
        m.rooms()[center_row(MAP_HEIGHT as int)][center_col(MAP_WIDTH as int)].exit_flags()
            == seq![true, true, true, true],
        rooms_generated(m.rooms(), MAP_HEIGHT as int, MAP_WIDTH as int, Smoothing::InPlace),
        exits_from_some_draws(m.rooms(), MAP_HEIGHT as int, MAP_WIDTH as int),
{
    generate_map_sized(MAP_HEIGHT, MAP_WIDTH, start_text, Smoothing::InPlace)
}

/// Rooms in a full-size map.
pub const MAP_ROOMS: usize = MAP_WIDTH * MAP_HEIGHT;

/// How many room separators `!` come before character p.
pub open spec fn separators_before(t: Seq<char>, p: int) -> int
    decreases p,
{
    if p <= 0 {
        0
    } else {
        separators_before(t, p - 1) + if t[p - 1] == '!' {
            1int
        } else {
            0int
        }
    }
}

/// The room, in row-major order, that character p of a map text belongs to:
/// each `!` closes a room, and the last room takes everything past the end.
pub open spec fn room_of_char(t: Seq<char>, p: int) -> int {
    let b = separators_before(t, p);
    if b < MAP_ROOMS - 1 {
        b
    } else {
        MAP_ROOMS - 1
    }
}

pub open spec fn lands_in_room(t: Seq<char>, p: int, n: int, k: int) -> bool {
    t[p] != '!' && lands_on(t, p, k) && room_of_char(t, p) == n
}

/// The last of the first m characters that lands on cell k of room n, or -1.
pub open spec fn last_in_room(t: Seq<char>, m: int, n: int, k: int) -> int
    decreases m,
{
    if m <= 0 {
        -1
    } else if lands_in_room(t, m - 1, n, k) {
        m - 1
    } else {
        last_in_room(t, m - 1, n, k)
    }
}

pub open spec fn map_cell_after(t: Seq<char>, m: int, n: int, k: int) -> Tile {
    let p = last_in_room(t, m, n, k);
    if p < 0 {
        Tile::Open
    } else {
        tile_of(t[p])
    }
}

/// The tiles of room n of a map text: rooms are laid out as the starting room
/// is, one after another, with lines counted across the whole text.
pub open spec fn map_text_room(t: Seq<char>, n: int) -> Seq<Tile> {
    Seq::new(ROOM_CELLS as nat, |k: int| map_cell_after(t, t.len() as int, n, k))
}

fn open_cells() -> (cells: Vec<Tile>)
    ensures
        cells@ == Seq::new(ROOM_CELLS as nat, |k: int| Tile::Open),
{
    let mut cells: Vec<Tile> = Vec::new();
    while cells.len() < ROOM_CELLS
        invariant
            cells.len() <= ROOM_CELLS,
            cells@ == Seq::new(cells.len() as nat, |k: int| Tile::Open),
        decreases ROOM_CELLS - cells.len(),
    {
        cells.push(Tile::Open);
        assert(cells@ =~= Seq::new(cells.len() as nat, |k: int| Tile::Open));
    }
    cells
}

fn copy_tiles(tiles: &Vec<Tile>) -> (c: Vec<Tile>)
    ensures
        c@ == tiles@,
{
    let mut c: Vec<Tile> = Vec::new();
    let mut k: usize = 0;
    while k < tiles.len()
        invariant
            k <= tiles.len(),
            c@ == tiles@.subrange(0, k as int),
        decreases tiles.len() - k,
    {
        c.push(tiles[k]);
        k += 1;
        assert(c@ =~= tiles@.subrange(0, k as int));
    }
    assert(c@ =~= tiles@);
    c
}

proof fn lemma_separators_grow(t: Seq<char>, a: int, b: int)
    requires
        0 <= a <= b,
    ensures
        separators_before(t, a) <= separators_before(t, b),
    decreases b - a,
{
    if a < b {
        lemma_separators_grow(t, a, b - 1);
    }
}

/// Characters from q on belong to later rooms than n, so they leave room n as
/// it stood at q.
proof fn lemma_room_closed(t: Seq<char>, q: int, m: int, n: int, k: int)
    requires
        0 <= q <= m,
        separators_before(t, q) > n,
        n < MAP_ROOMS - 1,
    ensures
        last_in_room(t, m, n, k) == last_in_room(t, q, n, k),
    decreases m - q,
{
    if q < m {
        lemma_room_closed(t, q, m - 1, n, k);
        lemma_separators_grow(t, q, m - 1);
    }
}

/// Splits a map text into the tiles of each room, in row-major order.
fn map_text_rooms(text: &Vec<char>) -> (rooms: Vec<Vec<Tile>>)
    ensures
        rooms.len() == MAP_ROOMS,
        forall|n: int| 0 <= n < MAP_ROOMS ==> (#[trigger] rooms@[n])@ == map_text_room(text@, n),
{
    let ghost t = text@;
    let mut done: Vec<Vec<Tile>> = Vec::new();
    let mut cur = open_cells();
    let mut line: usize = 0;
    let mut col: usize = 0;
    let mut p: usize = 0;
    while p < text.len()
        invariant
            t == text@,
            p <= text.len(),
            line == crate::layout::line_of(t, p as int),
            col == crate::layout::column_of(t, p as int),
            line <= p,
            col <= p,
            done.len() == room_of_char(t, p as int),
            cur.len() == ROOM_CELLS,
            forall|n: int| 0 <= n < done.len() ==> (#[trigger] done@[n])@ == map_text_room(t, n),
            forall|k: int|
                0 <= k < ROOM_CELLS ==> cur@[k] == map_cell_after(t, p as int, done.len() as int, k),
            forall|n: int, k: int|
                done.len() < n < MAP_ROOMS ==> #[trigger] last_in_room(t, p as int, n, k) == -1,
        decreases text.len() - p,
    {
        let c = text[p];
        proof {
            assert forall|n: int, k: int| !lands_in_room(t, p as int, n, k) implies #[trigger] last_in_room(
                t,
                p + 1,
                n,
                k,
            ) == last_in_room(t, p as int, n, k) by {}
            assert forall|n: int, k: int| n != done.len() implies !#[trigger] lands_in_room(t, p as int, n, k) by {}
        }
        if c == '\n' {
            line += 1;
            col = 0;
            proof {
                assert forall|n: int, k: int| !#[trigger] lands_in_room(t, p as int, n, k) by {}
            }
        } else if c == '!' {
            proof {
                assert forall|n: int, k: int| !#[trigger] lands_in_room(t, p as int, n, k) by {}
            }
            if done.len() < MAP_ROOMS - 1 {
                let ghost n = done.len() as int;
                assert forall|k: int| 0 <= k < ROOM_CELLS implies cur@[k] == map_text_room(t, n)[k] by {
                    lemma_room_closed(t, p + 1, t.len() as int, n, k);
                }
                assert(cur@ =~= map_text_room(t, n));
                done.push(cur);
                cur = open_cells();
            }
            col += 1;
        } else {
            let ends = c == '\r' && p + 1 < text.len() && text[p + 1] == '\n';
            if !ends {
                let r = line % ROOM_HEIGHT;
                let q = col % ROOM_WIDTH;
                let at = r * ROOM_WIDTH + q;
                cur.set(at, Tile::from_symbol(c));
                proof {
                    vstd::arithmetic::div_mod::lemma_fundamental_div_mod_converse(
                        at as int,
                        ROOM_WIDTH as int,
                        r as int,
                        q as int,
                    );
                    assert forall|k: int| 0 <= k < ROOM_CELLS implies cur@[k] == map_cell_after(
                        t,
                        p + 1,
                        done.len() as int,
                        k,
                    ) by {
                        vstd::arithmetic::div_mod::lemma_fundamental_div_mod(k, ROOM_WIDTH as int);
                        if lands_on(t, p as int, k) {
                            assert(k == at);
                        } else {
                            assert(k != at);
                        }
                    }
                }
            }
            col += 1;
        }
        p += 1;
    }
    let ghost last = done.len() as int;
    assert(cur@ =~= map_text_room(t, last));
    done.push(cur);
    while done.len() < MAP_ROOMS
        invariant
            t == text@,
            last < done.len() <= MAP_ROOMS,
            forall|n: int| 0 <= n < done.len() ==> (#[trigger] done@[n])@ == map_text_room(t, n),
            forall|n: int, k: int|
                last < n < MAP_ROOMS ==> #[trigger] last_in_room(t, t.len() as int, n, k) == -1,
        decreases MAP_ROOMS - done.len(),
    {
        let ghost n = done.len() as int;
        let cells = open_cells();
        assert(cells@ =~= map_text_room(t, n));
        done.push(cells);
    }
    done
}

/// Reads a whole map from a map text: room after room in row-major order, each
/// closed by a `!`, with every exit open and the player in the top-left room.
pub fn read_map(text: &Vec<char>) -> (m: LevelMap)
    ensures
        m.wf(),
        m.height() == MAP_HEIGHT,
        m.width() == MAP_WIDTH,
        m.current_row() == 0,
        m.current_col() == 0,
        forall|i: int, j: int|
            0 <= i < MAP_HEIGHT && 0 <= j < MAP_WIDTH ==> {
                &&& (#[trigger] m.rooms()[i][j]).exit_flags() == seq![true, true, true, true]
                &&& m.rooms()[i][j].tiles() == map_text_room(text@, i * MAP_WIDTH + j)
            },
{
    let tiles = map_text_rooms(text);
    let seeds = gen_seed_wall_locations();
    let mut rows: Vec<Vec<Room>> = Vec::new();
    while rows.len() < MAP_HEIGHT
        invariant
            rows.len() <= MAP_HEIGHT,
            tiles.len() == MAP_ROOMS,
            forall|n: int| 0 <= n < MAP_ROOMS ==> (#[trigger] tiles@[n])@ == map_text_room(text@, n),
            forall|r: int| 0 <= r < rows.len() ==> (#[trigger] rows@[r]).len() == MAP_WIDTH,
            forall|r: int, c: int|
                0 <= r < rows.len() && 0 <= c < MAP_WIDTH ==> {
                    &&& (#[trigger] rows@[r]@[c]).wf()
                    &&& rows@[r]@[c].exit_flags() == seq![true, true, true, true]
                    &&& rows@[r]@[c].tiles() == map_text_room(text@, r * MAP_WIDTH + c)
                },
        decreases MAP_HEIGHT - rows.len(),
    {
        let i = rows.len();
        let mut row: Vec<Room> = Vec::new();
        while row.len() < MAP_WIDTH
            invariant
                i < MAP_HEIGHT,
                row.len() <= MAP_WIDTH,
                tiles.len() == MAP_ROOMS,
                forall|n: int| 0 <= n < MAP_ROOMS ==> (#[trigger] tiles@[n])@ == map_text_room(text@, n),
                forall|c: int|
                    0 <= c < row.len() ==> {
                        &&& (#[trigger] row@[c]).wf()
                        &&& row@[c].exit_flags() == seq![true, true, true, true]
                        &&& row@[c].tiles() == map_text_room(text@, i * MAP_WIDTH + c)
                    },
            decreases MAP_WIDTH - row.len(),
        {
            let n = i * MAP_WIDTH + row.len();
            let cells = copy_tiles(&tiles[n]);
            let room = Room::with_seeds([true, true, true, true], copy_seeds(&seeds)).with_tiles(cells);
            assert(room.exit_flags() =~= seq![true, true, true, true]);
            row.push(room);
        }
        rows.push(row);
    }
    let m = LevelMap { map_coords: rows, x_coords: 0, y_coords: 0 };
    assert forall|r: int| 0 <= r < MAP_HEIGHT implies #[trigger] m.rooms()[r] == rows@[r]@ by {}
    m
}

} // verus!
