use vstd::prelude::*;
use crate::tile::{Tile, wall_like, feature};
use crate::random::random_below;

verus! {

/// Columns of a room.
pub const ROOM_WIDTH: usize = 16;
/// Rows of a room.
pub const ROOM_HEIGHT: usize = 9;
/// Cells of a room, stored row by row.
pub const ROOM_CELLS: usize = ROOM_WIDTH * ROOM_HEIGHT;
/// How many seed walls a room draws.
pub const SEED_WALLS: usize = 55;
/// A cell with at least this many wall-like neighbours becomes a wall.
pub const WALL_THRESHOLD: u32 = 5;
/// Smoothing passes run over each room.
pub const SMOOTHING_PASSES: u32 = 3;

/// Positions in a room's exit flags.
pub const LEFT: usize = 0;
pub const RIGHT: usize = 1;
pub const TOP: usize = 2;
pub const BOTTOM: usize = 3;

/// Each feature is one draw below its odds; it wins the cell when the draw
/// equals its hit value.
pub const ENEMY_ODDS: usize = 35;
pub const ENEMY_HIT: usize = 5;
pub const BOMB_ODDS: usize = 30;
pub const BOMB_HIT: usize = 10;
pub const DOOR_ODDS: usize = 100;
pub const DOOR_HIT: usize = 3;
pub const HEALTH_ODDS: usize = 50;
pub const HEALTH_HIT: usize = 5;

/// The draws made for one cell, one per sparse feature.
#[derive(Clone, Copy, Debug, PartialEq, Eq, Structural)]
pub struct FeatureRolls {
    pub enemy: usize,
    pub bomb: usize,
    pub door: usize,
    pub health: usize,
}

/// How a smoothing pass reads the grid it rewrites.
#[derive(Clone, Copy, Debug, PartialEq, Eq, Structural)]
pub enum Smoothing {
    /// Cells are rewritten in scan order, and later cells see the earlier
    /// ones already rewritten.
    InPlace,
    /// Every cell is decided from the grid as it stood before the pass.
    Buffered,
}

pub open spec fn row_of(k: int) -> int {
    k / (ROOM_WIDTH as int)
}

pub open spec fn col_of(k: int) -> int {
    k % (ROOM_WIDTH as int)
}

pub open spec fn idx(r: int, c: int) -> int {
    r * (ROOM_WIDTH as int) + c
}

pub open spec fn on_ring(r: int, c: int) -> bool {
    r == 0 || c == 0 || r == ROOM_HEIGHT - 1 || c == ROOM_WIDTH - 1
}

/// The cell lies on a side of the ring whose exit is closed.
pub open spec fn walled(exits: Seq<bool>, r: int, c: int) -> bool {
    (r == 0 && !exits[TOP as int]) || (c == 0 && !exits[LEFT as int]) || (r == ROOM_HEIGHT - 1
        && !exits[BOTTOM as int]) || (c == ROOM_WIDTH - 1 && !exits[RIGHT as int])
}

/// The cell lies on a side of the ring whose exit is open.
pub open spec fn gap(exits: Seq<bool>, r: int, c: int) -> bool {
    (r == 0 && exits[TOP as int]) || (c == 0 && exits[LEFT as int]) || (r == ROOM_HEIGHT - 1
        && exits[BOTTOM as int]) || (c == ROOM_WIDTH - 1 && exits[RIGHT as int])
}

/// The first feature, in the order enemy, bomb, door, health, whose draw hits.
pub open spec fn feature_of(f: FeatureRolls) -> Tile {
    if f.enemy == ENEMY_HIT {
        Tile::Enemy
    } else if f.bomb == BOMB_HIT {
        Tile::BombPickup
    } else if f.door == DOOR_HIT {
        Tile::Door
    } else if f.health == HEALTH_HIT {
        Tile::HealthPickup
    } else {
        Tile::Open
    }
}

/// A cell before smoothing: closed border first, then seed walls, then features
/// on what is still open.
pub open spec fn initial_tile(
    exits: Seq<bool>,
    seeds: Seq<usize>,
    rolls: Seq<FeatureRolls>,
    k: int,
) -> Tile {
    if walled(exits, row_of(k), col_of(k)) {
        Tile::UnbreakableWall
    } else if seeds.contains(k as usize) {
        Tile::BreakableWall
    } else {
        feature_of(rolls[k])
    }
}

pub open spec fn initial_layout(
    exits: Seq<bool>,
    seeds: Seq<usize>,
    rolls: Seq<FeatureRolls>,
) -> Seq<Tile> {
    Seq::new(ROOM_CELLS as nat, |k: int| initial_tile(exits, seeds, rolls, k))
}

pub open spec fn wall_at(g: Seq<Tile>, r: int, c: int) -> int {
    if wall_like(g[idx(r, c)]) {
        1
    } else {
        0
    }
}

/// Wall-like cells among the eight neighbours of (r, c).
pub open spec fn walls_around(g: Seq<Tile>, r: int, c: int) -> int {
    wall_at(g, r - 1, c - 1) + wall_at(g, r - 1, c) + wall_at(g, r - 1, c + 1) + wall_at(g, r, c - 1)
        + wall_at(g, r, c + 1) + wall_at(g, r + 1, c - 1) + wall_at(g, r + 1, c) + wall_at(
        g,
        r + 1,
        c + 1,
    )
}

pub open spec fn interior(r: int, c: int) -> bool {
    1 <= r < ROOM_HEIGHT - 1 && 1 <= c < ROOM_WIDTH - 1
}

/// The grid after the rule is applied to cell (r, c): a cell that is not a
/// feature becomes a wall when enough of its neighbours are walls.
pub open spec fn after_cell(g: Seq<Tile>, r: int, c: int) -> Seq<Tile> {
    if !feature(g[idx(r, c)]) && walls_around(g, r, c) >= WALL_THRESHOLD {
        g.update(idx(r, c), Tile::BreakableWall)
    } else {
        g
    }
}

/// Row r scanned in place up to, not including, column c.
pub open spec fn sweep_row(g: Seq<Tile>, r: int, c: int) -> Seq<Tile>
    decreases c,
{
    if c <= 1 {
        g
    } else {
        after_cell(sweep_row(g, r, c - 1), r, c - 1)
    }
}

/// Interior rows scanned in place up to, not including, row r.
pub open spec fn sweep_rows(g: Seq<Tile>, r: int) -> Seq<Tile>
    decreases r,
{
    if r <= 1 {
        g
    } else {
        sweep_row(sweep_rows(g, r - 1), r - 1, ROOM_WIDTH - 1)
    }
}

pub open spec fn buffered_pass(g: Seq<Tile>) -> Seq<Tile> {
    Seq::new(
        g.len(),
        |k: int|
            if interior(row_of(k), col_of(k)) && !feature(g[k]) && walls_around(
                g,
                row_of(k),
                col_of(k),
            ) >= WALL_THRESHOLD {
                Tile::BreakableWall
            } else {
                g[k]
            },
    )
}

pub open spec fn smoothing_pass(mode: Smoothing, g: Seq<Tile>) -> Seq<Tile> {
    match mode {
        Smoothing::InPlace => sweep_rows(g, ROOM_HEIGHT - 1),
        Smoothing::Buffered => buffered_pass(g),
    }
}

pub open spec fn smoothed(mode: Smoothing, g: Seq<Tile>, n: nat) -> Seq<Tile>
    decreases n,
{
    if n == 0 {
        g
    } else {
        smoothing_pass(mode, smoothed(mode, g, (n - 1) as nat))
    }
}

/// The border rule applied once more: closed sides walled, open sides cleared.
pub open spec fn finished(exits: Seq<bool>, g: Seq<Tile>) -> Seq<Tile> {
    Seq::new(
        ROOM_CELLS as nat,
        |k: int|
            if walled(exits, row_of(k), col_of(k)) {
                Tile::UnbreakableWall
            } else if gap(exits, row_of(k), col_of(k)) {
                Tile::Open
            } else {
                g[k]
            },
    )
}

/// The tiles of a room generated from its exits and its draws.
pub open spec fn room_layout(
    exits: Seq<bool>,
    seeds: Seq<usize>,
    rolls: Seq<FeatureRolls>,
    mode: Smoothing,
) -> Seq<Tile> {
    finished(
        exits,
        smoothed(mode, initial_layout(exits, seeds, rolls), SMOOTHING_PASSES as nat),
    )
}

/// Every cell of the ring is an unbreakable wall or an open gap on a side whose
/// exit is open.
pub open spec fn border_contained(exits: Seq<bool>, g: Seq<Tile>) -> bool {
    forall|k: int|
        0 <= k < ROOM_CELLS && on_ring(row_of(k), col_of(k)) ==> g[k] == Tile::UnbreakableWall
            || (gap(exits, row_of(k), col_of(k)) && g[k] == Tile::Open)
}

fn is_walled(exits: &[bool; 4], r: usize, c: usize) -> (b: bool)
    ensures
        b == walled(exits@, r as int, c as int),
{
    (r == 0 && !exits[TOP]) || (c == 0 && !exits[LEFT]) || (r == ROOM_HEIGHT - 1 && !exits[BOTTOM])
        || (c == ROOM_WIDTH - 1 && !exits[RIGHT])
}

fn is_gap(exits: &[bool; 4], r: usize, c: usize) -> (b: bool)
    ensures
        b == gap(exits@, r as int, c as int),
{
    (r == 0 && exits[TOP]) || (c == 0 && exits[LEFT]) || (r == ROOM_HEIGHT - 1 && exits[BOTTOM])
        || (c == ROOM_WIDTH - 1 && exits[RIGHT])
}

fn feature_tile(f: &FeatureRolls) -> (t: Tile)
    ensures
        t == feature_of(*f),
{
    if f.enemy == ENEMY_HIT {
        Tile::Enemy
    } else if f.bomb == BOMB_HIT {
        Tile::BombPickup
    } else if f.door == DOOR_HIT {
        Tile::Door
    } else if f.health == HEALTH_HIT {
        Tile::HealthPickup
    } else {
        Tile::Open
    }
}

fn is_seed(seeds: &Vec<usize>, k: usize) -> (b: bool)
    ensures
        b == seeds@.contains(k),
{
    let mut i: usize = 0;
    while i < seeds.len()
        invariant
            i <= seeds.len(),
            forall|m: int| 0 <= m < i ==> seeds@[m] != k,
        decreases seeds.len() - i,
    {
        if seeds[i] == k {
            assert(seeds@[i as int] == k);
            return true;
        }
        i += 1;
    }
    false
}

/// Closed border, seed walls and sparse features, before any smoothing.
fn initial_cells(exits: &[bool; 4], seeds: &Vec<usize>, rolls: &Vec<FeatureRolls>) -> (cells: Vec<
    Tile,
>)
    requires
        rolls.len() == ROOM_CELLS,
    ensures
        cells@ == initial_layout(exits@, seeds@, rolls@),
{
    let mut cells: Vec<Tile> = Vec::new();
    let mut k: usize = 0;
    while k < ROOM_CELLS
        invariant
            k <= ROOM_CELLS,
            rolls.len() == ROOM_CELLS,
            cells@.len() == k,
            forall|m: int| 0 <= m < k ==> cells@[m] == initial_tile(exits@, seeds@, rolls@, m),
        decreases ROOM_CELLS - k,
    {
        let t = if is_walled(exits, k / ROOM_WIDTH, k % ROOM_WIDTH) {
            Tile::UnbreakableWall
        } else if is_seed(seeds, k) {
            Tile::BreakableWall
        } else {
            feature_tile(&rolls[k])
        };
        cells.push(t);
        k += 1;
    }
    assert(cells@ =~= initial_layout(exits@, seeds@, rolls@));
    cells
}

fn wall_count(cells: &Vec<Tile>, r: usize, c: usize) -> (n: u32)
    requires
        cells.len() == ROOM_CELLS,
        interior(r as int, c as int),
    ensures
        n == walls_around(cells@, r as int, c as int),
{
    let mut n: u32 = 0;
    if cells[(r - 1) * ROOM_WIDTH + c - 1].is_wall_like() {
        n += 1;
    }
    if cells[(r - 1) * ROOM_WIDTH + c].is_wall_like() {
        n += 1;
    }
    if cells[(r - 1) * ROOM_WIDTH + c + 1].is_wall_like() {
        n += 1;
    }
    if cells[r * ROOM_WIDTH + c - 1].is_wall_like() {
        n += 1;
    }
    if cells[r * ROOM_WIDTH + c + 1].is_wall_like() {
        n += 1;
    }
    if cells[(r + 1) * ROOM_WIDTH + c - 1].is_wall_like() {
        n += 1;
    }
    if cells[(r + 1) * ROOM_WIDTH + c].is_wall_like() {
        n += 1;
    }
    if cells[(r + 1) * ROOM_WIDTH + c + 1].is_wall_like() {
        n += 1;
    }
    n
}

/// One smoothing pass that rewrites the grid while scanning it.
fn smooth_in_place(cells: &mut Vec<Tile>)
    requires
        old(cells).len() == ROOM_CELLS,
    ensures
        final(cells)@ == sweep_rows(old(cells)@, ROOM_HEIGHT - 1),
{
    let ghost g0 = cells@;
    let mut r: usize = 1;
    while r < ROOM_HEIGHT - 1
        invariant
            1 <= r <= ROOM_HEIGHT - 1,
            g0.len() == ROOM_CELLS,
            cells@ == sweep_rows(g0, r as int),
        decreases ROOM_HEIGHT - r,
    {
        let ghost before_row = cells@;
        proof {
            lemma_sweep_rows_len(g0, r as int);
        }
        let mut c: usize = 1;
        while c < ROOM_WIDTH - 1
            invariant
                1 <= r < ROOM_HEIGHT - 1,
                1 <= c <= ROOM_WIDTH - 1,
                before_row == sweep_rows(g0, r as int),
                before_row.len() == ROOM_CELLS,
                cells@ == sweep_row(before_row, r as int, c as int),
                cells@.len() == ROOM_CELLS,
            decreases ROOM_WIDTH - c,
        {
            let n = wall_count(cells, r, c);
            if !cells[r * ROOM_WIDTH + c].is_feature() && n >= WALL_THRESHOLD {
                cells.set(r * ROOM_WIDTH + c, Tile::BreakableWall);
            }
            proof {
                lemma_sweep_row_len(before_row, r as int, c as int + 1);
            }
            c += 1;
        }
        r += 1;
    }
}

/// One smoothing pass that decides every cell from the grid as it was.
fn smooth_buffered(cells: &Vec<Tile>) -> (out: Vec<Tile>)
    requires
        cells.len() == ROOM_CELLS,
    ensures
        out@ == buffered_pass(cells@),
{
    let mut out: Vec<Tile> = Vec::new();
    let mut k: usize = 0;
    while k < ROOM_CELLS
        invariant
            k <= ROOM_CELLS,
            cells.len() == ROOM_CELLS,
            out@.len() == k,
            forall|m: int| 0 <= m < k ==> out@[m] == buffered_pass(cells@)[m],
        decreases ROOM_CELLS - k,
    {
        let r = k / ROOM_WIDTH;
        let c = k % ROOM_WIDTH;
        let t = if 1 <= r && r < ROOM_HEIGHT - 1 && 1 <= c && c < ROOM_WIDTH - 1
            && !cells[k].is_feature() && wall_count(cells, r, c) >= WALL_THRESHOLD {
            Tile::BreakableWall
        } else {
            cells[k]
        };
        out.push(t);
        k += 1;
    }
    assert(out@ =~= buffered_pass(cells@));
    out
}

fn smooth(cells: Vec<Tile>, mode: Smoothing) -> (out: Vec<Tile>)
    requires
        cells.len() == ROOM_CELLS,
    ensures
        out@ == smoothed(mode, cells@, SMOOTHING_PASSES as nat),
        out@.len() == ROOM_CELLS,
{
    let ghost g0 = cells@;
    let mut cells = cells;
    let mut p: u32 = 0;
    while p < SMOOTHING_PASSES
        invariant
            p <= SMOOTHING_PASSES,
            cells@ == smoothed(mode, g0, p as nat),
            cells@.len() == ROOM_CELLS,
        decreases SMOOTHING_PASSES - p,
    {
        match mode {
            Smoothing::InPlace => smooth_in_place(&mut cells),
            Smoothing::Buffered => {
                cells = smooth_buffered(&cells);
            },
        }
        proof {
            lemma_pass_keeps_len(mode, smoothed(mode, g0, p as nat));
        }
        p += 1;
    }
    cells
}

/// The border rule applied once more over a smoothed grid.
fn finish(exits: &[bool; 4], cells: &Vec<Tile>) -> (out: Vec<Tile>)
    requires
        cells.len() == ROOM_CELLS,
    ensures
        out@ == finished(exits@, cells@),
{
    let mut out: Vec<Tile> = Vec::new();
    let mut k: usize = 0;
    while k < ROOM_CELLS
        invariant
            k <= ROOM_CELLS,
            cells.len() == ROOM_CELLS,
            out@.len() == k,
            forall|m: int| 0 <= m < k ==> out@[m] == finished(exits@, cells@)[m],
        decreases ROOM_CELLS - k,
    {
        let r = k / ROOM_WIDTH;
        let c = k % ROOM_WIDTH;
        let t = if is_walled(exits, r, c) {
            Tile::UnbreakableWall
        } else if is_gap(exits, r, c) {
            Tile::Open
        } else {
            cells[k]
        };
        out.push(t);
        k += 1;
    }
    assert(out@ =~= finished(exits@, cells@));
    out
}

proof fn lemma_sweep_row_len(g: Seq<Tile>, r: int, c: int)
    requires
        g.len() == ROOM_CELLS,
        1 <= r < ROOM_HEIGHT - 1,
        c <= ROOM_WIDTH - 1,
    ensures
        sweep_row(g, r, c).len() == g.len(),
    decreases c,
{
    if c > 1 {
        lemma_sweep_row_len(g, r, c - 1);
    }
}

proof fn lemma_sweep_rows_len(g: Seq<Tile>, r: int)
    requires
        g.len() == ROOM_CELLS,
        r <= ROOM_HEIGHT - 1,
    ensures
        sweep_rows(g, r).len() == g.len(),
    decreases r,
{
    if r > 1 {
        lemma_sweep_rows_len(g, r - 1);
        lemma_sweep_row_len(sweep_rows(g, r - 1), r - 1, ROOM_WIDTH - 1);
    }
}

proof fn lemma_pass_keeps_len(mode: Smoothing, g: Seq<Tile>)
    requires
        g.len() == ROOM_CELLS,
    ensures
        smoothing_pass(mode, g).len() == g.len(),
{
    lemma_sweep_rows_len(g, ROOM_HEIGHT - 1);
}

/// One room: its exit flags, the seed walls it drew and its tiles, row by row.
#[derive(Clone, Debug)]
pub struct Room {
    seed_wall_locations: Vec<usize>,
    room_coords: Vec<Tile>,
    exits: [bool; 4],
}

impl Room {
    pub closed spec fn tiles(&self) -> Seq<Tile> {
        self.room_coords@
    }

    pub closed spec fn exit_flags(&self) -> Seq<bool> {
        self.exits@
    }

    pub closed spec fn seeds(&self) -> Seq<usize> {
        self.seed_wall_locations@
    }

    pub open spec fn wf(&self) -> bool {
        &&& self.tiles().len() == ROOM_CELLS
        &&& self.exit_flags().len() == 4
    }

    /// An all-open room with the given exits and freshly drawn seed walls.
    pub fn new(exits: [bool; 4]) -> (r: Room)
        ensures
            r.wf(),
            r.exit_flags() == exits@,
            r.tiles() == Seq::new(ROOM_CELLS as nat, |k: int| Tile::Open),
            seeds_valid(r.seeds()),
    {
        Room::with_seeds(exits, gen_seed_wall_locations())
    }

    /// An all-open room with the given exits and seed walls.
    pub fn with_seeds(exits: [bool; 4], seeds: Vec<usize>) -> (r: Room)
        ensures
            r.wf(),
            r.exit_flags() == exits@,
            r.tiles() == Seq::new(ROOM_CELLS as nat, |k: int| Tile::Open),
            r.seeds() == seeds@,
    {
        let mut cells: Vec<Tile> = Vec::new();
        let mut k: usize = 0;
        while k < ROOM_CELLS
            invariant
                k <= ROOM_CELLS,
                cells@ == Seq::new(k as nat, |m: int| Tile::Open),
            decreases ROOM_CELLS - k,
        {
            cells.push(Tile::Open);
            k += 1;
            assert(cells@ =~= Seq::new(k as nat, |m: int| Tile::Open));
        }
        Room { seed_wall_locations: seeds, room_coords: cells, exits }
    }

    pub fn exits(&self) -> (e: [bool; 4])
        ensures
            e@ == self.exit_flags(),
    {
        self.exits
    }

    pub fn seed_wall_locations(&self) -> (s: &Vec<usize>)
        ensures
            s@ == self.seeds(),
    {
        &self.seed_wall_locations
    }

    /// The tile at a row and column.
    pub fn tile(&self, row: usize, col: usize) -> (t: Tile)
        requires
            self.wf(),
            row < ROOM_HEIGHT,
            col < ROOM_WIDTH,
        ensures
            t == self.tiles()[idx(row as int, col as int)],
    {
        self.room_coords[row * ROOM_WIDTH + col]
    }

    /// All tiles, row by row.
    pub fn cells(&self) -> (c: &Vec<Tile>)
        ensures
            c@ == self.tiles(),
    {
        &self.room_coords
    }

    /// The room with its tiles replaced.
    pub(crate) fn with_tiles(self, cells: Vec<Tile>) -> (r: Room)
        ensures
            r.tiles() == cells@,
            r.exit_flags() == self.exit_flags(),
            r.seeds() == self.seeds(),
    {
        Room { room_coords: cells, ..self }
    }
}

/// Seed indices: as many as a room draws, each naming a cell.
pub open spec fn seeds_valid(seeds: Seq<usize>) -> bool {
    seeds.len() == SEED_WALLS && forall|i: int| 0 <= i < seeds.len() ==> seeds[i] < ROOM_CELLS
}

/// Feature draws: one per cell, each below its odds.
pub open spec fn rolls_valid(rolls: Seq<FeatureRolls>) -> bool {
    rolls.len() == ROOM_CELLS && forall|i: int|
        0 <= i < rolls.len() ==> rolls[i].enemy < ENEMY_ODDS && rolls[i].bomb < BOMB_ODDS
            && rolls[i].door < DOOR_ODDS && rolls[i].health < HEALTH_ODDS
}

/// Draws the seed walls of a room, each uniform over its cells.
pub fn gen_seed_wall_locations() -> (seeds: Vec<usize>)
    ensures
        seeds_valid(seeds@),
{
    let mut seeds: Vec<usize> = Vec::new();
    while seeds.len() < SEED_WALLS
        invariant
            seeds.len() <= SEED_WALLS,
            forall|i: int| 0 <= i < seeds.len() ==> seeds@[i] < ROOM_CELLS,
        decreases SEED_WALLS - seeds.len(),
    {
        seeds.push(random_below(ROOM_CELLS));
    }
    seeds
}

/// Draws the feature rolls of every cell of a room.
pub fn gen_feature_rolls() -> (rolls: Vec<FeatureRolls>)
    ensures
        rolls_valid(rolls@),
{
    let mut rolls: Vec<FeatureRolls> = Vec::new();
    while rolls.len() < ROOM_CELLS
        invariant
            rolls.len() <= ROOM_CELLS,
            forall|i: int|
                0 <= i < rolls.len() ==> rolls@[i].enemy < ENEMY_ODDS && rolls@[i].bomb < BOMB_ODDS
                    && rolls@[i].door < DOOR_ODDS && rolls@[i].health < HEALTH_ODDS,
        decreases ROOM_CELLS - rolls.len(),
    {
        let enemy = random_below(ENEMY_ODDS);
        let bomb = random_below(BOMB_ODDS);
        let door = random_below(DOOR_ODDS);
        let health = random_below(HEALTH_ODDS);
        rolls.push(FeatureRolls { enemy, bomb, door, health });
    }
    rolls
}

/// Lays out a room from its exits, its seed walls and its feature rolls: the
/// whole generation with no randomness left in it.
pub fn build_room(room: Room, rolls: &Vec<FeatureRolls>, mode: Smoothing) -> (r: Room)
    requires
        room.wf(),
        rolls.len() == ROOM_CELLS,
    ensures
        r.wf(),
        r.exit_flags() == room.exit_flags(),
        r.seeds() == room.seeds(),
        r.tiles() == room_layout(room.exit_flags(), room.seeds(), rolls@, mode),
        border_contained(r.exit_flags(), r.tiles()),
{
    let exits = room.exits();
    let first = initial_cells(&exits, room.seed_wall_locations(), rolls);
    let smooth_cells = smooth(first, mode);
    let cells = finish(&exits, &smooth_cells);
    proof {
        lemma_finished_border_contained(
            exits@,
            smoothed(
                mode,
                initial_layout(exits@, room.seeds(), rolls@),
                SMOOTHING_PASSES as nat,
            ),
        );
    }
    room.with_tiles(cells)
}

/// Generates a room with the given exits, drawing its seed walls and feature
/// rolls at random and smoothing in place.
pub fn generate_room(exits: [bool; 4]) -> (r: Room)
    ensures
        r.wf(),
        r.exit_flags() == exits@,
        seeds_valid(r.seeds()),
        exists|rolls: Seq<FeatureRolls>|
            rolls_valid(rolls) && r.tiles() == #[trigger] room_layout(
                exits@,
                r.seeds(),
                rolls,
                Smoothing::InPlace,
            ),
        border_contained(exits@, r.tiles()),
{
    let room = Room::new(exits);
    let rolls = gen_feature_rolls();
    let r = build_room(room, &rolls, Smoothing::InPlace);
    assert(rolls_valid(rolls@) && r.tiles() == room_layout(exits@, r.seeds(), rolls@, Smoothing::InPlace));
    r
}

/// After the last border pass the ring holds only unbreakable walls and open
/// gaps on the sides whose exits are open.
pub proof fn lemma_finished_border_contained(exits: Seq<bool>, g: Seq<Tile>)
    requires
        exits.len() == 4,
    ensures
        border_contained(exits, finished(exits, g)),
        forall|k: int|
            0 <= k < ROOM_CELLS ==> (#[trigger] finished(exits, g)[k] == Tile::UnbreakableWall
                <== walled(exits, row_of(k), col_of(k))),
{
}

proof fn lemma_sweep_row_keeps_walls(g: Seq<Tile>, r: int, c: int)
    requires
        g.len() == ROOM_CELLS,
        1 <= r < ROOM_HEIGHT - 1,
        c <= ROOM_WIDTH - 1,
    ensures
        forall|k: int| 0 <= k < ROOM_CELLS && wall_like(g[k]) ==> wall_like(#[trigger] sweep_row(g, r, c)[k]),
    decreases c,
{
    if c > 1 {
        lemma_sweep_row_keeps_walls(g, r, c - 1);
        lemma_sweep_row_len(g, r, c - 1);
    }
}

proof fn lemma_sweep_rows_keeps_walls(g: Seq<Tile>, r: int)
    requires
        g.len() == ROOM_CELLS,
        r <= ROOM_HEIGHT - 1,
    ensures
        forall|k: int| 0 <= k < ROOM_CELLS && wall_like(g[k]) ==> wall_like(#[trigger] sweep_rows(g, r)[k]),
    decreases r,
{
    if r > 1 {
        lemma_sweep_rows_keeps_walls(g, r - 1);
        lemma_sweep_rows_len(g, r - 1);
        lemma_sweep_row_keeps_walls(sweep_rows(g, r - 1), r - 1, ROOM_WIDTH - 1);
    }
}

/// Smoothing only adds walls: a cell that is wall-like before any number of
/// passes, of either kind, is wall-like after them.
pub proof fn lemma_smoothing_only_adds_walls(mode: Smoothing, g: Seq<Tile>, n: nat)
    requires
        g.len() == ROOM_CELLS,
    ensures
        smoothed(mode, g, n).len() == ROOM_CELLS,
        forall|k: int|
            0 <= k < ROOM_CELLS && wall_like(g[k]) ==> wall_like(#[trigger] smoothed(mode, g, n)[k]),
    decreases n,
{
    if n > 0 {
        let h = smoothed(mode, g, (n - 1) as nat);
        lemma_smoothing_only_adds_walls(mode, g, (n - 1) as nat);
        lemma_pass_keeps_len(mode, h);
        match mode {
            Smoothing::InPlace => lemma_sweep_rows_keeps_walls(h, ROOM_HEIGHT - 1),
            Smoothing::Buffered => {},
        }
    }
}

/// A room with every exit closed has an unbroken ring of unbreakable wall.
pub proof fn lemma_closed_room_ring_walled(exits: Seq<bool>, g: Seq<Tile>)
    requires
        exits == seq![false, false, false, false],
    ensures
        forall|k: int|
            0 <= k < ROOM_CELLS && on_ring(row_of(k), col_of(k)) ==> #[trigger] finished(exits, g)[k]
                == Tile::UnbreakableWall,
{
}

/// A room with every exit open has open floor all round its ring.
pub proof fn lemma_open_room_ring_open(exits: Seq<bool>, g: Seq<Tile>)
    requires
        exits == seq![true, true, true, true],
    ensures
        forall|k: int|
            0 <= k < ROOM_CELLS && on_ring(row_of(k), col_of(k)) ==> #[trigger] finished(exits, g)[k]
                == Tile::Open,
{
}

} // verus!
