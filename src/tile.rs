use vstd::prelude::*;

verus! {

/// One square of a room.
#[derive(Clone, Copy, Debug, PartialEq, Eq, Structural)]
pub enum Tile {
    Open,
    BreakableWall,
    UnbreakableWall,
    Door,
    Enemy,
    Boss,
    BombPickup,
    HealthPickup,
}

/// Walls of either kind; the smoothing pass counts these.
pub open spec fn wall_like(t: Tile) -> bool {
    t == Tile::BreakableWall || t == Tile::UnbreakableWall
}

/// Special tiles: neither floor nor wall.
pub open spec fn feature(t: Tile) -> bool {
    t != Tile::Open && !wall_like(t)
}

/// The symbol a layout text uses for each tile.
pub open spec fn symbol_of(t: Tile) -> char {
    match t {
        Tile::Open => '-',
        Tile::BreakableWall => '#',
        Tile::UnbreakableWall => 'U',
        Tile::Door => 'D',
        Tile::Enemy => 'E',
        Tile::Boss => 'T',
        Tile::BombPickup => 'B',
        Tile::HealthPickup => 'H',
    }
}

/// The tile a layout symbol stands for; a symbol outside the alphabet spawns
/// nothing, so it reads as open floor.
pub open spec fn tile_of(c: char) -> Tile {
    if c == '#' {
        Tile::BreakableWall
    } else if c == 'U' {
        Tile::UnbreakableWall
    } else if c == 'D' {
        Tile::Door
    } else if c == 'E' {
        Tile::Enemy
    } else if c == 'T' {
        Tile::Boss
    } else if c == 'B' {
        Tile::BombPickup
    } else if c == 'H' {
        Tile::HealthPickup
    } else {
        Tile::Open
    }
}

impl Tile {
    pub fn is_wall_like(&self) -> (r: bool)
        ensures
            r == wall_like(*self),
    {
        match self {
            Tile::BreakableWall | Tile::UnbreakableWall => true,
            _ => false,
        }
    }

    pub fn is_feature(&self) -> (r: bool)
        ensures
            r == feature(*self),
    {
        match self {
            Tile::Open | Tile::BreakableWall | Tile::UnbreakableWall => false,
            _ => true,
        }
    }

    pub fn symbol(&self) -> (r: char)
        ensures
            r == symbol_of(*self),
    {
        match self {
            Tile::Open => '-',
            Tile::BreakableWall => '#',
            Tile::UnbreakableWall => 'U',
            Tile::Door => 'D',
            Tile::Enemy => 'E',
            Tile::Boss => 'T',
            Tile::BombPickup => 'B',
            Tile::HealthPickup => 'H',
        }
    }

    pub fn from_symbol(c: char) -> (r: Tile)
        ensures
            r == tile_of(c),
    {
        match c {
            '#' => Tile::BreakableWall,
            'U' => Tile::UnbreakableWall,
            'D' => Tile::Door,
            'E' => Tile::Enemy,
            'T' => Tile::Boss,
            'B' => Tile::BombPickup,
            'H' => Tile::HealthPickup,
            _ => Tile::Open,
        }
    }
}

} // verus!
