//! The tile grid: a fixed-size field of wall and floor cells, carved by
//! room and tunnel painters, plus the shared occupancy query.

use vstd::prelude::*;

use crate::entity::Object;
use crate::geometry::Rect;

verus! {

pub const MAP_WIDTH: i32 = 80;

pub const MAP_HEIGHT: i32 = 43;

/// One grid cell. `blocked` stops movement, `block_sight` stops vision,
/// `explored` is bookkeeping for the caller and is never set here.
#[derive(Clone, Copy, Debug, PartialEq, Eq, Structural)]
pub struct Tile {
    pub blocked: bool,
    pub explored: bool,
    pub block_sight: bool,
}

pub open spec fn spec_wall() -> Tile {
    Tile { blocked: true, explored: false, block_sight: true }
}

pub open spec fn spec_empty() -> Tile {
    Tile { blocked: false, explored: false, block_sight: false }
}

impl Tile {
    pub fn wall() -> (t: Tile)
        ensures
            t == spec_wall(),
    {
        Tile { blocked: true, explored: false, block_sight: true }
    }

    pub fn empty() -> (t: Tile)
        ensures
            t == spec_empty(),
    {
        Tile { blocked: false, explored: false, block_sight: false }
    }
}

pub open spec fn in_bounds(x: int, y: int) -> bool {
    0 <= x < MAP_WIDTH && 0 <= y < MAP_HEIGHT
}

/// The cells strictly between a room's bounds: its carved interior.
pub open spec fn in_room_interior(room: Rect, x: int, y: int) -> bool {
    room.x1 < x < room.x2 && room.y1 < y < room.y2
}

/// The tile of a flat cell sequence at (x, y).
pub open spec fn spec_tile_at(tiles: Seq<Tile>, x: int, y: int) -> Tile {
    tiles[x * MAP_HEIGHT + y]
}

/// The all-wall cell sequence a generation starts from.
pub open spec fn spec_wall_grid() -> Seq<Tile> {
    Seq::new((MAP_WIDTH * MAP_HEIGHT) as nat, |i: int| spec_wall())
}

/// A room carved into a cell sequence: interior cells become floor, the
/// rest keep their tile.
pub open spec fn spec_carve_room_tiles(tiles: Seq<Tile>, room: Rect) -> Seq<Tile> {
    Seq::new(
        tiles.len(),
        |i: int|
            if in_room_interior(room, i / (MAP_HEIGHT as int), i % (MAP_HEIGHT as int)) {
                spec_empty()
            } else {
                tiles[i]
            },
    )
}

/// A horizontal tunnel carved into a cell sequence, endpoints included.
pub open spec fn spec_carve_h_tiles(tiles: Seq<Tile>, x1: int, x2: int, y: int) -> Seq<Tile> {
    Seq::new(
        tiles.len(),
        |i: int|
            if i % (MAP_HEIGHT as int) == y && spec_min(x1, x2) <= i / (MAP_HEIGHT as int)
                <= spec_max(x1, x2) {
                spec_empty()
            } else {
                tiles[i]
            },
    )
}

/// A vertical tunnel carved into a cell sequence, endpoints included.
pub open spec fn spec_carve_v_tiles(tiles: Seq<Tile>, y1: int, y2: int, x: int) -> Seq<Tile> {
    Seq::new(
        tiles.len(),
        |i: int|
            if i / (MAP_HEIGHT as int) == x && spec_min(y1, y2) <= i % (MAP_HEIGHT as int)
                <= spec_max(y1, y2) {
                spec_empty()
            } else {
                tiles[i]
            },
    )
}

/// The whole map, stored column-major: cell (x, y) lives at `x * MAP_HEIGHT + y`.
pub struct Grid {
    tiles: Vec<Tile>,
}

impl View for Grid {
    type V = Seq<Tile>;

    closed spec fn view(&self) -> Seq<Tile> {
        self.tiles@
    }
}

impl Grid {
    pub open spec fn wf(self) -> bool {
        self@.len() == MAP_WIDTH * MAP_HEIGHT
    }

    pub open spec fn tile_at(self, x: int, y: int) -> Tile {
        spec_tile_at(self@, x, y)
    }

    /// A freshly generated grid is entirely wall.
    pub fn new() -> (g: Grid)
        ensures
            g.wf(),
            g@ == spec_wall_grid(),
            forall|x: int, y: int| in_bounds(x, y) ==> g.tile_at(x, y) == spec_wall(),
    {
        let total: usize = (MAP_WIDTH as usize) * (MAP_HEIGHT as usize);
        let mut tiles: Vec<Tile> = Vec::new();
        let mut i: usize = 0;
        while i < total
            invariant
                i <= total,
                total == MAP_WIDTH * MAP_HEIGHT,
                tiles@.len() == i,
                forall|k: int| 0 <= k < i ==> tiles@[k] == spec_wall(),
            decreases total - i,
        {
            tiles.push(Tile::wall());
            i = i + 1;
        }
        let g = Grid { tiles };
        proof {
            assert forall|x: int, y: int| in_bounds(x, y) implies g.tile_at(x, y)
                == spec_wall() by {
                lemma_cell_index_bounds(x, y);
            }
            assert(g@ =~= spec_wall_grid());
        }
        g
    }

    pub fn get(&self, x: i32, y: i32) -> (t: Tile)
        requires
            self.wf(),
            in_bounds(x as int, y as int),
        ensures
            t == self.tile_at(x as int, y as int),
    {
        proof {
            lemma_cell_index_bounds(x as int, y as int);
        }
        self.tiles[(x as usize) * (MAP_HEIGHT as usize) + (y as usize)]
    }

    fn set(&mut self, x: i32, y: i32, t: Tile)
        requires
            old(self).wf(),
            in_bounds(x as int, y as int),
        ensures
            final(self).wf(),
            final(self).tile_at(x as int, y as int) == t,
            forall|i: int, j: int|
                in_bounds(i, j) && !(i == x && j == y) ==> final(self).tile_at(i, j) == old(
                    self,
                ).tile_at(i, j),
    {
        proof {
            lemma_cell_index_bounds(x as int, y as int);
        }
        self.tiles.set((x as usize) * (MAP_HEIGHT as usize) + (y as usize), t);
        proof {
            assert forall|i: int, j: int|
                in_bounds(i, j) && !(i == x && j == y) implies self.tile_at(i, j) == old(
                self,
            ).tile_at(i, j) by {
                lemma_cell_index_bounds(i, j);
                if i * MAP_HEIGHT + j == (x as int) * MAP_HEIGHT + (y as int) {
                    lemma_cell_index_injective(i, j, x as int, y as int);
                }
            }
        }
    }
}

pub open spec fn spec_min(a: int, b: int) -> int {
    if a <= b {
        a
    } else {
        b
    }
}

pub open spec fn spec_max(a: int, b: int) -> int {
    if a <= b {
        b
    } else {
        a
    }
}

/// Carve a room: every cell strictly inside the rectangle's bounds becomes
/// floor, the boundary rows and columns and everything outside are untouched.
pub fn create_room(room: Rect, grid: &mut Grid)
    requires
        old(grid).wf(),
        0 <= room.x1 <= room.x2,
        room.x2 <= MAP_WIDTH,
        0 <= room.y1 <= room.y2,
        room.y2 <= MAP_HEIGHT,
    ensures
        final(grid).wf(),
        final(grid)@ == spec_carve_room_tiles(old(grid)@, room),
        forall|i: int, j: int|
            in_bounds(i, j) && in_room_interior(room, i, j) ==> final(grid).tile_at(i, j)
                == spec_empty(),
        forall|i: int, j: int|
            in_bounds(i, j) && !in_room_interior(room, i, j) ==> final(grid).tile_at(i, j) == old(
                grid,
            ).tile_at(i, j),
{
    let mut x = room.x1 + 1;
    while x < room.x2
        invariant
            grid.wf(),
            room.x1 < x,
            x <= room.x2 || x == room.x1 + 1,
            0 <= room.x1 <= room.x2,
            room.x2 <= MAP_WIDTH,
            0 <= room.y1 <= room.y2,
            room.y2 <= MAP_HEIGHT,
            forall|i: int, j: int|
                in_bounds(i, j) && room.x1 < i < x && room.y1 < j < room.y2 ==> grid.tile_at(i, j)
                    == spec_empty(),
            forall|i: int, j: int|
                in_bounds(i, j) && !(room.x1 < i < x && room.y1 < j < room.y2) ==> grid.tile_at(
                    i,
                    j,
                ) == old(grid).tile_at(i, j),
        decreases room.x2 - x,
    {
        let mut y = room.y1 + 1;
        while y < room.y2
            invariant
                grid.wf(),
                room.y1 < y,
                y <= room.y2 || y == room.y1 + 1,
                room.x1 < x < room.x2,
                0 <= room.x1 <= room.x2,
                room.x2 <= MAP_WIDTH,
                0 <= room.y1 <= room.y2,
                room.y2 <= MAP_HEIGHT,
                forall|i: int, j: int|
                    in_bounds(i, j) && ((room.x1 < i < x && room.y1 < j < room.y2) || (i == x
                        && room.y1 < j < y)) ==> grid.tile_at(i, j) == spec_empty(),
                forall|i: int, j: int|
                    in_bounds(i, j) && !((room.x1 < i < x && room.y1 < j < room.y2) || (i == x
                        && room.y1 < j < y)) ==> grid.tile_at(i, j) == old(grid).tile_at(i, j),
            decreases room.y2 - y,
        {
            grid.set(x, y, Tile::empty());
            y = y + 1;
        }
        x = x + 1;
    }
    proof {
        assert forall|i: int| 0 <= i < grid@.len() implies grid@[i] == spec_carve_room_tiles(
            old(grid)@,
            room,
        )[i] by {
            let xx = i / (MAP_HEIGHT as int);
            let yy = i % (MAP_HEIGHT as int);
            assert(in_bounds(xx, yy));
            assert(i == xx * MAP_HEIGHT + yy);
        }
        assert(grid@ =~= spec_carve_room_tiles(old(grid)@, room));
    }
}

/// Carve a one-cell-high horizontal tunnel at row `y`, spanning the two
/// endpoint columns in either order, endpoints included.
pub fn create_h_tunnel(x1: i32, x2: i32, y: i32, grid: &mut Grid)
    requires
        old(grid).wf(),
        0 <= spec_min(x1 as int, x2 as int),
        spec_max(x1 as int, x2 as int) < MAP_WIDTH,
        0 <= y < MAP_HEIGHT,
    ensures
        final(grid).wf(),
        final(grid)@ == spec_carve_h_tiles(old(grid)@, x1 as int, x2 as int, y as int),
        forall|i: int, j: int|
            in_bounds(i, j) && j == y && spec_min(x1 as int, x2 as int) <= i <= spec_max(
                x1 as int,
                x2 as int,
            ) ==> final(grid).tile_at(i, j) == spec_empty(),
        forall|i: int, j: int|
            in_bounds(i, j) && !(j == y && spec_min(x1 as int, x2 as int) <= i <= spec_max(
                x1 as int,
                x2 as int,
            )) ==> final(grid).tile_at(i, j) == old(grid).tile_at(i, j),
{
    let lo = if x1 <= x2 {
        x1
    } else {
        x2
    };
    let hi = if x1 <= x2 {
        x2
    } else {
        x1
    };
    let mut x = lo;
    while x <= hi
        invariant
            grid.wf(),
            lo == spec_min(x1 as int, x2 as int),
            hi == spec_max(x1 as int, x2 as int),
            0 <= lo <= x <= hi + 1,
            hi < MAP_WIDTH,
            0 <= y < MAP_HEIGHT,
            forall|i: int, j: int|
                in_bounds(i, j) && j == y && lo <= i < x ==> grid.tile_at(i, j) == spec_empty(),
            forall|i: int, j: int|
                in_bounds(i, j) && !(j == y && lo <= i < x) ==> grid.tile_at(i, j) == old(
                    grid,
                ).tile_at(i, j),
        decreases hi + 1 - x,
    {
        grid.set(x, y, Tile::empty());
        x = x + 1;
    }
    proof {
        assert forall|i: int| 0 <= i < grid@.len() implies grid@[i] == spec_carve_h_tiles(
            old(grid)@,
            x1 as int,
            x2 as int,
            y as int,
        )[i] by {
            let xx = i / (MAP_HEIGHT as int);
            let yy = i % (MAP_HEIGHT as int);
            assert(in_bounds(xx, yy));
            assert(i == xx * MAP_HEIGHT + yy);
        }
        assert(grid@ =~= spec_carve_h_tiles(old(grid)@, x1 as int, x2 as int, y as int));
    }
}

/// Carve a one-cell-wide vertical tunnel at column `x`, spanning the two
/// endpoint rows in either order, endpoints included.
pub fn create_v_tunnel(y1: i32, y2: i32, x: i32, grid: &mut Grid)
    requires
        old(grid).wf(),
        0 <= spec_min(y1 as int, y2 as int),
        spec_max(y1 as int, y2 as int) < MAP_HEIGHT,
        0 <= x < MAP_WIDTH,
    ensures
        final(grid).wf(),
        final(grid)@ == spec_carve_v_tiles(old(grid)@, y1 as int, y2 as int, x as int),
        forall|i: int, j: int|
            in_bounds(i, j) && i == x && spec_min(y1 as int, y2 as int) <= j <= spec_max(
                y1 as int,
                y2 as int,
            ) ==> final(grid).tile_at(i, j) == spec_empty(),
        forall|i: int, j: int|
            in_bounds(i, j) && !(i == x && spec_min(y1 as int, y2 as int) <= j <= spec_max(
                y1 as int,
                y2 as int,
            )) ==> final(grid).tile_at(i, j) == old(grid).tile_at(i, j),
{
    let lo = if y1 <= y2 {
        y1
    } else {
        y2
    };
    let hi = if y1 <= y2 {
        y2
    } else {
        y1
    };
    let mut y = lo;
    while y <= hi
        invariant
            grid.wf(),
            lo == spec_min(y1 as int, y2 as int),
            hi == spec_max(y1 as int, y2 as int),
            0 <= lo <= y <= hi + 1,
            hi < MAP_HEIGHT,
            0 <= x < MAP_WIDTH,
            forall|i: int, j: int|
                in_bounds(i, j) && i == x && lo <= j < y ==> grid.tile_at(i, j) == spec_empty(),
            forall|i: int, j: int|
                in_bounds(i, j) && !(i == x && lo <= j < y) ==> grid.tile_at(i, j) == old(
                    grid,
                ).tile_at(i, j),
        decreases hi + 1 - y,
    {
        grid.set(x, y, Tile::empty());
        y = y + 1;
    }
    proof {
        assert forall|i: int| 0 <= i < grid@.len() implies grid@[i] == spec_carve_v_tiles(
            old(grid)@,
            y1 as int,
            y2 as int,
            x as int,
        )[i] by {
            let xx = i / (MAP_HEIGHT as int);
            let yy = i % (MAP_HEIGHT as int);
            assert(in_bounds(xx, yy));
            assert(i == xx * MAP_HEIGHT + yy);
        }
        assert(grid@ =~= spec_carve_v_tiles(old(grid)@, y1 as int, y2 as int, x as int));
    }
}

/// A coordinate is blocked when its tile is a wall, or any blocking
/// entity stands on it.
pub open spec fn spec_is_blocked_tiles(x: int, y: int, tiles: Seq<Tile>, objects: Seq<Object>) -> bool {
    spec_tile_at(tiles, x, y).blocked || exists|k: int|
        0 <= k < objects.len() && objects[k].blocks && objects[k].x == x && objects[k].y == y
}

/// `spec_is_blocked_tiles` over a grid's cells.
pub open spec fn spec_is_blocked(x: int, y: int, grid: Grid, objects: Seq<Object>) -> bool {
    spec_is_blocked_tiles(x, y, grid@, objects)
}

/// True exactly when the tile at (x, y) is a wall or some blocking entity
/// occupies (x, y). Out-of-range coordinates are the caller's error and
/// are ruled out up front.
pub fn is_blocked(x: i32, y: i32, grid: &Grid, objects: &Vec<Object>) -> (r: bool)
    requires
        grid.wf(),
        in_bounds(x as int, y as int),
    ensures
        r == spec_is_blocked(x as int, y as int, *grid, objects@),
{
    if grid.get(x, y).blocked {
        return true;
    }
    let mut k: usize = 0;
    while k < objects.len()
        invariant
            k <= objects@.len(),
            forall|t: int|
                0 <= t < k ==> !(objects@[t].blocks && objects@[t].x == x && objects@[t].y == y),
        decreases objects@.len() - k,
    {
        let o = &objects[k];
        if o.blocks {
            let p = o.pos();
            if p.0 == x && p.1 == y {
                return true;
            }
        }
        k = k + 1;
    }
    false
}

/// The column-major cell index of an in-bounds coordinate stays within the grid.
proof fn lemma_cell_index_bounds(x: int, y: int)
    requires
        in_bounds(x, y),
    ensures
        0 <= x * MAP_HEIGHT + y < MAP_WIDTH * MAP_HEIGHT,
{
    assert(x * MAP_HEIGHT <= (MAP_WIDTH - 1) * MAP_HEIGHT) by (nonlinear_arith)
        requires
            0 <= x <= MAP_WIDTH - 1,
    ;
    assert(x * MAP_HEIGHT >= 0) by (nonlinear_arith)
        requires
            x >= 0,
    ;
}

/// Distinct in-bounds coordinates have distinct cell indices.
proof fn lemma_cell_index_injective(x1: int, y1: int, x2: int, y2: int)
    requires
        in_bounds(x1, y1),
        in_bounds(x2, y2),
        x1 * MAP_HEIGHT + y1 == x2 * MAP_HEIGHT + y2,
    ensures
        x1 == x2,
        y1 == y2,
{
    assert(x1 == x2 && y1 == y2) by (nonlinear_arith)
        requires
            0 <= y1 < MAP_HEIGHT,
            0 <= y2 < MAP_HEIGHT,
            x1 * MAP_HEIGHT + y1 == x2 * MAP_HEIGHT + y2,
    ;
}

} // verus!
