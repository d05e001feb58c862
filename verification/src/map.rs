//! The tile map: a fixed-size grid of tiles with parallel arrays for
//! blocking, fog-of-war and per-cell occupants, all indexed row-major
//! (`idx = y * width + x`).

use vstd::prelude::*;

verus! {

/// Kind of terrain in one map cell.
#[derive(Clone, Copy, PartialEq, Eq, Structural, Debug)]
pub enum TileType {
    Wall,
    Floor,
    DownStairs,
}

/// An axis-aligned room rectangle. `x2`/`y2` are inclusive outer edges.
#[derive(Clone, Copy, PartialEq, Eq, Structural, Debug)]
pub struct Rect {
    pub x1: i32,
    pub y1: i32,
    pub x2: i32,
    pub y2: i32,
}

impl Rect {
    /// A rectangle from a corner and a width and height.
    pub fn new(x: i32, y: i32, w: i32, h: i32) -> (r: Rect)
        requires
            0 <= w,
            0 <= h,
            x + w <= i32::MAX,
            y + h <= i32::MAX,
        ensures
            r == (Rect { x1: x, y1: y, x2: (x + w) as i32, y2: (y + h) as i32 }),
    {
        Rect { x1: x, y1: y, x2: x + w, y2: y + h }
    }

    /// Whether two rectangles overlap (edges touching counts as overlap).
    pub fn intersect(&self, other: &Rect) -> (r: bool)
        ensures
            r == (self.x1 <= other.x2 && self.x2 >= other.x1 && self.y1 <= other.y2
                && self.y2 >= other.y1),
    {
        self.x1 <= other.x2 && self.x2 >= other.x1 && self.y1 <= other.y2 && self.y2 >= other.y1
    }

    /// The rectangle's center cell.
    pub fn center(&self) -> (r: (i32, i32))
        requires
            0 <= self.x1 + self.x2 <= i32::MAX,
            0 <= self.y1 + self.y2 <= i32::MAX,
        ensures
            r.0 == ((self.x1 + self.x2) as i32) / 2,
            r.1 == ((self.y1 + self.y2) as i32) / 2,
    {
        ((self.x1 + self.x2) / 2, (self.y1 + self.y2) / 2)
    }
}

/// Width of the standard generated map.
pub const MAPWIDTH: usize = 80;

/// Height of the standard generated map.
pub const MAPHEIGHT: usize = 50;

/// Number of cells of the standard generated map.
pub const MAPCOUNT: usize = 80 * 50;

/// Row-major index of a cell, for the standard 80-wide map.
pub fn xy_idx(x: i32, y: i32) -> (idx: usize)
    requires
        0 <= x < 80,
        0 <= y < 50,
    ensures
        idx == y * 80 + x,
        idx < 4000,
{
    (y as usize * 80) + x as usize
}

/// The map: terrain, room list, fog-of-war arrays, the blocked-cell
/// bitmap and the per-cell occupant index.
pub struct GameMap {
    pub width: i32,
    pub height: i32,
    pub depth: i32,
    pub tiles: Vec<TileType>,
    pub rooms: Vec<Rect>,
    pub revealed_tiles: Vec<bool>,
    pub visible_tiles: Vec<bool>,
    pub blocked: Vec<bool>,
    pub tile_content: Vec<Vec<usize>>,
}

impl GameMap {
    /// Structural invariant: positive dimensions and every parallel array
    /// of exactly `width * height` cells.
    pub open spec fn wf(self) -> bool {
        &&& 1 <= self.width
        &&& 1 <= self.height
        &&& self.tiles@.len() == self.width as int * self.height as int
        &&& self.revealed_tiles@.len() == self.tiles@.len()
        &&& self.visible_tiles@.len() == self.tiles@.len()
        &&& self.blocked@.len() == self.tiles@.len()
        &&& self.tile_content@.len() == self.tiles@.len()
    }

    /// Row-major index of a cell.
    pub open spec fn spec_idx(self, x: int, y: int) -> int {
        y * self.width as int + x
    }

    /// Whether a coordinate lies on the map.
    pub open spec fn in_bounds(self, x: int, y: int) -> bool {
        0 <= x < self.width as int && 0 <= y < self.height as int
    }

    /// Whether a cell stops sight.
    pub open spec fn opaque_at(self, x: int, y: int) -> bool {
        self.tiles@[self.spec_idx(x, y)] == TileType::Wall
    }

    proof fn lemma_idx_in_range(self, x: int, y: int)
        requires
            self.wf(),
            self.in_bounds(x, y),
        ensures
            0 <= self.spec_idx(x, y) < self.tiles@.len(),
    {
        let w = self.width as int;
        let h = self.height as int;
        assert(y * w + x < w * h) by (nonlinear_arith)
            requires
                0 <= x < w,
                0 <= y < h,
        ;
        assert(0 <= y * w) by (nonlinear_arith)
            requires
                0 <= y,
                0 <= w,
        ;
    }

    /// Row-major index of an in-bounds cell.
    pub fn xy_idx(&self, x: i32, y: i32) -> (idx: usize)
        requires
            self.wf(),
            self.in_bounds(x as int, y as int),
        ensures
            idx == self.spec_idx(x as int, y as int),
            idx < self.tiles@.len(),
    {
        proof {
            self.lemma_idx_in_range(x as int, y as int);
        }
        let n: usize = self.tiles.len();
        (y as usize) * (self.width as usize) + (x as usize)
    }

    /// Whether the cell at an in-bounds coordinate stops sight.
    pub fn is_opaque(&self, x: i32, y: i32) -> (r: bool)
        requires
            self.wf(),
            self.in_bounds(x as int, y as int),
        ensures
            r == self.opaque_at(x as int, y as int),
    {
        let idx = self.xy_idx(x, y);
        self.tiles[idx] == TileType::Wall
    }

    /// An all-wall map of the given size with empty indexes and no fog
    /// revealed yet.
    pub fn new(width: i32, height: i32, depth: i32) -> (m: GameMap)
        requires
            1 <= width,
            1 <= height,
            width as int * height as int <= usize::MAX,
        ensures
            m.wf(),
            m.width == width,
            m.height == height,
            m.depth == depth,
            m.rooms@.len() == 0,
            forall|i: int| 0 <= i < m.tiles@.len() ==> m.tiles@[i] == TileType::Wall,
            forall|i: int| 0 <= i < m.tiles@.len() ==> m.revealed_tiles@[i] == false,
            forall|i: int| 0 <= i < m.tiles@.len() ==> m.visible_tiles@[i] == false,
            forall|i: int| 0 <= i < m.tiles@.len() ==> m.blocked@[i] == false,
            forall|i: int| 0 <= i < m.tiles@.len() ==> m.tile_content@[i]@.len() == 0,
    {
        proof {
            assert(width as int * height as int >= 1) by (nonlinear_arith)
                requires
                    1 <= width as int,
                    1 <= height as int,
            ;
        }
        let count: usize = (width as usize) * (height as usize);
        let mut tiles: Vec<TileType> = Vec::new();
        let mut revealed_tiles: Vec<bool> = Vec::new();
        let mut visible_tiles: Vec<bool> = Vec::new();
        let mut blocked: Vec<bool> = Vec::new();
        let mut tile_content: Vec<Vec<usize>> = Vec::new();
        let mut i: usize = 0;
        while i < count
            invariant
                i <= count,
                tiles@.len() == i,
                revealed_tiles@.len() == i,
                visible_tiles@.len() == i,
                blocked@.len() == i,
                tile_content@.len() == i,
                forall|j: int| 0 <= j < i ==> tiles@[j] == TileType::Wall,
                forall|j: int| 0 <= j < i ==> revealed_tiles@[j] == false,
                forall|j: int| 0 <= j < i ==> visible_tiles@[j] == false,
                forall|j: int| 0 <= j < i ==> blocked@[j] == false,
                forall|j: int| 0 <= j < i ==> tile_content@[j]@.len() == 0,
            decreases count - i,
        {
            tiles.push(TileType::Wall);
            revealed_tiles.push(false);
            visible_tiles.push(false);
            blocked.push(false);
            tile_content.push(Vec::new());
            i = i + 1;
        }
        GameMap { width, height, depth, tiles, rooms: Vec::new(), revealed_tiles, visible_tiles, blocked, tile_content }
    }

    /// Reset the blocked bitmap from static terrain alone: exactly the
    /// wall cells are blocked.
    pub fn populate_blocked(&mut self)
        requires
            old(self).wf(),
        ensures
            final(self).wf(),
            final(self).blocked@.len() == old(self).blocked@.len(),
            forall|i: int|
                0 <= i < final(self).blocked@.len() ==> final(self).blocked@[i] == (old(
                    self,
                ).tiles@[i] == TileType::Wall),
            final(self).tiles == old(self).tiles,
            final(self).rooms == old(self).rooms,
            final(self).revealed_tiles == old(self).revealed_tiles,
            final(self).visible_tiles == old(self).visible_tiles,
            final(self).tile_content == old(self).tile_content,
            final(self).width == old(self).width,
            final(self).height == old(self).height,
            final(self).depth == old(self).depth,
    {
        let n = self.tiles.len();
        let mut i: usize = 0;
        while i < n
            invariant
                n == self.tiles@.len(),
                self.wf(),
                i <= n,
                forall|j: int| 0 <= j < i ==> self.blocked@[j] == (self.tiles@[j] == TileType::Wall),
                self.tiles == old(self).tiles,
                self.rooms == old(self).rooms,
                self.revealed_tiles == old(self).revealed_tiles,
                self.visible_tiles == old(self).visible_tiles,
                self.tile_content == old(self).tile_content,
                self.width == old(self).width,
                self.height == old(self).height,
                self.depth == old(self).depth,
                self.blocked@.len() == old(self).blocked@.len(),
            decreases n - i,
        {
            let w = self.tiles[i] == TileType::Wall;
            self.blocked[i] = w;
            i = i + 1;
        }
    }

    /// Empty every cell's occupant list.
    pub fn clear_content_index(&mut self)
        requires
            old(self).wf(),
        ensures
            final(self).wf(),
            final(self).tile_content@.len() == old(self).tile_content@.len(),
            forall|i: int|
                0 <= i < final(self).tile_content@.len() ==> final(self).tile_content@[i]@.len()
                    == 0,
            final(self).tiles == old(self).tiles,
            final(self).rooms == old(self).rooms,
            final(self).revealed_tiles == old(self).revealed_tiles,
            final(self).visible_tiles == old(self).visible_tiles,
            final(self).blocked == old(self).blocked,
            final(self).width == old(self).width,
            final(self).height == old(self).height,
            final(self).depth == old(self).depth,
    {
        let n = self.tile_content.len();
        let mut i: usize = 0;
        while i < n
            invariant
                n == self.tile_content@.len(),
                self.wf(),
                i <= n,
                forall|j: int| 0 <= j < i ==> self.tile_content@[j]@.len() == 0,
                self.tiles == old(self).tiles,
                self.rooms == old(self).rooms,
                self.revealed_tiles == old(self).revealed_tiles,
                self.visible_tiles == old(self).visible_tiles,
                self.blocked == old(self).blocked,
                self.width == old(self).width,
                self.height == old(self).height,
                self.depth == old(self).depth,
                self.tile_content@.len() == old(self).tile_content@.len(),
            decreases n - i,
        {
            self.tile_content[i] = Vec::new();
            i = i + 1;
        }
    }
}

/// Column of a flat index on the standard 80-wide map.
pub open spec fn col_of(i: int) -> int {
    i % 80
}

/// Row of a flat index on the standard 80-wide map.
pub open spec fn row_of(i: int) -> int {
    i / 80
}

proof fn lemma_flat_idx(x: int, y: int)
    requires
        0 <= x < 80,
        0 <= y,
    ensures
        col_of(y * 80 + x) == x,
        row_of(y * 80 + x) == y,
{
    assert((y * 80 + x) % 80 == x && (y * 80 + x) / 80 == y) by (nonlinear_arith)
        requires
            0 <= x < 80,
            0 <= y,
    ;
}

proof fn lemma_flat_decomp(i: int)
    requires
        0 <= i,
    ensures
        i == 80 * row_of(i) + col_of(i),
        0 <= col_of(i) < 80,
        0 <= row_of(i),
{
    assert(i == 80 * (i / 80) + i % 80 && 0 <= i % 80 < 80 && 0 <= i / 80) by (nonlinear_arith)
        requires
            0 <= i,
    ;
}

/// Whether flat cell `i` lies in the interior of `room`.
pub open spec fn in_room_interior(room: Rect, i: int) -> bool {
    room.x1 + 1 <= col_of(i) <= room.x2 && room.y1 + 1 <= row_of(i) <= room.y2
}

/// Carve a room's interior cells as floor on a standard 80x50 tile array.
pub fn apply_room_to_map(room: &Rect, map: &mut Vec<TileType>)
    requires
        old(map)@.len() == 4000,
        0 <= room.x1 <= room.x2,
        room.x2 < 80,
        0 <= room.y1 <= room.y2,
        room.y2 < 50,
    ensures
        final(map)@.len() == 4000,
        forall|i: int|
            0 <= i < 4000 ==> final(map)@[i] == (if in_room_interior(*room, i) {
                TileType::Floor
            } else {
                old(map)@[i]
            }),
{
    let mut y = room.y1 + 1;
    while y <= room.y2
        invariant
            map@.len() == 4000,
            room.y1 + 1 <= y <= room.y2 + 1,
            0 <= room.x1 <= room.x2,
            room.x2 < 80,
            0 <= room.y1 <= room.y2,
            room.y2 < 50,
            forall|i: int|
                0 <= i < 4000 ==> map@[i] == (if in_room_interior(*room, i) && row_of(i) < y {
                    TileType::Floor
                } else {
                    old(map)@[i]
                }),
        decreases room.y2 - y + 1,
    {
        let mut x = room.x1 + 1;
        while x <= room.x2
            invariant
                map@.len() == 4000,
                room.x1 + 1 <= x <= room.x2 + 1,
                room.y1 + 1 <= y <= room.y2,
                0 <= room.x1 <= room.x2,
                room.x2 < 80,
                0 <= room.y1 <= room.y2,
                room.y2 < 50,
                forall|i: int|
                    0 <= i < 4000 ==> map@[i] == (if in_room_interior(*room, i) && (row_of(i) < y
                        || (row_of(i) == y && col_of(i) < x)) {
                        TileType::Floor
                    } else {
                        old(map)@[i]
                    }),
            decreases room.x2 - x + 1,
        {
            let idx = xy_idx(x, y);
            proof {
                lemma_flat_idx(x as int, y as int);
                assert forall|i: int| 0 <= i < 4000 implies i == 80 * row_of(i) + col_of(i) by {
                    lemma_flat_decomp(i);
                }
            }
            map[idx] = TileType::Floor;
            x = x + 1;
        }
        y = y + 1;
    }
}

/// Carve a horizontal corridor on a standard 80x50 tile array. Cell 0 is
/// never touched, matching the index guard of the carving routine.
pub fn apply_horizontal_tunnel(map: &mut Vec<TileType>, x1: i32, x2: i32, y: i32)
    requires
        old(map)@.len() == 4000,
        0 <= x1 < 80,
        0 <= x2 < 80,
        0 <= y < 50,
    ensures
        final(map)@.len() == 4000,
        forall|i: int|
            0 <= i < 4000 ==> final(map)@[i] == (if row_of(i) == y && (x1 <= col_of(i) <= x2 || x2
                <= col_of(i) <= x1) && i > 0 {
                TileType::Floor
            } else {
                old(map)@[i]
            }),
{
    let lo = if x1 < x2 { x1 } else { x2 };
    let hi = if x1 < x2 { x2 } else { x1 };
    let mut x = lo;
    while x <= hi
        invariant
            map@.len() == 4000,
            lo <= x <= hi + 1,
            0 <= lo <= hi < 80,
            lo == if x1 < x2 { x1 } else { x2 },
            hi == if x1 < x2 { x2 } else { x1 },
            0 <= y < 50,
            forall|i: int|
                0 <= i < 4000 ==> map@[i] == (if row_of(i) == y && lo <= col_of(i) < x && i > 0 {
                    TileType::Floor
                } else {
                    old(map)@[i]
                }),
        decreases hi - x + 1,
    {
        let idx = xy_idx(x, y);
        proof {
            lemma_flat_idx(x as int, y as int);
            assert forall|i: int| 0 <= i < 4000 implies i == 80 * row_of(i) + col_of(i) by {
                lemma_flat_decomp(i);
            }
        }
        if idx > 0 && idx < 4000 {
            map[idx] = TileType::Floor;
        }
        x = x + 1;
    }
}

/// Carve a vertical corridor on a standard 80x50 tile array. Cell 0 is
/// never touched, matching the index guard of the carving routine.
pub fn apply_vertical_tunnel(map: &mut Vec<TileType>, y1: i32, y2: i32, x: i32)
    requires
        old(map)@.len() == 4000,
        0 <= y1 < 50,
        0 <= y2 < 50,
        0 <= x < 80,
    ensures
        final(map)@.len() == 4000,
        forall|i: int|
            0 <= i < 4000 ==> final(map)@[i] == (if col_of(i) == x && (y1 <= row_of(i) <= y2 || y2
                <= row_of(i) <= y1) && i > 0 {
                TileType::Floor
            } else {
                old(map)@[i]
            }),
{
    let lo = if y1 < y2 { y1 } else { y2 };
    let hi = if y1 < y2 { y2 } else { y1 };
    let mut y = lo;
    while y <= hi
        invariant
            map@.len() == 4000,
            lo <= y <= hi + 1,
            0 <= lo <= hi < 50,
            lo == if y1 < y2 { y1 } else { y2 },
            hi == if y1 < y2 { y2 } else { y1 },
            0 <= x < 80,
            forall|i: int|
                0 <= i < 4000 ==> map@[i] == (if col_of(i) == x && lo <= row_of(i) < y && i > 0 {
                    TileType::Floor
                } else {
                    old(map)@[i]
                }),
        decreases hi - y + 1,
    {
        let idx = xy_idx(x, y);
        proof {
            lemma_flat_idx(x as int, y as int);
            assert forall|i: int| 0 <= i < 4000 implies i == 80 * row_of(i) + col_of(i) by {
                lemma_flat_decomp(i);
            }
        }
        if idx > 0 && idx < 4000 {
            map[idx] = TileType::Floor;
        }
        y = y + 1;
    }
}


/// Generate the standard 80 by 50 dungeon: up to thirty non-overlapping
/// random rooms carved as floor, each joined to the previous room by an
/// elbow of corridors, with the stairs down in the last room's center.
pub fn new_map_rooms_and_corridors(rng: &mut rltk::RandomNumberGenerator, depth: i32) -> (m:
    GameMap)
    ensures
        m.wf(),
        m.width == 80,
        m.height == 50,
        m.depth == depth,
        m.rooms@.len() >= 1,
        forall|k: int|
            0 <= k < m.rooms@.len() ==> {
                &&& 0 <= (#[trigger] m.rooms@[k]).x1 < m.rooms@[k].x2 < 80
                &&& 0 <= m.rooms@[k].y1 < m.rooms@[k].y2 < 50
            },
        forall|i: int| 0 <= i < m.tiles@.len() ==> !(#[trigger] m.revealed_tiles@[i]),
        forall|i: int| 0 <= i < m.tiles@.len() ==> !(#[trigger] m.visible_tiles@[i]),
{
    let mut m = GameMap::new(80, 50, depth);
    let ghost m0 = m;
    let mut i: i32 = 0;
    while i < 30
        invariant
            m.wf(),
            m.width == 80,
            m.height == 50,
            m.depth == depth,
            m.tiles@.len() == 4000,
            0 <= i <= 30,
            i >= 1 ==> m.rooms@.len() >= 1,
            forall|k: int|
                0 <= k < m.rooms@.len() ==> {
                    &&& 0 <= (#[trigger] m.rooms@[k]).x1 < m.rooms@[k].x2 < 80
                    &&& 0 <= m.rooms@[k].y1 < m.rooms@[k].y2 < 50
                },
            m.revealed_tiles == m0.revealed_tiles,
            m.visible_tiles == m0.visible_tiles,
            m.blocked == m0.blocked,
            m.tile_content == m0.tile_content,
            forall|j: int| 0 <= j < m0.tiles@.len() ==> !(#[trigger] m0.revealed_tiles@[j]),
            forall|j: int| 0 <= j < m0.tiles@.len() ==> !(#[trigger] m0.visible_tiles@[j]),
            m0.tiles@.len() == 4000,
        decreases 30 - i,
    {
        let wdt = crate::rng::rng_range(rng, 6, 10);
        let hgt = crate::rng::rng_range(rng, 6, 10);
        let x = crate::rng::rng_roll_dice(rng, 80 - wdt - 1) - 1;
        let y = crate::rng::rng_roll_dice(rng, 50 - hgt - 1) - 1;
        let new_room = Rect::new(x, y, wdt, hgt);
        let mut ok = true;
        let nrooms = m.rooms.len();
        let mut r: usize = 0;
        while r < nrooms
            invariant
                nrooms == m.rooms@.len(),
                r <= nrooms,
                nrooms == 0 ==> ok,
            decreases nrooms - r,
        {
            let other = m.rooms[r];
            if new_room.intersect(&other) {
                ok = false;
            }
            r = r + 1;
        }
        if ok {
            apply_room_to_map(&new_room, &mut m.tiles);
            if m.rooms.len() > 0 {
                let (new_x, new_y) = new_room.center();
                let prev = m.rooms[m.rooms.len() - 1];
                let (prev_x, prev_y) = prev.center();
                let coin = crate::rng::rng_range(rng, 0, 2);
                if coin == 1 {
                    apply_horizontal_tunnel(&mut m.tiles, prev_x, new_x, prev_y);
                    apply_vertical_tunnel(&mut m.tiles, prev_y, new_y, new_x);
                } else {
                    apply_vertical_tunnel(&mut m.tiles, prev_y, new_y, prev_x);
                    apply_horizontal_tunnel(&mut m.tiles, prev_x, new_x, new_y);
                }
            }
            m.rooms.push(new_room);
        }
        i = i + 1;
    }
    // The way down sits in the last room's center.
    let last = m.rooms[m.rooms.len() - 1];
    let (stairs_x, stairs_y) = last.center();
    let stairs_idx = xy_idx(stairs_x, stairs_y);
    m.tiles[stairs_idx] = TileType::DownStairs;
    m
}

} // verus!
