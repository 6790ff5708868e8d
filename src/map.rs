use vstd::prelude::*;

use crate::geometry::Pos;

verus! {

/// Width of a tile, in thousandths of a pixel.
pub const TILE_WIDTH: i64 = 128_000;
/// Height of a tile, in thousandths of a pixel.
pub const TILE_HEIGHT: i64 = 63_000;
/// The largest tile coordinate whose place lies inside the play field
/// (`COORD_LIMIT / TILE_WIDTH`).
pub const MAX_TILE: u64 = 7_812_500_000;

/// What a tile of the map holds besides its grass.
#[derive(Clone, Copy, Debug, PartialEq, Eq, Structural)]
pub enum MapObject {
    Plain,
    Hole,
    Fence,
}

/// The fence piece drawn on a border tile.
#[derive(Clone, Copy, Debug, PartialEq, Eq, Structural)]
pub enum Border {
    CornerBottomRight,
    CornerTopRight,
    CornerBottomLeft,
    CornerTopLeft,
    Vertical,
    Horizontal,
}

/// A level's layout: its size in tiles, where the player and the chickens
/// start, and the object on each tile, row by row.
pub struct MapDefinition {
    pub width: usize,
    pub height: usize,
    pub player_spawn: (usize, usize),
    pub chicken_spawns: Vec<(usize, usize)>,
    pub map_objects: Vec<Vec<MapObject>>,
}

/// The object pattern of every row of the farm.
pub open spec fn farm_row() -> Seq<MapObject> {
    seq![
        MapObject::Plain, MapObject::Plain, MapObject::Plain, MapObject::Hole,
        MapObject::Plain, MapObject::Plain, MapObject::Hole, MapObject::Plain,
        MapObject::Hole, MapObject::Plain, MapObject::Plain, MapObject::Plain,
    ]
}

/// The place of tile `(x, y)`: columns go right, rows go down.
pub open spec fn tile_spec(x: int, y: int) -> Pos {
    Pos { x: (x * TILE_WIDTH) as i64, y: (-(y * TILE_HEIGHT)) as i64 }
}

/// The fence piece on tile `(x, y)` of a `width` by `height` map, if any:
/// corners first, then the left and right edges, then the top and bottom.
pub open spec fn border_spec(x: int, y: int, width: int, height: int) -> Option<Border> {
    if x == 0 && y == 0 {
        Some(Border::CornerBottomRight)
    } else if x == 0 && y == height - 1 {
        Some(Border::CornerTopRight)
    } else if y == 0 && x == width - 1 {
        Some(Border::CornerBottomLeft)
    } else if y == height - 1 && x == width - 1 {
        Some(Border::CornerTopLeft)
    } else if x == 0 || x == width - 1 {
        Some(Border::Vertical)
    } else if y == 0 || y == height - 1 {
        Some(Border::Horizontal)
    } else {
        None
    }
}

impl MapDefinition {
    pub open spec fn wf(&self) -> bool {
        &&& 0 < self.width <= MAX_TILE
        &&& 0 < self.height <= MAX_TILE
        &&& self.player_spawn.0 < MAX_TILE
        &&& self.player_spawn.1 < MAX_TILE
        &&& self.player_spawn.0 < usize::MAX
        &&& self.player_spawn.1 < usize::MAX
        &&& forall|i: int| 0 <= i < self.chicken_spawns@.len() ==>
            (#[trigger] self.chicken_spawns@[i]).0 <= MAX_TILE && self.chicken_spawns@[i].1 <= MAX_TILE
    }

    /// The farm: 12 by 8 tiles, every row with the same holes.
    pub fn new() -> (m: MapDefinition)
        ensures
            m.wf(),
            m.width == 12,
            m.height == 8,
            m.player_spawn == (4usize, 3usize),
            m.chicken_spawns@ == seq![(3usize, 2usize), (2, 2), (3, 3), (4, 4), (5, 5)],
            m.map_objects@.len() == 8,
            forall|r: int| 0 <= r < 8 ==> (#[trigger] m.map_objects@[r])@ == farm_row(),
    {
        let map_objects_row: Vec<MapObject> = vec![
            MapObject::Plain, MapObject::Plain, MapObject::Plain, MapObject::Hole,
            MapObject::Plain, MapObject::Plain, MapObject::Hole, MapObject::Plain,
            MapObject::Hole, MapObject::Plain, MapObject::Plain, MapObject::Plain,
        ];
        assert(map_objects_row@ =~= farm_row());
        let mut map_objects: Vec<Vec<MapObject>> = Vec::new();
        let mut r: usize = 0;
        while r < 8
            invariant
                r <= 8,
                map_objects_row@ == farm_row(),
                map_objects@.len() == r,
                forall|k: int| 0 <= k < r ==> (#[trigger] map_objects@[k])@ == farm_row(),
            decreases 8 - r,
        {
            let mut row: Vec<MapObject> = Vec::new();
            let mut c: usize = 0;
            while c < map_objects_row.len()
                invariant
                    c <= map_objects_row@.len(),
                    row@ == map_objects_row@.take(c as int),
                decreases map_objects_row@.len() - c,
            {
                row.push(map_objects_row[c]);
                c = c + 1;
                assert(row@ =~= map_objects_row@.take(c as int));
            }
            assert(row@ =~= map_objects_row@);
            map_objects.push(row);
            r = r + 1;
        }
        let chicken_spawns: Vec<(usize, usize)> = vec![(3, 2), (2, 2), (3, 3), (4, 4), (5, 5)];
        let m = MapDefinition { width: 12, height: 8, player_spawn: (4, 3), chicken_spawns, map_objects };
        assert(m.chicken_spawns@ =~= seq![(3usize, 2usize), (2, 2), (3, 3), (4, 4), (5, 5)]);
        m
    }

    /// The object on tile `(x, y)`, or `None` off the map's rows.
    pub open spec fn object_spec(&self, x: int, y: int) -> Option<MapObject> {
        if 0 <= y < self.map_objects@.len() && 0 <= x < self.map_objects@[y]@.len() {
            Some(self.map_objects@[y]@[x])
        } else {
            None
        }
    }

    /// The object on tile `(x, y)`.
    pub fn object_at(&self, x: usize, y: usize) -> (r: Option<MapObject>)
        ensures
            r == self.object_spec(x as int, y as int),
    {
        if y < self.map_objects.len() && x < self.map_objects[y].len() {
            Some(self.map_objects[y][x])
        } else {
            None
        }
    }

    /// The fence piece on tile `(x, y)`.
    pub fn border_at(&self, x: usize, y: usize) -> (r: Option<Border>)
        requires
            self.wf(),
        ensures
            r == border_spec(x as int, y as int, self.width as int, self.height as int),
    {
        if x == 0 && y == 0 {
            Some(Border::CornerBottomRight)
        } else if x == 0 && y == self.height - 1 {
            Some(Border::CornerTopRight)
        } else if y == 0 && x == self.width - 1 {
            Some(Border::CornerBottomLeft)
        } else if y == self.height - 1 && x == self.width - 1 {
            Some(Border::CornerTopLeft)
        } else if x == 0 || x == self.width - 1 {
            Some(Border::Vertical)
        } else if y == 0 || y == self.height - 1 {
            Some(Border::Horizontal)
        } else {
            None
        }
    }
}

/// The place of tile `(x, y)` on the play field.
pub fn get_vector_for_tile(x: usize, y: usize) -> (r: Pos)
    requires
        x <= MAX_TILE,
        y <= MAX_TILE,
    ensures
        r == tile_spec(x as int, y as int),
        r.wf(),
{
    assert(x * TILE_WIDTH <= MAX_TILE * TILE_WIDTH) by (nonlinear_arith)
        requires x <= MAX_TILE;
    assert(y * TILE_HEIGHT <= MAX_TILE * TILE_HEIGHT) by (nonlinear_arith)
        requires y <= MAX_TILE;
    Pos { x: x as i64 * TILE_WIDTH, y: -(y as i64 * TILE_HEIGHT) }
}

} // verus!
