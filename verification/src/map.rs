//! The tile map: a 2-D grid of tile kinds plus derived per-tile state
//! (visibility, blocking, occupant lists) and the list of generated rooms.

use vstd::prelude::*;
use crate::geom::Rect;
use crate::store::Entity;

verus! {

pub const MAPWIDTH: usize = 80;
pub const MAPHEIGHT: usize = 50;
pub const MAPCOUNT: usize = MAPWIDTH * MAPHEIGHT;

#[derive(Clone, Copy, PartialEq, Eq, Structural, Debug)]
pub enum TileType {
    Wall,
    Floor,
}

/// The map: tile kinds, the generated rooms, and derived per-tile state.
/// `blocked` and `tile_content` are rebuilt from scratch every tick by the
/// indexing system, never incrementally maintained.
pub struct GameMap {
    pub tiles: Vec<TileType>,
    pub rooms: Vec<Rect>,
    pub width: i32,
    pub height: i32,
    pub revealed_tiles: Vec<bool>,
    pub visible_tiles: Vec<bool>,
    pub blocked: Vec<bool>,
    pub tile_content: Vec<Vec<Entity>>,
}

impl GameMap {
    /// Well-formedness: positive dimensions that fit machine arithmetic, and
    /// every per-tile vector exactly one slot per tile.
    pub open spec fn wf(&self) -> bool {
        &&& 0 < self.width
        &&& 0 < self.height
        &&& self.width * self.height <= i32::MAX
        &&& self.tiles@.len() == self.width * self.height
        &&& self.revealed_tiles@.len() == self.width * self.height
        &&& self.visible_tiles@.len() == self.width * self.height
        &&& self.blocked@.len() == self.width * self.height
        &&& self.tile_content@.len() == self.width * self.height
    }

    /// The row-major index of (x, y).
    pub open spec fn spec_idx(&self, x: int, y: int) -> int {
        y * self.width + x
    }

    /// (x, y) lies on the map.
    pub open spec fn in_map(&self, x: int, y: int) -> bool {
        0 <= x < self.width && 0 <= y < self.height
    }

    /// (x, y) lies strictly inside the outermost ring of the map.
    pub open spec fn in_interior(&self, x: int, y: int) -> bool {
        1 <= x < self.width - 1 && 1 <= y < self.height - 1
    }

    /// The tile kind at (x, y).
    pub open spec fn tile_at(&self, x: int, y: int) -> TileType {
        self.tiles@[self.spec_idx(x, y)]
    }

    /// The row-major index of an on-map coordinate is in range.
    pub proof fn lemma_idx_bounds(&self, x: int, y: int)
        requires
            self.wf(),
            self.in_map(x, y),
        ensures
            0 <= self.spec_idx(x, y) < self.width * self.height,
    {
        assert(0 <= y * self.width + x < self.width * self.height) by (nonlinear_arith)
            requires
                0 <= x < self.width,
                0 <= y < self.height,
        ;
    }

    /// Distinct on-map coordinates have distinct row-major indices.
    pub proof fn lemma_idx_injective(&self, x1: int, y1: int, x2: int, y2: int)
        requires
            self.wf(),
            self.in_map(x1, y1),
            self.in_map(x2, y2),
            self.spec_idx(x1, y1) == self.spec_idx(x2, y2),
        ensures
            x1 == x2 && y1 == y2,
    {
        assert(x1 == x2 && y1 == y2) by (nonlinear_arith)
            requires
                0 <= x1 < self.width,
                0 <= x2 < self.width,
                0 <= y1 < self.height,
                0 <= y2 < self.height,
                y1 * self.width + x1 == y2 * self.width + x2,
        ;
    }

    pub fn xy_idx(&self, x: i32, y: i32) -> (r: usize)
        requires
            self.wf(),
            self.in_map(x as int, y as int),
        ensures
            r == self.spec_idx(x as int, y as int),
            r < self.tiles@.len(),
    {
        proof {
            self.lemma_idx_bounds(x as int, y as int);
        }
        (y * self.width + x) as usize
    }

    /// Opaqueness for field-of-view purposes is exactly "tile kind is Wall".
    pub fn is_opaque(&self, idx: usize) -> (r: bool)
        requires
            idx < self.tiles@.len(),
        ensures
            r == (self.tiles@[idx as int] == TileType::Wall),
    {
        self.tiles[idx] == TileType::Wall
    }

    /// Reset `blocked` to the "wall implies blocked" baseline.
    pub fn populate_blocked(&mut self)
        requires
            old(self).wf(),
        ensures
            final(self).wf(),
            final(self).blocked@.len() == old(self).blocked@.len(),
            forall|i: int| 0 <= i < final(self).blocked@.len()
                ==> final(self).blocked@[i] == (old(self).tiles@[i] == TileType::Wall),
            final(self).tiles == old(self).tiles,
            final(self).rooms == old(self).rooms,
            final(self).width == old(self).width,
            final(self).height == old(self).height,
            final(self).revealed_tiles == old(self).revealed_tiles,
            final(self).visible_tiles == old(self).visible_tiles,
            final(self).tile_content == old(self).tile_content,
    {
        let n = self.blocked.len();
        let mut i: usize = 0;
        while i < n
            invariant
                self.wf(),
                n == self.blocked@.len(),
                n == self.tiles@.len(),
                i <= n,
                forall|j: int| 0 <= j < i
                    ==> self.blocked@[j] == (old(self).tiles@[j] == TileType::Wall),
                self.tiles == old(self).tiles,
                self.rooms == old(self).rooms,
                self.width == old(self).width,
                self.height == old(self).height,
                self.revealed_tiles == old(self).revealed_tiles,
                self.visible_tiles == old(self).visible_tiles,
                self.tile_content == old(self).tile_content,
            decreases n - i,
        {
            self.blocked[i] = self.tiles[i] == TileType::Wall;
            i += 1;
        }
    }

    /// Empty every tile's occupant list, keeping one list per tile. The
    /// indexing system rebuilds the lists from current positions afterwards.
    pub fn clear_content_index(&mut self)
        requires
            old(self).wf(),
        ensures
            final(self).wf(),
            final(self).tile_content@.len() == old(self).tile_content@.len(),
            forall|i: int| 0 <= i < final(self).tile_content@.len()
                ==> final(self).tile_content@[i]@ == Seq::<Entity>::empty(),
            final(self).tiles == old(self).tiles,
            final(self).rooms == old(self).rooms,
            final(self).width == old(self).width,
            final(self).height == old(self).height,
            final(self).revealed_tiles == old(self).revealed_tiles,
            final(self).visible_tiles == old(self).visible_tiles,
            final(self).blocked == old(self).blocked,
    {
        let n = self.tile_content.len();
        let mut i: usize = 0;
        while i < n
            invariant
                self.wf(),
                n == self.tile_content@.len(),
                i <= n,
                forall|j: int| 0 <= j < i ==> self.tile_content@[j]@ == Seq::<Entity>::empty(),
                self.tiles == old(self).tiles,
                self.rooms == old(self).rooms,
                self.width == old(self).width,
                self.height == old(self).height,
                self.revealed_tiles == old(self).revealed_tiles,
                self.visible_tiles == old(self).visible_tiles,
                self.blocked == old(self).blocked,
            decreases n - i,
        {
            let empty: Vec<Entity> = Vec::new();
            self.tile_content[i] = empty;
            i += 1;
        }
    }
}

} // verus!
