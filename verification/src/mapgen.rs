//! Map generation: carving rooms and L-shaped corridors into an all-wall
//! grid. Whatever the dice produce, every accepted room's interior is floor,
//! the outermost ring stays wall, and accepted rooms never overlap.

use vstd::prelude::*;
use crate::geom::{Rect, rects_intersect};
use crate::map::{GameMap, TileType, MAPCOUNT};
use crate::rng::GameRng;
use crate::store::Entity;

verus! {

/// The row-major index of (x, y) on a grid of width `w`.
pub open spec fn cell(w: int, x: int, y: int) -> int {
    y * w + x
}

/// (x, y) lies in the carved interior of `room`.
pub open spec fn carve_room_cell(room: Rect, x: int, y: int) -> bool {
    room.x1 < x <= room.x2 && room.y1 < y <= room.y2
}

/// A candidate the generator can accept on an 80 x 50 map: between six and
/// nine tiles wide and high, and strictly inside the border ring.
pub open spec fn candidate_room(r: Rect) -> bool {
    &&& 0 <= r.x1
    &&& r.x1 + 6 <= r.x2 <= r.x1 + 9
    &&& r.x2 <= 78
    &&& 0 <= r.y1
    &&& r.y1 + 6 <= r.y2 <= r.y1 + 9
    &&& r.y2 <= 48
}


/// The x coordinate of a room's center, as the generator computes it.
pub open spec fn center_x(r: Rect) -> int {
    (r.x1 + r.x2) / 2
}

/// The y coordinate of a room's center.
pub open spec fn center_y(r: Rect) -> int {
    (r.y1 + r.y2) / 2
}

/// The horizontal run between xa and xb at row y is all floor.
pub open spec fn h_run_floor(tiles: Seq<TileType>, y: int, xa: int, xb: int) -> bool {
    forall|x: int| #![trigger cell(80, x, y)]
        (if xa <= xb {
            xa <= x <= xb
        } else {
            xb <= x <= xa
        }) ==> tiles[cell(80, x, y)] == TileType::Floor
}

/// The vertical run between ya and yb at column x is all floor.
pub open spec fn v_run_floor(tiles: Seq<TileType>, x: int, ya: int, yb: int) -> bool {
    forall|y: int| #![trigger cell(80, x, y)]
        (if ya <= yb {
            ya <= y <= yb
        } else {
            yb <= y <= ya
        }) ==> tiles[cell(80, x, y)] == TileType::Floor
}

/// The centers of `a` and `b` are joined by one L-shaped corridor: a
/// horizontal and a vertical floor run meeting at one of the two corners.
pub open spec fn corridor_links(tiles: Seq<TileType>, a: Rect, b: Rect) -> bool {
    let ax = center_x(a);
    let ay = center_y(a);
    let bx = center_x(b);
    let by = center_y(b);
    ||| (h_run_floor(tiles, ay, ax, bx) && v_run_floor(tiles, bx, ay, by))
    ||| (h_run_floor(tiles, by, ax, bx) && v_run_floor(tiles, ax, ay, by))
}

/// Every accepted room after the first is linked to its predecessor's
/// center by an L-shaped corridor of floor.
pub open spec fn rooms_linked(m: &GameMap) -> bool {
    forall|i: int|
        1 <= i < m.rooms@.len() ==> corridor_links(m.tiles@, (#[trigger] m.rooms@[i - 1]), m.rooms@[i])
}

/// A candidate room's center sits strictly inside the border ring.
proof fn lemma_center_bounds(r: Rect)
    requires
        candidate_room(r),
    ensures
        3 <= center_x(r) <= 78,
        3 <= center_y(r) <= 48,
{
}

/// `tiles` with the horizontal run xa..=xb of row y carved to floor.
pub open spec fn carve_row(tiles: Seq<TileType>, w: int, y: int, xa: int, xb: int) -> Seq<TileType>
    decreases xb + 1 - xa,
{
    if xa > xb {
        tiles
    } else {
        carve_row(tiles, w, y, xa, xb - 1).update(cell(w, xb, y), TileType::Floor)
    }
}

/// `tiles` with the vertical run ya..=yb of column x carved to floor.
pub open spec fn carve_col(tiles: Seq<TileType>, w: int, x: int, ya: int, yb: int) -> Seq<TileType>
    decreases yb + 1 - ya,
{
    if ya > yb {
        tiles
    } else {
        carve_col(tiles, w, x, ya, yb - 1).update(cell(w, x, yb), TileType::Floor)
    }
}

/// `tiles` with the interior rows of `room` down to row yb carved to floor.
pub open spec fn carve_rect(tiles: Seq<TileType>, w: int, room: Rect, yb: int) -> Seq<TileType>
    decreases yb + 1 - room.y1,
{
    if yb <= room.y1 {
        tiles
    } else {
        carve_row(carve_rect(tiles, w, room, yb - 1), w, yb, room.x1 + 1, room.x2 as int)
    }
}

proof fn lemma_cell_bounds(w: int, h: int, x: int, y: int)
    requires
        0 < w,
        0 < h,
        0 <= x < w,
        0 <= y < h,
    ensures
        0 <= cell(w, x, y) < w * h,
{
    assert(0 <= y * w + x < w * h) by (nonlinear_arith)
        requires
            0 <= x < w,
            0 <= y < h,
    ;
}

proof fn lemma_cell_inj(w: int, x1: int, y1: int, x2: int, y2: int)
    requires
        0 < w,
        0 <= x1 < w,
        0 <= x2 < w,
        cell(w, x1, y1) == cell(w, x2, y2),
    ensures
        x1 == x2 && y1 == y2,
{
    assert(x1 == x2 && y1 == y2) by (nonlinear_arith)
        requires
            0 <= x1 < w,
            0 <= x2 < w,
            y1 * w + x1 == y2 * w + x2,
    ;
}

/// Pointwise description of `carve_row`.
proof fn lemma_carve_row_char(tiles: Seq<TileType>, w: int, h: int, y: int, xa: int, xb: int)
    requires
        tiles.len() == w * h,
        0 < w,
        0 < h,
        0 <= y < h,
        0 <= xa,
        xb < w,
    ensures
        carve_row(tiles, w, y, xa, xb).len() == tiles.len(),
        forall|x2: int, y2: int| #![trigger cell(w, x2, y2)]
            0 <= x2 < w && 0 <= y2 < h ==> carve_row(tiles, w, y, xa, xb)[cell(w, x2, y2)] == (
            if y2 == y && xa <= x2 <= xb {
                TileType::Floor
            } else {
                tiles[cell(w, x2, y2)]
            }),
    decreases xb - xa + 1,
{
    if xa > xb {
    } else {
        lemma_carve_row_char(tiles, w, h, y, xa, xb - 1);
        lemma_cell_bounds(w, h, xb, y);
        assert forall|x2: int, y2: int| #![trigger cell(w, x2, y2)]
            0 <= x2 < w && 0 <= y2 < h implies carve_row(tiles, w, y, xa, xb)[cell(w, x2, y2)] == (
        if y2 == y && xa <= x2 <= xb {
            TileType::Floor
        } else {
            tiles[cell(w, x2, y2)]
        }) by {
            lemma_cell_bounds(w, h, x2, y2);
            if cell(w, x2, y2) == cell(w, xb, y) {
                lemma_cell_inj(w, x2, y2, xb, y);
            }
        }
    }
}

/// Pointwise description of `carve_col`.
proof fn lemma_carve_col_char(tiles: Seq<TileType>, w: int, h: int, x: int, ya: int, yb: int)
    requires
        tiles.len() == w * h,
        0 < w,
        0 < h,
        0 <= x < w,
        0 <= ya,
        yb < h,
    ensures
        carve_col(tiles, w, x, ya, yb).len() == tiles.len(),
        forall|x2: int, y2: int| #![trigger cell(w, x2, y2)]
            0 <= x2 < w && 0 <= y2 < h ==> carve_col(tiles, w, x, ya, yb)[cell(w, x2, y2)] == (
            if x2 == x && ya <= y2 <= yb {
                TileType::Floor
            } else {
                tiles[cell(w, x2, y2)]
            }),
    decreases yb - ya + 1,
{
    if ya > yb {
    } else {
        lemma_carve_col_char(tiles, w, h, x, ya, yb - 1);
        lemma_cell_bounds(w, h, x, yb);
        assert forall|x2: int, y2: int| #![trigger cell(w, x2, y2)]
            0 <= x2 < w && 0 <= y2 < h implies carve_col(tiles, w, x, ya, yb)[cell(w, x2, y2)] == (
        if x2 == x && ya <= y2 <= yb {
            TileType::Floor
        } else {
            tiles[cell(w, x2, y2)]
        }) by {
            lemma_cell_bounds(w, h, x2, y2);
            if cell(w, x2, y2) == cell(w, x, yb) {
                lemma_cell_inj(w, x2, y2, x, yb);
            }
        }
    }
}

/// Pointwise description of `carve_rect`.
proof fn lemma_carve_rect_char(tiles: Seq<TileType>, w: int, h: int, room: Rect, yb: int)
    requires
        tiles.len() == w * h,
        0 < w,
        0 < h,
        0 <= room.x1 < room.x2 < w,
        0 <= room.y1,
        yb < h,
    ensures
        carve_rect(tiles, w, room, yb).len() == tiles.len(),
        forall|x2: int, y2: int| #![trigger cell(w, x2, y2)]
            0 <= x2 < w && 0 <= y2 < h ==> carve_rect(tiles, w, room, yb)[cell(w, x2, y2)] == (
            if room.x1 < x2 <= room.x2 && room.y1 < y2 <= yb {
                TileType::Floor
            } else {
                tiles[cell(w, x2, y2)]
            }),
    decreases yb - room.y1 + 1,
{
    if yb <= room.y1 {
    } else {
        lemma_carve_rect_char(tiles, w, h, room, yb - 1);
        lemma_carve_row_char(carve_rect(tiles, w, room, yb - 1), w, h, yb, room.x1 + 1, room.x2 as int);
    }
}

/// Carve the horizontal run xa..=xb of row y to floor. Guarded per cell
/// against the very first and very last map index, so boundary walls cannot
/// be corrupted even by a degenerate call.
fn floor_run_h(tiles: Vec<TileType>, w: i32, h: i32, xa: i32, xb: i32, y: i32) -> (r: Vec<TileType>)
    requires
        tiles@.len() == w * h,
        0 < w,
        0 < h,
        w * h <= i32::MAX,
        1 <= xa <= xb <= w - 2,
        1 <= y <= h - 2,
    ensures
        r@ == carve_row(tiles@, w as int, y as int, xa as int, xb as int),
        r@.len() == tiles@.len(),
{
    let ghost orig = tiles@;
    let mut tiles = tiles;
    let mut x = xa;
    while x <= xb
        invariant
            orig.len() == w * h,
            0 < w,
            0 < h,
            w * h <= i32::MAX,
            1 <= xa <= x <= xb + 1,
            xb <= w - 2,
            1 <= y <= h - 2,
            tiles@ == carve_row(orig, w as int, y as int, xa as int, x - 1),
            tiles@.len() == orig.len(),
        decreases xb + 1 - x,
    {
        proof {
            lemma_cell_bounds(w as int, h as int, x as int, y as int);
            assert(cell(w as int, x as int, y as int) >= w) by (nonlinear_arith)
                requires
                    0 < w,
                    1 <= y,
                    0 <= x,
            ;
        }
        let idx = (y * w + x) as usize;
        if idx > 0 && idx < (w as usize) * (h as usize) {
            tiles[idx] = TileType::Floor;
        }
        x += 1;
    }
    tiles
}

/// Carve the vertical run ya..=yb of column x to floor, with the same
/// boundary guard.
fn floor_run_v(tiles: Vec<TileType>, w: i32, h: i32, ya: i32, yb: i32, x: i32) -> (r: Vec<TileType>)
    requires
        tiles@.len() == w * h,
        0 < w,
        0 < h,
        w * h <= i32::MAX,
        1 <= ya <= yb <= h - 2,
        1 <= x <= w - 2,
    ensures
        r@ == carve_col(tiles@, w as int, x as int, ya as int, yb as int),
        r@.len() == tiles@.len(),
{
    let ghost orig = tiles@;
    let mut tiles = tiles;
    let mut y = ya;
    while y <= yb
        invariant
            orig.len() == w * h,
            0 < w,
            0 < h,
            w * h <= i32::MAX,
            1 <= ya <= y <= yb + 1,
            yb <= h - 2,
            1 <= x <= w - 2,
            tiles@ == carve_col(orig, w as int, x as int, ya as int, y - 1),
            tiles@.len() == orig.len(),
        decreases yb + 1 - y,
    {
        proof {
            lemma_cell_bounds(w as int, h as int, x as int, y as int);
            assert(cell(w as int, x as int, y as int) >= w) by (nonlinear_arith)
                requires
                    0 < w,
                    1 <= y,
                    0 <= x,
            ;
        }
        let idx = (y * w + x) as usize;
        if idx > 0 && idx < (w as usize) * (h as usize) {
            tiles[idx] = TileType::Floor;
        }
        y += 1;
    }
    tiles
}

/// Carve the whole interior of `room` to floor, row by row.
fn floor_room(tiles: Vec<TileType>, w: i32, h: i32, room: &Rect) -> (r: Vec<TileType>)
    requires
        tiles@.len() == w * h,
        0 < w,
        0 < h,
        w * h <= i32::MAX,
        0 <= room.x1,
        room.x1 + 2 <= room.x2 <= w - 2,
        0 <= room.y1,
        room.y1 + 2 <= room.y2 <= h - 2,
    ensures
        r@ == carve_rect(tiles@, w as int, *room, room.y2 as int),
        r@.len() == tiles@.len(),
{
    let ghost orig = tiles@;
    let mut tiles = tiles;
    let mut y = room.y1 + 1;
    while y <= room.y2
        invariant
            orig.len() == w * h,
            0 < w,
            0 < h,
            w * h <= i32::MAX,
            0 <= room.x1,
            room.x1 + 2 <= room.x2 <= w - 2,
            0 <= room.y1,
            room.y1 + 2 <= room.y2 <= h - 2,
            room.y1 + 1 <= y <= room.y2 + 1,
            tiles@ == carve_rect(orig, w as int, *room, y - 1),
            tiles@.len() == orig.len(),
        decreases room.y2 + 1 - y,
    {
        proof {
            lemma_carve_rect_char(orig, w as int, h as int, *room, y - 1);
        }
        tiles = floor_run_h(tiles, w, h, room.x1 + 1, room.x2, y);
        y += 1;
    }
    tiles
}

/// Carving only turns wall into floor, so established corridor links
/// survive every later carve.
proof fn lemma_links_preserved(t0: Seq<TileType>, t1: Seq<TileType>, rooms: Seq<Rect>)
    requires
        forall|i: int| 0 <= i < rooms.len() ==> candidate_room(#[trigger] rooms[i]),
        forall|i: int|
            1 <= i < rooms.len() ==> corridor_links(t0, (#[trigger] rooms[i - 1]), rooms[i]),
        forall|x: int, y: int| #![trigger cell(80, x, y)]
            0 <= x < 80 && 0 <= y < 50 && t0[cell(80, x, y)] == TileType::Floor ==> t1[cell(
                80,
                x,
                y,
            )] == TileType::Floor,
    ensures
        forall|i: int|
            1 <= i < rooms.len() ==> corridor_links(t1, (#[trigger] rooms[i - 1]), rooms[i]),
{
    assert forall|i: int|
        1 <= i < rooms.len() implies corridor_links(t1, (#[trigger] rooms[i - 1]), rooms[i]) by {
        let a = rooms[i - 1];
        let b = rooms[i];
        lemma_center_bounds(a);
        lemma_center_bounds(b);
        let ax = center_x(a);
        let ay = center_y(a);
        let bx = center_x(b);
        let by = center_y(b);
        if h_run_floor(t0, ay, ax, bx) && v_run_floor(t0, bx, ay, by) {
            assert forall|x: int| #![trigger cell(80, x, ay)]
                (if ax <= bx {
                    ax <= x <= bx
                } else {
                    bx <= x <= ax
                }) implies t1[cell(80, x, ay)] == TileType::Floor by {
                assert(t0[cell(80, x, ay)] == TileType::Floor);
            }
            assert forall|y: int| #![trigger cell(80, bx, y)]
                (if ay <= by {
                    ay <= y <= by
                } else {
                    by <= y <= ay
                }) implies t1[cell(80, bx, y)] == TileType::Floor by {
                assert(t0[cell(80, bx, y)] == TileType::Floor);
            }
            assert(h_run_floor(t1, ay, ax, bx) && v_run_floor(t1, bx, ay, by));
        } else {
            assert(h_run_floor(t0, by, ax, bx) && v_run_floor(t0, ax, ay, by));
            assert forall|x: int| #![trigger cell(80, x, by)]
                (if ax <= bx {
                    ax <= x <= bx
                } else {
                    bx <= x <= ax
                }) implies t1[cell(80, x, by)] == TileType::Floor by {
                assert(t0[cell(80, x, by)] == TileType::Floor);
            }
            assert forall|y: int| #![trigger cell(80, ax, y)]
                (if ay <= by {
                    ay <= y <= by
                } else {
                    by <= y <= ay
                }) implies t1[cell(80, ax, y)] == TileType::Floor by {
                assert(t0[cell(80, ax, y)] == TileType::Floor);
            }
            assert(h_run_floor(t1, by, ax, bx) && v_run_floor(t1, ax, ay, by));
        }
    }
}

/// Every cell of every accepted room's interior is floor.
pub open spec fn rooms_carved(m: &GameMap) -> bool {
    forall|i: int, x: int, y: int| #![trigger carve_room_cell(m.rooms@[i], x, y)]
        0 <= i < m.rooms@.len() && m.in_map(x, y) && carve_room_cell(m.rooms@[i], x, y)
            ==> m.tile_at(x, y) == TileType::Floor
}

/// The outermost ring of the map is entirely wall.
pub open spec fn border_walled(m: &GameMap) -> bool {
    forall|x: int, y: int| #![trigger m.tile_at(x, y)]
        m.in_map(x, y) && !m.in_interior(x, y) ==> m.tile_at(x, y) == TileType::Wall
}

/// Accepted rooms are pairwise non-overlapping.
pub open spec fn rooms_disjoint(m: &GameMap) -> bool {
    forall|i: int, j: int| #![trigger m.rooms@[i], m.rooms@[j]]
        0 <= i < m.rooms@.len() && 0 <= j < m.rooms@.len() && i != j ==> !rects_intersect(
            m.rooms@[i],
            m.rooms@[j],
        )
}

/// The derived per-tile state is in its freshly generated form: nothing
/// revealed, nothing visible, nothing blocked, no occupants.
pub open spec fn derived_state_clear(m: &GameMap) -> bool {
    forall|i: int| #![all_triggers] 0 <= i < m.width * m.height ==> {
        &&& m.revealed_tiles@[i] == false
        &&& m.visible_tiles@[i] == false
        &&& m.blocked@[i] == false
        &&& m.tile_content@[i]@ == Seq::<Entity>::empty()
    }
}

/// The two runs of an L-corridor, the horizontal first: once both are
/// floor, the rooms' centers are linked.
proof fn lemma_l_hv(tb: Seq<TileType>, tc: Seq<TileType>, a: Rect, b: Rect)
    requires
        candidate_room(a),
        candidate_room(b),
        h_run_floor(tb, center_y(a), center_x(a), center_x(b)),
        forall|x: int, y: int| #![trigger cell(80, x, y)]
            0 <= x < 80 && 0 <= y < 50 && tb[cell(80, x, y)] == TileType::Floor ==> tc[cell(
                80,
                x,
                y,
            )] == TileType::Floor,
        v_run_floor(tc, center_x(b), center_y(a), center_y(b)),
    ensures
        corridor_links(tc, a, b),
{
    lemma_center_bounds(a);
    lemma_center_bounds(b);
    let ax = center_x(a);
    let ay = center_y(a);
    let bx = center_x(b);
    assert forall|x: int| #![trigger cell(80, x, ay)]
        (if ax <= bx {
            ax <= x <= bx
        } else {
            bx <= x <= ax
        }) implies tc[cell(80, x, ay)] == TileType::Floor by {
        assert(tb[cell(80, x, ay)] == TileType::Floor);
    }
    assert(h_run_floor(tc, ay, ax, bx));
}

/// The two runs of an L-corridor, the vertical ending at the old center.
proof fn lemma_l_vh(tb: Seq<TileType>, tc: Seq<TileType>, a: Rect, b: Rect)
    requires
        candidate_room(a),
        candidate_room(b),
        h_run_floor(tb, center_y(b), center_x(a), center_x(b)),
        forall|x: int, y: int| #![trigger cell(80, x, y)]
            0 <= x < 80 && 0 <= y < 50 && tb[cell(80, x, y)] == TileType::Floor ==> tc[cell(
                80,
                x,
                y,
            )] == TileType::Floor,
        v_run_floor(tc, center_x(a), center_y(a), center_y(b)),
    ensures
        corridor_links(tc, a, b),
{
    lemma_center_bounds(a);
    lemma_center_bounds(b);
    let ax = center_x(a);
    let ay = center_y(a);
    let bx = center_x(b);
    let by = center_y(b);
    assert forall|x: int| #![trigger cell(80, x, by)]
        (if ax <= bx {
            ax <= x <= bx
        } else {
            bx <= x <= ax
        }) implies tc[cell(80, x, by)] == TileType::Floor by {
        assert(tb[cell(80, x, by)] == TileType::Floor);
    }
    assert(h_run_floor(tc, by, ax, bx));
}

/// Accept one candidate room: carve its interior, link it to the previous
/// room's center with an L-shaped corridor (axis order by coin flip), and
/// append it, keeping every generator invariant.
#[verifier::rlimit(100)]
#[verifier::spinoff_prover]
fn accept_room(
    tiles: Vec<TileType>,
    rooms: Vec<Rect>,
    rng: &mut GameRng,
    new_room: Rect,
) -> (r: (Vec<TileType>, Vec<Rect>))
    requires
        tiles@.len() == 4000,
        candidate_room(new_room),
        forall|i: int| 0 <= i < rooms@.len() ==> candidate_room(#[trigger] rooms@[i]),
        forall|i: int, x: int, y: int| #![trigger carve_room_cell(rooms@[i], x, y)]
            0 <= i < rooms@.len() && carve_room_cell(rooms@[i], x, y) ==> tiles@[cell(80, x, y)]
                == TileType::Floor,
        forall|x: int, y: int| #![trigger cell(80, x, y)]
            0 <= x < 80 && 0 <= y < 50 && !(1 <= x <= 78 && 1 <= y <= 48) ==> tiles@[cell(
                80,
                x,
                y,
            )] == TileType::Wall,
        forall|i: int, j: int| #![trigger rooms@[i], rooms@[j]]
            0 <= i < rooms@.len() && 0 <= j < rooms@.len() && i != j ==> !rects_intersect(
                rooms@[i],
                rooms@[j],
            ),
        forall|i: int|
            1 <= i < rooms@.len() ==> corridor_links(
                tiles@,
                (#[trigger] rooms@[i - 1]),
                rooms@[i],
            ),
        forall|k: int| 0 <= k < rooms@.len() ==> !rects_intersect(
            new_room,
            #[trigger] rooms@[k],
        ),
    ensures
        r.0@.len() == 4000,
        r.1@.len() == rooms@.len() + 1,
        forall|i: int| 0 <= i < r.1@.len() ==> candidate_room(#[trigger] r.1@[i]),
        forall|i: int, x: int, y: int| #![trigger carve_room_cell(r.1@[i], x, y)]
            0 <= i < r.1@.len() && carve_room_cell(r.1@[i], x, y) ==> r.0@[cell(80, x, y)]
                == TileType::Floor,
        forall|x: int, y: int| #![trigger cell(80, x, y)]
            0 <= x < 80 && 0 <= y < 50 && !(1 <= x <= 78 && 1 <= y <= 48) ==> r.0@[cell(80, x, y)]
                == TileType::Wall,
        forall|i: int, j: int| #![trigger r.1@[i], r.1@[j]]
            0 <= i < r.1@.len() && 0 <= j < r.1@.len() && i != j ==> !rects_intersect(
                r.1@[i],
                r.1@[j],
            ),
        forall|i: int|
            1 <= i < r.1@.len() ==> corridor_links(r.0@, (#[trigger] r.1@[i - 1]), r.1@[i]),
{
    let mut tiles = tiles;
    let mut rooms = rooms;
        let ghost t0 = tiles@;
        tiles = floor_room(tiles, 80, 50, &new_room);
        proof {
            lemma_carve_rect_char(t0, 80, 50, new_room, new_room.y2 as int);
            lemma_generator_carve_step(t0, tiles@, rooms@, new_room);
            lemma_links_preserved(t0, tiles@, rooms@);
        }

        if rooms.len() > 0 {
            let (new_x, new_y) = new_room.center();
            let last = rooms.len() - 1;
            let (prev_x, prev_y) = rooms[last].center();
            proof {
                assert(candidate_room(rooms@[last as int]));
            }

            let ghost prev_room = rooms@[last as int];
            let coin = rng.range(0, 2);
            if coin == 1 {
                let ghost t1 = tiles@;
                let lo = if prev_x < new_x { prev_x } else { new_x };
                let hi = if prev_x < new_x { new_x } else { prev_x };
                tiles = floor_run_h(tiles, 80, 50, lo, hi, prev_y);
                proof {
                    lemma_carve_row_char(t1, 80, 50, prev_y as int, lo as int, hi as int);
                    lemma_generator_tunnel_step(t1, tiles@, rooms@, new_room);
                    lemma_links_preserved(t1, tiles@, rooms@);
                    assert(h_run_floor(
                        tiles@,
                        prev_y as int,
                        prev_x as int,
                        new_x as int,
                    ));
                }
                let ghost t2 = tiles@;
                let lo2 = if prev_y < new_y { prev_y } else { new_y };
                let hi2 = if prev_y < new_y { new_y } else { prev_y };
                tiles = floor_run_v(tiles, 80, 50, lo2, hi2, new_x);
                proof {
                    lemma_carve_col_char(t2, 80, 50, new_x as int, lo2 as int, hi2 as int);
                    lemma_generator_tunnel_step(t2, tiles@, rooms@, new_room);
                    lemma_links_preserved(t2, tiles@, rooms@);
                    assert(v_run_floor(
                        tiles@,
                        new_x as int,
                        prev_y as int,
                        new_y as int,
                    ));
                    lemma_l_hv(t2, tiles@, prev_room, new_room);
                }
            } else {
                let ghost t1 = tiles@;
                let lo = if prev_x < new_x { prev_x } else { new_x };
                let hi = if prev_x < new_x { new_x } else { prev_x };
                tiles = floor_run_h(tiles, 80, 50, lo, hi, new_y);
                proof {
                    lemma_carve_row_char(t1, 80, 50, new_y as int, lo as int, hi as int);
                    lemma_generator_tunnel_step(t1, tiles@, rooms@, new_room);
                    lemma_links_preserved(t1, tiles@, rooms@);
                    assert(h_run_floor(
                        tiles@,
                        new_y as int,
                        prev_x as int,
                        new_x as int,
                    ));
                }
                let ghost t2 = tiles@;
                let lo2 = if prev_y < new_y { prev_y } else { new_y };
                let hi2 = if prev_y < new_y { new_y } else { prev_y };
                tiles = floor_run_v(tiles, 80, 50, lo2, hi2, prev_x);
                proof {
                    lemma_carve_col_char(t2, 80, 50, prev_x as int, lo2 as int, hi2 as int);
                    lemma_generator_tunnel_step(t2, tiles@, rooms@, new_room);
                    lemma_links_preserved(t2, tiles@, rooms@);
                    assert(v_run_floor(
                        tiles@,
                        prev_x as int,
                        prev_y as int,
                        new_y as int,
                    ));
                    lemma_l_vh(t2, tiles@, prev_room, new_room);
                }
            }
        }

        let ghost rooms_pre = rooms@;
        rooms.push(new_room);
        proof {
            assert forall|i: int|
                1 <= i < rooms@.len() implies corridor_links(
                tiles@,
                (#[trigger] rooms@[i - 1]),
                rooms@[i],
            ) by {
                if i < rooms_pre.len() {
                    assert(rooms@[i - 1] == rooms_pre[i - 1]);
                    assert(rooms@[i] == rooms_pre[i]);
                    assert(corridor_links(tiles@, rooms_pre[i - 1], rooms_pre[i]));
                } else {
                    assert(i == rooms_pre.len());
                    assert(rooms@[i] == new_room);
                    assert(rooms@[i - 1] == rooms_pre[i - 1]);
                }
            }
        }
    (tiles, rooms)
}

impl GameMap {
    /// Map with a number of rooms connected with corridors. Room placement
    /// and sizes come from the dice; the ensured properties hold for every
    /// outcome: at least one room, every accepted room inside the border
    /// with its interior carved to floor, the outermost ring all wall, no
    /// two accepted rooms overlapping, and each accepted room's center
    /// joined to the previous one's by an L-shaped corridor of floor.
    #[verifier::rlimit(100)]
    pub fn new_map_rooms_and_corridors() -> (r: GameMap)
        ensures
            r.wf(),
            r.width == 80,
            r.height == 50,
            1 <= r.rooms@.len() <= 30,
            forall|i: int| 0 <= i < r.rooms@.len() ==> candidate_room(#[trigger] r.rooms@[i]),
            rooms_carved(&r),
            border_walled(&r),
            rooms_disjoint(&r),
            rooms_linked(&r),
            derived_state_clear(&r),
    {
        let mut tiles: Vec<TileType> = vec![TileType::Wall; MAPCOUNT];
        let mut rooms: Vec<Rect> = Vec::new();
        let mut rng = GameRng::new();

        proof {
            assert(forall|i: int| 0 <= i < 4000 ==> #[trigger] tiles@[i] == TileType::Wall);
        }

        let mut attempt: i32 = 0;
        while attempt < 30
            invariant
                tiles@.len() == 4000,
                0 <= attempt <= 30,
                rooms@.len() <= attempt,
                attempt >= 1 ==> rooms@.len() >= 1,
                forall|i: int| 0 <= i < rooms@.len() ==> candidate_room(#[trigger] rooms@[i]),
                forall|i: int, x: int, y: int| #![trigger carve_room_cell(rooms@[i], x, y)]
                    0 <= i < rooms@.len() && carve_room_cell(rooms@[i], x, y)
                        ==> tiles@[cell(80, x, y)] == TileType::Floor,
                forall|x: int, y: int| #![trigger cell(80, x, y)]
                    0 <= x < 80 && 0 <= y < 50 && !(1 <= x <= 78 && 1 <= y <= 48)
                        ==> tiles@[cell(80, x, y)] == TileType::Wall,
                forall|i: int, j: int| #![trigger rooms@[i], rooms@[j]]
                    0 <= i < rooms@.len() && 0 <= j < rooms@.len() && i != j ==> !rects_intersect(
                        rooms@[i],
                        rooms@[j],
                    ),
                forall|i: int|
                    1 <= i < rooms@.len() ==> corridor_links(
                        tiles@,
                        (#[trigger] rooms@[i - 1]),
                        rooms@[i],
                    ),
            decreases 30 - attempt,
        {
            let w = rng.range(6, 10);
            let h = rng.range(6, 10);
            let x = rng.roll_dice(1, 80 - w - 1) - 1;
            let y = rng.roll_dice(1, 50 - h - 1) - 1;

            let new_room = Rect::new(x, y, w, h);
            assert(candidate_room(new_room));

            let mut ok = true;
            let mut j: usize = 0;
            while j < rooms.len()
                invariant
                    j <= rooms@.len(),
                    ok <==> (forall|k: int| 0 <= k < j ==> !rects_intersect(
                        new_room,
                        #[trigger] rooms@[k],
                    )),
                decreases rooms@.len() - j,
            {
                if new_room.intersect(&rooms[j]) {
                    ok = false;
                }
                j += 1;
            }

            if ok {
                let out = accept_room(tiles, rooms, &mut rng, new_room);
                tiles = out.0;
                rooms = out.1;
            }
            attempt += 1;
        }

        let revealed_tiles: Vec<bool> = vec![false; MAPCOUNT];
        let visible_tiles: Vec<bool> = vec![false; MAPCOUNT];
        let blocked: Vec<bool> = vec![false; MAPCOUNT];
        let tile_content: Vec<Vec<Entity>> = vec![Vec::new(); MAPCOUNT];

        let r = GameMap {
            tiles,
            rooms,
            width: 80,
            height: 50,
            revealed_tiles,
            visible_tiles,
            blocked,
            tile_content,
        };
        proof {
            assert forall|i: int, x: int, y: int| #![trigger carve_room_cell(r.rooms@[i], x, y)]
                0 <= i < r.rooms@.len() && r.in_map(x, y) && carve_room_cell(
                r.rooms@[i],
                x,
                y,
            ) implies r.tile_at(x, y) == TileType::Floor by {
                assert(r.tiles@[cell(80, x, y)] == TileType::Floor);
            }
            assert forall|x: int, y: int| #![trigger r.tile_at(x, y)]
                r.in_map(x, y) && !r.in_interior(x, y) implies r.tile_at(x, y)
                == TileType::Wall by {
                assert(r.tiles@[cell(80, x, y)] == TileType::Wall);
            }
            assert(rooms_linked(&r));
        }
        r
    }

    /// Test map: a solid 80 x 50 field of wall with boundary walls redrawn
    /// and 400 random wall placements, sparing only the centre index.
    pub fn new_map_test() -> (r: GameMap)
        ensures
            r.wf(),
            r.width == 80,
            r.height == 50,
            r.rooms@.len() == 0,
            forall|i: int| 0 <= i < 4000 ==> r.tiles@[i] == TileType::Wall,
            derived_state_clear(&r),
    {
        let tiles: Vec<TileType> = vec![TileType::Wall; MAPCOUNT];
        let revealed_tiles: Vec<bool> = vec![false; MAPCOUNT];
        let visible_tiles: Vec<bool> = vec![false; MAPCOUNT];
        let blocked: Vec<bool> = vec![false; MAPCOUNT];
        let tile_content: Vec<Vec<Entity>> = vec![Vec::new(); MAPCOUNT];
        let mut map = GameMap {
            tiles,
            rooms: Vec::new(),
            width: 80,
            height: 50,
            revealed_tiles,
            visible_tiles,
            blocked,
            tile_content,
        };

        let mut x: i32 = 0;
        while x < 80
            invariant
                0 <= x,
                map.wf(),
                map.width == 80,
                map.height == 50,
                map.rooms@.len() == 0,
                forall|i: int| 0 <= i < 4000 ==> map.tiles@[i] == TileType::Wall,
                derived_state_clear(&map),
            decreases 80 - x,
        {
            let idx1 = map.xy_idx(x, 0);
            let idx2 = map.xy_idx(x, 49);
            map.tiles[idx1] = TileType::Wall;
            map.tiles[idx2] = TileType::Wall;
            x += 1;
        }
        let mut y: i32 = 0;
        while y < 50
            invariant
                0 <= y,
                map.wf(),
                map.width == 80,
                map.height == 50,
                map.rooms@.len() == 0,
                forall|i: int| 0 <= i < 4000 ==> map.tiles@[i] == TileType::Wall,
                derived_state_clear(&map),
            decreases 50 - y,
        {
            let idx1 = map.xy_idx(0, y);
            let idx2 = map.xy_idx(79, y);
            map.tiles[idx1] = TileType::Wall;
            map.tiles[idx2] = TileType::Wall;
            y += 1;
        }

        let mut rng = GameRng::new();
        let mut i: i32 = 0;
        while i < 400
            invariant
                map.wf(),
                map.width == 80,
                map.height == 50,
                map.rooms@.len() == 0,
                forall|k: int| 0 <= k < 4000 ==> map.tiles@[k] == TileType::Wall,
                derived_state_clear(&map),
            decreases 400 - i,
        {
            let rx = rng.roll_dice(1, 79);
            let ry = rng.roll_dice(1, 49);
            let idx = map.xy_idx(rx, ry);
            if idx != map.xy_idx(40, 25) {
                map.tiles[idx] = TileType::Wall;
            }
            i += 1;
        }

        map
    }
}

/// After carving a candidate room, previously carved rooms stay floor and
/// the border stays wall.
proof fn lemma_generator_carve_step(
    t0: Seq<TileType>,
    t1: Seq<TileType>,
    rooms: Seq<Rect>,
    new_room: Rect,
)
    requires
        t0.len() == 4000,
        t1.len() == 4000,
        candidate_room(new_room),
        forall|x2: int, y2: int| #![trigger cell(80, x2, y2)]
            0 <= x2 < 80 && 0 <= y2 < 50 ==> t1[cell(80, x2, y2)] == (if new_room.x1 < x2
                <= new_room.x2 && new_room.y1 < y2 <= new_room.y2 {
                TileType::Floor
            } else {
                t0[cell(80, x2, y2)]
            }),
        forall|i: int| 0 <= i < rooms.len() ==> candidate_room(#[trigger] rooms[i]),
        forall|i: int, x: int, y: int| #![trigger carve_room_cell(rooms[i], x, y)]
            0 <= i < rooms.len() && carve_room_cell(rooms[i], x, y) ==> t0[cell(80, x, y)]
                == TileType::Floor,
        forall|x: int, y: int| #![trigger cell(80, x, y)]
            0 <= x < 80 && 0 <= y < 50 && !(1 <= x <= 78 && 1 <= y <= 48) ==> t0[cell(80, x, y)]
                == TileType::Wall,
    ensures
        forall|i: int, x: int, y: int| #![trigger carve_room_cell(rooms[i], x, y)]
            0 <= i < rooms.len() && carve_room_cell(rooms[i], x, y) ==> t1[cell(80, x, y)]
                == TileType::Floor,
        forall|x: int, y: int| #![trigger cell(80, x, y)]
            0 <= x < 80 && 0 <= y < 50 && !(1 <= x <= 78 && 1 <= y <= 48) ==> t1[cell(80, x, y)]
                == TileType::Wall,
        forall|x: int, y: int| #![trigger cell(80, x, y)]
            carve_room_cell(new_room, x, y) ==> t1[cell(80, x, y)] == TileType::Floor,
        forall|x: int, y: int| #![trigger cell(80, x, y)]
            0 <= x < 80 && 0 <= y < 50 && t0[cell(80, x, y)] == TileType::Floor ==> t1[cell(
                80,
                x,
                y,
            )] == TileType::Floor,
{
    assert forall|i: int, x: int, y: int| #![trigger carve_room_cell(rooms[i], x, y)]
        0 <= i < rooms.len() && carve_room_cell(rooms[i], x, y) implies t1[cell(80, x, y)]
        == TileType::Floor by {
        assert(candidate_room(rooms[i]));
        assert(t0[cell(80, x, y)] == TileType::Floor);
    }
    assert forall|x: int, y: int| #![trigger cell(80, x, y)]
        carve_room_cell(new_room, x, y) implies t1[cell(80, x, y)] == TileType::Floor by {
        assert(0 <= x < 80 && 0 <= y < 50);
    }
}

/// A corridor carve only turns cells to floor, so carved rooms stay floor;
/// and it stays inside the border ring, so the border stays wall.
proof fn lemma_generator_tunnel_step(
    t0: Seq<TileType>,
    t1: Seq<TileType>,
    rooms: Seq<Rect>,
    new_room: Rect,
)
    requires
        t0.len() == 4000,
        t1.len() == 4000,
        candidate_room(new_room),
        forall|x2: int, y2: int| #![trigger cell(80, x2, y2)]
            0 <= x2 < 80 && 0 <= y2 < 50 ==> (t1[cell(80, x2, y2)] == t0[cell(80, x2, y2)]
                || (t1[cell(80, x2, y2)] == TileType::Floor && 1 <= x2 <= 78 && 1 <= y2 <= 48)),
        forall|i: int| 0 <= i < rooms.len() ==> candidate_room(#[trigger] rooms[i]),
        forall|i: int, x: int, y: int| #![trigger carve_room_cell(rooms[i], x, y)]
            0 <= i < rooms.len() && carve_room_cell(rooms[i], x, y) ==> t0[cell(80, x, y)]
                == TileType::Floor,
        forall|x: int, y: int| #![trigger cell(80, x, y)]
            0 <= x < 80 && 0 <= y < 50 && !(1 <= x <= 78 && 1 <= y <= 48) ==> t0[cell(80, x, y)]
                == TileType::Wall,
        forall|x: int, y: int| #![trigger cell(80, x, y)]
            carve_room_cell(new_room, x, y) ==> t0[cell(80, x, y)] == TileType::Floor,
    ensures
        forall|i: int, x: int, y: int| #![trigger carve_room_cell(rooms[i], x, y)]
            0 <= i < rooms.len() && carve_room_cell(rooms[i], x, y) ==> t1[cell(80, x, y)]
                == TileType::Floor,
        forall|x: int, y: int| #![trigger cell(80, x, y)]
            0 <= x < 80 && 0 <= y < 50 && !(1 <= x <= 78 && 1 <= y <= 48) ==> t1[cell(80, x, y)]
                == TileType::Wall,
        forall|x: int, y: int| #![trigger cell(80, x, y)]
            carve_room_cell(new_room, x, y) ==> t1[cell(80, x, y)] == TileType::Floor,
        forall|x: int, y: int| #![trigger cell(80, x, y)]
            0 <= x < 80 && 0 <= y < 50 && t0[cell(80, x, y)] == TileType::Floor ==> t1[cell(
                80,
                x,
                y,
            )] == TileType::Floor,
{
    assert forall|i: int, x: int, y: int| #![trigger carve_room_cell(rooms[i], x, y)]
        0 <= i < rooms.len() && carve_room_cell(rooms[i], x, y) implies t1[cell(80, x, y)]
        == TileType::Floor by {
        assert(candidate_room(rooms[i]));
        assert(t0[cell(80, x, y)] == TileType::Floor);
        assert(0 <= x < 80 && 0 <= y < 50);
    }
    assert forall|x: int, y: int| #![trigger cell(80, x, y)]
        carve_room_cell(new_room, x, y) implies t1[cell(80, x, y)] == TileType::Floor by {
        assert(t0[cell(80, x, y)] == TileType::Floor);
        assert(0 <= x < 80 && 0 <= y < 50);
    }
}


} // verus!
