//! Field of view by ray casting: a tile is visible from a viewer when it
//! lies within the viewer's range (by Euclidean distance) and no wall stands
//! strictly between the two on the stepped line connecting them.

use vstd::prelude::*;
use crate::geom::{Point, dist2};
use crate::map::{GameMap, TileType};

verus! {

pub open spec fn abs_i(v: int) -> int {
    if v < 0 {
        -v
    } else {
        v
    }
}

pub open spec fn sign_i(v: int) -> int {
    if v > 0 {
        1
    } else if v < 0 {
        -1
    } else {
        0
    }
}

/// Chebyshev distance: the number of steps the line walker takes.
pub open spec fn cheb(ax: int, ay: int, bx: int, by: int) -> int {
    if abs_i(bx - ax) > abs_i(by - ay) {
        abs_i(bx - ax)
    } else {
        abs_i(by - ay)
    }
}

/// No wall stands strictly between (ax, ay) and (bx, by) on the stepped
/// line: each step moves one tile toward the target on every axis that
/// still differs. The endpoints themselves are not examined.
pub open spec fn line_clear(m: &GameMap, ax: int, ay: int, bx: int, by: int) -> bool
    decreases cheb(ax, ay, bx, by),
{
    if ax == bx && ay == by {
        true
    } else {
        let nx = ax + sign_i(bx - ax);
        let ny = ay + sign_i(by - ay);
        if nx == bx && ny == by {
            true
        } else {
            m.tile_at(nx, ny) != TileType::Wall && line_clear(m, nx, ny, bx, by)
        }
    }
}

/// `p` is visible from `c` within `range`: on the map, within Euclidean
/// distance `range`, and with a clear line from `c`.
pub open spec fn spec_visible(m: &GameMap, c: Point, range: int, p: Point) -> bool {
    &&& m.in_map(p.x as int, p.y as int)
    &&& dist2(c, p) <= range * range
    &&& line_clear(m, c.x as int, c.y as int, p.x as int, p.y as int)
}

/// Walk the stepped line from (ax, ay) to (bx, by) and report whether it is
/// clear of walls strictly between the endpoints.
pub fn line_clear_exec(m: &GameMap, ax: i32, ay: i32, bx: i32, by: i32) -> (r: bool)
    requires
        m.wf(),
        m.in_map(ax as int, ay as int),
        m.in_map(bx as int, by as int),
    ensures
        r == line_clear(m, ax as int, ay as int, bx as int, by as int),
{
    let mut cx = ax;
    let mut cy = ay;
    while !(cx == bx && cy == by)
        invariant
            m.wf(),
            m.in_map(bx as int, by as int),
            m.in_map(cx as int, cy as int),
            line_clear(m, ax as int, ay as int, bx as int, by as int) == line_clear(
                m,
                cx as int,
                cy as int,
                bx as int,
                by as int,
            ),
        decreases cheb(cx as int, cy as int, bx as int, by as int),
    {
        let sx: i32 = if bx > cx {
            1
        } else if bx < cx {
            -1
        } else {
            0
        };
        let sy: i32 = if by > cy {
            1
        } else if by < cy {
            -1
        } else {
            0
        };
        let nx = cx + sx;
        let ny = cy + sy;
        if nx == bx && ny == by {
            return true;
        }
        let idx = m.xy_idx(nx, ny);
        if m.tiles[idx] == TileType::Wall {
            return false;
        }
        cx = nx;
        cy = ny;
    }
    true
}

/// Every tile visible from `c` within `range`, in row-major order, each
/// exactly once.
pub fn field_of_view(m: &GameMap, c: Point, range: i32) -> (r: Vec<Point>)
    requires
        m.wf(),
        m.in_map(c.x as int, c.y as int),
        0 <= range,
    ensures
        forall|i: int| 0 <= i < r@.len() ==> spec_visible(m, c, range as int, #[trigger] r@[i]),
        forall|p: Point| #[trigger] spec_visible(m, c, range as int, p) ==> r@.contains(p),
        forall|i: int, j: int| 0 <= i < j < r@.len() ==> r@[i] != r@[j],
{
    let mut r: Vec<Point> = Vec::new();
    let mut y: i32 = 0;
    while y < m.height
        invariant
            m.wf(),
            m.in_map(c.x as int, c.y as int),
            0 <= range,
            0 <= y <= m.height,
            forall|i: int| 0 <= i < r@.len() ==> spec_visible(m, c, range as int, #[trigger] r@[i]),
            forall|i: int| 0 <= i < r@.len() ==> (#[trigger] r@[i]).y < y,
            forall|p: Point| #[trigger] spec_visible(m, c, range as int, p) && p.y < y
                ==> r@.contains(p),
            forall|i: int, j: int| 0 <= i < j < r@.len() ==> r@[i] != r@[j],
        decreases m.height - y,
    {
        let mut x: i32 = 0;
        while x < m.width
            invariant
                m.wf(),
                m.in_map(c.x as int, c.y as int),
                0 <= range,
                0 <= y < m.height,
                0 <= x <= m.width,
                forall|i: int| 0 <= i < r@.len() ==> spec_visible(
                    m,
                    c,
                    range as int,
                    #[trigger] r@[i],
                ),
                forall|i: int| 0 <= i < r@.len() ==> ((#[trigger] r@[i]).y < y || (r@[i].y == y
                    && r@[i].x < x)),
                forall|p: Point| #[trigger] spec_visible(m, c, range as int, p) && (p.y < y || (p.y
                    == y && p.x < x)) ==> r@.contains(p),
                forall|i: int, j: int| 0 <= i < j < r@.len() ==> r@[i] != r@[j],
            decreases m.width - x,
        {
            let dx = (c.x as i64) - (x as i64);
            let dy = (c.y as i64) - (y as i64);
            proof {
                assert(0 <= dx * dx <= 4611686014132420609 && 0 <= dy * dy
                    <= 4611686014132420609 && 0 <= (range as i64) * (range as i64)
                    <= 4611686014132420609) by (nonlinear_arith)
                    requires
                        -2147483647 <= dx <= 2147483647,
                        -2147483647 <= dy <= 2147483647,
                        0 <= range <= 2147483647,
                ;
            }
            let in_range = dx * dx + dy * dy <= (range as i64) * (range as i64);
            let p = Point { x, y };
            if in_range && line_clear_exec(m, c.x, c.y, x, y) {
                let ghost prior = r@;
                r.push(p);
                proof {
                    assert(spec_visible(m, c, range as int, p));
                    assert forall|q: Point| #[trigger] spec_visible(m, c, range as int, q) && (q.y
                        < y || (q.y == y && q.x < x + 1)) implies r@.contains(q) by {
                        if q == p {
                            assert(r@[prior.len() as int] == q);
                        } else {
                            assert(prior.contains(q));
                            let w = choose|k: int| 0 <= k < prior.len() && prior[k] == q;
                            assert(r@[w] == q);
                        }
                    }
                }
            } else {
                proof {
                    assert forall|q: Point| #[trigger] spec_visible(m, c, range as int, q) && (q.y
                        < y || (q.y == y && q.x < x + 1)) implies r@.contains(q) by {
                        if !(q.y < y || (q.y == y && q.x < x)) {
                            assert(q.x == x && q.y == y);
                            assert(q == p);
                            assert(false);
                        }
                    }
                }
            }
            x += 1;
        }
        y += 1;
    }
    r
}

/// Whether `v` holds `p`, by exact point equality.
pub fn points_contain(v: &Vec<Point>, p: Point) -> (r: bool)
    ensures
        r == v@.contains(p),
{
    let n = v.len();
    let mut i: usize = 0;
    while i < n
        invariant
            n == v@.len(),
            i <= n,
            forall|k: int| 0 <= k < i ==> v@[k] != p,
        decreases n - i,
    {
        let q = v[i];
        if q.x == p.x && q.y == p.y {
            assert(v@[i as int] == p);
            return true;
        }
        i += 1;
    }
    assert(!v@.contains(p));
    false
}

/// No interior tile of the map is a wall.
pub open spec fn unobstructed(m: &GameMap) -> bool {
    forall|x: int, y: int| #![trigger m.tile_at(x, y)]
        m.in_interior(x, y) ==> m.tile_at(x, y) != TileType::Wall
}

/// On an unobstructed map the stepped line between two interior points is
/// always clear: every point strictly between them is interior, hence floor.
pub proof fn lemma_line_clear_unobstructed(m: &GameMap, ax: int, ay: int, bx: int, by: int)
    requires
        m.wf(),
        unobstructed(m),
        m.in_interior(ax, ay),
        m.in_interior(bx, by),
    ensures
        line_clear(m, ax, ay, bx, by),
    decreases cheb(ax, ay, bx, by),
{
    if ax == bx && ay == by {
    } else {
        let nx = ax + sign_i(bx - ax);
        let ny = ay + sign_i(by - ay);
        if nx == bx && ny == by {
        } else {
            assert(m.in_interior(nx, ny));
            lemma_line_clear_unobstructed(m, nx, ny, bx, by);
        }
    }
}

/// On an unobstructed map, visibility from an interior point within the
/// interior is exactly the Euclidean disc.
pub proof fn lemma_visible_unobstructed(m: &GameMap, c: Point, range: int, p: Point)
    requires
        m.wf(),
        unobstructed(m),
        m.in_interior(c.x as int, c.y as int),
        m.in_interior(p.x as int, p.y as int),
    ensures
        spec_visible(m, c, range, p) <==> dist2(c, p) <= range * range,
{
    if dist2(c, p) <= range * range {
        lemma_line_clear_unobstructed(m, c.x as int, c.y as int, p.x as int, p.y as int);
    }
}


/// Line visibility depends only on the tile grid.
pub proof fn lemma_line_clear_congruent(
    m1: &GameMap,
    m2: &GameMap,
    ax: int,
    ay: int,
    bx: int,
    by: int,
)
    requires
        m1.tiles@ == m2.tiles@,
        m1.width == m2.width,
        m1.height == m2.height,
    ensures
        line_clear(m1, ax, ay, bx, by) == line_clear(m2, ax, ay, bx, by),
    decreases cheb(ax, ay, bx, by),
{
    if ax == bx && ay == by {
    } else {
        let nx = ax + sign_i(bx - ax);
        let ny = ay + sign_i(by - ay);
        if nx == bx && ny == by {
        } else {
            lemma_line_clear_congruent(m1, m2, nx, ny, bx, by);
        }
    }
}

/// Visibility depends only on the tile grid and dimensions.
pub proof fn lemma_spec_visible_congruent(
    m1: &GameMap,
    m2: &GameMap,
    c: Point,
    range: int,
    q: Point,
)
    requires
        m1.tiles@ == m2.tiles@,
        m1.width == m2.width,
        m1.height == m2.height,
    ensures
        spec_visible(m1, c, range, q) == spec_visible(m2, c, range, q),
{
    lemma_line_clear_congruent(m1, m2, c.x as int, c.y as int, q.x as int, q.y as int);
}

} // verus!
