//! Shortest-path search over the map's traversal graph: nodes are tiles,
//! neighbours are the eight surrounding tiles, every passable tile costs one
//! step. The search is breadth-first, so a returned path is not merely
//! valid: no shorter path exists.

use vstd::prelude::*;
use crate::fov::abs_i;
use crate::geom::Point;
use crate::map::{GameMap, TileType};

verus! {

/// Two distinct tiles adjacent horizontally, vertically or diagonally.
pub open spec fn adjacent(ax: int, ay: int, bx: int, by: int) -> bool {
    &&& !(ax == bx && ay == by)
    &&& abs_i(bx - ax) <= 1
    &&& abs_i(by - ay) <= 1
}

/// A tile a walker may enter: on the map, not a wall, not blocked.
pub open spec fn passable_at(m: &GameMap, x: int, y: int) -> bool {
    &&& m.in_map(x, y)
    &&& m.tile_at(x, y) != TileType::Wall
    &&& !m.blocked@[m.spec_idx(x, y)]
}

/// (x, y) can be reached from `s` in at most `k` steps, entering only
/// passable tiles. The start itself need not be passable: a walker may
/// stand on a tile its own presence blocks.
pub open spec fn reach(m: &GameMap, s: Point, x: int, y: int, k: nat) -> bool
    decreases k,
{
    if x == s.x as int && y == s.y as int {
        true
    } else if k == 0 {
        false
    } else {
        passable_at(m, x, y) && exists|px: int, py: int|
            adjacent(px, py, x, y) && reach(m, s, px, py, (k - 1) as nat)
    }
}

/// Reachability within k steps implies reachability within more.
pub proof fn lemma_reach_mono(m: &GameMap, s: Point, x: int, y: int, k1: nat, k2: nat)
    requires
        reach(m, s, x, y, k1),
        k1 <= k2,
    ensures
        reach(m, s, x, y, k2),
    decreases k1,
{
    if x == s.x as int && y == s.y as int {
    } else {
        let (px, py) = choose|px: int, py: int|
            adjacent(px, py, x, y) && reach(m, s, px, py, (k1 - 1) as nat);
        lemma_reach_mono(m, s, px, py, (k1 - 1) as nat, (k2 - 1) as nat);
        assert(adjacent(px, py, x, y) && reach(m, s, px, py, (k2 - 1) as nat));
    }
}

/// Walking first from `s` to an adjacent passable `p1` extends any
/// reachability from `p1` by one step.
pub proof fn lemma_reach_prepend(m: &GameMap, s: Point, p1: Point, x: int, y: int, k: nat)
    requires
        adjacent(s.x as int, s.y as int, p1.x as int, p1.y as int),
        passable_at(m, p1.x as int, p1.y as int),
        reach(m, p1, x, y, k),
    ensures
        reach(m, s, x, y, (k + 1) as nat),
    decreases k,
{
    if x == p1.x as int && y == p1.y as int {
        if x == s.x as int && y == s.y as int {
        } else {
            assert(adjacent(s.x as int, s.y as int, x, y));
            assert(reach(m, s, s.x as int, s.y as int, k));
        }
    } else {
        let (px, py) = choose|px: int, py: int|
            adjacent(px, py, x, y) && reach(m, p1, px, py, (k - 1) as nat);
        lemma_reach_prepend(m, s, p1, px, py, (k - 1) as nat);
        assert(adjacent(px, py, x, y) && reach(m, s, px, py, k));
    }
}

/// A valid path: starts at `s`, ends at `t`, each step moves to an adjacent
/// tile, and every tile after the first is passable.
pub open spec fn path_valid(m: &GameMap, p: Seq<Point>, s: Point, t: Point) -> bool {
    &&& p.len() >= 1
    &&& p[0] == s
    &&& p[p.len() - 1] == t
    &&& forall|i: int| 0 <= i < p.len() - 1 ==> adjacent(
        (#[trigger] p[i]).x as int,
        p[i].y as int,
        p[i + 1].x as int,
        p[i + 1].y as int,
    )
    &&& forall|i: int| 1 <= i < p.len() ==> passable_at(
        m,
        (#[trigger] p[i]).x as int,
        p[i].y as int,
    )
}

/// Along a valid path, each tile is reachable from the start in as many
/// steps as its position.
pub proof fn lemma_path_reach(m: &GameMap, p: Seq<Point>, s: Point, t: Point, j: int)
    requires
        path_valid(m, p, s, t),
        0 <= j < p.len(),
    ensures
        reach(m, s, p[j].x as int, p[j].y as int, j as nat),
    decreases j,
{
    if j == 0 {
    } else {
        lemma_path_reach(m, p, s, t, j - 1);
        if p[j].x == s.x && p[j].y == s.y {
        } else {
            assert(adjacent(p[j - 1].x as int, p[j - 1].y as int, p[j].x as int, p[j].y as int));
            assert(passable_at(m, p[j].x as int, p[j].y as int));
        }
    }
}

/// The fewest steps from `s` to `t` is exactly `n`.
pub open spec fn min_steps_is(m: &GameMap, s: Point, t: Point, n: nat) -> bool {
    &&& reach(m, s, t.x as int, t.y as int, n)
    &&& forall|k: nat| k < n ==> !reach(m, s, t.x as int, t.y as int, k)
}


/// A reachable target has a well-defined fewest-steps count.
pub proof fn lemma_min_steps_exists(m: &GameMap, s: Point, t: Point, k: nat)
    requires
        reach(m, s, t.x as int, t.y as int, k),
    ensures
        exists|n: nat| n <= k && #[trigger] min_steps_is(m, s, t, n),
    decreases k,
{
    if forall|j: nat| j < k ==> !reach(m, s, t.x as int, t.y as int, j) {
        assert(min_steps_is(m, s, t, k));
    } else {
        let j = choose|j: nat| j < k && reach(m, s, t.x as int, t.y as int, j);
        lemma_min_steps_exists(m, s, t, j);
        let n = choose|n: nat| n <= j && #[trigger] min_steps_is(m, s, t, n);
        assert(n <= k && min_steps_is(m, s, t, n));
    }
}

/// The suffix of a valid path is a valid path from its second tile, so a
/// walker that takes the first step of a shortest path is afterwards exactly
/// one step closer to the target.
pub proof fn lemma_step_closer(m: &GameMap, p: Seq<Point>, s: Point, t: Point)
    requires
        path_valid(m, p, s, t),
        p.len() >= 2,
        min_steps_is(m, s, t, (p.len() - 1) as nat),
    ensures
        min_steps_is(m, p[1], t, (p.len() - 2) as nat),
{
    let q = p.subrange(1, p.len() as int);
    assert(path_valid(m, q, p[1], t));
    lemma_path_reach(m, q, p[1], t, q.len() - 1);
    assert(reach(m, p[1], t.x as int, t.y as int, (p.len() - 2) as nat));
    assert forall|k: nat| k < p.len() - 2 implies !reach(m, p[1], t.x as int, t.y as int, k) by {
        if reach(m, p[1], t.x as int, t.y as int, k) {
            lemma_reach_prepend(m, s, p[1], t.x as int, t.y as int, k);
            assert(reach(m, s, t.x as int, t.y as int, (k + 1) as nat));
            assert(((k + 1) as nat) < ((p.len() - 1) as nat));
            assert(false);
        }
    }
}

/// Sentinel for "not yet discovered" in the distance table.
pub open spec fn undiscovered(dist: Seq<u32>, i: int) -> bool {
    dist[i] == u32::MAX
}

/// How many tiles the search has not discovered yet.
pub open spec fn count_unvisited(dist: Seq<u32>) -> int
    decreases dist.len(),
{
    if dist.len() == 0 {
        0
    } else {
        count_unvisited(dist.drop_last()) + (if dist.last() == u32::MAX {
            1int
        } else {
            0int
        })
    }
}

proof fn lemma_count_nonneg(dist: Seq<u32>)
    ensures
        0 <= count_unvisited(dist) <= dist.len(),
    decreases dist.len(),
{
    if dist.len() > 0 {
        lemma_count_nonneg(dist.drop_last());
    }
}

proof fn lemma_count_update(dist: Seq<u32>, i: int, v: u32)
    requires
        0 <= i < dist.len(),
        dist[i] == u32::MAX,
        v != u32::MAX,
    ensures
        count_unvisited(dist.update(i, v)) == count_unvisited(dist) - 1,
    decreases dist.len(),
{
    let upd = dist.update(i, v);
    if i == dist.len() - 1 {
        assert(upd.drop_last() =~= dist.drop_last());
    } else {
        lemma_count_update(dist.drop_last(), i, v);
        assert(upd.drop_last() =~= dist.drop_last().update(i, v));
    }
}

/// Soundness of the distance table: every discovered tile is reachable in
/// its recorded number of steps, at most `cap`; the start records zero and
/// every other discovered tile is passable with a positive count.
pub open spec fn inv_sound(m: &GameMap, s: Point, dist: Seq<u32>, cap: int) -> bool {
    forall|x: int, y: int| #![trigger m.spec_idx(x, y)]
        m.in_map(x, y) && !undiscovered(dist, m.spec_idx(x, y)) ==> {
            let dv = dist[m.spec_idx(x, y)] as int;
            &&& 0 <= dv <= cap
            &&& reach(m, s, x, y, dv as nat)
            &&& ((x == s.x as int && y == s.y as int) ==> dv == 0)
            &&& (!(x == s.x as int && y == s.y as int) ==> passable_at(m, x, y) && dv >= 1)
        }
}

/// Every discovered parent pointer records an adjacent discovered tile one
/// step nearer the start.
pub open spec fn inv_parent(m: &GameMap, s: Point, dist: Seq<u32>, parent: Seq<Point>) -> bool {
    forall|x: int, y: int| #![trigger m.spec_idx(x, y)]
        m.in_map(x, y) && !undiscovered(dist, m.spec_idx(x, y)) && !(x == s.x as int && y
            == s.y as int) ==> {
            let pt = parent[m.spec_idx(x, y)];
            &&& m.in_map(pt.x as int, pt.y as int)
            &&& adjacent(pt.x as int, pt.y as int, x, y)
            &&& !undiscovered(dist, m.spec_idx(pt.x as int, pt.y as int))
            &&& dist[m.spec_idx(pt.x as int, pt.y as int)] + 1 == dist[m.spec_idx(x, y)]
        }
}

/// Every passable neighbour of a discovered tile with distance below
/// `dbound` has been discovered, no more than one step further out.
pub open spec fn inv_closure(m: &GameMap, dist: Seq<u32>, dbound: int) -> bool {
    forall|ux: int, uy: int, vx: int, vy: int|
        #![trigger m.spec_idx(ux, uy), m.spec_idx(vx, vy)]
        m.in_map(ux, uy) && m.in_map(vx, vy) && !undiscovered(dist, m.spec_idx(ux, uy)) && dist[
            m.spec_idx(ux, uy)
        ] < dbound && adjacent(ux, uy, vx, vy) && passable_at(m, vx, vy) ==> {
            &&& !undiscovered(dist, m.spec_idx(vx, vy))
            &&& dist[m.spec_idx(vx, vy)] <= dist[m.spec_idx(ux, uy)] + 1
        }
}

/// Whatever is reachable within `d` steps has been discovered, with a
/// recorded distance no larger.
pub open spec fn inv_complete(m: &GameMap, s: Point, dist: Seq<u32>, d: int) -> bool {
    forall|x: int, y: int, k: nat| #![trigger reach(m, s, x, y, k)]
        m.in_map(x, y) && k <= d && reach(m, s, x, y, k) ==> {
            &&& !undiscovered(dist, m.spec_idx(x, y))
            &&& dist[m.spec_idx(x, y)] <= k
        }
}

/// `layer` holds exactly the tiles whose recorded distance is `d`.
pub open spec fn layer_exact(m: &GameMap, layer: Seq<Point>, dist: Seq<u32>, d: int) -> bool {
    &&& forall|i: int| 0 <= i < layer.len() ==> {
        &&& m.in_map((#[trigger] layer[i]).x as int, layer[i].y as int)
        &&& dist[m.spec_idx(layer[i].x as int, layer[i].y as int)] == d
    }
    &&& forall|x: int, y: int| #![trigger m.spec_idx(x, y)]
        m.in_map(x, y) && dist[m.spec_idx(x, y)] == d ==> layer.contains(
            Point { x: x as i32, y: y as i32 },
        )
}

/// All eight neighbours of `u` that are passable have been discovered at
/// distance at most `d` + 1.
pub open spec fn nbrs_done(m: &GameMap, u: Point, dist: Seq<u32>, d: int) -> bool {
    forall|vx: int, vy: int| #![trigger m.spec_idx(vx, vy)]
        m.in_map(vx, vy) && adjacent(u.x as int, u.y as int, vx, vy) && passable_at(m, vx, vy)
            ==> {
            &&& !undiscovered(dist, m.spec_idx(vx, vy))
            &&& dist[m.spec_idx(vx, vy)] <= d + 1
        }
}

/// One step of reachability.
proof fn lemma_reach_step(m: &GameMap, s: Point, ux: int, uy: int, vx: int, vy: int, k: nat)
    requires
        reach(m, s, ux, uy, k),
        adjacent(ux, uy, vx, vy),
        passable_at(m, vx, vy),
    ensures
        reach(m, s, vx, vy, (k + 1) as nat),
{
    if vx == s.x as int && vy == s.y as int {
    } else {
        assert(adjacent(ux, uy, vx, vy) && reach(m, s, ux, uy, k));
    }
}

proof fn lemma_visit_sound(
    m: &GameMap,
    s: Point,
    u: Point,
    vx: int,
    vy: int,
    d: u32,
    dist0: Seq<u32>,
    dist1: Seq<u32>,
)
    requires
        m.wf(),
        dist0.len() == m.width * m.height,
        m.in_map(u.x as int, u.y as int),
        m.in_map(s.x as int, s.y as int),
        m.in_map(vx, vy),
        dist0[m.spec_idx(u.x as int, u.y as int)] == d,
        d < u32::MAX - 1,
        adjacent(u.x as int, u.y as int, vx, vy),
        passable_at(m, vx, vy),
        dist0[m.spec_idx(vx, vy)] == u32::MAX,
        dist1 == dist0.update(m.spec_idx(vx, vy), (d + 1) as u32),
        dist0[m.spec_idx(s.x as int, s.y as int)] == 0,
        inv_sound(m, s, dist0, d + 1),
    ensures
        inv_sound(m, s, dist1, d + 1),
{
    let idx = m.spec_idx(vx, vy);
    m.lemma_idx_bounds(vx, vy);
    assert(reach(m, s, u.x as int, u.y as int, d as nat));
    lemma_reach_step(m, s, u.x as int, u.y as int, vx, vy, d as nat);
    assert(!(vx == s.x as int && vy == s.y as int));
    assert forall|x: int, y: int| m.in_map(x, y) && !undiscovered(dist1, m.spec_idx(x, y)) implies {
        let dv = dist1[m.spec_idx(x, y)] as int;
        &&& 0 <= dv <= d + 1
        &&& reach(m, s, x, y, dv as nat)
        &&& ((x == s.x as int && y == s.y as int) ==> dv == 0)
        &&& (!(x == s.x as int && y == s.y as int) ==> passable_at(m, x, y) && dv >= 1)
    } by {
        m.lemma_idx_bounds(x, y);
        if m.spec_idx(x, y) == idx {
            m.lemma_idx_injective(x, y, vx, vy);
        }
    }
}

proof fn lemma_visit_parent(
    m: &GameMap,
    s: Point,
    u: Point,
    vx: int,
    vy: int,
    d: u32,
    dist0: Seq<u32>,
    dist1: Seq<u32>,
    parent0: Seq<Point>,
    parent1: Seq<Point>,
)
    requires
        m.wf(),
        dist0.len() == m.width * m.height,
        parent0.len() == m.width * m.height,
        m.in_map(u.x as int, u.y as int),
        m.in_map(s.x as int, s.y as int),
        m.in_map(vx, vy),
        dist0[m.spec_idx(u.x as int, u.y as int)] == d,
        d < u32::MAX - 1,
        adjacent(u.x as int, u.y as int, vx, vy),
        dist0[m.spec_idx(vx, vy)] == u32::MAX,
        dist1 == dist0.update(m.spec_idx(vx, vy), (d + 1) as u32),
        parent1 == parent0.update(m.spec_idx(vx, vy), u),
        inv_parent(m, s, dist0, parent0),
    ensures
        inv_parent(m, s, dist1, parent1),
{
    let idx = m.spec_idx(vx, vy);
    m.lemma_idx_bounds(vx, vy);
    if m.spec_idx(u.x as int, u.y as int) == idx {
        m.lemma_idx_injective(u.x as int, u.y as int, vx, vy);
        assert(false);
    }
    assert forall|x: int, y: int|
        m.in_map(x, y) && !undiscovered(dist1, m.spec_idx(x, y)) && !(x == s.x as int && y
            == s.y as int) implies {
        let pt = parent1[m.spec_idx(x, y)];
        &&& m.in_map(pt.x as int, pt.y as int)
        &&& adjacent(pt.x as int, pt.y as int, x, y)
        &&& !undiscovered(dist1, m.spec_idx(pt.x as int, pt.y as int))
        &&& dist1[m.spec_idx(pt.x as int, pt.y as int)] + 1 == dist1[m.spec_idx(x, y)]
    } by {
        m.lemma_idx_bounds(x, y);
        m.lemma_idx_bounds(u.x as int, u.y as int);
        if m.spec_idx(x, y) == idx {
            m.lemma_idx_injective(x, y, vx, vy);
            assert(parent1[idx] == u);
        } else {
            let pt = parent1[m.spec_idx(x, y)];
            assert(pt == parent0[m.spec_idx(x, y)]);
            assert(m.in_map(pt.x as int, pt.y as int));
            m.lemma_idx_bounds(pt.x as int, pt.y as int);
            if m.spec_idx(pt.x as int, pt.y as int) == idx {
                m.lemma_idx_injective(pt.x as int, pt.y as int, vx, vy);
                assert(false);
            }
        }
    }
}

proof fn lemma_visit_layer(
    m: &GameMap,
    vx: int,
    vy: int,
    d: u32,
    dist0: Seq<u32>,
    dist1: Seq<u32>,
    next0: Seq<Point>,
    next1: Seq<Point>,
)
    requires
        m.wf(),
        dist0.len() == m.width * m.height,
        m.in_map(vx, vy),
        d < u32::MAX - 1,
        dist0[m.spec_idx(vx, vy)] == u32::MAX,
        dist1 == dist0.update(m.spec_idx(vx, vy), (d + 1) as u32),
        next1 == next0.push(Point { x: vx as i32, y: vy as i32 }),
        layer_exact(m, next0, dist0, d + 1),
    ensures
        layer_exact(m, next1, dist1, d + 1),
{
    let idx = m.spec_idx(vx, vy);
    m.lemma_idx_bounds(vx, vy);
    assert forall|i: int| 0 <= i < next1.len() implies {
        &&& m.in_map((next1[i]).x as int, next1[i].y as int)
        &&& dist1[m.spec_idx(next1[i].x as int, next1[i].y as int)] == d + 1
    } by {
        if i < next0.len() {
            assert(next1[i] == next0[i]);
            m.lemma_idx_bounds(next0[i].x as int, next0[i].y as int);
        } else {
            assert(next1[i] == Point { x: vx as i32, y: vy as i32 });
        }
    }
    assert forall|x: int, y: int| m.in_map(x, y) && dist1[m.spec_idx(x, y)] == d + 1 implies next1
        .contains(Point { x: x as i32, y: y as i32 }) by {
        m.lemma_idx_bounds(x, y);
        if m.spec_idx(x, y) == idx {
            m.lemma_idx_injective(x, y, vx, vy);
            assert(next1[next0.len() as int] == Point { x: x as i32, y: y as i32 });
        } else {
            assert(next0.contains(Point { x: x as i32, y: y as i32 }));
            let w = choose|k: int|
                0 <= k < next0.len() && next0[k] == Point { x: x as i32, y: y as i32 };
            assert(next1[w] == Point { x: x as i32, y: y as i32 });
        }
    }
}

/// Examine one neighbour (vx, vy) of the layer-`d` tile `u`: when it is a
/// passable undiscovered tile, record its distance and parent and queue it
/// in the next layer.
#[verifier::rlimit(60)]
fn try_visit(
    m: &GameMap,
    dist: Vec<u32>,
    parent: Vec<Point>,
    next: Vec<Point>,
    s: Point,
    u: Point,
    vx: i32,
    vy: i32,
    d: u32,
) -> (r: (Vec<u32>, Vec<Point>, Vec<Point>))
    requires
        m.wf(),
        dist@.len() == m.width * m.height,
        parent@.len() == m.width * m.height,
        m.in_map(u.x as int, u.y as int),
        m.in_map(s.x as int, s.y as int),
        !undiscovered(dist@, m.spec_idx(u.x as int, u.y as int)),
        dist@[m.spec_idx(u.x as int, u.y as int)] == d,
        adjacent(u.x as int, u.y as int, vx as int, vy as int),
        d < u32::MAX - 1,
        dist@[m.spec_idx(s.x as int, s.y as int)] == 0,
        inv_sound(m, s, dist@, d + 1),
        inv_parent(m, s, dist@, parent@),
        layer_exact(m, next@, dist@, d + 1),
    ensures
        r.0@.len() == dist@.len(),
        r.1@.len() == parent@.len(),
        inv_sound(m, s, r.0@, d + 1),
        inv_parent(m, s, r.0@, r.1@),
        layer_exact(m, r.2@, r.0@, d + 1),
        count_unvisited(r.0@) + r.2@.len() == count_unvisited(dist@) + next@.len(),
        forall|i: int| 0 <= i < dist@.len() && dist@[i] != u32::MAX ==> r.0@[i] == dist@[i],
        forall|i: int| 0 <= i < dist@.len() && r.0@[i] != dist@[i] ==> dist@[i] == u32::MAX
            && r.0@[i] == d + 1,
        m.in_map(vx as int, vy as int) && passable_at(m, vx as int, vy as int) ==> {
            &&& !undiscovered(r.0@, m.spec_idx(vx as int, vy as int))
            &&& r.0@[m.spec_idx(vx as int, vy as int)] <= d + 1
        },
{
    let mut dist = dist;
    let mut parent = parent;
    let mut next = next;
    if vx < 0 || vy < 0 || vx >= m.width || vy >= m.height {
        return (dist, parent, next);
    }
    let idx = m.xy_idx(vx, vy);
    proof {
        m.lemma_idx_bounds(vx as int, vy as int);
    }
    if m.tiles[idx] == TileType::Wall || m.blocked[idx] {
        return (dist, parent, next);
    }
    if dist[idx] != u32::MAX {
        return (dist, parent, next);
    }
    let ghost dist0 = dist@;
    let ghost parent0 = parent@;
    let ghost next0 = next@;
    dist[idx] = d + 1;
    parent[idx] = u;
    next.push(Point { x: vx, y: vy });
    proof {
        lemma_count_update(dist0, idx as int, (d + 1) as u32);
        lemma_visit_sound(m, s, u, vx as int, vy as int, d, dist0, dist@);
        lemma_visit_parent(m, s, u, vx as int, vy as int, d, dist0, dist@, parent0, parent@);
        lemma_visit_layer(m, vx as int, vy as int, d, dist0, dist@, next0, next@);
    }
    (dist, parent, next)
}

proof fn lemma_count_all_max(dist: Seq<u32>)
    requires
        forall|i: int| 0 <= i < dist.len() ==> dist[i] == u32::MAX,
    ensures
        count_unvisited(dist) == dist.len(),
    decreases dist.len(),
{
    if dist.len() > 0 {
        lemma_count_all_max(dist.drop_last());
    }
}

/// At the end of the search every reachable tile has been discovered, with
/// a recorded distance no larger than any step count that reaches it.
proof fn lemma_bfs_complete_all(
    m: &GameMap,
    s: Point,
    dist: Seq<u32>,
    dbound: int,
    x: int,
    y: int,
    k: nat,
)
    requires
        m.wf(),
        dist.len() == m.width * m.height,
        m.in_map(s.x as int, s.y as int),
        dist[m.spec_idx(s.x as int, s.y as int)] == 0,
        inv_closure(m, dist, dbound),
        forall|ux: int, uy: int| #![trigger m.spec_idx(ux, uy)]
            m.in_map(ux, uy) && !undiscovered(dist, m.spec_idx(ux, uy)) ==> dist[m.spec_idx(
                ux,
                uy,
            )] < dbound,
        m.in_map(x, y),
        reach(m, s, x, y, k),
    ensures
        !undiscovered(dist, m.spec_idx(x, y)),
        dist[m.spec_idx(x, y)] <= k,
    decreases k,
{
    m.lemma_idx_bounds(x, y);
    if x == s.x as int && y == s.y as int {
    } else {
        let (px, py) = choose|px: int, py: int|
            adjacent(px, py, x, y) && reach(m, s, px, py, (k - 1) as nat);
        if px == s.x as int && py == s.y as int {
        } else {
            if (k - 1) as nat == 0 {
                assert(!reach(m, s, px, py, 0nat));
                assert(false);
            }
            assert(passable_at(m, px, py));
        }
        assert(m.in_map(px, py));
        lemma_bfs_complete_all(m, s, dist, dbound, px, py, (k - 1) as nat);
        m.lemma_idx_bounds(px, py);
        assert(passable_at(m, x, y));
    }
}

/// Visit all eight neighbours of the layer-`d` tile `u`, preserving every
/// search invariant and leaving each passable neighbour discovered at
/// distance at most `d` + 1.
#[verifier::rlimit(100)]
#[verifier::spinoff_prover]
fn expand_node(
    m: &GameMap,
    dist: Vec<u32>,
    parent: Vec<Point>,
    next: Vec<Point>,
    s: Point,
    u: Point,
    d: u32,
) -> (r: (Vec<u32>, Vec<Point>, Vec<Point>))
    requires
        m.wf(),
        dist@.len() == m.width * m.height,
        parent@.len() == m.width * m.height,
        m.in_map(u.x as int, u.y as int),
        m.in_map(s.x as int, s.y as int),
        dist@[m.spec_idx(s.x as int, s.y as int)] == 0,
        !undiscovered(dist@, m.spec_idx(u.x as int, u.y as int)),
        dist@[m.spec_idx(u.x as int, u.y as int)] == d,
        d < u32::MAX - 1,
        inv_sound(m, s, dist@, d + 1),
        inv_parent(m, s, dist@, parent@),
        layer_exact(m, next@, dist@, d + 1),
    ensures
        r.0@.len() == dist@.len(),
        r.1@.len() == parent@.len(),
        inv_sound(m, s, r.0@, d + 1),
        inv_parent(m, s, r.0@, r.1@),
        layer_exact(m, r.2@, r.0@, d + 1),
        count_unvisited(r.0@) + r.2@.len() == count_unvisited(dist@) + next@.len(),
        forall|i: int| 0 <= i < dist@.len() && dist@[i] != u32::MAX ==> r.0@[i] == dist@[i],
        forall|i: int| 0 <= i < dist@.len() && r.0@[i] != dist@[i] ==> dist@[i] == u32::MAX
            && r.0@[i] == d + 1,
        nbrs_done(m, u, r.0@, d as int),
{
    let mut dist = dist;
    let mut parent = parent;
    let mut next = next;
    let ghost h0 = dist@;
    let ghost c0 = count_unvisited(dist@) + next@.len();
    let mut dxs: Vec<i32> = Vec::new();
    let mut dys: Vec<i32> = Vec::new();
    dxs.push(-1);
    dys.push(-1);
    dxs.push(0);
    dys.push(-1);
    dxs.push(1);
    dys.push(-1);
    dxs.push(-1);
    dys.push(0);
    dxs.push(1);
    dys.push(0);
    dxs.push(-1);
    dys.push(1);
    dxs.push(0);
    dys.push(1);
    dxs.push(1);
    dys.push(1);
    let mut k: usize = 0;
    while k < 8
        invariant
            m.wf(),
            dist@.len() == m.width * m.height,
            parent@.len() == m.width * m.height,
            m.in_map(u.x as int, u.y as int),
            m.in_map(s.x as int, s.y as int),
            dist@[m.spec_idx(s.x as int, s.y as int)] == 0,
            !undiscovered(dist@, m.spec_idx(u.x as int, u.y as int)),
            dist@[m.spec_idx(u.x as int, u.y as int)] == d,
            d < u32::MAX - 1,
            k <= 8,
            h0.len() == m.width * m.height,
            dxs@.len() == 8,
            dys@.len() == 8,
            dxs@[0] == -1 && dys@[0] == -1,
            dxs@[1] == 0 && dys@[1] == -1,
            dxs@[2] == 1 && dys@[2] == -1,
            dxs@[3] == -1 && dys@[3] == 0,
            dxs@[4] == 1 && dys@[4] == 0,
            dxs@[5] == -1 && dys@[5] == 1,
            dxs@[6] == 0 && dys@[6] == 1,
            dxs@[7] == 1 && dys@[7] == 1,
            inv_sound(m, s, dist@, d + 1),
            inv_parent(m, s, dist@, parent@),
            layer_exact(m, next@, dist@, d + 1),
            count_unvisited(dist@) + next@.len() == c0,
            forall|i: int| #![trigger h0[i]] 0 <= i < h0.len() && h0[i] != u32::MAX
                ==> dist@[i] == h0[i],
            forall|i: int| #![trigger h0[i]] 0 <= i < h0.len() && dist@[i] != h0[i] ==> h0[i]
                == u32::MAX && dist@[i] == d + 1,
            forall|j: int| 0 <= j < k ==> {
                let vx = u.x + #[trigger] dxs@[j];
                let vy = u.y + dys@[j];
                m.in_map(vx as int, vy as int) && passable_at(m, vx as int, vy as int) ==> {
                    &&& !undiscovered(dist@, m.spec_idx(vx as int, vy as int))
                    &&& dist@[m.spec_idx(vx as int, vy as int)] <= d + 1
                }
            },
        decreases 8 - k,
    {
        let dx = dxs[k];
        let dy = dys[k];
        let ghost hpre = dist@;
        let stepped = try_visit(m, dist, parent, next, s, u, u.x + dx, u.y + dy, d);
        dist = stepped.0;
        parent = stepped.1;
        next = stepped.2;
        proof {
            m.lemma_idx_bounds(s.x as int, s.y as int);
            m.lemma_idx_bounds(u.x as int, u.y as int);
            assert(dist@[m.spec_idx(s.x as int, s.y as int)] == 0);
            assert(dist@[m.spec_idx(u.x as int, u.y as int)] == d);
            assert forall|i: int| 0 <= i < h0.len() && h0[i] != u32::MAX implies dist@[i]
                == h0[i] by {
                assert(hpre[i] == h0[i]);
            }
            assert forall|i: int| 0 <= i < h0.len() && dist@[i] != h0[i] implies h0[i] == u32::MAX
                && dist@[i] == d + 1 by {
                if dist@[i] != hpre[i] {
                } else {
                    assert(hpre[i] != h0[i]);
                }
            }
            assert forall|j: int| 0 <= j < k + 1 implies {
                let vx = u.x + #[trigger] dxs@[j];
                let vy = u.y + dys@[j];
                m.in_map(vx as int, vy as int) && passable_at(m, vx as int, vy as int) ==> {
                    &&& !undiscovered(dist@, m.spec_idx(vx as int, vy as int))
                    &&& dist@[m.spec_idx(vx as int, vy as int)] <= d + 1
                }
            } by {
                let vx = u.x + dxs@[j];
                let vy = u.y + dys@[j];
                if m.in_map(vx as int, vy as int) {
                    m.lemma_idx_bounds(vx as int, vy as int);
                    if j < k && passable_at(m, vx as int, vy as int) {
                        assert(!undiscovered(hpre, m.spec_idx(vx as int, vy as int)));
                    }
                }
            }
        }
        k += 1;
    }
    proof {
        assert forall|vx: int, vy: int|
            m.in_map(vx, vy) && adjacent(u.x as int, u.y as int, vx, vy) && passable_at(
            m,
            vx,
            vy,
        ) implies {
            &&& !undiscovered(dist@, m.spec_idx(vx, vy))
            &&& dist@[m.spec_idx(vx, vy)] <= d + 1
        } by {
            m.lemma_idx_bounds(vx, vy);
            let ddx = vx - u.x as int;
            let ddy = vy - u.y as int;
            if ddx == -1 && ddy == -1 {
                assert(dxs@[0] == -1 && dys@[0] == -1);
            } else if ddx == 0 && ddy == -1 {
                assert(dxs@[1] == 0 && dys@[1] == -1);
            } else if ddx == 1 && ddy == -1 {
                assert(dxs@[2] == 1 && dys@[2] == -1);
            } else if ddx == -1 && ddy == 0 {
                assert(dxs@[3] == -1 && dys@[3] == 0);
            } else if ddx == 1 && ddy == 0 {
                assert(dxs@[4] == 1 && dys@[4] == 0);
            } else if ddx == -1 && ddy == 1 {
                assert(dxs@[5] == -1 && dys@[5] == 1);
            } else if ddx == 0 && ddy == 1 {
                assert(dxs@[6] == 0 && dys@[6] == 1);
            } else {
                assert(ddx == 1 && ddy == 1);
                assert(dxs@[7] == 1 && dys@[7] == 1);
            }
        }
    }
    (dist, parent, next)
}

/// One node of the current layer has been expanded: the layer bookkeeping
/// and the closure and completeness invariants all carry over.
#[verifier::rlimit(100)]
proof fn lemma_layer_step(
    m: &GameMap,
    s: Point,
    current: Seq<Point>,
    ci: int,
    u: Point,
    h0: Seq<u32>,
    h1: Seq<u32>,
    d: u32,
)
    requires
        m.wf(),
        h0.len() == m.width * m.height,
        h1.len() == h0.len(),
        m.in_map(s.x as int, s.y as int),
        h0[m.spec_idx(s.x as int, s.y as int)] == 0,
        0 <= ci < current.len(),
        current[ci] == u,
        d < u32::MAX - 1,
        layer_exact(m, current, h0, d as int),
        inv_closure(m, h0, d as int),
        inv_complete(m, s, h0, d as int),
        forall|i: int| 0 <= i < h0.len() && h0[i] != u32::MAX ==> h1[i] == h0[i],
        forall|i: int| 0 <= i < h0.len() && h1[i] != h0[i] ==> h0[i] == u32::MAX && h1[i] == d + 1,
        forall|i: int| 0 <= i < ci ==> nbrs_done(m, #[trigger] current[i], h0, d as int),
        nbrs_done(m, u, h1, d as int),
    ensures
        layer_exact(m, current, h1, d as int),
        inv_closure(m, h1, d as int),
        inv_complete(m, s, h1, d as int),
        forall|i: int| 0 <= i < ci + 1 ==> nbrs_done(m, #[trigger] current[i], h1, d as int),
{
    assert forall|i: int| 0 <= i < current.len() implies {
        &&& m.in_map((#[trigger] current[i]).x as int, current[i].y as int)
        &&& h1[m.spec_idx(current[i].x as int, current[i].y as int)] == d as int
    } by {
        m.lemma_idx_bounds(current[i].x as int, current[i].y as int);
    }
    assert forall|x: int, y: int|
        m.in_map(x, y) && h1[m.spec_idx(x, y)] == d as int implies current.contains(
        Point { x: x as i32, y: y as i32 },
    ) by {
        m.lemma_idx_bounds(x, y);
        assert(h0[m.spec_idx(x, y)] == d as int || h0[m.spec_idx(x, y)] == u32::MAX);
        assert(h0[m.spec_idx(x, y)] == d as int);
    }
    assert forall|ux: int, uy: int, vx: int, vy: int|
        m.in_map(ux, uy) && m.in_map(vx, vy) && !undiscovered(h1, m.spec_idx(ux, uy)) && h1[
        m.spec_idx(ux, uy)
    ] < d as int && adjacent(ux, uy, vx, vy) && passable_at(m, vx, vy) implies {
        &&& !undiscovered(h1, m.spec_idx(vx, vy))
        &&& h1[m.spec_idx(vx, vy)] <= h1[m.spec_idx(ux, uy)] + 1
    } by {
        m.lemma_idx_bounds(ux, uy);
        m.lemma_idx_bounds(vx, vy);
        assert(!undiscovered(h0, m.spec_idx(ux, uy)));
        assert(h0[m.spec_idx(ux, uy)] == h1[m.spec_idx(ux, uy)]);
        assert(!undiscovered(h0, m.spec_idx(vx, vy)));
    }
    assert forall|x: int, y: int, k: nat|
        m.in_map(x, y) && k <= d as int && reach(m, s, x, y, k) implies {
        &&& !undiscovered(h1, m.spec_idx(x, y))
        &&& h1[m.spec_idx(x, y)] <= k
    } by {
        m.lemma_idx_bounds(x, y);
        assert(!undiscovered(h0, m.spec_idx(x, y)) && h0[m.spec_idx(x, y)] <= k);
    }
    assert forall|i: int| 0 <= i < ci + 1 implies nbrs_done(
        m,
        #[trigger] current[i],
        h1,
        d as int,
    ) by {
        if i < ci {
            assert(nbrs_done(m, current[i], h0, d as int));
            assert forall|vx: int, vy: int|
                m.in_map(vx, vy) && adjacent(current[i].x as int, current[i].y as int, vx, vy)
                    && passable_at(m, vx, vy) implies {
                &&& !undiscovered(h1, m.spec_idx(vx, vy))
                &&& h1[m.spec_idx(vx, vy)] <= d as int + 1
            } by {
                m.lemma_idx_bounds(vx, vy);
            }
        } else {
            assert(current[i] == u);
        }
    }
}

/// Breadth-first shortest-path search from `s` to `t` over the passable
/// tiles. A returned path is valid and of minimal length; `None` means no
/// number of steps reaches the target.
#[verifier::rlimit(100)]
#[verifier::spinoff_prover]
pub fn shortest_path(m: &GameMap, s: Point, t: Point) -> (r: Option<Vec<Point>>)
    requires
        m.wf(),
        m.in_map(s.x as int, s.y as int),
        m.in_map(t.x as int, t.y as int),
    ensures
        match r {
            Some(p) => path_valid(m, p@, s, t) && min_steps_is(m, s, t, (p@.len() - 1) as nat),
            None => forall|k: nat| !reach(m, s, t.x as int, t.y as int, k),
        },
{
    let total = (m.width as usize) * (m.height as usize);
    let mut dist: Vec<u32> = vec![u32::MAX; total];
    let mut parent: Vec<Point> = vec![Point { x: 0, y: 0 }; total];
    let sidx = m.xy_idx(s.x, s.y);
    proof {
        m.lemma_idx_bounds(s.x as int, s.y as int);
        lemma_count_all_max(dist@);
    }
    let ghost all_max = dist@;
    dist[sidx] = 0;
    proof {
        lemma_count_update(all_max, sidx as int, 0);
    }
    let mut current: Vec<Point> = Vec::new();
    current.push(s);
    let mut next: Vec<Point> = Vec::new();
    let mut d: u32 = 0;

    proof {
        assert forall|x: int, y: int|
            m.in_map(x, y) && !undiscovered(dist@, m.spec_idx(x, y)) implies {
            let dv = dist@[m.spec_idx(x, y)] as int;
            &&& 0 <= dv <= 0
            &&& reach(m, s, x, y, dv as nat)
            &&& ((x == s.x as int && y == s.y as int) ==> dv == 0)
            &&& (!(x == s.x as int && y == s.y as int) ==> passable_at(m, x, y) && dv >= 1)
        } by {
            m.lemma_idx_bounds(x, y);
            if m.spec_idx(x, y) != sidx {
                assert(dist@[m.spec_idx(x, y)] == u32::MAX);
            } else {
                m.lemma_idx_injective(x, y, s.x as int, s.y as int);
            }
        }
        assert forall|x: int, y: int, k: nat|
            m.in_map(x, y) && k <= 0 && reach(m, s, x, y, k) implies {
            &&& !undiscovered(dist@, m.spec_idx(x, y))
            &&& dist@[m.spec_idx(x, y)] <= k
        } by {
            m.lemma_idx_bounds(x, y);
            assert(x == s.x as int && y == s.y as int);
        }
        assert forall|x: int, y: int|
            m.in_map(x, y) && dist@[m.spec_idx(x, y)] == 0 implies current@.contains(
            Point { x: x as i32, y: y as i32 },
        ) by {
            m.lemma_idx_bounds(x, y);
            if m.spec_idx(x, y) == sidx {
                m.lemma_idx_injective(x, y, s.x as int, s.y as int);
                assert(current@[0] == Point { x: x as i32, y: y as i32 });
            } else {
                assert(dist@[m.spec_idx(x, y)] == u32::MAX);
            }
        }
        assert forall|x: int, y: int|
            m.in_map(x, y) && dist@[m.spec_idx(x, y)] == 1 implies next@.contains(
            Point { x: x as i32, y: y as i32 },
        ) by {
            m.lemma_idx_bounds(x, y);
            if m.spec_idx(x, y) == sidx {
            } else {
                assert(dist@[m.spec_idx(x, y)] == u32::MAX);
            }
        }
    }

    while current.len() > 0
        invariant
            m.wf(),
            m.in_map(s.x as int, s.y as int),
            m.in_map(t.x as int, t.y as int),
            total == m.width * m.height,
            dist@.len() == total,
            parent@.len() == total,
            dist@[m.spec_idx(s.x as int, s.y as int)] == 0,
            inv_sound(m, s, dist@, d as int),
            inv_parent(m, s, dist@, parent@),
            inv_closure(m, dist@, d as int),
            inv_complete(m, s, dist@, d as int),
            layer_exact(m, current@, dist@, d as int),
            next@.len() == 0,
            0 <= count_unvisited(dist@),
            current@.len() > 0 ==> d + 1 + count_unvisited(dist@) <= total,
        decreases count_unvisited(dist@) + current@.len(),
    {
        let ghost c0 = count_unvisited(dist@);
        let n_cur = current.len();
        let mut ci: usize = 0;
        while ci < n_cur
            invariant
                m.wf(),
                m.in_map(s.x as int, s.y as int),
                total == m.width * m.height,
                dist@.len() == total,
                parent@.len() == total,
                dist@[m.spec_idx(s.x as int, s.y as int)] == 0,
                n_cur == current@.len(),
                ci <= n_cur,
                d + 1 + c0 <= total,
                inv_sound(m, s, dist@, d as int + 1),
                inv_parent(m, s, dist@, parent@),
                inv_closure(m, dist@, d as int),
                inv_complete(m, s, dist@, d as int),
                layer_exact(m, current@, dist@, d as int),
                layer_exact(m, next@, dist@, d as int + 1),
                count_unvisited(dist@) + next@.len() == c0,
                0 <= count_unvisited(dist@),
                forall|i: int| 0 <= i < ci ==> nbrs_done(m, #[trigger] current@[i], dist@, d as int),
            decreases n_cur - ci,
        {
            let u = current[ci];
            proof {
                m.lemma_idx_bounds(u.x as int, u.y as int);
            }
            let ghost h0 = dist@;
            let stepped = expand_node(m, dist, parent, next, s, u, d);
            dist = stepped.0;
            parent = stepped.1;
            next = stepped.2;
            proof {
                lemma_count_nonneg(dist@);
                lemma_layer_step(m, s, current@, ci as int, u, h0, dist@, d);
            }
            ci += 1;
        }
        proof {
            lemma_count_nonneg(dist@);
            // closure now extends to the freshly processed layer
            assert forall|ux: int, uy: int, vx: int, vy: int|
                m.in_map(ux, uy) && m.in_map(vx, vy) && !undiscovered(dist@, m.spec_idx(ux, uy))
                    && dist@[m.spec_idx(ux, uy)] < d as int + 1 && adjacent(ux, uy, vx, vy)
                    && passable_at(m, vx, vy) implies {
                &&& !undiscovered(dist@, m.spec_idx(vx, vy))
                &&& dist@[m.spec_idx(vx, vy)] <= dist@[m.spec_idx(ux, uy)] + 1
            } by {
                m.lemma_idx_bounds(ux, uy);
                m.lemma_idx_bounds(vx, vy);
                if dist@[m.spec_idx(ux, uy)] == d as int {
                    let up = Point { x: ux as i32, y: uy as i32 };
                    assert(current@.contains(up));
                    let i = choose|i: int| 0 <= i < current@.len() && current@[i] == up;
                    assert(nbrs_done(m, current@[i], dist@, d as int));
                }
            }
            // completeness extends one layer out
            assert forall|x: int, y: int, k: nat|
                m.in_map(x, y) && k <= d as int + 1 && reach(m, s, x, y, k) implies {
                &&& !undiscovered(dist@, m.spec_idx(x, y))
                &&& dist@[m.spec_idx(x, y)] <= k
            } by {
                m.lemma_idx_bounds(x, y);
                if k <= d as int {
                } else {
                    if x == s.x as int && y == s.y as int {
                    } else {
                        let (px, py) = choose|px: int, py: int|
                            adjacent(px, py, x, y) && reach(m, s, px, py, (k - 1) as nat);
                        if px == s.x as int && py == s.y as int {
                        } else {
                            if (k - 1) as nat == 0 {
                                assert(!reach(m, s, px, py, 0nat));
                                assert(false);
                            }
                            assert(passable_at(m, px, py));
                        }
                        assert(m.in_map(px, py));
                        m.lemma_idx_bounds(px, py);
                        assert(reach(m, s, px, py, (k - 1) as nat));
                        assert(!undiscovered(dist@, m.spec_idx(px, py)) && dist@[m.spec_idx(
                            px,
                            py,
                        )] <= k - 1);
                        assert(passable_at(m, x, y));
                    }
                }
            }
        }
        current = next;
        next = Vec::new();
        d = d + 1;
        proof {
            assert forall|x: int, y: int|
                m.in_map(x, y) && dist@[m.spec_idx(x, y)] == d as int + 1 implies next@.contains(
                Point { x: x as i32, y: y as i32 },
            ) by {
                m.lemma_idx_bounds(x, y);
            }
        }
    }

    let tidx = m.xy_idx(t.x, t.y);
    proof {
        m.lemma_idx_bounds(t.x as int, t.y as int);
    }
    if dist[tidx] == u32::MAX {
        proof {
            assert forall|k: nat| !reach(m, s, t.x as int, t.y as int, k) by {
                if reach(m, s, t.x as int, t.y as int, k) {
                    assert forall|ux: int, uy: int|
                        m.in_map(ux, uy) && !undiscovered(dist@, m.spec_idx(ux, uy)) implies dist@[
                        m.spec_idx(ux, uy)
                    ] < d as int by {
                        m.lemma_idx_bounds(ux, uy);
                        if dist@[m.spec_idx(ux, uy)] == d as int {
                            assert(current@.contains(
                                Point { x: ux as i32, y: uy as i32 },
                            ));
                            assert(false);
                        }
                    }
                    lemma_bfs_complete_all(
                        m,
                        s,
                        dist@,
                        d as int,
                        t.x as int,
                        t.y as int,
                        k,
                    );
                    assert(false);
                }
            }
        }
        return None;
    }

    proof {
        assert forall|ux: int, uy: int|
            m.in_map(ux, uy) && !undiscovered(dist@, m.spec_idx(ux, uy)) implies dist@[m.spec_idx(
            ux,
            uy,
        )] < d as int by {
            m.lemma_idx_bounds(ux, uy);
            if dist@[m.spec_idx(ux, uy)] == d as int {
                assert(current@.contains(Point { x: ux as i32, y: uy as i32 }));
                assert(false);
            }
        }
    }
    let n = dist[tidx];
    let mut rev: Vec<Point> = Vec::new();
    rev.push(t);
    let mut cur: Point = t;
    while !(cur.x == s.x && cur.y == s.y)
        invariant
            m.wf(),
            m.in_map(s.x as int, s.y as int),
            m.in_map(t.x as int, t.y as int),
            m.in_map(cur.x as int, cur.y as int),
            total == m.width * m.height,
            dist@.len() == total,
            parent@.len() == total,
            dist@[m.spec_idx(s.x as int, s.y as int)] == 0,
            inv_sound(m, s, dist@, d as int),
            inv_parent(m, s, dist@, parent@),
            !undiscovered(dist@, m.spec_idx(t.x as int, t.y as int)),
            n == dist@[m.spec_idx(t.x as int, t.y as int)],
            !undiscovered(dist@, m.spec_idx(cur.x as int, cur.y as int)),
            rev@.len() >= 1,
            rev@[0] == t,
            rev@[rev@.len() - 1] == cur,
            forall|i: int| 0 <= i < rev@.len() ==> m.in_map(
                (#[trigger] rev@[i]).x as int,
                rev@[i].y as int,
            ) && !undiscovered(dist@, m.spec_idx(rev@[i].x as int, rev@[i].y as int)) && dist@[
                m.spec_idx(rev@[i].x as int, rev@[i].y as int)
            ] == n - i,
            forall|i: int| 0 <= i < rev@.len() - 1 ==> adjacent(
                (#[trigger] rev@[i + 1]).x as int,
                rev@[i + 1].y as int,
                rev@[i].x as int,
                rev@[i].y as int,
            ),
        decreases dist@[m.spec_idx(cur.x as int, cur.y as int)],
    {
        let cidx = m.xy_idx(cur.x, cur.y);
        proof {
            m.lemma_idx_bounds(cur.x as int, cur.y as int);
        }
        let p = parent[cidx];
        proof {
            m.lemma_idx_bounds(p.x as int, p.y as int);
        }
        rev.push(p);
        cur = p;
    }
    proof {
        assert(dist@[m.spec_idx(cur.x as int, cur.y as int)] == 0);
        assert(rev@.len() == n + 1);
    }
    let ln = rev.len();
    let mut path: Vec<Point> = Vec::new();
    let mut i: usize = 0;
    while i < ln
        invariant
            ln == rev@.len(),
            i <= ln,
            path@.len() == i,
            forall|j: int| 0 <= j < i ==> #[trigger] path@[j] == rev@[ln - 1 - j],
        decreases ln - i,
    {
        let q = rev[ln - 1 - i];
        path.push(q);
        i += 1;
    }
    proof {
        assert(path@[0] == rev@[ln - 1]);
        assert(path@[path@.len() - 1] == rev@[0]);
        assert forall|j: int| 1 <= j < path@.len() implies passable_at(
            m,
            (#[trigger] path@[j]).x as int,
            path@[j].y as int,
        ) by {
            assert(path@[j] == rev@[ln - 1 - j]);
            let q = rev@[ln - 1 - j];
            m.lemma_idx_bounds(q.x as int, q.y as int);
            assert(dist@[m.spec_idx(q.x as int, q.y as int)] == n - (ln - 1 - j));
            assert(dist@[m.spec_idx(q.x as int, q.y as int)] == j);
            if q.x as int == s.x as int && q.y as int == s.y as int {
                assert(dist@[m.spec_idx(q.x as int, q.y as int)] == 0);
                assert(false);
            }
        }
        assert forall|j: int| 0 <= j < path@.len() - 1 implies adjacent(
            (#[trigger] path@[j]).x as int,
            path@[j].y as int,
            path@[j + 1].x as int,
            path@[j + 1].y as int,
        ) by {
            assert(path@[j] == rev@[ln - 1 - j]);
            assert(path@[j + 1] == rev@[ln - 2 - j]);
            assert(adjacent(
                rev@[(ln - 2 - j) + 1].x as int,
                rev@[(ln - 2 - j) + 1].y as int,
                rev@[ln - 2 - j].x as int,
                rev@[ln - 2 - j].y as int,
            ));
        }
        assert(path_valid(m, path@, s, t));
        assert(reach(m, s, t.x as int, t.y as int, n as nat));
        assert forall|k: nat| k < n implies !reach(m, s, t.x as int, t.y as int, k) by {
            if reach(m, s, t.x as int, t.y as int, k) {
                lemma_bfs_complete_all(m, s, dist@, d as int, t.x as int, t.y as int, k);
                assert(false);
            }
        }
        assert(min_steps_is(m, s, t, (path@.len() - 1) as nat));
    }
    Some(path)
}

} // verus!
