//! The map: per-battle grid dimensions and the obstacle layer, with the
//! obstacle query, walkable-neighbor enumeration, line of sight, and
//! obstacle-aware shortest paths.

use vstd::prelude::*;
use vstd::pervasive::VecAdditionalExecFns;
use crate::position::{manhattan, line_seq, MapPosition};

verus! {

/// The largest accepted map side. Keeps every cell index inside `usize` and
/// every coordinate inside the line stepper's bound.
pub const MAX_MAP_DIM: u32 = 65535;

/// A battle map: its dimensions, the tile size used by the projection of the
/// hosting renderer, and the obstacle layer. Built once when a map loads and
/// read-only afterwards.
pub struct Tilemap {
    pub id: u32,
    pub width: u32,
    pub height: u32,
    pub tile_width: u32,
    pub tile_height: u32,
    pub obstacles: Vec<bool>,
}

impl Tilemap {
    /// Well-formedness: both sides bounded and one obstacle flag per cell.
    pub open spec fn wf(self) -> bool {
        self.width <= MAX_MAP_DIM && self.height <= MAX_MAP_DIM && self.obstacles@.len()
            == self.width * self.height
    }

    /// Whether `p` lies inside the map.
    pub open spec fn in_bounds(self, p: MapPosition) -> bool {
        p.x < self.width && p.y < self.height
    }

    /// Whether `p` blocks movement, line of sight and area fills: true for
    /// every out-of-bounds position and for every cell of the obstacle layer.
    pub open spec fn obstacle_at(self, p: MapPosition) -> bool {
        !self.in_bounds(p) || self.obstacles@[p.y * self.width + p.x]
    }

    /// A walkable path: it starts at `start`, ends at `end`, moves one cell
    /// at a time between axis-aligned neighbors, and never enters an
    /// obstacle after its first cell.
    pub open spec fn is_walkable_path(
        self,
        p: Seq<MapPosition>,
        start: MapPosition,
        end: MapPosition,
    ) -> bool {
        p.len() >= 1 && p[0] == start && p.last() == end && forall|i: int|
            1 <= i < p.len() ==> manhattan(p[i - 1], #[trigger] p[i]) == 1 && !self.obstacle_at(
                p[i],
            )
    }

    /// Line of sight from `a` to `b`: no cell strictly between the two
    /// endpoints on the supercover line is an obstacle. A unit standing on a
    /// tile is never its own obstacle, so the endpoints are not checked.
    pub open spec fn spec_line_of_sight(self, a: MapPosition, b: MapPosition) -> bool {
        forall|i: int|
            1 <= i < line_seq(a, b).len() - 1 ==> !self.obstacle_at(#[trigger] line_seq(a, b)[i])
    }

    /// Build a map from its dimensions and the positions of its obstacle
    /// tiles; positions outside the bounds are ignored (they already count
    /// as obstacles).
    pub fn new(
        id: u32,
        width: u32,
        height: u32,
        tile_width: u32,
        tile_height: u32,
        obstacle_positions: &Vec<MapPosition>,
    ) -> (r: Tilemap)
        requires
            width <= MAX_MAP_DIM,
            height <= MAX_MAP_DIM,
        ensures
            r.wf(),
            r.id == id,
            r.width == width,
            r.height == height,
            r.tile_width == tile_width,
            r.tile_height == tile_height,
            forall|p: MapPosition|
                r.obstacle_at(p) <==> (!r.in_bounds(p) || obstacle_positions@.contains(p)),
    {
        proof {
            assert(width * height <= MAX_MAP_DIM * MAX_MAP_DIM) by (nonlinear_arith)
                requires
                    width <= MAX_MAP_DIM,
                    height <= MAX_MAP_DIM,
            ;
        }
        let total: usize = (width as usize) * (height as usize);
        let mut obstacles: Vec<bool> = Vec::new();
        let mut i: usize = 0;
        while i < total
            invariant
                i <= total,
                obstacles@.len() == i,
                forall|k: int| 0 <= k < i ==> !obstacles@[k],
            decreases total - i,
        {
            obstacles.push(false);
            i = i + 1;
        }
        let mut map = Tilemap { id, width, height, tile_width, tile_height, obstacles };
        proof {
            assert forall|p: MapPosition| map.in_bounds(p) implies !map.obstacles@[p.y
                * map.width + p.x] by {
                lemma_cell_index_bound(width as int, height as int, p.x as int, p.y as int);
            }
        }
        let mut k: usize = 0;
        while k < obstacle_positions.len()
            invariant
                k <= obstacle_positions@.len(),
                map.wf(),
                map.id == id,
                map.width == width,
                map.height == height,
                map.tile_width == tile_width,
                map.tile_height == tile_height,
                forall|p: MapPosition|
                    map.obstacle_at(p) <==> (!map.in_bounds(p) || obstacle_positions@.take(
                        k as int,
                    ).contains(p)),
            decreases obstacle_positions@.len() - k,
        {
            let p = obstacle_positions[k];
            let ghost before = map;
            if p.x < width && p.y < height {
                proof {
                    lemma_cell_index_bound(width as int, height as int, p.x as int, p.y as int);
                    assert(width * height <= MAX_MAP_DIM * MAX_MAP_DIM) by (nonlinear_arith)
                        requires
                            width <= MAX_MAP_DIM,
                            height <= MAX_MAP_DIM,
                    ;
                }
                let idx: usize = (p.y as usize) * (width as usize) + (p.x as usize);
                map.obstacles.set(idx, true);
                proof {
                    assert forall|q: MapPosition| #![all_triggers]
                        map.obstacle_at(q) <==> (before.obstacle_at(q) || q == p) by {
                        if map.in_bounds(q) {
                            lemma_cell_index_bound(
                                width as int,
                                height as int,
                                q.x as int,
                                q.y as int,
                            );
                            if q.y * width + q.x == p.y * width + p.x {
                                lemma_cell_index_injective(
                                    width as int,
                                    q.x as int,
                                    q.y as int,
                                    p.x as int,
                                    p.y as int,
                                );
                            }
                        }
                    }
                }
            }
            proof {
                assert(obstacle_positions@.take(k + 1).drop_last() == obstacle_positions@.take(
                    k as int,
                ));
                assert(obstacle_positions@.take(k + 1).last() == obstacle_positions@[k as int]);
                assert forall|p0: MapPosition|
                    obstacle_positions@.take(k + 1).contains(p0) <==> (obstacle_positions@.take(
                        k as int,
                    ).contains(p0) || p0 == obstacle_positions@[k as int]) by {
                    let s = obstacle_positions@.take(k + 1);
                    if obstacle_positions@.take(k as int).contains(p0) || p0
                        == obstacle_positions@[k as int] {
                        assert(s.contains(p0)) by {
                            if p0 == obstacle_positions@[k as int] {
                                assert(s[k as int] == p0);
                            } else {
                                let j = choose|j: int|
                                    0 <= j < k && obstacle_positions@.take(k as int)[j] == p0;
                                assert(s[j] == p0);
                            }
                        }
                    }
                    if s.contains(p0) {
                        let j = choose|j: int| 0 <= j < s.len() && s[j] == p0;
                        if j < k {
                            assert(obstacle_positions@.take(k as int)[j] == p0);
                        }
                    }
                }
            }
            k = k + 1;
        }
        proof {
            assert(obstacle_positions@.take(obstacle_positions@.len() as int)
                == obstacle_positions@);
        }
        map
    }

    /// Whether `position` is an obstacle: out of bounds, or occupied on the
    /// obstacle layer.
    pub fn is_obstacle(&self, position: &MapPosition) -> (r: bool)
        requires
            self.wf(),
        ensures
            r == self.obstacle_at(*position),
    {
        if position.x >= self.width || position.y >= self.height {
            return true;
        }
        proof {
            lemma_cell_index_bound(
                self.width as int,
                self.height as int,
                position.x as int,
                position.y as int,
            );
            assert(self.width * self.height <= MAX_MAP_DIM * MAX_MAP_DIM) by (nonlinear_arith)
                requires
                    self.width <= MAX_MAP_DIM,
                    self.height <= MAX_MAP_DIM,
            ;
        }
        let idx: usize = (position.y as usize) * (self.width as usize) + (position.x as usize);
        self.obstacles[idx]
    }
}

/// The neighbor cells tried around `p`, in the fixed order up (y+1), left
/// (x-1), right (x+1), down (y-1). At the numeric edge the missing cell is
/// replaced by a sentinel beyond every map's bounds, which the obstacle
/// filter then removes.
pub open spec fn spec_neighbor_candidates(p: MapPosition) -> Seq<MapPosition> {
    seq![
        MapPosition { x: p.x, y: (p.y + 1) as u32 },
        MapPosition {
            x: if p.x > 0 {
                (p.x - 1) as u32
            } else {
                u32::MAX
            },
            y: p.y,
        },
        MapPosition { x: (p.x + 1) as u32, y: p.y },
        MapPosition {
            x: p.x,
            y: if p.y > 0 {
                (p.y - 1) as u32
            } else {
                u32::MAX
            },
        },
    ]
}

impl Tilemap {
    /// Every in-bounds position of the map, row by row.
    pub fn all_positions(&self) -> (r: Vec<MapPosition>)
        requires
            self.wf(),
        ensures
            forall|p: MapPosition| r@.contains(p) <==> self.in_bounds(p),
            forall|i: int, j: int| 0 <= i < j < r@.len() ==> r@[i] != r@[j],
    {
        let origin = MapPosition::new(0, 0);
        let r = origin.get_surrounding_positions(0, u32::MAX, self.width, self.height);
        proof {
            assert forall|p: MapPosition| self.in_bounds(p) implies manhattan(origin, p)
                <= u32::MAX by {}
        }
        r
    }

    /// The cells of `s` that are not obstacles, in order, each paired with
    /// the uniform movement cost of one.
    pub open spec fn neigh_filter(self, s: Seq<MapPosition>) -> Seq<(MapPosition, u32)>
        decreases s.len(),
    {
        if s.len() == 0 {
            Seq::empty()
        } else {
            let rest = self.neigh_filter(s.drop_last());
            if !self.obstacle_at(s.last()) {
                rest.push((s.last(), 1u32))
            } else {
                rest
            }
        }
    }

    /// What `neigh_filter` holds: exactly the non-obstacle cells of `s`,
    /// each once if `s` has no duplicates, all with cost one.
    proof fn lemma_neigh_filter(self, s: Seq<MapPosition>)
        ensures
            forall|q: MapPosition|
                self.neigh_filter(s).contains((q, 1u32)) <==> (s.contains(q)
                    && !self.obstacle_at(q)),
            forall|i: int|
                0 <= i < self.neigh_filter(s).len() ==> (#[trigger] self.neigh_filter(s)[i]).1
                    == 1u32,
            forall|i: int|
                0 <= i < self.neigh_filter(s).len() ==> s.contains(
                    (#[trigger] self.neigh_filter(s)[i]).0,
                ),
            (forall|i: int, j: int| 0 <= i < j < s.len() ==> s[i] != s[j]) ==> (forall|
                i: int,
                j: int,
            |
                0 <= i < j < self.neigh_filter(s).len() ==> self.neigh_filter(s)[i]
                    != self.neigh_filter(s)[j]),
        decreases s.len(),
    {
        broadcast use vstd::seq_lib::lemma_seq_contains_after_push;

        if s.len() == 0 {
        } else {
            let rest = self.neigh_filter(s.drop_last());
            self.lemma_neigh_filter(s.drop_last());
            assert forall|q: MapPosition|
                s.contains(q) <==> (s.drop_last().contains(q) || q == s.last()) by {
                if s.contains(q) {
                    let j = choose|j: int| 0 <= j < s.len() && s[j] == q;
                    if j < s.len() - 1 {
                        assert(s.drop_last()[j] == q);
                    }
                }
                if s.drop_last().contains(q) {
                    let j = choose|j: int| 0 <= j < s.len() - 1 && s.drop_last()[j] == q;
                    assert(s[j] == q);
                }
                if q == s.last() {
                    assert(s[s.len() - 1] == q);
                }
            }
            if forall|i: int, j: int| 0 <= i < j < s.len() ==> s[i] != s[j] {
                assert(forall|i: int, j: int|
                    0 <= i < j < s.drop_last().len() ==> s.drop_last()[i] != s.drop_last()[j]);
                if !self.obstacle_at(s.last()) {
                    assert(!s.drop_last().contains(s.last())) by {
                        if s.drop_last().contains(s.last()) {
                            let j = choose|j: int|
                                0 <= j < s.len() - 1 && s.drop_last()[j] == s.last();
                            assert(s[j] == s[s.len() - 1]);
                        }
                    }
                    assert(!rest.contains((s.last(), 1u32)));
                    assert(forall|i: int|
                        0 <= i < rest.len() ==> #[trigger] self.neigh_filter(s)[i] == rest[i]);
                }
            }
        }
    }

    /// The axis-aligned neighbors of `position`, filtered to in-bounds,
    /// non-obstacle cells, each with the uniform movement cost of one, in
    /// the fixed order up, left, right, down — so that shortest-path
    /// tie-breaking is deterministic and paths are reproducible.
    pub fn non_obstacle_tile_neightbours(&self, position: &MapPosition) -> (r: Vec<
        (MapPosition, u32),
    >)
        requires
            self.wf(),
            position.bounded(),
        ensures
            r@ == self.neigh_filter(spec_neighbor_candidates(*position)),
            forall|q: MapPosition|
                r@.contains((q, 1u32)) <==> (manhattan(*position, q) == 1 && !self.obstacle_at(q)),
            forall|i: int| 0 <= i < r@.len() ==> r@[i].1 == 1u32,
            forall|i: int, j: int| 0 <= i < j < r@.len() ==> r@[i] != r@[j],
    {
        let mut result: Vec<(MapPosition, u32)> = Vec::new();
        let mut candidates: Vec<MapPosition> = Vec::new();
        candidates.push(MapPosition::new(position.x, position.y + 1));
        candidates.push(
            MapPosition::new(
                if position.x > 0 {
                    position.x - 1
                } else {
                    u32::MAX
                },
                position.y,
            ),
        );
        candidates.push(MapPosition::new(position.x + 1, position.y));
        candidates.push(
            MapPosition::new(
                position.x,
                if position.y > 0 {
                    position.y - 1
                } else {
                    u32::MAX
                },
            ),
        );
        proof {
            assert forall|q: MapPosition| manhattan(*position, q) == 1 implies candidates@.contains(
                q,
            ) by {
                if q.x == position.x && q.y == position.y + 1 {
                    assert(candidates@[0] == q);
                } else if q.y == position.y && q.x + 1 == position.x {
                    assert(candidates@[1] == q);
                } else if q.y == position.y && q.x == position.x + 1 {
                    assert(candidates@[2] == q);
                } else {
                    assert(q.x == position.x && q.y + 1 == position.y);
                    assert(candidates@[3] == q);
                }
            }
            assert forall|i: int| 0 <= i < candidates@.len() implies (manhattan(
                *position,
                #[trigger] candidates@[i],
            ) == 1 || !self.in_bounds(candidates@[i])) by {
                assert(u32::MAX >= self.width);
            }
            assert(forall|i: int, j: int|
                0 <= i < j < candidates@.len() ==> candidates@[i] != candidates@[j]);
        }
        let mut k: usize = 0;
        while k < candidates.len()
            invariant
                self.wf(),
                k <= candidates@.len(),
                result@ == self.neigh_filter(candidates@.take(k as int)),
            decreases candidates@.len() - k,
        {
            let c = candidates[k];
            if !self.is_obstacle(&c) {
                result.push((c, 1));
            }
            proof {
                assert(candidates@.take(k + 1).drop_last() =~= candidates@.take(k as int));
                assert(candidates@.take(k + 1).last() == candidates@[k as int]);
                assert(candidates@.take(k + 1).len() == k + 1);
            }
            k = k + 1;
        }
        proof {
            assert(candidates@.take(candidates@.len() as int) =~= candidates@);
            assert(candidates@ =~= spec_neighbor_candidates(*position));
            self.lemma_neigh_filter(candidates@);
        }
        result
    }

    /// Whether a straight line of sight joins `me` and `target`: every cell
    /// of the supercover line strictly between the endpoints is clear.
    pub fn line_of_sight_check(&self, me: &MapPosition, target: &MapPosition) -> (r: bool)
        requires
            self.wf(),
            me.bounded(),
            target.bounded(),
        ensures
            r == self.spec_line_of_sight(*me, *target),
    {
        let path = me.line_to(target);
        let mut i: usize = 1;
        if path.len() < 3 {
            proof {
                assert(line_seq(*me, *target).len() >= 1);
            }
            return true;
        }
        while i < path.len() - 1
            invariant
                self.wf(),
                path@ == line_seq(*me, *target),
                path@.len() >= 3,
                1 <= i <= path@.len() - 1,
                forall|j: int| 1 <= j < i ==> !self.obstacle_at(#[trigger] path@[j]),
            decreases path@.len() - i,
        {
            if self.is_obstacle(&path[i]) {
                return false;
            }
            i = i + 1;
        }
        true
    }

    /// Compute a minimal-cost walkable path between two positions, avoiding
    /// obstacles, returning the path and its cost; `None` when no walkable
    /// path joins them.
    pub fn pathfinding(&self, start: &MapPosition, end: &MapPosition) -> (r: Option<
        (Vec<MapPosition>, u32),
    >)
        requires
            self.wf(),
            start.bounded(),
        ensures
            match r {
                Some(path_cost) => {
                    &&& self.is_walkable_path(path_cost.0@, *start, *end)
                    &&& path_cost.1 == path_cost.0@.len() - 1
                    &&& forall|q: Seq<MapPosition>|
                        self.is_walkable_path(q, *start, *end) ==> q.len() >= path_cost.0@.len()
                },
                None => forall|q: Seq<MapPosition>| !self.is_walkable_path(q, *start, *end),
            },
    {
        dijkstra_shortest_path(self, start, end)
    }
}

/// Relies on `pathfinding::prelude::dijkstra`: it returns a shortest path,
/// start and end nodes included, together with its total cost, over the
/// graph spanned by the successor function, and `None` exactly when no such
/// path exists. The successor function here is the verified walkable-neighbor
/// enumeration, whose edges all cost one, so a path's cost is its length
/// less one and a minimal-cost path is a minimal-length one.
#[verifier::external_body]
fn dijkstra_shortest_path(map: &Tilemap, start: &MapPosition, end: &MapPosition) -> (r: Option<
    (Vec<MapPosition>, u32),
>)
    requires
        map.wf(),
        start.bounded(),
    ensures
        match r {
            Some(path_cost) => {
                &&& map.is_walkable_path(path_cost.0@, *start, *end)
                &&& path_cost.1 == path_cost.0@.len() - 1
                &&& forall|q: Seq<MapPosition>|
                    map.is_walkable_path(q, *start, *end) ==> q.len() >= path_cost.0@.len()
            },
            None => forall|q: Seq<MapPosition>| !map.is_walkable_path(q, *start, *end),
        },
{
    pathfinding::prelude::dijkstra(
        start,
        |p: &MapPosition| map.non_obstacle_tile_neightbours(p),
        |p: &MapPosition| *p == *end,
    )
}

/// Line of sight is symmetric: whatever the obstacle layout, `a` sees `b`
/// exactly when `b` sees `a`, because the supercover line between them is
/// the same set of cells walked in the opposite order.
pub proof fn lemma_line_of_sight_symmetric(m: Tilemap, a: MapPosition, b: MapPosition)
    ensures
        m.spec_line_of_sight(a, b) == m.spec_line_of_sight(b, a),
{
    crate::position::lemma_line_symmetric(a, b);
    crate::position::lemma_line_symmetric(b, a);
    let s = line_seq(a, b);
    let t = line_seq(b, a);
    assert(t.len() == s.len());
    if m.spec_line_of_sight(a, b) {
        assert forall|i: int| 1 <= i < t.len() - 1 implies !m.obstacle_at(t[i]) by {
            assert(t[i] == s[s.len() - 1 - i]);
            assert(1 <= s.len() - 1 - i < s.len() - 1);
        }
        assert(m.spec_line_of_sight(b, a));
    }
    if m.spec_line_of_sight(b, a) {
        assert forall|i: int| 1 <= i < s.len() - 1 implies !m.obstacle_at(s[i]) by {
            assert(s[i] == t[t.len() - 1 - i]);
            assert(1 <= t.len() - 1 - i < t.len() - 1);
        }
        assert(m.spec_line_of_sight(a, b));
    }
}

/// Every walkable path from a cell west of column `c` to a cell at or past
/// it steps onto column `c` somewhere after its start: the path moves one
/// cell at a time, so the column cannot be jumped.
pub proof fn lemma_walkable_path_crosses_column(
    m: Tilemap,
    p: Seq<MapPosition>,
    start: MapPosition,
    end: MapPosition,
    c: int,
)
    requires
        m.is_walkable_path(p, start, end),
        (start.x as int) < c,
        c <= end.x as int,
    ensures
        exists|i: int| 1 <= i < p.len() && (#[trigger] p[i]).x == c,
    decreases p.len(),
{
    assert(p.len() >= 2);
    assert(manhattan(p[0], p[1]) == 1);
    if p[1].x as int >= c {
        assert(p[1].x as int <= p[0].x + 1);
        assert(p[1].x as int == c);
    } else {
        let q = p.drop_first();
        assert(m.is_walkable_path(q, p[1], end)) by {
            assert(forall|i: int| 0 <= i < q.len() ==> q[i] == p[i + 1]);
            assert(q.last() == p.last());
            assert forall|i: int|
                1 <= i < q.len() implies manhattan(q[i - 1], #[trigger] q[i]) == 1
                && !m.obstacle_at(q[i]) by {
                assert(q[i] == p[i + 1] && q[i - 1] == p[i]);
            }
        }
        lemma_walkable_path_crosses_column(m, q, p[1], end, c);
        let i = choose|i: int| 1 <= i < q.len() && (#[trigger] q[i]).x == c;
        assert(p[i + 1].x == c);
    }
}

/// A walkable path is never shorter than the Manhattan distance between its
/// endpoints: each step closes at most one unit of it.
pub proof fn lemma_walkable_path_cost_bound(
    m: Tilemap,
    p: Seq<MapPosition>,
    start: MapPosition,
    end: MapPosition,
)
    requires
        m.is_walkable_path(p, start, end),
    ensures
        p.len() - 1 >= manhattan(start, end),
    decreases p.len(),
{
    if p.len() == 1 {
    } else {
        let q = p.drop_last();
        let mid = p[p.len() - 2];
        assert(m.is_walkable_path(q, start, mid)) by {
            assert(forall|i: int| 0 <= i < q.len() ==> q[i] == p[i]);
            assert forall|i: int|
                1 <= i < q.len() implies manhattan(q[i - 1], #[trigger] q[i]) == 1
                && !m.obstacle_at(q[i]) by {
                assert(q[i] == p[i] && q[i - 1] == p[i - 1]);
            }
        }
        lemma_walkable_path_cost_bound(m, q, start, mid);
        assert(manhattan(mid, end) == 1);
        assert(manhattan(start, end) <= manhattan(start, mid) + manhattan(mid, end));
    }
}

/// When column `gap.x` is blocked everywhere but at the single gap cell,
/// every walkable path between cells on opposite sides passes through the
/// gap, and costs at least the Manhattan distance of the route via it.
pub proof fn lemma_wall_gap_forces_the_gap(
    m: Tilemap,
    p: Seq<MapPosition>,
    start: MapPosition,
    end: MapPosition,
    gap: MapPosition,
)
    requires
        m.is_walkable_path(p, start, end),
        start.x < gap.x,
        gap.x <= end.x,
        forall|q: MapPosition| q.x == gap.x && q != gap ==> m.obstacle_at(q),
    ensures
        p.contains(gap),
        p.len() - 1 >= manhattan(start, gap) + manhattan(gap, end),
{
    lemma_walkable_path_crosses_column(m, p, start, end, gap.x as int);
    let i = choose|i: int| 1 <= i < p.len() && (#[trigger] p[i]).x == gap.x as int;
    assert(!m.obstacle_at(p[i]));
    assert(p[i] == gap);
    assert(p.contains(gap));
    let front = p.subrange(0, i + 1);
    let back = p.subrange(i, p.len() as int);
    assert(m.is_walkable_path(front, start, gap)) by {
        assert(forall|j: int| 0 <= j < front.len() ==> front[j] == p[j]);
        assert(front.last() == p[i]);
        assert forall|j: int|
            1 <= j < front.len() implies manhattan(front[j - 1], #[trigger] front[j]) == 1
            && !m.obstacle_at(front[j]) by {
            assert(front[j] == p[j] && front[j - 1] == p[j - 1]);
        }
    }
    assert(m.is_walkable_path(back, gap, end)) by {
        assert(forall|j: int| 0 <= j < back.len() ==> back[j] == p[i + j]);
        assert(back.last() == p.last());
        assert forall|j: int|
            1 <= j < back.len() implies manhattan(back[j - 1], #[trigger] back[j]) == 1
            && !m.obstacle_at(back[j]) by {
            assert(back[j] == p[i + j] && back[j - 1] == p[i + j - 1]);
        }
    }
    lemma_walkable_path_cost_bound(m, front, start, gap);
    lemma_walkable_path_cost_bound(m, back, gap, end);
}

/// A completely blocked column separates the two sides: no walkable path
/// joins a cell west of it to a cell at or past it.
pub proof fn lemma_complete_wall_separates(
    m: Tilemap,
    start: MapPosition,
    end: MapPosition,
    c: u32,
)
    requires
        start.x < c,
        c <= end.x,
        forall|q: MapPosition| q.x == c ==> m.obstacle_at(q),
    ensures
        forall|p: Seq<MapPosition>| !m.is_walkable_path(p, start, end),
{
    assert forall|p: Seq<MapPosition>| !m.is_walkable_path(p, start, end) by {
        if m.is_walkable_path(p, start, end) {
            lemma_walkable_path_crosses_column(m, p, start, end, c as int);
            let i = choose|i: int| 1 <= i < p.len() && (#[trigger] p[i]).x == c as int;
            assert(!m.obstacle_at(p[i]));
        }
    }
}

/// The shortest-path scenario through a walled column: a minimal-cost
/// walkable path — as `pathfinding` returns — passes through the single gap
/// of the wall, and when some walkable path realizes the Manhattan distance
/// of the route via the gap, the minimal cost is exactly that distance.
pub proof fn lemma_shortest_path_via_gap(
    m: Tilemap,
    p: Seq<MapPosition>,
    start: MapPosition,
    end: MapPosition,
    gap: MapPosition,
)
    requires
        m.is_walkable_path(p, start, end),
        forall|q: Seq<MapPosition>| m.is_walkable_path(q, start, end) ==> q.len() >= p.len(),
        start.x < gap.x,
        gap.x <= end.x,
        forall|q: MapPosition| q.x == gap.x && q != gap ==> m.obstacle_at(q),
    ensures
        p.contains(gap),
        (exists|q: Seq<MapPosition>|
            m.is_walkable_path(q, start, end) && q.len() - 1 == manhattan(start, gap) + manhattan(
                gap,
                end,
            )) ==> p.len() - 1 == manhattan(start, gap) + manhattan(gap, end),
{
    lemma_wall_gap_forces_the_gap(m, p, start, end, gap);
    if exists|q: Seq<MapPosition>|
        m.is_walkable_path(q, start, end) && q.len() - 1 == manhattan(start, gap) + manhattan(
            gap,
            end,
        ) {
        let q = choose|q: Seq<MapPosition>|
            m.is_walkable_path(q, start, end) && q.len() - 1 == manhattan(start, gap) + manhattan(
                gap,
                end,
            );
        assert(q.len() >= p.len());
    }
}

/// Taking one more element appends exactly the element at the boundary.
proof fn lemma_take_one_more<T>(s: Seq<T>, k: int)
    requires
        0 <= k < s.len(),
    ensures
        s.take(k + 1) == s.take(k).push(s[k]),
        forall|x: T| s.take(k + 1).contains(x) <==> (s.take(k).contains(x) || x == s[k]),
{
    assert(s.take(k + 1) =~= s.take(k).push(s[k]));
    assert forall|x: T| s.take(k + 1).contains(x) <==> (s.take(k).contains(x) || x == s[k]) by {
        let t = s.take(k + 1);
        if t.contains(x) {
            let j = choose|j: int| 0 <= j < t.len() && t[j] == x;
            if j < k {
                assert(s.take(k)[j] == x);
            }
        }
        if s.take(k).contains(x) {
            let j = choose|j: int| 0 <= j < k && s.take(k)[j] == x;
            assert(t[j] == x);
        }
        if x == s[k] {
            assert(t[k] == x);
        }
    }
}

/// For an in-bounds cell, `y * width + x` stays under `width * height`.
proof fn lemma_cell_index_bound(width: int, height: int, x: int, y: int)
    requires
        0 <= x < width,
        0 <= y < height,
    ensures
        0 <= y * width + x < width * height,
    decreases 0int,
{
    assert(y * width + x < width * height) by (nonlinear_arith)
        requires
            0 <= x < width,
            0 <= y < height,
    ;
    assert(y * width >= 0) by (nonlinear_arith)
        requires
            y >= 0,
            width >= 0,
    ;
}

/// Cell indexing is injective over in-bounds coordinates.
proof fn lemma_cell_index_injective(width: int, x1: int, y1: int, x2: int, y2: int)
    requires
        0 <= x1 < width,
        0 <= x2 < width,
        y1 >= 0,
        y2 >= 0,
        y1 * width + x1 == y2 * width + x2,
    ensures
        x1 == x2,
        y1 == y2,
{
    assert(x1 == x2 && y1 == y2) by (nonlinear_arith)
        requires
            0 <= x1 < width,
            0 <= x2 < width,
            y1 >= 0,
            y2 >= 0,
            y1 * width + x1 == y2 * width + x2,
    ;
}

} // verus!
