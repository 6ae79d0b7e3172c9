//! Grid geometry: integer positions on the isometric map, Manhattan
//! distance, axis-aligned directions and straight walks, surrounding-cell
//! enumeration, and the supercover line used for line of sight.

use vstd::prelude::*;

verus! {

/// Coordinates at or above this bound never name a cell: every map is
/// smaller, and the line stepper's arithmetic is sized for it.
pub const COORD_LIMIT: u32 = 65536;

/// An integer pair `(x, y)` on the grid. Compared by equality for occupancy
/// checks; positions outside a map's bounds always count as obstacles.
#[derive(Debug, Clone, Copy, Hash, PartialEq, Eq, Structural, Default)]
pub struct MapPosition {
    pub x: u32,
    pub y: u32,
}

/// One of the four axis-aligned directions of the isometric grid, named for
/// the screen-space diagonal each one points to.
#[derive(Debug, Clone, Copy, PartialEq, Eq, Structural)]
pub enum MapPositionDirection {
    NordWest,
    NordEst,
    SudWest,
    SudEst,
}

/// Manhattan distance `|ax - bx| + |ay - by|`.
pub open spec fn manhattan(a: MapPosition, b: MapPosition) -> int {
    abs_diff(a.x as int, b.x as int) + abs_diff(a.y as int, b.y as int)
}

pub open spec fn abs_diff(a: int, b: int) -> int {
    if a >= b {
        a - b
    } else {
        b - a
    }
}

/// The cell one step from `p` along `dir`, or `None` at the numeric edge of
/// the coordinate space, where no such cell exists.
pub open spec fn spec_step_toward(p: MapPosition, dir: MapPositionDirection) -> Option<
    MapPosition,
> {
    match dir {
        MapPositionDirection::NordWest => if p.x > 0 {
            Some(MapPosition { x: (p.x - 1) as u32, y: p.y })
        } else {
            None
        },
        MapPositionDirection::NordEst => if p.y > 0 {
            Some(MapPosition { x: p.x, y: (p.y - 1) as u32 })
        } else {
            None
        },
        MapPositionDirection::SudWest => if p.y < u32::MAX {
            Some(MapPosition { x: p.x, y: (p.y + 1) as u32 })
        } else {
            None
        },
        MapPositionDirection::SudEst => if p.x < u32::MAX {
            Some(MapPosition { x: (p.x + 1) as u32, y: p.y })
        } else {
            None
        },
    }
}

/// The straight walk of at most `distance` cells from `from` along `dir`,
/// excluding `from` itself; it ends early only at the numeric edge of the
/// coordinate space.
pub open spec fn spec_straight_path(
    from: MapPosition,
    dir: MapPositionDirection,
    distance: u32,
) -> Seq<MapPosition>
    decreases distance,
{
    if distance == 0 {
        Seq::empty()
    } else {
        match spec_step_toward(from, dir) {
            None => Seq::empty(),
            Some(next) => seq![next] + spec_straight_path(next, dir, (distance - 1) as u32),
        }
    }
}

/// The axis-aligned direction from `from` to `to`, defined exactly when the
/// two positions share one coordinate and differ on the other.
pub open spec fn spec_direction(from: MapPosition, to: MapPosition) -> Option<
    MapPositionDirection,
> {
    if from.x == to.x && from.y < to.y {
        Some(MapPositionDirection::SudWest)
    } else if from.x == to.x && from.y > to.y {
        Some(MapPositionDirection::NordEst)
    } else if from.x < to.x && from.y == to.y {
        Some(MapPositionDirection::SudEst)
    } else if from.x > to.x && from.y == to.y {
        Some(MapPositionDirection::NordWest)
    } else {
        None
    }
}

/// `i` if nonnegative, else zero.
pub open spec fn pos_part(i: int) -> int {
    if i >= 0 {
        i
    } else {
        0
    }
}

/// The number of x-steps of the line from `a` to `b`.
pub open spec fn line_nx(a: MapPosition, b: MapPosition) -> int {
    abs_diff(b.x as int, a.x as int)
}

/// The number of y-steps of the line from `a` to `b`.
pub open spec fn line_ny(a: MapPosition, b: MapPosition) -> int {
    abs_diff(b.y as int, a.y as int)
}

pub open spec fn line_sign_x(a: MapPosition, b: MapPosition) -> int {
    if b.x >= a.x {
        1
    } else {
        -1
    }
}

pub open spec fn line_sign_y(a: MapPosition, b: MapPosition) -> int {
    if b.y >= a.y {
        1
    } else {
        -1
    }
}

/// The cell the line stepper occupies after `ix` x-steps and `iy` y-steps.
pub open spec fn line_cell(a: MapPosition, b: MapPosition, ix: int, iy: int) -> MapPosition {
    MapPosition {
        x: (a.x + line_sign_x(a, b) * ix) as u32,
        y: (a.y + line_sign_y(a, b) * iy) as u32,
    }
}

/// The stepper's decision value at state `(ix, iy)`: zero steps both axes,
/// negative steps x, positive steps y.
pub open spec fn line_decision(a: MapPosition, b: MapPosition, ix: int, iy: int) -> int {
    (1 + 2 * ix) * line_ny(a, b) - (1 + 2 * iy) * line_nx(a, b)
}

/// The signed area error of the stepper at `(ix, iy)`; the decision value
/// equals `2 * line_err + ny - nx`.
pub open spec fn line_err(a: MapPosition, b: MapPosition, ix: int, iy: int) -> int {
    ix * line_ny(a, b) - iy * line_nx(a, b)
}

/// The tail of the supercover line from `a` to `b` starting at stepper state
/// `(ix, iy)`, that cell included.
pub open spec fn line_from(a: MapPosition, b: MapPosition, ix: int, iy: int) -> Seq<MapPosition>
    decreases pos_part(line_nx(a, b) - ix) + pos_part(line_ny(a, b) - iy),
{
    let nx = line_nx(a, b);
    let ny = line_ny(a, b);
    let d = line_decision(a, b, ix, iy);
    let step_x = d <= 0 && ix < nx;
    let step_y = d >= 0 && iy < ny;
    if step_x || step_y {
        seq![line_cell(a, b, ix, iy)] + line_from(
            a,
            b,
            if step_x {
                ix + 1
            } else {
                ix
            },
            if step_y {
                iy + 1
            } else {
                iy
            },
        )
    } else {
        seq![line_cell(a, b, ix, iy)]
    }
}

/// The supercover line from `a` to `b`, both included: every cell the
/// geometric segment between the two cell centres touches.
pub open spec fn line_seq(a: MapPosition, b: MapPosition) -> Seq<MapPosition> {
    line_from(a, b, 0, 0)
}

/// The decision value is a linear function of the stepper's area error.
proof fn lemma_decision_err(a: MapPosition, b: MapPosition, ix: int, iy: int)
    ensures
        line_decision(a, b, ix, iy) == 2 * line_err(a, b, ix, iy) + line_ny(a, b) - line_nx(a, b),
{
    let nx = line_nx(a, b);
    let ny = line_ny(a, b);
    let d = line_decision(a, b, ix, iy);
    let e = line_err(a, b, ix, iy);
    assert(d == 2 * e + ny - nx) by (nonlinear_arith)
        requires
            d == (1 + 2 * ix) * ny - (1 + 2 * iy) * nx,
            e == ix * ny - iy * nx,
    ;
}

/// How one step moves the area error.
proof fn lemma_err_step(a: MapPosition, b: MapPosition, ix: int, iy: int)
    ensures
        line_err(a, b, ix + 1, iy) == line_err(a, b, ix, iy) + line_ny(a, b),
        line_err(a, b, ix, iy + 1) == line_err(a, b, ix, iy) - line_nx(a, b),
        line_err(a, b, ix + 1, iy + 1) == line_err(a, b, ix, iy) + line_ny(a, b) - line_nx(a, b),
{
    let nx = line_nx(a, b);
    let ny = line_ny(a, b);
    assert((ix + 1) * ny - iy * nx == ix * ny - iy * nx + ny && ix * ny - (iy + 1) * nx == ix * ny
        - iy * nx - nx && (ix + 1) * ny - (iy + 1) * nx == ix * ny - iy * nx + ny - nx)
        by (nonlinear_arith);
}

/// The walk from `b` back to `a` mirrors the error of the walk from `a`.
proof fn lemma_err_sym(a: MapPosition, b: MapPosition, ix: int, iy: int)
    ensures
        line_err(b, a, line_nx(a, b) - ix, line_ny(a, b) - iy) == -line_err(a, b, ix, iy),
{
    let nx = line_nx(a, b);
    let ny = line_ny(a, b);
    assert((nx - ix) * ny - (ny - iy) * nx == -(ix * ny - iy * nx)) by (nonlinear_arith);
}

/// The stepper's cells seen from `b` are the cells seen from `a`, indexed
/// from the other end.
proof fn lemma_cell_sym(a: MapPosition, b: MapPosition, ix: int, iy: int)
    requires
        0 <= ix <= line_nx(a, b),
        0 <= iy <= line_ny(a, b),
    ensures
        line_cell(b, a, line_nx(a, b) - ix, line_ny(a, b) - iy) == line_cell(a, b, ix, iy),
{
    let nx = line_nx(a, b);
    let ny = line_ny(a, b);
    let sx = line_sign_x(a, b);
    let sy = line_sign_y(a, b);
    let tx = line_sign_x(b, a);
    let ty = line_sign_y(b, a);
    assert(sx * ix == if sx == 1 {
        ix
    } else {
        -ix
    }) by (nonlinear_arith)
        requires
            sx == 1 || sx == -1,
    ;
    assert(sy * iy == if sy == 1 {
        iy
    } else {
        -iy
    }) by (nonlinear_arith)
        requires
            sy == 1 || sy == -1,
    ;
    assert(tx * (nx - ix) == if tx == 1 {
        nx - ix
    } else {
        -(nx - ix)
    }) by (nonlinear_arith)
        requires
            tx == 1 || tx == -1,
    ;
    assert(ty * (ny - iy) == if ty == 1 {
        ny - iy
    } else {
        -(ny - iy)
    }) by (nonlinear_arith)
        requires
            ty == 1 || ty == -1,
    ;
}

/// At its final state the stepper stops: the tail is the single ending cell,
/// which is `b` itself.
proof fn lemma_line_terminal(a: MapPosition, b: MapPosition)
    ensures
        line_from(a, b, line_nx(a, b), line_ny(a, b)) == seq![b],
{
    let nx = line_nx(a, b);
    let ny = line_ny(a, b);
    lemma_cell_sym(a, b, nx, ny);
    assert(line_cell(b, a, 0, 0) == b) by {
        let tx = line_sign_x(b, a);
        let ty = line_sign_y(b, a);
        assert(tx * 0 == 0 && ty * 0 == 0) by (nonlinear_arith);
    }
    assert(line_from(a, b, nx, ny) =~= seq![b]);
}

/// Reversing a sequence with its head split off moves the head to the back.
proof fn lemma_reverse_cons<T>(c: T, s: Seq<T>)
    ensures
        (seq![c] + s).reverse() == s.reverse().push(c),
{
    let w = seq![c] + s;
    assert(w.reverse() =~= s.reverse().push(c)) by {
        assert(w.reverse().len() == s.len() + 1);
        assert forall|i: int| 0 <= i < w.len() implies w.reverse()[i] == s.reverse().push(c)[i] by {
            if i < s.len() {
                assert(w.reverse()[i] == w[w.len() - 1 - i]);
                assert(w[w.len() - 1 - i] == s[s.len() - 1 - i]);
            } else {
                assert(w.reverse()[i] == w[0]);
            }
        }
    }
}

/// Reversing twice gives the sequence back.
proof fn lemma_reverse_involution<T>(s: Seq<T>)
    ensures
        s.reverse().reverse() == s,
{
    assert(s.reverse().reverse() =~= s);
}

/// The inductive walk behind the symmetry of the supercover line: at each
/// reachable stepper state, the line from `a` splits into the reversed head
/// of the backward line from `b` and the forward tail.
proof fn lemma_line_sym_walk(a: MapPosition, b: MapPosition, ix: int, iy: int)
    requires
        0 <= ix <= line_nx(a, b),
        0 <= iy <= line_ny(a, b),
        line_nx(a, b) + line_ny(a, b) > 0 ==> -(line_nx(a, b) + line_ny(a, b)) < 2 * line_err(
            a,
            b,
            ix,
            iy,
        ) < line_nx(a, b) + line_ny(a, b),
        line_seq(a, b) == line_from(
            b,
            a,
            line_nx(a, b) - ix,
            line_ny(a, b) - iy,
        ).reverse().drop_last() + line_from(a, b, ix, iy),
    ensures
        line_seq(a, b) == line_seq(b, a).reverse(),
    decreases (line_nx(a, b) - ix) + (line_ny(a, b) - iy),
{
    let nx = line_nx(a, b);
    let ny = line_ny(a, b);
    let e = line_err(a, b, ix, iy);
    let d = line_decision(a, b, ix, iy);
    lemma_decision_err(a, b, ix, iy);
    if ix == nx && iy == ny {
        lemma_line_terminal(a, b);
        let bb = line_seq(b, a);
        assert(bb == line_from(b, a, 0, 0));
        assert(bb.len() >= 1);
        assert(bb[0] == line_cell(b, a, 0, 0));
        lemma_cell_sym(a, b, nx, ny);
        assert(bb[0] == b);
        assert(bb.reverse().len() == bb.len());
        assert(bb.reverse().last() == bb[0]);
        assert(line_seq(a, b) == bb.reverse().drop_last() + seq![b]);
        assert(bb.reverse() =~= bb.reverse().drop_last() + seq![bb.reverse().last()]);
        assert(line_seq(a, b) == bb.reverse());
    } else {
        assert(nx + ny > 0);
        // Rule out a step past either boundary.
        if ix == nx {
            assert(iy < ny);
            assert(2 * (nx * ny - iy * nx) + ny - nx > 0) by (nonlinear_arith)
                requires
                    0 <= iy < ny,
                    0 <= nx,
            ;
            assert(e == nx * ny - iy * nx);
            assert(d > 0);
        }
        if iy == ny {
            assert(ix < nx);
            assert(2 * (ix * ny - ny * nx) + ny - nx < 0) by (nonlinear_arith)
                requires
                    0 <= ix < nx,
                    0 <= ny,
            ;
            assert(e == ix * ny - ny * nx);
            assert(d < 0);
        }
        let step_x = d <= 0 && ix < nx;
        let step_y = d >= 0 && iy < ny;
        assert(step_x || step_y);
        let ix2 = if step_x {
            ix + 1
        } else {
            ix
        };
        let iy2 = if step_y {
            iy + 1
        } else {
            iy
        };
        lemma_err_step(a, b, ix, iy);
        let e2 = line_err(a, b, ix2, iy2);
        // The error bound is kept at the new state.
        if d == 0 {
            assert(ix < nx && iy < ny);
            assert(nx >= 1 && ny >= 1);
            assert(e2 == e + ny - nx);
            assert(2 * e == nx - ny);
            assert(-(nx + ny) < 2 * e2 < nx + ny);
        } else if d < 0 {
            assert(ix < nx);
            assert(!step_y);
            assert(e2 == e + ny);
            assert(-(nx + ny) < 2 * e2 < nx + ny);
        } else {
            assert(iy < ny);
            assert(!step_x);
            assert(e2 == e - nx);
            assert(-(nx + ny) < 2 * e2 < nx + ny);
        }
        // The backward stepper makes the exactly mirrored step.
        let jx = nx - ix;
        let jy = ny - iy;
        let jx2 = nx - ix2;
        let jy2 = ny - iy2;
        lemma_err_sym(a, b, ix2, iy2);
        lemma_decision_err(b, a, jx2, jy2);
        let db = line_decision(b, a, jx2, jy2);
        assert(line_nx(b, a) == nx && line_ny(b, a) == ny);
        assert(db == -2 * e2 + ny - nx);
        let bold = line_from(b, a, jx, jy);
        let bnew = line_from(b, a, jx2, jy2);
        if d == 0 {
            assert(db == 0);
            assert(jx2 < nx && jy2 < ny);
            assert(bnew == seq![line_cell(b, a, jx2, jy2)] + line_from(b, a, jx2 + 1, jy2 + 1));
            assert(jx2 + 1 == jx && jy2 + 1 == jy);
        } else if d < 0 {
            assert(db == -2 * e - 2 * ny + ny - nx);
            assert(db < 0);
            assert(jx2 < nx);
            assert(bnew == seq![line_cell(b, a, jx2, jy2)] + line_from(b, a, jx2 + 1, jy2));
            assert(jx2 + 1 == jx && jy2 == jy);
        } else {
            assert(db == -2 * e + 2 * nx + ny - nx);
            assert(db > 0);
            assert(jy2 < ny);
            assert(bnew == seq![line_cell(b, a, jx2, jy2)] + line_from(b, a, jx2, jy2 + 1));
            assert(jx2 == jx && jy2 + 1 == jy);
        }
        assert(bnew == seq![line_cell(b, a, jx2, jy2)] + bold);
        lemma_cell_sym(a, b, ix2, iy2);
        assert(line_cell(b, a, jx2, jy2) == line_cell(a, b, ix2, iy2));
        // Reassemble the split of the full line around the new state.
        lemma_cell_sym(a, b, ix, iy);
        assert(bold.len() >= 1);
        assert(bold[0] == line_cell(a, b, ix, iy));
        lemma_reverse_cons(line_cell(a, b, ix2, iy2), bold);
        assert(bnew.reverse() == bold.reverse().push(line_cell(a, b, ix2, iy2)));
        assert(bnew.reverse().drop_last() =~= bold.reverse());
        assert(line_from(a, b, ix, iy) == seq![line_cell(a, b, ix, iy)] + line_from(
            a,
            b,
            ix2,
            iy2,
        ));
        assert(bold.reverse().len() == bold.len());
        assert(bold.reverse().last() == bold[0]);
        assert(bold.reverse() =~= bold.reverse().drop_last().push(line_cell(a, b, ix, iy)));
        assert(bold.reverse().drop_last() + (seq![line_cell(a, b, ix, iy)] + line_from(
            a,
            b,
            ix2,
            iy2,
        )) =~= (bold.reverse().drop_last().push(line_cell(a, b, ix, iy))) + line_from(
            a,
            b,
            ix2,
            iy2,
        ));
        assert(line_seq(a, b) == bnew.reverse().drop_last() + line_from(a, b, ix2, iy2));
        lemma_line_sym_walk(a, b, ix2, iy2);
    }
}

/// The supercover line is symmetric: walked from `b`, it visits exactly the
/// same cells in the opposite order.
pub proof fn lemma_line_symmetric(a: MapPosition, b: MapPosition)
    ensures
        line_seq(b, a) == line_seq(a, b).reverse(),
        line_seq(b, a).len() == line_seq(a, b).len(),
{
    let nx = line_nx(a, b);
    let ny = line_ny(a, b);
    lemma_line_terminal(b, a);
    assert(line_nx(b, a) == nx && line_ny(b, a) == ny);
    assert(line_from(b, a, nx, ny) == seq![a]);
    assert(seq![a].reverse() =~= seq![a]);
    assert(seq![a].reverse().drop_last() =~= Seq::<MapPosition>::empty());
    assert(line_cell(a, b, 0, 0) == a) by {
        let sx = line_sign_x(a, b);
        let sy = line_sign_y(a, b);
        assert(sx * 0 == 0 && sy * 0 == 0) by (nonlinear_arith);
    }
    assert(line_err(a, b, 0, 0) == 0) by {
        assert(0 * line_ny(a, b) == 0 && 0 * line_nx(a, b) == 0) by (nonlinear_arith);
    }
    assert(Seq::<MapPosition>::empty() + line_from(a, b, 0, 0) =~= line_from(a, b, 0, 0));
    lemma_line_sym_walk(a, b, 0, 0);
    lemma_reverse_involution(line_seq(a, b));
    assert(line_seq(b, a) == line_seq(a, b).reverse());
}

impl MapPosition {
    pub fn new(x: u32, y: u32) -> (r: MapPosition)
        ensures
            r == (MapPosition { x, y }),
    {
        MapPosition { x, y }
    }

    /// Both coordinates under the stepper's arithmetic bound.
    pub open spec fn bounded(self) -> bool {
        self.x < COORD_LIMIT && self.y < COORD_LIMIT
    }

    /// Manhattan distance to `other`.
    pub fn distance_to(&self, other: &MapPosition) -> (r: u32)
        requires
            manhattan(*self, *other) <= u32::MAX,
        ensures
            r == manhattan(*self, *other),
    {
        let x_offset = if self.x < other.x {
            other.x - self.x
        } else {
            self.x - other.x
        };
        let y_offset = if self.y < other.y {
            other.y - self.y
        } else {
            self.y - other.y
        };
        x_offset + y_offset
    }

    /// Whether the position lies inside a `map_width` by `map_height` map.
    pub fn is_in_map_bounds(&self, map_width: u32, map_height: u32) -> (r: bool)
        ensures
            r == (self.x < map_width && self.y < map_height),
    {
        self.x < map_width && self.y < map_height
    }

    /// The axis-aligned direction toward `target`: straight only, no
    /// diagonal, `None` when the positions coincide or lie askew.
    pub fn direction_to(&self, target: &MapPosition) -> (r: Option<MapPositionDirection>)
        ensures
            r == spec_direction(*self, *target),
    {
        if self.x == target.x && self.y < target.y {
            Some(MapPositionDirection::SudWest)
        } else if self.x == target.x && self.y > target.y {
            Some(MapPositionDirection::NordEst)
        } else if self.x < target.x && self.y == target.y {
            Some(MapPositionDirection::SudEst)
        } else if self.x > target.x && self.y == target.y {
            Some(MapPositionDirection::NordWest)
        } else {
            None
        }
    }

    /// The cell one step along `dir`, or `None` at the numeric edge.
    pub fn step_toward(&self, dir: MapPositionDirection) -> (r: Option<MapPosition>)
        ensures
            r == spec_step_toward(*self, dir),
    {
        match dir {
            MapPositionDirection::NordWest => if self.x > 0 {
                Some(MapPosition { x: self.x - 1, y: self.y })
            } else {
                None
            },
            MapPositionDirection::NordEst => if self.y > 0 {
                Some(MapPosition { x: self.x, y: self.y - 1 })
            } else {
                None
            },
            MapPositionDirection::SudWest => if self.y < u32::MAX {
                Some(MapPosition { x: self.x, y: self.y + 1 })
            } else {
                None
            },
            MapPositionDirection::SudEst => if self.x < u32::MAX {
                Some(MapPosition { x: self.x + 1, y: self.y })
            } else {
                None
            },
        }
    }

    /// A straight path of `distance` cells toward `direction`, unchecked for
    /// obstacles: the caller must stop early upon meeting one.
    pub fn unchecked_path_torward(
        &self,
        direction: MapPositionDirection,
        distance: u32,
    ) -> (r: Vec<MapPosition>)
        ensures
            r@ == spec_straight_path(*self, direction, distance),
    {
        let mut path: Vec<MapPosition> = Vec::new();
        let mut cur: MapPosition = *self;
        let mut remaining: u32 = distance;
        loop
            invariant
                path@ + spec_straight_path(cur, direction, remaining) == spec_straight_path(
                    *self,
                    direction,
                    distance,
                ),
            decreases remaining,
        {
            if remaining == 0 {
                proof {
                    assert(spec_straight_path(cur, direction, remaining) == Seq::<
                        MapPosition,
                    >::empty());
                    assert(path@ + Seq::<MapPosition>::empty() == path@);
                }
                return path;
            }
            match cur.step_toward(direction) {
                None => {
                    proof {
                        assert(spec_straight_path(cur, direction, remaining) == Seq::<
                            MapPosition,
                        >::empty());
                        assert(path@ + Seq::<MapPosition>::empty() == path@);
                    }
                    return path;
                },
                Some(next) => {
                    proof {
                        assert(spec_straight_path(cur, direction, remaining) == seq![next]
                            + spec_straight_path(next, direction, (remaining - 1) as u32));
                        assert(path@ + (seq![next] + spec_straight_path(
                            next,
                            direction,
                            (remaining - 1) as u32,
                        )) == (path@ + seq![next]) + spec_straight_path(
                            next,
                            direction,
                            (remaining - 1) as u32,
                        ));
                        assert(path@ + seq![next] == path@.push(next));
                    }
                    path.push(next);
                    cur = next;
                    remaining = remaining - 1;
                },
            }
        }
    }

    /// The supercover line from `self` to `other`, both endpoints included:
    /// an integer stepper that accumulates x- and y-steps and, at each step,
    /// compares `(1 + 2*ix)*ny` against `(1 + 2*iy)*nx` to decide whether to
    /// advance in x, in y, or in both on a tie. Every cell the geometric
    /// segment visually crosses is included.
    pub fn line_to(&self, other: &MapPosition) -> (r: Vec<MapPosition>)
        requires
            self.bounded(),
            other.bounded(),
        ensures
            r@ == line_seq(*self, *other),
    {
        let a = *self;
        let b = *other;
        let ghost ga = a;
        let ghost gb = b;
        let nx: u32 = if b.x >= a.x {
            b.x - a.x
        } else {
            a.x - b.x
        };
        let ny: u32 = if b.y >= a.y {
            b.y - a.y
        } else {
            a.y - b.y
        };
        let mut path: Vec<MapPosition> = Vec::new();
        path.push(a);
        let mut ix: u32 = 0;
        let mut iy: u32 = 0;
        let mut x: u32 = a.x;
        let mut y: u32 = a.y;
        loop
            invariant
                ga == a,
                gb == b,
                a == *self,
                b == *other,
                a.bounded(),
                b.bounded(),
                nx == line_nx(ga, gb),
                ny == line_ny(ga, gb),
                nx <= 0xffffu32,
                ny <= 0xffffu32,
                ix <= nx,
                iy <= ny,
                (MapPosition { x, y }) == line_cell(ga, gb, ix as int, iy as int),
                path@.len() >= 1,
                path@.last() == line_cell(ga, gb, ix as int, iy as int),
                path@.drop_last() + line_from(ga, gb, ix as int, iy as int) == line_seq(ga, gb),
            decreases (nx - ix) + (ny - iy),
        {
            proof {
                assert((1 + 2 * (ix as int)) * (ny as int) <= 0x20000 * 0x10000)
                    by (nonlinear_arith)
                    requires
                        ix < 0x10000,
                        ny < 0x10000,
                ;
                assert((1 + 2 * (ix as int)) * (ny as int) >= 0) by (nonlinear_arith)
                    requires
                        ix >= 0,
                        ny >= 0,
                ;
                assert((1 + 2 * (iy as int)) * (nx as int) <= 0x20000 * 0x10000)
                    by (nonlinear_arith)
                    requires
                        iy < 0x10000,
                        nx < 0x10000,
                ;
                assert((1 + 2 * (iy as int)) * (nx as int) >= 0) by (nonlinear_arith)
                    requires
                        iy >= 0,
                        nx >= 0,
                ;
            }
            let d: i64 = (1 + 2 * (ix as i64)) * (ny as i64) - (1 + 2 * (iy as i64)) * (nx
                as i64);
            proof {
                assert(d == line_decision(ga, gb, ix as int, iy as int));
            }
            let step_x = d <= 0 && ix < nx;
            let step_y = d >= 0 && iy < ny;
            if !step_x && !step_y {
                proof {
                    assert(line_from(ga, gb, ix as int, iy as int) == seq![
                        line_cell(ga, gb, ix as int, iy as int),
                    ]);
                    assert(path@ =~= path@.drop_last().push(path@.last()));
                    assert(path@.drop_last().push(path@.last()) =~= path@.drop_last() + seq![
                        line_cell(ga, gb, ix as int, iy as int),
                    ]);
                }
                return path;
            }
            let ghost old_ix = ix as int;
            let ghost old_iy = iy as int;
            let ghost old_path = path@;
            proof {
                let sx = line_sign_x(ga, gb);
                let sy = line_sign_y(ga, gb);
                assert(sx * old_ix == if sx == 1 {
                    old_ix
                } else {
                    -old_ix
                }) by (nonlinear_arith)
                    requires
                        sx == 1 || sx == -1,
                ;
                assert(sy * old_iy == if sy == 1 {
                    old_iy
                } else {
                    -old_iy
                }) by (nonlinear_arith)
                    requires
                        sy == 1 || sy == -1,
                ;
                if gb.x >= ga.x {
                    assert(x == a.x + old_ix);
                } else {
                    assert(x == a.x - old_ix);
                }
                if gb.y >= ga.y {
                    assert(y == a.y + old_iy);
                } else {
                    assert(y == a.y - old_iy);
                }
            }
            if step_x {
                if b.x >= a.x {
                    x = x + 1;
                } else {
                    x = x - 1;
                }
                ix = ix + 1;
            }
            if step_y {
                if b.y >= a.y {
                    y = y + 1;
                } else {
                    y = y - 1;
                }
                iy = iy + 1;
            }
            path.push(MapPosition { x, y });
            proof {
                let sx = line_sign_x(ga, gb);
                let sy = line_sign_y(ga, gb);
                assert(sx * (ix as int) == if sx == 1 {
                    ix as int
                } else {
                    -(ix as int)
                }) by (nonlinear_arith)
                    requires
                        sx == 1 || sx == -1,
                ;
                assert(sy * (iy as int) == if sy == 1 {
                    iy as int
                } else {
                    -(iy as int)
                }) by (nonlinear_arith)
                    requires
                        sy == 1 || sy == -1,
                ;
                assert(MapPosition { x, y } == line_cell(ga, gb, ix as int, iy as int));
                assert(line_from(ga, gb, old_ix, old_iy) == seq![
                    line_cell(ga, gb, old_ix, old_iy),
                ] + line_from(ga, gb, ix as int, iy as int));
                assert(path@ == old_path.push(MapPosition { x, y }));
                assert(path@.drop_last() =~= old_path);
                assert(old_path =~= old_path.drop_last().push(old_path.last()));
                assert(old_path.drop_last() + (seq![line_cell(ga, gb, old_ix, old_iy)]
                    + line_from(ga, gb, ix as int, iy as int)) =~= (old_path.drop_last() + seq![
                    line_cell(ga, gb, old_ix, old_iy),
                ]) + line_from(ga, gb, ix as int, iy as int));
                assert(old_path.drop_last() + seq![line_cell(ga, gb, old_ix, old_iy)]
                    =~= old_path.drop_last().push(old_path.last()));
            }
        }
    }

    /// All in-bounds cells whose Manhattan distance from `self` lies in
    /// `[min_distance, max_distance]`, enumerated row by row: in ascending
    /// rows, and within a row in ascending columns.
    pub fn get_surrounding_positions(
        &self,
        min_distance: u32,
        max_distance: u32,
        map_width: u32,
        map_height: u32,
    ) -> (r: Vec<MapPosition>)
        requires
            map_width <= COORD_LIMIT,
            map_height <= COORD_LIMIT,
            self.bounded(),
        ensures
            forall|p: MapPosition|
                r@.contains(p) <==> (p.x < map_width && p.y < map_height && min_distance
                    <= manhattan(*self, p) <= max_distance),
            forall|i: int, j: int|
                0 <= i < j < r@.len() ==> (r@[i].y < r@[j].y || (r@[i].y == r@[j].y && r@[i].x
                    < r@[j].x)),
            forall|i: int, j: int| 0 <= i < j < r@.len() ==> r@[i] != r@[j],
    {
        let mut positions: Vec<MapPosition> = Vec::new();
        let mut y: u32 = 0;
        while y < map_height
            invariant
                y <= map_height,
                map_width <= COORD_LIMIT,
                map_height <= COORD_LIMIT,
                self.bounded(),
                forall|p: MapPosition|
                    positions@.contains(p) <==> (p.x < map_width && p.y < y && min_distance
                        <= manhattan(*self, p) <= max_distance),
                forall|i: int, j: int|
                    0 <= i < j < positions@.len() ==> (positions@[i].y < positions@[j].y || (
                    positions@[i].y == positions@[j].y && positions@[i].x < positions@[j].x)),
                forall|i: int, j: int|
                    0 <= i < j < positions@.len() ==> positions@[i] != positions@[j],
                forall|i: int| 0 <= i < positions@.len() ==> positions@[i].y < y,
            decreases map_height - y,
        {
            let mut x: u32 = 0;
            while x < map_width
                invariant
                    x <= map_width,
                    y < map_height,
                    map_width <= COORD_LIMIT,
                    map_height <= COORD_LIMIT,
                    self.bounded(),
                    forall|p: MapPosition|
                        positions@.contains(p) <==> ((p.x < map_width && p.y < y && min_distance
                            <= manhattan(*self, p) <= max_distance) || (p.y == y && p.x < x
                            && min_distance <= manhattan(*self, p) <= max_distance)),
                    forall|i: int, j: int|
                        0 <= i < j < positions@.len() ==> (positions@[i].y < positions@[j].y || (
                        positions@[i].y == positions@[j].y && positions@[i].x < positions@[j].x)),
                    forall|i: int, j: int|
                        0 <= i < j < positions@.len() ==> positions@[i] != positions@[j],
                    forall|i: int|
                        0 <= i < positions@.len() ==> (positions@[i].y < y || (positions@[i].y == y
                            && positions@[i].x < x)),
                decreases map_width - x,
            {
                let p = MapPosition { x, y };
                let d = p.distance_to(self);
                if d >= min_distance && d <= max_distance {
                    let ghost before = positions@;
                    positions.push(p);
                    proof {
                        broadcast use vstd::seq_lib::lemma_seq_contains_after_push;

                        assert(forall|q: MapPosition|
                            positions@.contains(q) <==> (before.contains(q) || q == p));
                    }
                }
                x = x + 1;
            }
            y = y + 1;
        }
        positions
    }
}

} // verus!
