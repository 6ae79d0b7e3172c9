//! Actions: their cost, range shape, area-of-effect shape and ordered
//! effect list, together with the range predicate, the area-of-effect
//! computation and the critical-hit arithmetic.

use vstd::prelude::*;
use crate::map::Tilemap;
use crate::position::{abs_diff, manhattan, MapPosition};

verus! {

/// Manhattan distance computed in a width that cannot overflow.
fn wide_distance(a: &MapPosition, b: &MapPosition) -> (r: u64)
    ensures
        r == manhattan(*a, *b),
{
    let dx: u64 = if a.x < b.x {
        (b.x - a.x) as u64
    } else {
        (a.x - b.x) as u64
    };
    let dy: u64 = if a.y < b.y {
        (b.y - a.y) as u64
    } else {
        (a.y - b.y) as u64
    };
    dx + dy
}

/// An outcome of an action execution. Chances and factors are fixed-point
/// percentages: a `crit_mult` of 150 scales the amount by one and a half,
/// a `crit_chance` of 100 is a guaranteed critical hit, and an `erode` of
/// 10 permanently removes a tenth of the damage from the target's maximum
/// health.
#[derive(Debug, Clone, Copy, PartialEq, Eq, Structural)]
pub enum ActionEffect {
    Nothing,
    Damage { amount: u32, erode: u32, crit_mult: u32, crit_chance: u32 },
    DamageOverTime { amount: u32, erode: u32, duration: u32 },
    Heal { amount: u32 },
    Shield { amount: u32 },
    RemoveActionPoints { amount: u32 },
    StealActionPoints { amount: u32 },
    RemoveMovementPoints { amount: u32 },
    StealMovementPoints { amount: u32 },
    Push { distance: u32 },
    TeleportSelf,
    TeleportSwitch,
}

impl Default for ActionEffect {
    fn default() -> (r: ActionEffect)
        ensures
            r == ActionEffect::Nothing,
    {
        ActionEffect::Nothing
    }
}

/// A damage-over-time record on a combatant: the same shield-then-health
/// sequence as direct damage, applied at each turn start while the duration
/// lasts.
#[derive(Debug, Clone, Copy, PartialEq, Eq, Structural)]
pub struct ActiveEffect {
    pub amount: u32,
    pub erode: u32,
    pub remaining_duration: u32,
}

/// The targetable cells from the acting combatant's position.
#[derive(Debug, Clone, Copy, PartialEq, Eq, Structural)]
pub enum ActionRange {
    /// Any cell within the Manhattan distance bounds.
    Around { min_distance: u32, max_distance: u32, check_los: bool },
    /// Additionally restricted to the actor's row or column.
    Line { min_distance: u32, max_distance: u32, check_los: bool },
    /// Additionally restricted to the actor's diagonals.
    Diagonal { min_distance: u32, max_distance: u32, check_los: bool },
}

impl Default for ActionRange {
    fn default() -> (r: ActionRange)
        ensures
            r == (ActionRange::Around { min_distance: 0, max_distance: 0, check_los: true }),
    {
        ActionRange::Around { min_distance: 0, max_distance: 0, check_los: true }
    }
}

impl ActionRange {
    /// Whether `to` is targetable from `from`: the Manhattan distance lies
    /// within the bounds, and the shape constraint holds — same row or
    /// column for `Line`, equal coordinate offsets for `Diagonal`.
    pub open spec fn spec_can_reach(self, from: MapPosition, to: MapPosition) -> bool {
        let d = manhattan(from, to);
        match self {
            ActionRange::Around { min_distance, max_distance, .. } => min_distance <= d
                <= max_distance,
            ActionRange::Line { min_distance, max_distance, .. } => min_distance <= d
                <= max_distance && (from.x == to.x || from.y == to.y),
            ActionRange::Diagonal { min_distance, max_distance, .. } => min_distance <= d
                <= max_distance && abs_diff(to.x as int, from.x as int) == abs_diff(
                to.y as int,
                from.y as int,
            ),
        }
    }

    /// Whether this range demands an unobstructed line of sight.
    pub open spec fn spec_check_los(self) -> bool {
        match self {
            ActionRange::Around { check_los, .. } => check_los,
            ActionRange::Line { check_los, .. } => check_los,
            ActionRange::Diagonal { check_los, .. } => check_los,
        }
    }

    pub fn can_reach(&self, from: &MapPosition, to: &MapPosition) -> (r: bool)
        ensures
            r == self.spec_can_reach(*from, *to),
    {
        let dx: u64 = if from.x < to.x {
            (to.x - from.x) as u64
        } else {
            (from.x - to.x) as u64
        };
        let dy: u64 = if from.y < to.y {
            (to.y - from.y) as u64
        } else {
            (from.y - to.y) as u64
        };
        let d: u64 = dx + dy;
        match *self {
            ActionRange::Around { min_distance, max_distance, .. } => (min_distance as u64) <= d
                && d <= (max_distance as u64),
            ActionRange::Line { min_distance, max_distance, .. } => (min_distance as u64) <= d && d
                <= (max_distance as u64) && (from.x == to.x || from.y == to.y),
            ActionRange::Diagonal { min_distance, max_distance, .. } => (min_distance as u64) <= d
                && d <= (max_distance as u64) && dx == dy,
        }
    }

    pub fn check_los(&self) -> (r: bool)
        ensures
            r == self.spec_check_los(),
    {
        match *self {
            ActionRange::Around { check_los, .. } => check_los,
            ActionRange::Line { check_los, .. } => check_los,
            ActionRange::Diagonal { check_los, .. } => check_los,
        }
    }
}

/// The area of effect: the zone, anchored at the target cell, where the
/// action's effects are applied.
#[derive(Debug, Clone, Copy, PartialEq, Eq, Structural)]
pub enum ActionAoe {
    /// The target cell alone.
    Cell,
    /// Every cell within the Manhattan distance bounds of the target.
    Zone { min_distance: u32, max_distance: u32 },
    /// As `Zone`, restricted to the target's row and column.
    Cross { min_distance: u32, max_distance: u32 },
}

impl Default for ActionAoe {
    fn default() -> (r: ActionAoe)
        ensures
            r == ActionAoe::Cell,
    {
        ActionAoe::Cell
    }
}

impl ActionAoe {
    /// Whether the cell `p` is affected when the action lands on `target`:
    /// inside the shape, and never an obstacle cell.
    pub open spec fn covers(self, map: Tilemap, target: MapPosition, p: MapPosition) -> bool {
        !map.obstacle_at(p) && match self {
            ActionAoe::Cell => p == target,
            ActionAoe::Zone { min_distance, max_distance } => min_distance <= manhattan(target, p)
                <= max_distance,
            ActionAoe::Cross { min_distance, max_distance } => min_distance <= manhattan(target, p)
                <= max_distance && (p.x == target.x || p.y == target.y),
        }
    }

    pub fn covers_position(&self, map: &Tilemap, target: &MapPosition, p: &MapPosition) -> (r:
        bool)
        requires
            map.wf(),
        ensures
            r == self.covers(*map, *target, *p),
    {
        if map.is_obstacle(p) {
            return false;
        }
        match *self {
            ActionAoe::Cell => p.x == target.x && p.y == target.y,
            ActionAoe::Zone { min_distance, max_distance } => {
                let d = wide_distance(target, p);
                (min_distance as u64) <= d && d <= (max_distance as u64)
            },
            ActionAoe::Cross { min_distance, max_distance } => {
                let d = wide_distance(target, p);
                (min_distance as u64) <= d && d <= (max_distance as u64) && (p.x == target.x || p.y
                    == target.y)
            },
        }
    }

    /// The affected cells of the map when the action lands on `target`, in
    /// row order: the in-bounds, non-obstacle cells the shape covers.
    pub fn compute_hit_positions(&self, target: &MapPosition, map: &Tilemap) -> (r: Vec<
        MapPosition,
    >)
        requires
            map.wf(),
        ensures
            forall|p: MapPosition| r@.contains(p) <==> self.covers(*map, *target, p),
            forall|i: int, j: int| 0 <= i < j < r@.len() ==> r@[i] != r@[j],
    {
        let all = map.all_positions();
        let mut result: Vec<MapPosition> = Vec::new();
        let mut k: usize = 0;
        while k < all.len()
            invariant
                map.wf(),
                k <= all@.len(),
                result@ == self.covered_filter(*map, *target, all@.take(k as int)),
            decreases all@.len() - k,
        {
            let p = all[k];
            if self.covers_position(map, target, &p) {
                result.push(p);
            }
            proof {
                assert(all@.take(k + 1).drop_last() =~= all@.take(k as int));
                assert(all@.take(k + 1).last() == all@[k as int]);
                assert(all@.take(k + 1).len() == k + 1);
            }
            k = k + 1;
        }
        proof {
            assert(all@.take(all@.len() as int) =~= all@);
            self.lemma_covered_filter(*map, *target, all@);
            assert forall|p: MapPosition| #![all_triggers]
                result@.contains(p) <==> self.covers(*map, *target, p) by {
                if self.covers(*map, *target, p) {
                    assert(map.in_bounds(p));
                    assert(all@.contains(p));
                }
            }
        }
        result
    }

    /// The cells of `s` that the shape covers, in order.
    pub open spec fn covered_filter(
        self,
        map: Tilemap,
        target: MapPosition,
        s: Seq<MapPosition>,
    ) -> Seq<MapPosition>
        decreases s.len(),
    {
        if s.len() == 0 {
            Seq::empty()
        } else {
            let rest = self.covered_filter(map, target, s.drop_last());
            if self.covers(map, target, s.last()) {
                rest.push(s.last())
            } else {
                rest
            }
        }
    }

    /// What `covered_filter` holds: exactly the covered cells of `s`, each
    /// once if `s` has no duplicates.
    proof fn lemma_covered_filter(self, map: Tilemap, target: MapPosition, s: Seq<MapPosition>)
        ensures
            forall|p: MapPosition|
                self.covered_filter(map, target, s).contains(p) <==> (s.contains(p) && self.covers(
                    map,
                    target,
                    p,
                )),
            forall|i: int|
                0 <= i < self.covered_filter(map, target, s).len() ==> s.contains(
                    (#[trigger] self.covered_filter(map, target, s)[i]),
                ),
            (forall|i: int, j: int| 0 <= i < j < s.len() ==> s[i] != s[j]) ==> (forall|
                i: int,
                j: int,
            |
                0 <= i < j < self.covered_filter(map, target, s).len() ==> self.covered_filter(
                    map,
                    target,
                    s,
                )[i] != self.covered_filter(map, target, s)[j]),
        decreases s.len(),
    {
        broadcast use vstd::seq_lib::lemma_seq_contains_after_push;

        if s.len() == 0 {
        } else {
            let rest = self.covered_filter(map, target, s.drop_last());
            self.lemma_covered_filter(map, target, s.drop_last());
            assert forall|p: MapPosition|
                s.contains(p) <==> (s.drop_last().contains(p) || p == s.last()) by {
                if s.contains(p) {
                    let j = choose|j: int| 0 <= j < s.len() && s[j] == p;
                    if j < s.len() - 1 {
                        assert(s.drop_last()[j] == p);
                    }
                }
                if s.drop_last().contains(p) {
                    let j = choose|j: int| 0 <= j < s.len() - 1 && s.drop_last()[j] == p;
                    assert(s[j] == p);
                }
                if p == s.last() {
                    assert(s[s.len() - 1] == p);
                }
            }
            if forall|i: int, j: int| 0 <= i < j < s.len() ==> s[i] != s[j] {
                assert(forall|i: int, j: int|
                    0 <= i < j < s.drop_last().len() ==> s.drop_last()[i] != s.drop_last()[j]);
                if self.covers(map, target, s.last()) {
                    assert(!s.drop_last().contains(s.last())) by {
                        if s.drop_last().contains(s.last()) {
                            let j = choose|j: int|
                                0 <= j < s.len() - 1 && s.drop_last()[j] == s.last();
                            assert(s[j] == s[s.len() - 1]);
                        }
                    }
                    assert(!rest.contains(s.last()));
                    assert(forall|i: int|
                        0 <= i < rest.len() ==> (#[trigger] self.covered_filter(map, target, s)[i])
                            == rest[i]);
                }
            }
        }
    }
}

/// A combatant's action: its display keys, its cost in action points, its
/// area of effect, its range, and its ordered list of effects.
#[derive(Debug, Clone)]
pub struct Action {
    pub name: String,
    pub icon_key: String,
    pub animation_key: String,
    pub cost: u32,
    pub aoe: ActionAoe,
    pub range: ActionRange,
    pub effects: Vec<ActionEffect>,
}

/// `round(amount * percent / 100)`, saturating at the integer ceiling: the
/// critically scaled damage amount.
pub open spec fn crit_scaled(amount: u32, crit_mult: u32) -> u32 {
    let v = (amount * crit_mult + 50) / 100;
    if v > u32::MAX {
        u32::MAX as u32
    } else {
        v as u32
    }
}

/// The damage actually dealt by a `Damage` effect under a given percent
/// roll: the critically scaled amount when the roll falls under the critical
/// chance, the plain amount otherwise.
pub open spec fn spec_effective_amount(
    amount: u32,
    crit_mult: u32,
    crit_chance: u32,
    roll: u32,
) -> u32 {
    if roll < crit_chance {
        crit_scaled(amount, crit_mult)
    } else {
        amount
    }
}

/// The executable critical-hit arithmetic.
pub fn effective_amount(amount: u32, crit_mult: u32, crit_chance: u32, roll: u32) -> (r: u32)
    ensures
        r == spec_effective_amount(amount, crit_mult, crit_chance, roll),
{
    if roll < crit_chance {
        proof {
            assert((amount as int) * (crit_mult as int) <= 0xffff_ffff * 0xffff_ffff)
                by (nonlinear_arith)
                requires
                    amount <= 0xffff_ffffu32,
                    crit_mult <= 0xffff_ffffu32,
            ;
            assert((amount as int) * (crit_mult as int) >= 0) by (nonlinear_arith)
                requires
                    amount >= 0,
                    crit_mult >= 0,
            ;
        }
        let v: u64 = ((amount as u64) * (crit_mult as u64) + 50) / 100;
        if v > (u32::MAX as u64) {
            u32::MAX
        } else {
            v as u32
        }
    } else {
        amount
    }
}

/// With a full critical chance every `Damage` effect is a guaranteed
/// critical hit: whatever the roll of the generator, the effective amount is
/// the critically scaled one.
pub proof fn lemma_crit_guaranteed(amount: u32, crit_mult: u32, roll: u32)
    requires
        roll < 100,
    ensures
        spec_effective_amount(amount, crit_mult, 100, roll) == crit_scaled(amount, crit_mult),
{
}

} // verus!
