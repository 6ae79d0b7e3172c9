//! The battle aggregate: the arena of combatants, the map and the turn
//! order, with action execution — validation, cost, area of effect, effect
//! application, and the death sweep — plus movement and the turn-boundary
//! bookkeeping.

use vstd::prelude::*;
use crate::action::{
    spec_effective_amount, effective_amount, Action, ActionAoe, ActionEffect,
    ActiveEffect,
};
use crate::attribute::Attribute;
use crate::map::Tilemap;
use crate::position::{spec_direction, spec_step_toward, MapPosition, MapPositionDirection};
use crate::turn::{rebias_index, CombatantId, Turn};

verus! {

/// Why an action was refused; a failed action leaves all state unchanged.
#[derive(Debug, Clone, Copy, PartialEq, Eq, Structural)]
pub enum ActionError {
    /// The action costs more action points than the actor can spend.
    InsufficientActionPoints,
    /// The target cell fails the action's range predicate.
    OutOfRange,
    /// The range demands line of sight and an obstacle blocks it.
    Blocked,
}

/// One combatant's state, stored in the battle's arena and addressed by its
/// stable index.
#[derive(Debug)]
pub struct Warrior {
    pub name: String,
    pub position: MapPosition,
    pub health: Attribute,
    pub shield: Attribute,
    pub action_points: Attribute,
    pub movement_points: Attribute,
    pub actions: Vec<Action>,
    pub active_effects: Vec<ActiveEffect>,
    pub alive: bool,
}

/// The combat-relevant state of a combatant, as the contracts speak of it.
pub ghost struct WarriorView {
    pub position: MapPosition,
    pub health: Attribute,
    pub shield: Attribute,
    pub action_points: Attribute,
    pub movement_points: Attribute,
    pub active_effects: Seq<ActiveEffect>,
    pub alive: bool,
}

impl View for Warrior {
    type V = WarriorView;

    open spec fn view(&self) -> WarriorView {
        WarriorView {
            position: self.position,
            health: self.health,
            shield: self.shield,
            action_points: self.action_points,
            movement_points: self.movement_points,
            active_effects: self.active_effects@,
            alive: self.alive,
        }
    }
}

/// The views of a whole arena.
pub open spec fn views(s: Seq<Warrior>) -> Seq<WarriorView> {
    s.map_values(|w: Warrior| w@)
}

impl WarriorView {
    /// All four attributes within their bounds.
    pub open spec fn wf(self) -> bool {
        self.health.wf() && self.shield.wf() && self.action_points.wf()
            && self.movement_points.wf() && self.position.bounded()
    }
}

/// A combatant after taking `amount` damage with erosion factor `erode`:
/// the shield absorbs first, the remainder hits health, and the same
/// remainder erodes the maximum health.
pub open spec fn spec_damaged(w: WarriorView, amount: u32, erode: u32) -> WarriorView {
    let rem = w.shield.drop_remainder(amount);
    WarriorView {
        shield: w.shield.dropped(amount),
        health: w.health.dropped(rem).eroded(rem, erode),
        ..w
    }
}

/// The battle aggregate: the single mutation entry point of the combat
/// core. The hosting application owns one and threads it through calls.
pub struct Battle {
    pub map: Tilemap,
    pub combatants: Vec<Warrior>,
    pub turn: Turn,
}

impl Battle {
    /// Well-formedness: map and turn order sound, every combatant's
    /// attributes within bounds and its position within the coordinate
    /// space.
    pub open spec fn wf(self) -> bool {
        &&& self.map.wf()
        &&& self.turn.wf()
        &&& forall|i: int| 0 <= i < self.combatants@.len() ==> (#[trigger] self.combatants@[i])@.wf()
        &&& forall|j: int|
            0 <= j < self.turn.order@.len() ==> (#[trigger] self.turn.order@[j]).0
                < self.combatants@.len()
    }

    /// Restore the action and movement points of `id`, as happens when its
    /// turn ends.
    pub fn on_turn_ended(&mut self, id: CombatantId)
        requires
            old(self).wf(),
            id.0 < old(self).combatants@.len(),
        ensures
            final(self).wf(),
            final(self).map == old(self).map,
            final(self).turn == old(self).turn,
            final(self).combatants@.len() == old(self).combatants@.len(),
            forall|i: int|
                0 <= i < old(self).combatants@.len() && i != id.0 ==> final(self).combatants@[i]
                    == old(self).combatants@[i],
            final(self).combatants@[id.0 as int]@ == (WarriorView {
                action_points: old(self).combatants@[id.0 as int]@.action_points.risen(
                    old(self).combatants@[id.0 as int]@.action_points.max,
                ),
                movement_points: old(self).combatants@[id.0 as int]@.movement_points.risen(
                    old(self).combatants@[id.0 as int]@.movement_points.max,
                ),
                ..old(self).combatants@[id.0 as int]@
            }),
    {
        let i = id.0;
        self.combatants[i].action_points.rise_max();
        self.combatants[i].movement_points.rise_max();
    }
}

/// Where a push along `dir` ends: the walk stops early at the first
/// obstacle cell (or at the edge of the coordinate space) and reports how
/// many cells were actually walked.
pub open spec fn spec_push_walk(
    map: Tilemap,
    from: MapPosition,
    dir: MapPositionDirection,
    distance: u32,
) -> (MapPosition, u32)
    decreases distance,
{
    if distance == 0 {
        (from, 0u32)
    } else {
        match spec_step_toward(from, dir) {
            None => (from, 0u32),
            Some(next) => if map.obstacle_at(next) {
                (from, 0u32)
            } else {
                let r = spec_push_walk(map, next, dir, (distance - 1) as u32);
                (r.0, (r.1 + 1) as u32)
            },
        }
    }
}

/// The collision damage of a push stopped short: twenty per step that
/// stayed unwalked beyond the blocked one, saturating. The step into the
/// obstacle itself is the collision, not an unwalked step.
pub open spec fn spec_collision_damage(distance: u32, walked: u32) -> u32 {
    if walked >= distance {
        0u32
    } else {
        let c = 20 * (distance - walked - 1);
        if c > u32::MAX {
            u32::MAX as u32
        } else {
            c as u32
        }
    }
}

/// A push never strands a combatant outside the coordinate space: it only
/// ever moves onto in-bounds, non-obstacle cells.
proof fn lemma_push_walk_bounded(
    map: Tilemap,
    from: MapPosition,
    dir: MapPositionDirection,
    distance: u32,
)
    requires
        map.wf(),
        from.bounded(),
    ensures
        spec_push_walk(map, from, dir, distance).0.bounded(),
    decreases distance,
{
    if distance > 0 {
        match spec_step_toward(from, dir) {
            None => {},
            Some(next) => {
                if !map.obstacle_at(next) {
                    assert(next.bounded());
                    lemma_push_walk_bounded(map, next, dir, (distance - 1) as u32);
                }
            },
        }
    }
}

/// The walked cells never exceed the asked distance.
proof fn lemma_push_walk_bound(
    map: Tilemap,
    from: MapPosition,
    dir: MapPositionDirection,
    distance: u32,
)
    ensures
        spec_push_walk(map, from, dir, distance).1 <= distance,
    decreases distance,
{
    if distance > 0 {
        match spec_step_toward(from, dir) {
            None => {},
            Some(next) => {
                if !map.obstacle_at(next) {
                    lemma_push_walk_bound(map, next, dir, (distance - 1) as u32);
                }
            },
        }
    }
}

/// Walk a push: stop before the first obstacle, never moving past it.
fn push_walk(map: &Tilemap, from: MapPosition, dir: MapPositionDirection, distance: u32) -> (r: (
    MapPosition,
    u32,
))
    requires
        map.wf(),
    ensures
        r == spec_push_walk(*map, from, dir, distance),
{
    let mut cur = from;
    let mut remaining = distance;
    let mut walked: u32 = 0;
    loop
        invariant
            map.wf(),
            walked + remaining == distance,
            spec_push_walk(*map, from, dir, distance).0 == spec_push_walk(
                *map,
                cur,
                dir,
                remaining,
            ).0,
            spec_push_walk(*map, from, dir, distance).1 == walked + spec_push_walk(
                *map,
                cur,
                dir,
                remaining,
            ).1,
        decreases remaining,
    {
        proof {
            lemma_push_walk_bound(*map, cur, dir, remaining);
        }
        if remaining == 0 {
            return (cur, walked);
        }
        match cur.step_toward(dir) {
            None => {
                return (cur, walked);
            },
            Some(next) => {
                if map.is_obstacle(&next) {
                    return (cur, walked);
                }
                proof {
                    lemma_push_walk_bound(*map, next, dir, (remaining - 1) as u32);
                }
                cur = next;
                remaining = remaining - 1;
                walked = walked + 1;
            },
        }
    }
}

/// Whether some walkable path of cost at most `budget` joins `a` and `b`.
pub open spec fn spec_reachable_within(
    map: Tilemap,
    a: MapPosition,
    b: MapPosition,
    budget: int,
) -> bool {
    exists|p: Seq<MapPosition>| map.is_walkable_path(p, a, b) && p.len() - 1 <= budget
}

impl Battle {
    /// Move a combatant to `destination` along a minimal-cost walkable
    /// path, spending one movement point per cell, exactly when such a path
    /// exists and its cost fits the combatant's movement points; otherwise
    /// nothing changes. Returns the path walked and its cost.
    pub fn move_combatant(&mut self, id: CombatantId, destination: &MapPosition) -> (r: Option<
        (Vec<MapPosition>, u32),
    >)
        requires
            old(self).wf(),
            id.0 < old(self).combatants@.len(),
        ensures
            final(self).wf(),
            final(self).map == old(self).map,
            final(self).turn == old(self).turn,
            final(self).combatants@.len() == old(self).combatants@.len(),
            forall|i: int|
                0 <= i < old(self).combatants@.len() && i != id.0 ==> final(self).combatants@[i]
                    == old(self).combatants@[i],
            ({
                let w = old(self).combatants@[id.0 as int]@;
                let budget = w.movement_points.value - w.movement_points.min;
                match r {
                    Some(path_cost) => {
                        &&& old(self).map.is_walkable_path(path_cost.0@, w.position, *destination)
                        &&& path_cost.1 == path_cost.0@.len() - 1
                        &&& forall|q: Seq<MapPosition>|
                            old(self).map.is_walkable_path(q, w.position, *destination)
                                ==> q.len() >= path_cost.0@.len()
                        &&& path_cost.1 <= budget
                        &&& final(self).combatants@[id.0 as int]@ == (WarriorView {
                            position: *destination,
                            movement_points: w.movement_points.dropped(path_cost.1),
                            ..w
                        })
                    },
                    None => {
                        &&& *final(self) == *old(self)
                        &&& !spec_reachable_within(
                            old(self).map,
                            w.position,
                            *destination,
                            budget,
                        )
                    },
                }
            }),
    {
        let i = id.0;
        let start = self.combatants[i].position;
        let found = self.map.pathfinding(&start, destination);
        match found {
            None => {
                proof {
                    assert forall|p: Seq<MapPosition>|
                        !(self.map.is_walkable_path(p, start, *destination) && p.len() - 1 <= (
                        self.combatants@[i as int]@.movement_points.value
                            - self.combatants@[i as int]@.movement_points.min)) by {}
                }
                None
            },
            Some((path, cost)) => {
                if self.combatants[i].movement_points.can_drop(cost) {
                    self.combatants[i].movement_points.drop(cost);
                    let dest = *destination;
                    self.combatants[i].position = dest;
                    proof {
                        assert(path@.last() == *destination);
                    }
                    Some((path, cost))
                } else {
                    proof {
                        let w = old(self).combatants@[i as int]@;
                        let budget = w.movement_points.value - w.movement_points.min;
                        assert forall|p: Seq<MapPosition>|
                            !(self.map.is_walkable_path(p, start, *destination) && p.len() - 1
                                <= budget) by {
                            if self.map.is_walkable_path(p, start, *destination) {
                                assert(p.len() >= path@.len());
                            }
                        }
                    }
                    None
                }
            },
        }
    }
}

/// The erosion factor, in percent, of the collision damage a push deals.
pub const PUSH_COLLISION_EROSION: u32 = 10;

/// Whether the combatant at `i` of the targeting base is hit: alive and
/// standing on a cell the area of effect covers.
pub open spec fn spec_is_target(
    map: Tilemap,
    base: Seq<WarriorView>,
    aoe: ActionAoe,
    cell: MapPosition,
    i: int,
) -> bool {
    0 <= i < base.len() && base[i].alive && aoe.covers(map, cell, base[i].position)
}

/// The smallest index of a living combatant standing on `cell`, or minus
/// one when the cell is free.
pub open spec fn spec_occupant_index(s: Seq<WarriorView>, cell: MapPosition) -> int
    decreases s.len(),
{
    if s.len() == 0 {
        -1
    } else if s[0].alive && s[0].position == cell {
        0
    } else {
        let r = spec_occupant_index(s.drop_first(), cell);
        if r < 0 {
            -1
        } else {
            r + 1
        }
    }
}

/// What the occupant index means.
proof fn lemma_occupant_index(s: Seq<WarriorView>, cell: MapPosition)
    ensures
        ({
            let r = spec_occupant_index(s, cell);
            &&& (r < 0 ==> forall|j: int|
                0 <= j < s.len() ==> !((#[trigger] s[j]).alive && s[j].position == cell))
            &&& (r >= 0 ==> r < s.len() && s[r].alive && s[r].position == cell && forall|j: int|
                0 <= j < r ==> !((#[trigger] s[j]).alive && s[j].position == cell))
        }),
    decreases s.len(),
{
    if s.len() > 0 {
        lemma_occupant_index(s.drop_first(), cell);
        if !(s[0].alive && s[0].position == cell) {
            assert(forall|j: int| 1 <= j < s.len() ==> s[j] == s.drop_first()[j - 1]);
        }
    }
}

/// One per-target effect applied to the combatant at `t`; `actor` is the
/// acting combatant's index and `roll` the percent roll deciding a
/// critical hit. Actor-relative effects leave the arena as it is here:
/// they are handled once per effect, not once per target.
pub open spec fn spec_apply_to_target(
    map: Tilemap,
    s: Seq<WarriorView>,
    actor: int,
    t: int,
    effect: ActionEffect,
    roll: u32,
) -> Seq<WarriorView> {
    match effect {
        ActionEffect::Damage { amount, erode, crit_mult, crit_chance } => s.update(
            t,
            spec_damaged(s[t], spec_effective_amount(amount, crit_mult, crit_chance, roll), erode),
        ),
        ActionEffect::DamageOverTime { amount, erode, duration } => s.update(
            t,
            WarriorView {
                active_effects: s[t].active_effects.push(
                    ActiveEffect { amount, erode, remaining_duration: duration },
                ),
                ..s[t]
            },
        ),
        ActionEffect::Heal { amount } => s.update(
            t,
            WarriorView { health: s[t].health.risen(amount), ..s[t] },
        ),
        ActionEffect::Shield { amount } => s.update(
            t,
            WarriorView { shield: s[t].shield.risen(amount), ..s[t] },
        ),
        ActionEffect::RemoveActionPoints { amount } => s.update(
            t,
            WarriorView { action_points: s[t].action_points.dropped(amount), ..s[t] },
        ),
        ActionEffect::StealActionPoints { amount } => {
            let gained = (amount - s[t].action_points.drop_remainder(amount)) as u32;
            let s1 = s.update(
                t,
                WarriorView { action_points: s[t].action_points.dropped(amount), ..s[t] },
            );
            s1.update(
                actor,
                WarriorView { action_points: s1[actor].action_points.risen(gained), ..s1[actor] },
            )
        },
        ActionEffect::RemoveMovementPoints { amount } => s.update(
            t,
            WarriorView { movement_points: s[t].movement_points.dropped(amount), ..s[t] },
        ),
        ActionEffect::StealMovementPoints { amount } => {
            let gained = (amount - s[t].movement_points.drop_remainder(amount)) as u32;
            let s1 = s.update(
                t,
                WarriorView { movement_points: s[t].movement_points.dropped(amount), ..s[t] },
            );
            s1.update(
                actor,
                WarriorView {
                    movement_points: s1[actor].movement_points.risen(gained),
                    ..s1[actor]
                },
            )
        },
        ActionEffect::Push { distance } => {
            match spec_direction(s[actor].position, s[t].position) {
                None => s,
                Some(dir) => {
                    let walk = spec_push_walk(map, s[t].position, dir, distance);
                    let dmg = spec_collision_damage(distance, walk.1);
                    s.update(
                        t,
                        spec_damaged(
                            WarriorView { position: walk.0, ..s[t] },
                            dmg,
                            PUSH_COLLISION_EROSION,
                        ),
                    )
                },
            }
        },
        _ => s,
    }
}

/// One effect applied to the first `t` combatants of the arena, hitting
/// exactly those the targeting base marks as affected.
pub open spec fn spec_apply_effect_prefix(
    map: Tilemap,
    base: Seq<WarriorView>,
    s: Seq<WarriorView>,
    actor: int,
    effect: ActionEffect,
    aoe: ActionAoe,
    cell: MapPosition,
    rolls: Seq<u32>,
    e: int,
    t: int,
) -> Seq<WarriorView>
    decreases t,
{
    if t <= 0 {
        s
    } else {
        let prev = spec_apply_effect_prefix(map, base, s, actor, effect, aoe, cell, rolls, e, t - 1);
        if spec_is_target(map, base, aoe, cell, t - 1) {
            spec_apply_to_target(map, prev, actor, t - 1, effect, rolls[e * base.len() + (t - 1)])
        } else {
            prev
        }
    }
}

/// One effect of the action applied in full: actor-relative effects act
/// once, on the actor; every other effect acts once per affected target, in
/// arena order.
pub open spec fn spec_apply_effect(
    map: Tilemap,
    base: Seq<WarriorView>,
    s: Seq<WarriorView>,
    actor: int,
    effect: ActionEffect,
    aoe: ActionAoe,
    cell: MapPosition,
    rolls: Seq<u32>,
    e: int,
) -> Seq<WarriorView> {
    match effect {
        ActionEffect::Nothing => s,
        ActionEffect::TeleportSelf => {
            if spec_occupant_index(s, cell) >= 0 {
                s
            } else {
                s.update(actor, WarriorView { position: cell, ..s[actor] })
            }
        },
        ActionEffect::TeleportSwitch => {
            let j = spec_occupant_index(s, cell);
            if j >= 0 {
                let apos = s[actor].position;
                let s1 = s.update(actor, WarriorView { position: s[j].position, ..s[actor] });
                s1.update(j, WarriorView { position: apos, ..s1[j] })
            } else {
                s
            }
        },
        _ => spec_apply_effect_prefix(
            map,
            base,
            s,
            actor,
            effect,
            aoe,
            cell,
            rolls,
            e,
            base.len() as int,
        ),
    }
}

/// The arena after the first `k` effects of the action.
pub open spec fn spec_after_effects(
    map: Tilemap,
    base: Seq<WarriorView>,
    s: Seq<WarriorView>,
    actor: int,
    effects: Seq<ActionEffect>,
    aoe: ActionAoe,
    cell: MapPosition,
    rolls: Seq<u32>,
    k: int,
) -> Seq<WarriorView>
    decreases k,
{
    if k <= 0 {
        s
    } else {
        spec_apply_effect(
            map,
            base,
            spec_after_effects(map, base, s, actor, effects, aoe, cell, rolls, k - 1),
            actor,
            effects[k - 1],
            aoe,
            cell,
            rolls,
            k - 1,
        )
    }
}

/// The ids marked true among the first `k`, in ascending order.
pub open spec fn spec_marked_ids(marks: Seq<bool>, k: int) -> Seq<CombatantId>
    decreases k,
{
    if k <= 0 {
        Seq::empty()
    } else {
        let prev = spec_marked_ids(marks, k - 1);
        if marks[k - 1] {
            prev.push(CombatantId((k - 1) as usize))
        } else {
            prev
        }
    }
}

impl Battle {
    /// The smallest index of a living combatant on `cell`, if any.
    fn find_occupant(&self, cell: &MapPosition) -> (r: Option<usize>)
        ensures
            match r {
                Some(j) => j == spec_occupant_index(views(self.combatants@), *cell),
                None => spec_occupant_index(views(self.combatants@), *cell) < 0,
            },
    {
        proof {
            lemma_occupant_index(views(self.combatants@), *cell);
        }
        let mut j: usize = 0;
        while j < self.combatants.len()
            invariant
                j <= self.combatants@.len(),
                forall|i: int|
                    0 <= i < j ==> !((#[trigger] views(self.combatants@)[i]).alive && views(
                        self.combatants@,
                    )[i].position == *cell),
                ({
                    let r = spec_occupant_index(views(self.combatants@), *cell);
                    &&& (r < 0 ==> forall|i: int|
                        0 <= i < views(self.combatants@).len() ==> !((#[trigger] views(
                            self.combatants@,
                        )[i]).alive && views(self.combatants@)[i].position == *cell))
                    &&& (r >= 0 ==> r < views(self.combatants@).len() && views(self.combatants@)[r].alive
                        && views(self.combatants@)[r].position == *cell && forall|i: int|
                        0 <= i < r ==> !((#[trigger] views(self.combatants@)[i]).alive && views(
                            self.combatants@,
                        )[i].position == *cell))
                }),
            decreases self.combatants@.len() - j,
        {
            if self.combatants[j].alive && self.combatants[j].position.x == cell.x
                && self.combatants[j].position.y == cell.y {
                proof {
                    assert(views(self.combatants@)[j as int].alive);
                    assert(views(self.combatants@)[j as int].position == *cell);
                }
                return Some(j);
            }
            j = j + 1;
        }
        None
    }

    /// Apply one per-target effect to the combatant at `t`.
    fn apply_effect_to_target(&mut self, actor: usize, t: usize, effect: &ActionEffect, roll: u32)
        requires
            old(self).wf(),
            actor < old(self).combatants@.len(),
            t < old(self).combatants@.len(),
        ensures
            final(self).wf(),
            final(self).map == old(self).map,
            final(self).turn == old(self).turn,
            final(self).combatants@.len() == old(self).combatants@.len(),
            views(final(self).combatants@) == spec_apply_to_target(
                old(self).map,
                views(old(self).combatants@),
                actor as int,
                t as int,
                *effect,
                roll,
            ),
            forall|i: int|
                0 <= i < old(self).combatants@.len() ==> (#[trigger] final(self).combatants@[i]).name
                    == old(self).combatants@[i].name && final(self).combatants@[i].actions
                    == old(self).combatants@[i].actions,
    {
        let ghost s0 = views(old(self).combatants@);
        match *effect {
            ActionEffect::Damage { amount, erode, crit_mult, crit_chance } => {
                let eff = effective_amount(amount, crit_mult, crit_chance, roll);
                let rem = self.combatants[t].shield.drop(eff);
                self.combatants[t].health.drop(rem);
                self.combatants[t].health.erode(rem, erode);
                proof {
                    assert(self.combatants@[t as int]@ == spec_damaged(
                        s0[t as int],
                        spec_effective_amount(amount, crit_mult, crit_chance, roll),
                        erode,
                    ));
                    assert(views(self.combatants@) =~= spec_apply_to_target(
                        old(self).map,
                        s0,
                        actor as int,
                        t as int,
                        *effect,
                        roll,
                    ));
                }
            },
            ActionEffect::DamageOverTime { amount, erode, duration } => {
                self.combatants[t].active_effects.push(
                    ActiveEffect { amount, erode, remaining_duration: duration },
                );
                proof {
                    assert(views(self.combatants@) =~= spec_apply_to_target(
                        old(self).map,
                        s0,
                        actor as int,
                        t as int,
                        *effect,
                        roll,
                    ));
                }
            },
            ActionEffect::Heal { amount } => {
                self.combatants[t].health.rise(amount);
                proof {
                    assert(views(self.combatants@) =~= spec_apply_to_target(
                        old(self).map,
                        s0,
                        actor as int,
                        t as int,
                        *effect,
                        roll,
                    ));
                }
            },
            ActionEffect::Shield { amount } => {
                self.combatants[t].shield.rise(amount);
                proof {
                    assert(views(self.combatants@) =~= spec_apply_to_target(
                        old(self).map,
                        s0,
                        actor as int,
                        t as int,
                        *effect,
                        roll,
                    ));
                }
            },
            ActionEffect::RemoveActionPoints { amount } => {
                self.combatants[t].action_points.drop(amount);
                proof {
                    assert(views(self.combatants@) =~= spec_apply_to_target(
                        old(self).map,
                        s0,
                        actor as int,
                        t as int,
                        *effect,
                        roll,
                    ));
                }
            },
            ActionEffect::StealActionPoints { amount } => {
                let rem = self.combatants[t].action_points.drop(amount);
                let gained = amount - rem;
                self.combatants[actor].action_points.rise(gained);
                proof {
                    assert(views(self.combatants@) =~= spec_apply_to_target(
                        old(self).map,
                        s0,
                        actor as int,
                        t as int,
                        *effect,
                        roll,
                    ));
                }
            },
            ActionEffect::RemoveMovementPoints { amount } => {
                self.combatants[t].movement_points.drop(amount);
                proof {
                    assert(views(self.combatants@) =~= spec_apply_to_target(
                        old(self).map,
                        s0,
                        actor as int,
                        t as int,
                        *effect,
                        roll,
                    ));
                }
            },
            ActionEffect::StealMovementPoints { amount } => {
                let rem = self.combatants[t].movement_points.drop(amount);
                let gained = amount - rem;
                self.combatants[actor].movement_points.rise(gained);
                proof {
                    assert(views(self.combatants@) =~= spec_apply_to_target(
                        old(self).map,
                        s0,
                        actor as int,
                        t as int,
                        *effect,
                        roll,
                    ));
                }
            },
            ActionEffect::Push { distance } => {
                let apos = self.combatants[actor].position;
                let tpos = self.combatants[t].position;
                match apos.direction_to(&tpos) {
                    None => {
                        proof {
                            assert(views(self.combatants@) =~= spec_apply_to_target(
                                old(self).map,
                                s0,
                                actor as int,
                                t as int,
                                *effect,
                                roll,
                            ));
                        }
                    },
                    Some(dir) => {
                        proof {
                            lemma_push_walk_bounded(self.map, tpos, dir, distance);
                        }
                        let walk = push_walk(&self.map, tpos, dir, distance);
                        let dmg = collision_damage(distance, walk.1);
                        self.combatants[t].position = walk.0;
                        let rem = self.combatants[t].shield.drop(dmg);
                        self.combatants[t].health.drop(rem);
                        self.combatants[t].health.erode(rem, PUSH_COLLISION_EROSION);
                        proof {
                            assert(self.combatants@[t as int]@ == spec_damaged(
                                WarriorView {
                                    position: spec_push_walk(
                                        old(self).map,
                                        s0[t as int].position,
                                        dir,
                                        distance,
                                    ).0,
                                    ..s0[t as int]
                                },
                                spec_collision_damage(
                                    distance,
                                    spec_push_walk(
                                        old(self).map,
                                        s0[t as int].position,
                                        dir,
                                        distance,
                                    ).1,
                                ),
                                PUSH_COLLISION_EROSION,
                            ));
                            assert(views(self.combatants@) =~= spec_apply_to_target(
                                old(self).map,
                                s0,
                                actor as int,
                                t as int,
                                *effect,
                                roll,
                            ));
                        }
                    },
                }
            },
            _ => {
                proof {
                    assert(views(self.combatants@) =~= spec_apply_to_target(
                        old(self).map,
                        s0,
                        actor as int,
                        t as int,
                        *effect,
                        roll,
                    ));
                }
            },
        }
    }
}

impl Battle {
    /// Validate and execute `action` by the combatant at `actor` against
    /// `target`, with the critical-hit rolls supplied by the caller: one
    /// percent roll per effect and combatant, indexed effect-major. The
    /// three validation checks run before any mutation and a failure leaves
    /// all state unchanged; once they pass, the cost is paid, the affected
    /// targets are resolved once, every effect is applied in declared
    /// order, and the dead are swept from the turn order.
    pub fn execute_with_rolls(
        &mut self,
        actor: CombatantId,
        action: &Action,
        target: MapPosition,
        rolls: &Vec<u32>,
    ) -> (r: Result<AppliedEffectsSummary, ActionError>)
        requires
            old(self).wf(),
            actor.0 < old(self).combatants@.len(),
            target.bounded(),
            rolls@.len() == action.effects@.len() * old(self).combatants@.len(),
        ensures
            final(self).wf(),
            final(self).map == old(self).map,
            final(self).combatants@.len() == old(self).combatants@.len(),
            forall|i: int|
                0 <= i < old(self).combatants@.len()
                    ==> (#[trigger] final(self).combatants@[i]).name
                    == old(self).combatants@[i].name && final(self).combatants@[i].actions == old(
                    self,
                ).combatants@[i].actions,
            match r {
                Err(err) => Some(err) == spec_validate(*old(self), actor.0 as int, *action, target)
                    && *final(self) == *old(self),
                Ok(summary) => spec_validate(*old(self), actor.0 as int, *action, target) is None
                    && spec_executed_with(
                    *old(self),
                    *final(self),
                    summary,
                    actor.0 as int,
                    *action,
                    target,
                    rolls@,
                ),
            },
    {
        let i = actor.0;
        let n = self.combatants.len();
        if !self.combatants[i].action_points.can_drop(action.cost) {
            return Err(ActionError::InsufficientActionPoints);
        }
        let apos = self.combatants[i].position;
        if !action.range.can_reach(&apos, &target) {
            return Err(ActionError::OutOfRange);
        }
        if action.range.check_los() {
            if !self.map.line_of_sight_check(&apos, &target) {
                return Err(ActionError::Blocked);
            }
        }
        self.combatants[i].action_points.drop(action.cost);
        let ghost base = spec_cost_paid(*old(self), i as int, action.cost);
        proof {
            assert(views(self.combatants@) =~= base);
        }
        let mut hit: Vec<bool> = Vec::new();
        let mut targets: Vec<CombatantId> = Vec::new();
        let mut t0: usize = 0;
        while t0 < n
            invariant
                old(self).wf(),
                i < n,
                n == self.combatants@.len(),
                n == old(self).combatants@.len(),
                t0 <= n,
                self.map == old(self).map,
                self.turn == old(self).turn,
                views(self.combatants@) == base,
                base == spec_cost_paid(*old(self), i as int, action.cost),
                base.len() == n,
                forall|j: int| 0 <= j < n ==> (#[trigger] base[j]).wf(),
                hit@.len() == t0,
                forall|j: int|
                    0 <= j < t0 ==> hit@[j] == spec_is_target(
                        old(self).map,
                        base,
                        action.aoe,
                        target,
                        j,
                    ),
                targets@ == spec_marked_ids(
                    spec_target_marks(*old(self), i as int, *action, target),
                    t0 as int,
                ),
            decreases n - t0,
        {
            let is_hit = self.combatants[t0].alive && action.aoe.covers_position(
                &self.map,
                &target,
                &self.combatants[t0].position,
            );
            proof {
                assert(views(self.combatants@)[t0 as int] == self.combatants@[t0 as int]@);
                assert(is_hit == spec_is_target(
                    old(self).map,
                    base,
                    action.aoe,
                    target,
                    t0 as int,
                ));
            }
            hit.push(is_hit);
            if is_hit {
                targets.push(CombatantId(t0));
            }
            proof {
                let marks = spec_target_marks(*old(self), i as int, *action, target);
                assert(marks[t0 as int] == is_hit);
                assert(spec_marked_ids(marks, t0 + 1) == if marks[t0 as int] {
                    spec_marked_ids(marks, t0 as int).push(CombatantId(t0))
                } else {
                    spec_marked_ids(marks, t0 as int)
                });
            }
            t0 = t0 + 1;
        }
        let mut e: usize = 0;
        while e < action.effects.len()
            invariant
                old(self).wf(),
                i < n,
                n == self.combatants@.len(),
                n == old(self).combatants@.len(),
                e <= action.effects@.len(),
                target.bounded(),
                self.map == old(self).map,
                self.turn == old(self).turn,
                rolls@.len() == action.effects@.len() * n,
                base == spec_cost_paid(*old(self), i as int, action.cost),
                base.len() == n,
                hit@.len() == n,
                forall|j: int|
                    0 <= j < n ==> hit@[j] == spec_is_target(
                        old(self).map,
                        base,
                        action.aoe,
                        target,
                        j,
                    ),
                views(self.combatants@) == spec_after_effects(
                    old(self).map,
                    base,
                    base,
                    i as int,
                    action.effects@,
                    action.aoe,
                    target,
                    rolls@,
                    e as int,
                ),
                forall|j: int| 0 <= j < n ==> (#[trigger] views(self.combatants@)[j]).wf(),
                forall|j: int|
                    0 <= j < n ==> (#[trigger] self.combatants@[j]).name
                        == old(self).combatants@[j].name && self.combatants@[j].actions == old(
                        self,
                    ).combatants@[j].actions,
            decreases action.effects@.len() - e,
        {
            let ghost before_effect = views(self.combatants@);
            let effect = action.effects[e];
            match effect {
                ActionEffect::Nothing => {},
                ActionEffect::TeleportSelf => {
                    let occ = self.find_occupant(&target);
                    match occ {
                        Some(_) => {},
                        None => {
                            self.combatants[i].position = target;
                            proof {
                                assert(views(self.combatants@) =~= before_effect.update(
                                    i as int,
                                    WarriorView { position: target, ..before_effect[i as int] },
                                ));
                            }
                        },
                    }
                },
                ActionEffect::TeleportSwitch => {
                    let occ = self.find_occupant(&target);
                    match occ {
                        Some(j) => {
                            proof {
                                lemma_occupant_index(before_effect, target);
                            }
                            let my_pos = self.combatants[i].position;
                            let their_pos = self.combatants[j].position;
                            self.combatants[i].position = their_pos;
                            self.combatants[j].position = my_pos;
                            proof {
                                let s1 = before_effect.update(
                                    i as int,
                                    WarriorView {
                                        position: before_effect[j as int].position,
                                        ..before_effect[i as int]
                                    },
                                );
                                assert(views(self.combatants@) =~= s1.update(
                                    j as int,
                                    WarriorView { position: my_pos, ..s1[j as int] },
                                ));
                            }
                        },
                        None => {},
                    }
                },
                _ => {
                    let mut t: usize = 0;
                    while t < n
                        invariant
                            old(self).wf(),
                            i < n,
                            t <= n,
                            n == self.combatants@.len(),
                            n == old(self).combatants@.len(),
                            e < action.effects@.len(),
                            target.bounded(),
                            self.map == old(self).map,
                            self.turn == old(self).turn,
                            rolls@.len() == action.effects@.len() * n,
                            base == spec_cost_paid(*old(self), i as int, action.cost),
                            base.len() == n,
                            hit@.len() == n,
                            effect == action.effects@[e as int],
                            !(effect is Nothing) && !(effect is TeleportSelf) && !(effect
                                is TeleportSwitch),
                            before_effect == spec_after_effects(
                                old(self).map,
                                base,
                                base,
                                i as int,
                                action.effects@,
                                action.aoe,
                                target,
                                rolls@,
                                e as int,
                            ),
                            forall|j: int|
                                0 <= j < n ==> hit@[j] == spec_is_target(
                                    old(self).map,
                                    base,
                                    action.aoe,
                                    target,
                                    j,
                                ),
                            views(self.combatants@) == spec_apply_effect_prefix(
                                old(self).map,
                                base,
                                before_effect,
                                i as int,
                                effect,
                                action.aoe,
                                target,
                                rolls@,
                                e as int,
                                t as int,
                            ),
                            forall|j: int|
                                0 <= j < n ==> (#[trigger] views(self.combatants@)[j]).wf(),
                            forall|j: int|
                                0 <= j < n ==> (#[trigger] self.combatants@[j]).name == old(
                                    self,
                                ).combatants@[j].name && self.combatants@[j].actions == old(
                                    self,
                                ).combatants@[j].actions,
                        decreases n - t,
                    {
                        if hit[t] {
                            proof {
                                assert forall|j: int|
                                    0 <= j < self.combatants@.len() implies (#[trigger] self.combatants@[j])@.wf() by {
                                    assert(views(self.combatants@)[j] == self.combatants@[j]@);
                                }
                                assert(self.wf());
                                vstd::std_specs::vec::axiom_spec_len(rolls);
                                assert((e as int) * (n as int) + (t as int) < (action.effects@.len()
                                    as int) * (n as int)) by (nonlinear_arith)
                                    requires
                                        0 <= (e as int) < action.effects@.len(),
                                        0 <= (t as int) < (n as int),
                                ;
                                assert((e as int) * (n as int) >= 0) by (nonlinear_arith)
                                    requires
                                        (e as int) >= 0,
                                        (n as int) >= 0,
                                ;
                            }
                            let idx: usize = e * n + t;
                            let roll = rolls[idx];
                            self.apply_effect_to_target(i, t, &effect, roll);
                        }
                        proof {
                            assert(spec_apply_effect_prefix(
                                old(self).map,
                                base,
                                before_effect,
                                i as int,
                                effect,
                                action.aoe,
                                target,
                                rolls@,
                                e as int,
                                t + 1,
                            ) == if spec_is_target(old(self).map, base, action.aoe, target, t as int) {
                                spec_apply_to_target(
                                    old(self).map,
                                    spec_apply_effect_prefix(
                                        old(self).map,
                                        base,
                                        before_effect,
                                        i as int,
                                        effect,
                                        action.aoe,
                                        target,
                                        rolls@,
                                        e as int,
                                        t as int,
                                    ),
                                    i as int,
                                    t as int,
                                    effect,
                                    rolls@[(e as int) * (n as int) + (t as int)],
                                )
                            } else {
                                spec_apply_effect_prefix(
                                    old(self).map,
                                    base,
                                    before_effect,
                                    i as int,
                                    effect,
                                    action.aoe,
                                    target,
                                    rolls@,
                                    e as int,
                                    t as int,
                                )
                            });
                        }
                        t = t + 1;
                    }
                },
            }
            proof {
                assert(views(self.combatants@) == spec_apply_effect(
                    old(self).map,
                    base,
                    before_effect,
                    i as int,
                    action.effects@[e as int],
                    action.aoe,
                    target,
                    rolls@,
                    e as int,
                ));
                assert(spec_after_effects(
                    old(self).map,
                    base,
                    base,
                    i as int,
                    action.effects@,
                    action.aoe,
                    target,
                    rolls@,
                    e + 1,
                ) == spec_apply_effect(
                    old(self).map,
                    base,
                    before_effect,
                    i as int,
                    action.effects@[e as int],
                    action.aoe,
                    target,
                    rolls@,
                    e as int,
                ));
            }
            e = e + 1;
        }
        let ghost s2v = views(self.combatants@);
        let ghost t2v = self.turn@;
        let ghost kill_marks = Seq::new(
            s2v.len(),
            |j: int| s2v[j].alive && s2v[j].health.value == 0,
        );
        let mut killed: Vec<CombatantId> = Vec::new();
        let mut k: usize = 0;
        while k < n
            invariant
                old(self).wf(),
                k <= n,
                n == self.combatants@.len(),
                n == old(self).combatants@.len(),
                self.map == old(self).map,
                self.turn.wf(),
                s2v.len() == n,
                kill_marks == Seq::new(
                    s2v.len(),
                    |j: int| s2v[j].alive && s2v[j].health.value == 0,
                ),
                views(self.combatants@) == spec_sweep(s2v, t2v, k as int).0,
                self.turn@ == spec_sweep(s2v, t2v, k as int).1,
                killed@ == spec_marked_ids(kill_marks, k as int),
                forall|j: int| 0 <= j < n ==> (#[trigger] views(self.combatants@)[j]).wf(),
                forall|j: int|
                    0 <= j < n ==> (#[trigger] self.combatants@[j]).name
                        == old(self).combatants@[j].name && self.combatants@[j].actions == old(
                        self,
                    ).combatants@[j].actions,
                forall|j: int|
                    0 <= j < self.turn.order@.len() ==> (#[trigger] self.turn.order@[j]).0 < n,
            decreases n - k,
        {
            proof {
                lemma_sweep_prefix(s2v, t2v, k as int);
                assert(views(self.combatants@)[k as int] == self.combatants@[k as int]@);
            }
            let is_dead = self.combatants[k].alive && self.combatants[k].health.value() == 0;
            proof {
                assert(is_dead == kill_marks[k as int]);
            }
            if is_dead {
                let ghost turn_before = self.turn@;
                self.combatants[k].alive = false;
                self.turn.remove_combatant(CombatantId(k));
                killed.push(CombatantId(k));
                proof {
                    assert(views(self.combatants@) =~= spec_sweep(s2v, t2v, k as int).0.update(
                        k as int,
                        WarriorView { alive: false, ..spec_sweep(s2v, t2v, k as int).0[k as int] },
                    ));
                    let id = CombatantId(k);
                    if turn_before.order.contains(id) {
                        let i1 = choose|w: int|
                            0 <= w < turn_before.order.len() && turn_before.order[w] == id;
                        let i2 = choose|w: int|
                            0 <= w < turn_before.order.len() && turn_before.order[w] == id;
                        assert(i1 == i2);
                        assert(self.turn@ == spec_turn_removed(turn_before, id));
                    } else {
                        assert(self.turn@ == spec_turn_removed(turn_before, id));
                    }
                }
            }
            proof {
                assert(killed@ == spec_marked_ids(kill_marks, k + 1));
            }
            k = k + 1;
        }
        proof {
            assert(s2v == spec_effects_done(*old(self), i as int, *action, target, rolls@));
            assert(t2v == old(self).turn@);
            assert forall|j: int|
                0 <= j < self.combatants@.len() implies (#[trigger] self.combatants@[j])@.wf() by {
                assert(views(self.combatants@)[j] == self.combatants@[j]@);
            }
            assert(self.wf());
        }
        Ok(AppliedEffectsSummary { targets, killed })
    }
}

/// A combatant with the first `k` of its damage-over-time records ticked:
/// each record still running deals its damage through the usual
/// shield-then-health-then-erode sequence and loses one turn of duration.
pub open spec fn spec_tick_step(w: WarriorView, k: int) -> WarriorView
    decreases k,
{
    if k <= 0 {
        w
    } else {
        let prev = spec_tick_step(w, k - 1);
        let r = prev.active_effects[k - 1];
        if r.remaining_duration > 0 {
            let d = spec_damaged(prev, r.amount, r.erode);
            WarriorView {
                active_effects: d.active_effects.update(
                    k - 1,
                    ActiveEffect { remaining_duration: (r.remaining_duration - 1) as u32, ..r },
                ),
                ..d
            }
        } else {
            prev
        }
    }
}

/// The records still running after a tick; the exhausted ones are removed.
pub open spec fn spec_purge_records(s: Seq<ActiveEffect>) -> Seq<ActiveEffect>
    decreases s.len(),
{
    if s.len() == 0 {
        Seq::empty()
    } else {
        let rest = spec_purge_records(s.drop_last());
        if s.last().remaining_duration > 0 {
            rest.push(s.last())
        } else {
            rest
        }
    }
}

/// A combatant at the start of its turn: every running damage-over-time
/// record applied and decremented, the exhausted records removed.
pub open spec fn spec_turn_started(w: WarriorView) -> WarriorView {
    let t = spec_tick_step(w, w.active_effects.len() as int);
    WarriorView { active_effects: spec_purge_records(t.active_effects), ..t }
}

/// A combatant with its action and movement points fully restored.
pub open spec fn spec_points_restored(w: WarriorView) -> WarriorView {
    WarriorView {
        action_points: w.action_points.risen(w.action_points.max),
        movement_points: w.movement_points.risen(w.movement_points.max),
        ..w
    }
}

/// Ticking touches only the records before `k`; their count never changes.
proof fn lemma_tick_records(w: WarriorView, k: int)
    requires
        k <= w.active_effects.len(),
    ensures
        spec_tick_step(w, k).active_effects.len() == w.active_effects.len(),
        forall|j: int|
            k <= j < w.active_effects.len() ==> spec_tick_step(w, k).active_effects[j]
                == w.active_effects[j],
        spec_tick_step(w, k).alive == w.alive,
        spec_tick_step(w, k).position == w.position,
        spec_tick_step(w, k).action_points == w.action_points,
        spec_tick_step(w, k).movement_points == w.movement_points,
    decreases k,
{
    if k > 0 {
        lemma_tick_records(w, k - 1);
    }
}

impl Battle {
    /// Start the turn of `id`: tick its damage-over-time records — each
    /// running record deals its damage and loses one turn — drop the
    /// exhausted records, and, should the combatant die of it, mark it
    /// destroyed and remove it from the turn order.
    pub fn on_turn_started(&mut self, id: CombatantId)
        requires
            old(self).wf(),
            id.0 < old(self).combatants@.len(),
        ensures
            final(self).wf(),
            final(self).map == old(self).map,
            final(self).combatants@.len() == old(self).combatants@.len(),
            forall|i: int|
                0 <= i < old(self).combatants@.len() && i != id.0 ==> final(self).combatants@[i]
                    == old(self).combatants@[i],
            final(self).combatants@[id.0 as int].name == old(self).combatants@[id.0 as int].name,
            final(self).combatants@[id.0 as int].actions == old(self).combatants@[id.0
                as int].actions,
            ({
                let w2 = spec_turn_started(old(self).combatants@[id.0 as int]@);
                if w2.alive && w2.health.value == 0 {
                    final(self).combatants@[id.0 as int]@ == (WarriorView {
                        alive: false,
                        ..w2
                    }) && final(self).turn@ == spec_turn_removed(old(self).turn@, id)
                } else {
                    final(self).combatants@[id.0 as int]@ == w2 && final(self).turn == old(
                        self,
                    ).turn
                }
            }),
    {
        let i = id.0;
        let ghost w0 = old(self).combatants@[i as int]@;
        let total = self.combatants[i].active_effects.len();
        let mut k: usize = 0;
        while k < total
            invariant
                old(self).wf(),
                i < old(self).combatants@.len(),
                k <= total,
                self.map == old(self).map,
                self.turn == old(self).turn,
                self.combatants@.len() == old(self).combatants@.len(),
                w0 == old(self).combatants@[i as int]@,
                total == w0.active_effects.len(),
                forall|j: int|
                    0 <= j < old(self).combatants@.len() && j != i ==> self.combatants@[j] == old(
                        self,
                    ).combatants@[j],
                self.combatants@[i as int].name == old(self).combatants@[i as int].name,
                self.combatants@[i as int].actions == old(self).combatants@[i as int].actions,
                self.combatants@[i as int]@ == spec_tick_step(w0, k as int),
                self.combatants@[i as int]@.wf(),
            decreases total - k,
        {
            proof {
                lemma_tick_records(w0, k as int);
            }
            let rec = self.combatants[i].active_effects[k];
            if rec.remaining_duration > 0 {
                let rem = self.combatants[i].shield.drop(rec.amount);
                self.combatants[i].health.drop(rem);
                self.combatants[i].health.erode(rem, rec.erode);
                self.combatants[i].active_effects.set(
                    k,
                    ActiveEffect { remaining_duration: rec.remaining_duration - 1, ..rec },
                );
                proof {
                    assert(self.combatants@[i as int]@ == spec_tick_step(w0, k + 1));
                }
            }
            k = k + 1;
        }
        let ghost ticked = self.combatants@[i as int]@;
        let mut kept: Vec<ActiveEffect> = Vec::new();
        let mut k2: usize = 0;
        let total2 = self.combatants[i].active_effects.len();
        while k2 < total2
            invariant
                k2 <= total2,
                total2 == ticked.active_effects.len(),
                ticked == self.combatants@[i as int]@,
                i < self.combatants@.len(),
                kept@ == spec_purge_records(ticked.active_effects.take(k2 as int)),
            decreases total2 - k2,
        {
            let rec = self.combatants[i].active_effects[k2];
            if rec.remaining_duration > 0 {
                kept.push(rec);
            }
            proof {
                assert(ticked.active_effects.take(k2 + 1).drop_last() =~= ticked.active_effects.take(
                    k2 as int,
                ));
                assert(ticked.active_effects.take(k2 + 1).last() == ticked.active_effects[k2
                    as int]);
                assert(ticked.active_effects.take(k2 + 1).len() == k2 + 1);
            }
            k2 = k2 + 1;
        }
        proof {
            assert(ticked.active_effects.take(total2 as int) =~= ticked.active_effects);
        }
        self.combatants[i].active_effects = kept;
        proof {
            assert(self.combatants@[i as int]@ == spec_turn_started(w0));
        }
        if self.combatants[i].alive && self.combatants[i].health.value() == 0 {
            let ghost turn_before = self.turn@;
            self.combatants[i].alive = false;
            self.turn.remove_combatant(id);
            proof {
                if turn_before.order.contains(id) {
                    let i1 = choose|w: int|
                        0 <= w < turn_before.order.len() && turn_before.order[w] == id;
                    let i2 = choose|w: int|
                        0 <= w < turn_before.order.len() && turn_before.order[w] == id;
                    assert(i1 == i2);
                    assert(self.turn@ == spec_turn_removed(turn_before, id));
                } else {
                    assert(self.turn@ == spec_turn_removed(turn_before, id));
                }
            }
        }
    }
}

impl Warrior {
    /// A freshly spawned combatant: alive, at `position`, with no pending
    /// damage-over-time records.
    pub fn new(
        name: String,
        position: MapPosition,
        health: Attribute,
        shield: Attribute,
        action_points: Attribute,
        movement_points: Attribute,
        actions: Vec<Action>,
    ) -> (r: Warrior)
        requires
            health.wf(),
            shield.wf(),
            action_points.wf(),
            movement_points.wf(),
            position.bounded(),
        ensures
            r@ == (WarriorView {
                position,
                health,
                shield,
                action_points,
                movement_points,
                active_effects: Seq::<ActiveEffect>::empty(),
                alive: true,
            }),
            r.name == name,
            r.actions == actions,
            r@.wf(),
    {
        let r = Warrior {
            name,
            position,
            health,
            shield,
            action_points,
            movement_points,
            actions,
            active_effects: Vec::new(),
            alive: true,
        };
        proof {
            assert(r.active_effects@ =~= Seq::<ActiveEffect>::empty());
        }
        r
    }
}

impl Battle {
    /// Set up a battle: the given map and combatants, with the turn order
    /// holding every combatant once, in arena order, and the cursor on the
    /// first.
    pub fn new(map: Tilemap, combatants: Vec<Warrior>) -> (r: Battle)
        requires
            map.wf(),
            forall|i: int| 0 <= i < combatants@.len() ==> (#[trigger] combatants@[i])@.wf(),
        ensures
            r.wf(),
            r.map == map,
            r.combatants == combatants,
            r.turn.order@.len() == combatants@.len(),
            forall|j: int| 0 <= j < combatants@.len() ==> r.turn.order@[j] == CombatantId(j as usize),
            r.turn.order_index == 0,
            r.turn.current == 0,
    {
        let n = combatants.len();
        let mut order: Vec<CombatantId> = Vec::new();
        let mut i: usize = 0;
        while i < n
            invariant
                i <= n,
                order@.len() == i,
                forall|j: int| 0 <= j < i ==> order@[j] == CombatantId(j as usize),
            decreases n - i,
        {
            order.push(CombatantId(i));
            i = i + 1;
        }
        Battle { map, combatants, turn: Turn { current: 0, order, order_index: 0 } }
    }

    /// Validate and execute `action` by `actor` against `target`: the
    /// single mutation entry point. The critical-hit rolls are drawn from
    /// the random number generator; every other consequence is
    /// deterministic, and the contract pins the outcome for every possible
    /// draw.
    pub fn execute(&mut self, actor: CombatantId, action: &Action, target: MapPosition) -> (r:
        Result<AppliedEffectsSummary, ActionError>)
        requires
            old(self).wf(),
            actor.0 < old(self).combatants@.len(),
            target.bounded(),
            action.effects@.len() * old(self).combatants@.len() <= usize::MAX,
        ensures
            final(self).wf(),
            final(self).map == old(self).map,
            final(self).combatants@.len() == old(self).combatants@.len(),
            forall|i: int|
                0 <= i < old(self).combatants@.len()
                    ==> (#[trigger] final(self).combatants@[i]).name
                    == old(self).combatants@[i].name && final(self).combatants@[i].actions == old(
                    self,
                ).combatants@[i].actions,
            match r {
                Err(err) => Some(err) == spec_validate(*old(self), actor.0 as int, *action, target)
                    && *final(self) == *old(self),
                Ok(summary) => spec_validate(*old(self), actor.0 as int, *action, target) is None
                    && exists|rolls: Seq<u32>|
                    #![auto]
                    rolls.len() == action.effects@.len() * old(self).combatants@.len() && (forall|
                        j: int,
                    |
                        0 <= j < rolls.len() ==> rolls[j] < 100) && spec_executed_with(
                        *old(self),
                        *final(self),
                        summary,
                        actor.0 as int,
                        *action,
                        target,
                        rolls,
                    ),
            },
    {
        let n = self.combatants.len();
        let ghost pre = *self;
        proof {
            assert((action.effects@.len() as int) * (n as int) >= 0) by (nonlinear_arith)
                requires
                    action.effects@.len() >= 0,
                    n >= 0,
            ;
        }
        let total: usize = action.effects.len() * n;
        let mut rolls: Vec<u32> = Vec::new();
        let mut k: usize = 0;
        while k < total
            invariant
                k <= total,
                rolls@.len() == k,
                forall|j: int| 0 <= j < k ==> rolls@[j] < 100,
            decreases total - k,
        {
            let roll = roll_percent();
            rolls.push(roll);
            k = k + 1;
        }
        let result = self.execute_with_rolls(actor, action, target, &rolls);
        proof {
            match &result {
                Ok(summary) => {
                    assert(spec_executed_with(
                        pre,
                        *self,
                        *summary,
                        actor.0 as int,
                        *action,
                        target,
                        rolls@,
                    ));
                },
                Err(_) => {},
            }
        }
        result
    }

    /// End the acting combatant's turn and start the next one: advance the
    /// cursor with wraparound, restore the points of the combatant whose
    /// turn ended, and tick the damage-over-time records of the one whose
    /// turn starts. Returns the pair of ids, or `None` on an empty order.
    pub fn next_turn(&mut self) -> (r: Option<(CombatantId, CombatantId)>)
        requires
            old(self).wf(),
            old(self).turn.current < usize::MAX,
        ensures
            final(self).wf(),
            final(self).map == old(self).map,
            final(self).combatants@.len() == old(self).combatants@.len(),
            old(self).turn.order@.len() == 0 ==> r is None && *final(self) == *old(self),
            old(self).turn.order@.len() > 0 ==> ({
                let adv = old(self).turn.spec_advanced();
                let ended = old(self).turn.order@[old(self).turn.order_index as int];
                let started = adv.order@[adv.order_index as int];
                let s0 = views(old(self).combatants@);
                let s1 = s0.update(ended.0 as int, spec_points_restored(s0[ended.0 as int]));
                let w2 = spec_turn_started(s1[started.0 as int]);
                &&& r == Some((ended, started))
                &&& if w2.alive && w2.health.value == 0 {
                    views(final(self).combatants@) == s1.update(
                        started.0 as int,
                        WarriorView { alive: false, ..w2 },
                    ) && final(self).turn@ == spec_turn_removed(adv@, started)
                } else {
                    views(final(self).combatants@) == s1.update(started.0 as int, w2)
                        && final(self).turn == adv
                }
            }),
    {
        if self.combatants.len() == 0 || self.turn.order.len() == 0 {
            return None;
        }
        let ghost pre = *self;
        let (ended, started) = self.turn.set_next();
        proof {
            assert(ended.0 < self.combatants@.len());
            assert(started.0 < self.combatants@.len());
        }
        self.on_turn_ended(ended);
        self.on_turn_started(started);
        proof {
            let s0 = views(pre.combatants@);
            let s1 = s0.update(ended.0 as int, spec_points_restored(s0[ended.0 as int]));
            let w2 = spec_turn_started(s1[started.0 as int]);
            if w2.alive && w2.health.value == 0 {
                assert(views(self.combatants@) =~= s1.update(
                    started.0 as int,
                    WarriorView { alive: false, ..w2 },
                ));
            } else {
                assert(views(self.combatants@) =~= s1.update(started.0 as int, w2));
            }
        }
        Some((ended, started))
    }
}

/// The executable collision-damage arithmetic.
fn collision_damage(distance: u32, walked: u32) -> (r: u32)
    ensures
        r == spec_collision_damage(distance, walked),
{
    if walked >= distance {
        0
    } else {
        let c: u64 = 20 * ((distance - walked - 1) as u64);
        if c > (u32::MAX as u64) {
            u32::MAX
        } else {
            c as u32
        }
    }
}

/// The turn system's state as the contracts speak of it.
pub ghost struct TurnView {
    pub order: Seq<CombatantId>,
    pub order_index: int,
    pub current: int,
}

impl View for Turn {
    type V = TurnView;

    open spec fn view(&self) -> TurnView {
        TurnView {
            order: self.order@,
            order_index: self.order_index as int,
            current: self.current as int,
        }
    }
}

/// The turn state after `id` left the order, the cursor re-biased.
pub open spec fn spec_turn_removed(tv: TurnView, id: CombatantId) -> TurnView {
    if !tv.order.contains(id) {
        tv
    } else {
        let i = choose|i: int| 0 <= i < tv.order.len() && tv.order[i] == id;
        TurnView {
            order: tv.order.remove(i),
            order_index: rebias_index(tv.order_index, i),
            current: tv.current,
        }
    }
}

/// The death sweep over the first `k` combatants: each one alive with zero
/// health is marked destroyed and removed from the turn order.
pub open spec fn spec_sweep(s: Seq<WarriorView>, tv: TurnView, k: int) -> (
    Seq<WarriorView>,
    TurnView,
)
    decreases k,
{
    if k <= 0 {
        (s, tv)
    } else {
        let prev = spec_sweep(s, tv, k - 1);
        let w = prev.0[k - 1];
        if w.alive && w.health.value == 0 {
            (
                prev.0.update(k - 1, WarriorView { alive: false, ..w }),
                spec_turn_removed(prev.1, CombatantId((k - 1) as usize)),
            )
        } else {
            prev
        }
    }
}

/// The sweep leaves combatants at or past `k` untouched and only ever
/// clears the alive flag of the earlier ones.
proof fn lemma_sweep_prefix(s: Seq<WarriorView>, tv: TurnView, k: int)
    requires
        k <= s.len(),
    ensures
        spec_sweep(s, tv, k).0.len() == s.len(),
        forall|j: int| k <= j < s.len() ==> spec_sweep(s, tv, k).0[j] == s[j],
        forall|j: int|
            0 <= j < s.len() ==> (#[trigger] spec_sweep(s, tv, k).0[j] == s[j] || spec_sweep(
                s,
                tv,
                k,
            ).0[j] == WarriorView { alive: false, ..s[j] }),
    decreases k,
{
    if k > 0 {
        lemma_sweep_prefix(s, tv, k - 1);
    }
}

/// Whether and why validation refuses the action, checked in order: cost,
/// then range, then line of sight.
pub open spec fn spec_validate(
    pre: Battle,
    actor: int,
    action: Action,
    cell: MapPosition,
) -> Option<ActionError> {
    let w = views(pre.combatants@)[actor];
    if !(w.action_points.value - w.action_points.min >= action.cost) {
        Some(ActionError::InsufficientActionPoints)
    } else if !action.range.spec_can_reach(w.position, cell) {
        Some(ActionError::OutOfRange)
    } else if action.range.spec_check_los() && !pre.map.spec_line_of_sight(w.position, cell) {
        Some(ActionError::Blocked)
    } else {
        None
    }
}

/// The arena once the actor has paid the action's cost.
pub open spec fn spec_cost_paid(pre: Battle, actor: int, cost: u32) -> Seq<WarriorView> {
    let s0 = views(pre.combatants@);
    s0.update(
        actor,
        WarriorView { action_points: s0[actor].action_points.dropped(cost), ..s0[actor] },
    )
}

/// Which combatants the per-target effects hit: alive, on a covered cell,
/// judged once, against the arena right after the cost was paid.
pub open spec fn spec_target_marks(pre: Battle, actor: int, action: Action, cell: MapPosition) -> Seq<
    bool,
> {
    let base = spec_cost_paid(pre, actor, action.cost);
    Seq::new(base.len(), |j: int| spec_is_target(pre.map, base, action.aoe, cell, j))
}

/// The arena after all the action's effects, before the death sweep.
pub open spec fn spec_effects_done(
    pre: Battle,
    actor: int,
    action: Action,
    cell: MapPosition,
    rolls: Seq<u32>,
) -> Seq<WarriorView> {
    let base = spec_cost_paid(pre, actor, action.cost);
    spec_after_effects(
        pre.map,
        base,
        base,
        actor,
        action.effects@,
        action.aoe,
        cell,
        rolls,
        action.effects@.len() as int,
    )
}

/// Everything a successful execution changed and reported, under the given
/// critical-hit rolls: cost paid, effects applied in order, the dead swept
/// out of the turn order, and the summary naming the affected targets and
/// the fallen.
pub open spec fn spec_executed_with(
    pre: Battle,
    post: Battle,
    summary: AppliedEffectsSummary,
    actor: int,
    action: Action,
    cell: MapPosition,
    rolls: Seq<u32>,
) -> bool {
    let n = pre.combatants@.len() as int;
    let s2 = spec_effects_done(pre, actor, action, cell, rolls);
    let swept = spec_sweep(s2, pre.turn@, n);
    &&& views(post.combatants@) == swept.0
    &&& post.turn@ == swept.1
    &&& post.map == pre.map
    &&& summary.targets@ == spec_marked_ids(spec_target_marks(pre, actor, action, cell), n)
    &&& summary.killed@ == spec_marked_ids(
        Seq::new(s2.len(), |j: int| s2[j].alive && s2[j].health.value == 0),
        n,
    )
}

/// What an executed action did: which combatants its per-target effects
/// were applied to, and which combatants died of it and left the turn
/// order, both in arena order.
#[derive(Debug)]
pub struct AppliedEffectsSummary {
    pub targets: Vec<CombatantId>,
    pub killed: Vec<CombatantId>,
}

/// Relies on `rand::random_range` over `0..100`: a uniform draw from that
/// range, so the result is always below one hundred.
#[verifier::external_body]
fn roll_percent() -> (r: u32)
    ensures
        r < 100,
{
    rand::random_range(0u32..100u32)
}

} // verus!
