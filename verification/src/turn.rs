//! The turn system: an ordered sequence of combatant identifiers with a
//! cursor for whose turn it is, advanced with wraparound and re-biased when
//! a combatant is removed on death.

use vstd::prelude::*;
use vstd::arithmetic::div_mod::{lemma_fundamental_div_mod, lemma_fundamental_div_mod_converse};

verus! {

/// A stable integer identifier for a combatant: its index in the battle's
/// arena, unchanged for the whole battle.
#[derive(Debug, Clone, Copy, PartialEq, Eq, Structural, Hash)]
pub struct CombatantId(pub usize);

/// Whose turn it is: combatant ids sorted by their turn order, the cursor
/// into that order, and how many full cycles have been completed.
pub struct Turn {
    /// Current turn number, incremented each time the order has been
    /// consumed and the cursor wraps back to the front.
    pub current: usize,
    /// Combatant ids, sorted by their turn order; never two alike.
    pub order: Vec<CombatantId>,
    /// Index in `order` of the combatant whose turn it is.
    pub order_index: usize,
}

/// Where the cursor stands after the entry at `removed` left the order: one
/// step back when the removed entry stood at or before it, saturated at the
/// front, so that no entry is skipped or repeated.
pub open spec fn rebias_index(order_index: int, removed: int) -> int {
    if order_index >= removed {
        if order_index > 0 {
            order_index - 1
        } else {
            0
        }
    } else {
        order_index
    }
}

impl Turn {
    /// Well-formedness: the cursor stays inside a non-empty order, rests at
    /// zero otherwise, and the order holds no duplicate.
    pub open spec fn wf(self) -> bool {
        (self.order@.len() > 0 ==> self.order_index < self.order@.len()) && (self.order@.len() == 0
            ==> self.order_index == 0) && forall|i: int, j: int|
            0 <= i < j < self.order@.len() ==> self.order@[i] != self.order@[j]
    }

    /// The turn state one `set_next` later: the cursor moves forward with
    /// wraparound, and the turn number grows exactly on the wrap.
    pub open spec fn spec_advanced(self) -> Turn {
        let n = self.order@.len() as int;
        let ni = ((self.order_index + 1) % n) as usize;
        Turn {
            current: if ni == 0 {
                (self.current + 1) as usize
            } else {
                self.current
            },
            order: self.order,
            order_index: ni,
        }
    }

    /// The turn state `k` calls of `set_next` later.
    pub open spec fn spec_advanced_n(self, k: nat) -> Turn
        decreases k,
    {
        if k == 0 {
            self
        } else {
            self.spec_advanced_n((k - 1) as nat).spec_advanced()
        }
    }

    /// The combatant whose turn it is.
    pub fn get_current_warrior_entity(&self) -> (r: Option<CombatantId>)
        requires
            self.wf(),
        ensures
            self.order@.len() > 0 ==> r == Some(self.order@[self.order_index as int]),
            self.order@.len() == 0 ==> r is None,
    {
        if self.order.len() > 0 {
            Some(self.order[self.order_index])
        } else {
            None
        }
    }

    /// The cursor one step forward, with wraparound.
    pub fn get_next_order_index(&self) -> (r: usize)
        requires
            self.wf(),
            self.order@.len() > 0,
        ensures
            r == (self.order_index + 1) % (self.order@.len() as int),
    {
        let n = self.order.len();
        (self.order_index + 1) % n
    }

    /// The combatant whose turn comes next, `None` on an empty order.
    pub fn peek_next(&self) -> (r: Option<CombatantId>)
        requires
            self.wf(),
        ensures
            self.order@.len() > 0 ==> r == Some(
                self.order@[(self.order_index + 1) % (self.order@.len() as int)],
            ),
            self.order@.len() == 0 ==> r is None,
    {
        let n = self.order.len();
        if n > 0 {
            Some(self.order[(self.order_index + 1) % n])
        } else {
            None
        }
    }

    /// The position of `entity` in the order, if it stands there.
    pub fn get_entity_index(&self, entity: CombatantId) -> (r: Option<usize>)
        ensures
            match r {
                Some(i) => i < self.order@.len() && self.order@[i as int] == entity && forall|
                    j: int,
                |
                    0 <= j < i ==> self.order@[j] != entity,
                None => forall|j: int| 0 <= j < self.order@.len() ==> self.order@[j] != entity,
            },
    {
        let mut i: usize = 0;
        while i < self.order.len()
            invariant
                i <= self.order@.len(),
                forall|j: int| 0 <= j < i ==> self.order@[j] != entity,
            decreases self.order@.len() - i,
        {
            if self.order[i] == entity {
                return Some(i);
            }
            i = i + 1;
        }
        None
    }

    /// Move forward in the turn system: select the next combatant,
    /// incrementing the turn count when the order wraps around. Returns the
    /// id whose turn ended and the id whose turn starts, for the hosting
    /// application's notifications.
    pub fn set_next(&mut self) -> (r: (CombatantId, CombatantId))
        requires
            old(self).wf(),
            old(self).order@.len() > 0,
            old(self).current < usize::MAX,
        ensures
            final(self).wf(),
            *final(self) == old(self).spec_advanced(),
            r.0 == old(self).order@[old(self).order_index as int],
            r.1 == final(self).order@[final(self).order_index as int],
            final(self).order == old(self).order,
            final(self).order_index == (old(self).order_index + 1) % (old(self).order@.len()
                as int),
            final(self).current == if final(self).order_index == 0 {
                old(self).current + 1
            } else {
                old(self).current as int
            },
    {
        let ended = self.order[self.order_index];
        let n = self.order.len();
        self.order_index = (self.order_index + 1) % n;
        if self.order_index == 0 {
            self.current = self.current + 1;
        }
        let started = self.order[self.order_index];
        (ended, started)
    }

    /// Remove `entity` from the order, re-biasing the cursor downward by one
    /// when the removed entry stood at or before it, so that no following
    /// combatant is skipped or repeated. Returns whether the entity was
    /// found.
    pub fn remove_combatant(&mut self, entity: CombatantId) -> (found: bool)
        requires
            old(self).wf(),
        ensures
            final(self).wf(),
            final(self).current == old(self).current,
            !old(self).order@.contains(entity) ==> (!found && *final(self) == *old(self)),
            old(self).order@.contains(entity) ==> (found && {
                let i = choose|i: int|
                    0 <= i < old(self).order@.len() && old(self).order@[i] == entity;
                final(self).order@ == old(self).order@.remove(i) && final(self).order_index
                    == rebias_index(old(self).order_index as int, i)
            }),
    {
        let found = self.get_entity_index(entity);
        match found {
            None => {
                proof {
                    assert(!self.order@.contains(entity)) by {
                        if self.order@.contains(entity) {
                            let j = choose|j: int|
                                0 <= j < self.order@.len() && self.order@[j] == entity;
                        }
                    }
                }
                false
            },
            Some(i) => {
                proof {
                    assert(self.order@.contains(entity)) by {
                        assert(self.order@[i as int] == entity);
                    }
                    let w = choose|w: int|
                        0 <= w < self.order@.len() && self.order@[w] == entity;
                    assert(w == i as int);
                }
                self.order.remove(i);
                if self.order_index >= i && self.order_index > 0 {
                    self.order_index = self.order_index - 1;
                }
                proof {
                    let s = old(self).order@;
                    assert(self.order@ == s.subrange(0, i as int) + s.subrange(
                        i + 1,
                        s.len() as int,
                    ));
                    assert forall|x: int, y: int|
                        0 <= x < y < self.order@.len() implies self.order@[x] != self.order@[y] by {
                        assert(self.order@[x] == if x < i {
                            s[x]
                        } else {
                            s[x + 1]
                        });
                        assert(self.order@[y] == if y < i {
                            s[y]
                        } else {
                            s[y + 1]
                        });
                    }
                }
                true
            },
        }
    }
}

/// After `k` advances the cursor has moved `k` steps with wraparound and the
/// turn number has grown once for each completed wrap.
proof fn lemma_advance_k(t: Turn, k: nat)
    requires
        t.wf(),
        t.order@.len() > 0,
        t.current < usize::MAX,
        k <= t.order@.len(),
    ensures
        t.spec_advanced_n(k).order == t.order,
        t.spec_advanced_n(k).order_index == (t.order_index + k) % (t.order@.len() as int),
        t.spec_advanced_n(k).current == t.current + (t.order_index + k) / (t.order@.len() as int),
    decreases k,
{
    vstd::std_specs::vec::axiom_spec_len(&t.order);
    let n = t.order@.len() as int;
    let oi = t.order_index as int;
    if k == 0 {
        lemma_fundamental_div_mod_converse(oi, n, 0, oi);
    } else {
        lemma_advance_k(t, (k - 1) as nat);
        let prev = t.spec_advanced_n((k - 1) as nat);
        let m = oi + k - 1;
        lemma_fundamental_div_mod(m, n);
        vstd::arithmetic::div_mod::lemma_mod_bound(m, n);
        let q = m / n;
        let r = m % n;
        assert(q >= 0) by (nonlinear_arith)
            requires
                m >= 0,
                n > 0,
                0 <= r < n,
                m == q * n + r,
        ;
        assert(prev.order_index == r);
        assert(prev.current == t.current + q);
        if r + 1 < n {
            lemma_fundamental_div_mod_converse(m + 1, n, q, r + 1);
            lemma_fundamental_div_mod_converse(r + 1, n, 0, r + 1);
        } else {
            assert(r + 1 == n);
            assert(q == 0) by (nonlinear_arith)
                requires
                    m == q * n + r,
                    r == n - 1,
                    m <= 2 * n - 2,
                    n > 0,
                    q >= 0,
            ;
            lemma_fundamental_div_mod_converse(m + 1, n, q + 1, 0);
            lemma_fundamental_div_mod_converse(r + 1, n, 1, 0);
        }
    }
}

/// Turn order wraparound: for an order of length `n`, advancing exactly `n`
/// times returns the cursor to its original position and increments the
/// turn number by exactly one.
pub proof fn lemma_turn_order_wraparound(t: Turn)
    requires
        t.wf(),
        t.order@.len() > 0,
        t.current < usize::MAX,
    ensures
        t.spec_advanced_n(t.order@.len()).order_index == t.order_index,
        t.spec_advanced_n(t.order@.len()).current == t.current + 1,
        t.spec_advanced_n(t.order@.len()).order == t.order,
{
    let n = t.order@.len() as int;
    let oi = t.order_index as int;
    lemma_advance_k(t, t.order@.len());
    lemma_fundamental_div_mod_converse(oi + n, n, 1, oi);
}

/// Removing a combatant other than the current one never changes whose turn
/// it is: the re-biased cursor still points at the same id.
pub proof fn lemma_remove_other_keeps_current(t: Turn, i: int)
    requires
        t.wf(),
        0 <= i < t.order@.len(),
        i != t.order_index,
    ensures
        t.order@.remove(i).len() == t.order@.len() - 1,
        t.order@.remove(i)[rebias_index(t.order_index as int, i)] == t.order@[t.order_index
            as int],
{
}

/// Removal re-biasing: after the combatant at the cursor is removed, the
/// combatant selected next is the one that previously stood right behind it,
/// wrapping at the end of the order — no entry is skipped. When the cursor
/// was at the front the shifted-in entry is already that combatant;
/// otherwise one advance of the re-biased cursor lands on it.
pub proof fn lemma_removal_rebias(t: Turn)
    requires
        t.wf(),
        t.order@.len() >= 2,
    ensures
        ({
            let n = t.order@.len() as int;
            let i = t.order_index as int;
            let removed = t.order@.remove(i);
            let ri = rebias_index(i, i);
            &&& (i == 0 ==> removed[ri] == t.order@[(i + 1) % n])
            &&& (i > 0 ==> removed[(ri + 1) % (n - 1)] == t.order@[(i + 1) % n])
        }),
{
    let n = t.order@.len() as int;
    let i = t.order_index as int;
    if i == 0 {
        lemma_fundamental_div_mod_converse(1, n, 0, 1);
    } else {
        if i < n - 1 {
            lemma_fundamental_div_mod_converse(i, n - 1, 0, i);
            lemma_fundamental_div_mod_converse(i + 1, n, 0, i + 1);
        } else {
            lemma_fundamental_div_mod_converse(i, n - 1, 1, 0);
            lemma_fundamental_div_mod_converse(i + 1, n, 1, 0);
        }
    }
}

} // verus!
