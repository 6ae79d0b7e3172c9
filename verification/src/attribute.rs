//! Bounded numeric attributes (health, shield, action points, movement
//! points): a value clamped between a minimum and a maximum, with
//! remainder-aware decrease and increase, and permanent erosion of the
//! maximum.

use vstd::prelude::*;

verus! {

/// A bounded numeric value. The invariant `min <= value <= max` holds after
/// every operation.
#[derive(Debug, Clone, Copy, PartialEq, Eq, Structural)]
pub struct Attribute {
    pub value: u32,
    pub min: u32,
    pub max: u32,
}

impl Attribute {
    /// Well-formedness: the value lies between the bounds.
    pub open spec fn wf(self) -> bool {
        self.min <= self.value <= self.max
    }

    /// The attribute after `drop(amount)`: the value moves toward `min` by at
    /// most `amount`; the bounds are untouched.
    pub open spec fn dropped(self, amount: u32) -> Attribute {
        Attribute {
            value: if amount <= self.value - self.min {
                (self.value - amount) as u32
            } else {
                self.min
            },
            min: self.min,
            max: self.max,
        }
    }

    /// The part of `amount` that `drop(amount)` could not remove.
    pub open spec fn drop_remainder(self, amount: u32) -> u32 {
        (amount - (self.value - self.dropped(amount).value)) as u32
    }

    /// The attribute after `rise(amount)`: the value moves toward `max` by at
    /// most `amount`; the bounds are untouched.
    pub open spec fn risen(self, amount: u32) -> Attribute {
        Attribute {
            value: if amount <= self.max - self.value {
                (self.value + amount) as u32
            } else {
                self.max
            },
            min: self.min,
            max: self.max,
        }
    }

    /// The part of `amount` that `rise(amount)` could not add.
    pub open spec fn rise_remainder(self, amount: u32) -> u32 {
        (amount - (self.risen(amount).value - self.value)) as u32
    }

    /// `round(amount * percent / 100)`, halves rounding up: the erosion that
    /// an amount of damage causes under a percentage erosion factor.
    pub open spec fn scaled_rounded(amount: u32, percent: u32) -> int {
        (amount * percent + 50) / 100
    }

    /// The attribute after `erode(amount, percent)`: the maximum permanently
    /// loses `round(amount * percent / 100)`, clamped to not go below `min`,
    /// and the value is re-clamped under the new maximum.
    pub open spec fn eroded(self, amount: u32, percent: u32) -> Attribute {
        let erosion = Self::scaled_rounded(amount, percent);
        let new_max = if erosion <= self.max - self.min {
            (self.max - erosion) as u32
        } else {
            self.min
        };
        Attribute {
            value: if self.value <= new_max {
                self.value
            } else {
                new_max
            },
            min: self.min,
            max: new_max,
        }
    }

    pub fn new(min: u32, value: u32, max: u32) -> (r: Attribute)
        requires
            min <= value <= max,
        ensures
            r == (Attribute { value, min, max }),
    {
        Attribute { value, min, max }
    }

    pub fn value(&self) -> (r: u32)
        ensures
            r == self.value,
    {
        self.value
    }

    pub fn min(&self) -> (r: u32)
        ensures
            r == self.min,
    {
        self.min
    }

    pub fn max(&self) -> (r: u32)
        ensures
            r == self.max,
    {
        self.max
    }

    /// Set the value, clamped into `[min, max]`.
    pub fn set_value(&mut self, value: u32)
        requires
            old(self).wf(),
        ensures
            final(self).wf(),
            final(self).min == old(self).min,
            final(self).max == old(self).max,
            final(self).value == if value < old(self).min {
                old(self).min
            } else if value > old(self).max {
                old(self).max
            } else {
                value
            },
    {
        self.value = if value < self.min {
            self.min
        } else if value > self.max {
            self.max
        } else {
            value
        };
    }

    /// Lower the minimum bound to `min(m, max)`, raising the value onto the
    /// new minimum if it fell under it.
    pub fn set_min(&mut self, m: u32)
        requires
            old(self).wf(),
        ensures
            final(self).wf(),
            final(self).max == old(self).max,
            final(self).min == if m <= old(self).max {
                m
            } else {
                old(self).max
            },
            final(self).value == if old(self).value < final(self).min {
                final(self).min
            } else {
                old(self).value
            },
    {
        self.min = if m <= self.max {
            m
        } else {
            self.max
        };
        if self.value < self.min {
            self.value = self.min;
        }
    }

    /// Raise the maximum bound to `max(m, min)`, clamping the value under
    /// the new maximum if it exceeded it.
    pub fn set_max(&mut self, m: u32)
        requires
            old(self).wf(),
        ensures
            final(self).wf(),
            final(self).min == old(self).min,
            final(self).max == if m >= old(self).min {
                m
            } else {
                old(self).min
            },
            final(self).value == if old(self).value > final(self).max {
                final(self).max
            } else {
                old(self).value
            },
    {
        self.max = if m >= self.min {
            m
        } else {
            self.min
        };
        if self.value > self.max {
            self.value = self.max;
        }
    }

    /// Whether a full `amount` can be removed without hitting the minimum.
    pub fn can_drop(&self, amount: u32) -> (r: bool)
        requires
            self.wf(),
        ensures
            r == (self.value - self.min >= amount),
    {
        self.value - self.min >= amount
    }

    /// Decrease the value toward `min`, returning the unconsumed remainder.
    pub fn drop(&mut self, amount: u32) -> (r: u32)
        requires
            old(self).wf(),
        ensures
            final(self).wf(),
            *final(self) == old(self).dropped(amount),
            r == old(self).drop_remainder(amount),
            r == amount - (old(self).value - final(self).value),
    {
        let old_value = self.value;
        let virtual_value = if amount <= self.value {
            self.value - amount
        } else {
            0
        };
        let real_value = if virtual_value < self.min {
            self.min
        } else {
            virtual_value
        };
        self.value = real_value;
        amount - (old_value - real_value)
    }

    /// Drop by the minimum itself, returning the unconsumed remainder.
    pub fn drop_min(&mut self) -> (r: u32)
        requires
            old(self).wf(),
        ensures
            final(self).wf(),
            *final(self) == old(self).dropped(old(self).min),
            r == old(self).drop_remainder(old(self).min),
    {
        let m = self.min;
        self.drop(m)
    }

    /// Increase the value toward `max`, returning the unconsumed remainder.
    pub fn rise(&mut self, amount: u32) -> (r: u32)
        requires
            old(self).wf(),
        ensures
            final(self).wf(),
            *final(self) == old(self).risen(amount),
            r == old(self).rise_remainder(amount),
            r == amount - (final(self).value - old(self).value),
    {
        let old_value = self.value;
        let headroom = self.max - self.value;
        let real_value = if amount <= headroom {
            self.value + amount
        } else {
            self.max
        };
        self.value = real_value;
        amount - (real_value - old_value)
    }

    /// Fully restore the value to `max`.
    pub fn rise_max(&mut self) -> (r: u32)
        requires
            old(self).wf(),
        ensures
            final(self).wf(),
            *final(self) == old(self).risen(old(self).max),
            final(self).value == old(self).max,
            r == old(self).rise_remainder(old(self).max),
    {
        let m = self.max;
        self.rise(m)
    }

    /// Permanently lower `max` by `round(amount * percent / 100)`, never
    /// below `min`, re-clamping the value under the new maximum. Repeated
    /// erosion never raises the maximum and never takes it below the minimum.
    pub fn erode(&mut self, amount: u32, percent: u32)
        requires
            old(self).wf(),
        ensures
            final(self).wf(),
            *final(self) == old(self).eroded(amount, percent),
            final(self).max <= old(self).max,
            final(self).max >= old(self).min,
            final(self).min == old(self).min,
    {
        proof {
            assert((amount as int) * (percent as int) <= 0xffff_ffff * 0xffff_ffff)
                by (nonlinear_arith)
                requires
                    amount <= 0xffff_ffffu32,
                    percent <= 0xffff_ffffu32,
            ;
        }
        let erosion_wide: u64 = ((amount as u64) * (percent as u64) + 50) / 100;
        let room: u64 = (self.max - self.min) as u64;
        let new_max: u32 = if erosion_wide <= room {
            self.max - (erosion_wide as u32)
        } else {
            self.min
        };
        self.max = new_max;
        if self.value > new_max {
            self.value = new_max;
        }
    }

    /// The filled share of the attribute, in whole percentage points of the
    /// span `max - min`; zero when the span is empty.
    pub fn as_percentage(&self) -> (r: u32)
        requires
            self.wf(),
        ensures
            self.max == self.min ==> r == 0,
            self.max > self.min ==> r == (self.value - self.min) * 100 / (self.max
                - self.min),
            r <= 100,
    {
        if self.max == self.min {
            0
        } else {
            let span = self.max - self.min;
            let filled = self.value - self.min;
            let r = (((filled as u64) * 100) / (span as u64)) as u32;
            proof {
                let f = filled as int;
                let s = span as int;
                assert(f <= s);
                assert(f * 100 <= s * 100) by (nonlinear_arith)
                    requires
                        f <= s,
                        f >= 0,
                ;
                assert(f * 100 / s <= s * 100 / s) by (nonlinear_arith)
                    requires
                        f * 100 <= s * 100,
                        s > 0,
                ;
                assert(s * 100 / s == 100) by (nonlinear_arith)
                    requires
                        s > 0,
                ;
            }
            r
        }
    }

    /// The attribute as text for display: the value, a separating slash,
    /// and the maximum, both in decimal.
    pub fn as_text(&self) -> (r: String)
        ensures
            r@ == decimal_rep(self.value as int) + seq![' ', '/', ' '] + decimal_rep(
                self.max as int,
            ),
    {
        let mut r = u32_to_decimal(self.value);
        let sep = separator_str();
        r.append(sep.as_str());
        let max_text = u32_to_decimal(self.max);
        r.append(max_text.as_str());
        r
    }
}

/// The decimal digit characters of a nonnegative number, most significant
/// first.
pub open spec fn decimal_rep(n: int) -> Seq<char>
    decreases n,
{
    if n < 10 {
        seq![decimal_digit(n)]
    } else {
        decimal_rep(n / 10).push(decimal_digit(n % 10))
    }
}

/// The character of one decimal digit.
pub open spec fn decimal_digit(d: int) -> char {
    if d == 0 {
        '0'
    } else if d == 1 {
        '1'
    } else if d == 2 {
        '2'
    } else if d == 3 {
        '3'
    } else if d == 4 {
        '4'
    } else if d == 5 {
        '5'
    } else if d == 6 {
        '6'
    } else if d == 7 {
        '7'
    } else if d == 8 {
        '8'
    } else {
        '9'
    }
}

/// One decimal digit as a string.
fn digit_str(d: u32) -> (r: String)
    requires
        d < 10,
    ensures
        r@ == seq![decimal_digit(d as int)],
{
    proof {
        reveal_strlit("0");
        reveal_strlit("1");
        reveal_strlit("2");
        reveal_strlit("3");
        reveal_strlit("4");
        reveal_strlit("5");
        reveal_strlit("6");
        reveal_strlit("7");
        reveal_strlit("8");
        reveal_strlit("9");
    }
    let s = if d == 0 {
        "0"
    } else if d == 1 {
        "1"
    } else if d == 2 {
        "2"
    } else if d == 3 {
        "3"
    } else if d == 4 {
        "4"
    } else if d == 5 {
        "5"
    } else if d == 6 {
        "6"
    } else if d == 7 {
        "7"
    } else if d == 8 {
        "8"
    } else {
        "9"
    };
    let r = String::from_str(s);
    proof {
        assert(r@ =~= seq![decimal_digit(d as int)]);
    }
    r
}

/// The separator between the value and the maximum.
fn separator_str() -> (r: String)
    ensures
        r@ == seq![' ', '/', ' '],
{
    proof {
        reveal_strlit(" / ");
    }
    let r = String::from_str(" / ");
    proof {
        assert(r@ =~= seq![' ', '/', ' ']);
    }
    r
}

/// A nonnegative number in decimal, most significant digit first.
pub fn u32_to_decimal(n: u32) -> (r: String)
    ensures
        r@ == decimal_rep(n as int),
    decreases n,
{
    if n < 10 {
        digit_str(n)
    } else {
        proof {
            assert(n / 10 < n) by (nonlinear_arith)
                requires
                    n >= 10,
            ;
        }
        let mut r = u32_to_decimal(n / 10);
        let last = digit_str(n % 10);
        r.append(last.as_str());
        proof {
            assert(decimal_rep((n / 10) as int) + seq![decimal_digit((n % 10) as int)]
                =~= decimal_rep(n as int));
        }
        r
    }
}

impl Default for Attribute {
    /// An empty attribute: all three fields zero.
    fn default() -> (r: Attribute)
        ensures
            r == (Attribute { value: 0, min: 0, max: 0 }),
            r.wf(),
    {
        Attribute { value: 0, min: 0, max: 0 }
    }
}

/// Remainder accounting is exact: a `drop(amount)` followed immediately by a
/// `rise` of what was actually removed (`amount` less the drop's remainder)
/// restores the original value.
pub proof fn lemma_drop_rise_restores(a: Attribute, amount: u32)
    requires
        a.wf(),
    ensures
        a.dropped(amount).risen((amount - a.drop_remainder(amount)) as u32).value == a.value,
{
}

/// Erosion only ever lowers the maximum, and never below the minimum; so any
/// chain of erode calls leaves `min() <= max() <= ` the original maximum.
pub proof fn lemma_erosion_monotonic(a: Attribute, amount: u32, percent: u32)
    requires
        a.wf(),
    ensures
        a.eroded(amount, percent).max <= a.max,
        a.eroded(amount, percent).max >= a.min,
        a.eroded(amount, percent).wf(),
{
}

} // verus!
