//! Counters bounded to the range of a byte.
use vstd::prelude::*;

verus! {

/// The value after counting one up: stops at 255.
pub open spec fn after_inc(v: u8) -> u8 {
    if v < 255 { (v + 1) as u8 } else { 255 }
}

/// The value after counting one down: stops at 0.
pub open spec fn after_dec(v: u8) -> u8 {
    if v > 0 { (v - 1) as u8 } else { 0 }
}

/// The counter behind the "-" and "+" buttons: a value from 0 to 255.
#[derive(Debug, Clone, Copy, PartialEq, Eq, Structural)]
pub struct Model {
    pub value: u8,
}

impl Model {
    /// A counter at zero.
    pub fn default() -> (m: Model)
        ensures
            m.value == 0,
    {
        Model { value: 0 }
    }

    /// Counts one up, stopping at 255.
    pub fn inc(&mut self)
        ensures
            final(self).value == after_inc(old(self).value),
    {
        if self.value < 255 {
            self.value = self.value + 1;
        }
    }

    /// Counts one down, stopping at 0.
    pub fn dec(&mut self)
        ensures
            final(self).value == after_dec(old(self).value),
    {
        if self.value > 0 {
            self.value = self.value - 1;
        }
    }
}

/// One press of "-" (`minus`) or "+" on the counter page showing `value`.
pub fn counter_step(value: u8, minus: bool) -> (r: u8)
    ensures
        minus ==> r == after_dec(value),
        !minus ==> r == after_inc(value),
{
    let mut m = Model { value };
    if minus {
        m.dec();
    } else {
        m.inc();
    }
    m.value
}

/// Counting up and then down from below 255 comes back to the start.
pub proof fn law_inc_then_dec(v: u8)
    requires
        v < 255,
    ensures
        after_dec(after_inc(v)) == v,
{
}

/// Counting down and then up from above 0 comes back to the start.
pub proof fn law_dec_then_inc(v: u8)
    requires
        v > 0,
    ensures
        after_inc(after_dec(v)) == v,
{
}

/// The value stays within its range whatever is pressed: at 255 "+"
/// keeps it there, at 0 "-" keeps it there.
pub proof fn law_counter_saturates()
    ensures
        after_inc(255) == 255,
        after_dec(0) == 0,
{
}

} // verus!
