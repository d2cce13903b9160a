//! A chaser over the board's ring of eight LEDs: one LED is lit at a time
//! and each step moves the light one place round the ring.
use vstd::prelude::*;

verus! {

/// Number of LEDs in the ring.
pub const LED_COUNT: usize = 8;

/// The LED that follows `led` round the ring.
pub open spec fn next_led(led: int) -> int {
    (led + 1) % 8
}

/// The LED reached from `led` after `steps` steps.
pub open spec fn led_after(led: int, steps: nat) -> int
    decreases steps,
{
    if steps == 0 {
        led
    } else {
        next_led(led_after(led, (steps - 1) as nat))
    }
}

/// What one step does to the LEDs: switch one off, then one on.
#[derive(Copy, Clone, Debug, PartialEq, Eq, Structural)]
pub struct BlinkStep {
    /// The LED to switch off.
    pub off: usize,
    /// The LED to switch on.
    pub on: usize,
}

/// The chaser: the index of the LED that is lit.
pub struct Blinker {
    pub led: usize,
}

impl Blinker {
    /// Moves the light to the next LED: the current one goes off and the
    /// next one round the ring comes on.
    pub fn run(&mut self) -> (step: BlinkStep)
        requires
            old(self).led < LED_COUNT,
        ensures
            final(self).led == next_led(old(self).led as int),
            final(self).led < LED_COUNT,
            step == (BlinkStep { off: old(self).led, on: final(self).led }),
    {
        let off = self.led;
        self.led = (self.led + 1) % LED_COUNT;
        BlinkStep { off, on: self.led }
    }
}

/// After `steps` steps from LED `led` the light is at `(led + steps) mod 8`;
/// in particular it comes back to where it started every eight steps.
pub proof fn lemma_chaser_cycle(led: int, steps: nat)
    requires
        0 <= led < 8,
    ensures
        led_after(led, steps) == (led + steps) % 8,
        steps % 8 == 0 ==> led_after(led, steps) == led,
    decreases steps,
{
    if steps > 0 {
        lemma_chaser_cycle(led, (steps - 1) as nat);
        vstd::arithmetic::div_mod::lemma_add_mod_noop(led + steps - 1, 1, 8);
    }
    if steps % 8 == 0 {
        vstd::arithmetic::div_mod::lemma_mod_adds(led, steps as int, 8);
        vstd::arithmetic::div_mod::lemma_small_mod(led as nat, 8);
    }
}

/// Within eight successive steps from LED `led` no LED is lit twice.
pub proof fn lemma_chaser_visits_each_once(led: int, i: nat, j: nat)
    requires
        0 <= led < 8,
        i < j < 8,
    ensures
        led_after(led, i) != led_after(led, j),
{
    lemma_chaser_cycle(led, i);
    lemma_chaser_cycle(led, j);
    if led + j < 8 {
        vstd::arithmetic::div_mod::lemma_small_mod((led + i) as nat, 8);
        vstd::arithmetic::div_mod::lemma_small_mod((led + j) as nat, 8);
    } else if led + i < 8 {
        vstd::arithmetic::div_mod::lemma_small_mod((led + i) as nat, 8);
        vstd::arithmetic::div_mod::lemma_mod_sub_multiples_vanish(led + j, 8);
        vstd::arithmetic::div_mod::lemma_small_mod((led + j - 8) as nat, 8);
    } else {
        vstd::arithmetic::div_mod::lemma_mod_sub_multiples_vanish(led + i, 8);
        vstd::arithmetic::div_mod::lemma_small_mod((led + i - 8) as nat, 8);
        vstd::arithmetic::div_mod::lemma_mod_sub_multiples_vanish(led + j, 8);
        vstd::arithmetic::div_mod::lemma_small_mod((led + j - 8) as nat, 8);
    }
}

} // verus!
