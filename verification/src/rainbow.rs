//! The rainbow animator: a hue phase advanced each frame.
//!
//! The phase is an angle in thousandths of a degree, wrapped modulo a
//! full circle. The painter loop runs at a fixed period, so each tick
//! advances the phase by a fixed amount proportional to the configured
//! speed; the current color is the hue at full saturation and value.

use vstd::prelude::*;

verus! {

/// A full hue circle, in thousandths of a degree.
pub const PHASE_CYCLE: u32 = 360000;

/// Phase advance per tick for one thousandth of speed: a speed of one
/// moves two degrees each frame.
pub const PHASE_STEP: u32 = 2;

/// The phase after one tick at the given speed (in thousandths).
pub open spec fn spec_tick(phase: u32, speed: u32) -> u32 {
    (((phase as int) + (speed as int) * (PHASE_STEP as int)) % (PHASE_CYCLE as int)) as u32
}

/// The hue of a phase as an `0x00BBGGRR` attribute value, at full
/// saturation and value: six sectors of sixty degrees, with one channel
/// ramping linearly inside each sector.
pub open spec fn spec_color_of_phase(phase: u32) -> u32 {
    let h = (phase as int) % (PHASE_CYCLE as int);
    let sector = h / 60000;
    let ramp = ((h % 60000) * 255) / 60000;
    let fall = 255 - ramp;
    if sector == 0 {
        rgb_value(255, ramp, 0)
    } else if sector == 1 {
        rgb_value(fall, 255, 0)
    } else if sector == 2 {
        rgb_value(0, 255, ramp)
    } else if sector == 3 {
        rgb_value(0, fall, 255)
    } else if sector == 4 {
        rgb_value(ramp, 0, 255)
    } else {
        rgb_value(255, 0, fall)
    }
}

/// The `0x00BBGGRR` attribute value of a color triple.
pub open spec fn rgb_value(r: int, g: int, b: int) -> u32
    recommends
        0 <= r < 256,
        0 <= g < 256,
        0 <= b < 256,
{
    (r + g * 256 + b * 65536) as u32
}

/// The hue animator. The phase stays below [`PHASE_CYCLE`].
pub struct Rainbow {
    pub phase: u32,
}

impl Rainbow {
    /// A fresh animator, at phase zero.
    pub fn new() -> (r: Rainbow)
        ensures
            r.phase == 0,
    {
        Rainbow { phase: 0 }
    }

    /// Advances the phase by an amount proportional to the speed,
    /// wrapping modulo a full circle.
    pub fn tick(&mut self, speed: u32)
        ensures
            final(self).phase == spec_tick(old(self).phase, speed),
            final(self).phase < PHASE_CYCLE,
    {
        let step: u64 = (speed as u64) * 2;
        let next: u64 = ((self.phase as u64) + step) % (PHASE_CYCLE as u64);
        proof {
            assert(next < PHASE_CYCLE as u64);
            assert(next as int == ((self.phase as int) + (speed as int) * (PHASE_STEP as int))
                % (PHASE_CYCLE as int));
        }
        self.phase = next as u32;
    }

    /// The current color: the hue of the phase.
    pub fn color(&self) -> (c: u32)
        ensures
            c == spec_color_of_phase(self.phase),
    {
        color_of_phase(self.phase)
    }
}

/// The hue of a phase as an attribute value, at full saturation and value.
pub fn color_of_phase(phase: u32) -> (c: u32)
    ensures
        c == spec_color_of_phase(phase),
{
    let h = phase % PHASE_CYCLE;
    let sector = h / 60000;
    let ramp = ((h % 60000) * 255) / 60000;
    let fall = 255 - ramp;
    proof {
        assert(ramp < 256);
    }
    if sector == 0 {
        255 + ramp * 256
    } else if sector == 1 {
        fall + 255 * 256
    } else if sector == 2 {
        255 * 256 + ramp * 65536
    } else if sector == 3 {
        fall * 256 + 255 * 65536
    } else if sector == 4 {
        ramp + 255 * 65536
    } else {
        255 + fall * 65536
    }
}

/// A tick at speed zero leaves the phase, and so the color, unchanged.
pub proof fn lemma_tick_zero_keeps_color(phase: u32)
    requires
        phase < PHASE_CYCLE,
    ensures
        spec_tick(phase, 0) == phase,
        spec_color_of_phase(spec_tick(phase, 0)) == spec_color_of_phase(phase),
{
}

/// Each tick advances the phase by exactly the speed-proportional step,
/// modulo a full circle: over successive ticks with nonnegative speed the
/// unwrapped phase never decreases.
pub proof fn lemma_tick_advances(phase: u32, speed: u32)
    requires
        phase < PHASE_CYCLE,
    ensures
        spec_tick(phase, speed) < PHASE_CYCLE,
        exists|turns: int|
            0 <= turns && (spec_tick(phase, speed) as int) + #[trigger] (turns * (
            PHASE_CYCLE as int)) == (phase as int) + (speed as int) * (PHASE_STEP as int),
{
    let total = (phase as int) + (speed as int) * (PHASE_STEP as int);
    let cycle = PHASE_CYCLE as int;
    let t = total / cycle;
    assert(total >= 0) by (nonlinear_arith)
        requires
            total == (phase as int) + (speed as int) * 2,
            phase >= 0,
            speed >= 0,
    ;
    assert(total % cycle + t * cycle == total && 0 <= t) by (nonlinear_arith)
        requires
            total >= 0,
            cycle == 360000,
            t == total / cycle,
    ;
    assert((spec_tick(phase, speed) as int) + t * cycle == total);
}

} // verus!
