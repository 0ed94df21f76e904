//! A virtual axis: a bounded value driven by analog input, or eased by a pair of digital
//! inputs with separate rates for accelerating, reversing and relaxing.
//!
//! Values are fixed point: `AXIS_MAX` axis units make 1.0, the resolution of a raw
//! controller axis, so a raw reading is taken as it is and every step is exact.
use vstd::laws_eq::obeys_concrete_eq;
use vstd::prelude::*;

use crate::input_handler::{Behavior, InputtyResult, PhysicalInput, PhysicalInputValue};

verus! {

/// The magnitude that stands for 1.0 on a virtual axis: the largest raw value of a
/// controller axis. An axis value `v` means `v / AXIS_MAX`, so analog input keeps its
/// full resolution.
pub const AXIS_MAX: i32 = 32767;

/// Which of the three inputs of a virtual axis a logical input drives.
#[derive(Clone, Copy, Debug, Eq, Hash)]
pub enum VirtualAxisInput {
    Analog,
    Positive,
    Negative,
}

impl PartialEq for VirtualAxisInput {
    fn eq(&self, other: &VirtualAxisInput) -> (r: bool) {
        match (self, other) {
            (VirtualAxisInput::Analog, VirtualAxisInput::Analog) => true,
            (VirtualAxisInput::Positive, VirtualAxisInput::Positive) => true,
            (VirtualAxisInput::Negative, VirtualAxisInput::Negative) => true,
            _ => false,
        }
    }
}

impl vstd::std_specs::cmp::PartialEqSpecImpl for VirtualAxisInput {
    open spec fn obeys_eq_spec() -> bool {
        true
    }

    open spec fn eq_spec(&self, other: &VirtualAxisInput) -> bool {
        *self == *other
    }
}

/// `==` on axis inputs is equality, so they can name logical inputs of a handler.
pub proof fn lemma_axis_input_eq()
    ensures
        obeys_concrete_eq::<VirtualAxisInput>(),
{
    reveal(obeys_concrete_eq);
}

/// The driving mode of a virtual axis.
#[derive(Clone, Copy, Debug, PartialEq, Eq, Hash, Structural)]
pub enum VirtualAxisPhase {
    Increase,
    Decrease,
    Relax,
    Ignore,
}

/// `v` brought into `[-AXIS_MAX, AXIS_MAX]`.
pub open spec fn clamp_axis(v: int) -> int {
    if v < -AXIS_MAX {
        -AXIS_MAX as int
    } else if v > AXIS_MAX {
        AXIS_MAX as int
    } else {
        v
    }
}

/// The value of an axis after one tick in `phase`, before clamping.
pub open spec fn unclamped_step(
    value: int,
    phase: VirtualAxisPhase,
    delta: int,
    delta_reverse: int,
    delta_relax: int,
) -> int {
    match phase {
        VirtualAxisPhase::Relax => if value > delta_relax {
            value - delta_relax
        } else if value < -delta_relax {
            value + delta_relax
        } else {
            0
        },
        VirtualAxisPhase::Increase => if value > 0 {
            value + delta
        } else {
            value + delta_reverse
        },
        VirtualAxisPhase::Decrease => if value < 0 {
            value - delta
        } else {
            value - delta_reverse
        },
        VirtualAxisPhase::Ignore => value,
    }
}

/// The value of an axis after one tick in `phase`: relaxing moves it toward zero without
/// passing it, increasing and decreasing move it by `delta` in the direction it already has
/// and by `delta_reverse` otherwise; the result is clamped to the axis range.
pub open spec fn axis_step(
    value: int,
    phase: VirtualAxisPhase,
    delta: int,
    delta_reverse: int,
    delta_relax: int,
) -> int {
    clamp_axis(unclamped_step(value, phase, delta, delta_reverse, delta_relax))
}

/// The phase after the positive digital input reports `value`.
pub open spec fn phase_after_pos(phase: VirtualAxisPhase, value: PhysicalInputValue) -> VirtualAxisPhase {
    match value {
        PhysicalInputValue::Button(true) => VirtualAxisPhase::Increase,
        PhysicalInputValue::Button(false) => if phase == VirtualAxisPhase::Decrease {
            phase
        } else {
            VirtualAxisPhase::Relax
        },
        _ => phase,
    }
}

/// The phase after the negative digital input reports `value`.
pub open spec fn phase_after_neg(phase: VirtualAxisPhase, value: PhysicalInputValue) -> VirtualAxisPhase {
    match value {
        PhysicalInputValue::Button(true) => VirtualAxisPhase::Decrease,
        PhysicalInputValue::Button(false) => if phase == VirtualAxisPhase::Increase {
            phase
        } else {
            VirtualAxisPhase::Relax
        },
        _ => phase,
    }
}

/// Advances `axis_value` by one tick of `axis_state`.
pub fn axis_update(
    axis_value: &mut i32,
    axis_state: &VirtualAxisPhase,
    delta: u32,
    delta_reverse: u32,
    delta_relax: u32,
)
    ensures
        *final(axis_value) == axis_step(
            *old(axis_value) as int,
            *axis_state,
            delta as int,
            delta_reverse as int,
            delta_relax as int,
        ),
        -AXIS_MAX <= *final(axis_value) <= AXIS_MAX,
{
    let val: i64 = *axis_value as i64;
    let delta: i64 = delta as i64;
    let delta_reverse: i64 = delta_reverse as i64;
    let delta_relax: i64 = delta_relax as i64;
    let next: i64 = match *axis_state {
        VirtualAxisPhase::Relax => {
            if val > delta_relax {
                val - delta_relax
            } else if val < -delta_relax {
                val + delta_relax
            } else {
                0
            }
        },
        VirtualAxisPhase::Increase => {
            if val > 0 {
                val + delta
            } else {
                val + delta_reverse
            }
        },
        VirtualAxisPhase::Decrease => {
            if val < 0 {
                val - delta
            } else {
                val - delta_reverse
            }
        },
        VirtualAxisPhase::Ignore => val,
    };
    *axis_value = clamp_to_axis(next);
}

/// Clamps a value to `[-AXIS_MAX, AXIS_MAX]`.
fn clamp_to_axis(v: i64) -> (r: i32)
    ensures
        r == clamp_axis(v as int),
{
    if v < -(AXIS_MAX as i64) {
        -AXIS_MAX
    } else if v > AXIS_MAX as i64 {
        AXIS_MAX
    } else {
        v as i32
    }
}

/// Takes a raw analog reading: the phase becomes `Ignore` and the value becomes the
/// reading, clamped to the axis range. Other kinds of value change nothing.
pub fn axis_input_analog(
    axis_value: &mut i32,
    axis_state: &mut VirtualAxisPhase,
    value: PhysicalInputValue,
) -> (r: InputtyResult)
    ensures
        match value {
            PhysicalInputValue::Axis(raw) => {
                &&& *final(axis_state) == VirtualAxisPhase::Ignore
                &&& *final(axis_value) == clamp_axis(raw as int)
            },
            _ => {
                &&& *final(axis_state) == *old(axis_state)
                &&& *final(axis_value) == *old(axis_value)
            },
        },
        r == Ok::<(), &'static str>(()),
{
    if let PhysicalInputValue::Axis(raw_axis) = value {
        *axis_state = VirtualAxisPhase::Ignore;
        *axis_value = clamp_to_axis(raw_axis as i64);
    }
    Ok(())
}

/// Drives the phase from the positive digital input: pressed means `Increase`; released
/// means `Relax`, unless the negative input holds the axis in `Decrease`.
pub fn axis_input_pos(axis_state: &mut VirtualAxisPhase, value: PhysicalInputValue) -> (r: InputtyResult)
    ensures
        *final(axis_state) == phase_after_pos(*old(axis_state), value),
        r == Ok::<(), &'static str>(()),
{
    if let PhysicalInputValue::Button(raw_button) = value {
        if raw_button {
            *axis_state = VirtualAxisPhase::Increase;
        } else if *axis_state != VirtualAxisPhase::Decrease {
            *axis_state = VirtualAxisPhase::Relax;
        }
    }
    Ok(())
}

/// Drives the phase from the negative digital input: pressed means `Decrease`; released
/// means `Relax`, unless the positive input holds the axis in `Increase`.
pub fn axis_input_neg(axis_state: &mut VirtualAxisPhase, value: PhysicalInputValue) -> (r: InputtyResult)
    ensures
        *final(axis_state) == phase_after_neg(*old(axis_state), value),
        r == Ok::<(), &'static str>(()),
{
    if let PhysicalInputValue::Button(raw_button) = value {
        if raw_button {
            *axis_state = VirtualAxisPhase::Decrease;
        } else if *axis_state != VirtualAxisPhase::Increase {
            *axis_state = VirtualAxisPhase::Relax;
        }
    }
    Ok(())
}

/// A virtual axis: a value in `[-AXIS_MAX, AXIS_MAX]` driven either directly by analog
/// input or, through its phase, by a pair of digital inputs, with configured rates for
/// accelerating, reversing and relaxing (in axis units per unit of time).
pub struct VirtualAxisState {
    value: i32,
    phase: VirtualAxisPhase,
    delta: u32,
    delta_reverse: u32,
    delta_relax: u32,
}

/// The largest step that still matters: any step of at least this size carries every
/// in-range value to a bound, or relaxes it to zero.
const STEP_CAP: u64 = 65534;

/// A rate multiplied by the time elapsed, capped at `STEP_CAP`.
fn scaled_step(delta_time: u32, rate: u32) -> (r: u32)
    ensures
        r == if delta_time * rate < STEP_CAP { delta_time * rate } else { STEP_CAP as int },
{
    proof {
        assert(delta_time * rate <= 0xFFFF_FFFF * 0xFFFF_FFFF) by (nonlinear_arith)
            requires
                delta_time <= 0xFFFF_FFFF,
                rate <= 0xFFFF_FFFF,
        ;
    }
    let product: u64 = delta_time as u64 * rate as u64;
    if product < STEP_CAP {
        product as u32
    } else {
        STEP_CAP as u32
    }
}

/// A step larger than the axis is wide changes nothing against a step that just spans it.
proof fn lemma_step_cap(value: int, phase: VirtualAxisPhase, delta: int, delta_reverse: int, delta_relax: int)
    requires
        -AXIS_MAX <= value <= AXIS_MAX,
        delta >= 0,
        delta_reverse >= 0,
        delta_relax >= 0,
    ensures
        axis_step(
            value,
            phase,
            if delta < STEP_CAP { delta } else { STEP_CAP as int },
            if delta_reverse < STEP_CAP { delta_reverse } else { STEP_CAP as int },
            if delta_relax < STEP_CAP { delta_relax } else { STEP_CAP as int },
        ) == axis_step(value, phase, delta, delta_reverse, delta_relax),
{
}

impl VirtualAxisState {
    /// The current value, in axis units.
    pub closed spec fn spec_value(&self) -> int {
        self.value as int
    }

    pub closed spec fn spec_phase(&self) -> VirtualAxisPhase {
        self.phase
    }

    /// The rate of moving further in the direction the axis already has.
    pub closed spec fn spec_delta(&self) -> nat {
        self.delta as nat
    }

    /// The rate of moving away from zero or against the current direction.
    pub closed spec fn spec_delta_reverse(&self) -> nat {
        self.delta_reverse as nat
    }

    /// The rate of relaxing toward zero.
    pub closed spec fn spec_delta_relax(&self) -> nat {
        self.delta_relax as nat
    }

    /// The axis after an analog reading (see `axis_input_analog`).
    pub closed spec fn spec_input_analog(self, value: PhysicalInputValue) -> Self {
        match value {
            PhysicalInputValue::Axis(raw) => VirtualAxisState {
                value: clamp_axis(raw as int) as i32,
                phase: VirtualAxisPhase::Ignore,
                delta: self.delta,
                delta_reverse: self.delta_reverse,
                delta_relax: self.delta_relax,
            },
            _ => self,
        }
    }

    /// The axis after the positive digital input reports `value`.
    pub closed spec fn spec_input_pos(self, value: PhysicalInputValue) -> Self {
        VirtualAxisState { phase: phase_after_pos(self.phase, value), ..self }
    }

    /// The axis after the negative digital input reports `value`.
    pub closed spec fn spec_input_neg(self, value: PhysicalInputValue) -> Self {
        VirtualAxisState { phase: phase_after_neg(self.phase, value), ..self }
    }

    /// The value lies within the axis range.
    pub open spec fn wf(&self) -> bool {
        -AXIS_MAX <= self.spec_value() <= AXIS_MAX
    }

    /// An axis at rest: value 0, phase `Ignore`, with the given rates.
    pub fn new(delta: u32, delta_reverse: u32, delta_relax: u32) -> (r: Self)
        ensures
            r.wf(),
            r.spec_value() == 0,
            r.spec_phase() == VirtualAxisPhase::Ignore,
            r.spec_delta() == delta,
            r.spec_delta_reverse() == delta_reverse,
            r.spec_delta_relax() == delta_relax,
    {
        VirtualAxisState { value: 0, phase: VirtualAxisPhase::Ignore, delta, delta_reverse, delta_relax }
    }

    /// The current value, in axis units.
    pub fn value(&self) -> (r: i32)
        ensures
            r == self.spec_value(),
    {
        self.value
    }

    /// The current phase.
    pub fn phase(&self) -> (r: VirtualAxisPhase)
        ensures
            r == self.spec_phase(),
    {
        self.phase
    }

    /// Advances the axis by `delta_time` units of time: one tick of its phase with each
    /// rate multiplied by `delta_time`.
    pub fn update(&mut self, delta_time: u32)
        requires
            old(self).wf(),
        ensures
            final(self).wf(),
            final(self).spec_value() == axis_step(
                old(self).spec_value(),
                old(self).spec_phase(),
                delta_time * old(self).spec_delta(),
                delta_time * old(self).spec_delta_reverse(),
                delta_time * old(self).spec_delta_relax(),
            ),
            final(self).spec_phase() == old(self).spec_phase(),
            final(self).spec_delta() == old(self).spec_delta(),
            final(self).spec_delta_reverse() == old(self).spec_delta_reverse(),
            final(self).spec_delta_relax() == old(self).spec_delta_relax(),
    {
        let delta = scaled_step(delta_time, self.delta);
        let delta_reverse = scaled_step(delta_time, self.delta_reverse);
        let delta_relax = scaled_step(delta_time, self.delta_relax);
        proof {
            lemma_step_cap(
                self.value as int,
                self.phase,
                delta_time * self.delta,
                delta_time * self.delta_reverse,
                delta_time * self.delta_relax,
            );
        }
        axis_update(&mut self.value, &self.phase, delta, delta_reverse, delta_relax);
    }

    /// Takes a raw analog reading (see `axis_input_analog`).
    pub fn input_analog(&mut self, value: PhysicalInputValue) -> (r: InputtyResult)
        ensures
            *final(self) == old(self).spec_input_analog(value),
            old(self).wf() ==> final(self).wf(),
            match value {
                PhysicalInputValue::Axis(raw) => {
                    &&& final(self).spec_phase() == VirtualAxisPhase::Ignore
                    &&& final(self).spec_value() == clamp_axis(raw as int)
                },
                _ => {
                    &&& final(self).spec_phase() == old(self).spec_phase()
                    &&& final(self).spec_value() == old(self).spec_value()
                },
            },
            final(self).spec_delta() == old(self).spec_delta(),
            final(self).spec_delta_reverse() == old(self).spec_delta_reverse(),
            final(self).spec_delta_relax() == old(self).spec_delta_relax(),
            r == Ok::<(), &'static str>(()),
    {
        axis_input_analog(&mut self.value, &mut self.phase, value)
    }

    /// Takes the positive digital input (see `axis_input_pos`).
    pub fn input_pos(&mut self, value: PhysicalInputValue) -> (r: InputtyResult)
        ensures
            *final(self) == old(self).spec_input_pos(value),
            old(self).wf() ==> final(self).wf(),
            final(self).spec_phase() == phase_after_pos(old(self).spec_phase(), value),
            final(self).spec_value() == old(self).spec_value(),
            final(self).spec_delta() == old(self).spec_delta(),
            final(self).spec_delta_reverse() == old(self).spec_delta_reverse(),
            final(self).spec_delta_relax() == old(self).spec_delta_relax(),
            r == Ok::<(), &'static str>(()),
    {
        axis_input_pos(&mut self.phase, value)
    }

    /// Takes the negative digital input (see `axis_input_neg`).
    pub fn input_neg(&mut self, value: PhysicalInputValue) -> (r: InputtyResult)
        ensures
            *final(self) == old(self).spec_input_neg(value),
            old(self).wf() ==> final(self).wf(),
            final(self).spec_phase() == phase_after_neg(old(self).spec_phase(), value),
            final(self).spec_value() == old(self).spec_value(),
            final(self).spec_delta() == old(self).spec_delta(),
            final(self).spec_delta_reverse() == old(self).spec_delta_reverse(),
            final(self).spec_delta_relax() == old(self).spec_delta_relax(),
            r == Ok::<(), &'static str>(()),
    {
        axis_input_neg(&mut self.phase, value)
    }
}

/// Each of the three inputs of an axis drives the axis it is defined for.
impl Behavior<VirtualAxisState> for VirtualAxisInput {
    open spec fn spec_invoke(
        &self,
        state: VirtualAxisState,
        physical: PhysicalInput,
        value: PhysicalInputValue,
    ) -> (VirtualAxisState, InputtyResult) {
        match self {
            VirtualAxisInput::Analog => (state.spec_input_analog(value), Ok(())),
            VirtualAxisInput::Positive => (state.spec_input_pos(value), Ok(())),
            VirtualAxisInput::Negative => (state.spec_input_neg(value), Ok(())),
        }
    }

    fn invoke(
        &self,
        state: &mut VirtualAxisState,
        physical: PhysicalInput,
        value: PhysicalInputValue,
    ) -> (r: InputtyResult) {
        match self {
            VirtualAxisInput::Analog => state.input_analog(value),
            VirtualAxisInput::Positive => state.input_pos(value),
            VirtualAxisInput::Negative => state.input_neg(value),
        }
    }
}

/// Whatever the value, phase and rates, one tick leaves the axis within its range.
pub proof fn lemma_axis_step_in_range(
    value: int,
    phase: VirtualAxisPhase,
    delta: int,
    delta_reverse: int,
    delta_relax: int,
)
    ensures
        -AXIS_MAX <= axis_step(value, phase, delta, delta_reverse, delta_relax) <= AXIS_MAX,
{
}

} // verus!
