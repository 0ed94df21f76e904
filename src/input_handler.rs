//! The binding and definition tables and the dispatcher.
//!
//! A handler binds physical inputs to logical inputs (many to many, in bind order) and
//! defines one behavior per logical input. An event of a physical input runs, at once and
//! in bind order, the behavior of each logical input bound to it that has a definition.
//! A failing behavior does not stop the others; every result goes back to the caller.
use vstd::laws_eq::obeys_concrete_eq;
use vstd::prelude::*;

verus! {

/// What a behavior reports: `Err` carries a human-readable message.
pub type InputtyResult = Result<(), &'static str>;

/// A distinct hardware signal source. Devices, buttons, axes and keys are named by the
/// codes that the host assigns them.
#[derive(Clone, Copy, Debug, PartialEq, Eq, Hash, Structural)]
pub enum PhysicalInput {
    /// Controller instance id, axis code.
    CAxis(i32, u32),
    /// Controller instance id, button code.
    CButton(i32, u32),
    /// Mouse button code.
    MButton(u32),
    /// One notch of the horizontal wheel: positive (`true`) or negative.
    MWheelX(bool),
    /// One notch of the vertical wheel: positive (`true`) or negative.
    MWheelY(bool),
    MMotion,
    /// Key code, and whether the event is an automatic repeat.
    Key(u32, bool),
}

/// The payload of one occurrence of a physical input.
#[derive(Clone, Copy, Debug, PartialEq, Eq, Hash, Structural)]
pub enum PhysicalInputValue {
    /// Raw axis value.
    Axis(i16),
    /// Down (`true`) or up (`false`).
    Button(bool),
    /// Absolute X, absolute Y, relative X, relative Y.
    XY(i32, i32, i32, i32),
}

/// What a logical input does when triggered: it acts on the application state, given the
/// physical input that triggered it and that input's value. `spec_invoke` says what
/// `invoke` does; an implementation outside verified code, where it is an ordinary method,
/// gives it by running `invoke` on the state it owns.
pub trait Behavior<S> {
    /// The state that invoking the behavior leaves, and what it reports.
    spec fn spec_invoke(&self, state: S, physical: PhysicalInput, value: PhysicalInputValue) -> (S, InputtyResult);

    fn invoke(&self, state: &mut S, physical: PhysicalInput, value: PhysicalInputValue) -> (r: InputtyResult)
        ensures
            (*final(state), r) == self.spec_invoke(*old(state), physical, value),
    ;
}

/// The definitions as a map: each logical input to the behavior defined last for it.
pub open spec fn definitions_map<L, B>(defs: Seq<(L, B)>) -> Map<L, B>
    decreases defs.len(),
{
    if defs.len() == 0 {
        Map::empty()
    } else {
        definitions_map(defs.drop_last()).insert(defs.last().0, defs.last().1)
    }
}

/// No logical input is defined twice.
pub open spec fn keys_unique<L, B>(defs: Seq<(L, B)>) -> bool {
    forall|i: int, j: int| 0 <= i < j < defs.len() ==> defs[i].0 != defs[j].0
}

/// The logical inputs that `physical` triggers: those bound to it that have a definition,
/// in the order in which they were bound, once per binding.
pub open spec fn triggered<L, B>(
    bindings: Seq<(PhysicalInput, L)>,
    defs: Map<L, B>,
    physical: PhysicalInput,
) -> Seq<L>
    decreases bindings.len(),
{
    if bindings.len() == 0 {
        Seq::empty()
    } else {
        let earlier = triggered(bindings.drop_last(), defs, physical);
        if bindings.last().0 == physical && defs.contains_key(bindings.last().1) {
            earlier.push(bindings.last().1)
        } else {
            earlier
        }
    }
}

/// How many behaviors `notches` notches of a wheel run, when one notch triggers
/// `per_notch` of them.
pub open spec fn wheel_dispatch_count(notches: int, per_notch: int) -> int {
    if notches < 0 {
        -notches * per_notch
    } else {
        notches * per_notch
    }
}

/// The number of notches in a wheel movement of `delta`, whichever its direction.
fn notch_count(delta: i32) -> (r: u32)
    ensures
        r == if delta < 0 { -delta } else { delta as int },
{
    if delta < 0 {
        (-(delta as i64)) as u32
    } else {
        delta as u32
    }
}

/// Runs the behaviors defined for `logicals`, in order, each on the state the one before it
/// left and each handed `physical` and `value`: the final state, and every result in order.
pub open spec fn run_behaviors<L, B: Behavior<S>, S>(
    defs: Map<L, B>,
    logicals: Seq<L>,
    state: S,
    physical: PhysicalInput,
    value: PhysicalInputValue,
) -> (S, Seq<InputtyResult>)
    decreases logicals.len(),
{
    if logicals.len() == 0 {
        (state, Seq::empty())
    } else {
        let before = run_behaviors(defs, logicals.drop_last(), state, physical, value);
        let after = defs[logicals.last()].spec_invoke(before.0, physical, value);
        (after.0, before.1.push(after.1))
    }
}

/// `logicals`, `times` times over.
pub open spec fn repeated<L>(logicals: Seq<L>, times: nat) -> Seq<L>
    decreases times,
{
    if times == 0 {
        Seq::empty()
    } else {
        repeated(logicals, (times - 1) as nat) + logicals
    }
}

proof fn lemma_repeated_len<L>(logicals: Seq<L>, times: nat)
    ensures
        repeated(logicals, times).len() == times * logicals.len(),
    decreases times,
{
    if times > 0 {
        lemma_repeated_len(logicals, (times - 1) as nat);
        assert(times * logicals.len() == (times - 1) * logicals.len() + logicals.len()) by (nonlinear_arith);
    } else {
        assert(times * logicals.len() == 0) by (nonlinear_arith)
            requires
                times == 0,
        ;
    }
}

proof fn lemma_run_len<L, B: Behavior<S>, S>(
    defs: Map<L, B>,
    logicals: Seq<L>,
    state: S,
    physical: PhysicalInput,
    value: PhysicalInputValue,
)
    ensures
        run_behaviors(defs, logicals, state, physical, value).1.len() == logicals.len(),
    decreases logicals.len(),
{
    if logicals.len() > 0 {
        lemma_run_len(defs, logicals.drop_last(), state, physical, value);
    }
}

/// Running two lists of behaviors one after the other is running their concatenation.
pub proof fn lemma_run_concat<L, B: Behavior<S>, S>(
    defs: Map<L, B>,
    first: Seq<L>,
    second: Seq<L>,
    state: S,
    physical: PhysicalInput,
    value: PhysicalInputValue,
)
    ensures
        run_behaviors(defs, first + second, state, physical, value) == ({
            let mid = run_behaviors(defs, first, state, physical, value);
            let end = run_behaviors(defs, second, mid.0, physical, value);
            (end.0, mid.1 + end.1)
        }),
    decreases second.len(),
{
    let mid = run_behaviors(defs, first, state, physical, value);
    if second.len() == 0 {
        assert(first + second =~= first);
        assert(mid.1 + Seq::<InputtyResult>::empty() =~= mid.1);
    } else {
        let shorter = second.drop_last();
        assert((first + second).drop_last() =~= first + shorter);
        assert((first + second).last() == second.last());
        lemma_run_concat(defs, first, shorter, state, physical, value);
        let end = run_behaviors(defs, shorter, mid.0, physical, value);
        let step = defs[second.last()].spec_invoke(end.0, physical, value);
        assert((mid.1 + end.1).push(step.1) =~= mid.1 + end.1.push(step.1));
    }
}

proof fn lemma_definition_at<L, B>(defs: Seq<(L, B)>, i: int)
    requires
        keys_unique(defs),
        0 <= i < defs.len(),
    ensures
        definitions_map(defs).contains_key(defs[i].0),
        definitions_map(defs)[defs[i].0] == defs[i].1,
    decreases defs.len(),
{
    if i < defs.len() - 1 {
        lemma_definition_at(defs.drop_last(), i);
    }
}

proof fn lemma_triggered_defined<L, B>(bindings: Seq<(PhysicalInput, L)>, defs: Map<L, B>, physical: PhysicalInput)
    ensures
        forall|k: int|
            0 <= k < triggered(bindings, defs, physical).len() ==> defs.contains_key(
                #[trigger] triggered(bindings, defs, physical)[k],
            ),
    decreases bindings.len(),
{
    if bindings.len() > 0 {
        let earlier = triggered(bindings.drop_last(), defs, physical);
        lemma_triggered_defined(bindings.drop_last(), defs, physical);
        let all = triggered(bindings, defs, physical);
        assert forall|k: int| 0 <= k < all.len() implies defs.contains_key(#[trigger] all[k]) by {
            if k < earlier.len() {
                assert(all[k] == earlier[k]);
            }
        }
    }
}

proof fn lemma_definitions_contain<L, B>(defs: Seq<(L, B)>, logical: L)
    ensures
        definitions_map(defs).contains_key(logical) <==> exists|i: int|
            0 <= i < defs.len() && #[trigger] defs[i].0 == logical,
    decreases defs.len(),
{
    if defs.len() > 0 {
        let rest = defs.drop_last();
        lemma_definitions_contain(rest, logical);
        if definitions_map(rest).contains_key(logical) {
            let i = choose|i: int| 0 <= i < rest.len() && #[trigger] rest[i].0 == logical;
            assert(defs[i].0 == logical);
        }
        if exists|i: int| 0 <= i < defs.len() && #[trigger] defs[i].0 == logical {
            let i = choose|i: int| 0 <= i < defs.len() && #[trigger] defs[i].0 == logical;
            if i < defs.len() - 1 {
                assert(rest[i].0 == logical);
            }
        }
    }
}

proof fn lemma_definitions_replace<L, B>(defs: Seq<(L, B)>, i: int, behavior: B)
    requires
        keys_unique(defs),
        0 <= i < defs.len(),
    ensures
        definitions_map(defs.update(i, (defs[i].0, behavior))) == definitions_map(defs).insert(
            defs[i].0,
            behavior,
        ),
        keys_unique(defs.update(i, (defs[i].0, behavior))),
    decreases defs.len(),
{
    let logical = defs[i].0;
    let updated = defs.update(i, (logical, behavior));
    let rest = defs.drop_last();
    if i == defs.len() - 1 {
        assert(updated.drop_last() =~= rest);
        assert(definitions_map(updated) =~= definitions_map(defs).insert(logical, behavior));
    } else {
        assert(updated.drop_last() =~= rest.update(i, (logical, behavior)));
        lemma_definitions_replace(rest, i, behavior);
        assert(defs.last().0 != logical);
        assert(definitions_map(updated) =~= definitions_map(defs).insert(logical, behavior));
    }
}

/// A table from physical inputs to logical inputs, and from logical inputs to their
/// behaviors. Dispatch is immediate: an event's behaviors run before the event's entry
/// point returns. Both tables are vectors searched with `==`, so a logical input needs
/// only an equality that means what it says, and no hashing model is assumed of it.
pub struct InputHandler<L, B> {
    definitions: Vec<(L, B)>,
    bindings: Vec<(PhysicalInput, L)>,
}

impl<L: PartialEq, B> InputHandler<L, B> {
    /// Every binding made, in the order made.
    pub closed spec fn spec_bindings(&self) -> Seq<(PhysicalInput, L)> {
        self.bindings@
    }

    /// The behavior defined for each logical input.
    pub closed spec fn spec_definitions(&self) -> Map<L, B> {
        definitions_map(self.definitions@)
    }

    pub closed spec fn wf(&self) -> bool {
        keys_unique(self.definitions@)
    }

    /// The logical inputs that an event of `physical` triggers, in order.
    pub open spec fn triggered_by(&self, physical: PhysicalInput) -> Seq<L> {
        triggered(self.spec_bindings(), self.spec_definitions(), physical)
    }

    /// The state and results after an event of `physical` with `value`: the behaviors of
    /// what it triggers, run in order.
    pub open spec fn spec_dispatch<S>(
        &self,
        state: S,
        physical: PhysicalInput,
        value: PhysicalInputValue,
    ) -> (S, Seq<InputtyResult>)
        where
            B: Behavior<S>,
    {
        run_behaviors(self.spec_definitions(), self.triggered_by(physical), state, physical, value)
    }

    /// The state and results after the wheel turns `x` notches horizontally and `y`
    /// vertically: every horizontal notch, then every vertical one, each a press.
    pub open spec fn spec_wheel<S>(&self, state: S, x: int, y: int) -> (S, Seq<InputtyResult>)
        where
            B: Behavior<S>,
    {
        let across = PhysicalInput::MWheelX(x > 0);
        let down = PhysicalInput::MWheelY(y > 0);
        let press = PhysicalInputValue::Button(true);
        let first = run_behaviors(
            self.spec_definitions(),
            repeated(self.triggered_by(across), if x < 0 { -x as nat } else { x as nat }),
            state,
            across,
            press,
        );
        let second = run_behaviors(
            self.spec_definitions(),
            repeated(self.triggered_by(down), if y < 0 { -y as nat } else { y as nat }),
            first.0,
            down,
            press,
        );
        (second.0, first.1 + second.1)
    }

    /// A handler with no definitions and no bindings.
    pub fn new() -> (r: Self)
        ensures
            r.wf(),
            r.spec_bindings() == Seq::<(PhysicalInput, L)>::empty(),
            r.spec_definitions() == Map::<L, B>::empty(),
    {
        InputHandler { definitions: Vec::new(), bindings: Vec::new() }
    }

    /// Defines the behavior of `logical`, replacing any earlier definition.
    pub fn define(self, logical: L, behavior: B) -> (r: Self)
        requires
            self.wf(),
            obeys_concrete_eq::<L>(),
        ensures
            r.wf(),
            r.spec_definitions() == self.spec_definitions().insert(logical, behavior),
            r.spec_bindings() == self.spec_bindings(),
    {
        let mut handler = self;
        let mut i: usize = 0;
        while i < handler.definitions.len()
            invariant
                0 <= i <= handler.definitions@.len(),
                forall|k: int| 0 <= k < i ==> handler.definitions@[k].0 != logical,
                obeys_concrete_eq::<L>(),
                handler.definitions@ == self.definitions@,
                handler.bindings@ == self.bindings@,
                keys_unique(self.definitions@),
            decreases handler.definitions@.len() - i,
        {
            proof {
                reveal(obeys_concrete_eq);
            }
            if handler.definitions[i].0 == logical {
                proof {
                    lemma_definitions_replace(handler.definitions@, i as int, behavior);
                }
                handler.definitions.set(i, (logical, behavior));
                return handler;
            }
            i += 1;
        }
        proof {
            let pushed = handler.definitions@.push((logical, behavior));
            assert(pushed.drop_last() =~= handler.definitions@);
            assert(keys_unique(pushed));
        }
        handler.definitions.push((logical, behavior));
        handler
    }

    /// Adds a binding from `physical` to `logical` after all earlier ones. Bindings
    /// accumulate: binding the same pair twice triggers `logical` twice.
    pub fn bind(self, physical: PhysicalInput, logical: L) -> (r: Self)
        requires
            self.wf(),
        ensures
            r.wf(),
            r.spec_bindings() == self.spec_bindings().push((physical, logical)),
            r.spec_definitions() == self.spec_definitions(),
    {
        let mut handler = self;
        handler.bindings.push((physical, logical));
        handler
    }

    /// The position of the definition of `logical`, if it has one.
    fn find_definition(&self, logical: &L) -> (r: Option<usize>)
        requires
            obeys_concrete_eq::<L>(),
        ensures
            match r {
                Some(i) => i < self.definitions@.len() && self.definitions@[i as int].0 == *logical,
                None => !self.spec_definitions().contains_key(*logical),
            },
    {
        let mut i: usize = 0;
        while i < self.definitions.len()
            invariant
                0 <= i <= self.definitions@.len(),
                forall|k: int| 0 <= k < i ==> self.definitions@[k].0 != *logical,
                obeys_concrete_eq::<L>(),
            decreases self.definitions@.len() - i,
        {
            proof {
                reveal(obeys_concrete_eq);
            }
            if self.definitions[i].0 == *logical {
                return Some(i);
            }
            i += 1;
        }
        proof {
            lemma_definitions_contain(self.definitions@, *logical);
        }
        None
    }

    /// The logical inputs that an event of `physical` triggers, in the order in which
    /// their behaviors run.
    pub fn resolve(&self, physical: &PhysicalInput) -> (r: Vec<&L>)
        requires
            obeys_concrete_eq::<L>(),
        ensures
            r@.map_values(|l: &L| *l) == self.triggered_by(*physical),
    {
        let mut found: Vec<&L> = Vec::new();
        let mut i: usize = 0;
        while i < self.bindings.len()
            invariant
                0 <= i <= self.bindings@.len(),
                found@.map_values(|l: &L| *l) == triggered(
                    self.bindings@.take(i as int),
                    self.spec_definitions(),
                    *physical,
                ),
                obeys_concrete_eq::<L>(),
            decreases self.bindings@.len() - i,
        {
            proof {
                assert(self.bindings@.take(i + 1).drop_last() =~= self.bindings@.take(i as int));
            }
            let binding = &self.bindings[i];
            if binding.0 == *physical {
                if let Some(_) = self.find_definition(&binding.1) {
                    proof {
                        lemma_definitions_contain(self.definitions@, binding.1);
                    }
                    let ghost before = found@;
                    found.push(&binding.1);
                    proof {
                        assert(found@.map_values(|l: &L| *l) =~= before.map_values(|l: &L| *l).push(binding.1));
                    }
                }
            }
            i += 1;
        }
        proof {
            assert(self.bindings@.take(i as int) =~= self.bindings@);
        }
        found
    }

    /// Runs, in bind order, the behavior of every logical input that `physical` triggers,
    /// handing each `physical` and `value` and the state the one before it left. A behavior
    /// that fails does not stop the ones after it: the result holds each behavior's own
    /// result, in order, for the caller to report.
    pub fn resolve_and_invoke<S>(
        &mut self,
        state: &mut S,
        physical: PhysicalInput,
        value: PhysicalInputValue,
    ) -> (r: Vec<InputtyResult>)
        where
            B: Behavior<S>,
        requires
            old(self).wf(),
            obeys_concrete_eq::<L>(),
        ensures
            *final(self) == *old(self),
            (*final(state), r@) == old(self).spec_dispatch(*old(state), physical, value),
            r@.len() == old(self).triggered_by(physical).len(),
    {
        let logicals = self.resolve(&physical);
        let ghost defs = self.spec_definitions();
        let ghost run = self.triggered_by(physical);
        proof {
            lemma_triggered_defined(self.spec_bindings(), defs, physical);
        }
        let mut results: Vec<InputtyResult> = Vec::new();
        let mut i: usize = 0;
        while i < logicals.len()
            invariant
                0 <= i <= logicals@.len(),
                logicals@.map_values(|l: &L| *l) == run,
                run == self.triggered_by(physical),
                defs == self.spec_definitions(),
                forall|k: int| 0 <= k < run.len() ==> defs.contains_key(#[trigger] run[k]),
                self.wf(),
                obeys_concrete_eq::<L>(),
                (*state, results@) == run_behaviors(defs, run.take(i as int), *old(state), physical, value),
            decreases logicals@.len() - i,
        {
            let logical: &L = logicals[i];
            proof {
                assert(logicals@.map_values(|l: &L| *l)[i as int] == *logical);
                assert(run.take(i + 1).drop_last() =~= run.take(i as int));
                assert(run.take(i + 1).last() == run[i as int]);
            }
            if let Some(j) = self.find_definition(logical) {
                proof {
                    lemma_definition_at(self.definitions@, j as int);
                }
                let result = self.definitions[j].1.invoke(state, physical, value);
                results.push(result);
            }
            i += 1;
        }
        proof {
            assert(run.take(i as int) =~= run);
            lemma_run_len(defs, run, *old(state), physical, value);
        }
        results
    }

    /// A mouse button was pressed at `(_x, _y)`: dispatches the button, down.
    pub fn mouse_button_down_event<S>(&mut self, state: &mut S, button: u32, _x: i32, _y: i32) -> (r: Vec<InputtyResult>)
        where
            B: Behavior<S>,
        requires
            old(self).wf(),
            obeys_concrete_eq::<L>(),
        ensures
            *final(self) == *old(self),
            (*final(state), r@) == old(self).spec_dispatch(*old(state), PhysicalInput::MButton(button), PhysicalInputValue::Button(true)),
            r@.len() == old(self).triggered_by(PhysicalInput::MButton(button)).len(),
    {
        self.resolve_and_invoke(state, PhysicalInput::MButton(button), PhysicalInputValue::Button(true))
    }

    /// A mouse button was released at `(_x, _y)`: dispatches the button, up.
    pub fn mouse_button_up_event<S>(&mut self, state: &mut S, button: u32, _x: i32, _y: i32) -> (r: Vec<InputtyResult>)
        where
            B: Behavior<S>,
        requires
            old(self).wf(),
            obeys_concrete_eq::<L>(),
        ensures
            *final(self) == *old(self),
            (*final(state), r@) == old(self).spec_dispatch(*old(state), PhysicalInput::MButton(button), PhysicalInputValue::Button(false)),
            r@.len() == old(self).triggered_by(PhysicalInput::MButton(button)).len(),
    {
        self.resolve_and_invoke(state, PhysicalInput::MButton(button), PhysicalInputValue::Button(false))
    }

    /// The pointer moved: dispatches `MMotion` with the absolute and relative position.
    pub fn mouse_motion_event<S>(&mut self, state: &mut S, x: i32, y: i32, xrel: i32, yrel: i32) -> (r: Vec<InputtyResult>)
        where
            B: Behavior<S>,
        requires
            old(self).wf(),
            obeys_concrete_eq::<L>(),
        ensures
            *final(self) == *old(self),
            (*final(state), r@) == old(self).spec_dispatch(*old(state), PhysicalInput::MMotion, PhysicalInputValue::XY(x, y, xrel, yrel)),
            r@.len() == old(self).triggered_by(PhysicalInput::MMotion).len(),
    {
        self.resolve_and_invoke(state, PhysicalInput::MMotion, PhysicalInputValue::XY(x, y, xrel, yrel))
    }

    /// A key was pressed, or repeats: dispatches the key with its repeat flag, down.
    pub fn key_down_event<S>(&mut self, state: &mut S, keycode: u32, repeat: bool) -> (r: Vec<InputtyResult>)
        where
            B: Behavior<S>,
        requires
            old(self).wf(),
            obeys_concrete_eq::<L>(),
        ensures
            *final(self) == *old(self),
            (*final(state), r@) == old(self).spec_dispatch(*old(state), PhysicalInput::Key(keycode, repeat), PhysicalInputValue::Button(true)),
            r@.len() == old(self).triggered_by(PhysicalInput::Key(keycode, repeat)).len(),
    {
        self.resolve_and_invoke(state, PhysicalInput::Key(keycode, repeat), PhysicalInputValue::Button(true))
    }

    /// A key was released: dispatches the key with its repeat flag, up.
    pub fn key_up_event<S>(&mut self, state: &mut S, keycode: u32, repeat: bool) -> (r: Vec<InputtyResult>)
        where
            B: Behavior<S>,
        requires
            old(self).wf(),
            obeys_concrete_eq::<L>(),
        ensures
            *final(self) == *old(self),
            (*final(state), r@) == old(self).spec_dispatch(*old(state), PhysicalInput::Key(keycode, repeat), PhysicalInputValue::Button(false)),
            r@.len() == old(self).triggered_by(PhysicalInput::Key(keycode, repeat)).len(),
    {
        self.resolve_and_invoke(state, PhysicalInput::Key(keycode, repeat), PhysicalInputValue::Button(false))
    }

    /// A controller button was pressed: dispatches it for that controller, down.
    pub fn controller_button_down_event<S>(&mut self, state: &mut S, button: u32, instance_id: i32) -> (r: Vec<InputtyResult>)
        where
            B: Behavior<S>,
        requires
            old(self).wf(),
            obeys_concrete_eq::<L>(),
        ensures
            *final(self) == *old(self),
            (*final(state), r@) == old(self).spec_dispatch(*old(state), PhysicalInput::CButton(instance_id, button), PhysicalInputValue::Button(true)),
            r@.len() == old(self).triggered_by(PhysicalInput::CButton(instance_id, button)).len(),
    {
        self.resolve_and_invoke(state, PhysicalInput::CButton(instance_id, button), PhysicalInputValue::Button(true))
    }

    /// A controller button was released: dispatches it for that controller, up.
    pub fn controller_button_up_event<S>(&mut self, state: &mut S, button: u32, instance_id: i32) -> (r: Vec<InputtyResult>)
        where
            B: Behavior<S>,
        requires
            old(self).wf(),
            obeys_concrete_eq::<L>(),
        ensures
            *final(self) == *old(self),
            (*final(state), r@) == old(self).spec_dispatch(*old(state), PhysicalInput::CButton(instance_id, button), PhysicalInputValue::Button(false)),
            r@.len() == old(self).triggered_by(PhysicalInput::CButton(instance_id, button)).len(),
    {
        self.resolve_and_invoke(state, PhysicalInput::CButton(instance_id, button), PhysicalInputValue::Button(false))
    }

    /// A controller axis moved: dispatches it for that controller with the raw value.
    pub fn controller_axis_event<S>(&mut self, state: &mut S, axis: u32, value: i16, instance_id: i32) -> (r: Vec<InputtyResult>)
        where
            B: Behavior<S>,
        requires
            old(self).wf(),
            obeys_concrete_eq::<L>(),
        ensures
            *final(self) == *old(self),
            (*final(state), r@) == old(self).spec_dispatch(*old(state), PhysicalInput::CAxis(instance_id, axis), PhysicalInputValue::Axis(value)),
            r@.len() == old(self).triggered_by(PhysicalInput::CAxis(instance_id, axis)).len(),
    {
        self.resolve_and_invoke(state, PhysicalInput::CAxis(instance_id, axis), PhysicalInputValue::Axis(value))
    }

    /// Dispatches `notches` notches of one wheel, one after another, each as a press.
    fn wheel_notches<S>(&mut self, state: &mut S, physical: PhysicalInput, notches: u32) -> (r: Vec<InputtyResult>)
        where
            B: Behavior<S>,
        requires
            old(self).wf(),
            obeys_concrete_eq::<L>(),
        ensures
            *final(self) == *old(self),
            (*final(state), r@) == run_behaviors(
                old(self).spec_definitions(),
                repeated(old(self).triggered_by(physical), notches as nat),
                *old(state),
                physical,
                PhysicalInputValue::Button(true),
            ),
    {
        let ghost defs = self.spec_definitions();
        let ghost once = self.triggered_by(physical);
        let mut results: Vec<InputtyResult> = Vec::new();
        let mut done: u32 = 0;
        while done < notches
            invariant
                0 <= done <= notches,
                *self == *old(self),
                defs == self.spec_definitions(),
                once == self.triggered_by(physical),
                self.wf(),
                obeys_concrete_eq::<L>(),
                (*state, results@) == run_behaviors(
                    defs,
                    repeated(once, done as nat),
                    *old(state),
                    physical,
                    PhysicalInputValue::Button(true),
                ),
            decreases notches - done,
        {
            let mut more = self.resolve_and_invoke(state, physical, PhysicalInputValue::Button(true));
            proof {
                lemma_run_concat(
                    defs,
                    repeated(once, done as nat),
                    once,
                    *old(state),
                    physical,
                    PhysicalInputValue::Button(true),
                );
                assert(repeated(once, (done + 1) as nat) == repeated(once, done as nat) + once);
            }
            results.append(&mut more);
            done += 1;
        }
        results
    }

    /// The wheel turned by `x` notches horizontally and `y` vertically: each notch is
    /// dispatched on its own, as a press of `MWheelX` or `MWheelY` in the notch's direction,
    /// all horizontal notches first.
    pub fn mouse_wheel_event<S>(&mut self, state: &mut S, x: i32, y: i32) -> (r: Vec<InputtyResult>)
        where
            B: Behavior<S>,
        requires
            old(self).wf(),
            obeys_concrete_eq::<L>(),
        ensures
            *final(self) == *old(self),
            (*final(state), r@) == old(self).spec_wheel(*old(state), x as int, y as int),
            r@.len() == wheel_dispatch_count(
                x as int,
                old(self).triggered_by(PhysicalInput::MWheelX(x > 0)).len() as int,
            ) + wheel_dispatch_count(
                y as int,
                old(self).triggered_by(PhysicalInput::MWheelY(y > 0)).len() as int,
            ),
    {
        let ghost start = *state;
        let across_notches = notch_count(x);
        let down_notches = notch_count(y);
        let mut results = self.wheel_notches(state, PhysicalInput::MWheelX(x > 0), across_notches);
        let mut vertical = self.wheel_notches(state, PhysicalInput::MWheelY(y > 0), down_notches);
        results.append(&mut vertical);
        proof {
            let defs = self.spec_definitions();
            let across = repeated(self.triggered_by(PhysicalInput::MWheelX(x > 0)), across_notches as nat);
            let down = repeated(self.triggered_by(PhysicalInput::MWheelY(y > 0)), down_notches as nat);
            let mid = run_behaviors(defs, across, start, PhysicalInput::MWheelX(x > 0), PhysicalInputValue::Button(true)).0;
            lemma_run_len(defs, across, start, PhysicalInput::MWheelX(x > 0), PhysicalInputValue::Button(true));
            lemma_run_len(defs, down, mid, PhysicalInput::MWheelY(y > 0), PhysicalInputValue::Button(true));
            lemma_repeated_len(self.triggered_by(PhysicalInput::MWheelX(x > 0)), across_notches as nat);
            lemma_repeated_len(self.triggered_by(PhysicalInput::MWheelY(y > 0)), down_notches as nat);
        }
        results
    }
}

/// An event of a physical input that no binding names runs no behavior and leaves the
/// state as it was.
pub proof fn lemma_unbound_triggers_nothing<L: PartialEq, B: Behavior<S>, S>(
    handler: InputHandler<L, B>,
    physical: PhysicalInput,
    value: PhysicalInputValue,
    state: S,
)
    requires
        forall|i: int|
            0 <= i < handler.spec_bindings().len() ==> #[trigger] handler.spec_bindings()[i].0
                != physical,
    ensures
        handler.triggered_by(physical) == Seq::<L>::empty(),
        handler.spec_dispatch(state, physical, value) == (state, Seq::<InputtyResult>::empty()),
{
    lemma_unbound_prefix(handler.spec_bindings(), handler.spec_definitions(), physical);
}

proof fn lemma_unbound_prefix<L, B>(bindings: Seq<(PhysicalInput, L)>, defs: Map<L, B>, physical: PhysicalInput)
    requires
        forall|i: int| 0 <= i < bindings.len() ==> #[trigger] bindings[i].0 != physical,
    ensures
        triggered(bindings, defs, physical) == Seq::<L>::empty(),
    decreases bindings.len(),
{
    if bindings.len() > 0 {
        let rest = bindings.drop_last();
        assert forall|i: int| 0 <= i < rest.len() implies #[trigger] rest[i].0 != physical by {
            assert(rest[i] == bindings[i]);
        }
        lemma_unbound_prefix(rest, defs, physical);
        assert(bindings[bindings.len() - 1].0 != physical);
    }
}

/// Binding `first` and then `second` to the same physical input makes its events run,
/// after whatever they ran before, the behavior of `first` and then that of `second`, each
/// on the state the one before it left, whatever the results.
pub proof fn lemma_bind_order<L: PartialEq, B: Behavior<S>, S>(
    before: InputHandler<L, B>,
    middle: InputHandler<L, B>,
    after: InputHandler<L, B>,
    physical: PhysicalInput,
    first: L,
    second: L,
    value: PhysicalInputValue,
    state: S,
)
    requires
        middle.spec_bindings() == before.spec_bindings().push((physical, first)),
        middle.spec_definitions() == before.spec_definitions(),
        after.spec_bindings() == middle.spec_bindings().push((physical, second)),
        after.spec_definitions() == middle.spec_definitions(),
        before.spec_definitions().contains_key(first),
        before.spec_definitions().contains_key(second),
    ensures
        after.triggered_by(physical) == before.triggered_by(physical).push(first).push(second),
        after.spec_dispatch(state, physical, value) == ({
            let earlier = before.spec_dispatch(state, physical, value);
            let one = before.spec_definitions()[first].spec_invoke(earlier.0, physical, value);
            let two = before.spec_definitions()[second].spec_invoke(one.0, physical, value);
            (two.0, earlier.1.push(one.1).push(two.1))
        }),
{
    assert(after.spec_bindings().drop_last() =~= middle.spec_bindings());
    assert(middle.spec_bindings().drop_last() =~= before.spec_bindings());
    assert(middle.triggered_by(physical) == before.triggered_by(physical).push(first));
    assert(after.triggered_by(physical) == middle.triggered_by(physical).push(second));
    lemma_runs_past_failure(
        before.spec_definitions(),
        before.triggered_by(physical),
        first,
        second,
        state,
        physical,
        value,
    );
}

/// A behavior that fails does not stop the one after it: whatever a behavior returns, the
/// next still runs, on the state the first one left, and both results are reported.
pub proof fn lemma_runs_past_failure<L, B: Behavior<S>, S>(
    defs: Map<L, B>,
    earlier: Seq<L>,
    failing: L,
    next: L,
    state: S,
    physical: PhysicalInput,
    value: PhysicalInputValue,
)
    ensures
        run_behaviors(defs, earlier.push(failing).push(next), state, physical, value) == ({
            let before = run_behaviors(defs, earlier, state, physical, value);
            let failed = defs[failing].spec_invoke(before.0, physical, value);
            let later = defs[next].spec_invoke(failed.0, physical, value);
            (later.0, before.1.push(failed.1).push(later.1))
        }),
{
    let once = earlier.push(failing);
    let twice = once.push(next);
    assert(twice.drop_last() =~= once);
    assert(once.drop_last() =~= earlier);
    let before = run_behaviors(defs, earlier, state, physical, value);
    let failed = defs[failing].spec_invoke(before.0, physical, value);
    assert(run_behaviors(defs, once, state, physical, value) == (failed.0, before.1.push(failed.1)));
}

/// Each notch of a wheel is one whole dispatch: `notches + 1` notches run what `notches`
/// notches run, then everything one notch triggers, once more, as a press.
pub proof fn lemma_notch_by_notch<L: PartialEq, B: Behavior<S>, S>(
    handler: InputHandler<L, B>,
    physical: PhysicalInput,
    notches: nat,
    state: S,
)
    ensures
        run_behaviors(
            handler.spec_definitions(),
            repeated(handler.triggered_by(physical), notches + 1),
            state,
            physical,
            PhysicalInputValue::Button(true),
        ) == ({
            let before = run_behaviors(
                handler.spec_definitions(),
                repeated(handler.triggered_by(physical), notches),
                state,
                physical,
                PhysicalInputValue::Button(true),
            );
            let once = handler.spec_dispatch(before.0, physical, PhysicalInputValue::Button(true));
            (once.0, before.1 + once.1)
        }),
{
    lemma_run_concat(
        handler.spec_definitions(),
        repeated(handler.triggered_by(physical), notches),
        handler.triggered_by(physical),
        state,
        physical,
        PhysicalInputValue::Button(true),
    );
    assert(repeated(handler.triggered_by(physical), notches + 1) == repeated(
        handler.triggered_by(physical),
        notches,
    ) + handler.triggered_by(physical));
}

} // verus!
