//! Stack-based state machine.
//!
//! The machine has four operations: `Push` pushes a new state onto the state
//! stack, pausing the previous state; `Pop` removes the current state and
//! unpauses the last paused one; `Set` replaces the active state with a new
//! one; `Replace` unwinds the whole stack and replaces it with a single new
//! state.  A scheduling call only ever stages one pending operation; the
//! driver [`state_cleaner`] advances the machine one phase per invocation
//! and tells the outer scheduler whether it must run again before the pass
//! is settled.

use vstd::prelude::*;
use vstd::std_specs::cmp::PartialEqSpec;

verus! {

/// Bound on application state types: small copyable values whose `==`
/// agrees with logical equality, so that staging calls can compare a
/// requested state against the current one.
pub trait StateData: Copy + PartialEq + Eq {
    /// The type's `==` is exact: it obeys its specification and that
    /// specification is logical equality.
    proof fn eq_obeys()
        ensures
            Self::obeys_eq_spec(),
            forall|x: Self, y: Self| #[trigger] x.eq_spec(&y) <==> x == y,
    ;
}

impl StateData for bool {
    proof fn eq_obeys() {
    }
}

impl StateData for u8 {
    proof fn eq_obeys() {
    }
}

impl StateData for u32 {
    proof fn eq_obeys() {
    }
}

impl StateData for u64 {
    proof fn eq_obeys() {
    }
}

impl StateData for usize {
    proof fn eq_obeys() {
    }
}

impl StateData for i32 {
    proof fn eq_obeys() {
    }
}

impl StateData for i64 {
    proof fn eq_obeys() {
    }
}

/// One phase of a state change.  The parameter order is always
/// `(leaving, entering)`: the state being vacated, then the state being
/// activated or resumed.
#[derive(Clone, Copy, PartialEq, Eq, Debug)]
pub enum StateTransition<T: StateData> {
    PreStartup,
    Startup,
    ExitingToResume(T, T),
    ExitingFull(T, T),
    Entering(T, T),
    Resuming(T, T),
    Pausing(T, T),
}

/// The single externally-requested mutation awaiting application by the
/// driver.
#[derive(Clone, Copy, PartialEq, Eq, Debug)]
pub enum ScheduledOperation<T: StateData> {
    SetTo(T),
    Replace(T),
    Pop,
    Push(T),
}

/// Typed, recoverable failures of the scheduling calls.
#[derive(Clone, Copy, PartialEq, Eq, Structural, Debug)]
pub enum StateError {
    /// The requested state equals the current one.
    AlreadyInState,
    /// A non-overwrite call found an operation already staged.
    StateAlreadyQueued,
    /// A pop was requested on a single-element stack.
    StackEmpty,
}

impl StateError {
    /// A diagnostic sentence for the error.
    pub fn message(&self) -> (r: &'static str)
        ensures
            *self == StateError::AlreadyInState ==> r@ =~= "Attempted to change the state to the current state."@,
            *self == StateError::StateAlreadyQueued ==> r@ =~= "Attempted to queue a state change, but there was already a state queued."@,
            *self == StateError::StackEmpty ==> r@ =~= "Attempted to queue a pop, but there is nothing to pop."@,
    {
        match self {
            StateError::AlreadyInState => "Attempted to change the state to the current state.",
            StateError::StateAlreadyQueued => "Attempted to queue a state change, but there was already a state queued.",
            StateError::StackEmpty => "Attempted to queue a pop, but there is nothing to pop.",
        }
    }
}

/// The mathematical value of a [`State`]: the stack (top last), the pending
/// transition, the staged operation, and the quiescence flag.
#[verifier::ext_equal]
pub ghost struct StateModel<T: StateData> {
    pub stack: Seq<T>,
    pub transition: Option<StateTransition<T>>,
    pub scheduled: Option<ScheduledOperation<T>>,
    pub end_next_loop: bool,
}

/// Validity of a machine value: the stack never shrinks below one element,
/// and the two places that make the driver pop — an `ExitingToResume`
/// phase, and a staged `Pop` — only ever exist with at least two elements
/// to pop from.
pub open spec fn model_inv<T: StateData>(m: StateModel<T>) -> bool {
    &&& m.stack.len() >= 1
    &&& (m.transition matches Some(StateTransition::ExitingToResume(_, _)) ==> m.stack.len()
        >= 2)
    &&& (m.scheduled matches Some(ScheduledOperation::Pop) ==> m.stack.len() >= 2)
}

/// Stack-based state machine over an application state type.
pub struct State<T: StateData> {
    transition: Option<StateTransition<T>>,
    stack: Vec<T>,
    scheduled: Option<ScheduledOperation<T>>,
    end_next_loop: bool,
}

impl<T: StateData> View for State<T> {
    type V = StateModel<T>;

    closed spec fn view(&self) -> StateModel<T> {
        StateModel {
            stack: self.stack@,
            transition: self.transition,
            scheduled: self.scheduled,
            end_next_loop: self.end_next_loop,
        }
    }
}

impl<T: StateData> State<T> {
    /// Validity of this machine; established by [`State::new`] and
    /// preserved by every call.
    pub open spec fn inv(&self) -> bool {
        model_inv(self@)
    }

    /// A machine holding the initial state, about to run its startup
    /// phases.
    pub fn new(initial: T) -> (s: Self)
        ensures
            s@.stack =~= seq![initial],
            s@.transition == Some(StateTransition::PreStartup::<T>),
            s@.scheduled is None,
            !s@.end_next_loop,
            s.inv(),
    {
        State {
            stack: vec![initial],
            transition: Some(StateTransition::PreStartup),
            scheduled: None,
            end_next_loop: false,
        }
    }

    /// The active state: the top of the stack.
    pub fn current(&self) -> (r: &T)
        requires
            self.inv(),
        ensures
            *r == self@.stack.last(),
    {
        &self.stack[self.stack.len() - 1]
    }

    /// The paused states: every element below the top, oldest first.
    pub fn inactives(&self) -> (r: Vec<T>)
        requires
            self.inv(),
        ensures
            r@ =~= self@.stack.drop_last(),
    {
        let mut below: Vec<T> = Vec::new();
        let mut i: usize = 0;
        let end = self.stack.len() - 1;
        while i < end
            invariant
                i <= end,
                end == self@.stack.len() - 1,
                below@ =~= self@.stack.subrange(0, i as int),
            decreases end - i,
        {
            below.push(self.stack[i]);
            i = i + 1;
        }
        proof {
            assert(below@ =~= self@.stack.drop_last());
        }
        below
    }

    /// Schedule a state change that replaces the active state with the
    /// given one.  Fails with [`StateError::AlreadyInState`] if `state`
    /// equals the current state, and with
    /// [`StateError::StateAlreadyQueued`] if an operation is already
    /// staged; a failed call changes nothing.
    pub fn set(&mut self, state: T) -> (r: Result<(), StateError>)
        requires
            old(self).inv(),
        ensures
            final(self).inv(),
            state == old(self)@.stack.last() ==> r == Err::<(), StateError>(
                StateError::AlreadyInState,
            ) && final(self)@ == old(self)@,
            state != old(self)@.stack.last() && old(self)@.scheduled is Some ==> r == Err::<
                (),
                StateError,
            >(StateError::StateAlreadyQueued) && final(self)@ == old(self)@,
            state != old(self)@.stack.last() && old(self)@.scheduled is None ==> r == Ok::<
                (),
                StateError,
            >(()) && final(self)@ == (StateModel {
                scheduled: Some(ScheduledOperation::SetTo(state)),
                ..old(self)@
            }),
    {
        proof {
            T::eq_obeys();
        }
        if self.stack[self.stack.len() - 1] == state {
            return Err(StateError::AlreadyInState);
        }
        if self.scheduled.is_some() {
            return Err(StateError::StateAlreadyQueued);
        }
        self.scheduled = Some(ScheduledOperation::SetTo(state));
        Ok(())
    }

    /// Same as [`State::set`], but an already staged operation is
    /// overwritten instead of failing.
    pub fn overwrite_set(&mut self, state: T) -> (r: Result<(), StateError>)
        requires
            old(self).inv(),
        ensures
            final(self).inv(),
            state == old(self)@.stack.last() ==> r == Err::<(), StateError>(
                StateError::AlreadyInState,
            ) && final(self)@ == old(self)@,
            state != old(self)@.stack.last() ==> r == Ok::<(), StateError>(()) && final(self)@
                == (StateModel { scheduled: Some(ScheduledOperation::SetTo(state)), ..old(self)@ }),
    {
        proof {
            T::eq_obeys();
        }
        if self.stack[self.stack.len() - 1] == state {
            return Err(StateError::AlreadyInState);
        }
        self.scheduled = Some(ScheduledOperation::SetTo(state));
        Ok(())
    }

    /// Schedule a state change that unwinds the whole stack and replaces it
    /// with the given state.  Fails exactly as [`State::set`] does.
    pub fn replace(&mut self, state: T) -> (r: Result<(), StateError>)
        requires
            old(self).inv(),
        ensures
            final(self).inv(),
            state == old(self)@.stack.last() ==> r == Err::<(), StateError>(
                StateError::AlreadyInState,
            ) && final(self)@ == old(self)@,
            state != old(self)@.stack.last() && old(self)@.scheduled is Some ==> r == Err::<
                (),
                StateError,
            >(StateError::StateAlreadyQueued) && final(self)@ == old(self)@,
            state != old(self)@.stack.last() && old(self)@.scheduled is None ==> r == Ok::<
                (),
                StateError,
            >(()) && final(self)@ == (StateModel {
                scheduled: Some(ScheduledOperation::Replace(state)),
                ..old(self)@
            }),
    {
        proof {
            T::eq_obeys();
        }
        if self.stack[self.stack.len() - 1] == state {
            return Err(StateError::AlreadyInState);
        }
        if self.scheduled.is_some() {
            return Err(StateError::StateAlreadyQueued);
        }
        self.scheduled = Some(ScheduledOperation::Replace(state));
        Ok(())
    }

    /// Same as [`State::replace`], but an already staged operation is
    /// overwritten instead of failing.
    pub fn overwrite_replace(&mut self, state: T) -> (r: Result<(), StateError>)
        requires
            old(self).inv(),
        ensures
            final(self).inv(),
            state == old(self)@.stack.last() ==> r == Err::<(), StateError>(
                StateError::AlreadyInState,
            ) && final(self)@ == old(self)@,
            state != old(self)@.stack.last() ==> r == Ok::<(), StateError>(()) && final(self)@
                == (StateModel {
                scheduled: Some(ScheduledOperation::Replace(state)),
                ..old(self)@
            }),
    {
        proof {
            T::eq_obeys();
        }
        if self.stack[self.stack.len() - 1] == state {
            return Err(StateError::AlreadyInState);
        }
        self.scheduled = Some(ScheduledOperation::Replace(state));
        Ok(())
    }

    /// Schedule a push of the given state, pausing the current one.  Fails
    /// exactly as [`State::set`] does.
    pub fn push(&mut self, state: T) -> (r: Result<(), StateError>)
        requires
            old(self).inv(),
        ensures
            final(self).inv(),
            state == old(self)@.stack.last() ==> r == Err::<(), StateError>(
                StateError::AlreadyInState,
            ) && final(self)@ == old(self)@,
            state != old(self)@.stack.last() && old(self)@.scheduled is Some ==> r == Err::<
                (),
                StateError,
            >(StateError::StateAlreadyQueued) && final(self)@ == old(self)@,
            state != old(self)@.stack.last() && old(self)@.scheduled is None ==> r == Ok::<
                (),
                StateError,
            >(()) && final(self)@ == (StateModel {
                scheduled: Some(ScheduledOperation::Push(state)),
                ..old(self)@
            }),
    {
        proof {
            T::eq_obeys();
        }
        if self.stack[self.stack.len() - 1] == state {
            return Err(StateError::AlreadyInState);
        }
        if self.scheduled.is_some() {
            return Err(StateError::StateAlreadyQueued);
        }
        self.scheduled = Some(ScheduledOperation::Push(state));
        Ok(())
    }

    /// Same as [`State::push`], but an already staged operation is
    /// overwritten instead of failing.
    pub fn overwrite_push(&mut self, state: T) -> (r: Result<(), StateError>)
        requires
            old(self).inv(),
        ensures
            final(self).inv(),
            state == old(self)@.stack.last() ==> r == Err::<(), StateError>(
                StateError::AlreadyInState,
            ) && final(self)@ == old(self)@,
            state != old(self)@.stack.last() ==> r == Ok::<(), StateError>(()) && final(self)@
                == (StateModel {
                scheduled: Some(ScheduledOperation::Push(state)),
                ..old(self)@
            }),
    {
        proof {
            T::eq_obeys();
        }
        if self.stack[self.stack.len() - 1] == state {
            return Err(StateError::AlreadyInState);
        }
        self.scheduled = Some(ScheduledOperation::Push(state));
        Ok(())
    }

    /// Schedule a pop, unpausing the state below the current one.  Fails
    /// with [`StateError::StackEmpty`] on a single-element stack — always,
    /// whatever else is staged — and with
    /// [`StateError::StateAlreadyQueued`] if an operation is already
    /// staged; a failed call never mutates the stack.
    pub fn pop(&mut self) -> (r: Result<(), StateError>)
        requires
            old(self).inv(),
        ensures
            final(self).inv(),
            old(self)@.stack.len() == 1 ==> r == Err::<(), StateError>(StateError::StackEmpty)
                && final(self)@ == old(self)@,
            old(self)@.stack.len() > 1 && old(self)@.scheduled is Some ==> r == Err::<
                (),
                StateError,
            >(StateError::StateAlreadyQueued) && final(self)@ == old(self)@,
            old(self)@.stack.len() > 1 && old(self)@.scheduled is None ==> r == Ok::<
                (),
                StateError,
            >(()) && final(self)@ == (StateModel {
                scheduled: Some(ScheduledOperation::Pop),
                ..old(self)@
            }),
    {
        if self.stack.len() == 1 {
            return Err(StateError::StackEmpty);
        }
        if self.scheduled.is_some() {
            return Err(StateError::StateAlreadyQueued);
        }
        self.scheduled = Some(ScheduledOperation::Pop);
        Ok(())
    }

    /// Same as [`State::pop`], but an already staged operation is
    /// overwritten instead of failing.
    pub fn overwrite_pop(&mut self) -> (r: Result<(), StateError>)
        requires
            old(self).inv(),
        ensures
            final(self).inv(),
            old(self)@.stack.len() == 1 ==> r == Err::<(), StateError>(StateError::StackEmpty)
                && final(self)@ == old(self)@,
            old(self)@.stack.len() > 1 ==> r == Ok::<(), StateError>(()) && final(self)@
                == (StateModel { scheduled: Some(ScheduledOperation::Pop), ..old(self)@ }),
    {
        if self.stack.len() == 1 {
            return Err(StateError::StackEmpty);
        }
        self.scheduled = Some(ScheduledOperation::Pop);
        Ok(())
    }

    /// The pending transition, if any, as observed by the run criteria.
    pub fn transition(&self) -> (r: Option<StateTransition<T>>)
        ensures
            r == self@.transition,
    {
        self.transition
    }

    /// The staged operation, if any.
    pub fn scheduled(&self) -> (r: Option<ScheduledOperation<T>>)
        ensures
            r == self@.scheduled,
    {
        self.scheduled
    }

    /// Whether the driver has announced the final pass of the settle loop.
    pub fn end_next_loop(&self) -> (r: bool)
        ensures
            r == self@.end_next_loop,
    {
        self.end_next_loop
    }
}

/// The outer scheduler's three-valued run decision: whether the nodes
/// guarded by a criterion run this pass, and whether the criterion must be
/// evaluated again before the pass can settle.
#[derive(Clone, Copy, PartialEq, Eq, Structural, Debug)]
pub enum ShouldRun {
    Yes,
    No,
    YesAndCheckAgain,
    NoAndCheckAgain,
}

/// What one driver invocation produces: the machine afterwards, the
/// driver's persistent `prep_exit` flag afterwards, and its run decision.
#[verifier::ext_equal]
pub ghost struct CleanerStep<T: StateData> {
    pub state: StateModel<T>,
    pub prep: bool,
    pub decision: ShouldRun,
}

/// Consuming the staged operation, or — with nothing staged — advancing
/// the pending transition one phase and committing that phase's stack
/// mutation.
pub open spec fn apply_scheduled<T: StateData>(m: StateModel<T>) -> StateModel<T> {
    match m.scheduled {
        Some(ScheduledOperation::SetTo(next)) => StateModel {
            scheduled: None,
            transition: Some(StateTransition::ExitingFull(m.stack.last(), next)),
            ..m
        },
        Some(ScheduledOperation::Replace(next)) => {
            if m.stack.len() <= 1 {
                StateModel {
                    scheduled: None,
                    transition: Some(StateTransition::ExitingFull(m.stack.last(), next)),
                    ..m
                }
            } else {
                match m.transition {
                    Some(StateTransition::ExitingToResume(p, n)) => StateModel {
                        scheduled: Some(ScheduledOperation::Replace(next)),
                        stack: m.stack.drop_last(),
                        transition: Some(StateTransition::Resuming(p, n)),
                        ..m
                    },
                    _ => StateModel {
                        scheduled: Some(ScheduledOperation::Replace(next)),
                        transition: Some(
                            StateTransition::ExitingToResume(
                                m.stack[m.stack.len() - 1],
                                m.stack[m.stack.len() - 2],
                            ),
                        ),
                        ..m
                    },
                }
            }
        },
        Some(ScheduledOperation::Push(next)) => StateModel {
            scheduled: None,
            transition: Some(StateTransition::Pausing(m.stack.last(), next)),
            ..m
        },
        Some(ScheduledOperation::Pop) => StateModel {
            scheduled: None,
            transition: Some(
                StateTransition::ExitingToResume(
                    m.stack[m.stack.len() - 1],
                    m.stack[m.stack.len() - 2],
                ),
            ),
            ..m
        },
        None => match m.transition {
            Some(StateTransition::ExitingFull(p, n)) => StateModel {
                transition: Some(StateTransition::Entering(p, n)),
                stack: m.stack.update(m.stack.len() - 1, n),
                ..m
            },
            Some(StateTransition::Pausing(p, n)) => StateModel {
                transition: Some(StateTransition::Entering(p, n)),
                stack: m.stack.push(n),
                ..m
            },
            Some(StateTransition::ExitingToResume(p, n)) => StateModel {
                stack: m.stack.drop_last(),
                transition: Some(StateTransition::Resuming(p, n)),
                ..m
            },
            Some(StateTransition::PreStartup) => StateModel {
                transition: Some(StateTransition::Startup),
                ..m
            },
            _ => StateModel { transition: None, ..m },
        },
    }
}

/// One invocation of the driver [`state_cleaner`], as a function of the
/// machine and the driver's persistent flag.
///
/// The two flags implement the two-phase quiescence bookkeeping: once a
/// pass ends with no transition and nothing staged, `prep` is armed; the
/// next pass (still with nothing staged) sets `end_next_loop` so every
/// criterion observes the settled machine once more; the pass after that
/// clears the flag and reports `No`, ending the settle loop.
pub open spec fn cleaner_step<T: StateData>(m: StateModel<T>, prep: bool) -> CleanerStep<T> {
    if prep && m.scheduled is None {
        CleanerStep {
            state: StateModel { end_next_loop: true, ..m },
            prep: false,
            decision: ShouldRun::YesAndCheckAgain,
        }
    } else if !prep && m.end_next_loop {
        CleanerStep {
            state: StateModel { end_next_loop: false, ..m },
            prep: false,
            decision: ShouldRun::No,
        }
    } else {
        let next = apply_scheduled(m);
        CleanerStep {
            state: next,
            prep: next.transition is None,
            decision: ShouldRun::YesAndCheckAgain,
        }
    }
}

/// The driver preserves validity of the machine.
pub proof fn lemma_cleaner_step_preserves_inv<T: StateData>(m: StateModel<T>, prep: bool)
    requires
        model_inv(m),
    ensures
        model_inv(cleaner_step(m, prep).state),
{
}

/// The driver node: advances the machine one step and reports whether the
/// outer scheduler must invoke it again within the same pass.  It must be
/// ordered before every criterion that depends on this state type, and
/// `prep_exit` is its own persistent flag, initially `false`.
pub fn state_cleaner<T: StateData>(state: &mut State<T>, prep_exit: &mut bool) -> (r: ShouldRun)
    requires
        old(state).inv(),
    ensures
        final(state).inv(),
        ({
            let step = cleaner_step(old(state)@, *old(prep_exit));
            &&& final(state)@ == step.state
            &&& *final(prep_exit) == step.prep
            &&& r == step.decision
        }),
{
    proof {
        lemma_cleaner_step_preserves_inv(old(state)@, *old(prep_exit));
    }
    if *prep_exit {
        *prep_exit = false;
        if state.scheduled.is_none() {
            state.end_next_loop = true;
            proof {
                assert(state@ =~= cleaner_step(old(state)@, *old(prep_exit)).state);
            }
            return ShouldRun::YesAndCheckAgain;
        }
    } else if state.end_next_loop {
        state.end_next_loop = false;
        proof {
            assert(state@ =~= cleaner_step(old(state)@, *old(prep_exit)).state);
        }
        return ShouldRun::No;
    }
    let scheduled = state.scheduled;
    state.scheduled = None;
    match scheduled {
        Some(ScheduledOperation::SetTo(next)) => {
            let last: usize = state.stack.len() - 1;
            state.transition = Some(StateTransition::ExitingFull(state.stack[last], next));
        },
        Some(ScheduledOperation::Replace(next)) => {
            if state.stack.len() <= 1 {
                let last: usize = state.stack.len() - 1;
                state.transition = Some(StateTransition::ExitingFull(state.stack[last], next));
            } else {
                state.scheduled = Some(ScheduledOperation::Replace(next));
                let transition = state.transition;
                state.transition = None;
                match transition {
                    Some(StateTransition::ExitingToResume(p, n)) => {
                        let _popped = state.stack.pop();
                        state.transition = Some(StateTransition::Resuming(p, n));
                    },
                    _ => {
                        let len: usize = state.stack.len();
                        state.transition = Some(
                            StateTransition::ExitingToResume(
                                state.stack[len - 1],
                                state.stack[len - 2],
                            ),
                        );
                    },
                }
            }
        },
        Some(ScheduledOperation::Push(next)) => {
            let last: usize = state.stack.len() - 1;
            state.transition = Some(StateTransition::Pausing(state.stack[last], next));
        },
        Some(ScheduledOperation::Pop) => {
            let len: usize = state.stack.len();
            state.transition = Some(
                StateTransition::ExitingToResume(state.stack[len - 1], state.stack[len - 2]),
            );
        },
        None => {
            let transition = state.transition;
            state.transition = None;
            match transition {
                Some(StateTransition::ExitingFull(p, n)) => {
                    state.transition = Some(StateTransition::Entering(p, n));
                    let last: usize = state.stack.len() - 1;
                    state.stack[last] = n;
                },
                Some(StateTransition::Pausing(p, n)) => {
                    state.transition = Some(StateTransition::Entering(p, n));
                    state.stack.push(n);
                },
                Some(StateTransition::ExitingToResume(p, n)) => {
                    let _popped = state.stack.pop();
                    state.transition = Some(StateTransition::Resuming(p, n));
                },
                Some(StateTransition::PreStartup) => {
                    state.transition = Some(StateTransition::Startup);
                },
                _ => {},
            }
        },
    }
    if state.transition.is_none() {
        *prep_exit = true;
    }
    proof {
        assert(state@ =~= cleaner_step(old(state)@, *old(prep_exit)).state);
    }
    ShouldRun::YesAndCheckAgain
}

/// The callback kind a run criterion listens for.
#[derive(Clone, Copy, PartialEq, Eq, Structural, Debug, Hash)]
pub enum StateCallback {
    Update,
    InactiveUpdate,
    InStackUpdate,
    Enter,
    Exit,
    Pause,
    Resume,
}

/// Label of a state-bound criterion node: registrations with an equal
/// `(state, kind)` pair collapse to a single scheduler node.
#[derive(Clone, Copy, PartialEq, Eq, Debug)]
pub struct StateRunCriteriaLabel<T: StateData>(pub T, pub StateCallback);

impl StateCallback {
    /// The node label for this callback kind bound to a state value.
    pub fn into_label<T: StateData>(self, state: T) -> (r: StateRunCriteriaLabel<T>)
        ensures
            r == (StateRunCriteriaLabel(state, self)),
    {
        StateRunCriteriaLabel(state, self)
    }
}

/// Label of the driver node for one state type; criteria order themselves
/// after it so they observe the pass's transition.  The type parameter
/// keeps the driver labels of different state types distinct.
#[derive(PartialEq, Eq, Debug)]
pub struct DriverLabel<T: StateData>(pub core::marker::PhantomData<T>);

impl<T: StateData> DriverLabel<T> {
    /// The driver label for the given state type.
    pub fn of() -> (r: DriverLabel<T>)
        ensures
            r == (DriverLabel::<T>(core::marker::PhantomData)),
    {
        DriverLabel(core::marker::PhantomData)
    }
}

/// A run-criterion node bound to one state value: the bound value, the
/// callback kind, and the persistent toggle the two membership-tracking
/// kinds maintain across passes.
#[derive(Clone, Copy, PartialEq, Eq, Debug)]
pub struct StateRunCriteria<T: StateData> {
    pub pred: T,
    pub kind: StateCallback,
    pub toggle: bool,
}

/// The raw verdict a criterion computes from the machine before the
/// quiescence adapter turns it into a run decision.
pub open spec fn criteria_verdict<T: StateData>(
    m: StateModel<T>,
    kind: StateCallback,
    pred: T,
    toggle: bool,
) -> bool {
    match kind {
        StateCallback::Update => m.transition is None && m.stack.last() == pred,
        StateCallback::InactiveUpdate => m.transition is None && toggle,
        StateCallback::InStackUpdate => m.transition is None && toggle,
        StateCallback::Enter => match m.transition {
            Some(StateTransition::Entering(_, entering)) => entering == pred,
            Some(StateTransition::Startup) => m.stack.last() == pred,
            _ => false,
        },
        StateCallback::Exit => match m.transition {
            Some(StateTransition::ExitingToResume(exiting, _)) => exiting == pred,
            Some(StateTransition::ExitingFull(exiting, _)) => exiting == pred,
            _ => false,
        },
        StateCallback::Pause => match m.transition {
            Some(StateTransition::Pausing(pausing, _)) => pausing == pred,
            _ => false,
        },
        StateCallback::Resume => match m.transition {
            Some(StateTransition::Resuming(_, resuming)) => resuming == pred,
            _ => false,
        },
    }
}

/// The persistent toggle after a pass: the two membership-tracking kinds
/// flip it on the transition phases relevant to their bound state and read
/// it on settled passes; all other kinds never touch it.
///
/// The paused-membership kind flips on `Pausing` (the leaving state is
/// paused) and `Resuming` (the entering state is unpaused).  The
/// on-the-stack kind flips on the phase that announces a stack change:
/// `Pausing` adds its entering state, `ExitingToResume` removes its
/// leaving state, `ExitingFull` swaps its leaving state for its entering
/// one (the two flips cancel when both match), and `Startup` admits the
/// initial state.  See [`in_stack_toggle_tracks`] for the membership law
/// this maintains.
pub open spec fn criteria_toggle_after<T: StateData>(
    m: StateModel<T>,
    kind: StateCallback,
    pred: T,
    toggle: bool,
) -> bool {
    match kind {
        StateCallback::InactiveUpdate => match m.transition {
            Some(StateTransition::Pausing(relevant, _)) => if relevant == pred {
                !toggle
            } else {
                toggle
            },
            Some(StateTransition::Resuming(_, relevant)) => if relevant == pred {
                !toggle
            } else {
                toggle
            },
            _ => toggle,
        },
        StateCallback::InStackUpdate => match m.transition {
            Some(StateTransition::Pausing(_, entering)) => if entering == pred {
                !toggle
            } else {
                toggle
            },
            Some(StateTransition::ExitingToResume(leaving, _)) => if leaving == pred {
                !toggle
            } else {
                toggle
            },
            Some(StateTransition::ExitingFull(leaving, entering)) => if leaving == pred
                && entering == pred {
                toggle
            } else if leaving == pred || entering == pred {
                !toggle
            } else {
                toggle
            },
            Some(StateTransition::Startup) => if m.stack.last() == pred {
                !toggle
            } else {
                toggle
            },
            _ => toggle,
        },
        _ => toggle,
    }
}

/// No state value occurs twice in the sequence.  A single toggle can only
/// track membership of a duplicate-free stack.
pub open spec fn distinct_seq<T>(s: Seq<T>) -> bool {
    forall|i: int, j: int| 0 <= i < j < s.len() ==> s[i] != s[j]
}

/// A staged operation meets only a transition phase the driver can honour:
/// a phase whose stack change is already committed, nothing at all, or —
/// for the re-staged `Replace` — the `ExitingToResume` phase of its own
/// unwind.  Consuming an operation over an uncommitted `Pausing`,
/// `ExitingFull` or foreign `ExitingToResume` phase discards that phase's
/// announced stack change, and a listener that flipped on the
/// announcement is left out of step.
pub open spec fn staging_clean<T: StateData>(m: StateModel<T>) -> bool {
    m.scheduled is Some ==> match m.transition {
        None => true,
        Some(StateTransition::Entering(_, _)) => true,
        Some(StateTransition::Resuming(_, _)) => true,
        Some(StateTransition::Startup) => true,
        Some(StateTransition::ExitingToResume(_, _)) => m.scheduled matches Some(
            ScheduledOperation::Replace(_),
        ),
        _ => false,
    }
}

/// The staged operation's target state is not already on the part of the
/// stack that survives the operation.
pub open spec fn staged_target_fresh<T: StateData>(m: StateModel<T>) -> bool {
    match m.scheduled {
        Some(ScheduledOperation::Push(n)) => !m.stack.contains(n),
        Some(ScheduledOperation::SetTo(n)) => !m.stack.drop_last().contains(n),
        Some(ScheduledOperation::Replace(n)) => m.stack.len() <= 1 || !m.stack.drop_last()
            .contains(n),
        _ => true,
    }
}

/// What the in-stack toggle means at each point of a settle cycle: on a
/// settled pass it equals membership of the bound state in the stack, and
/// on a phase that announces a stack change it already reflects the stack
/// that change commits.  A criterion created together with its machine
/// starts with the toggle `false`, which satisfies this at `PreStartup`.
pub open spec fn in_stack_toggle_tracks<T: StateData>(
    m: StateModel<T>,
    pred: T,
    toggle: bool,
) -> bool {
    match m.transition {
        None => toggle == m.stack.contains(pred),
        Some(StateTransition::Pausing(_, entering)) => toggle == m.stack.push(entering).contains(
            pred,
        ),
        Some(StateTransition::ExitingToResume(_, _)) => toggle == m.stack.drop_last().contains(
            pred,
        ),
        Some(StateTransition::ExitingFull(_, entering)) => toggle == m.stack.update(
            m.stack.len() - 1,
            entering,
        ).contains(pred),
        Some(StateTransition::Entering(_, _)) => toggle == m.stack.contains(pred),
        Some(StateTransition::Resuming(_, _)) => toggle == m.stack.contains(pred),
        Some(StateTransition::Startup) => toggle == m.stack.contains(pred),
        Some(StateTransition::PreStartup) => !toggle,
    }
}

/// The in-stack toggle tracks stack membership: one driver pass followed
/// by the criterion observing the new machine preserves
/// [`in_stack_toggle_tracks`], provided the stack is duplicate-free, a
/// staged target is fresh, operations are staged only over phases the
/// driver honours, and the quiescence flags are only raised on a settled
/// machine.  In particular, on every settled pass the criterion's verdict
/// equals membership of its bound state in the stack.
pub proof fn lemma_in_stack_toggle_step<T: StateData>(
    m: StateModel<T>,
    prep: bool,
    pred: T,
    toggle: bool,
)
    requires
        model_inv(m),
        in_stack_toggle_tracks(m, pred, toggle),
        distinct_seq(m.stack),
        staging_clean(m),
        staged_target_fresh(m),
        prep ==> m.transition is None && m.scheduled is None,
        m.end_next_loop ==> m.transition is None,
        m.transition matches Some(StateTransition::PreStartup) ==> m.stack.len() == 1,
    ensures
        ({
            let next = cleaner_step(m, prep).state;
            in_stack_toggle_tracks(
                next,
                pred,
                criteria_toggle_after(next, StateCallback::InStackUpdate, pred, toggle),
            )
        }),
{
    if prep && m.scheduled is None {
    } else if !prep && m.end_next_loop {
    } else {
        let s = m.stack;
        match m.scheduled {
            Some(ScheduledOperation::SetTo(n)) => {
                lemma_swap_top_membership(s, n, pred);
                lemma_contains_last(s, n);
                lemma_contains_last(s, pred);
            },
            Some(ScheduledOperation::Replace(n)) => {
                if s.len() <= 1 {
                    lemma_swap_top_membership(s, n, pred);
                    lemma_contains_last(s, n);
                    lemma_contains_last(s, pred);
                } else if m.transition matches Some(StateTransition::ExitingToResume(_, _)) {
                } else {
                    lemma_drop_top_membership(s, pred);
                    lemma_contains_last(s, pred);
                }
            },
            Some(ScheduledOperation::Push(n)) => {
                assert(s.push(n).contains(pred) == (s.contains(pred) || n == pred)) by {
                    if s.push(n).contains(pred) {
                        let i = choose|i: int| 0 <= i < s.push(n).len() && s.push(n)[i] == pred;
                        if i < s.len() {
                            assert(s[i] == pred);
                        }
                    }
                    if s.contains(pred) {
                        let i = choose|i: int| 0 <= i < s.len() && s[i] == pred;
                        assert(s.push(n)[i] == pred);
                    }
                    if n == pred {
                        assert(s.push(n)[s.len() as int] == pred);
                    }
                }
            },
            Some(ScheduledOperation::Pop) => {
                lemma_drop_top_membership(s, pred);
                lemma_contains_last(s, pred);
            },
            None => {
                match m.transition {
                    Some(StateTransition::PreStartup) => {
                        assert(s.contains(pred) == (s[0] == pred)) by {
                            if s.contains(pred) {
                                let i = choose|i: int| 0 <= i < s.len() && s[i] == pred;
                                assert(i == 0);
                            }
                        }
                    },
                    _ => {},
                }
            },
        }
    }
}

/// Membership in a non-empty sequence splits into membership below the
/// last element and equality with it.
proof fn lemma_contains_last<T: StateData>(s: Seq<T>, x: T)
    requires
        s.len() >= 1,
    ensures
        s.contains(x) == (s.drop_last().contains(x) || s.last() == x),
{
    if s.contains(x) {
        let i = choose|i: int| 0 <= i < s.len() && s[i] == x;
        if i < s.len() - 1 {
            assert(s.drop_last()[i] == x);
        }
    }
    if s.drop_last().contains(x) {
        let i = choose|i: int| 0 <= i < s.drop_last().len() && s.drop_last()[i] == x;
        assert(s[i] == x);
    }
    if s.last() == x {
        assert(s[s.len() - 1] == x);
    }
}

/// Membership after replacing the top of a duplicate-free stack: the old
/// top is gone unless it equals the new one, everything below stays, and
/// the new top is there.
proof fn lemma_swap_top_membership<T: StateData>(s: Seq<T>, n: T, pred: T)
    requires
        s.len() >= 1,
        distinct_seq(s),
        !s.drop_last().contains(n),
    ensures
        ({
            let swapped = s.update(s.len() - 1, n);
            swapped.contains(pred) == if pred == n {
                true
            } else if pred == s.last() {
                false
            } else {
                s.contains(pred)
            }
        }),
{
    let swapped = s.update(s.len() - 1, n);
    let last = s.len() - 1;
    if swapped.contains(pred) {
        let i = choose|i: int| 0 <= i < swapped.len() && swapped[i] == pred;
        if i < last {
            assert(s[i] == pred);
            assert(s.drop_last()[i] == pred);
            assert(pred != s.last());
        }
    }
    if pred == n {
        assert(swapped[last] == pred);
    } else if pred != s.last() && s.contains(pred) {
        let i = choose|i: int| 0 <= i < s.len() && s[i] == pred;
        assert(i != last);
        assert(swapped[i] == pred);
    }
}

/// Membership after popping the top of a duplicate-free stack: only the
/// old top's membership is lost.
proof fn lemma_drop_top_membership<T: StateData>(s: Seq<T>, pred: T)
    requires
        s.len() >= 1,
        distinct_seq(s),
    ensures
        s.drop_last().contains(pred) == (s.contains(pred) && pred != s.last()),
{
    if s.drop_last().contains(pred) {
        let i = choose|i: int| 0 <= i < s.drop_last().len() && s.drop_last()[i] == pred;
        assert(s[i] == pred);
        assert(pred != s.last());
    }
    if s.contains(pred) && pred != s.last() {
        let i = choose|i: int| 0 <= i < s.len() && s[i] == pred;
        assert(i != s.len() - 1);
        assert(s.drop_last()[i] == pred);
    }
}

/// On a settled pass the in-stack criterion's verdict is exactly stack
/// membership of its bound state.
pub proof fn lemma_in_stack_settled_verdict<T: StateData>(m: StateModel<T>, pred: T, toggle: bool)
    requires
        m.transition is None,
        in_stack_toggle_tracks(m, pred, toggle),
    ensures
        criteria_verdict(m, StateCallback::InStackUpdate, pred, toggle) == m.stack.contains(pred),
{
}

/// What the inactive toggle means at each point of a settle cycle: on a
/// settled pass it equals membership of the bound state among the paused
/// states — everything below the top of the stack.  The `Pausing` phase,
/// which has already flipped the state about to be paused, reflects the
/// stack that its push commits.  A criterion created together with its
/// machine starts with the toggle `false`, which satisfies this at
/// `PreStartup`.
pub open spec fn inactive_toggle_tracks<T: StateData>(
    m: StateModel<T>,
    pred: T,
    toggle: bool,
) -> bool {
    match m.transition {
        Some(StateTransition::Pausing(_, _)) => toggle == m.stack.contains(pred),
        Some(StateTransition::PreStartup) => !toggle,
        _ => toggle == m.stack.drop_last().contains(pred),
    }
}

/// The inactive toggle tracks paused membership: one driver pass followed
/// by the criterion observing the new machine preserves
/// [`inactive_toggle_tracks`], under the same side conditions as the
/// in-stack law.  In particular, on every settled pass the criterion's
/// verdict equals membership of its bound state among the paused states.
pub proof fn lemma_inactive_toggle_step<T: StateData>(
    m: StateModel<T>,
    prep: bool,
    pred: T,
    toggle: bool,
)
    requires
        model_inv(m),
        inactive_toggle_tracks(m, pred, toggle),
        distinct_seq(m.stack),
        staging_clean(m),
        prep ==> m.transition is None && m.scheduled is None,
        m.end_next_loop ==> m.transition is None,
        m.transition matches Some(StateTransition::PreStartup) ==> m.stack.len() == 1,
        // the driver builds this phase from the two topmost frames
        m.transition matches Some(StateTransition::ExitingToResume(_, entering)) ==> entering
            == m.stack[m.stack.len() - 2],
    ensures
        ({
            let next = cleaner_step(m, prep).state;
            inactive_toggle_tracks(
                next,
                pred,
                criteria_toggle_after(next, StateCallback::InactiveUpdate, pred, toggle),
            )
        }),
{
    if prep && m.scheduled is None {
    } else if !prep && m.end_next_loop {
    } else {
        let s = m.stack;
        match m.scheduled {
            Some(ScheduledOperation::Push(_)) => {
                lemma_contains_last(s, pred);
                if pred == s.last() {
                    assert(!s.drop_last().contains(pred)) by {
                        if s.drop_last().contains(pred) {
                            let i = choose|i: int|
                                0 <= i < s.drop_last().len() && s.drop_last()[i] == pred;
                            assert(s[i] == pred);
                        }
                    }
                }
            },
            Some(ScheduledOperation::Replace(_)) => {
                if s.len() > 1 && m.transition matches Some(
                    StateTransition::ExitingToResume(_, _),
                ) {
                    lemma_resume_flip_membership(s, pred);
                }
            },
            None => {
                match m.transition {
                    Some(StateTransition::Pausing(_, n)) => {
                        assert(s.push(n).drop_last() =~= s);
                    },
                    Some(StateTransition::ExitingFull(_, n)) => {
                        assert(s.update(s.len() - 1, n).drop_last() =~= s.drop_last());
                    },
                    Some(StateTransition::ExitingToResume(_, _)) => {
                        lemma_resume_flip_membership(s, pred);
                    },
                    _ => {},
                }
            },
            _ => {},
        }
    }
}

/// Popping the top and flipping the newly exposed top turns old paused
/// membership into new paused membership, on a duplicate-free stack.
proof fn lemma_resume_flip_membership<T: StateData>(s: Seq<T>, pred: T)
    requires
        s.len() >= 2,
        distinct_seq(s),
    ensures
        ({
            let rest = s.drop_last();
            (if rest.last() == pred {
                !rest.contains(pred)
            } else {
                rest.contains(pred)
            }) == rest.drop_last().contains(pred)
        }),
{
    let rest = s.drop_last();
    assert(distinct_seq(rest)) by {
        assert(forall|i: int, j: int|
            0 <= i < j < rest.len() ==> rest[i] == s[i] && rest[j] == s[j]);
    }
    lemma_contains_last(rest, pred);
    if rest.last() == pred {
        assert(rest[rest.len() - 1] == pred);
        assert(rest.contains(pred));
        if rest.drop_last().contains(pred) {
            let i = choose|i: int|
                0 <= i < rest.drop_last().len() && rest.drop_last()[i] == pred;
            assert(rest[i] == pred);
        }
    }
}

/// On a settled pass the inactive criterion's verdict is exactly paused
/// membership of its bound state.
pub proof fn lemma_inactive_settled_verdict<T: StateData>(m: StateModel<T>, pred: T, toggle: bool)
    requires
        m.transition is None,
        inactive_toggle_tracks(m, pred, toggle),
    ensures
        criteria_verdict(m, StateCallback::InactiveUpdate, pred, toggle) == m.stack.drop_last()
            .contains(pred),
{
}

/// The quiescence adapter: once the driver has set `end_next_loop` every
/// criterion is suppressed; otherwise the verdict runs or skips the
/// guarded nodes, in both cases asking to be checked again because the
/// machine may still be mid-transition.
pub open spec fn should_run_decision<T: StateData>(m: StateModel<T>, verdict: bool) -> ShouldRun {
    if m.end_next_loop {
        ShouldRun::No
    } else if verdict {
        ShouldRun::YesAndCheckAgain
    } else {
        ShouldRun::NoAndCheckAgain
    }
}

/// The decision a criterion reports for a pass.
pub open spec fn criteria_decision<T: StateData>(
    m: StateModel<T>,
    kind: StateCallback,
    pred: T,
    toggle: bool,
) -> ShouldRun {
    should_run_decision(m, criteria_verdict(m, kind, pred, toggle))
}

/// Turn a criterion's boolean verdict into the scheduler's decision,
/// honouring the machine's quiescence flag.
pub fn should_run_adapter<T: StateData>(cmp_result: bool, state: &State<T>) -> (r: ShouldRun)
    ensures
        r == should_run_decision(state@, cmp_result),
{
    if state.end_next_loop {
        return ShouldRun::No;
    }
    if cmp_result {
        ShouldRun::YesAndCheckAgain
    } else {
        ShouldRun::NoAndCheckAgain
    }
}

impl<T: StateData> StateRunCriteria<T> {
    /// Evaluate the criterion against the machine for this pass.  Must run
    /// after the driver node of the same state type, so it observes the
    /// pass's transition.
    pub fn run(&mut self, state: &State<T>) -> (r: ShouldRun)
        requires
            state.inv(),
        ensures
            final(self).pred == old(self).pred,
            final(self).kind == old(self).kind,
            final(self).toggle == criteria_toggle_after(
                state@,
                old(self).kind,
                old(self).pred,
                old(self).toggle,
            ),
            r == criteria_decision(state@, old(self).kind, old(self).pred, old(self).toggle),
    {
        proof {
            T::eq_obeys();
        }
        let verdict: bool = match self.kind {
            StateCallback::Update => {
                state.transition.is_none() && state.stack[state.stack.len() - 1] == self.pred
            },
            StateCallback::InactiveUpdate => {
                match state.transition {
                    Some(StateTransition::Pausing(relevant, _))
                    | Some(StateTransition::Resuming(_, relevant)) => {
                        if relevant == self.pred {
                            self.toggle = !self.toggle;
                        }
                        false
                    },
                    Some(_) => false,
                    None => self.toggle,
                }
            },
            StateCallback::InStackUpdate => {
                match state.transition {
                    Some(StateTransition::Pausing(_, entering)) => {
                        if entering == self.pred {
                            self.toggle = !self.toggle;
                        }
                        false
                    },
                    Some(StateTransition::ExitingToResume(leaving, _)) => {
                        if leaving == self.pred {
                            self.toggle = !self.toggle;
                        }
                        false
                    },
                    Some(StateTransition::ExitingFull(leaving, entering)) => {
                        if leaving == self.pred {
                            self.toggle = !self.toggle;
                        }
                        if entering == self.pred {
                            self.toggle = !self.toggle;
                        }
                        false
                    },
                    Some(StateTransition::Startup) => {
                        if state.stack[state.stack.len() - 1] == self.pred {
                            self.toggle = !self.toggle;
                        }
                        false
                    },
                    Some(_) => false,
                    None => self.toggle,
                }
            },
            StateCallback::Enter => {
                match state.transition {
                    Some(StateTransition::Entering(_, entering)) => entering == self.pred,
                    Some(StateTransition::Startup) => {
                        state.stack[state.stack.len() - 1] == self.pred
                    },
                    _ => false,
                }
            },
            StateCallback::Exit => {
                match state.transition {
                    Some(StateTransition::ExitingToResume(exiting, _))
                    | Some(StateTransition::ExitingFull(exiting, _)) => exiting == self.pred,
                    _ => false,
                }
            },
            StateCallback::Pause => {
                match state.transition {
                    Some(StateTransition::Pausing(pausing, _)) => pausing == self.pred,
                    _ => false,
                }
            },
            StateCallback::Resume => {
                match state.transition {
                    Some(StateTransition::Resuming(_, resuming)) => resuming == self.pred,
                    _ => false,
                }
            },
        };
        should_run_adapter(verdict, state)
    }

    /// The node label under which equal registrations collapse.
    pub fn label(&self) -> (r: StateRunCriteriaLabel<T>)
        ensures
            r == (StateRunCriteriaLabel(self.pred, self.kind)),
    {
        self.kind.into_label(self.pred)
    }
}

/// What a [`SystemSet`]'s run criterion is: the driver node itself, or a
/// criterion bound to one state value.
#[derive(Clone, Copy, PartialEq, Eq, Debug)]
pub enum SystemSetCriteria<T: StateData> {
    Driver,
    Callback(StateRunCriteria<T>),
}

/// A group of systems gated by one run criterion, as handed to the outer
/// scheduler.
#[derive(Clone, Copy, PartialEq, Eq, Debug)]
pub struct SystemSet<T: StateData> {
    pub criteria: SystemSetCriteria<T>,
}

impl<T: StateData> SystemSet<T> {
    /// Evaluate this set's criterion for a pass: the driver advances the
    /// machine, a callback criterion only observes it.
    pub fn run(&mut self, state: &mut State<T>, prep_exit: &mut bool) -> (r: ShouldRun)
        requires
            old(state).inv(),
        ensures
            final(state).inv(),
            old(self).criteria is Driver ==> ({
                let step = cleaner_step(old(state)@, *old(prep_exit));
                &&& final(state)@ == step.state
                &&& *final(prep_exit) == step.prep
                &&& r == step.decision
                &&& *final(self) == *old(self)
            }),
            old(self).criteria matches SystemSetCriteria::Callback(c) ==> ({
                &&& final(state)@ == old(state)@
                &&& *final(prep_exit) == *old(prep_exit)
                &&& r == criteria_decision(old(state)@, c.kind, c.pred, c.toggle)
                &&& final(self).criteria == (SystemSetCriteria::Callback(
                    StateRunCriteria {
                        toggle: criteria_toggle_after(old(state)@, c.kind, c.pred, c.toggle),
                        ..c
                    },
                ))
            }),
    {
        match &mut self.criteria {
            SystemSetCriteria::Driver => state_cleaner(state, prep_exit),
            SystemSetCriteria::Callback(criteria) => criteria.run(state),
        }
    }
}

impl<T: StateData> State<T> {
    /// A criterion that runs its systems on every settled pass in which the
    /// bound state is active.
    pub fn on_update(s: T) -> (r: StateRunCriteria<T>)
        ensures
            r == (StateRunCriteria {
                pred: s,
                kind: StateCallback::Update,
                toggle: false,
            }),
    {
        StateRunCriteria { pred: s, kind: StateCallback::Update, toggle: false }
    }

    /// A criterion that runs its systems on every settled pass in which the
    /// bound state is paused somewhere below the top of the stack.
    pub fn on_inactive_update(s: T) -> (r: StateRunCriteria<T>)
        ensures
            r == (StateRunCriteria {
                pred: s,
                kind: StateCallback::InactiveUpdate,
                toggle: false,
            }),
    {
        StateRunCriteria { pred: s, kind: StateCallback::InactiveUpdate, toggle: false }
    }

    /// A criterion that runs its systems on every settled pass in which the
    /// bound state is anywhere on the stack, active or paused.
    pub fn on_in_stack_update(s: T) -> (r: StateRunCriteria<T>)
        ensures
            r == (StateRunCriteria {
                pred: s,
                kind: StateCallback::InStackUpdate,
                toggle: false,
            }),
    {
        StateRunCriteria { pred: s, kind: StateCallback::InStackUpdate, toggle: false }
    }

    /// A criterion that runs its systems on the pass in which the bound
    /// state is entered, including the startup pass of the initial state.
    pub fn on_enter(s: T) -> (r: StateRunCriteria<T>)
        ensures
            r == (StateRunCriteria {
                pred: s,
                kind: StateCallback::Enter,
                toggle: false,
            }),
    {
        StateRunCriteria { pred: s, kind: StateCallback::Enter, toggle: false }
    }

    /// A criterion that runs its systems on the pass in which the bound
    /// state is exited.
    pub fn on_exit(s: T) -> (r: StateRunCriteria<T>)
        ensures
            r == (StateRunCriteria {
                pred: s,
                kind: StateCallback::Exit,
                toggle: false,
            }),
    {
        StateRunCriteria { pred: s, kind: StateCallback::Exit, toggle: false }
    }

    /// A criterion that runs its systems on the pass in which the bound
    /// state is paused by a push.
    pub fn on_pause(s: T) -> (r: StateRunCriteria<T>)
        ensures
            r == (StateRunCriteria {
                pred: s,
                kind: StateCallback::Pause,
                toggle: false,
            }),
    {
        StateRunCriteria { pred: s, kind: StateCallback::Pause, toggle: false }
    }

    /// A criterion that runs its systems on the pass in which the bound
    /// state is resumed by a pop.
    pub fn on_resume(s: T) -> (r: StateRunCriteria<T>)
        ensures
            r == (StateRunCriteria {
                pred: s,
                kind: StateCallback::Resume,
                toggle: false,
            }),
    {
        StateRunCriteria { pred: s, kind: StateCallback::Resume, toggle: false }
    }

    /// A system set gated by [`State::on_update`].
    pub fn on_update_set(s: T) -> (r: SystemSet<T>)
        ensures
            r.criteria == (SystemSetCriteria::Callback(
                StateRunCriteria { pred: s, kind: StateCallback::Update, toggle: false },
            )),
    {
        SystemSet { criteria: SystemSetCriteria::Callback(Self::on_update(s)) }
    }

    /// A system set gated by [`State::on_inactive_update`].
    pub fn on_inactive_update_set(s: T) -> (r: SystemSet<T>)
        ensures
            r.criteria == (SystemSetCriteria::Callback(
                StateRunCriteria { pred: s, kind: StateCallback::InactiveUpdate, toggle: false },
            )),
    {
        SystemSet { criteria: SystemSetCriteria::Callback(Self::on_inactive_update(s)) }
    }

    /// A system set gated by [`State::on_enter`].
    pub fn on_enter_set(s: T) -> (r: SystemSet<T>)
        ensures
            r.criteria == (SystemSetCriteria::Callback(
                StateRunCriteria { pred: s, kind: StateCallback::Enter, toggle: false },
            )),
    {
        SystemSet { criteria: SystemSetCriteria::Callback(Self::on_enter(s)) }
    }

    /// A system set gated by [`State::on_exit`].
    pub fn on_exit_set(s: T) -> (r: SystemSet<T>)
        ensures
            r.criteria == (SystemSetCriteria::Callback(
                StateRunCriteria { pred: s, kind: StateCallback::Exit, toggle: false },
            )),
    {
        SystemSet { criteria: SystemSetCriteria::Callback(Self::on_exit(s)) }
    }

    /// A system set gated by [`State::on_pause`].
    pub fn on_pause_set(s: T) -> (r: SystemSet<T>)
        ensures
            r.criteria == (SystemSetCriteria::Callback(
                StateRunCriteria { pred: s, kind: StateCallback::Pause, toggle: false },
            )),
    {
        SystemSet { criteria: SystemSetCriteria::Callback(Self::on_pause(s)) }
    }

    /// A system set gated by [`State::on_resume`].
    pub fn on_resume_set(s: T) -> (r: SystemSet<T>)
        ensures
            r.criteria == (SystemSetCriteria::Callback(
                StateRunCriteria { pred: s, kind: StateCallback::Resume, toggle: false },
            )),
    {
        SystemSet { criteria: SystemSetCriteria::Callback(Self::on_resume(s)) }
    }

    /// The driver set for this state type.  It must be inserted before all
    /// other state-dependent sets to work properly.
    pub fn get_driver() -> (r: SystemSet<T>)
        ensures
            r.criteria is Driver,
    {
        SystemSet { criteria: SystemSetCriteria::Driver }
    }
}

/// A settled machine: nothing pending, nothing staged, no quiescence flag.
pub open spec fn settled<T: StateData>(m: StateModel<T>) -> bool {
    &&& m.transition is None
    &&& m.scheduled is None
    &&& !m.end_next_loop
}

/// Driver passes needed to unwind a stack of `len` frames under a staged
/// `Replace`: the driver alternates staging an `ExitingToResume` phase and
/// committing its pop until one frame remains, then spends three passes on
/// the final `ExitingFull`/`Entering`/`None` chain.
pub open spec fn unwind_steps(len: nat, mid_exit: bool) -> nat
    decreases len, (if mid_exit {
        0nat
    } else {
        1nat
    }),
{
    if len <= 1 {
        3
    } else if mid_exit {
        1 + unwind_steps((len - 1) as nat, false)
    } else {
        1 + unwind_steps(len, true)
    }
}

/// Driver passes needed until the pending transition has been cleared:
/// first the staged operation is consumed, then the transition chain it
/// began is walked to its end.
pub open spec fn apply_steps<T: StateData>(m: StateModel<T>) -> nat {
    match m.scheduled {
        Some(ScheduledOperation::Replace(_)) => unwind_steps(
            m.stack.len(),
            m.transition matches Some(StateTransition::ExitingToResume(_, _)),
        ),
        Some(_) => 3,
        None => match m.transition {
            None => 1,
            Some(StateTransition::Entering(_, _)) => 1,
            Some(StateTransition::Resuming(_, _)) => 1,
            Some(StateTransition::Startup) => 1,
            Some(_) => 2,
        },
    }
}

/// An upper bound on the driver passes left before the driver reports
/// `No`: the settle loop's termination measure.
pub open spec fn settle_measure<T: StateData>(m: StateModel<T>, prep: bool) -> nat {
    if !prep && m.end_next_loop {
        1
    } else if prep && m.scheduled is None {
        2
    } else {
        apply_steps(m) + 2
    }
}

/// The driver, left alone, reports `No` within `fuel` passes.
pub open spec fn quiesces<T: StateData>(m: StateModel<T>, prep: bool, fuel: nat) -> bool
    decreases fuel,
{
    let step = cleaner_step(m, prep);
    step.decision == ShouldRun::No || (fuel > 0 && quiesces(step.state, step.prep, (fuel - 1) as nat))
}

proof fn lemma_quiesces_mono<T: StateData>(m: StateModel<T>, prep: bool, f1: nat, f2: nat)
    requires
        quiesces(m, prep, f1),
        f1 <= f2,
    ensures
        quiesces(m, prep, f2),
    decreases f1,
{
    let step = cleaner_step(m, prep);
    if step.decision != ShouldRun::No {
        lemma_quiesces_mono(step.state, step.prep, (f1 - 1) as nat, (f2 - 1) as nat);
    }
}

/// Every driver pass that does not yet report `No` strictly decreases the
/// settle measure.
pub proof fn lemma_cleaner_step_decreases_measure<T: StateData>(m: StateModel<T>, prep: bool)
    requires
        model_inv(m),
        cleaner_step(m, prep).decision != ShouldRun::No,
    ensures
        settle_measure(cleaner_step(m, prep).state, cleaner_step(m, prep).prep) < settle_measure(
            m,
            prep,
        ),
{
    let step = cleaner_step(m, prep);
    if prep && m.scheduled is None {
        assert(settle_measure(step.state, step.prep) == 1);
    } else {
        let next = apply_scheduled(m);
        if m.scheduled matches Some(ScheduledOperation::Replace(t)) {
            if m.stack.len() > 1 {
                if m.transition matches Some(StateTransition::ExitingToResume(_, _)) {
                    assert(unwind_steps(m.stack.len(), true) == 1 + unwind_steps(
                        (m.stack.len() - 1) as nat,
                        false,
                    ));
                    assert(apply_steps(next) == unwind_steps((m.stack.len() - 1) as nat, false));
                } else {
                    assert(unwind_steps(m.stack.len(), false) == 1 + unwind_steps(
                        m.stack.len(),
                        true,
                    ));
                    assert(apply_steps(next) == unwind_steps(m.stack.len(), true));
                }
            } else {
                assert(unwind_steps(m.stack.len(), m.transition matches Some(
                    StateTransition::ExitingToResume(_, _),
                )) == 3);
                assert(apply_steps(next) == 2);
            }
        }
        if next.transition is None {
            assert(step.prep);
            assert(next.scheduled is None);
            assert(settle_measure(step.state, step.prep) == 2);
            assert(apply_steps(m) >= 1);
        }
    }
}

/// The transition engine always settles: left alone, the driver reports
/// `No` within the settle measure's number of passes, whatever valid
/// machine it starts from.
pub proof fn lemma_engine_settles<T: StateData>(m: StateModel<T>, prep: bool)
    requires
        model_inv(m),
    ensures
        quiesces(m, prep, settle_measure(m, prep)),
    decreases settle_measure(m, prep),
{
    let step = cleaner_step(m, prep);
    if step.decision != ShouldRun::No {
        lemma_cleaner_step_decreases_measure(m, prep);
        lemma_cleaner_step_preserves_inv(m, prep);
        lemma_engine_settles(step.state, step.prep);
        lemma_quiesces_mono(
            step.state,
            step.prep,
            settle_measure(step.state, step.prep),
            (settle_measure(m, prep) - 1) as nat,
        );
    }
}

/// Iterating the driver for at most `fuel + 1` passes, stopping after the
/// pass that reports `No`: the machine and flag the settle loop leaves
/// behind.
pub open spec fn settle_iter<T: StateData>(m: StateModel<T>, prep: bool, fuel: nat) -> (
    StateModel<T>,
    bool,
)
    decreases fuel,
{
    let step = cleaner_step(m, prep);
    if step.decision == ShouldRun::No || fuel == 0 {
        (step.state, step.prep)
    } else {
        settle_iter(step.state, step.prep, (fuel - 1) as nat)
    }
}

/// Any fuel at least the settle measure gives the same iteration result:
/// with that much fuel, `settle_iter` is the loop's true fixed point.
pub proof fn lemma_settle_iter_fuel<T: StateData>(m: StateModel<T>, prep: bool, f1: nat, f2: nat)
    requires
        model_inv(m),
        f1 + 1 >= settle_measure(m, prep),
        f2 + 1 >= settle_measure(m, prep),
    ensures
        settle_iter(m, prep, f1) == settle_iter(m, prep, f2),
    decreases settle_measure(m, prep),
{
    let step = cleaner_step(m, prep);
    if step.decision != ShouldRun::No {
        lemma_cleaner_step_decreases_measure(m, prep);
        lemma_cleaner_step_preserves_inv(m, prep);
        lemma_settle_iter_fuel(step.state, step.prep, (f1 - 1) as nat, (f2 - 1) as nat);
    }
}

/// When the settle loop starts with both quiescence flags clear — the
/// resting shape between settle loops — it ends on a machine with no
/// pending transition and nothing staged.  More generally it suffices
/// that a raised flag only ever announces a settled machine.
pub proof fn lemma_settle_iter_clean<T: StateData>(m: StateModel<T>, prep: bool, fuel: nat)
    requires
        model_inv(m),
        prep ==> m.transition is None && m.scheduled is None,
        m.end_next_loop ==> m.transition is None && m.scheduled is None,
        fuel + 1 >= settle_measure(m, prep),
    ensures
        settle_iter(m, prep, fuel).0.transition is None,
        settle_iter(m, prep, fuel).0.scheduled is None,
        !settle_iter(m, prep, fuel).0.end_next_loop,
        !settle_iter(m, prep, fuel).1,
    decreases settle_measure(m, prep),
{
    let step = cleaner_step(m, prep);
    if step.decision != ShouldRun::No {
        lemma_cleaner_step_decreases_measure(m, prep);
        lemma_cleaner_step_preserves_inv(m, prep);
        lemma_settle_iter_clean(step.state, step.prep, (fuel - 1) as nat);
    }
}

/// The outer scheduler's private fixed-point loop: re-invoke the driver
/// synchronously until it reports that the machine has settled for this
/// pass.  The result is exactly the fixed point of iterating
/// [`cleaner_step`]; started with both flags clear, it leaves no pending
/// transition and nothing staged.
pub fn settle<T: StateData>(state: &mut State<T>, prep_exit: &mut bool)
    requires
        old(state).inv(),
    ensures
        final(state).inv(),
        !final(state)@.end_next_loop,
        !*final(prep_exit),
        (final(state)@, *final(prep_exit)) == settle_iter(
            old(state)@,
            *old(prep_exit),
            settle_measure(old(state)@, *old(prep_exit)),
        ),
        !*old(prep_exit) && !old(state)@.end_next_loop ==> final(state)@.transition is None
            && final(state)@.scheduled is None,
{
    let ghost m0 = old(state)@;
    let ghost p0 = *old(prep_exit);
    let ghost goal = settle_iter(m0, p0, settle_measure(m0, p0));
    proof {
        if !p0 && !m0.end_next_loop {
            lemma_settle_iter_clean(m0, p0, settle_measure(m0, p0));
        }
    }
    loop
        invariant_except_break
            state.inv(),
            settle_iter(state@, *prep_exit, settle_measure(state@, *prep_exit)) == goal,
        ensures
            state.inv(),
            !state@.end_next_loop,
            !*prep_exit,
            (state@, *prep_exit) == goal,
        decreases settle_measure(state@, *prep_exit),
    {
        proof {
            if cleaner_step(state@, *prep_exit).decision != ShouldRun::No {
                lemma_cleaner_step_decreases_measure(state@, *prep_exit);
                lemma_cleaner_step_preserves_inv(state@, *prep_exit);
                let next = cleaner_step(state@, *prep_exit);
                lemma_settle_iter_fuel(
                    next.state,
                    next.prep,
                    (settle_measure(state@, *prep_exit) - 1) as nat,
                    settle_measure(next.state, next.prep),
                );
            }
        }
        let decision = state_cleaner(state, prep_exit);
        if decision == ShouldRun::No {
            break;
        }
    }
}

/// Settling a staged `Push(b)` on stack `[a]`: the driver passes expose
/// the transition sequence `Pausing(a, b)`, `Entering(a, b)`, `None`, then
/// one settled pass with `end_next_loop` set, then the stopping pass; the
/// stack ends as `[a, b]`.
pub proof fn lemma_push_settles<T: StateData>(a: T, b: T)
    ensures
        ({
            let m0 = StateModel::<T> {
                stack: seq![a],
                transition: None,
                scheduled: Some(ScheduledOperation::Push(b)),
                end_next_loop: false,
            };
            let s1 = cleaner_step(m0, false);
            let s2 = cleaner_step(s1.state, s1.prep);
            let s3 = cleaner_step(s2.state, s2.prep);
            let s4 = cleaner_step(s3.state, s3.prep);
            let s5 = cleaner_step(s4.state, s4.prep);
            &&& s1.state.transition == Some(StateTransition::Pausing(a, b))
            &&& s1.state.stack =~= seq![a]
            &&& s1.decision == ShouldRun::YesAndCheckAgain
            &&& s2.state.transition == Some(StateTransition::Entering(a, b))
            &&& s2.state.stack =~= seq![a, b]
            &&& s2.decision == ShouldRun::YesAndCheckAgain
            &&& s3.state.transition is None
            &&& s3.state.stack =~= seq![a, b]
            &&& s3.decision == ShouldRun::YesAndCheckAgain
            &&& s4.state.end_next_loop
            &&& s4.decision == ShouldRun::YesAndCheckAgain
            &&& s5.decision == ShouldRun::No
            &&& s5.state.stack =~= seq![a, b]
            &&& settled(s5.state)
        }),
{
    let m0 = StateModel::<T> {
        stack: seq![a],
        transition: None,
        scheduled: Some(ScheduledOperation::Push(b)),
        end_next_loop: false,
    };
    let s1 = cleaner_step(m0, false);
    let s2 = cleaner_step(s1.state, s1.prep);
    assert(s2.state.stack =~= seq![a].push(b));
    assert(seq![a].push(b) =~= seq![a, b]);
}

/// Settling a staged `Pop` on stack `[a, b]`: the driver passes expose
/// `ExitingToResume(b, a)`, `Resuming(b, a)`, `None`, then the quiescence
/// passes; the stack ends as `[a]`.
pub proof fn lemma_pop_settles<T: StateData>(a: T, b: T)
    ensures
        ({
            let m0 = StateModel::<T> {
                stack: seq![a, b],
                transition: None,
                scheduled: Some(ScheduledOperation::Pop),
                end_next_loop: false,
            };
            let s1 = cleaner_step(m0, false);
            let s2 = cleaner_step(s1.state, s1.prep);
            let s3 = cleaner_step(s2.state, s2.prep);
            let s4 = cleaner_step(s3.state, s3.prep);
            let s5 = cleaner_step(s4.state, s4.prep);
            &&& s1.state.transition == Some(StateTransition::ExitingToResume(b, a))
            &&& s1.state.stack =~= seq![a, b]
            &&& s1.decision == ShouldRun::YesAndCheckAgain
            &&& s2.state.transition == Some(StateTransition::Resuming(b, a))
            &&& s2.state.stack =~= seq![a]
            &&& s2.decision == ShouldRun::YesAndCheckAgain
            &&& s3.state.transition is None
            &&& s3.state.stack =~= seq![a]
            &&& s3.decision == ShouldRun::YesAndCheckAgain
            &&& s4.state.end_next_loop
            &&& s4.decision == ShouldRun::YesAndCheckAgain
            &&& s5.decision == ShouldRun::No
            &&& s5.state.stack =~= seq![a]
            &&& settled(s5.state)
        }),
{
    let m0 = StateModel::<T> {
        stack: seq![a, b],
        transition: None,
        scheduled: Some(ScheduledOperation::Pop),
        end_next_loop: false,
    };
    let s1 = cleaner_step(m0, false);
    let s2 = cleaner_step(s1.state, s1.prep);
    assert(s2.state.stack =~= seq![a, b].drop_last());
    assert(seq![a, b].drop_last() =~= seq![a]);
}

/// Settling a staged `Replace(x)` on stack `[a, b, c]`: the driver first
/// unwinds the stack one frame at a time through
/// `ExitingToResume`/`Resuming` pairs popping `c` and then `b`, and only
/// then fires `ExitingFull(a, x)`/`Entering(a, x)`; the stack ends as
/// `[x]`.
pub proof fn lemma_replace_settles<T: StateData>(a: T, b: T, c: T, x: T)
    ensures
        ({
            let m0 = StateModel::<T> {
                stack: seq![a, b, c],
                transition: None,
                scheduled: Some(ScheduledOperation::Replace(x)),
                end_next_loop: false,
            };
            let s1 = cleaner_step(m0, false);
            let s2 = cleaner_step(s1.state, s1.prep);
            let s3 = cleaner_step(s2.state, s2.prep);
            let s4 = cleaner_step(s3.state, s3.prep);
            let s5 = cleaner_step(s4.state, s4.prep);
            let s6 = cleaner_step(s5.state, s5.prep);
            let s7 = cleaner_step(s6.state, s6.prep);
            let s8 = cleaner_step(s7.state, s7.prep);
            let s9 = cleaner_step(s8.state, s8.prep);
            &&& s1.state.transition == Some(StateTransition::ExitingToResume(c, b))
            &&& s1.state.stack =~= seq![a, b, c]
            &&& s2.state.transition == Some(StateTransition::Resuming(c, b))
            &&& s2.state.stack =~= seq![a, b]
            &&& s3.state.transition == Some(StateTransition::ExitingToResume(b, a))
            &&& s3.state.stack =~= seq![a, b]
            &&& s4.state.transition == Some(StateTransition::Resuming(b, a))
            &&& s4.state.stack =~= seq![a]
            &&& s5.state.transition == Some(StateTransition::ExitingFull(a, x))
            &&& s5.state.stack =~= seq![a]
            &&& s5.state.scheduled is None
            &&& s6.state.transition == Some(StateTransition::Entering(a, x))
            &&& s6.state.stack =~= seq![x]
            &&& s7.state.transition is None
            &&& s7.state.stack =~= seq![x]
            &&& s8.state.end_next_loop
            &&& s8.decision == ShouldRun::YesAndCheckAgain
            &&& s9.decision == ShouldRun::No
            &&& s9.state.stack =~= seq![x]
            &&& settled(s9.state)
        }),
{
    let m0 = StateModel::<T> {
        stack: seq![a, b, c],
        transition: None,
        scheduled: Some(ScheduledOperation::Replace(x)),
        end_next_loop: false,
    };
    let s1 = cleaner_step(m0, false);
    let s2 = cleaner_step(s1.state, s1.prep);
    assert(s2.state.stack =~= seq![a, b, c].drop_last());
    assert(seq![a, b, c].drop_last() =~= seq![a, b]);
    let s3 = cleaner_step(s2.state, s2.prep);
    let s4 = cleaner_step(s3.state, s3.prep);
    assert(s4.state.stack =~= seq![a, b].drop_last());
    assert(seq![a, b].drop_last() =~= seq![a]);
    let s5 = cleaner_step(s4.state, s4.prep);
    let s6 = cleaner_step(s5.state, s5.prep);
    assert(s6.state.stack =~= seq![a].update(0, x));
    assert(seq![a].update(0, x) =~= seq![x]);
}

} // verus!
