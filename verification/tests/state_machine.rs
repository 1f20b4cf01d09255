use state_access::state::{
    state_cleaner, ScheduledOperation, ShouldRun, State, StateError, StateTransition,
};

/// Drive the machine to quiescence, returning the transition observed after
/// each driver pass, in order.
fn settle(state: &mut State<u32>, prep_exit: &mut bool) -> Vec<Option<StateTransition<u32>>> {
    let mut observed = Vec::new();
    let mut guard = 0;
    loop {
        let decision = state_cleaner(state, prep_exit);
        if decision == ShouldRun::No {
            return observed;
        }
        observed.push(state.transition());
        guard += 1;
        assert!(guard < 100, "driver failed to settle");
    }
}

/// A fresh machine already past its startup phases.
fn settled_machine(initial: u32) -> (State<u32>, bool) {
    let mut state = State::new(initial);
    let mut prep_exit = false;
    settle(&mut state, &mut prep_exit);
    (state, prep_exit)
}

#[test]
fn pop_on_single_element_stack_fails() {
    let (mut state, _) = settled_machine(1);
    assert_eq!(state.pop(), Err(StateError::StackEmpty));
    assert_eq!(*state.current(), 1);
    assert_eq!(state.inactives(), Vec::<u32>::new());
    assert_eq!(state.scheduled(), None);

    // StackEmpty wins even while another operation is pending.
    assert_eq!(state.set(2), Ok(()));
    assert_eq!(state.pop(), Err(StateError::StackEmpty));
    assert_eq!(*state.current(), 1);
    assert_eq!(state.scheduled(), Some(ScheduledOperation::SetTo(2)));
}

#[test]
fn overwrite_pop_on_single_element_stack_fails() {
    let (mut state, _) = settled_machine(1);
    assert_eq!(state.overwrite_pop(), Err(StateError::StackEmpty));
    assert_eq!(*state.current(), 1);
}

#[test]
fn set_to_current_state_fails() {
    let (mut state, _) = settled_machine(1);
    assert_eq!(state.set(1), Err(StateError::AlreadyInState));
    assert_eq!(state.replace(1), Err(StateError::AlreadyInState));
    assert_eq!(state.push(1), Err(StateError::AlreadyInState));
    assert_eq!(state.overwrite_set(1), Err(StateError::AlreadyInState));
    assert_eq!(state.overwrite_replace(1), Err(StateError::AlreadyInState));
    assert_eq!(state.overwrite_push(1), Err(StateError::AlreadyInState));
    assert_eq!(state.scheduled(), None);
}

#[test]
fn set_to_current_state_fails_even_with_pending_operation() {
    let (mut state, _) = settled_machine(1);
    assert_eq!(state.set(2), Ok(()));
    assert_eq!(state.set(1), Err(StateError::AlreadyInState));
    assert_eq!(state.overwrite_set(1), Err(StateError::AlreadyInState));
    assert_eq!(state.scheduled(), Some(ScheduledOperation::SetTo(2)));
}

#[test]
fn second_schedule_fails_until_overwritten() {
    let (mut state, _) = settled_machine(1);
    assert_eq!(state.set(2), Ok(()));
    assert_eq!(state.set(3), Err(StateError::StateAlreadyQueued));
    assert_eq!(state.replace(3), Err(StateError::StateAlreadyQueued));
    assert_eq!(state.push(3), Err(StateError::StateAlreadyQueued));
    // On this one-element stack a pop reports the empty stack first.
    assert_eq!(state.pop(), Err(StateError::StackEmpty));
    assert_eq!(state.scheduled(), Some(ScheduledOperation::SetTo(2)));
    assert_eq!(state.overwrite_push(3), Ok(()));
    assert_eq!(state.scheduled(), Some(ScheduledOperation::Push(3)));
    assert_eq!(state.overwrite_replace(4), Ok(()));
    assert_eq!(state.scheduled(), Some(ScheduledOperation::Replace(4)));
}

#[test]
fn pop_on_a_deeper_stack_with_queued_operation_fails_queued() {
    let (mut state, mut prep_exit) = settled_machine(1);
    assert_eq!(state.push(2), Ok(()));
    settle(&mut state, &mut prep_exit);
    assert_eq!(state.set(3), Ok(()));
    assert_eq!(state.pop(), Err(StateError::StateAlreadyQueued));
    assert_eq!(state.scheduled(), Some(ScheduledOperation::SetTo(3)));
}

#[test]
fn startup_settles_through_prestartup_and_startup() {
    let mut state = State::new(7);
    let mut prep_exit = false;
    let observed = settle(&mut state, &mut prep_exit);
    assert_eq!(
        observed,
        vec![
            Some(StateTransition::Startup),
            None,
            // the extra settled pass announced by end_next_loop
            None,
        ]
    );
    assert_eq!(*state.current(), 7);
    assert!(!state.end_next_loop());
}

#[test]
fn push_settles_to_pausing_entering_none() {
    let (mut state, mut prep_exit) = settled_machine(1);
    assert_eq!(state.push(2), Ok(()));
    let observed = settle(&mut state, &mut prep_exit);
    assert_eq!(
        observed,
        vec![
            Some(StateTransition::Pausing(1, 2)),
            Some(StateTransition::Entering(1, 2)),
            None,
            None,
        ]
    );
    assert_eq!(*state.current(), 2);
    assert_eq!(state.inactives(), vec![1]);
}

#[test]
fn pop_settles_to_exiting_resuming_none() {
    let (mut state, mut prep_exit) = settled_machine(1);
    assert_eq!(state.push(2), Ok(()));
    settle(&mut state, &mut prep_exit);
    assert_eq!(state.pop(), Ok(()));
    let observed = settle(&mut state, &mut prep_exit);
    assert_eq!(
        observed,
        vec![
            Some(StateTransition::ExitingToResume(2, 1)),
            Some(StateTransition::Resuming(2, 1)),
            None,
            None,
        ]
    );
    assert_eq!(*state.current(), 1);
    assert_eq!(state.inactives(), Vec::<u32>::new());
}

#[test]
fn replace_unwinds_the_stack_before_entering() {
    let (mut state, mut prep_exit) = settled_machine(1);
    assert_eq!(state.push(2), Ok(()));
    settle(&mut state, &mut prep_exit);
    assert_eq!(state.push(3), Ok(()));
    settle(&mut state, &mut prep_exit);
    assert_eq!(*state.current(), 3);
    assert_eq!(state.inactives(), vec![1, 2]);

    assert_eq!(state.replace(9), Ok(()));
    let observed = settle(&mut state, &mut prep_exit);
    assert_eq!(
        observed,
        vec![
            Some(StateTransition::ExitingToResume(3, 2)),
            Some(StateTransition::Resuming(3, 2)),
            Some(StateTransition::ExitingToResume(2, 1)),
            Some(StateTransition::Resuming(2, 1)),
            Some(StateTransition::ExitingFull(1, 9)),
            Some(StateTransition::Entering(1, 9)),
            None,
            None,
        ]
    );
    assert_eq!(*state.current(), 9);
    assert_eq!(state.inactives(), Vec::<u32>::new());
}

#[test]
fn set_replaces_only_the_active_state() {
    let (mut state, mut prep_exit) = settled_machine(1);
    assert_eq!(state.push(2), Ok(()));
    settle(&mut state, &mut prep_exit);
    assert_eq!(state.set(5), Ok(()));
    let observed = settle(&mut state, &mut prep_exit);
    assert_eq!(
        observed,
        vec![
            Some(StateTransition::ExitingFull(2, 5)),
            Some(StateTransition::Entering(2, 5)),
            None,
            None,
        ]
    );
    assert_eq!(*state.current(), 5);
    assert_eq!(state.inactives(), vec![1]);
}

#[test]
fn settle_reaches_quiescence_from_any_staging() {
    let mut state = State::new(1);
    let mut prep_exit = false;
    state_access::state::settle(&mut state, &mut prep_exit);
    assert_eq!(state.transition(), None);
    assert_eq!(state.scheduled(), None);
    assert!(!state.end_next_loop());

    state.push(2).unwrap();
    state_access::state::settle(&mut state, &mut prep_exit);
    assert_eq!(*state.current(), 2);
    assert_eq!(state.transition(), None);
    assert!(!state.end_next_loop());

    state.replace(8).unwrap();
    state_access::state::settle(&mut state, &mut prep_exit);
    assert_eq!(*state.current(), 8);
    assert_eq!(state.inactives(), Vec::<u32>::new());
}

#[test]
fn error_messages_name_the_failure() {
    assert_eq!(
        StateError::AlreadyInState.message(),
        "Attempted to change the state to the current state."
    );
    assert_eq!(
        StateError::StateAlreadyQueued.message(),
        "Attempted to queue a state change, but there was already a state queued."
    );
    assert_eq!(
        StateError::StackEmpty.message(),
        "Attempted to queue a pop, but there is nothing to pop."
    );
}
