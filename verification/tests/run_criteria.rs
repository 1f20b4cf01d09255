use state_access::state::{
    state_cleaner, should_run_adapter, DriverLabel, ShouldRun, State, StateCallback,
    StateRunCriteria, StateRunCriteriaLabel, StateTransition, SystemSet, SystemSetCriteria,
};

/// Drive the machine to quiescence without observing it.
fn settle(state: &mut State<u32>, prep_exit: &mut bool) {
    let mut guard = 0;
    while state_cleaner(state, prep_exit) != ShouldRun::No {
        guard += 1;
        assert!(guard < 100, "driver failed to settle");
    }
}

#[test]
fn on_enter_fires_on_the_startup_pass() {
    let mut state = State::new(7);
    let mut prep_exit = false;
    let mut enter_seven = State::on_enter(7);
    let mut enter_other = State::on_enter(9);

    state_cleaner(&mut state, &mut prep_exit);
    assert_eq!(state.transition(), Some(StateTransition::Startup));
    assert_eq!(enter_seven.run(&state), ShouldRun::YesAndCheckAgain);
    assert_eq!(enter_other.run(&state), ShouldRun::NoAndCheckAgain);
}

#[test]
fn on_update_fires_on_settled_passes_of_the_active_state() {
    let mut state = State::new(1);
    let mut prep_exit = false;
    settle(&mut state, &mut prep_exit);
    let mut update_one = State::on_update(1);
    let mut update_two = State::on_update(2);
    assert_eq!(update_one.run(&state), ShouldRun::YesAndCheckAgain);
    assert_eq!(update_two.run(&state), ShouldRun::NoAndCheckAgain);
}

#[test]
fn criteria_are_suppressed_once_the_driver_announces_the_end() {
    let mut state = State::new(1);
    let mut prep_exit = false;
    // Advance until the driver sets end_next_loop for the final pass.
    let mut update_one = State::on_update(1);
    let mut guard = 0;
    while !state.end_next_loop() {
        assert_ne!(state_cleaner(&mut state, &mut prep_exit), ShouldRun::No);
        guard += 1;
        assert!(guard < 100);
    }
    assert_eq!(update_one.run(&state), ShouldRun::No);
    assert_eq!(should_run_adapter(true, &state), ShouldRun::No);
    assert_eq!(should_run_adapter(false, &state), ShouldRun::No);
}

#[test]
fn pause_and_resume_criteria_observe_their_passes() {
    let mut state = State::new(1);
    let mut prep_exit = false;
    settle(&mut state, &mut prep_exit);
    state.push(2).unwrap();

    let mut pause_one = State::on_pause(1);
    let mut enter_two = State::on_enter(2);
    let mut exit_any = State::on_exit(2);

    state_cleaner(&mut state, &mut prep_exit);
    assert_eq!(state.transition(), Some(StateTransition::Pausing(1, 2)));
    assert_eq!(pause_one.run(&state), ShouldRun::YesAndCheckAgain);
    assert_eq!(enter_two.run(&state), ShouldRun::NoAndCheckAgain);

    state_cleaner(&mut state, &mut prep_exit);
    assert_eq!(state.transition(), Some(StateTransition::Entering(1, 2)));
    assert_eq!(enter_two.run(&state), ShouldRun::YesAndCheckAgain);
    settle(&mut state, &mut prep_exit);

    state.pop().unwrap();
    let mut resume_one = State::on_resume(1);
    state_cleaner(&mut state, &mut prep_exit);
    assert_eq!(state.transition(), Some(StateTransition::ExitingToResume(2, 1)));
    assert_eq!(exit_any.run(&state), ShouldRun::YesAndCheckAgain);
    assert_eq!(resume_one.run(&state), ShouldRun::NoAndCheckAgain);

    state_cleaner(&mut state, &mut prep_exit);
    assert_eq!(state.transition(), Some(StateTransition::Resuming(2, 1)));
    assert_eq!(resume_one.run(&state), ShouldRun::YesAndCheckAgain);
}

#[test]
fn inactive_update_tracks_paused_membership_across_passes() {
    let mut state = State::new(1);
    let mut prep_exit = false;
    settle(&mut state, &mut prep_exit);
    let mut inactive_one = State::on_inactive_update(1);

    // While settled with 1 active, the criterion skips.
    assert_eq!(inactive_one.run(&state), ShouldRun::NoAndCheckAgain);

    // Pushing 2 pauses 1: the Pausing pass flips the criterion's toggle.
    state.push(2).unwrap();
    loop {
        let decision = state_cleaner(&mut state, &mut prep_exit);
        inactive_one.run(&state);
        if decision == ShouldRun::No {
            break;
        }
    }
    assert_eq!(inactive_one.run(&state), ShouldRun::YesAndCheckAgain);

    // Popping back resumes 1: the Resuming pass flips it back.
    state.pop().unwrap();
    loop {
        let decision = state_cleaner(&mut state, &mut prep_exit);
        inactive_one.run(&state);
        if decision == ShouldRun::No {
            break;
        }
    }
    assert_eq!(inactive_one.run(&state), ShouldRun::NoAndCheckAgain);
}

/// Drive the machine to quiescence with the given criteria observing
/// every driver pass, as they would when ordered after the driver node.
fn settle_observed(
    state: &mut State<u32>,
    prep_exit: &mut bool,
    criteria: &mut [StateRunCriteria<u32>],
) {
    let mut guard = 0;
    loop {
        let decision = state_cleaner(state, prep_exit);
        for criterion in criteria.iter_mut() {
            criterion.run(state);
        }
        if decision == ShouldRun::No {
            break;
        }
        guard += 1;
        assert!(guard < 100, "driver failed to settle");
    }
}

#[test]
fn in_stack_update_tracks_stack_membership() {
    let mut state = State::new(1);
    let mut prep_exit = false;
    let mut criteria = [
        State::on_in_stack_update(1),
        State::on_in_stack_update(2),
        State::on_in_stack_update(3),
    ];

    // After startup only 1 is on the stack.
    settle_observed(&mut state, &mut prep_exit, &mut criteria);
    assert_eq!(criteria[0].run(&state), ShouldRun::YesAndCheckAgain);
    assert_eq!(criteria[1].run(&state), ShouldRun::NoAndCheckAgain);

    // Pushing 2 keeps 1 on the stack and adds 2.
    state.push(2).unwrap();
    settle_observed(&mut state, &mut prep_exit, &mut criteria);
    assert_eq!(criteria[0].run(&state), ShouldRun::YesAndCheckAgain);
    assert_eq!(criteria[1].run(&state), ShouldRun::YesAndCheckAgain);
    assert_eq!(criteria[2].run(&state), ShouldRun::NoAndCheckAgain);

    // Popping removes 2 and keeps 1.
    state.pop().unwrap();
    settle_observed(&mut state, &mut prep_exit, &mut criteria);
    assert_eq!(criteria[0].run(&state), ShouldRun::YesAndCheckAgain);
    assert_eq!(criteria[1].run(&state), ShouldRun::NoAndCheckAgain);

    // Setting 3 swaps the active 1 for 3.
    state.set(3).unwrap();
    settle_observed(&mut state, &mut prep_exit, &mut criteria);
    assert_eq!(criteria[0].run(&state), ShouldRun::NoAndCheckAgain);
    assert_eq!(criteria[1].run(&state), ShouldRun::NoAndCheckAgain);
    assert_eq!(criteria[2].run(&state), ShouldRun::YesAndCheckAgain);
}

#[test]
fn in_stack_update_survives_a_full_replace() {
    let mut state = State::new(1);
    let mut prep_exit = false;
    let mut criteria = [
        State::on_in_stack_update(1),
        State::on_in_stack_update(2),
        State::on_in_stack_update(3),
        State::on_in_stack_update(9),
    ];
    settle_observed(&mut state, &mut prep_exit, &mut criteria);
    state.push(2).unwrap();
    settle_observed(&mut state, &mut prep_exit, &mut criteria);
    state.push(3).unwrap();
    settle_observed(&mut state, &mut prep_exit, &mut criteria);
    assert_eq!(criteria[0].run(&state), ShouldRun::YesAndCheckAgain);
    assert_eq!(criteria[2].run(&state), ShouldRun::YesAndCheckAgain);

    // Replace unwinds [1, 2, 3] and leaves only 9.
    state.replace(9).unwrap();
    settle_observed(&mut state, &mut prep_exit, &mut criteria);
    assert_eq!(criteria[0].run(&state), ShouldRun::NoAndCheckAgain);
    assert_eq!(criteria[1].run(&state), ShouldRun::NoAndCheckAgain);
    assert_eq!(criteria[2].run(&state), ShouldRun::NoAndCheckAgain);
    assert_eq!(criteria[3].run(&state), ShouldRun::YesAndCheckAgain);
}

#[test]
fn labels_collapse_equal_registrations() {
    let one = State::on_update(3).label();
    let other = State::on_update(3).label();
    assert_eq!(one, other);
    assert_eq!(one, StateRunCriteriaLabel(3, StateCallback::Update));
    assert_ne!(one, State::on_enter(3).label());
    assert_ne!(one, State::on_update(4).label());
    assert_eq!(DriverLabel::<u32>::of(), DriverLabel::<u32>::of());
    assert_eq!(StateCallback::Exit.into_label(5), StateRunCriteriaLabel(5, StateCallback::Exit));
}

#[test]
fn system_sets_carry_their_criteria_and_run_them() {
    let mut state = State::new(1);
    let mut prep_exit = false;
    let mut driver: SystemSet<u32> = State::get_driver();
    assert_eq!(driver.criteria, SystemSetCriteria::Driver);
    let mut enter_one = State::on_enter_set(1);
    match enter_one.criteria {
        SystemSetCriteria::Callback(c) => {
            assert_eq!(c.kind, StateCallback::Enter);
            assert_eq!(c.pred, 1);
        }
        SystemSetCriteria::Driver => panic!("expected a callback criterion"),
    }

    driver.run(&mut state, &mut prep_exit);
    assert_eq!(state.transition(), Some(StateTransition::Startup));
    assert_eq!(
        enter_one.run(&mut state, &mut prep_exit),
        ShouldRun::YesAndCheckAgain
    );

    assert_eq!(
        State::on_update_set(1).criteria,
        SystemSetCriteria::Callback(State::on_update(1))
    );
    assert_eq!(
        State::on_inactive_update_set(1).criteria,
        SystemSetCriteria::Callback(State::on_inactive_update(1))
    );
    assert_eq!(
        State::on_exit_set(1).criteria,
        SystemSetCriteria::Callback(State::on_exit(1))
    );
    assert_eq!(
        State::on_pause_set(1).criteria,
        SystemSetCriteria::Callback(State::on_pause(1))
    );
    assert_eq!(
        State::on_resume_set(1).criteria,
        SystemSetCriteria::Callback(State::on_resume(1))
    );
    assert_eq!(
        State::on_in_stack_update(1).kind,
        StateCallback::InStackUpdate
    );
}
