use someip::sd_server_sm::{Phase, SDServerStateMachine, SMAction, SMEvent};

fn create_ready_sm() -> SDServerStateMachine {
    let server_sm = SDServerStateMachine::new(10, 100, 3, 1000, 5000);
    assert!(matches!(server_sm, SDServerStateMachine::NotReady(_)));
    let (server_sm, _) = server_sm.next(SMEvent::ServiceConfiguration(true));
    assert!(matches!(server_sm, SDServerStateMachine::NotReady(_)));
    let (server_sm, _) = server_sm.next(SMEvent::IfStatusChanged(true));
    assert!(matches!(server_sm, SDServerStateMachine::InitialWaitPhase(_)));
    let (server_sm, _) = server_sm.next(SMEvent::IfStatusChanged(false));
    assert!(matches!(server_sm, SDServerStateMachine::NotReady(_)));
    let (server_sm, _) = server_sm.next(SMEvent::IfStatusChanged(true));
    assert!(matches!(server_sm, SDServerStateMachine::InitialWaitPhase(_)));
    server_sm
}

#[test]
fn test_happy_path() {
    let sm = create_ready_sm();
    let (sm, _) = sm.next(SMEvent::Timeout(0));
    assert!(matches!(sm, SDServerStateMachine::RepetitionPhase(_)));
    let (sm, _) = sm.next(SMEvent::Timeout(1));
    assert!(matches!(sm, SDServerStateMachine::RepetitionPhase(_)));
    let (sm, _) = sm.next(SMEvent::Timeout(1));
    let (sm, _) = sm.next(SMEvent::Timeout(1));
    let (sm, _) = sm.next(SMEvent::Timeout(1));
    assert!(matches!(sm, SDServerStateMachine::MainPhase(_)));
    let (sm, _) = sm.next(SMEvent::Timeout(2));
    assert!(matches!(sm, SDServerStateMachine::MainPhase(_)));
    let (sm, _) = sm.next(SMEvent::IfStatusChanged(false));
    assert!(matches!(sm, SDServerStateMachine::NotReady(_)));
}

#[test]
fn initial_delay_sets_timer_zero() {
    let sm = SDServerStateMachine::new(10, 100, 3, 1000, 5000);
    let (sm, actions) = sm.next(SMEvent::IfStatusChanged(true));
    assert!(actions.is_empty());
    let (sm, actions) = sm.next_with_delay(SMEvent::ServiceConfiguration(true), 42);
    assert_eq!(sm.phase(), Phase::InitialWait);
    assert_eq!(actions, vec![SMAction::SetTimer(0, 42)]);
}

#[test]
fn random_initial_delay_is_in_range() {
    for _ in 0..20 {
        let sm = SDServerStateMachine::new(10, 100, 3, 1000, 5000);
        let (sm, _) = sm.next(SMEvent::IfStatusChanged(true));
        let (_, actions) = sm.next(SMEvent::ServiceConfiguration(true));
        match actions.as_slice() {
            [SMAction::SetTimer(0, d)] => assert!(10 <= *d && *d < 100),
            other => panic!("unexpected actions {:?}", other),
        }
    }
}

#[test]
fn going_down_stops_offering() {
    let sm = create_ready_sm();
    let (sm, _) = sm.next(SMEvent::Timeout(0));
    assert_eq!(sm.phase(), Phase::Repetition(0));
    let (sm, _) = sm.next(SMEvent::ServiceConfiguration(false));
    assert_eq!(sm.phase(), Phase::NotReady);
}
