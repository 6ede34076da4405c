use someip::sd_messages::AddEntryError;
use someip::sd_options::SDOptionTransportProto;
use someip::sd_server::{offer_packet, SDServer, Service, ServiceAddr, Timings};
use someip::sd_server_sm::{SMAction, SMEvent};

fn timings() -> Timings {
    Timings {
        initial_delay_min: 10,
        initial_delay_max: 20,
        repetitions_max: 2,
        repetition_base_delay: 100,
        cyclic_offer_delay: 1000,
    }
}

fn service() -> Service {
    Service {
        major_version: 1,
        minor_version: 2,
        addr: ServiceAddr::V4(0x7F00_0001),
        port: 30509,
        proto: SDOptionTransportProto::UDP,
    }
}

#[test]
fn services_start_when_interface_comes_up() {
    let mut server = SDServer::new(timings());
    assert!(server.on_service_status(0x10, service(), true).is_empty());
    assert!(server.on_service_status(0x20, service(), true).is_empty());
    assert!(!server.needs_empty_delay_range(SMEvent::IfStatusChanged(true)));
    let actions = server.on_interface_status(true);
    assert_eq!(actions.len(), 2);
    for (i, sid) in [0x10u16, 0x20].iter().enumerate() {
        match actions[i] {
            (id, SMAction::SetTimer(0, d)) => {
                assert_eq!(id, *sid);
                assert!(10 <= d && d < 20);
            }
            other => panic!("unexpected {:?}", other),
        }
    }
    assert_eq!(server.on_timeout(0, 0x20), vec![(0x20, SMAction::SetTimer(1, 100))]);
    assert_eq!(
        server.on_timeout(1, 0x20),
        vec![(0x20, SMAction::SendOffer), (0x20, SMAction::SetTimer(1, 100))]
    );
    assert!(server.timeout_faults(2, 0x20));
    assert!(!server.timeout_faults(2, 0x99));
    assert!(server.on_timeout(5, 0x99).is_empty());
}

#[test]
fn interface_down_clears_initial_wait() {
    let mut server = SDServer::new(timings());
    assert!(server.on_service_status(0x10, service(), true).is_empty());
    let actions = server.on_interface_status(true);
    assert!(matches!(actions.as_slice(), [(0x10, SMAction::SetTimer(0, _))]));
    let actions = server.on_service_status(0x10, service(), false);
    assert_eq!(actions, vec![(0x10, SMAction::ClearTimer(0))]);
    let actions = server.on_service_status(0x10, service(), true);
    assert!(matches!(actions.as_slice(), [(0x10, SMAction::SetTimer(0, _))]));
    let actions = server.on_interface_status(false);
    assert_eq!(actions, vec![(0x10, SMAction::ClearTimer(0))]);
    assert!(server.timeout_faults(0, 0x10));
}

#[test]
fn service_learnt_later_waits_for_interface_event() {
    let mut server = SDServer::new(timings());
    server.on_interface_status(true);
    assert!(server.on_service_status(0x10, service(), true).is_empty());
    assert!(server.timeout_faults(0, 0x10));
}

#[test]
fn known_service_keeps_its_description() {
    let mut server = SDServer::new(timings());
    server.on_service_status(0x10, service(), false);
    let other = Service { port: 1, ..service() };
    server.on_service_status(0x10, other, true);
    assert_eq!(server.service(0x10), Some(service()));
    assert_eq!(server.service(0x11), None);
}

#[test]
fn empty_delay_range_is_reported() {
    let t = Timings { initial_delay_max: 10, ..timings() };
    let mut server = SDServer::new(t);
    server.on_service_status(0x10, service(), true);
    assert!(server.needs_empty_delay_range(SMEvent::IfStatusChanged(true)));
    assert!(!server.needs_empty_delay_range(SMEvent::IfStatusChanged(false)));
    assert!(!server.slot_needs_empty_delay_range(0x10, SMEvent::ServiceConfiguration(true)));
}

#[test]
fn offer_with_one_option_is_refused() {
    assert_eq!(offer_packet(0x10, &service()).err(), Some(AddEntryError::NotFound));
}
