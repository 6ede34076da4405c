use someip::client::{request_id, PendingCalls, Receipt, SessionCounter};
use someip::sd_server_sm::{Phase, SDServerStateMachine, SMAction, SMEvent};
use someip::serde_someip::de::Deserializer;
use someip::serde_someip::error::Error;
use someip::serde_someip::ser::Serializer;
use someip::serde_someip::values::Value;
use someip::someip_codec::{MessageType, SomeIpHeader, SomeIpPacket};

#[test]
fn values_roundtrip_as_tuple() {
    let vs = vec![Value::U8(1), Value::Bool(true), Value::I16(-2), Value::U32(0x12345678), Value::I8(-1)];
    let mut s = Serializer::new();
    s.serialize_values(&vs).unwrap();
    let mut bytes = s.into_output();
    assert_eq!(bytes, vec![1, 1, 0xfe, 0xff, 0x78, 0x56, 0x34, 0x12, 0xff]);
    bytes.push(42);
    let mut d = Deserializer::from_bytes(&bytes);
    assert_eq!(d.parse_values(&vs).unwrap(), vs);
    assert_eq!(d.input(), &[42u8]);
}

#[test]
fn values_read_stops_at_bad_boolean() {
    let bytes = [7u8, 2, 5];
    let mut d = Deserializer::from_bytes(&bytes);
    let kinds = vec![Value::U8(0), Value::Bool(false), Value::U8(0)];
    assert_eq!(d.parse_values(&kinds), Err(Error::ExpectedBoolean));
}

#[test]
fn sessions_number_calls() {
    let mut c = SessionCounter::new();
    assert_eq!(c.next_session(), 0);
    assert_eq!(c.next_session(), 1);
    assert_eq!(c.issued_count(), 2);
    assert_ne!(request_id(7, 0), request_id(7, 1));
    assert_eq!(request_id(7, 1), 0x0007_0001);
}

fn reply(t: MessageType, id: u32) -> SomeIpPacket {
    let mut h = SomeIpHeader::default();
    h.message_type = t;
    h.request_id = id;
    SomeIpPacket::new(h, vec![])
}

#[test]
fn receive_pairs_reply_with_call() {
    let mut calls = PendingCalls::new();
    calls.insert_pending(5);
    assert_eq!(calls.receive(reply(MessageType::Response, 5)), Receipt::Completed(5));
    assert_eq!(calls.receive(reply(MessageType::Error, 6)), Receipt::NotPending(6));
    assert_eq!(calls.receive(reply(MessageType::Notification, 5)), Receipt::Notification);
    assert_eq!(calls.receive(reply(MessageType::Request, 5)), Receipt::Unexpected);
    assert!(calls.contains(5));
    assert!(!calls.contains(6));
}

#[test]
fn repetition_run_then_main() {
    let sm = SDServerStateMachine::new(10, 20, 2, 100, 1000);
    let (sm, _) = sm.next(SMEvent::IfStatusChanged(true));
    let (sm, _) = sm.next(SMEvent::ServiceConfiguration(true));
    let (sm, acts) = sm.next(SMEvent::Timeout(0));
    assert_eq!(acts, vec![SMAction::SetTimer(1, 100)]);
    let (sm, acts) = sm.next(SMEvent::Timeout(1));
    assert_eq!(sm.phase(), Phase::Repetition(1));
    assert_eq!(acts, vec![SMAction::SendOffer, SMAction::SetTimer(1, 100)]);
    let (sm, acts) = sm.next(SMEvent::Timeout(1));
    assert_eq!(sm.phase(), Phase::Repetition(2));
    assert_eq!(acts, vec![SMAction::SendOffer, SMAction::SetTimer(1, 100)]);
    let (sm, acts) = sm.next(SMEvent::Timeout(1));
    assert_eq!(sm.phase(), Phase::Main);
    assert_eq!(acts, vec![SMAction::SendOffer, SMAction::SetTimer(2, 1000)]);
}

#[test]
fn reachable_state_follows_last_events() {
    let sm = SDServerStateMachine::new(10, 20, 2, 100, 1000);
    let (sm, _) = sm.next(SMEvent::ServiceConfiguration(true));
    let (sm, _) = sm.next(SMEvent::IfStatusChanged(true));
    assert_eq!(sm.phase(), Phase::InitialWait);
    let (sm, _) = sm.next(SMEvent::ServiceConfiguration(false));
    assert_eq!(sm.phase(), Phase::NotReady);
    let (sm, _) = sm.next(SMEvent::FindService);
    assert_eq!(sm.phase(), Phase::NotReady);
}
