use someip::call_properties::CallProperties;
use someip::client::{classify_incoming, is_request, request_id, CallPoll, Incoming, PendingCalls, ReplyData};
use someip::error::{Error, FieldError, MethodError, PropertyError};
use someip::field::{field_request, refresh_outcome, set_outcome};
use someip::server::{
    dispatch_kind, find_handler, may_send_notification, screen_request, DispatchKind, Screening,
    Server, ServiceIdentifier, ServiceInstance, ServiceVersion,
};
use someip::someip_codec::{MessageType, SomeIpHeader, SomeIpPacket};
use std::time::Duration;

fn packet(service_id: u16, message_type: MessageType, request: u32) -> SomeIpPacket {
    let mut h = SomeIpHeader::default();
    h.set_service_id(service_id);
    h.set_event_id(1);
    h.message_type = message_type;
    h.request_id = request;
    SomeIpPacket::new(h, vec![1, 2, 3])
}

#[test]
fn request_ids_combine_client_and_session() {
    assert_eq!(request_id(0x0102, 0x0304), 0x0102_0304);
    assert_eq!(request_id(0, 0xffff), 0xffff);
}

#[test]
fn client_sends_only_requests() {
    assert!(is_request(&packet(1, MessageType::Request, 0)));
    assert!(is_request(&packet(1, MessageType::RequestNoReturn, 0)));
    assert!(!is_request(&packet(1, MessageType::Notification, 0)));
    assert!(!is_request(&packet(1, MessageType::Response, 0)));
}

#[test]
fn client_classifies_what_it_receives() {
    assert_eq!(classify_incoming(&packet(1, MessageType::Response, 0)), Incoming::CompleteCall);
    assert_eq!(classify_incoming(&packet(1, MessageType::Error, 0)), Incoming::CompleteCall);
    assert_eq!(classify_incoming(&packet(1, MessageType::Notification, 0)), Incoming::Notification);
    assert_eq!(classify_incoming(&packet(1, MessageType::Request, 0)), Incoming::Unexpected);
}

#[test]
fn pending_call_completes_once() {
    let mut calls = PendingCalls::new();
    calls.insert_pending(7);
    assert!(calls.contains(7));
    assert!(matches!(calls.poll(7), CallPoll::Pending));
    let reply = packet(1, MessageType::Response, 7);
    assert!(calls.complete(7, reply.clone()));
    match calls.poll(7) {
        CallPoll::Ready(ReplyData::Completed(p)) => assert_eq!(p, reply),
        other => panic!("unexpected {:?}", other),
    }
    assert!(!calls.contains(7));
    assert!(!calls.complete(7, reply));
}

#[test]
fn timed_out_call_ignores_late_reply() {
    let mut calls = PendingCalls::new();
    calls.insert_pending(9);
    assert!(matches!(calls.timeout(9), ReplyData::Cancelled));
    assert!(!calls.contains(9));
    assert!(!calls.complete(9, packet(1, MessageType::Response, 9)));
    assert!(matches!(calls.poll(9), CallPoll::Ready(ReplyData::Cancelled)));
}

#[test]
fn server_dispatch_by_message_type() {
    assert_eq!(dispatch_kind(MessageType::Request), DispatchKind::Reply);
    assert_eq!(dispatch_kind(MessageType::RequestNoReturn), DispatchKind::NoReply);
    assert_eq!(dispatch_kind(MessageType::Notification), DispatchKind::Drop);
    assert_eq!(dispatch_kind(MessageType::Response), DispatchKind::Drop);
    assert_eq!(dispatch_kind(MessageType::Error), DispatchKind::Drop);
}

#[test]
fn server_screens_service_id() {
    let own = packet(0x45, MessageType::Request, 3);
    match screen_request(own.clone(), 0x45) {
        Screening::Dispatch(p) => assert_eq!(p, own),
        other => panic!("unexpected {:?}", other),
    }
    match screen_request(packet(0x46, MessageType::Request, 3), 0x45) {
        Screening::Answer(e) => {
            assert_eq!(e.header().message_type, MessageType::Error);
            assert_eq!(e.header().return_code, 0x02);
            assert_eq!(e.header().request_id, 3);
            assert_eq!(e.header().service_id(), 0x46);
            assert!(e.payload().is_empty());
        }
        other => panic!("unexpected {:?}", other),
    }
    assert!(matches!(
        screen_request(packet(0x46, MessageType::RequestNoReturn, 3), 0x45),
        Screening::Ignore
    ));
}

#[test]
fn server_sends_only_notifications() {
    assert!(may_send_notification(&packet(1, MessageType::Notification, 0)));
    assert!(!may_send_notification(&packet(1, MessageType::Response, 0)));
}

#[test]
fn server_finds_first_handler() {
    assert_eq!(find_handler(&[3, 5, 5], 5), Some(1));
    assert_eq!(find_handler(&[3, 5], 4), None);
    assert_eq!(find_handler(&[], 4), None);
}

struct Echo;

impl ServiceIdentifier for Echo {
    fn service_name() -> &'static str {
        "echo"
    }
}

impl ServiceVersion for Echo {}

impl ServiceInstance for Echo {}

#[test]
fn service_traits_default_to_zero() {
    let _server = Server::new();
    assert_eq!(Echo::service_name(), "echo");
    assert_eq!(Echo::__major_version__(), 0);
    assert_eq!(Echo::__minor_version__(), 0);
    assert_eq!(Echo::__instance_id__(), 0);
}

#[test]
fn field_request_header() {
    let p = field_request(0x10, 0x45, vec![1, 2]);
    let h = p.header();
    assert_eq!(h.message_id, 0x0045_8010);
    assert_eq!(h.message_type, MessageType::Request);
    assert_eq!(h.length, 10);
    assert_eq!(p.payload(), &vec![1, 2]);
}

#[test]
fn field_outcomes() {
    let reply = packet(1, MessageType::Response, 0);
    assert_eq!(set_outcome(Ok(ReplyData::Completed(reply.clone()))), Ok(()));
    assert_eq!(set_outcome(Ok(ReplyData::Cancelled)), Err(PropertyError::Cancelled));
    let io = std::io::Error::new(std::io::ErrorKind::Other, "down");
    assert_eq!(set_outcome(Err(io)), Err(PropertyError::ConnectionError));
    assert_eq!(refresh_outcome(Ok(ReplyData::Completed(reply.clone()))), Ok(reply));
    assert_eq!(refresh_outcome(Ok(ReplyData::Pending)), Err(PropertyError::Cancelled));
    let io = std::io::Error::new(std::io::ErrorKind::Other, "down");
    assert_eq!(refresh_outcome(Err(io)), Err(PropertyError::ConnectionError));
}

#[test]
fn error_messages_and_conversions() {
    let e: FieldError = std::io::Error::new(std::io::ErrorKind::Other, "x").into();
    assert_eq!(e.message(), "Protocol Error");
    assert_eq!(FieldError::Unknown.message(), "unknown error");
    let g: Error = std::io::Error::new(std::io::ErrorKind::Other, "x").into();
    assert!(matches!(g, Error::IoError(_)));
    assert_eq!(g.message(), "IO Error");
    assert_eq!(Error::ConnectionError.message(), "Connection error");
    assert_eq!(PropertyError::Cancelled.message(), "Call was cancelled");
    assert_eq!(PropertyError::InvalidResponsePayload.message(), "Response payload was invalid");
}

#[test]
fn method_error_service_error() {
    let e: MethodError<u32> = MethodError::Error(5);
    assert!(e.is_service_error());
    assert_eq!(e.message(), "Method error");
    assert_eq!(e.into_service_error(), Some(5));
    let c: MethodError<u32> = MethodError::ConnectionError;
    assert!(!c.is_service_error());
    assert_eq!(c.into_service_error(), None);
    assert_eq!(MethodError::<u32>::InvalidErrorPayload.message(), "Error payload was invalid");
}

#[test]
fn call_properties_timeout() {
    assert_eq!(CallProperties::default().timeout, Duration::from_secs(1));
    assert_eq!(
        CallProperties::with_timeout(Duration::from_millis(250)).timeout,
        Duration::from_millis(250)
    );
}
