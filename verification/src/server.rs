//! The decisions of a server: which received packets reach a service's
//! handler, which are answered with an error, and which replies are sent.
use crate::someip_codec::{
    header_len, return_code_value, MessageType, ReturnCode, SomeIpHeader, SomeIpPacket,
};
use vstd::prelude::*;

verus! {

/// A SOME/IP server.
pub struct Server {}

impl Default for Server {
    fn default() -> (s: Self) {
        Server {}
    }
}

impl Server {
    /// A new server.
    pub fn new() -> (s: Self) {
        Server::default()
    }
}

/// The name of a service.
pub trait ServiceIdentifier {
    /// The service name for this service.
    fn service_name() -> &'static str;
}

/// The version of a service's interface; 0.0 unless the service says otherwise.
pub trait ServiceVersion {
    /// The major version; 0 unless the service says otherwise.
    fn __major_version__() -> (r: u8)
        default_ensures
            r == 0,
    {
        0
    }

    /// The minor version; 0 unless the service says otherwise.
    fn __minor_version__() -> (r: u32)
        default_ensures
            r == 0,
    {
        0
    }
}

/// The instance of a service; 0 unless the service says otherwise.
pub trait ServiceInstance {
    /// The instance id; 0 unless the service says otherwise.
    fn __instance_id__() -> (r: u16)
        default_ensures
            r == 0,
    {
        0
    }
}

/// What a server does with a packet addressed to one of its services.
#[derive(Debug, Clone, Copy, PartialEq, Eq, Structural)]
pub enum DispatchKind {
    /// Hand it to the handler and send back the handler's answer.
    Reply,
    /// Hand it to the handler and send nothing back.
    NoReply,
    /// Drop it: a server does not expect it.
    Drop,
}

/// A request is handled and answered, a request without return is handled
/// only, and notifications, responses and errors are dropped.
pub fn dispatch_kind(message_type: MessageType) -> (k: DispatchKind)
    ensures
        k == (match message_type {
            MessageType::Request => DispatchKind::Reply,
            MessageType::RequestNoReturn => DispatchKind::NoReply,
            _ => DispatchKind::Drop,
        }),
{
    match message_type {
        MessageType::Request => DispatchKind::Reply,
        MessageType::RequestNoReturn => DispatchKind::NoReply,
        _ => DispatchKind::Drop,
    }
}

/// What becomes of a packet that a service's connection received.
#[derive(Debug)]
pub enum Screening {
    /// It is for this service: hand it to the dispatcher.
    Dispatch(SomeIpPacket),
    /// It is for another service: send this error back.
    Answer(SomeIpPacket),
    /// It is for another service and wants no answer.
    Ignore,
}

/// The error header that answers a packet for an unknown service.
pub open spec fn unknown_service_header(h: SomeIpHeader) -> SomeIpHeader {
    SomeIpHeader {
        message_type: MessageType::Error,
        return_code: return_code_value(ReturnCode::UnknownService),
        length: (header_len(h) - 8) as u32,
        ..h
    }
}

/// A packet whose service id is that of the connection's service is
/// dispatched. Any other packet is answered with an empty `UnknownService`
/// error, unless it is a request without return, which gets no answer.
pub fn screen_request(packet: SomeIpPacket, service_id: u16) -> (r: Screening)
    ensures
        packet.head().message_id / 0x1_0000 == service_id ==> r == Screening::Dispatch(packet),
        packet.head().message_id / 0x1_0000 != service_id && packet.head().message_type
            == MessageType::RequestNoReturn ==> r is Ignore,
        packet.head().message_id / 0x1_0000 != service_id && packet.head().message_type
            != MessageType::RequestNoReturn ==> (r matches Screening::Answer(e) && e.head()
            == unknown_service_header(packet.head()) && e.body() == Seq::<u8>::empty()),
{
    if packet.header().service_id() == service_id {
        Screening::Dispatch(packet)
    } else if packet.header().message_type == MessageType::RequestNoReturn {
        Screening::Ignore
    } else {
        Screening::Answer(SomeIpPacket::error_packet_from(packet, ReturnCode::UnknownService))
    }
}

/// Only notifications are sent to clients on a connection's own initiative.
pub fn may_send_notification(packet: &SomeIpPacket) -> (r: bool)
    ensures
        r == (packet.head().message_type == MessageType::Notification),
{
    packet.header().message_type == MessageType::Notification
}

/// The first of the handlers' service ids that is `service_id`, if any.
pub fn find_handler(service_ids: &[u16], service_id: u16) -> (r: Option<usize>)
    ensures
        match r {
            Some(i) => i < service_ids@.len() && service_ids@[i as int] == service_id && forall|j: int|
                0 <= j < i ==> service_ids@[j] != service_id,
            None => forall|j: int| 0 <= j < service_ids@.len() ==> service_ids@[j] != service_id,
        },
{
    let mut i: usize = 0;
    while i < service_ids.len()
        invariant
            i <= service_ids@.len(),
            forall|j: int| 0 <= j < i ==> service_ids@[j] != service_id,
        decreases service_ids@.len() - i,
    {
        if service_ids[i] == service_id {
            return Some(i);
        }
        i = i + 1;
    }
    None
}

} // verus!
