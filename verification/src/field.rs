//! The decisions of a field: the request that sets or reads it, and what the
//! reply to that request means.
use crate::client::ReplyData;
use crate::error::PropertyError;
use crate::someip_codec::{MessageType, SomeIpHeader, SomeIpPacket};
use vstd::prelude::*;

verus! {

/// The message id of a field's event: the service id in the upper 16 bits,
/// the field id with the event bit (0x8000) set in the lower.
pub open spec fn field_message_id(field_id: u16, service_id: u16) -> int {
    service_id * 0x1_0000 + (if field_id >= 0x8000 {
        field_id as int
    } else {
        field_id + 0x8000
    })
}

/// The request that carries `payload` to the field `field_id` of the service
/// `service_id`: all other ids zero, and a length that covers the payload.
pub fn field_request(field_id: u16, service_id: u16, payload: Vec<u8>) -> (p: SomeIpPacket)
    requires
        payload@.len() + 8 <= u32::MAX,
    ensures
        p.head() == (SomeIpHeader {
            message_id: field_message_id(field_id, service_id) as u32,
            length: (payload@.len() + 8) as u32,
            request_id: 0,
            interface_version: 0,
            message_type: MessageType::Request,
            return_code: 0,
            tp_header: None,
        }),
        p.body() == payload@,
{
    let mut header = SomeIpHeader::default();
    header.set_event_id(field_id);
    header.message_type = MessageType::Request;
    header.set_service_id(service_id);
    SomeIpPacket::new(header, payload)
}

/// What the outcome of a call that sets a field means: a completed call set
/// it, a cancelled call timed out, a failed call lost the connection. A call
/// that comes back still pending is a fault of the caller and is ruled out.
pub fn set_outcome(reply: Result<ReplyData, std::io::Error>) -> (r: Result<(), PropertyError>)
    requires
        !(reply matches Ok(ReplyData::Pending)),
    ensures
        match reply {
            Ok(ReplyData::Completed(_)) => r == Ok::<(), PropertyError>(()),
            Ok(_) => r == Err::<(), PropertyError>(PropertyError::Cancelled),
            Err(_) => r == Err::<(), PropertyError>(PropertyError::ConnectionError),
        },
{
    match reply {
        Ok(ReplyData::Completed(_)) => Ok(()),
        Ok(_) => Err(PropertyError::Cancelled),
        Err(_) => Err(PropertyError::ConnectionError),
    }
}

/// What the outcome of a call that reads a field means: a completed call
/// hands over the reply whose payload holds the value, a call still pending
/// counts as cancelled, a failed call lost the connection. A cancelled call
/// is left unhandled and is ruled out.
pub fn refresh_outcome(reply: Result<ReplyData, std::io::Error>) -> (r: Result<SomeIpPacket, PropertyError>)
    requires
        !(reply matches Ok(ReplyData::Cancelled)),
    ensures
        match reply {
            Ok(ReplyData::Completed(p)) => r == Ok::<SomeIpPacket, PropertyError>(p),
            Ok(_) => r == Err::<SomeIpPacket, PropertyError>(PropertyError::Cancelled),
            Err(_) => r == Err::<SomeIpPacket, PropertyError>(PropertyError::ConnectionError),
        },
{
    match reply {
        Ok(ReplyData::Completed(p)) => Ok(p),
        Ok(_) => Err(PropertyError::Cancelled),
        Err(_) => Err(PropertyError::ConnectionError),
    }
}

} // verus!
