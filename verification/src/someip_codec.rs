//! SOME/IP headers and packets, and the codec that frames them on a byte stream.
use crate::byte_order::{
    be_bytes, be_value, lemma_be_roundtrip, lemma_be_value_bound, lemma_pow256_facts, read_be,
};
use someip_parse::{ReadError, SomeIpHeaderSlice};
use vstd::prelude::*;

verus! {

/// The default port of service discovery.
pub const SD_PORT: u32 = 30490;

/// The message id of a service discovery message.
pub const SD_MESSAGE_ID: u32 = 0xFFFF_8100;

/// The kind of a SOME/IP message.
#[derive(Debug, Clone, Copy, PartialEq, Eq, Structural)]
pub enum MessageType {
    Request,
    RequestNoReturn,
    Notification,
    Response,
    Error,
}

/// The wire value of a message type (without the TP flag).
pub open spec fn message_type_code(t: MessageType) -> u8 {
    match t {
        MessageType::Request => 0x00,
        MessageType::RequestNoReturn => 0x01,
        MessageType::Notification => 0x02,
        MessageType::Response => 0x80,
        MessageType::Error => 0x81,
    }
}

/// The message type of a wire value with the TP flag removed.
pub open spec fn message_type_of_code(code: u8) -> Option<MessageType> {
    if code == 0x00 {
        Some(MessageType::Request)
    } else if code == 0x01 {
        Some(MessageType::RequestNoReturn)
    } else if code == 0x02 {
        Some(MessageType::Notification)
    } else if code == 0x80 {
        Some(MessageType::Response)
    } else if code == 0x81 {
        Some(MessageType::Error)
    } else {
        None
    }
}

/// The return code of a SOME/IP message.
#[derive(Debug, Clone, Copy, PartialEq, Eq, Structural)]
pub enum ReturnCode {
    EOk,
    NotOk,
    UnknownService,
    UnknownMethod,
    NotReady,
    NotReachable,
    Timeout,
    WrongProtocolVersion,
    WrongInterfaceVersion,
    MalformedMessage,
    WrongMessageType,
    Generic(u8),
    InterfaceError(u8),
}

/// The wire value of a return code.
pub open spec fn return_code_value(c: ReturnCode) -> u8 {
    match c {
        ReturnCode::EOk => 0x00,
        ReturnCode::NotOk => 0x01,
        ReturnCode::UnknownService => 0x02,
        ReturnCode::UnknownMethod => 0x03,
        ReturnCode::NotReady => 0x04,
        ReturnCode::NotReachable => 0x05,
        ReturnCode::Timeout => 0x06,
        ReturnCode::WrongProtocolVersion => 0x07,
        ReturnCode::WrongInterfaceVersion => 0x08,
        ReturnCode::MalformedMessage => 0x09,
        ReturnCode::WrongMessageType => 0x0a,
        ReturnCode::Generic(v) => v,
        ReturnCode::InterfaceError(v) => v,
    }
}

impl ReturnCode {
    /// The wire value of the return code.
    pub fn code(self) -> (r: u8)
        ensures
            r == return_code_value(self),
    {
        match self {
            ReturnCode::EOk => 0x00,
            ReturnCode::NotOk => 0x01,
            ReturnCode::UnknownService => 0x02,
            ReturnCode::UnknownMethod => 0x03,
            ReturnCode::NotReady => 0x04,
            ReturnCode::NotReachable => 0x05,
            ReturnCode::Timeout => 0x06,
            ReturnCode::WrongProtocolVersion => 0x07,
            ReturnCode::WrongInterfaceVersion => 0x08,
            ReturnCode::MalformedMessage => 0x09,
            ReturnCode::WrongMessageType => 0x0a,
            ReturnCode::Generic(v) => v,
            ReturnCode::InterfaceError(v) => v,
        }
    }
}

/// The header of a segment of a large message split over several packets.
#[derive(Debug, Clone, Copy, PartialEq, Eq, Structural)]
pub struct TpHeader {
    /// Offset of this segment's payload in the whole payload; a multiple of 16.
    pub offset: u32,
    /// Whether more segments follow.
    pub more_segment: bool,
}

/// A SOME/IP header.
#[derive(Debug, Clone, Copy, PartialEq, Eq, Structural)]
pub struct SomeIpHeader {
    pub message_id: u32,
    /// The number of bytes that follow the length field.
    pub length: u32,
    pub request_id: u32,
    pub interface_version: u8,
    pub message_type: MessageType,
    pub return_code: u8,
    pub tp_header: Option<TpHeader>,
}

/// What can stop a SOME/IP header from being read.
#[derive(Debug, Clone, Copy, PartialEq, Eq, Structural)]
pub enum HeaderError {
    /// The bytes are too few for the header or for the length it announces.
    UnexpectedEndOfSlice(usize),
    UnsupportedProtocolVersion(u8),
    LengthFieldTooSmall(u32),
    UnknownMessageType(u8),
}

/// The big-endian `u32` that starts at `at`.
pub open spec fn be_u32_at(b: Seq<u8>, at: int) -> nat {
    be_value(b.subrange(at, at + 4))
}

/// The header that the first bytes of `b` hold, as the SOME/IP header format
/// defines it: message id, length, request id (big-endian), protocol version
/// (must be 1), interface version, message type (bit 0x20 marks a TP header that
/// follows), return code; the length must cover the 8 bytes after it (12 with a
/// TP header) and the bytes must hold the whole message it announces.
pub open spec fn header_from_bytes(b: Seq<u8>) -> Result<SomeIpHeader, HeaderError> {
    if b.len() < 16 {
        Err(HeaderError::UnexpectedEndOfSlice(b.len() as usize))
    } else {
        let len = be_u32_at(b, 4);
        let mt = b[14];
        let tp = (mt / 32) % 2 == 1;
        if len < 8 {
            Err(HeaderError::LengthFieldTooSmall(len as u32))
        } else if b.len() < len + 8 {
            Err(HeaderError::UnexpectedEndOfSlice(b.len() as usize))
        } else if b[12] != 1 {
            Err(HeaderError::UnsupportedProtocolVersion(b[12]))
        } else if tp && len < 12 {
            Err(HeaderError::LengthFieldTooSmall(len as u32))
        } else {
            match message_type_of_code((if tp { mt - 32 } else { mt as int }) as u8) {
                None => Err(HeaderError::UnknownMessageType(mt)),
                Some(t) => Ok(
                    SomeIpHeader {
                        message_id: be_u32_at(b, 0) as u32,
                        length: len as u32,
                        request_id: be_u32_at(b, 8) as u32,
                        interface_version: b[13],
                        message_type: t,
                        return_code: b[15],
                        tp_header: if tp {
                            Some(
                                TpHeader {
                                    offset: (be_value(b.subrange(16, 19)) * 256 + (b[19] / 16) * 16) as u32,
                                    more_segment: b[19] % 2 == 1,
                                },
                            )
                        } else {
                            None
                        },
                    },
                ),
            }
        }
    }
}

/// The bytes of a header: the three big-endian words, protocol version 1, the
/// interface version, the message type (with bit 0x20 when a TP header follows),
/// the return code, and the TP header (offset with the more-segments flag in its
/// lowest bit).
pub open spec fn header_bytes(h: SomeIpHeader) -> Seq<u8> {
    let base = be_bytes(h.message_id as nat, 4) + be_bytes(h.length as nat, 4) + be_bytes(
        h.request_id as nat,
        4,
    ) + seq![
        1u8,
        h.interface_version,
        (message_type_code(h.message_type) + if h.tp_header is Some { 32int } else { 0int }) as u8,
        h.return_code,
    ];
    match h.tp_header {
        Some(t) => base + be_bytes(t.offset as nat + if t.more_segment { 1nat } else { 0nat }, 4),
        None => base,
    }
}

/// The number of bytes a header takes on the wire.
pub open spec fn header_len(h: SomeIpHeader) -> nat {
    if h.tp_header is Some {
        20
    } else {
        16
    }
}

impl SomeIpHeader {
    /// A TP offset is a multiple of 16.
    pub open spec fn wf(&self) -> bool {
        self.tp_header matches Some(t) ==> t.offset % 16 == 0
    }

    /// The service id: the upper 16 bits of the message id.
    pub fn service_id(&self) -> (r: u16)
        ensures
            r == self.message_id / 0x1_0000,
    {
        (self.message_id / 0x1_0000) as u16
    }

    /// Sets the upper 16 bits of the message id.
    pub fn set_service_id(&mut self, service_id: u16)
        ensures
            final(self).message_id == old(self).message_id % 0x1_0000 + service_id * 0x1_0000,
            final(self).length == old(self).length,
            final(self).request_id == old(self).request_id,
            final(self).interface_version == old(self).interface_version,
            final(self).message_type == old(self).message_type,
            final(self).return_code == old(self).return_code,
            final(self).tp_header == old(self).tp_header,
    {
        self.message_id = self.message_id % 0x1_0000 + (service_id as u32) * 0x1_0000;
    }

    /// Sets the lower 16 bits of the message id to the event id with the event
    /// bit (0x8000) set.
    pub fn set_event_id(&mut self, event_id: u16)
        ensures
            final(self).message_id == (old(self).message_id / 0x1_0000) * 0x1_0000 + (if event_id
                >= 0x8000 {
                event_id as int
            } else {
                event_id + 0x8000
            }),
            final(self).length == old(self).length,
            final(self).request_id == old(self).request_id,
            final(self).interface_version == old(self).interface_version,
            final(self).message_type == old(self).message_type,
            final(self).return_code == old(self).return_code,
            final(self).tp_header == old(self).tp_header,
    {
        let low: u32 = if event_id >= 0x8000 {
            event_id as u32
        } else {
            event_id as u32 + 0x8000
        };
        self.message_id = (self.message_id / 0x1_0000) * 0x1_0000 + low;
    }

    /// Whether the message id is that of service discovery.
    pub fn is_someip_sd(&self) -> (r: bool)
        ensures
            r == (self.message_id == SD_MESSAGE_ID),
    {
        self.message_id == SD_MESSAGE_ID
    }
}

impl Default for SomeIpHeader {
    /// A request header with all ids zero and a length that covers no payload.
    fn default() -> (h: Self)
        ensures
            h.message_id == 0 && h.length == 8 && h.request_id == 0 && h.interface_version == 0
                && h.message_type == MessageType::Request && h.return_code == 0 && h.tp_header
                is None,
    {
        SomeIpHeader {
            message_id: 0,
            length: 8,
            request_id: 0,
            interface_version: 0,
            message_type: MessageType::Request,
            return_code: 0,
            tp_header: None,
        }
    }
}

/// The fields of a header as `someip_parse` hands them over.
struct WireHeader {
    message_id: u32,
    length: u32,
    request_id: u32,
    interface_version: u8,
    message_type: u8,
    return_code: u8,
    tp: Option<(u32, bool)>,
}

/// `header_from_bytes` with the message type left as its raw wire value.
spec fn wire_header_from_bytes(b: Seq<u8>) -> Result<WireHeader, HeaderError> {
    match header_from_bytes(b) {
        Err(e) => Err(e),
        Ok(h) => Ok(
            WireHeader {
                message_id: h.message_id,
                length: h.length,
                request_id: h.request_id,
                interface_version: h.interface_version,
                message_type: b[14],
                return_code: h.return_code,
                tp: match h.tp_header {
                    Some(t) => Some((t.offset, t.more_segment)),
                    None => None,
                },
            },
        ),
    }
}

#[verifier::external_body]
/// Calls `someip_parse::SomeIpHeaderSlice::from_slice` and reads the fields of
/// the header it finds. Its source checks, in this order, the slice length, the
/// length field, the slice length against the length field, the protocol
/// version, the length field again when the TP flag is set, and the message
/// type; the contract states these checks and the fields through
/// `header_from_bytes`.
fn wire_header(bytes: &[u8]) -> (r: Result<WireHeader, HeaderError>)
    ensures
        r == wire_header_from_bytes(bytes@),
{
    match SomeIpHeaderSlice::from_slice(bytes) {
        Ok(s) => Ok(WireHeader {
            message_id: s.message_id(), length: s.length(), request_id: s.request_id(),
            interface_version: s.interface_version(), message_type: s.message_type_raw(),
            return_code: s.return_code(), tp: s.tp_header().map(|t| (t.offset(), t.more_segment)),
        }),
        Err(ReadError::UnexpectedEndOfSlice(n)) => Err(HeaderError::UnexpectedEndOfSlice(n)),
        Err(ReadError::UnsupportedProtocolVersion(v)) => Err(HeaderError::UnsupportedProtocolVersion(v)),
        Err(ReadError::LengthFieldTooSmall(l)) => Err(HeaderError::LengthFieldTooSmall(l)),
        Err(ReadError::UnknownMessageType(t)) => Err(HeaderError::UnknownMessageType(t)),
        Err(ReadError::IoError(_)) => Err(HeaderError::UnexpectedEndOfSlice(bytes.len())),
    }
}

/// Reads the header at the start of `bytes`.
pub fn read_header(bytes: &[u8]) -> (r: Result<SomeIpHeader, HeaderError>)
    ensures
        r == header_from_bytes(bytes@),
{
    match wire_header(bytes) {
        Err(e) => Err(e),
        Ok(w) => {
            let raw = if w.message_type / 32 % 2 == 1 {
                w.message_type - 32
            } else {
                w.message_type
            };
            let message_type = if raw == 0x00 {
                MessageType::Request
            } else if raw == 0x01 {
                MessageType::RequestNoReturn
            } else if raw == 0x02 {
                MessageType::Notification
            } else if raw == 0x80 {
                MessageType::Response
            } else {
                MessageType::Error
            };
            let tp_header = match w.tp {
                Some((offset, more_segment)) => Some(TpHeader { offset, more_segment }),
                None => None,
            };
            Ok(
                SomeIpHeader {
                    message_id: w.message_id,
                    length: w.length,
                    request_id: w.request_id,
                    interface_version: w.interface_version,
                    message_type,
                    return_code: w.return_code,
                    tp_header,
                },
            )
        },
    }
}

#[verifier::external_body]
/// Calls `someip_parse::SomeIpHeader::write_raw` on a header with the same
/// fields, writing into a fresh vector. Its source writes the 16 base bytes and
/// then the TP header, and fails only when the writer fails, which appending
/// to a vector does not; the contract states those bytes.
fn write_header(h: &SomeIpHeader) -> (r: Option<Vec<u8>>)
    requires
        h.wf(),
    ensures
        r is Some,
        r matches Some(v) ==> v@ == header_bytes(*h),
{
    let message_type = match h.message_type {
        MessageType::Request => someip_parse::MessageType::Request,
        MessageType::RequestNoReturn => someip_parse::MessageType::RequestNoReturn,
        MessageType::Notification => someip_parse::MessageType::Notification,
        MessageType::Response => someip_parse::MessageType::Response,
        MessageType::Error => someip_parse::MessageType::Error,
    };
    let tp_header = h.tp_header.map(|t| someip_parse::TpHeader::with_offset(t.offset, t.more_segment).unwrap());
    let raw = someip_parse::SomeIpHeader { message_id: h.message_id, length: h.length,
        request_id: h.request_id, interface_version: h.interface_version, message_type,
        return_code: h.return_code, tp_header };
    let mut out = Vec::new();
    raw.write_raw(&mut out).ok().map(|_| out)
}

/// A SOME/IP message: header and payload.
#[derive(Debug, Clone, PartialEq, Eq)]
pub struct SomeIpPacket {
    payload: Vec<u8>,
    header: SomeIpHeader,
}

/// The length field that a header announces for a payload of `n` bytes: the
/// 8 header bytes after the length field, the TP header if any, and the payload.
pub open spec fn length_for_payload(h: SomeIpHeader, n: nat) -> int {
    ((n as u32) as int) + header_len(h) - 8
}

impl SomeIpPacket {
    /// The header of the packet.
    pub closed spec fn head(&self) -> SomeIpHeader {
        self.header
    }

    /// The payload of the packet.
    pub closed spec fn body(&self) -> Seq<u8> {
        self.payload@
    }

    /// A packet with the given header and payload; the header's length field is
    /// set to cover the payload (and the TP header, if any).
    pub fn new(header: SomeIpHeader, payload: Vec<u8>) -> (p: Self)
        requires
            length_for_payload(header, payload@.len()) <= u32::MAX,
        ensures
            p.head() == (SomeIpHeader {
                length: length_for_payload(header, payload@.len()) as u32,
                ..header
            }),
            p.body() == payload@,
    {
        let mut header = header;
        if header.tp_header.is_some() {
            header.length = payload.len() as u32 + 12;
        } else {
            header.length = payload.len() as u32 + 8;
        }
        SomeIpPacket { payload, header }
    }

    /// An empty error packet that answers `received` with `code`.
    pub fn error_packet_from(received: SomeIpPacket, code: ReturnCode) -> (p: Self)
        ensures
            p.head() == (SomeIpHeader {
                message_type: MessageType::Error,
                return_code: return_code_value(code),
                length: (header_len(received.head()) - 8) as u32,
                ..received.head()
            }),
            p.body() == Seq::<u8>::empty(),
    {
        let mut header = received.header;
        header.message_type = MessageType::Error;
        header.return_code = code.code();
        Self::new(header, Vec::new())
    }

    /// An empty response packet that answers `received` with `code`.
    pub fn reply_packet_from(received: SomeIpPacket, code: ReturnCode) -> (p: Self)
        ensures
            p.head() == (SomeIpHeader {
                message_type: MessageType::Response,
                return_code: return_code_value(code),
                length: (header_len(received.head()) - 8) as u32,
                ..received.head()
            }),
            p.body() == Seq::<u8>::empty(),
    {
        let mut header = received.header;
        header.message_type = MessageType::Response;
        header.return_code = code.code();
        Self::new(header, Vec::new())
    }

    /// The header of the packet.
    pub fn header(&self) -> (h: &SomeIpHeader)
        ensures
            *h == self.head(),
    {
        &self.header
    }

    /// The header of the packet, to change it in place.
    pub fn header_mut(&mut self) -> (h: &mut SomeIpHeader)
        ensures
            *h == old(self).head(),
            final(self).head() == *final(h),
            final(self).body() == old(self).body(),
    {
        &mut self.header
    }

    /// The payload of the packet.
    pub fn payload(&self) -> (p: &Vec<u8>)
        ensures
            p@ == self.body(),
    {
        &self.payload
    }

    /// Whether a client expects to receive a packet of this kind: a response or
    /// a notification.
    pub fn is_expected_by_client(&self) -> (r: bool)
        ensures
            r == (self.head().message_type == MessageType::Response || self.head().message_type
                == MessageType::Notification),
    {
        match self.header.message_type {
            MessageType::Response | MessageType::Notification => true,
            _ => false,
        }
    }
}

/// What can stop the codec.
#[derive(Debug, Clone, Copy, PartialEq, Eq, Structural)]
pub enum CodecError {
    /// The announced length exceeds the codec's maximum.
    OutOfMemory,
    /// The framed bytes do not hold a valid header.
    InvalidHeader(HeaderError),
    /// The header could not be written.
    UnableToWrite,
}

/// The number of bytes a frame at the start of `b` takes: the length field and
/// the 8 bytes before it.
pub open spec fn frame_len(b: Seq<u8>) -> nat {
    be_u32_at(b, 4) + 8
}

/// What decoding the start of `b` gives with the given maximum length: no
/// packet yet (more bytes are needed), a packet, or an error; and the bytes
/// left in the buffer.
pub open spec fn decode_frame(max_payload_length: u32, b: Seq<u8>) -> (Result<Option<(SomeIpHeader, Seq<u8>)>, CodecError>, Seq<u8>) {
    if b.len() < 8 {
        (Ok(None), b)
    } else if be_u32_at(b, 4) > max_payload_length {
        (Err(CodecError::OutOfMemory), b)
    } else if b.len() < frame_len(b) {
        (Ok(None), b)
    } else {
        let frame = b.subrange(0, frame_len(b) as int);
        let rest = b.subrange(frame_len(b) as int, b.len() as int);
        match header_from_bytes(frame) {
            Err(e) => (Err(CodecError::InvalidHeader(e)), rest),
            Ok(h) => (Ok(Some((h, frame.subrange(header_len(h) as int, frame.len() as int)))), rest),
        }
    }
}

/// Frames SOME/IP packets on a byte stream.
#[derive(Debug, Clone, Copy)]
pub struct SomeIPCodec {
    max_payload_length: u32,
}

impl SomeIPCodec {
    /// The largest length field the codec accepts.
    pub closed spec fn max_len(&self) -> u32 {
        self.max_payload_length
    }

    /// A codec that accepts length fields up to `max_payload_length`.
    pub fn new(max_payload_length: u32) -> (c: Self)
        ensures
            c.max_len() == max_payload_length,
    {
        SomeIPCodec { max_payload_length }
    }

    /// Takes one packet off the front of `buf`, when the whole packet is there.
    pub fn decode(&mut self, buf: &mut Vec<u8>) -> (r: Result<Option<SomeIpPacket>, CodecError>)
        ensures
            ({
                let (res, rest) = decode_frame(old(self).max_len(), old(buf)@);
                &&& final(buf)@ == rest
                &&& match res {
                    Ok(None) => r == Ok::<Option<SomeIpPacket>, CodecError>(None),
                    Ok(Some((h, p))) => r matches Ok(Some(pkt)) && pkt.head() == h && pkt.body() == p,
                    Err(e) => r == Err::<Option<SomeIpPacket>, CodecError>(e),
                }
            }),
            *final(self) == *old(self),
    {
        if buf.len() < 8 {
            return Ok(None);
        }
        let ghost b = buf@;
        proof {
            lemma_be_value_bound(b.subrange(4, 8));
            lemma_pow256_facts();
        }
        let length = read_be(buf.as_slice(), 4, 4) as u32;
        assert(length == be_u32_at(b, 4));
        if length > self.max_payload_length {
            return Err(CodecError::OutOfMemory);
        }
        let frame_length = length as u64 + 8;
        if (buf.len() as u64) < frame_length {
            return Ok(None);
        }
        let rest = buf.split_off(frame_length as usize);
        let mut frame = rest;
        core::mem::swap(&mut frame, buf);
        match read_header(frame.as_slice()) {
            Err(e) => Err(CodecError::InvalidHeader(e)),
            Ok(header) => {
                let start: usize = if header.tp_header.is_some() { 20 } else { 16 };
                let payload = frame.split_off(start);
                Ok(Some(SomeIpPacket { payload, header }))
            },
        }
    }

    /// Appends the header and payload of `packet` to `buf`.
    pub fn encode(&mut self, packet: SomeIpPacket, buf: &mut Vec<u8>) -> (r: Result<(), CodecError>)
        requires
            packet.head().wf(),
        ensures
            r is Ok,
            final(buf)@ == old(buf)@ + header_bytes(packet.head()) + packet.body(),
            *final(self) == *old(self),
    {
        match write_header(&packet.header) {
            None => Err(CodecError::UnableToWrite),
            Some(mut bytes) => {
                let mut payload = packet.payload;
                bytes.append(&mut payload);
                buf.append(&mut bytes);
                Ok(())
            },
        }
    }
}

impl Default for SomeIPCodec {
    /// A codec that accepts length fields up to 4096.
    fn default() -> (c: Self)
        ensures
            c.max_len() == 4096,
    {
        SomeIPCodec { max_payload_length: 4096 }
    }
}

proof fn lemma_tp_word(offset: u32, more: bool)
    requires
        offset % 16 == 0,
    ensures
        ({
            let x = offset as nat + if more { 1nat } else { 0nat };
            &&& x < 0x1_0000_0000
            &&& (x / 256) * 256 + ((x % 256) / 16) * 16 == offset
            &&& ((x % 256) % 2 == 1) == more
        }),
{
    let m: nat = if more { 1 } else { 0 };
    let x = offset as nat + m;
    assert((x / 256) * 256 + ((x % 256) / 16) * 16 == offset && ((x % 256) % 2 == 1) == (m == 1)) by (nonlinear_arith)
        requires
            x == offset + m,
            m <= 1,
            offset % 16 == 0,
            offset >= 0,
    ;
}

proof fn lemma_header_bytes_shape(h: SomeIpHeader)
    requires
        h.wf(),
    ensures
        header_bytes(h).len() == header_len(h),
        be_u32_at(header_bytes(h), 0) == h.message_id,
        be_u32_at(header_bytes(h), 4) == h.length,
        be_u32_at(header_bytes(h), 8) == h.request_id,
        header_bytes(h)[12] == 1,
        header_bytes(h)[13] == h.interface_version,
        header_bytes(h)[14] == message_type_code(h.message_type) + if h.tp_header is Some { 32int } else { 0int },
        header_bytes(h)[15] == h.return_code,
        h.tp_header matches Some(t) ==> ({
            let x = t.offset as nat + if t.more_segment { 1nat } else { 0nat };
            &&& be_value(header_bytes(h).subrange(16, 19)) == x / 256
            &&& header_bytes(h)[19] == x % 256
        }),
{
    lemma_pow256_facts();
    lemma_be_roundtrip(h.message_id as nat, 4);
    lemma_be_roundtrip(h.length as nat, 4);
    lemma_be_roundtrip(h.request_id as nat, 4);
    let b = header_bytes(h);
    assert(b.subrange(0, 4) =~= be_bytes(h.message_id as nat, 4));
    assert(b.subrange(4, 8) =~= be_bytes(h.length as nat, 4));
    assert(b.subrange(8, 12) =~= be_bytes(h.request_id as nat, 4));
    if let Some(t) = h.tp_header {
        let x = t.offset as nat + if t.more_segment { 1nat } else { 0nat };
        lemma_tp_word(t.offset, t.more_segment);
        let w = be_bytes(x, 4);
        assert(w =~= be_bytes(x / 256, 3).push((x % 256) as u8));
        lemma_be_roundtrip(x / 256, 3);
        assert(x / 256 < 0x100_0000) by (nonlinear_arith)
            requires
                x < 0x1_0000_0000,
        ;
        assert(b.subrange(16, 19) =~= be_bytes(x / 256, 3));
        assert(b[19] == w[3]);
    }
}

/// Decoding the bytes that encoding a packet appends gives back the header and
/// the payload, and leaves whatever followed them in the buffer; this holds for
/// every header whose length field covers its payload and does not exceed the
/// codec's maximum.
pub proof fn law_decode_after_encode(max_payload_length: u32, h: SomeIpHeader, payload: Seq<u8>, rest: Seq<u8>)
    requires
        h.wf(),
        h.length == payload.len() + header_len(h) - 8,
        h.length <= max_payload_length,
    ensures
        decode_frame(max_payload_length, header_bytes(h) + payload + rest) == (
            Ok::<Option<(SomeIpHeader, Seq<u8>)>, CodecError>(Some((h, payload))),
            rest,
        ),
{
    lemma_header_bytes_shape(h);
    let hb = header_bytes(h);
    let b = hb + payload + rest;
    assert(b.subrange(4, 8) =~= hb.subrange(4, 8));
    assert(be_u32_at(b, 4) == h.length);
    let frame = b.subrange(0, frame_len(b) as int);
    assert(frame =~= hb + payload);
    assert(b.subrange(frame_len(b) as int, b.len() as int) =~= rest);
    assert(frame.subrange(0, 4) =~= hb.subrange(0, 4));
    assert(frame.subrange(4, 8) =~= hb.subrange(4, 8));
    assert(frame.subrange(8, 12) =~= hb.subrange(8, 12));
    assert(frame[12] == hb[12] && frame[13] == hb[13] && frame[14] == hb[14] && frame[15] == hb[15]);
    let mt = frame[14];
    let tp = (mt / 32) % 2 == 1;
    assert(tp == (h.tp_header is Some)) by {
        match h.message_type {
            MessageType::Request => {},
            MessageType::RequestNoReturn => {},
            MessageType::Notification => {},
            MessageType::Response => {},
            MessageType::Error => {},
        }
    }
    let code = (if tp { mt - 32 } else { mt as int }) as u8;
    assert(message_type_of_code(code) == Some(h.message_type)) by {
        match h.message_type {
            MessageType::Request => {},
            MessageType::RequestNoReturn => {},
            MessageType::Notification => {},
            MessageType::Response => {},
            MessageType::Error => {},
        }
    }
    if let Some(t) = h.tp_header {
        lemma_tp_word(t.offset, t.more_segment);
        assert(frame.subrange(16, 19) =~= hb.subrange(16, 19));
        assert(frame[19] == hb[19]);
    }
    assert(frame.subrange(header_len(h) as int, frame.len() as int) =~= payload);
    assert(header_from_bytes(frame) == Ok::<SomeIpHeader, HeaderError>(h));
}

} // verus!
