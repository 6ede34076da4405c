//! The client side: request ids, which packets a client sends and accepts,
//! and the table of calls that wait for a reply.
use crate::someip_codec::{MessageType, SomeIpHeader, SomeIpPacket};
use std::collections::HashMap;
use vstd::prelude::*;

verus! {

broadcast use vstd::std_specs::hash::group_hash_axioms;

/// The state of a call.
#[derive(Debug, Clone)]
pub enum ReplyData {
    /// No reply yet.
    Pending,
    /// The reply arrived.
    Completed(SomeIpPacket),
    /// The call timed out.
    Cancelled,
}

/// What polling a call gives.
#[derive(Debug)]
pub enum CallPoll {
    /// The call still waits.
    Pending,
    /// The call is done with this outcome.
    Ready(ReplyData),
}

/// The request id of a call: the client id in the upper 16 bits, the session
/// id in the lower.
pub open spec fn request_id_of(client_id: u16, session_id: u16) -> u32 {
    (client_id * 0x1_0000 + session_id) as u32
}

/// The request id of a call: the client id in the upper 16 bits, the session
/// id in the lower.
pub fn request_id(client_id: u16, session_id: u16) -> (r: u32)
    ensures
        r == client_id * 0x1_0000 + session_id,
        r == request_id_of(client_id, session_id),
{
    (client_id as u32) * 0x1_0000 + session_id as u32
}

/// The message of a call, with its request id set from the client id and the
/// session id; nothing else changes.
pub fn stamp_request(message: SomeIpPacket, client_id: u16, session_id: u16) -> (p: SomeIpPacket)
    ensures
        p.head() == (SomeIpHeader {
            request_id: request_id_of(client_id, session_id),
            ..message.head()
        }),
        p.body() == message.body(),
{
    let mut m = message;
    let id = request_id(client_id, session_id);
    let h = m.header_mut();
    h.request_id = id;
    m
}

/// Different client and session ids give different request ids.
pub proof fn law_request_ids_distinct(c1: u16, s1: u16, c2: u16, s2: u16)
    ensures
        request_id_of(c1, s1) == request_id_of(c2, s2) <==> (c1 == c2 && s1 == s2),
{
    assert(c1 * 0x1_0000 + s1 < 0x1_0000_0000) by (nonlinear_arith)
        requires
            c1 < 0x1_0000,
            s1 < 0x1_0000,
    ;
    assert(c2 * 0x1_0000 + s2 < 0x1_0000_0000) by (nonlinear_arith)
        requires
            c2 < 0x1_0000,
            s2 < 0x1_0000,
    ;
    if c1 * 0x1_0000 + s1 == c2 * 0x1_0000 + s2 {
        assert(c1 == c2 && s1 == s2) by (nonlinear_arith)
            requires
                c1 * 0x1_0000 + s1 == c2 * 0x1_0000 + s2,
                0 <= s1 < 0x1_0000,
                0 <= s2 < 0x1_0000,
                0 <= c1,
                0 <= c2,
        ;
    }
}

/// The session ids of a client: 0, 1, 2, ..., one per call, shared by all
/// the calls the client makes.
pub struct SessionCounter {
    next: u16,
}

impl SessionCounter {
    /// How many session ids were handed out: the next one to hand out.
    pub closed spec fn issued(&self) -> u16 {
        self.next
    }

    /// A counter that has handed out nothing.
    pub fn new() -> (c: Self)
        ensures
            c.issued() == 0,
    {
        SessionCounter { next: 0 }
    }

    /// How many session ids were handed out.
    pub fn issued_count(&self) -> (r: u16)
        ensures
            r == self.issued(),
    {
        self.next
    }

    /// Hands out the next session id. The count must not reach past
    /// `u16::MAX`.
    pub fn next_session(&mut self) -> (r: u16)
        requires
            old(self).issued() < u16::MAX,
        ensures
            r == old(self).issued(),
            final(self).issued() == old(self).issued() + 1,
    {
        let r = self.next;
        self.next = self.next + 1;
        r
    }
}

/// The `n`-th session id a counter hands out (counting from 0) is `n`, so a
/// client's calls get distinct request ids: two calls with the same request
/// id have the same session id.
pub proof fn law_sessions_distinct(client_id: u16, n1: u16, n2: u16)
    requires
        n1 != n2,
    ensures
        request_id_of(client_id, n1) != request_id_of(client_id, n2),
{
    law_request_ids_distinct(client_id, n1, client_id, n2);
}

/// Whether a client may send the packet: only requests, with or without a
/// return.
pub fn is_request(packet: &SomeIpPacket) -> (r: bool)
    ensures
        r == (packet.head().message_type == MessageType::Request || packet.head().message_type
            == MessageType::RequestNoReturn),
{
    match packet.header().message_type {
        MessageType::Request | MessageType::RequestNoReturn => true,
        _ => false,
    }
}

/// What a client does with a packet it receives.
#[derive(Debug, Clone, Copy, PartialEq, Eq, Structural)]
pub enum Incoming {
    /// A response or an error: it completes the call with its request id.
    CompleteCall,
    /// A notification.
    Notification,
    /// Anything else is not expected by a client.
    Unexpected,
}

/// How a client sorts a received packet of this type.
pub open spec fn incoming_kind(t: MessageType) -> Incoming {
    match t {
        MessageType::Response | MessageType::Error => Incoming::CompleteCall,
        MessageType::Notification => Incoming::Notification,
        _ => Incoming::Unexpected,
    }
}

/// Sorts a received packet: responses and errors complete a call,
/// notifications are events, anything else is unexpected.
pub fn classify_incoming(packet: &SomeIpPacket) -> (r: Incoming)
    ensures
        r == incoming_kind(packet.head().message_type),
{
    match packet.header().message_type {
        MessageType::Response | MessageType::Error => Incoming::CompleteCall,
        MessageType::Notification => Incoming::Notification,
        _ => Incoming::Unexpected,
    }
}

/// What became of a received packet.
#[derive(Debug, Clone, Copy, PartialEq, Eq, Structural)]
pub enum Receipt {
    /// It completed the call with this request id.
    Completed(u32),
    /// It answers this request id, but no call with it is in the table.
    NotPending(u32),
    /// It is a notification.
    Notification,
    /// A client does not expect it.
    Unexpected,
}

/// The calls that wait for a reply, by request id.
pub struct PendingCalls {
    calls: HashMap<u32, ReplyData>,
}

/// The table after a reply to `id` arrives: a call with that id takes the
/// reply, whatever its state; a reply to no call changes nothing.
pub open spec fn after_reply(m: Map<u32, ReplyData>, id: u32, packet: SomeIpPacket) -> Map<u32, ReplyData> {
    if m.contains_key(id) {
        m.insert(id, ReplyData::Completed(packet))
    } else {
        m
    }
}

/// The table after the call `id` times out: a pending call is dropped; a
/// call that already has an outcome stays.
pub open spec fn after_timeout(m: Map<u32, ReplyData>, id: u32) -> Map<u32, ReplyData> {
    if m[id] is Pending {
        m.remove(id)
    } else {
        m
    }
}

/// What polling the call `id` gives, and the table after it: a pending call
/// waits; a completed call hands over its reply and leaves the table; a
/// cancelled call, or one that is not in the table, is cancelled.
pub open spec fn poll_call(m: Map<u32, ReplyData>, id: u32) -> (Map<u32, ReplyData>, CallPoll) {
    if !m.contains_key(id) {
        (m, CallPoll::Ready(ReplyData::Cancelled))
    } else {
        match m[id] {
            ReplyData::Pending => (m, CallPoll::Pending),
            ReplyData::Cancelled => (m, CallPoll::Ready(ReplyData::Cancelled)),
            ReplyData::Completed(p) => (m.remove(id), CallPoll::Ready(ReplyData::Completed(p))),
        }
    }
}

impl View for PendingCalls {
    type V = Map<u32, ReplyData>;

    closed spec fn view(&self) -> Map<u32, ReplyData> {
        self.calls@
    }
}

impl PendingCalls {
    /// An empty table.
    pub fn new() -> (t: Self)
        ensures
            t@ == Map::<u32, ReplyData>::empty(),
    {
        PendingCalls { calls: HashMap::new() }
    }

    /// Whether a call with this id is in the table.
    pub fn contains(&self, request_id: u32) -> (r: bool)
        ensures
            r == self@.contains_key(request_id),
    {
        self.calls.contains_key(&request_id)
    }

    /// Records a new call that waits for its reply; the id must be new.
    pub fn insert_pending(&mut self, request_id: u32)
        requires
            !old(self)@.contains_key(request_id),
        ensures
            final(self)@ == old(self)@.insert(request_id, ReplyData::Pending),
    {
        self.calls.insert(request_id, ReplyData::Pending);
    }

    /// A reply arrived; returns whether a call took it.
    pub fn complete(&mut self, request_id: u32, packet: SomeIpPacket) -> (r: bool)
        ensures
            r == old(self)@.contains_key(request_id),
            final(self)@ == after_reply(old(self)@, request_id, packet),
    {
        if self.calls.contains_key(&request_id) {
            self.calls.insert(request_id, ReplyData::Completed(packet));
            true
        } else {
            false
        }
    }

    /// The call timed out; the caller sees it as cancelled. The call must be
    /// in the table.
    pub fn timeout(&mut self, request_id: u32) -> (r: ReplyData)
        requires
            old(self)@.contains_key(request_id),
        ensures
            r is Cancelled,
            final(self)@ == after_timeout(old(self)@, request_id),
    {
        let pending = match self.calls.get(&request_id) {
            Some(ReplyData::Pending) => true,
            _ => false,
        };
        if pending {
            self.calls.remove(&request_id);
        }
        ReplyData::Cancelled
    }

    /// Takes a received packet: a response or an error completes the call
    /// with the packet's request id, if that call is in the table;
    /// notifications and other packets leave the table as it is.
    pub fn receive(&mut self, packet: SomeIpPacket) -> (r: Receipt)
        ensures
            ({
                let id = packet.head().request_id;
                match incoming_kind(packet.head().message_type) {
                    Incoming::CompleteCall => final(self)@ == after_reply(old(self)@, id, packet) && r == (if old(
                        self,
                    )@.contains_key(id) {
                        Receipt::Completed(id)
                    } else {
                        Receipt::NotPending(id)
                    }),
                    Incoming::Notification => final(self)@ == old(self)@ && r == Receipt::Notification,
                    Incoming::Unexpected => final(self)@ == old(self)@ && r == Receipt::Unexpected,
                }
            }),
    {
        match classify_incoming(&packet) {
            Incoming::CompleteCall => {
                let id = packet.header().request_id;
                if self.complete(id, packet) {
                    Receipt::Completed(id)
                } else {
                    Receipt::NotPending(id)
                }
            },
            Incoming::Notification => Receipt::Notification,
            Incoming::Unexpected => Receipt::Unexpected,
        }
    }

    /// Polls the call: see `poll_call`.
    pub fn poll(&mut self, request_id: u32) -> (r: CallPoll)
        ensures
            (final(self)@, r) == poll_call(old(self)@, request_id),
    {
        let state = match self.calls.get(&request_id) {
            None => 0u8,
            Some(ReplyData::Pending) => 1u8,
            Some(ReplyData::Cancelled) => 2u8,
            Some(ReplyData::Completed(_)) => 3u8,
        };
        if state == 0 || state == 2 {
            CallPoll::Ready(ReplyData::Cancelled)
        } else if state == 1 {
            CallPoll::Pending
        } else {
            match self.calls.remove(&request_id) {
                Some(data) => CallPoll::Ready(data),
                None => CallPoll::Ready(ReplyData::Cancelled),
            }
        }
    }
}

/// A reply that arrives for a call is what the next poll of that call hands
/// over, and the call then leaves the table.
pub proof fn law_poll_after_reply(m: Map<u32, ReplyData>, id: u32, packet: SomeIpPacket)
    requires
        m.contains_key(id),
    ensures
        poll_call(after_reply(m, id, packet), id) == (m.remove(id), CallPoll::Ready(
            ReplyData::Completed(packet),
        )),
{
    assert(after_reply(m, id, packet).remove(id) =~= m.remove(id));
}

/// A call that times out while it waits is answered as cancelled, and a reply
/// that comes later reaches no call.
pub proof fn law_timeout_then_reply(m: Map<u32, ReplyData>, id: u32, packet: SomeIpPacket)
    requires
        m.contains_key(id),
        m[id] is Pending,
    ensures
        poll_call(after_timeout(m, id), id).1 == CallPoll::Ready(ReplyData::Cancelled),
        after_reply(after_timeout(m, id), id, packet) == after_timeout(m, id),
{
}

/// A new call waits until something happens to it.
pub proof fn law_new_call_waits(m: Map<u32, ReplyData>, id: u32)
    ensures
        poll_call(m.insert(id, ReplyData::Pending), id) == (m.insert(id, ReplyData::Pending), CallPoll::Pending),
{
}

} // verus!
