//! Service discovery messages: the flags, entries and options they carry and
//! their payload.
use crate::byte_order::{
    be_bytes, be_value, lemma_be_roundtrip, lemma_be_value_4, lemma_be_value_bound, lemma_pow256_facts, push_be,
    push_bytes, read_be,
};
use crate::sd_entries::{with_high_nibble, with_low_nibble, ServiceEntry};
use crate::sd_options::{
    be_at, law_option_roundtrip, lemma_option_length_field, option_bytes, option_encodable,
    option_from_bytes, option_roundtrips, Decoded, OptionModel, SDOption,
};
use crate::someip_codec::{
    length_for_payload, MessageType, SomeIpHeader, SomeIpPacket, SD_MESSAGE_ID,
};
use vstd::prelude::*;

pub use crate::sd_entries::{EventGroupEntry, ServiceEntryType};
pub use crate::sd_options::{ConfigurationKey, SDOptionTransportProto};

verus! {

/// What a service discovery message holds: its header, the bytes of its
/// entries, its options and its flags word.
pub struct SDMessageModel {
    pub header: SomeIpHeader,
    pub entries: Seq<Seq<u8>>,
    pub options: Seq<OptionModel>,
    pub flags: u32,
}

/// The reboot flag: the top bit of the flags word.
pub const REBOOT_FLAG: u32 = 0x8000_0000;

/// The unicast flag: the second bit of the flags word.
pub const UNICAST_FLAG: u32 = 0x4000_0000;

/// The explicit-initial-data-control flag: the third bit of the flags word.
pub const EXP_INITIAL_DATA_CONTROL_FLAG: u32 = 0x2000_0000;

/// Whether the bit `m` (a power of two) is set in `f`.
pub open spec fn flag_set(f: u32, m: u32) -> bool {
    (f / m) % 2 == 1
}

/// `f` with the bit `m` (a power of two) set to `b`.
pub open spec fn with_flag(f: u32, m: u32, b: bool) -> u32 {
    (f - (if flag_set(f, m) { m as int } else { 0 }) + (if b { m as int } else { 0 })) as u32
}

/// The bytes of a list of entries, in order.
pub open spec fn entries_bytes(es: Seq<Seq<u8>>) -> Seq<u8>
    decreases es.len(),
{
    if es.len() == 0 {
        Seq::empty()
    } else {
        entries_bytes(es.drop_last()) + es.last()
    }
}

/// The bytes of a list of options, in order.
pub open spec fn options_bytes(os: Seq<OptionModel>) -> Seq<u8>
    decreases os.len(),
{
    if os.len() == 0 {
        Seq::empty()
    } else {
        options_bytes(os.drop_last()) + option_bytes(os.last())
    }
}

/// The payload of a service discovery message: the flags word, the number of
/// entries, the entries, the length of the options, and the options; the words
/// big-endian.
pub open spec fn sd_payload(m: SDMessageModel) -> Seq<u8> {
    be_bytes(m.flags as nat, 4) + be_bytes((m.entries.len() as u32) as nat, 4) + entries_bytes(
        m.entries,
    ) + be_bytes((options_bytes(m.options).len() as u32) as nat, 4) + options_bytes(m.options)
}

/// A message can be written: its options can, and the packet's length field
/// does not overflow.
pub open spec fn sd_encodable(m: SDMessageModel) -> bool {
    &&& forall|i: int| 0 <= i < m.options.len() ==> #[trigger] option_encodable(m.options[i])
    &&& length_for_payload(m.header, sd_payload(m).len()) <= u32::MAX
}

/// `d` with the options `prefix` put in front, when `d` holds options.
pub open spec fn prepend_options(prefix: Seq<OptionModel>, d: Decoded<Seq<OptionModel>>) -> Decoded<Seq<OptionModel>> {
    match d {
        Decoded::Parsed(rest) => Decoded::Parsed(prefix + rest),
        Decoded::Rejected => Decoded::Rejected,
        Decoded::Fault => Decoded::Fault,
    }
}

/// The options read from `buf` starting at `start`: each a big-endian length
/// `l` and the `l + 1` bytes after it; reading stops when fewer than two
/// bytes remain. An option that runs past the end is a fault.
pub open spec fn options_from_bytes(buf: Seq<u8>, start: int) -> Decoded<Seq<OptionModel>>
    decreases buf.len() - start,
{
    if start < 0 || start + 2 > buf.len() {
        Decoded::Parsed(Seq::empty())
    } else {
        let end = start + be_at(buf, start, 2) + 3;
        if end > buf.len() {
            Decoded::Fault
        } else {
            match option_from_bytes(buf.subrange(start, end)) {
                Decoded::Fault => Decoded::Fault,
                Decoded::Rejected => Decoded::Rejected,
                Decoded::Parsed(o) => prepend_options(seq![o], options_from_bytes(buf, end)),
            }
        }
    }
}

/// Whether a header is that of a service discovery message: the discovery
/// message id, interface version 1, and a notification.
pub open spec fn is_sd_header(h: SomeIpHeader) -> bool {
    h.message_id == SD_MESSAGE_ID && h.interface_version == 1 && h.message_type
        == MessageType::Notification
}

/// The type byte of the `k`-th entry of a payload.
pub open spec fn entry_type_byte(p: Seq<u8>, k: int) -> u8 {
    p[8 + 16 * k]
}

/// The bytes of the `k`-th entry of a payload.
pub open spec fn entry_at(p: Seq<u8>, k: int) -> Seq<u8> {
    p.subrange(8 + 16 * k, 24 + 16 * k)
}

/// What reading a service discovery message from a packet with header `h` and
/// payload `p` gives.
pub open spec fn sd_from_packet(h: SomeIpHeader, p: Seq<u8>) -> Decoded<SDMessageModel> {
    if !is_sd_header(h) {
        Decoded::Rejected
    } else if p.len() < 8 {
        Decoded::Fault
    } else {
        let n = be_at(p, 4, 4) as int;
        let idx = 8 + 16 * n;
        if p.len() < idx {
            Decoded::Rejected
        } else if exists|k: int| 0 <= k < n && #[trigger] entry_type_byte(p, k) > 1 {
            Decoded::Rejected
        } else if p.len() < idx + 4 {
            Decoded::Fault
        } else if be_at(p, idx, 4) != p.len() - idx - 4 {
            Decoded::Rejected
        } else {
            match options_from_bytes(p.subrange(idx + 4, p.len() as int), 0) {
                Decoded::Fault => Decoded::Fault,
                Decoded::Rejected => Decoded::Rejected,
                Decoded::Parsed(os) => Decoded::Parsed(
                    SDMessageModel {
                        header: h,
                        entries: Seq::new(n as nat, |k: int| entry_at(p, k)),
                        options: os,
                        flags: be_at(p, 0, 4) as u32,
                    },
                ),
            }
        }
    }
}

/// Why an entry could not be added.
#[derive(Debug, Clone, Copy, PartialEq, Eq, Structural)]
pub enum AddEntryError {
    /// An option index or run does not fit four bits.
    InvalidInput,
    /// An option run reaches past the message's options.
    NotFound,
}

/// A service discovery message.
#[derive(PartialEq, Debug, Clone)]
pub struct SDMessage {
    header: SomeIpHeader,
    entries: Vec<ServiceEntry>,
    options: Vec<SDOption>,
    flags_reserved: u32,
}

impl View for SDMessage {
    type V = SDMessageModel;

    closed spec fn view(&self) -> SDMessageModel {
        SDMessageModel {
            header: self.header,
            entries: self.entries@.map_values(|e: ServiceEntry| e.bytes()),
            options: self.options@.map_values(|o: SDOption| o@),
            flags: self.flags_reserved,
        }
    }
}

impl SDMessage {
    /// Replaces the options.
    pub fn set_options(&mut self, options: Vec<SDOption>)
        ensures
            final(self)@ == (SDMessageModel {
                options: options@.map_values(|o: SDOption| o@),
                ..old(self)@
            }),
    {
        self.options = options;
    }

    /// The reboot flag.
    pub fn is_reboot(&self) -> (r: bool)
        ensures
            r == flag_set(self@.flags, REBOOT_FLAG),
    {
        (self.flags_reserved / REBOOT_FLAG) % 2 == 1
    }

    /// Sets the reboot flag.
    pub fn set_reboot(&mut self, reboot: bool)
        ensures
            final(self)@ == (SDMessageModel { flags: with_flag(old(self)@.flags, REBOOT_FLAG, reboot), ..old(self)@ }),
    {
        self.flags_reserved = set_flag(self.flags_reserved, REBOOT_FLAG, reboot);
    }

    /// The unicast flag.
    pub fn is_unicast(&self) -> (r: bool)
        ensures
            r == flag_set(self@.flags, UNICAST_FLAG),
    {
        (self.flags_reserved / UNICAST_FLAG) % 2 == 1
    }

    /// Sets the unicast flag.
    pub fn set_unicast(&mut self, unicast: bool)
        ensures
            final(self)@ == (SDMessageModel { flags: with_flag(old(self)@.flags, UNICAST_FLAG, unicast), ..old(self)@ }),
    {
        self.flags_reserved = set_flag(self.flags_reserved, UNICAST_FLAG, unicast);
    }

    /// The explicit-initial-data-control flag.
    pub fn is_exp_initial_data_control(&self) -> (r: bool)
        ensures
            r == flag_set(self@.flags, EXP_INITIAL_DATA_CONTROL_FLAG),
    {
        (self.flags_reserved / EXP_INITIAL_DATA_CONTROL_FLAG) % 2 == 1
    }

    /// Sets the explicit-initial-data-control flag.
    pub fn set_exp_initial_data_control(&mut self, initial_data_ctrl: bool)
        ensures
            final(self)@ == (SDMessageModel {
                flags: with_flag(old(self)@.flags, EXP_INITIAL_DATA_CONTROL_FLAG, initial_data_ctrl),
                ..old(self)@
            }),
    {
        self.flags_reserved = set_flag(self.flags_reserved, EXP_INITIAL_DATA_CONTROL_FLAG, initial_data_ctrl);
    }

    /// Adds an entry that refers to the option runs `config_index1` (length
    /// `config_run1`) and `config_index2` (length `config_run2`). Each value
    /// must fit four bits, and a run that is not empty must end before the last
    /// option (its index plus its length must be below the number of options).
    pub fn add_entry(
        &mut self,
        entry: ServiceEntry,
        config_index1: u8,
        config_run1: u8,
        config_index2: u8,
        config_run2: u8,
    ) -> (r: Result<(), AddEntryError>)
        ensures
            ({
                let n = old(self)@.options.len();
                if config_index1 > 0xF || config_run1 > 0xF || config_index2 > 0xF || config_run2 > 0xF {
                    r == Err::<(), AddEntryError>(AddEntryError::InvalidInput) && final(self)@ == old(self)@
                } else if (config_run1 > 0 && config_index1 + config_run1 >= n) || (config_run2 > 0
                    && config_index2 + config_run2 >= n) {
                    r == Err::<(), AddEntryError>(AddEntryError::NotFound) && final(self)@ == old(self)@
                } else {
                    &&& r is Ok
                    &&& final(self)@ == (SDMessageModel {
                        entries: old(self)@.entries.push(
                            with_low_nibble(
                                with_high_nibble(entry.bytes().update(1, config_index1), 3, config_run1).update(
                                    2,
                                    config_index2,
                                ),
                                3,
                                config_run2,
                            ),
                        ),
                        ..old(self)@
                    })
                }
            }),
    {
        if config_index1 > 0xF || config_run1 > 0xF || config_index2 > 0xF || config_run2 > 0xF {
            return Err(AddEntryError::InvalidInput);
        }
        if config_run1 > 0 && (config_index1 + config_run1) as usize >= self.options.len() {
            return Err(AddEntryError::NotFound);
        }
        if config_run2 > 0 && (config_index2 + config_run2) as usize >= self.options.len() {
            return Err(AddEntryError::NotFound);
        }
        let mut entry = entry;
        entry.set_index1_options(config_index1, config_run1);
        entry.set_index2_options(config_index2, config_run2);
        let ghost old_entries = self.entries@;
        self.entries.push(entry);
        assert(self.entries@.map_values(|e: ServiceEntry| e.bytes()) =~= old_entries.map_values(
            |e: ServiceEntry| e.bytes(),
        ).push(entry.bytes()));
        Ok(())
    }

    /// The packet that carries the message: its header with the length field
    /// set, and the payload `sd_payload` describes.
    pub fn into_packet(self) -> (p: SomeIpPacket)
        requires
            sd_encodable(self@),
        ensures
            p.head() == (SomeIpHeader {
                length: length_for_payload(self@.header, sd_payload(self@).len()) as u32,
                ..self@.header
            }),
            p.body() == sd_payload(self@),
    {
        let ghost m = self@;
        let mut payload: Vec<u8> = Vec::new();
        push_be(&mut payload, self.flags_reserved as u128, 4);
        push_be(&mut payload, (self.entries.len() as u32) as u128, 4);
        let mut i: usize = 0;
        while i < self.entries.len()
            invariant
                0 <= i <= self.entries.len(),
                m == self@,
                payload@ == be_bytes(m.flags as nat, 4) + be_bytes((m.entries.len() as u32) as nat, 4)
                    + entries_bytes(m.entries.take(i as int)),
            decreases self.entries.len() - i,
        {
            push_bytes(&mut payload, self.entries[i].as_buffer());
            proof {
                assert(m.entries.take(i + 1).drop_last() =~= m.entries.take(i as int));
                assert(m.entries[i as int] == self.entries@[i as int].bytes());
            }
            i = i + 1;
        }
        assert(m.entries.take(i as int) =~= m.entries);
        let mut options_raw: Vec<u8> = Vec::new();
        let mut j: usize = 0;
        while j < self.options.len()
            invariant
                0 <= j <= self.options.len(),
                m == self@,
                sd_encodable(m),
                options_raw@ == options_bytes(m.options.take(j as int)),
            decreases self.options.len() - j,
        {
            assert(m.options[j as int] == self.options@[j as int]@);
            assert(option_encodable(m.options[j as int]));
            let raw = self.options[j].encode();
            push_bytes(&mut options_raw, raw.as_slice());
            proof {
                assert(m.options.take(j + 1).drop_last() =~= m.options.take(j as int));
            }
            j = j + 1;
        }
        assert(m.options.take(j as int) =~= m.options);
        push_be(&mut payload, (options_raw.len() as u32) as u128, 4);
        push_bytes(&mut payload, options_raw.as_slice());
        assert(payload@ =~= sd_payload(m));
        SomeIpPacket::new(self.header, payload)
    }
}

/// `f` with the bit `m` set to `b`.
fn set_flag(f: u32, m: u32, b: bool) -> (r: u32)
    requires
        m == REBOOT_FLAG || m == UNICAST_FLAG || m == EXP_INITIAL_DATA_CONTROL_FLAG,
    ensures
        r == with_flag(f, m, b),
{
    let cleared = if (f / m) % 2 == 1 {
        f - m
    } else {
        f
    };
    proof {
        assert(cleared as int + m <= u32::MAX) by (nonlinear_arith)
            requires
                cleared == (if (f / m) % 2 == 1 { f - m } else { f as int }),
                m == 0x8000_0000 || m == 0x4000_0000 || m == 0x2000_0000,
                f <= u32::MAX,
        ;
    }
    if b {
        cleared + m
    } else {
        cleared
    }
}

impl Default for SDMessage {
    /// An empty message: no entries, no options, no flags, and a
    /// notification header with the discovery message id, interface version 1
    /// and the length of an empty payload.
    fn default() -> (m: Self)
        ensures
            m@.entries.len() == 0,
            m@.options.len() == 0,
            m@.flags == 0,
            m@.header == (SomeIpHeader {
                message_id: SD_MESSAGE_ID,
                length: 20,
                request_id: 0,
                interface_version: 1,
                message_type: MessageType::Notification,
                return_code: 0,
                tp_header: None,
            }),
    {
        let m = SDMessage {
            header: SomeIpHeader {
                message_id: SD_MESSAGE_ID,
                length: 20,
                request_id: 0,
                interface_version: 1,
                message_type: MessageType::Notification,
                return_code: 0,
                tp_header: None,
            },
            entries: Vec::new(),
            options: Vec::new(),
            flags_reserved: 0,
        };
        assert(m@.entries.len() == 0);
        assert(m@.options.len() == 0);
        m
    }
}


/// An exec outcome seen through the message view.
pub open spec fn decoded_message_view(r: Decoded<SDMessage>) -> Decoded<SDMessageModel> {
    match r {
        Decoded::Parsed(m) => Decoded::Parsed(m@),
        Decoded::Rejected => Decoded::Rejected,
        Decoded::Fault => Decoded::Fault,
    }
}

proof fn lemma_prepend_empty(d: Decoded<Seq<OptionModel>>)
    ensures
        prepend_options(Seq::empty(), d) == d,
{
    if let Decoded::Parsed(rest) = d {
        assert(Seq::<OptionModel>::empty() + rest =~= rest);
    }
}

proof fn lemma_prepend_assoc(a: Seq<OptionModel>, b: Seq<OptionModel>, d: Decoded<Seq<OptionModel>>)
    ensures
        prepend_options(a, prepend_options(b, d)) == prepend_options(a + b, d),
{
    if let Decoded::Parsed(rest) = d {
        assert(a + (b + rest) =~= (a + b) + rest);
    }
}

/// Reads the options of `buf` as `options_from_bytes` describes.
fn decode_options(buf: &[u8]) -> (r: Decoded<Vec<SDOption>>)
    ensures
        match options_from_bytes(buf@, 0) {
            Decoded::Parsed(os) => r matches Decoded::Parsed(v) && v@.map_values(|o: SDOption| o@) == os,
            Decoded::Rejected => r is Rejected,
            Decoded::Fault => r is Fault,
        },
{
    let mut options: Vec<SDOption> = Vec::new();
    let mut start: usize = 0;
    proof {
        lemma_prepend_empty(options_from_bytes(buf@, 0));
        assert(options@.map_values(|o: SDOption| o@) =~= Seq::<OptionModel>::empty());
    }
    while buf.len() - start >= 2
        invariant
            start <= buf.len(),
            options_from_bytes(buf@, 0) == prepend_options(
                options@.map_values(|o: SDOption| o@),
                options_from_bytes(buf@, start as int),
            ),
        decreases buf.len() - start,
    {
        proof {
            lemma_be_value_bound(buf@.subrange(start as int, start + 2));
            lemma_pow256_facts();
        }
        let l = read_be(buf, start, 2) as usize;
        if l + 3 > buf.len() - start {
            return Decoded::Fault;
        }
        let end = start + l + 3;
        match SDOption::decode(&buf[start..end]) {
            Decoded::Fault => {
                return Decoded::Fault;
            },
            Decoded::Rejected => {
                return Decoded::Rejected;
            },
            Decoded::Parsed(o) => {
                let ghost before = options@.map_values(|o: SDOption| o@);
                proof {
                    lemma_prepend_assoc(before, seq![o@], options_from_bytes(buf@, end as int));
                }
                options.push(o);
                assert(options@.map_values(|o: SDOption| o@) =~= before + seq![o@]);
                start = end;
            },
        }
    }
    proof {
        let m = options@.map_values(|o: SDOption| o@);
        assert(m + Seq::<OptionModel>::empty() =~= m);
    }
    Decoded::Parsed(options)
}

impl SDMessage {
    /// Reads a service discovery message from a packet; the outcome says
    /// whether the message is read, rejected, or whether the reader cannot
    /// proceed.
    pub fn decode_packet(pkt: &SomeIpPacket) -> (r: Decoded<SDMessage>)
        ensures
            decoded_message_view(r) == sd_from_packet(pkt.head(), pkt.body()),
    {
        let h = *pkt.header();
        let is_notification = match h.message_type {
            MessageType::Notification => true,
            _ => false,
        };
        if !(h.message_id == SD_MESSAGE_ID && h.interface_version == 1 && is_notification) {
            return Decoded::Rejected;
        }
        let p = pkt.payload().as_slice();
        if p.len() < 8 {
            return Decoded::Fault;
        }
        proof {
            lemma_be_value_bound(p@.subrange(0, 4));
            lemma_be_value_bound(p@.subrange(4, 8));
            lemma_pow256_facts();
        }
        let flags = read_be(p, 0, 4) as u32;
        let n = read_be(p, 4, 4) as u64;
        let idx64 = 8 + 16 * n;
        if (p.len() as u64) < idx64 {
            return Decoded::Rejected;
        }
        let idx = idx64 as usize;
        let count = n as usize;
        let mut entries: Vec<ServiceEntry> = Vec::new();
        let mut k: usize = 0;
        while k < count
            invariant
                0 <= k <= count,
                count == n,
                n == be_at(p@, 4, 4),
                p@ == pkt.body(),
                h == pkt.head(),
                is_sd_header(h),
                p.len() >= 8,
                idx == 8 + 16 * count,
                idx <= p.len(),
                entries@.map_values(|e: ServiceEntry| e.bytes()) =~= Seq::new(k as nat, |j: int| entry_at(p@, j)),
                forall|j: int| 0 <= j < k ==> #[trigger] entry_type_byte(p@, j) <= 1,
            decreases count - k,
        {
            let chunk = &p[8 + 16 * k..24 + 16 * k];
            match ServiceEntry::try_from_bytes(chunk) {
                Err(()) => {
                    proof {
                        assert(chunk@[0] == p@[8 + 16 * k]);
                        assert(entry_type_byte(p@, k as int) > 1);
                    }
                    return Decoded::Rejected;
                },
                Ok(e) => {
                    let ghost before = entries@;
                    entries.push(e);
                    proof {
                        assert(chunk@[0] == p@[8 + 16 * k]);
                        assert(e.bytes() == entry_at(p@, k as int));
                        assert(entries@.map_values(|e: ServiceEntry| e.bytes()) =~= before.map_values(
                            |e: ServiceEntry| e.bytes(),
                        ).push(e.bytes()));
                    }
                    k = k + 1;
                },
            }
        }
        assert(!(exists|j: int| 0 <= j < n && #[trigger] entry_type_byte(p@, j) > 1));
        if p.len() - idx < 4 {
            return Decoded::Fault;
        }
        proof {
            lemma_be_value_bound(p@.subrange(idx as int, idx + 4));
        }
        let olen = read_be(p, idx, 4);
        if olen != (p.len() - idx - 4) as u128 {
            return Decoded::Rejected;
        }
        match decode_options(&p[idx + 4..p.len()]) {
            Decoded::Fault => Decoded::Fault,
            Decoded::Rejected => Decoded::Rejected,
            Decoded::Parsed(options) => {
                let m = SDMessage { header: h, entries, options, flags_reserved: flags };
                assert(m@.entries =~= Seq::new(n as nat, |j: int| entry_at(p@, j)));
                Decoded::Parsed(m)
            },
        }
    }

    /// Reads a service discovery message from a packet; `Err` when the packet
    /// is rejected.
    pub fn try_from_packet(pkt: SomeIpPacket) -> (r: Result<SDMessage, ()>)
        requires
            !(sd_from_packet(pkt.head(), pkt.body()) is Fault),
        ensures
            match sd_from_packet(pkt.head(), pkt.body()) {
                Decoded::Parsed(m) => r matches Ok(msg) && msg@ == m,
                _ => r is Err,
            },
    {
        match Self::decode_packet(&pkt) {
            Decoded::Parsed(m) => Ok(m),
            _ => Err(()),
        }
    }

    /// Whether reading a service discovery message from the packet faults.
    pub fn decode_faults(pkt: &SomeIpPacket) -> (r: bool)
        ensures
            r == (sd_from_packet(pkt.head(), pkt.body()) is Fault),
    {
        match Self::decode_packet(pkt) {
            Decoded::Fault => true,
            _ => false,
        }
    }
}

proof fn lemma_entries_bytes(es: Seq<Seq<u8>>)
    requires
        forall|k: int| 0 <= k < es.len() ==> (#[trigger] es[k]).len() == 16,
    ensures
        entries_bytes(es).len() == 16 * es.len(),
        forall|k: int| 0 <= k < es.len() ==> entries_bytes(es).subrange(16 * k, 16 * k + 16) == #[trigger] es[k],
    decreases es.len(),
{
    if es.len() > 0 {
        let init = es.drop_last();
        assert forall|k: int| 0 <= k < init.len() implies (#[trigger] init[k]).len() == 16 by {
            assert(init[k] == es[k]);
        }
        lemma_entries_bytes(init);
        let b = entries_bytes(es);
        assert(b == entries_bytes(init) + es.last());
        assert forall|k: int| 0 <= k < es.len() implies b.subrange(16 * k, 16 * k + 16) == #[trigger] es[k] by {
            if k < es.len() - 1 {
                assert(init[k] == es[k]);
                assert(b.subrange(16 * k, 16 * k + 16) =~= entries_bytes(init).subrange(16 * k, 16 * k + 16));
            } else {
                assert(b.subrange(16 * k, 16 * k + 16) =~= es.last());
            }
        }
    }
}

proof fn lemma_options_prefix(os: Seq<OptionModel>, i: int)
    requires
        0 <= i <= os.len(),
    ensures
        options_bytes(os).subrange(0, options_bytes(os.take(i)).len() as int) == options_bytes(os.take(i)),
        options_bytes(os.take(i)).len() <= options_bytes(os).len(),
    decreases os.len() - i,
{
    if i == os.len() {
        assert(os.take(i) =~= os);
        assert(options_bytes(os).subrange(0, options_bytes(os).len() as int) =~= options_bytes(os));
    } else {
        lemma_options_prefix(os, i + 1);
        assert(os.take(i + 1).drop_last() =~= os.take(i));
        let a = options_bytes(os.take(i));
        let b = options_bytes(os.take(i + 1));
        assert(b == a + option_bytes(os[i]));
        assert(options_bytes(os).subrange(0, a.len() as int) =~= b.subrange(0, a.len() as int));
        assert(b.subrange(0, a.len() as int) =~= a);
    }
}

#[verifier::rlimit(30)]
proof fn lemma_options_read_back(os: Seq<OptionModel>, i: int)
    requires
        0 <= i <= os.len(),
        forall|k: int| 0 <= k < os.len() ==> #[trigger] option_roundtrips(os[k]),
    ensures
        options_from_bytes(options_bytes(os), options_bytes(os.take(i)).len() as int) == Decoded::Parsed(
            os.subrange(i, os.len() as int),
        ),
    decreases os.len() - i,
{
    let b = options_bytes(os);
    lemma_options_prefix(os, i);
    let pos = options_bytes(os.take(i)).len() as int;
    if i == os.len() {
        assert(os.take(i) =~= os);
        assert(os.subrange(i, os.len() as int) =~= Seq::<OptionModel>::empty());
    } else {
        let o = os[i];
        assert(option_roundtrips(o));
        lemma_option_length_field(o);
        law_option_roundtrip(o);
        lemma_options_prefix(os, i + 1);
        assert(os.take(i + 1).drop_last() =~= os.take(i));
        let next = options_bytes(os.take(i + 1));
        assert(next == options_bytes(os.take(i)) + option_bytes(o));
        let ob = option_bytes(o);
        assert(b.subrange(0, next.len() as int) == next);
        assert(b.subrange(pos, pos + ob.len()) =~= next.subrange(pos, pos + ob.len()));
        assert(next.subrange(pos, pos + ob.len()) =~= ob);
        assert(b.subrange(pos, pos + 2) =~= ob.subrange(0, 2));
        assert(be_at(b, pos, 2) == be_at(ob, 0, 2));
        let end = pos + be_at(b, pos, 2) + 3;
        assert(end == next.len());
        assert(option_from_bytes(b.subrange(pos, end)) == Decoded::Parsed(o));
        lemma_options_read_back(os, i + 1);
        assert(seq![o] + os.subrange(i + 1, os.len() as int) =~= os.subrange(i, os.len() as int));
    }
}

/// Reading the payload of a message gives the message back, under the header
/// the packet carries: for every service discovery header and every message
/// whose entries are 16 bytes with a type byte of 0 or 1, whose options can be
/// read back, and whose counts fit 32 bits.
pub proof fn law_sd_message_roundtrip(h: SomeIpHeader, m: SDMessageModel)
    requires
        is_sd_header(h),
        m.entries.len() <= u32::MAX,
        options_bytes(m.options).len() <= u32::MAX,
        forall|k: int| 0 <= k < m.entries.len() ==> (#[trigger] m.entries[k]).len() == 16 && m.entries[k][0] <= 1,
        forall|k: int| 0 <= k < m.options.len() ==> #[trigger] option_roundtrips(m.options[k]),
    ensures
        sd_from_packet(h, sd_payload(m)) == Decoded::Parsed(SDMessageModel { header: h, ..m }),
{
    lemma_pow256_facts();
    let p = sd_payload(m);
    let n = m.entries.len();
    let eb = entries_bytes(m.entries);
    let ob = options_bytes(m.options);
    lemma_entries_bytes(m.entries);
    lemma_be_roundtrip(m.flags as nat, 4);
    lemma_be_roundtrip(n, 4);
    lemma_be_roundtrip(ob.len(), 4);
    assert(p.subrange(0, 4) =~= be_bytes(m.flags as nat, 4));
    assert(p.subrange(4, 8) =~= be_bytes(n, 4));
    let idx = (8 + 16 * n) as int;
    assert(p.subrange(8, idx) =~= eb);
    assert(p.subrange(idx, idx + 4) =~= be_bytes(ob.len(), 4));
    assert(p.subrange(idx + 4, p.len() as int) =~= ob);
    assert forall|k: int| 0 <= k < n implies entry_at(p, k) == m.entries[k] by {
        assert(entry_at(p, k) =~= eb.subrange(16 * k, 16 * k + 16));
    }
    assert forall|k: int| 0 <= k < n implies #[trigger] entry_type_byte(p, k) <= 1 by {
        assert(entry_at(p, k)[0] == entry_type_byte(p, k));
        assert(entry_at(p, k) == m.entries[k]);
    }
    lemma_options_read_back(m.options, 0);
    assert(m.options.take(0) =~= Seq::<OptionModel>::empty());
    assert(m.options.subrange(0, m.options.len() as int) =~= m.options);
    assert(Seq::new(n as nat, |k: int| entry_at(p, k)) =~= m.entries);
}

/// The payload of a message opens with the flags word (big-endian) in bytes
/// 0 to 3 and the number of entries (big-endian) in bytes 4 to 7.
pub proof fn law_sd_payload_layout(m: SDMessageModel)
    ensures
        ({
            let p = sd_payload(m);
            &&& p.len() >= 8
            &&& (p[0] as nat) * 0x100_0000 + (p[1] as nat) * 0x1_0000 + (p[2] as nat) * 0x100 + (p[3] as nat)
                == m.flags
            &&& (p[4] as nat) * 0x100_0000 + (p[5] as nat) * 0x1_0000 + (p[6] as nat) * 0x100 + (p[7] as nat)
                == (m.entries.len() as u32)
        }),
{
    lemma_pow256_facts();
    let p = sd_payload(m);
    lemma_be_roundtrip(m.flags as nat, 4);
    lemma_be_roundtrip((m.entries.len() as u32) as nat, 4);
    assert(p.subrange(0, 4) =~= be_bytes(m.flags as nat, 4));
    assert(p.subrange(4, 8) =~= be_bytes((m.entries.len() as u32) as nat, 4));
    lemma_be_value_4(p.subrange(0, 4));
    lemma_be_value_4(p.subrange(4, 8));
    assert(p.subrange(0, 4)[0] == p[0] && p.subrange(0, 4)[1] == p[1] && p.subrange(0, 4)[2] == p[2]
        && p.subrange(0, 4)[3] == p[3]);
    assert(p.subrange(4, 8)[0] == p[4] && p.subrange(4, 8)[1] == p[5] && p.subrange(4, 8)[2] == p[6]
        && p.subrange(4, 8)[3] == p[7]);
}

/// A message read from a packet has the packet's header, takes its flags
/// word from bytes 0 to 3 of the payload and its number of entries from bytes
/// 4 to 7 (both big-endian), and its `k`-th entry is the 16 bytes at
/// `8 + 16 * k`.
pub proof fn law_sd_read_layout(h: SomeIpHeader, p: Seq<u8>)
    requires
        sd_from_packet(h, p) is Parsed,
    ensures
        ({
            let msg = sd_from_packet(h, p)->Parsed_0;
            &&& msg.header == h
            &&& msg.flags == (p[0] as nat) * 0x100_0000 + (p[1] as nat) * 0x1_0000 + (p[2] as nat) * 0x100 + (
            p[3] as nat)
            &&& msg.entries.len() == (p[4] as nat) * 0x100_0000 + (p[5] as nat) * 0x1_0000 + (p[6] as nat)
                * 0x100 + (p[7] as nat)
            &&& forall|k: int|
                0 <= k < msg.entries.len() ==> #[trigger] msg.entries[k] == p.subrange(8 + 16 * k, 24 + 16 * k)
        }),
{
    lemma_be_value_4(p.subrange(0, 4));
    lemma_be_value_4(p.subrange(4, 8));
    lemma_be_value_bound(p.subrange(0, 4));
    lemma_pow256_facts();
    assert(p.subrange(0, 4)[0] == p[0] && p.subrange(0, 4)[1] == p[1] && p.subrange(0, 4)[2] == p[2]
        && p.subrange(0, 4)[3] == p[3]);
    assert(p.subrange(4, 8)[0] == p[4] && p.subrange(4, 8)[1] == p[5] && p.subrange(4, 8)[2] == p[6]
        && p.subrange(4, 8)[3] == p[7]);
}

} // verus!
