//! Service and event group entries of service discovery messages.
use crate::byte_order::{le_bytes, le_value, lemma_le_value_bound, lemma_pow256_facts, read_le};
use vstd::prelude::*;

verus! {

/// The kind of a service entry.
#[derive(Debug, Clone, Copy, PartialEq, Eq, Structural)]
pub enum ServiceEntryType {
    Find,
    Offer,
}

/// The wire value of a service entry type.
pub open spec fn entry_type_code(t: ServiceEntryType) -> u8 {
    match t {
        ServiceEntryType::Find => 0,
        ServiceEntryType::Offer => 1,
    }
}

impl ServiceEntryType {
    /// The wire value of the type.
    pub fn code(self) -> (r: u8)
        ensures
            r == entry_type_code(self),
    {
        match self {
            ServiceEntryType::Find => 0,
            ServiceEntryType::Offer => 1,
        }
    }
}

/// The entry bytes with the four bits of `v` written in the high half of byte `at`.
pub open spec fn with_high_nibble(b: Seq<u8>, at: int, v: u8) -> Seq<u8> {
    b.update(at, ((v % 16) * 16 + b[at] % 16) as u8)
}

/// The entry bytes with the four bits of `v` written in the low half of byte `at`.
pub open spec fn with_low_nibble(b: Seq<u8>, at: int, v: u8) -> Seq<u8> {
    b.update(at, ((b[at] / 16) * 16 + v % 16) as u8)
}

/// The entry bytes with the `n` low-order bytes of `v` written, least
/// significant first, at `at`.
pub open spec fn with_le_field(b: Seq<u8>, at: int, n: nat, v: nat) -> Seq<u8> {
    b.subrange(0, at) + le_bytes(v, n) + b.subrange(at + n, b.len() as int)
}

/// The little-endian field of `n` bytes at `at`.
pub open spec fn le_field(b: Seq<u8>, at: int, n: int) -> nat {
    le_value(b.subrange(at, at + n))
}

/// A service entry: 16 bytes holding the type, the option runs, the service
/// and instance ids, the versions and the time to live.
#[derive(Debug, Clone, Copy, PartialEq, Eq)]
pub struct ServiceEntry {
    data: [u8; 16],
}

impl ServiceEntry {
    /// The 16 bytes of the entry.
    pub closed spec fn bytes(&self) -> Seq<u8> {
        self.data@
    }

    /// A service entry always has 16 bytes.
    pub broadcast proof fn lemma_bytes_len(e: ServiceEntry)
        ensures
            #[trigger] e.bytes().len() == 16,
    {
    }

    /// An entry of type Find with major version 0xFF, minor version
    /// 0xFFFF_FFFF, instance id 0xFFFF and every other field zero.
    pub fn new() -> (e: Self)
        ensures
            e.bytes() == seq![0u8, 0, 0, 0, 0, 0, 0xFF, 0xFF, 0xFF, 0, 0, 0, 0xFF, 0xFF, 0xFF, 0xFF],
    {
        let e = ServiceEntry { data: [0, 0, 0, 0, 0, 0, 0xFF, 0xFF, 0xFF, 0, 0, 0, 0xFF, 0xFF, 0xFF, 0xFF] };
        assert(e.bytes() =~= seq![0u8, 0, 0, 0, 0, 0, 0xFF, 0xFF, 0xFF, 0, 0, 0, 0xFF, 0xFF, 0xFF, 0xFF]);
        e
    }

    /// An entry with the 16 bytes of `buf`; `Err` unless `buf` has 16 bytes and
    /// its type byte is 0 (Find) or 1 (Offer).
    pub fn try_from_bytes(buf: &[u8]) -> (r: Result<ServiceEntry, ()>)
        ensures
            buf@.len() == 16 && buf@[0] <= 1 ==> (r matches Ok(e) && e.bytes() == buf@),
            !(buf@.len() == 16 && buf@[0] <= 1) ==> r is Err,
    {
        if buf.len() != 16 || buf[0] > 1 {
            return Err(());
        }
        let mut data = [0u8; 16];
        let mut i: usize = 0;
        while i < 16
            invariant
                0 <= i <= 16,
                buf@.len() == 16,
                forall|j: int| 0 <= j < i ==> data@[j] == buf@[j],
            decreases 16 - i,
        {
            data[i] = buf[i];
            i = i + 1;
        }
        let e = ServiceEntry { data };
        assert(e.bytes() =~= buf@);
        Ok(e)
    }

    /// Writes the type into byte 0.
    pub fn set_service_entry_type(&mut self, ty: ServiceEntryType)
        ensures
            final(self).bytes() == old(self).bytes().update(0, entry_type_code(ty)),
    {
        self.data[0] = ty.code();
    }

    /// The type that byte 0 holds, if it names one.
    pub fn service_entry_type(&self) -> (r: Option<ServiceEntryType>)
        ensures
            self.bytes()[0] == 0 ==> r == Some(ServiceEntryType::Find),
            self.bytes()[0] == 1 ==> r == Some(ServiceEntryType::Offer),
            self.bytes()[0] > 1 ==> r is None,
    {
        if self.data[0] == 0 {
            Some(ServiceEntryType::Find)
        } else if self.data[0] == 1 {
            Some(ServiceEntryType::Offer)
        } else {
            None
        }
    }

    /// Writes the index of the first option run into byte 1 and its length
    /// (four bits) into the high half of byte 3.
    pub fn set_index1_options(&mut self, i: u8, num_options: u8)
        ensures
            final(self).bytes() == with_high_nibble(old(self).bytes().update(1, i), 3, num_options),
    {
        self.data[1] = i;
        self.data[3] = (num_options % 16) * 16 + self.data[3] % 16;
    }

    /// The index and length of the first option run.
    pub fn index1_options(&self) -> (r: (u8, u8))
        ensures
            r == (self.bytes()[1], self.bytes()[3] / 16),
    {
        (self.data[1], self.data[3] / 16)
    }

    /// Writes the index of the second option run into byte 2 and its length
    /// (four bits) into the low half of byte 3.
    pub fn set_index2_options(&mut self, i: u8, num_options: u8)
        ensures
            final(self).bytes() == with_low_nibble(old(self).bytes().update(2, i), 3, num_options),
    {
        self.data[2] = i;
        self.data[3] = (self.data[3] / 16) * 16 + num_options % 16;
    }

    /// The index and length of the second option run.
    pub fn index2_options(&self) -> (r: (u8, u8))
        ensures
            r == (self.bytes()[2], self.bytes()[3] % 16),
    {
        (self.data[2], self.data[3] % 16)
    }

    fn set_le(&mut self, at: usize, n: usize, v: u32)
        requires
            at + n <= 16,
            n <= 4,
        ensures
            final(self).bytes() == with_le_field(old(self).bytes(), at as int, n as nat, v as nat),
        decreases n,
    {
        if n > 0 {
            self.data[at] = (v % 256) as u8;
            self.set_le(at + 1, n - 1, v / 256);
            assert(final(self).bytes() =~= with_le_field(old(self).bytes(), at as int, n as nat, v as nat));
        } else {
            assert(final(self).bytes() =~= with_le_field(old(self).bytes(), at as int, 0, v as nat));
        }
    }

    fn get_le(&self, at: usize, n: usize) -> (r: u32)
        requires
            at + n <= 16,
            n <= 4,
        ensures
            r == le_field(self.bytes(), at as int, n as int),
    {
        proof {
            lemma_le_value_bound(self.bytes().subrange(at as int, at + n));
            lemma_pow256_facts();
            crate::byte_order::lemma_pow256_monotonic(n as nat, 4);
        }
        read_le(self.data.as_slice(), at, n) as u32
    }

    /// Writes the service id into bytes 4 and 5, least significant first.
    pub fn set_service_id(&mut self, service_id: u16)
        ensures
            final(self).bytes() == with_le_field(old(self).bytes(), 4, 2, service_id as nat),
    {
        self.set_le(4, 2, service_id as u32);
    }

    /// The service id in bytes 4 and 5.
    pub fn service_id(&self) -> (r: u16)
        ensures
            r == le_field(self.bytes(), 4, 2),
    {
        proof {
            lemma_le_value_bound(self.bytes().subrange(4, 6));
            lemma_pow256_facts();
        }
        self.get_le(4, 2) as u16
    }

    /// Writes the instance id into bytes 6 and 7, least significant first.
    pub fn set_instance_id(&mut self, instance_id: u16)
        ensures
            final(self).bytes() == with_le_field(old(self).bytes(), 6, 2, instance_id as nat),
    {
        self.set_le(6, 2, instance_id as u32);
    }

    /// The instance id in bytes 6 and 7.
    pub fn instance_id(&self) -> (r: u16)
        ensures
            r == le_field(self.bytes(), 6, 2),
    {
        proof {
            lemma_le_value_bound(self.bytes().subrange(6, 8));
            lemma_pow256_facts();
        }
        self.get_le(6, 2) as u16
    }

    /// Writes the major version into byte 8.
    pub fn set_major_version(&mut self, version: u8)
        ensures
            final(self).bytes() == old(self).bytes().update(8, version),
    {
        self.data[8] = version;
    }

    /// The major version in byte 8.
    pub fn major_version(&self) -> (r: u8)
        ensures
            r == self.bytes()[8],
    {
        self.data[8]
    }

    /// Writes the 24 low bits of the time to live into bytes 9 to 11, least
    /// significant first.
    pub fn set_ttl(&mut self, ttl: u32)
        ensures
            final(self).bytes() == with_le_field(old(self).bytes(), 9, 3, ttl as nat),
    {
        self.set_le(9, 3, ttl);
    }

    /// The time to live in bytes 9 to 11.
    pub fn ttl(&self) -> (r: u32)
        ensures
            r == le_field(self.bytes(), 9, 3),
    {
        self.get_le(9, 3)
    }

    /// Writes the minor version into bytes 12 to 15, least significant first.
    pub fn set_minor_version(&mut self, minor_version: u32)
        ensures
            final(self).bytes() == with_le_field(old(self).bytes(), 12, 4, minor_version as nat),
    {
        self.set_le(12, 4, minor_version);
    }

    /// The minor version in bytes 12 to 15.
    pub fn minor_version(&self) -> (r: u32)
        ensures
            r == le_field(self.bytes(), 12, 4),
    {
        self.get_le(12, 4)
    }

    /// The 16 bytes of the entry.
    pub fn as_buffer(&self) -> (r: &[u8])
        ensures
            r@ == self.bytes(),
    {
        self.data.as_slice()
    }
}

impl Default for ServiceEntry {
    /// The entry that `ServiceEntry::new` makes.
    fn default() -> (e: Self)
        ensures
            e.bytes() == seq![0u8, 0, 0, 0, 0, 0, 0xFF, 0xFF, 0xFF, 0, 0, 0, 0xFF, 0xFF, 0xFF, 0xFF],
    {
        ServiceEntry::new()
    }
}

/// An event group entry: 16 bytes holding the type, the option runs, the
/// major version, the time to live, the initial-data flag, the counter and the
/// event group id.
#[derive(Debug, Clone, Copy, PartialEq, Eq)]
pub struct EventGroupEntry {
    data: [u8; 16],
}

impl EventGroupEntry {
    /// The 16 bytes of the entry.
    pub closed spec fn bytes(&self) -> Seq<u8> {
        self.data@
    }

    /// An event group entry always has 16 bytes.
    pub broadcast proof fn lemma_bytes_len(e: EventGroupEntry)
        ensures
            #[trigger] e.bytes().len() == 16,
    {
    }

    /// An entry of zero bytes.
    pub fn new() -> (e: Self)
        ensures
            e.bytes() == Seq::new(16, |i: int| 0u8),
    {
        let e = EventGroupEntry { data: [0u8; 16] };
        assert(e.bytes() =~= Seq::new(16, |i: int| 0u8));
        e
    }

    /// Writes the type into byte 0.
    pub fn set_type(&mut self, ty: ServiceEntryType)
        ensures
            final(self).bytes() == old(self).bytes().update(0, entry_type_code(ty)),
    {
        self.data[0] = ty.code();
    }

    /// Writes the index of the first option run into byte 1 and its length
    /// (four bits) into the high half of byte 3.
    pub fn set_index_1_options(&mut self, i: u8, num_options: u8)
        ensures
            final(self).bytes() == with_high_nibble(old(self).bytes().update(1, i), 3, num_options),
    {
        self.data[1] = i;
        self.data[3] = (num_options % 16) * 16 + self.data[3] % 16;
    }

    /// Writes the index of the second option run into byte 2 and its length
    /// (four bits) into the low half of byte 3.
    pub fn set_index_2_options(&mut self, i: u8, num_options: u8)
        ensures
            final(self).bytes() == with_low_nibble(old(self).bytes().update(2, i), 3, num_options),
    {
        self.data[2] = i;
        self.data[3] = (self.data[3] / 16) * 16 + num_options % 16;
    }

    /// Writes the initial-data-requested flag into the top bit of byte 13.
    pub fn set_initial_data_requested(&mut self, flag: bool)
        ensures
            final(self).bytes() == old(self).bytes().update(
                13,
                (old(self).bytes()[13] % 128 + if flag { 128int } else { 0int }) as u8,
            ),
    {
        let bit: u8 = if flag { 128 } else { 0 };
        self.data[13] = self.data[13] % 128 + bit;
    }

    /// Writes the major version into byte 8.
    pub fn set_major_version(&mut self, version: u8)
        ensures
            final(self).bytes() == old(self).bytes().update(8, version),
    {
        self.data[8] = version;
    }

    /// Writes the 24 low bits of the time to live into bytes 9 to 11, least
    /// significant first.
    pub fn set_ttl(&mut self, ttl: u32)
        ensures
            final(self).bytes() == with_le_field(old(self).bytes(), 9, 3, ttl as nat),
    {
        self.set_le(9, 3, ttl);
    }

    /// Writes the four low bits of the counter into the low half of byte 13.
    pub fn set_counter(&mut self, counter: u8)
        ensures
            final(self).bytes() == with_low_nibble(old(self).bytes(), 13, counter),
    {
        self.data[13] = (self.data[13] / 16) * 16 + counter % 16;
    }

    /// Writes the event group id into bytes 14 and 15, least significant first.
    pub fn set_event_group_id(&mut self, eventgroup_id: u16)
        ensures
            final(self).bytes() == with_le_field(old(self).bytes(), 14, 2, eventgroup_id as nat),
    {
        self.set_le(14, 2, eventgroup_id as u32);
    }

    fn set_le(&mut self, at: usize, n: usize, v: u32)
        requires
            at + n <= 16,
            n <= 4,
        ensures
            final(self).bytes() == with_le_field(old(self).bytes(), at as int, n as nat, v as nat),
        decreases n,
    {
        if n > 0 {
            self.data[at] = (v % 256) as u8;
            self.set_le(at + 1, n - 1, v / 256);
            assert(final(self).bytes() =~= with_le_field(old(self).bytes(), at as int, n as nat, v as nat));
        } else {
            assert(final(self).bytes() =~= with_le_field(old(self).bytes(), at as int, 0, v as nat));
        }
    }

    /// The 16 bytes of the entry.
    pub fn as_buffer(&self) -> (r: &[u8])
        ensures
            r@ == self.bytes(),
    {
        self.data.as_slice()
    }
}

impl Default for EventGroupEntry {
    /// An entry of zero bytes.
    fn default() -> (e: Self)
        ensures
            e.bytes() == Seq::new(16, |i: int| 0u8),
    {
        EventGroupEntry::new()
    }
}


} // verus!
