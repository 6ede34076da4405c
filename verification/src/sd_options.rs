//! Options of service discovery messages: what they hold and their bytes.
use crate::byte_order::{
    be_bytes, be_value, lemma_be_roundtrip, lemma_be_value_2, lemma_be_value_bound, lemma_pow256_facts, push_be,
    push_bytes, read_be,
};
use crate::search::{first_index_of, lemma_first_index_absent, lemma_first_index_found};
use crate::text::{lemma_encode_utf8_concat, utf8_text};
use vstd::prelude::*;
use vstd::string::{StrSliceExecFns, StringSliceAdditionalSpecFns};
use vstd::utf8::{
    decode_utf8, encode_utf8, encode_utf8_decode_utf8, encode_utf8_valid_utf8, is_ascii_chars,
    is_ascii_chars_encode_utf8, valid_utf8,
};

verus! {

/// The big-endian value of the `n` bytes of `b` that start at `at`.
pub open spec fn be_at(b: Seq<u8>, at: int, n: int) -> nat {
    be_value(b.subrange(at, at + n))
}

/// The outcome of reading a value from bytes: the value, a rejection of the
/// bytes, or a fault (bytes on which the reader cannot proceed).
#[derive(Debug, Clone, PartialEq, Eq)]
pub enum Decoded<T> {
    Parsed(T),
    Rejected,
    Fault,
}

/// The transport protocol of an endpoint.
#[derive(Debug, Clone, Copy, PartialEq, Eq, Structural)]
pub enum SDOptionTransportProto {
    UDP,
    TCP,
}

/// The wire value of a transport protocol.
pub open spec fn proto_code(t: SDOptionTransportProto) -> u8 {
    match t {
        SDOptionTransportProto::TCP => 0x06,
        SDOptionTransportProto::UDP => 0x11,
    }
}

/// The name of a configuration entry; always ASCII.
#[derive(Debug, PartialEq)]
pub struct ConfigurationKey(String);

impl Clone for ConfigurationKey {
    /// A key with the same name.
    fn clone(&self) -> (k: Self)
        ensures
            k.chars() == self.chars(),
    {
        proof {
            use_type_invariant(self);
        }
        ConfigurationKey(self.0.clone())
    }
}

impl ConfigurationKey {
    #[verifier::type_invariant]
    spec fn ascii_only(self) -> bool {
        is_ascii_chars(self.0@)
    }

    /// The characters of the name.
    pub closed spec fn chars(&self) -> Seq<char> {
        self.0@
    }

    /// A key with the given name, which must be ASCII.
    pub fn new(name: &str) -> (k: Self)
        requires
            is_ascii_chars(name@),
        ensures
            k.chars() == name@,
    {
        ConfigurationKey(name.to_owned())
    }

    /// The name.
    pub fn as_str(&self) -> (r: &str)
        ensures
            r@ == self.chars(),
            is_ascii_chars(r@),
    {
        proof {
            use_type_invariant(self);
        }
        self.0.as_str()
    }
}

/// An option of a service discovery message.
#[allow(inconsistent_fields)]
#[derive(Debug, PartialEq, Clone)]
pub enum SDOption {
    Configurations(Vec<(ConfigurationKey, String)>),
    LoadBalancing { priority: u16, weight: u16 },
    Ipv4Endpoint { addr: u32, transport: SDOptionTransportProto, port: u16 },
    Ipv6Endpoint { addr: u128, transport: SDOptionTransportProto, port: u16 },
    Ipv4Multicast { addr: u32, port: u16 },
    Ipv6Multicast { addr: u128, port: u16 },
    Ipv4SDEndpoint { addr: u32, port: u16 },
    Ipv6SDEndpoint { addr: u128, port: u16 },
}

/// What an option holds, with configuration texts as character sequences.
#[allow(inconsistent_fields)]
pub enum OptionModel {
    Configurations(Seq<(Seq<char>, Seq<char>)>),
    LoadBalancing { priority: u16, weight: u16 },
    Ipv4Endpoint { addr: u32, transport: SDOptionTransportProto, port: u16 },
    Ipv6Endpoint { addr: u128, transport: SDOptionTransportProto, port: u16 },
    Ipv4Multicast { addr: u32, port: u16 },
    Ipv6Multicast { addr: u128, port: u16 },
    Ipv4SDEndpoint { addr: u32, port: u16 },
    Ipv6SDEndpoint { addr: u128, port: u16 },
}

/// The texts of a list of configuration entries.
pub open spec fn configs_model(cs: Seq<(ConfigurationKey, String)>) -> Seq<(Seq<char>, Seq<char>)> {
    cs.map_values(|p: (ConfigurationKey, String)| (p.0.chars(), p.1@))
}

impl View for SDOption {
    type V = OptionModel;

    open spec fn view(&self) -> OptionModel {
        match *self {
            SDOption::Configurations(cs) => OptionModel::Configurations(configs_model(cs@)),
            SDOption::LoadBalancing { priority, weight } => OptionModel::LoadBalancing { priority, weight },
            SDOption::Ipv4Endpoint { addr, transport, port } => OptionModel::Ipv4Endpoint { addr, transport, port },
            SDOption::Ipv6Endpoint { addr, transport, port } => OptionModel::Ipv6Endpoint { addr, transport, port },
            SDOption::Ipv4Multicast { addr, port } => OptionModel::Ipv4Multicast { addr, port },
            SDOption::Ipv6Multicast { addr, port } => OptionModel::Ipv6Multicast { addr, port },
            SDOption::Ipv4SDEndpoint { addr, port } => OptionModel::Ipv4SDEndpoint { addr, port },
            SDOption::Ipv6SDEndpoint { addr, port } => OptionModel::Ipv6SDEndpoint { addr, port },
        }
    }
}

/// One configuration record: a length byte (the text length modulo 256), then
/// `key=value` in UTF-8.
pub open spec fn config_record(k: Seq<char>, v: Seq<char>) -> Seq<u8> {
    let body = encode_utf8(k) + seq![0x3Du8] + encode_utf8(v);
    seq![(body.len() % 256) as u8] + body
}

/// The records of a list of configuration entries, in order.
pub open spec fn config_records(cs: Seq<(Seq<char>, Seq<char>)>) -> Seq<u8>
    decreases cs.len(),
{
    if cs.len() == 0 {
        Seq::empty()
    } else {
        config_records(cs.drop_last()) + config_record(cs.last().0, cs.last().1)
    }
}

/// The body of a configuration option: the records and a terminating zero.
pub open spec fn config_body(cs: Seq<(Seq<char>, Seq<char>)>) -> Seq<u8> {
    config_records(cs).push(0)
}

/// The length field of a configuration option (it counts the reserved byte).
pub open spec fn config_length_field(cs: Seq<(Seq<char>, Seq<char>)>) -> nat {
    (((config_body(cs).len() as u16) as int) + 1) as nat
}

/// An option can be written when the length field of a configuration option
/// does not overflow.
pub open spec fn option_encodable(m: OptionModel) -> bool {
    match m {
        OptionModel::Configurations(cs) => ((config_body(cs).len() as u16) as int) + 1 <= u16::MAX,
        _ => true,
    }
}

/// The bytes of an option: a big-endian length (the bytes after the type
/// byte), the type, a reserved zero, and the fields in big-endian order.
pub open spec fn option_bytes(m: OptionModel) -> Seq<u8> {
    match m {
        OptionModel::Configurations(cs) => be_bytes(config_length_field(cs), 2) + seq![0x01u8, 0u8]
            + config_body(cs),
        OptionModel::LoadBalancing { priority, weight } => be_bytes(5, 2) + seq![0x02u8, 0u8]
            + be_bytes(priority as nat, 2) + be_bytes(weight as nat, 2),
        OptionModel::Ipv4Endpoint { addr, transport, port } => be_bytes(9, 2) + seq![0x04u8, 0u8]
            + be_bytes(addr as nat, 4) + seq![0u8, proto_code(transport)] + be_bytes(port as nat, 2),
        OptionModel::Ipv6Endpoint { addr, transport, port } => be_bytes(0x15, 2) + seq![0x06u8, 0u8]
            + be_bytes(addr as nat, 16) + seq![0u8, proto_code(transport)] + be_bytes(port as nat, 2),
        OptionModel::Ipv4Multicast { addr, port } => be_bytes(9, 2) + seq![0x14u8, 0u8] + be_bytes(
            addr as nat,
            4,
        ) + seq![0u8, 0x11u8] + be_bytes(port as nat, 2),
        OptionModel::Ipv6Multicast { addr, port } => be_bytes(0x15, 2) + seq![0x16u8, 0u8]
            + be_bytes(addr as nat, 16) + seq![0u8, 0x11u8] + be_bytes(port as nat, 2),
        OptionModel::Ipv4SDEndpoint { addr, port } => be_bytes(9, 2) + seq![0x24u8, 0u8] + be_bytes(
            addr as nat,
            4,
        ) + seq![0u8, 0x11u8] + be_bytes(port as nat, 2),
        OptionModel::Ipv6SDEndpoint { addr, port } => be_bytes(0x15, 2) + seq![0x26u8, 0u8]
            + be_bytes(addr as nat, 16) + seq![0u8, 0x11u8] + be_bytes(port as nat, 2),
    }
}

/// A configuration text split at `=`: the key is what comes before the first
/// `=`, the value what comes between the first and the next `=` (or the end).
pub open spec fn split_config(c: Seq<char>) -> Option<(Seq<char>, Seq<char>)> {
    match first_index_of(c, '=') {
        None => None,
        Some(i) => {
            let after = c.subrange(i + 1, c.len() as int);
            let j = match first_index_of(after, '=') {
                Some(j) => j,
                None => after.len() as int,
            };
            Some((c.subrange(0, i), after.subrange(0, j)))
        },
    }
}

/// The configuration entries read from `data` starting at `pos`, and whether
/// the reader faults. A zero length byte, a record that runs to the end of the
/// data, text that is not UTF-8 and text without `=` end the list; a key that
/// is not ASCII is a fault, and so is empty data.
pub open spec fn parse_records(data: Seq<u8>, pos: int) -> (Seq<(Seq<char>, Seq<char>)>, bool)
    decreases data.len() - pos,
{
    if pos < 0 || pos >= data.len() {
        (Seq::empty(), true)
    } else {
        let len = data[pos] as int;
        if len == 0 || len + pos >= data.len() {
            (Seq::empty(), false)
        } else {
            let rec = data.subrange(pos + 1, pos + 1 + len);
            if !valid_utf8(rec) {
                (Seq::empty(), false)
            } else {
                match split_config(decode_utf8(rec)) {
                    None => (Seq::empty(), false),
                    Some((k, v)) => if !is_ascii_chars(k) {
                        (Seq::empty(), true)
                    } else {
                        let rest = parse_records(data, pos + len + 1);
                        (seq![(k, v)] + rest.0, rest.1)
                    },
                }
            }
        }
    }
}

/// The transport protocol of a wire value, if it names one.
pub open spec fn proto_of_code(b: u8) -> Option<SDOptionTransportProto> {
    if b == 0x06 {
        Some(SDOptionTransportProto::TCP)
    } else if b == 0x11 {
        Some(SDOptionTransportProto::UDP)
    } else {
        None
    }
}

/// What reading an option from exactly the bytes `d` gives.
pub open spec fn option_from_bytes(d: Seq<u8>) -> Decoded<OptionModel> {
    if d.len() < 2 {
        Decoded::Fault
    } else {
        let length = be_at(d, 0, 2);
        if d.len() != length + 3 {
            Decoded::Rejected
        } else if d.len() < 4 {
            Decoded::Fault
        } else {
            let ty = d[2];
            if ty == 0x01 {
                let (cs, fault) = parse_records(d.subrange(4, d.len() as int), 0);
                if fault {
                    Decoded::Fault
                } else {
                    Decoded::Parsed(OptionModel::Configurations(cs))
                }
            } else if ty == 0x02 {
                if length != 5 {
                    Decoded::Rejected
                } else {
                    Decoded::Parsed(
                        OptionModel::LoadBalancing {
                            priority: be_at(d, 4, 2) as u16,
                            weight: be_at(d, 6, 2) as u16,
                        },
                    )
                }
            } else if ty == 0x04 || ty == 0x14 || ty == 0x24 {
                if length != 9 {
                    Decoded::Rejected
                } else {
                    let addr = be_at(d, 4, 4) as u32;
                    let port = be_at(d, 10, 2) as u16;
                    match proto_of_code(d[9]) {
                        None => Decoded::Rejected,
                        Some(transport) => if ty == 0x04 {
                            Decoded::Parsed(OptionModel::Ipv4Endpoint { addr, transport, port })
                        } else if transport != SDOptionTransportProto::UDP {
                            Decoded::Rejected
                        } else if ty == 0x14 {
                            Decoded::Parsed(OptionModel::Ipv4Multicast { addr, port })
                        } else {
                            Decoded::Parsed(OptionModel::Ipv4SDEndpoint { addr, port })
                        },
                    }
                }
            } else if ty == 0x06 || ty == 0x16 || ty == 0x26 {
                if length != 0x15 {
                    Decoded::Rejected
                } else {
                    let addr = be_at(d, 4, 16) as u128;
                    let port = be_at(d, 22, 2) as u16;
                    match proto_of_code(d[21]) {
                        None => Decoded::Rejected,
                        Some(transport) => if ty == 0x06 {
                            Decoded::Parsed(OptionModel::Ipv6Endpoint { addr, transport, port })
                        } else if transport != SDOptionTransportProto::UDP {
                            Decoded::Rejected
                        } else if ty == 0x16 {
                            Decoded::Parsed(OptionModel::Ipv6Multicast { addr, port })
                        } else {
                            Decoded::Parsed(OptionModel::Ipv6SDEndpoint { addr, port })
                        },
                    }
                }
            } else {
                Decoded::Rejected
            }
        }
    }
}

/// An exec outcome seen through the option view.
pub open spec fn decoded_option_view(r: Decoded<SDOption>) -> Decoded<OptionModel> {
    match r {
        Decoded::Parsed(o) => Decoded::Parsed(o@),
        Decoded::Rejected => Decoded::Rejected,
        Decoded::Fault => Decoded::Fault,
    }
}

/// Splits configuration text at `=` as `split_config` describes.
fn split_config_text(t: &str) -> (r: Option<(&str, &str)>)
    ensures
        match split_config(t@) {
            None => r is None,
            Some((k, v)) => r matches Some((rk, rv)) && rk@ == k && rv@ == v,
        },
{
    let n = t.unicode_len();
    let mut i: usize = 0;
    while i < n && t.get_char(i) != '='
        invariant
            0 <= i <= n,
            n == t@.len(),
            forall|j: int| 0 <= j < i ==> t@[j] != '=',
        decreases n - i,
    {
        i = i + 1;
    }
    if i == n {
        proof {
            lemma_first_index_absent(t@, '=');
        }
        return None;
    }
    proof {
        lemma_first_index_found(t@, '=', i as int);
    }
    let mut j: usize = i + 1;
    while j < n && t.get_char(j) != '='
        invariant
            i + 1 <= j <= n,
            n == t@.len(),
            forall|k: int| i + 1 <= k < j ==> t@[k] != '=',
        decreases n - j,
    {
        j = j + 1;
    }
    proof {
        let after = t@.subrange(i + 1, n as int);
        if j < n {
            lemma_first_index_found(after, '=', j - i - 1);
        } else {
            lemma_first_index_absent(after, '=');
        }
        assert(after.subrange(0, j - i - 1) =~= t@.subrange(i + 1, j as int));
    }
    Some((t.substring_char(0, i), t.substring_char(i + 1, j)))
}

/// Reads the configuration records of `data`; the flag tells whether the
/// reader faulted (a key that is not ASCII, or empty data).
fn parse_configuration_string(data: &[u8]) -> (r: (Vec<(ConfigurationKey, String)>, bool))
    ensures
        configs_model(r.0@) == parse_records(data@, 0).0,
        r.1 == parse_records(data@, 0).1,
{
    let mut out: Vec<(ConfigurationKey, String)> = Vec::new();
    let mut pos: usize = 0;
    assert(configs_model(out@) + parse_records(data@, 0).0 =~= parse_records(data@, 0).0);
    loop
        invariant
            pos <= data.len(),
            configs_model(out@) + parse_records(data@, pos as int).0 == parse_records(data@, 0).0,
            parse_records(data@, pos as int).1 == parse_records(data@, 0).1,
        decreases data.len() - pos,
    {
        if pos >= data.len() {
            assert(configs_model(out@) + parse_records(data@, pos as int).0 =~= configs_model(out@));
            return (out, true);
        }
        let len = data[pos] as usize;
        if len == 0 || len >= data.len() - pos {
            assert(configs_model(out@) + parse_records(data@, pos as int).0 =~= configs_model(out@));
            return (out, false);
        }
        let rec = &data[pos + 1..pos + 1 + len];
        match utf8_text(rec) {
            None => {
                assert(configs_model(out@) + parse_records(data@, pos as int).0 =~= configs_model(out@));
                return (out, false);
            },
            Some(t) => match split_config_text(t) {
                None => {
                    assert(configs_model(out@) + parse_records(data@, pos as int).0 =~= configs_model(out@));
                    return (out, false);
                },
                Some((k, v)) => {
                    if !k.is_ascii() {
                        assert(configs_model(out@) + parse_records(data@, pos as int).0 =~= configs_model(out@));
                        return (out, true);
                    }
                    let ghost old_out = out@;
                    let key = ConfigurationKey::new(k);
                    out.push((key, v.to_owned()));
                    proof {
                        let next = (pos + len + 1) as int;
                        assert(configs_model(out@) =~= configs_model(old_out).push((k@, v@)));
                        assert(configs_model(out@) + parse_records(data@, next).0 =~= configs_model(old_out)
                            + parse_records(data@, pos as int).0);
                    }
                    pos = pos + len + 1;
                },
            },
        }
    }
}

/// The wire value of a transport protocol.
fn proto_byte(t: SDOptionTransportProto) -> (r: u8)
    ensures
        r == proto_code(t),
{
    match t {
        SDOptionTransportProto::TCP => 0x06,
        SDOptionTransportProto::UDP => 0x11,
    }
}

/// The records of the entries and the terminating zero.
#[verifier::rlimit(40)]
#[verifier::spinoff_prover]
fn config_body_bytes(configs: &Vec<(ConfigurationKey, String)>) -> (r: Vec<u8>)
    ensures
        r@ == config_body(configs_model(configs@)),
{
    let ghost cs = configs_model(configs@);
    let mut out: Vec<u8> = Vec::new();
    let mut i: usize = 0;
    while i < configs.len()
        invariant
            0 <= i <= configs.len(),
            cs == configs_model(configs@),
            out@ == config_records(cs.take(i as int)),
        decreases configs.len() - i,
    {
        let kb = configs[i].0.as_str().as_bytes();
        let vb = configs[i].1.as_str().as_bytes();
        let len = ((kb.len() % 256 + 1 + vb.len() % 256) % 256) as u8;
        let ghost before = out@;
        out.push(len);
        push_bytes(&mut out, kb);
        out.push(0x3D);
        push_bytes(&mut out, vb);
        proof {
            let k = cs[i as int].0;
            let v = cs[i as int].1;
            let body = encode_utf8(k) + seq![0x3Du8] + encode_utf8(v);
            assert(kb@ == encode_utf8(k));
            assert(vb@ == encode_utf8(v));
            assert(len == (body.len() % 256) as u8);
            assert(cs.take(i + 1).drop_last() =~= cs.take(i as int));
            assert(out@ =~= before + config_record(k, v));
        }
        i = i + 1;
    }
    assert(cs.take(i as int) =~= cs);
    out.push(0);
    out
}

impl SDOption {
    /// Reads an option from exactly the bytes `data`; the outcome says whether
    /// the option is read, rejected, or whether the reader cannot proceed.
    pub fn decode(data: &[u8]) -> (r: Decoded<SDOption>)
        ensures
            decoded_option_view(r) == option_from_bytes(data@),
    {
        if data.len() < 2 {
            return Decoded::Fault;
        }
        proof {
            lemma_pow256_facts();
            lemma_be_value_bound(data@.subrange(0, 2));
        }
        let length = read_be(data, 0, 2) as usize;
        if data.len() != length + 3 {
            return Decoded::Rejected;
        }
        if data.len() < 4 {
            return Decoded::Fault;
        }
        let ty = data[2];
        if ty == 0x01 {
            let (configs, fault) = parse_configuration_string(&data[4..data.len()]);
            if fault {
                Decoded::Fault
            } else {
                Decoded::Parsed(SDOption::Configurations(configs))
            }
        } else if ty == 0x02 {
            if length != 5 {
                Decoded::Rejected
            } else {
                proof {
                    lemma_be_value_bound(data@.subrange(4, 6));
                    lemma_be_value_bound(data@.subrange(6, 8));
                }
                let priority = read_be(data, 4, 2) as u16;
                let weight = read_be(data, 6, 2) as u16;
                Decoded::Parsed(SDOption::LoadBalancing { priority, weight })
            }
        } else if ty == 0x04 || ty == 0x14 || ty == 0x24 {
            if length != 9 {
                return Decoded::Rejected;
            }
            proof {
                lemma_be_value_bound(data@.subrange(4, 8));
                lemma_be_value_bound(data@.subrange(10, 12));
            }
            let addr = read_be(data, 4, 4) as u32;
            let port = read_be(data, 10, 2) as u16;
            let transport = if data[9] == 0x06 {
                SDOptionTransportProto::TCP
            } else if data[9] == 0x11 {
                SDOptionTransportProto::UDP
            } else {
                return Decoded::Rejected;
            };
            if ty == 0x04 {
                Decoded::Parsed(SDOption::Ipv4Endpoint { addr, transport, port })
            } else if data[9] != 0x11 {
                Decoded::Rejected
            } else if ty == 0x14 {
                Decoded::Parsed(SDOption::Ipv4Multicast { addr, port })
            } else {
                Decoded::Parsed(SDOption::Ipv4SDEndpoint { addr, port })
            }
        } else if ty == 0x06 || ty == 0x16 || ty == 0x26 {
            if length != 0x15 {
                return Decoded::Rejected;
            }
            proof {
                lemma_be_value_bound(data@.subrange(4, 20));
                lemma_be_value_bound(data@.subrange(22, 24));
            }
            let addr = read_be(data, 4, 16);
            let port = read_be(data, 22, 2) as u16;
            let transport = if data[21] == 0x06 {
                SDOptionTransportProto::TCP
            } else if data[21] == 0x11 {
                SDOptionTransportProto::UDP
            } else {
                return Decoded::Rejected;
            };
            if ty == 0x06 {
                Decoded::Parsed(SDOption::Ipv6Endpoint { addr, transport, port })
            } else if data[21] != 0x11 {
                Decoded::Rejected
            } else if ty == 0x16 {
                Decoded::Parsed(SDOption::Ipv6Multicast { addr, port })
            } else {
                Decoded::Parsed(SDOption::Ipv6SDEndpoint { addr, port })
            }
        } else {
            Decoded::Rejected
        }
    }

    /// Reads an option from exactly the bytes `data`; `Err` when the bytes are
    /// rejected.
    pub fn try_from_bytes(data: &[u8]) -> (r: Result<SDOption, ()>)
        requires
            !(option_from_bytes(data@) is Fault),
        ensures
            match option_from_bytes(data@) {
                Decoded::Parsed(m) => r matches Ok(o) && o@ == m,
                _ => r is Err,
            },
    {
        match Self::decode(data) {
            Decoded::Parsed(o) => Ok(o),
            _ => Err(()),
        }
    }

    /// The bytes of the option.
    pub fn into_bytes(self) -> (r: Vec<u8>)
        requires
            option_encodable(self@),
        ensures
            r@ == option_bytes(self@),
    {
        self.encode()
    }

    /// The bytes of the option.
    pub fn encode(&self) -> (r: Vec<u8>)
        requires
            option_encodable(self@),
        ensures
            r@ == option_bytes(self@),
    {
        let mut out: Vec<u8> = Vec::new();
        match self {
            SDOption::Configurations(configs) => {
                let body = config_body_bytes(configs);
                push_be(&mut out, (body.len() as u16 + 1) as u128, 2);
                out.push(0x01);
                out.push(0);
                push_bytes(&mut out, body.as_slice());
            },
            SDOption::LoadBalancing { priority, weight } => {
                push_be(&mut out, 5, 2);
                out.push(0x02);
                out.push(0);
                push_be(&mut out, *priority as u128, 2);
                push_be(&mut out, *weight as u128, 2);
            },
            SDOption::Ipv4Endpoint { addr, transport, port } => {
                push_be(&mut out, 9, 2);
                out.push(0x04);
                out.push(0);
                push_be(&mut out, *addr as u128, 4);
                out.push(0);
                out.push(proto_byte(*transport));
                push_be(&mut out, *port as u128, 2);
            },
            SDOption::Ipv6Endpoint { addr, transport, port } => {
                push_be(&mut out, 0x15, 2);
                out.push(0x06);
                out.push(0);
                push_be(&mut out, *addr, 16);
                out.push(0);
                out.push(proto_byte(*transport));
                push_be(&mut out, *port as u128, 2);
            },
            SDOption::Ipv4Multicast { addr, port } => {
                push_be(&mut out, 9, 2);
                out.push(0x14);
                out.push(0);
                push_be(&mut out, *addr as u128, 4);
                out.push(0);
                out.push(0x11);
                push_be(&mut out, *port as u128, 2);
            },
            SDOption::Ipv6Multicast { addr, port } => {
                push_be(&mut out, 0x15, 2);
                out.push(0x16);
                out.push(0);
                push_be(&mut out, *addr, 16);
                out.push(0);
                out.push(0x11);
                push_be(&mut out, *port as u128, 2);
            },
            SDOption::Ipv4SDEndpoint { addr, port } => {
                push_be(&mut out, 9, 2);
                out.push(0x24);
                out.push(0);
                push_be(&mut out, *addr as u128, 4);
                out.push(0);
                out.push(0x11);
                push_be(&mut out, *port as u128, 2);
            },
            SDOption::Ipv6SDEndpoint { addr, port } => {
                push_be(&mut out, 0x15, 2);
                out.push(0x26);
                out.push(0);
                push_be(&mut out, *addr, 16);
                out.push(0);
                out.push(0x11);
                push_be(&mut out, *port as u128, 2);
            },
        }
        assert(out@ =~= option_bytes(self@));
        out
    }

    /// Whether reading an option from exactly the bytes `data` faults.
    pub fn decode_faults(data: &[u8]) -> (r: bool)
        ensures
            r == (option_from_bytes(data@) is Fault),
    {
        match Self::decode(data) {
            Decoded::Fault => true,
            _ => false,
        }
    }
}


/// A configuration entry can be written and read back: its key is ASCII, key
/// and value hold no `=`, and its record text fits the length byte.
pub open spec fn config_entry_roundtrips(k: Seq<char>, v: Seq<char>) -> bool {
    &&& is_ascii_chars(k)
    &&& !k.contains('=')
    &&& !v.contains('=')
    &&& encode_utf8(k).len() + 1 + encode_utf8(v).len() <= 255
}

/// An option can be written and read back unchanged.
pub open spec fn option_roundtrips(m: OptionModel) -> bool {
    match m {
        OptionModel::Configurations(cs) => {
            &&& config_body(cs).len() < 0xFFFF
            &&& forall|i: int| 0 <= i < cs.len() ==> #[trigger] config_entry_roundtrips(cs[i].0, cs[i].1)
        },
        _ => true,
    }
}

proof fn lemma_split_config_of(k: Seq<char>, v: Seq<char>)
    requires
        !k.contains('='),
        !v.contains('='),
    ensures
        split_config(k + seq!['='] + v) == Some((k, v)),
{
    let c = k + seq!['='] + v;
    assert(c[k.len() as int] == '=');
    assert forall|j: int| 0 <= j < k.len() implies c[j] != '=' by {
        assert(c[j] == k[j]);
    }
    lemma_first_index_found(c, '=', k.len() as int);
    let after = c.subrange(k.len() as int + 1, c.len() as int);
    assert(after =~= v);
    assert forall|j: int| 0 <= j < after.len() implies after[j] != '=' by {
        assert(after[j] == v[j]);
    }
    lemma_first_index_absent(after, '=');
    assert(c.subrange(0, k.len() as int) =~= k);
    assert(after.subrange(0, after.len() as int) =~= v);
}

proof fn lemma_config_record_text(k: Seq<char>, v: Seq<char>)
    ensures
        encode_utf8(k) + seq![0x3Du8] + encode_utf8(v) == encode_utf8(k + seq!['='] + v),
        valid_utf8(encode_utf8(k) + seq![0x3Du8] + encode_utf8(v)),
        decode_utf8(encode_utf8(k) + seq![0x3Du8] + encode_utf8(v)) == k + seq!['='] + v,
{
    let eq = seq!['='];
    assert(is_ascii_chars(eq));
    is_ascii_chars_encode_utf8(eq);
    assert(encode_utf8(eq) =~= seq![0x3Du8]);
    lemma_encode_utf8_concat(k, eq);
    lemma_encode_utf8_concat(k + eq, v);
    encode_utf8_valid_utf8(k + eq + v);
    encode_utf8_decode_utf8(k + eq + v);
}

#[verifier::rlimit(100)]
#[verifier::spinoff_prover]
proof fn lemma_parse_config_body(cs: Seq<(Seq<char>, Seq<char>)>, i: int)
    requires
        0 <= i <= cs.len(),
        forall|j: int| 0 <= j < cs.len() ==> #[trigger] config_entry_roundtrips(cs[j].0, cs[j].1),
    ensures
        parse_records(config_body(cs), config_records(cs.take(i)).len() as int) == (
            cs.subrange(i, cs.len() as int),
            false,
        ),
    decreases cs.len() - i,
{
    let body = config_body(cs);
    lemma_records_prefix(cs, i);
    let pos = config_records(cs.take(i)).len() as int;
    if i == cs.len() {
        assert(cs.take(i) =~= cs);
        assert(body[pos] == 0);
        assert(cs.subrange(i, cs.len() as int) =~= Seq::<(Seq<char>, Seq<char>)>::empty());
    } else {
        let k = cs[i].0;
        let v = cs[i].1;
        assert(config_entry_roundtrips(k, v));
        let text = encode_utf8(k) + seq![0x3Du8] + encode_utf8(v);
        lemma_records_prefix(cs, i + 1);
        assert(cs.take(i + 1).drop_last() =~= cs.take(i));
        assert(config_records(cs.take(i + 1)) == config_records(cs.take(i)) + config_record(k, v));
        let len = text.len() as int;
        let b = config_records(cs.take(i + 1));
        let rec = config_record(k, v);
        assert(b == config_records(cs.take(i)) + rec);
        assert(body.subrange(0, b.len() as int) == b);
        assert(body[pos] == body.subrange(0, b.len() as int)[pos]);
        assert(b[pos] == rec[0]);
        assert(rec[0] == len as u8);
        assert(body.subrange(pos + 1, pos + 1 + len) =~= b.subrange(pos + 1, pos + 1 + len));
        assert(b.subrange(pos + 1, pos + 1 + len) =~= text);
        lemma_config_record_text(k, v);
        lemma_split_config_of(k, v);
        lemma_parse_config_body(cs, i + 1);
        assert(seq![(k, v)] + cs.subrange(i + 1, cs.len() as int) =~= cs.subrange(i, cs.len() as int));
    }
}

proof fn lemma_records_prefix(cs: Seq<(Seq<char>, Seq<char>)>, i: int)
    requires
        0 <= i <= cs.len(),
    ensures
        config_body(cs).subrange(0, config_records(cs.take(i)).len() as int) == config_records(cs.take(i)),
        config_records(cs.take(i)).len() < config_body(cs).len(),
    decreases cs.len() - i,
{
    if i == cs.len() {
        assert(cs.take(i) =~= cs);
        assert(config_body(cs).subrange(0, config_records(cs).len() as int) =~= config_records(cs));
    } else {
        lemma_records_prefix(cs, i + 1);
        assert(cs.take(i + 1).drop_last() =~= cs.take(i));
        let a = config_records(cs.take(i));
        let b = config_records(cs.take(i + 1));
        assert(b == a + config_record(cs[i].0, cs[i].1));
        assert(config_body(cs).subrange(0, a.len() as int) =~= b.subrange(0, a.len() as int));
        assert(b.subrange(0, a.len() as int) =~= a);
    }
}

/// Reading the bytes of an option gives the option back: for every option
/// whose configuration entries (if any) have ASCII keys, no `=` in key or
/// value, texts of at most 255 bytes and a body that fits the length field.
pub proof fn law_option_roundtrip(m: OptionModel)
    requires
        option_roundtrips(m),
    ensures
        option_from_bytes(option_bytes(m)) == Decoded::Parsed(m),
{
    lemma_pow256_facts();
    let d = option_bytes(m);
    match m {
        OptionModel::Configurations(cs) => {
            let body = config_body(cs);
            let lf = config_length_field(cs);
            assert(lf == body.len() + 1);
            lemma_be_roundtrip(lf, 2);
            assert(d.subrange(0, 2) =~= be_bytes(lf, 2));
            assert(d.subrange(4, d.len() as int) =~= body);
            lemma_parse_config_body(cs, 0);
            assert(cs.take(0) =~= Seq::<(Seq<char>, Seq<char>)>::empty());
            assert(cs.subrange(0, cs.len() as int) =~= cs);
        },
        OptionModel::LoadBalancing { priority, weight } => {
            lemma_be_roundtrip(5, 2);
            lemma_be_roundtrip(priority as nat, 2);
            lemma_be_roundtrip(weight as nat, 2);
            assert(d.subrange(0, 2) =~= be_bytes(5, 2));
            assert(d.subrange(4, 6) =~= be_bytes(priority as nat, 2));
            assert(d.subrange(6, 8) =~= be_bytes(weight as nat, 2));
        },
        OptionModel::Ipv4Endpoint { addr, transport, port } => {
            lemma_v4_fields(d, 0x04, addr, proto_code(transport), port);
            assert(proto_of_code(proto_code(transport)) == Some(transport));
        },
        OptionModel::Ipv4Multicast { addr, port } => {
            lemma_v4_fields(d, 0x14, addr, 0x11, port);
        },
        OptionModel::Ipv4SDEndpoint { addr, port } => {
            lemma_v4_fields(d, 0x24, addr, 0x11, port);
        },
        OptionModel::Ipv6Endpoint { addr, transport, port } => {
            lemma_v6_fields(d, 0x06, addr, proto_code(transport), port);
            assert(proto_of_code(proto_code(transport)) == Some(transport));
        },
        OptionModel::Ipv6Multicast { addr, port } => {
            lemma_v6_fields(d, 0x16, addr, 0x11, port);
        },
        OptionModel::Ipv6SDEndpoint { addr, port } => {
            lemma_v6_fields(d, 0x26, addr, 0x11, port);
        },
    }
}

proof fn lemma_v4_fields(d: Seq<u8>, ty: u8, addr: u32, proto: u8, port: u16)
    requires
        d == be_bytes(9, 2) + seq![ty, 0u8] + be_bytes(addr as nat, 4) + seq![0u8, proto] + be_bytes(
            port as nat,
            2,
        ),
    ensures
        d.len() == 12,
        be_at(d, 0, 2) == 9,
        d[2] == ty,
        be_at(d, 4, 4) == addr,
        d[9] == proto,
        be_at(d, 10, 2) == port,
{
    lemma_pow256_facts();
    lemma_be_roundtrip(9, 2);
    lemma_be_roundtrip(addr as nat, 4);
    lemma_be_roundtrip(port as nat, 2);
    assert(d.subrange(0, 2) =~= be_bytes(9, 2));
    assert(d.subrange(4, 8) =~= be_bytes(addr as nat, 4));
    assert(d.subrange(10, 12) =~= be_bytes(port as nat, 2));
}

proof fn lemma_v6_fields(d: Seq<u8>, ty: u8, addr: u128, proto: u8, port: u16)
    requires
        d == be_bytes(0x15, 2) + seq![ty, 0u8] + be_bytes(addr as nat, 16) + seq![0u8, proto]
            + be_bytes(port as nat, 2),
    ensures
        d.len() == 24,
        be_at(d, 0, 2) == 0x15,
        d[2] == ty,
        be_at(d, 4, 16) == addr,
        d[21] == proto,
        be_at(d, 22, 2) == port,
{
    lemma_pow256_facts();
    lemma_be_roundtrip(0x15, 2);
    lemma_be_roundtrip(addr as nat, 16);
    lemma_be_roundtrip(port as nat, 2);
    assert(d.subrange(0, 2) =~= be_bytes(0x15, 2));
    assert(d.subrange(4, 20) =~= be_bytes(addr as nat, 16));
    assert(d.subrange(22, 24) =~= be_bytes(port as nat, 2));
}

/// The length field of an option that can be read back counts the bytes after
/// its type byte.
pub proof fn lemma_option_length_field(m: OptionModel)
    requires
        option_roundtrips(m),
    ensures
        option_bytes(m).len() >= 4,
        be_at(option_bytes(m), 0, 2) + 3 == option_bytes(m).len(),
{
    lemma_pow256_facts();
    let d = option_bytes(m);
    match m {
        OptionModel::Configurations(cs) => {
            let lf = config_length_field(cs);
            lemma_be_roundtrip(lf, 2);
            assert(d.subrange(0, 2) =~= be_bytes(lf, 2));
        },
        OptionModel::LoadBalancing { priority, weight } => {
            lemma_be_roundtrip(5, 2);
            lemma_be_roundtrip(priority as nat, 2);
            lemma_be_roundtrip(weight as nat, 2);
            assert(d.subrange(0, 2) =~= be_bytes(5, 2));
        },
        OptionModel::Ipv4Endpoint { addr, transport, port } => {
            lemma_v4_fields(d, 0x04, addr, proto_code(transport), port);
        },
        OptionModel::Ipv4Multicast { addr, port } => {
            lemma_v4_fields(d, 0x14, addr, 0x11, port);
        },
        OptionModel::Ipv4SDEndpoint { addr, port } => {
            lemma_v4_fields(d, 0x24, addr, 0x11, port);
        },
        OptionModel::Ipv6Endpoint { addr, transport, port } => {
            lemma_v6_fields(d, 0x06, addr, proto_code(transport), port);
        },
        OptionModel::Ipv6Multicast { addr, port } => {
            lemma_v6_fields(d, 0x16, addr, 0x11, port);
        },
        OptionModel::Ipv6SDEndpoint { addr, port } => {
            lemma_v6_fields(d, 0x26, addr, 0x11, port);
        },
    }
}

/// The bytes of a load-balancing option: the length 5 (big-endian), the type
/// 0x02, a reserved zero, then the priority (big-endian) at bytes 4 and 5 and
/// the weight (big-endian) at bytes 6 and 7.
pub proof fn law_load_balancing_bytes(priority: u16, weight: u16)
    ensures
        ({
            let d = option_bytes(OptionModel::LoadBalancing { priority, weight });
            &&& d.len() == 8
            &&& d[0] == 0 && d[1] == 5 && d[2] == 0x02 && d[3] == 0
            &&& (d[4] as nat) * 0x100 + (d[5] as nat) == priority
            &&& (d[6] as nat) * 0x100 + (d[7] as nat) == weight
        }),
{
    lemma_pow256_facts();
    lemma_be_roundtrip(5, 2);
    lemma_be_roundtrip(priority as nat, 2);
    lemma_be_roundtrip(weight as nat, 2);
    let d = option_bytes(OptionModel::LoadBalancing { priority, weight });
    assert(d.subrange(0, 2) =~= be_bytes(5, 2));
    assert(d.subrange(4, 6) =~= be_bytes(priority as nat, 2));
    assert(d.subrange(6, 8) =~= be_bytes(weight as nat, 2));
    lemma_be_value_2(d.subrange(0, 2));
    lemma_be_value_2(d.subrange(4, 6));
    lemma_be_value_2(d.subrange(6, 8));
    assert(d[0] == d.subrange(0, 2)[0] && d[1] == d.subrange(0, 2)[1]);
    assert(d[4] == d.subrange(4, 6)[0] && d[5] == d.subrange(4, 6)[1]);
    assert(d[6] == d.subrange(6, 8)[0] && d[7] == d.subrange(6, 8)[1]);
    assert(d[0] == 0 && d[1] == 5) by (nonlinear_arith)
        requires
            (d[0] as nat) * 0x100 + (d[1] as nat) == 5,
            d[0] < 256,
            d[1] < 256,
    ;
}

/// Reading a load-balancing option (8 bytes with length 5 and type 0x02)
/// takes the priority from bytes 4 and 5 and the weight from bytes 6 and 7,
/// both big-endian.
pub proof fn law_load_balancing_read(d: Seq<u8>)
    requires
        d.len() == 8,
        d[0] == 0,
        d[1] == 5,
        d[2] == 0x02,
    ensures
        option_from_bytes(d) == Decoded::Parsed(
            OptionModel::LoadBalancing {
                priority: ((d[4] as nat) * 0x100 + (d[5] as nat)) as u16,
                weight: ((d[6] as nat) * 0x100 + (d[7] as nat)) as u16,
            },
        ),
{
    lemma_be_value_2(d.subrange(0, 2));
    lemma_be_value_2(d.subrange(4, 6));
    lemma_be_value_2(d.subrange(6, 8));
    assert(d.subrange(0, 2)[0] == d[0] && d.subrange(0, 2)[1] == d[1]);
    assert(d.subrange(4, 6)[0] == d[4] && d.subrange(4, 6)[1] == d[5]);
    assert(d.subrange(6, 8)[0] == d[6] && d.subrange(6, 8)[1] == d[7]);
}

} // verus!
