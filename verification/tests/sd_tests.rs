use someip::sd_entries::{EventGroupEntry, ServiceEntry, ServiceEntryType};
use someip::sd_messages::{AddEntryError, SDMessage};
use someip::sd_options::{ConfigurationKey, Decoded, SDOption, SDOptionTransportProto};
use someip::someip_codec::SomeIpPacket;

const LOCALHOST_V4: u32 = 0x7F00_0001;

#[test]
fn test_sd_message_basic() {
    let message = SDMessage::default();
    let pkt: SomeIpPacket = message.clone().into_packet();
    let new_msg = SDMessage::try_from_packet(pkt).unwrap();
    assert_eq!(message, new_msg);
}

#[test]
fn test_sd_message() {
    let mut message = SDMessage::default();
    let options = vec![
        SDOption::Ipv4Endpoint {
            addr: LOCALHOST_V4,
            transport: SDOptionTransportProto::TCP,
            port: 8090,
        },
        SDOption::Configurations(vec![(
            ConfigurationKey::new("ConfigKey"),
            String::from("ConfigValue"),
        )]),
    ];
    message.set_options(options);
    let mut entry = ServiceEntry::default();
    entry.set_service_entry_type(ServiceEntryType::Offer);
    entry.set_service_id(42);
    message.add_entry(entry, 0, 1, 0, 0).unwrap();
    message.set_exp_initial_data_control(true);
    message.set_reboot(true);

    // the following must fail
    let mut entry = ServiceEntry::default();
    entry.set_service_entry_type(ServiceEntryType::Find);
    entry.set_service_id(0x24);
    if message.add_entry(entry, 0, 2, 0, 0).is_ok() {
        panic!("This should fail");
    }
    // the following must fail
    let mut entry = ServiceEntry::default();
    entry.set_service_entry_type(ServiceEntryType::Find);
    entry.set_service_id(0x24);
    if message.add_entry(entry, 0, 0, 0, 2).is_ok() {
        panic!("This should fail");
    }

    let pkt: SomeIpPacket = message.into_packet();
    let new_entry = SDMessage::try_from_packet(pkt).unwrap();
    assert!(new_entry.is_reboot());
    assert!(new_entry.is_exp_initial_data_control());
    println!("SDMessage:{:?}", new_entry);
}

#[test]
fn sd_message_roundtrip_keeps_everything() {
    let mut message = SDMessage::default();
    message.set_options(vec![
        SDOption::LoadBalancing { priority: 1, weight: 2 },
        SDOption::Ipv6Multicast { addr: 0xff02 << 112 | 1, port: 30490 },
        SDOption::Ipv4SDEndpoint { addr: LOCALHOST_V4, port: 30490 },
    ]);
    let mut entry = ServiceEntry::default();
    entry.set_service_entry_type(ServiceEntryType::Offer);
    entry.set_service_id(0x1234);
    entry.set_ttl(3);
    message.add_entry(entry, 1, 1, 0, 0).unwrap();
    message.set_unicast(true);
    let copy = message.clone();
    let back = SDMessage::try_from_packet(message.into_packet()).unwrap();
    assert_eq!(copy.into_packet(), back.clone().into_packet());
    assert!(back.is_unicast());
    assert!(!back.is_reboot());
}

#[test]
fn sd_add_entry_errors() {
    let mut message = SDMessage::default();
    let entry = ServiceEntry::default();
    assert_eq!(Err(AddEntryError::InvalidInput), message.add_entry(entry, 16, 0, 0, 0));
    assert_eq!(Err(AddEntryError::NotFound), message.add_entry(entry, 0, 1, 0, 0));
    assert_eq!(Ok(()), message.add_entry(entry, 0, 0, 0, 0));
}

#[test]
fn sd_packet_that_is_not_sd_is_refused() {
    let mut header = someip::someip_codec::SomeIpHeader::default();
    header.set_service_id(0x42);
    let pkt = SomeIpPacket::new(header, vec![0; 12]);
    assert!(SDMessage::try_from_packet(pkt).is_err());
}

#[test]
fn sd_messages_test_service_entry() {
    let mut entry = ServiceEntry::default();
    entry.set_service_entry_type(ServiceEntryType::Find);
    assert_eq!(entry.service_entry_type().unwrap(), ServiceEntryType::Find);
    entry.set_index1_options(1, 2);
    assert_eq!((1, 2), entry.index1_options());
    entry.set_index2_options(2, 3);
    assert_eq!((2, 3), entry.index2_options());
    entry.set_instance_id(0x9);
    assert_eq!(0x9, entry.instance_id());
    entry.set_service_id(0x10);
    assert_eq!(0x10, entry.service_id());
    entry.set_major_version(1);
    assert_eq!(1, entry.major_version());
    entry.set_minor_version(0xF0F0F0F0);
    assert_eq!(0xF0F0F0F0, entry.minor_version());
    entry.set_ttl(500);
    assert_eq!(500, entry.ttl());
    assert_eq!(
        entry.as_buffer(),
        &[
            0, 1, 2, 0b00100011, 0b00010000, 0, 0b1001, 0, 1, 0b11110100, 1, 0, 0xF0, 0xF0, 0xF0,
            0xF0
        ]
    );
    let sl = entry.as_buffer();
    let new_entry = ServiceEntry::try_from_bytes(&sl[..]).unwrap();
    assert_eq!(entry, new_entry);
}

#[test]
fn service_entry_needs_sixteen_bytes() {
    assert!(ServiceEntry::try_from_bytes(&[0u8; 15]).is_err());
    assert!(ServiceEntry::try_from_bytes(&[0u8; 17]).is_err());
    let mut bytes = [0u8; 16];
    bytes[0] = 0x7f;
    assert!(ServiceEntry::try_from_bytes(&bytes).is_err());
    bytes[0] = 1;
    let e = ServiceEntry::try_from_bytes(&bytes).unwrap();
    assert_eq!(Some(ServiceEntryType::Offer), e.service_entry_type());
}

#[test]
fn service_entry_ttl_keeps_24_bits() {
    let mut entry = ServiceEntry::default();
    entry.set_ttl(0x0123_4567);
    assert_eq!(0x23_4567, entry.ttl());
    entry.set_service_entry_type(ServiceEntryType::Offer);
    assert_eq!(Some(ServiceEntryType::Offer), entry.service_entry_type());
}

#[test]
fn event_group_entry_layout() {
    let mut e = EventGroupEntry::default();
    e.set_type(ServiceEntryType::Offer);
    e.set_index_1_options(1, 2);
    e.set_index_2_options(3, 4);
    e.set_major_version(5);
    e.set_ttl(0x010203);
    e.set_initial_data_requested(true);
    e.set_counter(6);
    let b = e.as_buffer();
    assert_eq!(b.len(), 16);
    assert_eq!(b[0], 1);
    assert_eq!(b[1], 1);
    assert_eq!(b[2], 3);
    assert_eq!(b[3], 0x24);
    assert_eq!(b[8], 5);
}

#[test]
fn sd_messages_test_config_option_configurations() {
    let options = vec![
        (ConfigurationKey::new("key1"), String::from("ConfigValueOption")),
        (ConfigurationKey::new("key2"), String::from("value2")),
        (ConfigurationKey::new("key3"), String::from("value3")),
    ];

    let sd_entry = SDOption::Configurations(options);

    let bytes: Vec<u8> = sd_entry.into_bytes();
    let serialized = SDOption::try_from_bytes(&bytes[..]).expect("Unable to parse into SDOption");
    if let SDOption::Configurations(options) = serialized {
        assert_eq!(options[0].0, ConfigurationKey::new("key1"));
        assert_eq!(options[0].1, String::from("ConfigValueOption"));
        assert_eq!(options[1].0, ConfigurationKey::new("key2"));
        assert_eq!(options[1].1, String::from("value2"));
        assert_eq!(options[2].0, ConfigurationKey::new("key3"));
        assert_eq!(options[2].1, String::from("value3"));
    } else {
        panic!("Expected Configurations");
    }
}

#[test]
fn sd_messages_test_config_option_load_balance() {
    let sd_entry = SDOption::LoadBalancing { priority: 5, weight: 15 };
    let bytes: Vec<u8> = sd_entry.into_bytes();
    let serialized = SDOption::try_from_bytes(&bytes[..]).expect("Unable to parse into SDOption");
    if let SDOption::LoadBalancing { priority, weight } = serialized {
        assert_eq!(priority, 5);
        assert_eq!(weight, 15);
    } else {
        panic!("Expected LoadBalancing");
    }
}

#[test]
fn sd_messages_test_config_option_ipv4endpoint() {
    let sd_entry = SDOption::Ipv4Endpoint {
        addr: LOCALHOST_V4,
        transport: SDOptionTransportProto::TCP,
        port: 8080,
    };
    let bytes: Vec<u8> = sd_entry.into_bytes();
    let serialized = SDOption::try_from_bytes(&bytes[..]).expect("Unable to parse into SDOption");
    if let SDOption::Ipv4Endpoint { addr, transport, port } = serialized {
        assert_eq!(addr, LOCALHOST_V4);
        assert_eq!(transport, SDOptionTransportProto::TCP);
        assert_eq!(port, 8080);
    } else {
        panic!("Expected IpV4Endpoint");
    }
}

#[test]
fn sd_messages_test_config_option_ipv6endpoint() {
    let sd_entry = SDOption::Ipv6Endpoint {
        addr: 1,
        transport: SDOptionTransportProto::TCP,
        port: 8080,
    };
    let bytes: Vec<u8> = sd_entry.into_bytes();
    let serialized = SDOption::try_from_bytes(&bytes[..]).expect("Unable to parse into SDOption");
    if let SDOption::Ipv6Endpoint { addr, transport, port } = serialized {
        assert_eq!(addr, 1);
        assert_eq!(transport, SDOptionTransportProto::TCP);
        assert_eq!(port, 8080);
    } else {
        panic!("Expected IpV6Endpoint");
    }
}

const V6_127_0_0_1: u128 = (127u128 << 112) | (1u128 << 80);

#[test]
fn sd_messages_test_config_option_ipv4multicast() {
    let sd_entry = SDOption::Ipv4Multicast { addr: LOCALHOST_V4, port: 8080 };
    let bytes: Vec<u8> = sd_entry.into_bytes();
    let serialized = SDOption::try_from_bytes(&bytes[..]).expect("Unable to parse into SDOption");
    if let SDOption::Ipv4Multicast { addr, port } = serialized {
        assert_eq!(addr, LOCALHOST_V4);
        assert_eq!(port, 8080);
    } else {
        panic!("Expected IpV6Endpoint");
    }
}

#[test]
fn sd_messages_test_config_option_ip6multicast() {
    let sd_entry = SDOption::Ipv6Multicast { addr: V6_127_0_0_1, port: 8080 };
    let bytes: Vec<u8> = sd_entry.into_bytes();
    let serialized = SDOption::try_from_bytes(&bytes[..]).expect("Unable to parse into SDOption");
    if let SDOption::Ipv6Multicast { addr, port } = serialized {
        assert_eq!(addr, V6_127_0_0_1);
        assert_eq!(port, 8080);
    } else {
        panic!("Expected IpV6Endpoint");
    }
}

#[test]
fn sd_messages_test_config_option_ipv4_sd_endpoint() {
    let sd_entry = SDOption::Ipv4SDEndpoint { addr: LOCALHOST_V4, port: 8080 };
    let bytes: Vec<u8> = sd_entry.into_bytes();
    let serialized = SDOption::try_from_bytes(&bytes[..]).expect("Unable to parse into SDOption");
    if let SDOption::Ipv4SDEndpoint { addr, port } = serialized {
        assert_eq!(addr, LOCALHOST_V4);
        assert_eq!(port, 8080);
    } else {
        panic!("Expected IpV4 SD Endpoint");
    }
}

#[test]
fn sd_messages_test_config_option_ipv6_sd_endpoint() {
    let sd_entry = SDOption::Ipv6SDEndpoint { addr: V6_127_0_0_1, port: 8080 };
    let bytes: Vec<u8> = sd_entry.into_bytes();
    let serialized = SDOption::try_from_bytes(&bytes[..]).expect("Unable to parse into SDOption");
    if let SDOption::Ipv6SDEndpoint { addr, port } = serialized {
        assert_eq!(addr, V6_127_0_0_1);
        assert_eq!(port, 8080);
    } else {
        panic!("Expected IpV4 SD Endpoint");
    }
}

#[test]
fn option_bytes_of_ipv4_endpoint() {
    let o = SDOption::Ipv4Endpoint {
        addr: LOCALHOST_V4,
        transport: SDOptionTransportProto::UDP,
        port: 0x1234,
    };
    let bytes = o.encode();
    assert_eq!(bytes, vec![0, 9, 0x04, 0, 127, 0, 0, 1, 0, 0x11, 0x12, 0x34]);
}

#[test]
fn option_decode_rejects_unknown_type() {
    let bytes = [0u8, 1, 0x7f, 0];
    assert!(matches!(SDOption::decode(&bytes), Decoded::Rejected));
}

#[test]
fn configuration_key_keeps_its_name() {
    let k = ConfigurationKey::new("abc");
    assert_eq!("abc", k.as_str());
    assert_eq!(k.clone(), k);
}
