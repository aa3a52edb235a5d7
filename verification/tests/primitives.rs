use bytes::Bytes;
use iggy::endian::{le_vec, read_le, read_u32_le};
use iggy::error::IggyError;
use iggy::header::{HeaderKey, HeaderKind, HeaderSet, HeaderValue};
use iggy::identifier::{IdKind, Identifier};
use iggy::message::{default_message_id, Message, MAX_PAYLOAD_SIZE};
use iggy::partitioning::{Partitioning, PartitioningKind};

#[test]
fn integers_are_little_endian() {
    assert_eq!(le_vec(0x0102_0304, 4), vec![4, 3, 2, 1]);
    assert_eq!(le_vec(0x0102_0304, 2), vec![4, 3]);
    assert_eq!(le_vec(1, 8), vec![1, 0, 0, 0, 0, 0, 0, 0]);
    assert_eq!(
        le_vec(0x0102_0304_0506_0708_090a_0b0c_0d0e_0f10, 16),
        vec![16, 15, 14, 13, 12, 11, 10, 9, 8, 7, 6, 5, 4, 3, 2, 1]
    );
    assert_eq!(read_u32_le(&[9, 4, 3, 2, 1, 9], 1), 0x0102_0304);
    assert_eq!(read_le(&[4, 3, 2, 1], 0, 4), 0x0102_0304);
    assert_eq!(read_le(&[0xff; 16], 0, 16), u128::MAX);
    assert_eq!(read_le(&[7, 7], 1, 0), 0);
}

#[test]
fn integer_fields_on_the_wire_are_little_endian() {
    assert_eq!(
        Identifier::numeric(0x0102_0304).as_bytes().to_vec(),
        vec![1, 4, 4, 3, 2, 1]
    );
    assert_eq!(
        Partitioning::partition_id(0x0102_0304).as_bytes().to_vec(),
        vec![2, 4, 4, 3, 2, 1]
    );
    let message = Message::new(
        Some(0x0102_0304_0506_0708_090a_0b0c_0d0e_0f10),
        Bytes::from(vec![0u8; 0x0102]),
        None,
    );
    let bytes = message.as_bytes();
    assert_eq!(
        bytes[..16].to_vec(),
        vec![16, 15, 14, 13, 12, 11, 10, 9, 8, 7, 6, 5, 4, 3, 2, 1]
    );
    assert_eq!(bytes[16..20].to_vec(), vec![0, 0, 0, 0]);
    assert_eq!(bytes[20..24].to_vec(), vec![2, 1, 0, 0]);
    let parsed = Message::from_bytes(bytes).unwrap();
    assert_eq!(parsed.id, 0x0102_0304_0506_0708_090a_0b0c_0d0e_0f10);
    assert_eq!(parsed.length, 0x0102);
}

#[test]
fn identifier_names_of_1_and_255_bytes_are_accepted() {
    let short = Identifier::named("a").unwrap();
    assert_eq!(short.kind, IdKind::Named);
    assert_eq!(short.length, 1);
    assert_eq!(short.value, b"a".to_vec());
    let long = Identifier::named(&"b".repeat(255)).unwrap();
    assert_eq!(long.length, 255);
    assert_eq!(long.get_size_bytes(), 257);
    assert_eq!(long.validate(), Ok(()));
}

#[test]
fn identifier_names_of_0_and_256_bytes_are_rejected() {
    assert_eq!(Identifier::named(""), Err(IggyError::InvalidIdentifier));
    assert_eq!(
        Identifier::named(&"b".repeat(256)),
        Err(IggyError::InvalidIdentifier)
    );
}

#[test]
fn identifier_wire_form_and_size() {
    let id = Identifier::numeric(5);
    assert_eq!(id.kind, IdKind::Numeric);
    assert_eq!(id.length, 4);
    assert_eq!(id.as_bytes().to_vec(), vec![1, 4, 5, 0, 0, 0]);
    assert_eq!(id.get_size_bytes(), 6);
    let name = Identifier::named("ab").unwrap();
    assert_eq!(name.as_bytes().to_vec(), vec![2, 2, b'a', b'b']);
    assert_eq!(name.get_size_bytes(), 4);
    assert_eq!(Identifier::default(), Identifier::numeric(1));
}

#[test]
fn identifier_round_trips_and_ignores_what_follows() {
    let id = Identifier::named("stream").unwrap();
    let mut bytes = id.as_bytes().to_vec();
    assert_eq!(Identifier::from_bytes(Bytes::from(bytes.clone())), Ok(id.clone()));
    bytes.extend_from_slice(&[1, 2, 3]);
    assert_eq!(Identifier::parse(&bytes), Ok(id));
}

#[test]
fn identifier_parse_errors() {
    assert_eq!(Identifier::parse(&[]), Err(IggyError::InvalidCommand));
    assert_eq!(Identifier::parse(&[1]), Err(IggyError::InvalidCommand));
    assert_eq!(Identifier::parse(&[3, 1, 0]), Err(IggyError::InvalidCommand));
    assert_eq!(Identifier::parse(&[1, 4, 0, 0, 0]), Err(IggyError::InvalidCommand));
    assert_eq!(Identifier::parse(&[1, 2, 0, 0]), Err(IggyError::InvalidIdentifier));
    assert_eq!(Identifier::parse(&[2, 0]), Err(IggyError::InvalidIdentifier));
}

#[test]
fn identifier_equality_is_by_kind_and_bytes() {
    assert_eq!(Identifier::numeric(7), Identifier::numeric(7));
    assert_ne!(Identifier::numeric(7), Identifier::numeric(8));
    let name = Identifier {
        kind: IdKind::Named,
        length: 4,
        value: 7u32.to_le_bytes().to_vec(),
    };
    assert_ne!(Identifier::numeric(7), name);
}

#[test]
fn identifier_validation_finds_broken_records() {
    let wrong_width = Identifier {
        kind: IdKind::Numeric,
        length: 2,
        value: vec![1, 2],
    };
    assert_eq!(wrong_width.validate(), Err(IggyError::InvalidIdentifier));
    let wrong_length = Identifier {
        kind: IdKind::Named,
        length: 3,
        value: vec![b'a'],
    };
    assert_eq!(wrong_length.validate(), Err(IggyError::InvalidIdentifier));
    let empty = Identifier {
        kind: IdKind::Named,
        length: 0,
        value: vec![],
    };
    assert_eq!(empty.validate(), Err(IggyError::InvalidIdentifier));
}

#[test]
fn identifier_text_forms() {
    assert_eq!(Identifier::numeric(0).to_string(), "0");
    assert_eq!(Identifier::numeric(4_294_967_295).to_string(), "4294967295");
    assert_eq!(Identifier::named("orders").unwrap().to_string(), "orders");
    let odd = Identifier {
        kind: IdKind::Named,
        length: 2,
        value: vec![b'a', 0xff],
    };
    assert_eq!(odd.to_string(), "a\u{fffd}");
}

#[test]
fn id_kind_codes() {
    assert_eq!(IdKind::Numeric.as_code(), 1);
    assert_eq!(IdKind::Named.as_code(), 2);
    assert_eq!(IdKind::from_code(1), Ok(IdKind::Numeric));
    assert_eq!(IdKind::from_code(2), Ok(IdKind::Named));
    assert_eq!(IdKind::from_code(0), Err(IggyError::InvalidCommand));
    assert_eq!(IdKind::from_code(3), Err(IggyError::InvalidCommand));
}

#[test]
fn balanced_serializes_to_two_bytes() {
    let bytes = Partitioning::balanced().as_bytes();
    assert_eq!(bytes.to_vec(), vec![1, 0]);
    assert_eq!(bytes.len(), 2);
    assert_eq!(Partitioning::balanced().get_size_bytes(), 2);
    assert_eq!(Partitioning::default(), Partitioning::balanced());
}

#[test]
fn partition_id_serializes_to_six_bytes() {
    assert_eq!(
        Partitioning::partition_id(4).as_bytes().to_vec(),
        vec![2, 4, 4, 0, 0, 0]
    );
    assert_eq!(Partitioning::partition_id(4).get_size_bytes(), 6);
}

#[test]
fn messages_key_builders() {
    let key = Partitioning::messages_key_str("hello world").unwrap();
    assert_eq!(key.kind, PartitioningKind::MessagesKey);
    assert_eq!(key.length, 11);
    assert_eq!(key.value, b"hello world".to_vec());
    assert_eq!(key.get_size_bytes(), 13);

    let key = Partitioning::messages_key(&[1, 2, 3]).unwrap();
    assert_eq!((key.kind, key.length), (PartitioningKind::MessagesKey, 3));
    assert_eq!(key.value, vec![1, 2, 3]);
    assert_eq!(Partitioning::messages_key(&[]), Err(IggyError::InvalidCommand));
    assert_eq!(
        Partitioning::messages_key(&[0; 256]),
        Err(IggyError::InvalidCommand)
    );
    assert_eq!(Partitioning::messages_key(&[0; 255]).unwrap().length, 255);

    let key = Partitioning::messages_key_u32(0x0102_0304);
    assert_eq!((key.kind, key.length), (PartitioningKind::MessagesKey, 4));
    assert_eq!(key.value, vec![4, 3, 2, 1]);
    let key = Partitioning::messages_key_u64(0x0102_0304_0506_0708);
    assert_eq!((key.kind, key.length), (PartitioningKind::MessagesKey, 8));
    assert_eq!(key.value, vec![8, 7, 6, 5, 4, 3, 2, 1]);
    let key = Partitioning::messages_key_u128(1);
    assert_eq!((key.kind, key.length), (PartitioningKind::MessagesKey, 16));
    assert_eq!(key.value, 1u128.to_le_bytes().to_vec());
}

#[test]
fn from_partitioning_copies_the_record() {
    let key = Partitioning::messages_key_str("k").unwrap();
    let copy = Partitioning::from_partitioning(&key);
    assert_eq!(copy, key);
    assert_eq!(copy.value, vec![b'k']);
}

#[test]
fn partitioning_kind_codes() {
    assert_eq!(PartitioningKind::Balanced.as_code(), 1);
    assert_eq!(PartitioningKind::PartitionId.as_code(), 2);
    assert_eq!(PartitioningKind::MessagesKey.as_code(), 3);
    assert_eq!(PartitioningKind::from_code(0), Err(IggyError::InvalidCommand));
    assert_eq!(PartitioningKind::from_code(4), Err(IggyError::InvalidCommand));
    assert_eq!(PartitioningKind::default(), PartitioningKind::Balanced);
}

#[test]
fn partitioning_round_trips_and_reports_errors() {
    for key in [
        Partitioning::balanced(),
        Partitioning::partition_id(77),
        Partitioning::messages_key_str("key").unwrap(),
    ] {
        assert_eq!(Partitioning::from_bytes(key.as_bytes()), Ok(key));
    }
    assert_eq!(Partitioning::parse(&[1]), Err(IggyError::InvalidCommand));
    assert_eq!(Partitioning::parse(&[9, 0]), Err(IggyError::InvalidCommand));
    assert_eq!(Partitioning::parse(&[3, 2, 1]), Err(IggyError::InvalidCommand));
    let loose = Partitioning::parse(&[1, 1, 5, 6]).unwrap();
    assert_eq!((loose.kind, loose.length), (PartitioningKind::Balanced, 1));
    assert_eq!(loose.value, vec![5]);
}

#[test]
fn partitioning_text_forms() {
    assert_eq!(PartitioningKind::Balanced.to_string(), "balanced");
    assert_eq!(PartitioningKind::PartitionId.to_string(), "partition_id");
    assert_eq!(PartitioningKind::MessagesKey.to_string(), "messages_key");
    assert_eq!(Partitioning::balanced().to_string(), "balanced|0");
    assert_eq!(Partitioning::partition_id(1234).to_string(), "partition_id|1234");
    assert_eq!(
        Partitioning::messages_key_str("hello").unwrap().to_string(),
        "messages_key|hello"
    );
    assert_eq!(
        Partitioning::messages_key(&[b'a', 0xff]).unwrap().to_string(),
        "messages_key|a\u{fffd}"
    );
    assert_eq!(Partitioning::partition_id(9).render("ignored"), "partition_id|9");
    assert_eq!(
        Partitioning::messages_key_u32(1).render("shown"),
        "messages_key|shown"
    );
}

#[test]
fn message_from_str() {
    let message = Message::from_str("hello 1").unwrap();
    assert_eq!(message.id, 0);
    assert_eq!(message.length, 7);
    assert_eq!(message.payload, Bytes::from_static(b"hello 1"));
    assert_eq!(message.headers, None);
    let bytes = message.as_bytes();
    assert_eq!(bytes.len(), 24 + 7);
    assert_eq!(bytes[..24].to_vec(), {
        let mut fixed = vec![0u8; 24];
        fixed[20] = 7;
        fixed
    });
    assert_eq!(bytes[24..].to_vec(), b"hello 1".to_vec());
    assert_eq!(message.get_size_bytes(), 31);
    assert_eq!(Message::from_str("").err(), Some(IggyError::EmptyMessagePayload));
}

#[test]
fn message_new_takes_no_id_as_zero() {
    assert_eq!(default_message_id(), 0);
    let without = Message::new(None, Bytes::from_static(b"p"), None);
    let with_zero = Message::new(Some(0), Bytes::from_static(b"p"), None);
    assert_eq!(without.id, 0);
    assert_eq!(without, with_zero);
    let with_id = Message::new(Some(7), Bytes::from_static(b"pay"), None);
    assert_eq!((with_id.id, with_id.length), (7, 3));
    let default = Message::default();
    assert_eq!((default.id, default.length), (0, 11));
    assert_eq!(default.payload, Bytes::from_static(b"hello world"));
    assert_eq!(default.headers, None);
}

#[test]
fn message_payload_limits() {
    let empty = Message::new(None, Bytes::new(), None);
    assert_eq!(empty.validate(), Err(IggyError::EmptyMessagePayload));
    let full = Message::new(None, Bytes::from(vec![1u8; MAX_PAYLOAD_SIZE as usize]), None);
    assert_eq!(full.validate(), Ok(()));
    assert_eq!(Message::from_bytes(full.as_bytes()), Ok(full));
    let over = Message::new(
        None,
        Bytes::from(vec![1u8; MAX_PAYLOAD_SIZE as usize + 1]),
        None,
    );
    assert_eq!(over.validate(), Err(IggyError::TooBigMessagePayload));
    assert_eq!(
        Message::from_bytes(over.as_bytes()),
        Err(IggyError::TooBigMessagePayload)
    );
    let mut wrong = Message::new(None, Bytes::from_static(b"abc"), None);
    wrong.length = 2;
    assert_eq!(wrong.validate(), Err(IggyError::InvalidMessagePayloadLength));
}

#[test]
fn message_parse_errors() {
    assert_eq!(
        Message::from_bytes(Bytes::from(vec![0u8; 23])),
        Err(IggyError::InvalidCommand)
    );
    assert_eq!(
        Message::from_bytes(Bytes::from(vec![0u8; 24])),
        Err(IggyError::EmptyMessagePayload)
    );
    let good = Message::from_str("hello").unwrap().as_bytes().to_vec();
    assert_eq!(
        Message::from_bytes(Bytes::from(good[..good.len() - 1].to_vec())),
        Err(IggyError::InvalidCommand)
    );
    let mut long_headers = good.clone();
    long_headers[16] = 200;
    assert_eq!(
        Message::from_bytes(Bytes::from(long_headers)),
        Err(IggyError::InvalidCommand)
    );
    let mut bad_headers = good.clone();
    bad_headers[16] = 3;
    bad_headers.extend_from_slice(&[0; 8]);
    assert_eq!(
        Message::from_bytes(Bytes::from(bad_headers)),
        Err(IggyError::InvalidHeaderValue)
    );
}

#[test]
fn message_parsing_ignores_what_follows() {
    let first = Message::new(Some(1), Bytes::from_static(b"one"), None);
    let second = Message::new(Some(2), Bytes::from_static(b"two"), None);
    let mut bytes = first.as_bytes().to_vec();
    bytes.extend_from_slice(&second.as_bytes());
    let bytes = Bytes::from(bytes);
    assert_eq!(Message::from_bytes(bytes.clone()), Ok(first));
    let (parsed, size) = Message::parse_at(&bytes, 27).unwrap();
    assert_eq!(parsed, second);
    assert_eq!(size, 27);
}

#[test]
fn message_with_headers_round_trips() {
    let mut headers = HeaderSet::new();
    headers.insert(HeaderKey::new("a").unwrap(), HeaderValue::from_uint8(1));
    headers.insert(HeaderKey::new("bc").unwrap(), HeaderValue::from_raw(&[1, 2, 3]).unwrap());
    let message = Message::new(Some(5), Bytes::from_static(b"payload"), Some(headers));
    let bytes = message.as_bytes();
    assert_eq!(bytes.len(), 24 + (9 + 1 + 1) + (9 + 2 + 3) + 7);
    assert_eq!(message.get_size_bytes() as usize, bytes.len());
    assert_eq!(bytes[16..20].to_vec(), vec![25, 0, 0, 0]);
    assert_eq!(Message::from_bytes(bytes), Ok(message));
}

#[test]
fn message_text_form() {
    assert_eq!(Message::from_str("hello 1").unwrap().to_string(), "0|hello 1");
    let message = Message::new(Some(u128::MAX), Bytes::from_static(&[b'a', 0xff, b'b']), None);
    assert_eq!(
        message.to_string(),
        "340282366920938463463374607431768211455|a\u{fffd}b"
    );
    assert_eq!(message.render("text"), "340282366920938463463374607431768211455|text");
}

#[test]
fn header_kind_codes_and_widths() {
    let kinds = [
        HeaderKind::Raw,
        HeaderKind::String,
        HeaderKind::Bool,
        HeaderKind::Int8,
        HeaderKind::Int16,
        HeaderKind::Int32,
        HeaderKind::Int64,
        HeaderKind::Int128,
        HeaderKind::Uint8,
        HeaderKind::Uint16,
        HeaderKind::Uint32,
        HeaderKind::Uint64,
        HeaderKind::Uint128,
        HeaderKind::Float32,
        HeaderKind::Float64,
    ];
    for (index, kind) in kinds.iter().enumerate() {
        assert_eq!(kind.as_code() as usize, index + 1);
        assert_eq!(HeaderKind::from_code(kind.as_code()), Ok(*kind));
    }
    assert_eq!(HeaderKind::from_code(0), Err(IggyError::InvalidCommand));
    assert_eq!(HeaderKind::from_code(16), Err(IggyError::InvalidCommand));
    assert!(HeaderKind::Raw.accepts(1) && HeaderKind::Raw.accepts(255));
    assert!(!HeaderKind::Raw.accepts(0) && !HeaderKind::String.accepts(256));
    assert!(HeaderKind::Bool.accepts(1) && !HeaderKind::Bool.accepts(2));
    assert!(HeaderKind::Int16.accepts(2) && HeaderKind::Uint16.accepts(2));
    assert!(HeaderKind::Float32.accepts(4) && !HeaderKind::Float32.accepts(8));
    assert!(HeaderKind::Int64.accepts(8) && HeaderKind::Float64.accepts(8));
    assert!(HeaderKind::Int128.accepts(16) && HeaderKind::Uint128.accepts(16));
}

#[test]
fn header_key_limits() {
    assert_eq!(HeaderKey::new("").err(), Some(IggyError::InvalidHeaderKey));
    assert_eq!(
        HeaderKey::new(&"k".repeat(256)).err(),
        Some(IggyError::InvalidHeaderKey)
    );
    assert_eq!(HeaderKey::new("k").unwrap().as_str(), "k");
    assert_eq!(HeaderKey::new(&"k".repeat(255)).unwrap().as_bytes().len(), 255);
    assert_eq!(HeaderKey::from_bytes(b"key").unwrap().as_str(), "key");
    assert_eq!(
        HeaderKey::from_bytes(&[0xff]).err(),
        Some(IggyError::InvalidHeaderKey)
    );
    assert_eq!(HeaderKey::from_bytes(&[]).err(), Some(IggyError::InvalidHeaderKey));
    assert!(HeaderKey::new("a").unwrap().same(&HeaderKey::from_bytes(b"a").unwrap()));
    assert!(!HeaderKey::new("a").unwrap().same(&HeaderKey::new("b").unwrap()));
    assert_eq!(HeaderKey::new("a").unwrap().clone(), HeaderKey::new("a").unwrap());
}

#[test]
fn header_value_builders() {
    assert_eq!(HeaderValue::from_raw(&[]).err(), Some(IggyError::InvalidHeaderValue));
    assert_eq!(
        HeaderValue::from_raw(&[0; 256]).err(),
        Some(IggyError::InvalidHeaderValue)
    );
    assert_eq!(HeaderValue::from_str("").err(), Some(IggyError::InvalidHeaderValue));
    assert_eq!(
        HeaderValue::from_str(&"v".repeat(256)).err(),
        Some(IggyError::InvalidHeaderValue)
    );
    let value = HeaderValue::from_str("text").unwrap();
    assert_eq!((value.kind(), value.as_bytes()), (HeaderKind::String, &b"text"[..]));
    let value = HeaderValue::from_raw(&[1, 2]).unwrap();
    assert_eq!((value.kind(), value.as_bytes()), (HeaderKind::Raw, &[1u8, 2][..]));
    assert_eq!(HeaderValue::from_bool(true).as_bytes(), &[1]);
    assert_eq!(HeaderValue::from_bool(false).as_bytes(), &[0]);
    assert_eq!(HeaderValue::from_bool(true).kind(), HeaderKind::Bool);
    assert_eq!(HeaderValue::from_int8(-1).as_bytes(), (-1i8).to_le_bytes());
    assert_eq!(HeaderValue::from_int8(i8::MIN).as_bytes(), i8::MIN.to_le_bytes());
    assert_eq!(HeaderValue::from_int16(-2).as_bytes(), (-2i16).to_le_bytes());
    assert_eq!(HeaderValue::from_int32(-3).as_bytes(), (-3i32).to_le_bytes());
    assert_eq!(HeaderValue::from_int32(7).as_bytes(), 7i32.to_le_bytes());
    assert_eq!(HeaderValue::from_int64(i64::MIN).as_bytes(), i64::MIN.to_le_bytes());
    assert_eq!(HeaderValue::from_int128(-5).as_bytes(), (-5i128).to_le_bytes());
    assert_eq!(
        HeaderValue::from_int128(i128::MIN).as_bytes(),
        i128::MIN.to_le_bytes()
    );
    assert_eq!(HeaderValue::from_int128(i128::MAX).kind(), HeaderKind::Int128);
    assert_eq!(HeaderValue::from_uint8(200).as_bytes(), &[200]);
    assert_eq!(HeaderValue::from_uint16(0x0102).as_bytes(), &[2, 1]);
    assert_eq!(HeaderValue::from_uint32(0x0102_0304).as_bytes(), &[4, 3, 2, 1]);
    assert_eq!(HeaderValue::from_uint64(1).as_bytes(), 1u64.to_le_bytes());
    assert_eq!(HeaderValue::from_uint128(u128::MAX).as_bytes(), &[0xff; 16]);
    assert_eq!(
        HeaderValue::from_float32_bits(1.5f32.to_bits()).as_bytes(),
        1.5f32.to_le_bytes()
    );
    assert_eq!(
        HeaderValue::from_float64_bits(2.5f64.to_bits()).as_bytes(),
        2.5f64.to_le_bytes()
    );
    assert_eq!(HeaderValue::from_float64_bits(0).kind(), HeaderKind::Float64);
    assert_eq!(
        HeaderValue::new(HeaderKind::Uint32, &[1, 2]).err(),
        Some(IggyError::InvalidHeaderValue)
    );
    assert_eq!(
        HeaderValue::new(HeaderKind::Uint32, &[1, 2, 3, 4]).unwrap().clone(),
        HeaderValue::from_uint32(0x0403_0201)
    );
}

#[test]
fn header_set_keeps_one_value_for_each_key() {
    let mut headers = HeaderSet::new();
    assert!(headers.is_empty());
    let a = HeaderKey::new("a").unwrap();
    let b = HeaderKey::new("b").unwrap();
    headers.insert(a.clone(), HeaderValue::from_uint8(1));
    headers.insert(b.clone(), HeaderValue::from_uint8(2));
    headers.insert(a.clone(), HeaderValue::from_uint8(3));
    assert_eq!(headers.len(), 2);
    assert_eq!(headers.get(&a), Some(&HeaderValue::from_uint8(3)));
    assert_eq!(headers.get(&b), Some(&HeaderValue::from_uint8(2)));
    assert_eq!(headers.get(&HeaderKey::new("c").unwrap()), None);
    assert_eq!(headers.position(&b), Some(1));
    assert_eq!(headers.key_at(0), &a);
    assert_eq!(headers.value_at(1), &HeaderValue::from_uint8(2));
}

#[test]
fn header_set_wire_form() {
    let mut headers = HeaderSet::new();
    assert_eq!(headers.as_bytes().len(), 0);
    headers.insert(HeaderKey::new("ab").unwrap(), HeaderValue::from_uint16(0x0102));
    headers.insert(HeaderKey::new("c").unwrap(), HeaderValue::from_str("xy").unwrap());
    let bytes = headers.as_bytes();
    assert_eq!(
        bytes.to_vec(),
        vec![
            2, 0, 0, 0, b'a', b'b', 10, 2, 0, 0, 0, 2, 1, //
            1, 0, 0, 0, b'c', 2, 2, 0, 0, 0, b'x', b'y',
        ]
    );
    assert_eq!(headers.get_size_bytes() as usize, bytes.len());
    assert_eq!(HeaderSet::from_bytes(bytes), Ok(headers));
    assert_eq!(HeaderSet::from_bytes(Bytes::new()), Ok(HeaderSet::new()));
}

#[test]
fn header_set_parse_errors() {
    let good: Vec<u8> = vec![1, 0, 0, 0, b'k', 9, 1, 0, 0, 0, 7];
    assert!(HeaderSet::parse(&good).is_ok());
    let mut trailing = good.clone();
    trailing.extend_from_slice(&[1, 2]);
    assert_eq!(HeaderSet::parse(&trailing), Err(IggyError::InvalidHeaderValue));
    assert_eq!(
        HeaderSet::parse(&good[..good.len() - 1]),
        Err(IggyError::InvalidHeaderValue)
    );
    assert_eq!(HeaderSet::parse(&good[..6]), Err(IggyError::InvalidHeaderValue));
    let mut no_key = good.clone();
    no_key[0] = 0;
    assert_eq!(HeaderSet::parse(&no_key), Err(IggyError::InvalidHeaderKey));
    let mut long_key = good.clone();
    long_key[1] = 1;
    assert_eq!(HeaderSet::parse(&long_key), Err(IggyError::InvalidHeaderKey));
    let mut not_text = good.clone();
    not_text[4] = 0xff;
    assert_eq!(HeaderSet::parse(&not_text), Err(IggyError::InvalidHeaderKey));
    let mut bad_kind = good.clone();
    bad_kind[5] = 16;
    assert_eq!(HeaderSet::parse(&bad_kind), Err(IggyError::InvalidCommand));
    let mut bad_length = good.clone();
    bad_length[6] = 2;
    bad_length.push(0);
    assert_eq!(HeaderSet::parse(&bad_length), Err(IggyError::InvalidHeaderValue));
    let mut no_value: Vec<u8> = vec![1, 0, 0, 0, b'k', 1, 0, 0, 0, 0];
    assert_eq!(HeaderSet::parse(&no_value), Err(IggyError::InvalidHeaderValue));
    no_value[6] = 0;
    no_value[7] = 1;
    assert_eq!(HeaderSet::parse(&no_value), Err(IggyError::InvalidHeaderValue));
}

#[test]
fn header_set_parse_keeps_the_last_value_of_a_key() {
    let bytes: Vec<u8> = vec![
        1, 0, 0, 0, b'k', 9, 1, 0, 0, 0, 7, //
        1, 0, 0, 0, b'j', 9, 1, 0, 0, 0, 8, //
        1, 0, 0, 0, b'k', 9, 1, 0, 0, 0, 9,
    ];
    let headers = HeaderSet::parse(&bytes).unwrap();
    assert_eq!(headers.len(), 2);
    assert_eq!(headers.key_at(0).as_str(), "k");
    assert_eq!(headers.value_at(0), &HeaderValue::from_uint8(9));
    assert_eq!(headers.value_at(1), &HeaderValue::from_uint8(8));
}

#[test]
fn header_sets_are_equal_whatever_the_order() {
    let a = HeaderKey::new("a").unwrap();
    let b = HeaderKey::new("b").unwrap();
    let mut first = HeaderSet::new();
    first.insert(a.clone(), HeaderValue::from_uint8(1));
    first.insert(b.clone(), HeaderValue::from_uint8(2));
    let mut second = HeaderSet::new();
    second.insert(b.clone(), HeaderValue::from_uint8(2));
    second.insert(a.clone(), HeaderValue::from_uint8(1));
    assert_eq!(first, second);
    assert_ne!(first.as_bytes(), second.as_bytes());

    let mut other_value = HeaderSet::new();
    other_value.insert(a.clone(), HeaderValue::from_uint8(1));
    other_value.insert(b.clone(), HeaderValue::from_uint8(3));
    assert_ne!(first, other_value);

    let mut other_kind = HeaderSet::new();
    other_kind.insert(a.clone(), HeaderValue::from_uint8(1));
    other_kind.insert(b.clone(), HeaderValue::from_int8(2));
    assert_ne!(first, other_kind);

    let mut smaller = HeaderSet::new();
    smaller.insert(a.clone(), HeaderValue::from_uint8(1));
    assert_ne!(first, smaller);
    assert_ne!(smaller, first);
    assert_eq!(HeaderSet::new(), HeaderSet::new());
    assert!(HeaderValue::from_uint8(1).same(&HeaderValue::from_uint8(1)));
    assert!(!HeaderValue::from_uint8(1).same(&HeaderValue::from_int8(1)));
}
