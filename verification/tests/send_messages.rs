use bytes::{BufMut, Bytes, BytesMut};
use iggy::error::IggyError;
use iggy::header::{HeaderKey, HeaderKind, HeaderSet, HeaderValue};
use iggy::identifier::Identifier;
use iggy::message::{Message, MAX_HEADERS_SIZE, MAX_PAYLOAD_SIZE};
use iggy::partitioning::{Partitioning, PartitioningKind};
use iggy::send_messages::SendMessages;

fn sample_command() -> SendMessages {
    let message_1 = Message::from_str("hello 1").unwrap();
    let message_2 = Message::new(Some(2), "hello 2".into(), None);
    let message_3 = Message::new(Some(3), "hello 3".into(), None);
    SendMessages {
        stream_id: Identifier::numeric(1),
        topic_id: Identifier::numeric(2),
        partitioning: Partitioning::partition_id(4),
        messages: vec![message_1, message_2, message_3],
    }
}

fn headers_of(count: usize, value_length: usize) -> HeaderSet {
    let mut headers = HeaderSet::new();
    for i in 0..count {
        let key = HeaderKey::new(&format!("key-{}", i)).unwrap();
        let value = HeaderValue::new(HeaderKind::Raw, &vec![7u8; value_length]).unwrap();
        headers.insert(key, value);
    }
    headers
}

#[test]
fn should_be_serialized_as_bytes() {
    let message_1 = Message::from_str("hello 1").unwrap();
    let message_2 = Message::new(Some(2), "hello 2".into(), None);
    let message_3 = Message::new(Some(3), "hello 3".into(), None);
    let messages = vec![message_1, message_2, message_3];
    let command = SendMessages {
        stream_id: Identifier::numeric(1),
        topic_id: Identifier::numeric(2),
        partitioning: Partitioning::partition_id(4),
        messages,
    };

    let bytes = command.as_bytes();

    let mut position = 0;
    let stream_id = Identifier::from_bytes(bytes.clone()).unwrap();
    position += stream_id.get_size_bytes() as usize;
    let topic_id = Identifier::from_bytes(bytes.slice(position..)).unwrap();
    position += topic_id.get_size_bytes() as usize;
    let key = Partitioning::from_bytes(bytes.slice(position..)).unwrap();
    position += key.get_size_bytes() as usize;
    let messages = bytes.slice(position..);
    let command_messages = command
        .messages
        .iter()
        .fold(BytesMut::new(), |mut bytes_mut, message| {
            bytes_mut.put(message.as_bytes());
            bytes_mut
        })
        .freeze();

    assert!(!bytes.is_empty());
    assert_eq!(stream_id, command.stream_id);
    assert_eq!(topic_id, command.topic_id);
    assert_eq!(key, command.partitioning);
    assert_eq!(messages, command_messages);
}

#[test]
fn should_be_deserialized_from_bytes() {
    let stream_id = Identifier::numeric(1);
    let topic_id = Identifier::numeric(2);
    let key = Partitioning::partition_id(4);

    let message_1 = Message::from_str("hello 1").unwrap();
    let message_2 = Message::new(Some(2), "hello 2".into(), None);
    let message_3 = Message::new(Some(3), "hello 3".into(), None);
    let messages = [
        message_1.as_bytes(),
        message_2.as_bytes(),
        message_3.as_bytes(),
    ]
    .concat();

    let key_bytes = key.as_bytes();
    let stream_id_bytes = stream_id.as_bytes();
    let topic_id_bytes = topic_id.as_bytes();
    let current_position = stream_id_bytes.len() + topic_id_bytes.len() + key_bytes.len();
    let mut bytes = BytesMut::with_capacity(current_position);
    bytes.put_slice(&stream_id_bytes);
    bytes.put_slice(&topic_id_bytes);
    bytes.put_slice(&key_bytes);
    bytes.put_slice(&messages);
    let bytes = bytes.freeze();
    let command = SendMessages::from_bytes(bytes.clone());
    assert!(command.is_ok());

    let messages_payloads = bytes.slice(current_position..);
    let mut position = 0;
    let mut messages = Vec::new();
    while position < messages_payloads.len() {
        let message = Message::from_bytes(messages_payloads.slice(position..)).unwrap();
        position += message.get_size_bytes() as usize;
        messages.push(message);
    }

    let command = command.unwrap();
    assert_eq!(command.stream_id, stream_id);
    assert_eq!(command.topic_id, topic_id);
    assert_eq!(command.partitioning, key);
    for (index, message) in command.messages.iter().enumerate() {
        let command_message = &command.messages[index];
        assert_eq!(command_message.id, message.id);
        assert_eq!(command_message.length, message.length);
        assert_eq!(command_message.payload, message.payload);
    }
}

#[test]
fn key_of_type_balanced_should_have_empty_value() {
    let empty_key_value: Vec<u8> = vec![];
    let key = Partitioning::balanced();
    assert_eq!(key.kind, PartitioningKind::Balanced);
    assert_eq!(key.length, 0);
    assert_eq!(key.value, empty_key_value);
    assert_eq!(
        PartitioningKind::from_code(1).unwrap(),
        PartitioningKind::Balanced
    );
}

#[test]
fn key_of_type_partition_should_have_value_of_const_length_4() {
    let partition_id = 1234u32;
    let key = Partitioning::partition_id(partition_id);
    assert_eq!(key.kind, PartitioningKind::PartitionId);
    assert_eq!(key.length, 4);
    assert_eq!(key.value, partition_id.to_le_bytes());
    assert_eq!(
        PartitioningKind::from_code(2).unwrap(),
        PartitioningKind::PartitionId
    );
}

#[test]
fn key_of_type_messages_key_should_have_value_of_dynamic_length() {
    let messages_key = "hello world";
    let key = Partitioning::messages_key_str(messages_key).unwrap();
    assert_eq!(key.kind, PartitioningKind::MessagesKey);
    assert_eq!(key.length, messages_key.len() as u8);
    assert_eq!(key.value, messages_key.as_bytes());
    assert_eq!(
        PartitioningKind::from_code(3).unwrap(),
        PartitioningKind::MessagesKey
    );
}

#[test]
fn key_of_type_messages_key_that_has_length_0_should_fail() {
    let messages_key = "";
    let key = Partitioning::messages_key_str(messages_key);
    assert!(key.is_err());
}

#[test]
fn key_of_type_messages_key_that_has_length_greater_than_255_should_fail() {
    let messages_key = "a".repeat(256);
    let key = Partitioning::messages_key_str(&messages_key);
    assert!(key.is_err());
}

#[test]
fn command_round_trips_through_bytes() {
    let command = sample_command();
    let parsed = SendMessages::from_bytes(command.as_bytes()).unwrap();
    assert_eq!(parsed, command);
    assert_eq!(parsed.validate(), Ok(()));
}

#[test]
fn command_with_headers_and_named_ids_round_trips() {
    let mut headers = HeaderSet::new();
    headers.insert(
        HeaderKey::new("content-type").unwrap(),
        HeaderValue::from_str("text/plain").unwrap(),
    );
    headers.insert(HeaderKey::new("retries").unwrap(), HeaderValue::from_uint32(3));
    headers.insert(HeaderKey::new("urgent").unwrap(), HeaderValue::from_bool(true));
    let command = SendMessages {
        stream_id: Identifier::named("orders").unwrap(),
        topic_id: Identifier::numeric(7),
        partitioning: Partitioning::balanced(),
        messages: vec![
            Message::new(Some(9), Bytes::from_static(b"first"), Some(headers)),
            Message::new(None, Bytes::from_static(b"second"), None),
        ],
    };
    assert_eq!(command.validate(), Ok(()));
    let bytes = command.as_bytes();
    let parsed = SendMessages::from_bytes(bytes.clone()).unwrap();
    assert_eq!(parsed, command);
    assert_eq!(parsed.as_bytes(), bytes);
}

#[test]
fn command_wire_form_is_exact() {
    let command = SendMessages {
        stream_id: Identifier::numeric(1),
        topic_id: Identifier::named("ab").unwrap(),
        partitioning: Partitioning::partition_id(4),
        messages: vec![Message::new(Some(0x0102), Bytes::from_static(b"xy"), None)],
    };
    let mut expected: Vec<u8> = vec![1, 4, 1, 0, 0, 0];
    expected.extend_from_slice(&[2, 2, b'a', b'b']);
    expected.extend_from_slice(&[2, 4, 4, 0, 0, 0]);
    expected.extend_from_slice(&[2, 1, 0, 0, 0, 0, 0, 0, 0, 0, 0, 0, 0, 0, 0, 0]);
    expected.extend_from_slice(&[0, 0, 0, 0]);
    expected.extend_from_slice(&[2, 0, 0, 0]);
    expected.extend_from_slice(b"xy");
    assert_eq!(command.as_bytes().to_vec(), expected);
}

#[test]
fn command_length_is_the_sum_of_its_parts() {
    let command = sample_command();
    let size = command.stream_id.get_size_bytes()
        + command.topic_id.get_size_bytes()
        + command.partitioning.get_size_bytes()
        + command.messages.iter().map(Message::get_size_bytes).sum::<u32>();
    assert_eq!(command.as_bytes().len(), size as usize);
    assert_eq!(size, 6 + 6 + 6 + 3 * (24 + 7));
}

#[test]
fn validation_is_repeatable() {
    let good = sample_command();
    assert_eq!(good.validate(), good.validate());
    let bad = SendMessages {
        stream_id: Identifier::numeric(1),
        topic_id: Identifier::numeric(2),
        partitioning: Partitioning::balanced(),
        messages: vec![],
    };
    assert_eq!(bad.validate(), bad.validate());
    assert_eq!(bad.validate(), Err(IggyError::InvalidMessagesCount));
}

#[test]
fn empty_batch_is_rejected() {
    let mut command = sample_command();
    command.messages.clear();
    assert_eq!(command.validate(), Err(IggyError::InvalidMessagesCount));
}

#[test]
fn empty_batch_is_reported_before_the_partitioning() {
    let command = SendMessages {
        stream_id: Identifier::numeric(1),
        topic_id: Identifier::numeric(2),
        partitioning: Partitioning {
            kind: PartitioningKind::MessagesKey,
            length: 0,
            value: vec![],
        },
        messages: vec![],
    };
    assert_eq!(command.validate(), Err(IggyError::InvalidMessagesCount));
}

#[test]
fn balanced_with_a_value_is_rejected() {
    let mut command = sample_command();
    command.partitioning = Partitioning {
        kind: PartitioningKind::Balanced,
        length: 1,
        value: vec![1],
    };
    assert_eq!(command.validate(), Err(IggyError::InvalidKeyValueLength));
}

#[test]
fn messages_key_without_a_value_is_rejected() {
    let mut command = sample_command();
    command.partitioning = Partitioning {
        kind: PartitioningKind::MessagesKey,
        length: 0,
        value: vec![],
    };
    assert_eq!(command.validate(), Err(IggyError::InvalidKeyValueLength));
}

#[test]
fn partitioning_value_above_255_bytes_is_rejected() {
    let mut command = sample_command();
    command.partitioning = Partitioning {
        kind: PartitioningKind::MessagesKey,
        length: 0,
        value: vec![1; 256],
    };
    assert_eq!(command.validate(), Err(IggyError::InvalidKeyValueLength));
}

#[test]
fn messages_key_of_255_bytes_is_accepted() {
    let mut command = sample_command();
    command.partitioning = Partitioning::messages_key(&[9u8; 255]).unwrap();
    assert_eq!(command.partitioning.length, 255);
    assert_eq!(command.validate(), Ok(()));
    assert_eq!(SendMessages::from_bytes(command.as_bytes()).unwrap(), command);
}

#[test]
fn batch_without_payload_bytes_is_rejected() {
    let mut command = sample_command();
    command.messages = vec![Message::new(None, Bytes::new(), None)];
    assert_eq!(command.validate(), Err(IggyError::EmptyMessagePayload));
}

#[test]
fn batch_payload_at_the_limit_is_accepted_and_above_it_rejected() {
    let half = MAX_PAYLOAD_SIZE as usize / 2;
    let mut command = sample_command();
    command.messages = vec![
        Message::new(None, Bytes::from(vec![1u8; half]), None),
        Message::new(None, Bytes::from(vec![2u8; MAX_PAYLOAD_SIZE as usize - half]), None),
    ];
    assert_eq!(command.validate(), Ok(()));
    command
        .messages
        .push(Message::new(None, Bytes::from_static(b"x"), None));
    assert_eq!(command.validate(), Err(IggyError::TooBigMessagePayload));
}

#[test]
fn header_bytes_above_the_limit_are_rejected() {
    let mut command = sample_command();
    command.messages = vec![Message::new(
        None,
        Bytes::from_static(b"x"),
        Some(headers_of(393, 255)),
    )];
    assert!(393 * 255 > MAX_HEADERS_SIZE);
    assert_eq!(command.validate(), Err(IggyError::TooBigHeadersPayload));
}

#[test]
fn header_bytes_are_counted_over_the_whole_batch() {
    let mut command = sample_command();
    command.messages = vec![
        Message::new(None, Bytes::from_static(b"x"), Some(headers_of(200, 250))),
        Message::new(None, Bytes::from_static(b"y"), Some(headers_of(200, 250))),
    ];
    assert_eq!(200 * 250 * 2, MAX_HEADERS_SIZE);
    assert_eq!(command.validate(), Ok(()));
    command.messages.push(Message::new(
        None,
        Bytes::from_static(b"z"),
        Some(headers_of(1, 1)),
    ));
    assert_eq!(command.validate(), Err(IggyError::TooBigHeadersPayload));
}

#[test]
fn headers_are_checked_before_the_payload_of_their_message() {
    let mut command = sample_command();
    command.messages = vec![Message::new(
        None,
        Bytes::from(vec![0u8; MAX_PAYLOAD_SIZE as usize + 1]),
        Some(headers_of(393, 255)),
    )];
    assert_eq!(command.validate(), Err(IggyError::TooBigHeadersPayload));
}

#[test]
fn short_buffers_are_invalid_commands() {
    assert_eq!(
        SendMessages::from_bytes(Bytes::new()),
        Err(IggyError::InvalidCommand)
    );
    assert_eq!(
        SendMessages::from_bytes(Bytes::from_static(&[1, 4, 1, 0, 0, 0, 1, 4, 2, 0])),
        Err(IggyError::InvalidCommand)
    );
}

#[test]
fn parsing_reports_the_error_of_the_part() {
    let good = sample_command().as_bytes().to_vec();

    let mut bad_stream = good.clone();
    bad_stream[0] = 9;
    assert_eq!(
        SendMessages::from_bytes(Bytes::from(bad_stream)),
        Err(IggyError::InvalidCommand)
    );

    let mut wide_number = good.clone();
    wide_number[1] = 5;
    assert_eq!(
        SendMessages::from_bytes(Bytes::from(wide_number)),
        Err(IggyError::InvalidIdentifier)
    );

    let mut bad_kind = good.clone();
    bad_kind[12] = 4;
    assert_eq!(
        SendMessages::from_bytes(Bytes::from(bad_kind)),
        Err(IggyError::InvalidCommand)
    );

    let truncated = good[..good.len() - 1].to_vec();
    assert_eq!(
        SendMessages::from_bytes(Bytes::from(truncated)),
        Err(IggyError::InvalidCommand)
    );

    let without_messages = good[..18].to_vec();
    assert_eq!(
        SendMessages::from_bytes(Bytes::from(without_messages)),
        Err(IggyError::InvalidMessagesCount)
    );
}

#[test]
fn parsing_validates_the_partitioning() {
    let mut bytes = vec![1, 4, 1, 0, 0, 0, 1, 4, 2, 0, 0, 0];
    bytes.extend_from_slice(&[1, 1, 5]);
    bytes.extend_from_slice(&Message::from_str("hello").unwrap().as_bytes());
    assert_eq!(
        SendMessages::from_bytes(Bytes::from(bytes)),
        Err(IggyError::InvalidKeyValueLength)
    );
}

#[test]
fn parsing_arbitrary_bytes_never_panics() {
    let mut state: u32 = 0x2545_f491;
    for round in 0..2000usize {
        let length = round % 97;
        let mut bytes = Vec::with_capacity(length);
        for _ in 0..length {
            state ^= state << 13;
            state ^= state >> 17;
            state ^= state << 5;
            bytes.push((state % 7) as u8);
        }
        let bytes = Bytes::from(bytes);
        if let Ok(command) = SendMessages::from_bytes(bytes.clone()) {
            assert_eq!(command.validate(), Ok(()));
        }
        let _ = Message::from_bytes(bytes.clone());
        let _ = Partitioning::from_bytes(bytes.clone());
        let _ = Identifier::from_bytes(bytes.clone());
        let _ = HeaderSet::from_bytes(bytes);
    }
}

#[test]
fn default_command_holds_the_default_message() {
    let command = SendMessages::default();
    assert_eq!(command.stream_id, Identifier::numeric(1));
    assert_eq!(command.topic_id, Identifier::numeric(1));
    assert_eq!(command.partitioning, Partitioning::balanced());
    assert_eq!(command.messages, vec![Message::default()]);
    assert_eq!(command.validate(), Ok(()));
}

#[test]
fn command_text_joins_the_parts_with_bars() {
    assert_eq!(
        sample_command().to_string(),
        "1|2|partition_id|4|0|hello 1|2|hello 2|3|hello 3"
    );
    assert_eq!(
        SendMessages::render("s", "t", "p", &vec!["a".to_string(), "b".to_string()]),
        "s|t|p|a|b"
    );
    assert_eq!(SendMessages::render("s", "t", "p", &vec![]), "s|t|p|");
}
