//! The `SendMessages` command: a batch of messages for a topic of a stream.
//!
//! On the wire the command is the stream identifier, the topic identifier,
//! the partitioning and the messages, back to back.

use crate::buffer::{
    bytes_as_slice, bytes_mut_view, bytes_mut_with_capacity, bytes_view, freeze, put_slice,
};
use crate::error::IggyError;
use crate::header::{
    headers_value_bytes, lemma_headers_size_bound, lemma_headers_size_concat,
    lemma_headers_size_one,
};
use crate::identifier::{
    lemma_identifier_parse_sound, lemma_identifier_round_trip, parse_identifier, Identifier,
    IdentifierView,
};
use crate::message::{
    lemma_message_parse_sound, lemma_message_round_trip, lemma_message_wire_len, parse_message,
    Message, MessageView, MAX_HEADERS_SIZE, MAX_PAYLOAD_SIZE,
};
use crate::partitioning::{
    lemma_partitioning_parse_sound, lemma_partitioning_round_trip, parse_partitioning,
    Partitioning, PartitioningKind, PartitioningView,
};
use crate::text::{join, joined, texts, utf8_lossy};
use bytes::Bytes;
use vstd::prelude::*;
use vstd::slice::slice_subrange;
use vstd::string::{StringExecFns, StringSliceAdditionalSpecFns};

verus! {

/// `SendMessages` command is used to send messages to a topic in a stream.
#[derive(Debug, PartialEq)]
pub struct SendMessages {
    /// Unique stream ID (numeric or name).
    pub stream_id: Identifier,
    /// Unique topic ID (numeric or name).
    pub topic_id: Identifier,
    /// To which partition the messages should be sent - either provided by
    /// the client or calculated by the server.
    pub partitioning: Partitioning,
    /// Collection of messages to be sent.
    pub messages: Vec<Message>,
}

/// The command as a mathematical value.
pub struct SendMessagesView {
    pub stream_id: IdentifierView,
    pub topic_id: IdentifierView,
    pub partitioning: PartitioningView,
    pub messages: Seq<MessageView>,
}

/// The messages of a vector as mathematical values.
pub open spec fn messages_view(messages: Seq<Message>) -> Seq<MessageView> {
    Seq::new(messages.len(), |i: int| messages[i]@)
}

impl View for SendMessages {
    type V = SendMessagesView;

    open spec fn view(&self) -> SendMessagesView {
        SendMessagesView {
            stream_id: self.stream_id@,
            topic_id: self.topic_id@,
            partitioning: self.partitioning@,
            messages: messages_view(self.messages@),
        }
    }
}

/// The wire form of a run of messages: one after the other.
pub open spec fn messages_wire(messages: Seq<MessageView>) -> Seq<u8>
    decreases messages.len(),
{
    if messages.len() == 0 {
        Seq::empty()
    } else {
        messages[0].wire() + messages_wire(messages.drop_first())
    }
}

/// The number of bytes of the wire form of a run of messages.
pub open spec fn messages_size(messages: Seq<MessageView>) -> nat
    decreases messages.len(),
{
    if messages.len() == 0 {
        0
    } else {
        messages[0].size() + messages_size(messages.drop_first())
    }
}

/// What the walk over `messages` reports, with `header_bytes` header value
/// bytes and `payload_bytes` payload bytes counted before them.
///
/// Message by message, the header value bytes are added first: a total above
/// `MAX_HEADERS_SIZE` is `TooBigHeadersPayload`. Then the payload bytes are
/// added: a total above `MAX_PAYLOAD_SIZE` is `TooBigMessagePayload`. Both
/// totals run over the whole batch. At the end, no payload byte at all is
/// `EmptyMessagePayload`.
pub open spec fn walk(messages: Seq<MessageView>, header_bytes: nat, payload_bytes: nat) -> Result<
    (),
    IggyError,
>
    decreases messages.len(),
{
    if messages.len() == 0 {
        if payload_bytes == 0 {
            Err(IggyError::EmptyMessagePayload)
        } else {
            Ok(())
        }
    } else {
        let headers = header_bytes + messages[0].headers_value_bytes();
        let payload = payload_bytes + messages[0].payload.len();
        if headers > MAX_HEADERS_SIZE {
            Err(IggyError::TooBigHeadersPayload)
        } else if payload > MAX_PAYLOAD_SIZE {
            Err(IggyError::TooBigMessagePayload)
        } else {
            walk(messages.drop_first(), headers, payload)
        }
    }
}

/// The text form of a command from the texts of its parts: stream, topic,
/// partitioning and messages, with a bar between each two.
pub open spec fn command_text(
    stream_id: Seq<char>,
    topic_id: Seq<char>,
    partitioning: Seq<char>,
    messages: Seq<Seq<char>>,
) -> Seq<char> {
    stream_id + "|"@ + topic_id + "|"@ + partitioning + "|"@ + joined(messages, "|"@)
}

impl SendMessagesView {
    /// Whether the parts can be shown; see the text forms of the parts.
    pub open spec fn has_text(self) -> bool {
        &&& self.stream_id.is_valid()
        &&& self.topic_id.is_valid()
        &&& self.partitioning.has_text()
    }

    /// The text forms of the messages.
    pub open spec fn message_texts(self) -> Seq<Seq<char>> {
        Seq::new(
            self.messages.len(),
            |i: int| self.messages[i].text(utf8_lossy(self.messages[i].payload)),
        )
    }

    /// The text form: the texts of the parts with a bar between each two.
    pub open spec fn text(self) -> Seq<char> {
        command_text(
            self.stream_id.text(),
            self.topic_id.text(),
            self.partitioning.text(utf8_lossy(self.partitioning.value)),
            self.message_texts(),
        )
    }

    /// Stream identifier, topic identifier, partitioning, messages.
    pub open spec fn wire(self) -> Seq<u8> {
        self.stream_id.wire() + self.topic_id.wire() + self.partitioning.wire() + messages_wire(
            self.messages,
        )
    }

    /// The number of bytes of the wire form of a well-formed command.
    pub open spec fn size(self) -> nat {
        self.stream_id.size() + self.topic_id.size() + self.partitioning.size() + messages_size(
            self.messages,
        )
    }

    /// What `validate` reports, in this order: a batch without messages is
    /// `InvalidMessagesCount`; a partitioning value that is longer than 255
    /// bytes, empty for a kind other than `Balanced`, or not empty for
    /// `Balanced` is `InvalidKeyValueLength`; then the walk over the messages
    /// (see `walk`).
    pub open spec fn validation(self) -> Result<(), IggyError> {
        if self.messages.len() == 0 {
            Err(IggyError::InvalidMessagesCount)
        } else if !self.partitioning.value_length_valid() {
            Err(IggyError::InvalidKeyValueLength)
        } else {
            walk(self.messages, 0, 0)
        }
    }

    /// Every part is a valid record of its type.
    pub open spec fn well_formed(self) -> bool {
        &&& self.stream_id.is_valid()
        &&& self.topic_id.is_valid()
        &&& self.partitioning.length == self.partitioning.value.len()
        &&& forall|i: int| 0 <= i < self.messages.len() ==> (#[trigger] self.messages[i]).is_valid()
    }

    /// The command is well formed and passes validation.
    pub open spec fn is_valid(self) -> bool {
        self.well_formed() && self.validation() is Ok
    }
}

/// What `b` parses to, message by message, after the messages `seen` that
/// were read before. The messages must fill `b` to its end.
pub open spec fn parse_messages_from(b: Seq<u8>, seen: Seq<MessageView>) -> Result<
    Seq<MessageView>,
    IggyError,
>
    decreases b.len(),
{
    if b.len() == 0 {
        Ok(seen)
    } else {
        match parse_message(b) {
            Err(e) => Err(e),
            Ok((message, size)) => parse_messages_from(b.skip(size as int), seen.push(message)),
        }
    }
}

/// What the bytes `b` parse to as a `SendMessages` command.
///
/// Fewer than 11 bytes are `InvalidCommand`. The parts are then parsed in
/// their order on the wire, and the error of a part is reported as it is.
/// What parses is validated, and an error of the validation is reported as
/// it is.
pub open spec fn parse_send_messages(b: Seq<u8>) -> Result<SendMessagesView, IggyError> {
    if b.len() < 11 {
        Err(IggyError::InvalidCommand)
    } else {
        match parse_identifier(b) {
            Err(e) => Err(e),
            Ok(stream_id) => {
                let after_stream = b.skip(stream_id.size() as int);
                match parse_identifier(after_stream) {
                    Err(e) => Err(e),
                    Ok(topic_id) => {
                        let after_topic = after_stream.skip(topic_id.size() as int);
                        match parse_partitioning(after_topic) {
                            Err(e) => Err(e),
                            Ok(partitioning) => {
                                let after_key = after_topic.skip(partitioning.size() as int);
                                match parse_messages_from(after_key, Seq::empty()) {
                                    Err(e) => Err(e),
                                    Ok(messages) => {
                                        let command = SendMessagesView {
                                            stream_id,
                                            topic_id,
                                            partitioning,
                                            messages,
                                        };
                                        match command.validation() {
                                            Err(e) => Err(e),
                                            Ok(_) => Ok(command),
                                        }
                                    },
                                }
                            },
                        }
                    },
                }
            },
        }
    }
}

/// Parses the messages that fill `bytes` from `start` to its end; see
/// `parse_messages_from`.
fn read_messages(bytes: &Bytes, start: usize) -> (r: Result<Vec<Message>, IggyError>)
    requires
        start <= bytes_view(*bytes).len(),
    ensures
        match r {
            Ok(messages) => {
                &&& parse_messages_from(bytes_view(*bytes).skip(start as int), Seq::empty())
                    == Ok::<Seq<MessageView>, IggyError>(messages_view(messages@))
                &&& forall|i: int|
                    0 <= i < messages@.len() ==> (#[trigger] messages_view(messages@)[i]).is_valid()
            },
            Err(e) => parse_messages_from(bytes_view(*bytes).skip(start as int), Seq::empty())
                == Err::<Seq<MessageView>, IggyError>(e),
        },
{
    let ghost b = bytes_view(*bytes);
    let total = bytes_as_slice(bytes).len();
    let mut position = start;
    let mut messages: Vec<Message> = Vec::new();
    assert(messages_view(messages@) =~= Seq::empty());
    while position < total
        invariant
            position <= total == b.len(),
            b == bytes_view(*bytes),
            parse_messages_from(b.skip(start as int), Seq::empty()) == parse_messages_from(
                b.skip(position as int),
                messages_view(messages@),
            ),
            forall|i: int|
                0 <= i < messages@.len() ==> (#[trigger] messages_view(messages@)[i]).is_valid(),
        decreases total - position,
    {
        let ghost seen = messages_view(messages@);
        match Message::parse_at(bytes, position) {
            Err(e) => {
                return Err(e);
            },
            Ok((message, size)) => {
                assert(b.skip(position as int).skip(size as int) =~= b.skip(position + size));
                messages.push(message);
                assert(messages_view(messages@) =~= seen.push(message@));
                position = position + size;
            },
        }
    }
    Ok(messages)
}

impl SendMessages {
    /// Checks the batch; see `SendMessagesView::validation`.
    #[verifier::loop_isolation(false)]
    pub fn validate(&self) -> (r: Result<(), IggyError>)
        ensures
            r == self@.validation(),
    {
        if self.messages.len() == 0 {
            return Err(IggyError::InvalidMessagesCount);
        }
        let key_value_length = self.partitioning.value.len();
        let balanced = match self.partitioning.kind {
            PartitioningKind::Balanced => true,
            _ => false,
        };
        if key_value_length > 255 || balanced != (key_value_length == 0) {
            return Err(IggyError::InvalidKeyValueLength);
        }
        let ghost all = self@.messages;
        let mut headers_size: u32 = 0;
        let mut payload_size: u32 = 0;
        let mut i: usize = 0;
        assert(all.skip(0) =~= all);
        while i < self.messages.len()
            invariant
                i <= self.messages@.len(),
                all == messages_view(self.messages@),
                headers_size <= MAX_HEADERS_SIZE,
                payload_size <= MAX_PAYLOAD_SIZE,
                walk(all, 0, 0) == walk(all.skip(i as int), headers_size as nat, payload_size as nat),
            decreases self.messages@.len() - i,
        {
            let message = &self.messages[i];
            let ghost rest = all.skip(i as int);
            assert(rest[0] == message@);
            assert(rest.drop_first() =~= all.skip(i + 1));
            match &message.headers {
                Some(headers) => {
                    let ghost set = headers@;
                    let ghost before = headers_size;
                    let count = headers.len();
                    let mut j: usize = 0;
                    assert(set.take(0) =~= Seq::empty());
                    while j < count
                        invariant
                            j <= count == set.len(),
                            set == headers@,
                            headers_size == before + headers_value_bytes(set.take(j as int)),
                            headers_size <= MAX_HEADERS_SIZE,
                        decreases count - j,
                    {
                        let value = headers.value_at(j).as_bytes();
                        proof {
                            let header = set[j as int];
                            assert(header.value.is_valid());
                            lemma_headers_size_one(header);
                            lemma_headers_size_concat(set.take(j as int), seq![header]);
                            assert(set.take(j as int) + seq![header] =~= set.take(j + 1));
                            lemma_headers_size_concat(set.take(j + 1), set.skip(j + 1));
                            assert(set.take(j + 1) + set.skip(j + 1) =~= set);
                        }
                        headers_size = headers_size + value.len() as u32;
                        if headers_size > MAX_HEADERS_SIZE {
                            return Err(IggyError::TooBigHeadersPayload);
                        }
                        j = j + 1;
                    }
                    assert(set.take(j as int) =~= set);
                },
                None => {},
            }
            let payload_length = bytes_as_slice(&message.payload).len();
            if payload_length > (MAX_PAYLOAD_SIZE - payload_size) as usize {
                return Err(IggyError::TooBigMessagePayload);
            }
            payload_size = payload_size + payload_length as u32;
            i = i + 1;
        }
        if payload_size == 0 {
            return Err(IggyError::EmptyMessagePayload);
        }
        Ok(())
    }

    /// The text form of a command from the texts of its parts; see
    /// `command_text`.
    pub fn render(stream_id: &str, topic_id: &str, partitioning: &str, messages: &Vec<String>) -> (text:
        String)
        ensures
            text@ == command_text(stream_id@, topic_id@, partitioning@, texts(messages@)),
    {
        let mut text = String::from_str(stream_id);
        text.append("|");
        text.append(topic_id);
        text.append("|");
        text.append(partitioning);
        text.append("|");
        text.append(join(messages, "|").as_str());
        text
    }

    /// The text form; see `SendMessagesView::text`.
    pub fn to_string(&self) -> (text: String)
        requires
            self@.has_text(),
        ensures
            text@ == self@.text(),
    {
        let mut messages: Vec<String> = Vec::new();
        let mut i: usize = 0;
        while i < self.messages.len()
            invariant
                i <= self.messages@.len(),
                messages@.len() == i,
                forall|j: int|
                    0 <= j < i ==> (#[trigger] messages@[j])@ == self@.message_texts()[j],
            decreases self.messages@.len() - i,
        {
            messages.push(self.messages[i].to_string());
            i = i + 1;
        }
        assert(texts(messages@) =~= self@.message_texts());
        SendMessages::render(
            self.stream_id.to_string().as_str(),
            self.topic_id.to_string().as_str(),
            self.partitioning.to_string().as_str(),
            &messages,
        )
    }

    /// The wire form: stream identifier, topic identifier, partitioning,
    /// messages.
    pub fn as_bytes(&self) -> (bytes: Bytes)
        ensures
            bytes_view(bytes) == self@.wire(),
    {
        let key_bytes = self.partitioning.as_bytes();
        let stream_id_bytes = self.stream_id.as_bytes();
        let topic_id_bytes = self.topic_id.as_bytes();
        let capacity = self.stream_id.get_size_bytes() + self.topic_id.get_size_bytes()
            + self.partitioning.get_size_bytes();
        let mut bytes = bytes_mut_with_capacity(capacity as usize);
        put_slice(&mut bytes, bytes_as_slice(&stream_id_bytes));
        put_slice(&mut bytes, bytes_as_slice(&topic_id_bytes));
        put_slice(&mut bytes, bytes_as_slice(&key_bytes));
        let ghost all = self@.messages;
        let ghost head = self@.stream_id.wire() + self@.topic_id.wire() + self@.partitioning.wire();
        let mut i: usize = 0;
        assert(all.take(0) =~= Seq::empty());
        assert(bytes_mut_view(bytes) =~= head + messages_wire(all.take(0)));
        while i < self.messages.len()
            invariant
                i <= self.messages@.len(),
                all == messages_view(self.messages@),
                bytes_mut_view(bytes) == head + messages_wire(all.take(i as int)),
            decreases self.messages@.len() - i,
        {
            let message_bytes = self.messages[i].as_bytes();
            proof {
                lemma_messages_wire_push(all.take(i as int), all[i as int]);
                assert(all.take(i as int).push(all[i as int]) =~= all.take(i + 1));
            }
            put_slice(&mut bytes, bytes_as_slice(&message_bytes));
            assert(bytes_mut_view(bytes) =~= head + messages_wire(all.take(i + 1)));
            i = i + 1;
        }
        assert(all.take(i as int) =~= all);
        freeze(bytes)
    }

    /// Parses the command from all of `bytes`; see `parse_send_messages`.
    /// What it returns is valid.
    pub fn from_bytes(bytes: Bytes) -> (r: Result<SendMessages, IggyError>)
        ensures
            match r {
                Ok(command) => {
                    &&& parse_send_messages(bytes_view(bytes)) == Ok::<SendMessagesView, IggyError>(
                        command@,
                    )
                    &&& command@.is_valid()
                },
                Err(e) => parse_send_messages(bytes_view(bytes)) == Err::<
                    SendMessagesView,
                    IggyError,
                >(e),
            },
    {
        let data = bytes_as_slice(&bytes);
        let ghost b = data@;
        let total = data.len();
        if total < 11 {
            return Err(IggyError::InvalidCommand);
        }
        let stream_id = match Identifier::parse(data) {
            Ok(id) => id,
            Err(e) => {
                return Err(e);
            },
        };
        let mut position = stream_id.get_size_bytes() as usize;
        let ghost after_stream = b.skip(position as int);
        assert(after_stream =~= b.subrange(position as int, total as int));
        let topic_id = match Identifier::parse(slice_subrange(data, position, total)) {
            Ok(id) => id,
            Err(e) => {
                return Err(e);
            },
        };
        position = position + topic_id.get_size_bytes() as usize;
        let ghost after_topic = after_stream.skip(topic_id@.size() as int);
        assert(after_topic =~= b.subrange(position as int, total as int));
        let partitioning = match Partitioning::parse(slice_subrange(data, position, total)) {
            Ok(partitioning) => partitioning,
            Err(e) => {
                return Err(e);
            },
        };
        position = position + partitioning.get_size_bytes() as usize;
        let ghost after_key = after_topic.skip(partitioning@.size() as int);
        assert(after_key =~= b.skip(position as int));
        let messages = match read_messages(&bytes, position) {
            Ok(messages) => messages,
            Err(e) => {
                return Err(e);
            },
        };
        let command = SendMessages { stream_id, topic_id, partitioning, messages };
        match command.validate() {
            Ok(()) => Ok(command),
            Err(e) => Err(e),
        }
    }
}

impl Default for SendMessages {
    /// The batch of the default message for the stream and the topic with
    /// the number 1, with balanced partitioning.
    fn default() -> (command: SendMessages)
        ensures
            command@.stream_id == IdentifierView::numeric(1),
            command@.topic_id == IdentifierView::numeric(1),
            command@.partitioning == PartitioningView::balanced(),
            command@.messages == seq![MessageView::new(None, "hello world".spec_bytes(), None)],
    {
        let mut messages: Vec<Message> = Vec::new();
        messages.push(Message::default());
        assert(messages_view(messages@) =~= seq![
            MessageView::new(None, "hello world".spec_bytes(), None),
        ]);
        SendMessages {
            stream_id: Identifier::default(),
            topic_id: Identifier::default(),
            partitioning: Partitioning::default(),
            messages,
        }
    }
}

/// The wire form of a run with one more message at its end.
pub proof fn lemma_messages_wire_push(messages: Seq<MessageView>, message: MessageView)
    ensures
        messages_wire(messages.push(message)) == messages_wire(messages) + message.wire(),
    decreases messages.len(),
{
    if messages.len() == 0 {
        let one = messages.push(message);
        assert(one.drop_first() =~= Seq::<MessageView>::empty());
        assert(messages_wire(one.drop_first()) =~= Seq::<u8>::empty());
        assert(one[0] == message);
        assert(messages_wire(one) =~= message.wire());
    } else {
        assert(messages.push(message).drop_first() =~= messages.drop_first().push(message));
        lemma_messages_wire_push(messages.drop_first(), message);
        assert(messages_wire(messages.push(message)) =~= messages_wire(messages) + message.wire());
    }
}

/// The wire form of a run of messages has as many bytes as its size says.
pub proof fn lemma_messages_wire_len(messages: Seq<MessageView>)
    ensures
        messages_wire(messages).len() == messages_size(messages),
    decreases messages.len(),
{
    if messages.len() > 0 {
        lemma_message_wire_len(messages[0]);
        lemma_messages_wire_len(messages.drop_first());
    }
}

/// A batch that the walk accepts keeps the header value bytes of each of its
/// messages within `MAX_HEADERS_SIZE`.
pub proof fn lemma_walk_bounds_headers(
    messages: Seq<MessageView>,
    header_bytes: nat,
    payload_bytes: nat,
)
    requires
        walk(messages, header_bytes, payload_bytes) is Ok,
    ensures
        forall|i: int|
            0 <= i < messages.len() ==> (#[trigger] messages[i]).headers_value_bytes()
                <= MAX_HEADERS_SIZE,
    decreases messages.len(),
{
    if messages.len() > 0 {
        let tail = messages.drop_first();
        lemma_walk_bounds_headers(
            tail,
            header_bytes + messages[0].headers_value_bytes(),
            payload_bytes + messages[0].payload.len(),
        );
        assert forall|i: int| 0 <= i < messages.len() implies (#[trigger] messages[i])
            .headers_value_bytes() <= MAX_HEADERS_SIZE by {
            if i > 0 {
                assert(messages[i] == tail[i - 1]);
            }
        }
    }
}

/// Valid messages whose headers fit the 32 bits of their length field are
/// unchanged when written and read back, also after messages `seen` that
/// were read before them.
pub proof fn lemma_messages_round_trip_from(messages: Seq<MessageView>, seen: Seq<MessageView>)
    requires
        forall|i: int|
            0 <= i < messages.len() ==> (#[trigger] messages[i]).is_valid() && messages[i]
                .headers_size() <= u32::MAX,
    ensures
        parse_messages_from(messages_wire(messages), seen) == Ok::<Seq<MessageView>, IggyError>(
            seen + messages,
        ),
    decreases messages.len(),
{
    if messages.len() == 0 {
        assert(seen + messages =~= seen);
    } else {
        let first = messages[0];
        let tail = messages.drop_first();
        let b = messages_wire(messages);
        assert(first.is_valid());
        lemma_message_round_trip(first, messages_wire(tail));
        assert(b.skip(first.size() as int) =~= messages_wire(tail));
        assert forall|i: int| 0 <= i < tail.len() implies (#[trigger] tail[i]).is_valid()
            && tail[i].headers_size() <= u32::MAX by {
            assert(tail[i] == messages[i + 1]);
        }
        lemma_messages_round_trip_from(tail, seen.push(first));
        assert(seen.push(first) + tail =~= seen + messages);
    }
}

/// The messages of a valid command are valid, and the headers of each fit
/// the 32 bits of their length field.
pub proof fn lemma_valid_command_messages(command: SendMessagesView)
    requires
        command.is_valid(),
    ensures
        command.messages.len() > 0,
        forall|i: int|
            0 <= i < command.messages.len() ==> (#[trigger] command.messages[i]).is_valid()
                && command.messages[i].headers_size() <= u32::MAX,
{
    let messages = command.messages;
    lemma_walk_bounds_headers(messages, 0, 0);
    assert forall|i: int| 0 <= i < messages.len() implies (#[trigger] messages[i]).is_valid()
        && messages[i].headers_size() <= u32::MAX by {
        let message = messages[i];
        assert(message.is_valid());
        if message.headers is Some {
            lemma_headers_size_bound(message.headers->0);
        }
    }
}

/// The three leading parts of a well-formed command are read back as they
/// were written, and what follows them is left for the messages.
proof fn lemma_command_head_round_trip(command: SendMessagesView, tail: Seq<u8>)
    requires
        command.well_formed(),
    ensures
        ({
            let b = command.stream_id.wire() + command.topic_id.wire()
                + command.partitioning.wire() + tail;
            let after_stream = b.skip(command.stream_id.size() as int);
            let after_topic = after_stream.skip(command.topic_id.size() as int);
            &&& b.len() == command.stream_id.size() + command.topic_id.size()
                + command.partitioning.size() + tail.len()
            &&& parse_identifier(b) == Ok::<IdentifierView, IggyError>(command.stream_id)
            &&& parse_identifier(after_stream) == Ok::<IdentifierView, IggyError>(
                command.topic_id,
            )
            &&& parse_partitioning(after_topic) == Ok::<PartitioningView, IggyError>(
                command.partitioning,
            )
            &&& after_topic.skip(command.partitioning.size() as int) == tail
        }),
{
    let stream = command.stream_id.wire();
    let topic = command.topic_id.wire();
    let key = command.partitioning.wire();
    let b = stream + topic + key + tail;
    lemma_identifier_round_trip(command.stream_id, topic + key + tail);
    lemma_identifier_round_trip(command.topic_id, key + tail);
    lemma_partitioning_round_trip(command.partitioning, tail);
    assert(b =~= stream + (topic + key + tail));
    assert(topic + key + tail =~= topic + (key + tail));
    assert(b.skip(stream.len() as int) =~= topic + key + tail);
    assert((topic + (key + tail)).skip(topic.len() as int) =~= key + tail);
    assert((key + tail).skip(key.len() as int) =~= tail);
}

/// Round trip: a valid command that is written and read back is unchanged.
/// Length discipline: its wire form has as many bytes as its size says.
pub proof fn theorem_send_messages_round_trip(command: SendMessagesView)
    requires
        command.is_valid(),
    ensures
        command.wire().len() == command.size(),
        parse_send_messages(command.wire()) == Ok::<SendMessagesView, IggyError>(command),
{
    let messages = command.messages;
    let tail = messages_wire(messages);
    lemma_valid_command_messages(command);
    lemma_messages_wire_len(messages);
    lemma_message_wire_len(messages[0]);
    lemma_messages_round_trip_from(messages, Seq::empty());
    assert(Seq::<MessageView>::empty() + messages =~= messages);
    lemma_command_head_round_trip(command, tail);
}

/// Messages that parse after valid messages are valid.
pub proof fn lemma_messages_parse_sound(b: Seq<u8>, seen: Seq<MessageView>)
    requires
        forall|i: int| 0 <= i < seen.len() ==> (#[trigger] seen[i]).is_valid(),
        parse_messages_from(b, seen) is Ok,
    ensures
        forall|i: int|
            0 <= i < parse_messages_from(b, seen)->Ok_0.len() ==> (#[trigger] parse_messages_from(
                b,
                seen,
            )->Ok_0[i]).is_valid(),
    decreases b.len(),
{
    if b.len() > 0 {
        let (message, size) = parse_message(b)->Ok_0;
        let next = seen.push(message);
        lemma_message_parse_sound(b);
        assert forall|i: int| 0 <= i < next.len() implies (#[trigger] next[i]).is_valid() by {
            if i < seen.len() {
                assert(next[i] == seen[i]);
            }
        }
        lemma_messages_parse_sound(b.skip(size as int), next);
    }
}

/// Whatever parses is a valid command: parsing never hands out a command
/// that validation would reject.
pub proof fn theorem_parsed_command_is_valid(b: Seq<u8>)
    requires
        parse_send_messages(b) is Ok,
    ensures
        parse_send_messages(b)->Ok_0.is_valid(),
        parse_send_messages(b)->Ok_0.validation() is Ok,
{
    let stream_id = parse_identifier(b)->Ok_0;
    let after_stream = b.skip(stream_id.size() as int);
    let topic_id = parse_identifier(after_stream)->Ok_0;
    let after_topic = after_stream.skip(topic_id.size() as int);
    let partitioning = parse_partitioning(after_topic)->Ok_0;
    let after_key = after_topic.skip(partitioning.size() as int);
    lemma_identifier_parse_sound(b);
    lemma_identifier_parse_sound(after_stream);
    lemma_partitioning_parse_sound(after_topic);
    lemma_messages_parse_sound(after_key, Seq::empty());
}

} // verus!
