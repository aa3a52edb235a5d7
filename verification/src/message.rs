//! Messages: an id, optional headers and a binary payload.
//!
//! On the wire a message is its id in sixteen little-endian bytes, the byte
//! length of its headers as a little-endian `u32` (0 where it has none), the
//! headers, the payload's length as a little-endian `u32` and the payload.

use crate::buffer::{
    bytes_as_slice, bytes_from_vec, bytes_mut_view, bytes_mut_with_capacity, bytes_slice,
    bytes_view, freeze, put_slice, put_u128_le, put_u32_le,
};
use crate::endian::{
    le_bytes, le_value, le_vec, lemma_le_bytes_len, lemma_le_value_of_bytes,
    lemma_pow256_values, read_le, read_u32_le,
};
use crate::error::IggyError;
use crate::header::{
    headers_size, headers_valid, headers_value_bytes, headers_wire, lemma_headers_parse_sound,
    lemma_headers_round_trip, lemma_headers_size_concat, lemma_headers_size_one,
    lemma_headers_wire_len, parse_headers, HeaderSet, HeaderView,
};
use crate::text::{decimal, decimal_string, from_utf8_lossy, utf8_lossy};
use bytes::Bytes;
use vstd::prelude::*;
use vstd::slice::{slice_subrange, slice_to_vec};
use vstd::string::{StringExecFns, StringSliceAdditionalSpecFns};
use vstd::utf8::{decode_utf8, valid_utf8};

verus! {

/// The most payload bytes that one batch, and so one message, may carry.
pub const MAX_PAYLOAD_SIZE: u32 = 10_000_000;

/// The most header value bytes that one batch may carry.
pub const MAX_HEADERS_SIZE: u32 = 100_000;

/// The single message to be sent.
#[derive(Debug, PartialEq)]
pub struct Message {
    /// Unique message ID; 0 asks the server to assign one.
    pub id: u128,
    /// Length of the payload.
    pub length: u32,
    /// Binary message payload.
    pub payload: Bytes,
    /// Optional collection of headers.
    pub headers: Option<HeaderSet>,
}

/// A message as a mathematical value.
pub struct MessageView {
    pub id: u128,
    pub length: u32,
    pub payload: Seq<u8>,
    pub headers: Option<Seq<HeaderView>>,
}

impl View for Message {
    type V = MessageView;

    open spec fn view(&self) -> MessageView {
        MessageView {
            id: self.id,
            length: self.length,
            payload: bytes_view(self.payload),
            headers: match self.headers {
                Some(headers) => Some(headers@),
                None => None,
            },
        }
    }
}

/// The length field of a payload of `len` bytes: `len` itself as far as it
/// fits 32 bits.
pub open spec fn length_field(len: nat) -> u32 {
    (len % 0x1_0000_0000) as u32
}

impl MessageView {
    /// The message that `new` builds.
    pub open spec fn new(
        id: Option<u128>,
        payload: Seq<u8>,
        headers: Option<Seq<HeaderView>>,
    ) -> MessageView {
        MessageView {
            id: match id {
                Some(id) => id,
                None => 0,
            },
            length: length_field(payload.len()),
            payload,
            headers,
        }
    }

    /// The wire form of the headers; nothing where there are none.
    pub open spec fn headers_wire(self) -> Seq<u8> {
        match self.headers {
            Some(headers) => headers_wire(headers),
            None => Seq::empty(),
        }
    }

    /// The number of bytes of the headers on the wire.
    pub open spec fn headers_size(self) -> nat {
        match self.headers {
            Some(headers) => headers_size(headers),
            None => 0,
        }
    }

    /// The number of header value bytes: what the batch limit counts.
    pub open spec fn headers_value_bytes(self) -> nat {
        match self.headers {
            Some(headers) => headers_value_bytes(headers),
            None => 0,
        }
    }

    /// Id, headers length, headers, payload length, payload.
    pub open spec fn wire(self) -> Seq<u8> {
        le_bytes(self.id as nat, 16) + le_bytes(self.headers_wire().len(), 4) + self.headers_wire()
            + le_bytes(self.length as nat, 4) + self.payload
    }

    /// The number of bytes of the wire form: 16 + 4 + headers + 4 + payload.
    pub open spec fn size(self) -> nat {
        16 + 4 + self.headers_size() + 4 + self.payload.len()
    }

    /// The text form, where `payload_text` is the text of the payload: the
    /// id in decimal, a bar, the payload's text.
    pub open spec fn text(self, payload_text: Seq<char>) -> Seq<char> {
        decimal(self.id as nat) + "|"@ + payload_text
    }

    /// What `validate` reports: an empty payload, a payload above
    /// `MAX_PAYLOAD_SIZE`, or a length field that is not the payload's length.
    pub open spec fn validation(self) -> Result<(), IggyError> {
        if self.payload.len() == 0 {
            Err(IggyError::EmptyMessagePayload)
        } else if self.payload.len() > MAX_PAYLOAD_SIZE {
            Err(IggyError::TooBigMessagePayload)
        } else if self.length != self.payload.len() {
            Err(IggyError::InvalidMessagePayloadLength)
        } else {
            Ok(())
        }
    }

    /// Headers, where present, are a non-empty valid set.
    pub open spec fn headers_well_formed(self) -> bool {
        match self.headers {
            Some(headers) => headers.len() > 0 && headers_valid(headers),
            None => true,
        }
    }

    /// The message passes validation and its headers are well formed.
    pub open spec fn is_valid(self) -> bool {
        self.validation() is Ok && self.headers_well_formed()
    }
}

/// What the start of `b` parses to: the message and the number of bytes that
/// it takes in `b`. Bytes after the message are ignored.
///
/// Fewer than the 24 fixed bytes, or headers or a payload that run past the
/// end, are `InvalidCommand`; an error in the headers is reported as it is;
/// an empty payload is `EmptyMessagePayload`, one above `MAX_PAYLOAD_SIZE`
/// is `TooBigMessagePayload`.
pub open spec fn parse_message(b: Seq<u8>) -> Result<(MessageView, nat), IggyError> {
    if b.len() < 24 {
        Err(IggyError::InvalidCommand)
    } else {
        let headers_length = le_value(b.subrange(16, 20)) as int;
        if b.len() < 24 + headers_length {
            Err(IggyError::InvalidCommand)
        } else {
            let headers = if headers_length == 0 {
                Ok(None)
            } else {
                match parse_headers(b.subrange(20, 20 + headers_length)) {
                    Ok(headers) => Ok(Some(headers)),
                    Err(e) => Err(e),
                }
            };
            let payload_length = le_value(
                b.subrange(20 + headers_length, 24 + headers_length),
            ) as int;
            match headers {
                Err(e) => Err(e),
                Ok(headers) => {
                    if b.len() < 24 + headers_length + payload_length {
                        Err(IggyError::InvalidCommand)
                    } else if payload_length == 0 {
                        Err(IggyError::EmptyMessagePayload)
                    } else if payload_length > MAX_PAYLOAD_SIZE {
                        Err(IggyError::TooBigMessagePayload)
                    } else {
                        Ok(
                            (
                                MessageView {
                                    id: le_value(b.subrange(0, 16)) as u128,
                                    length: payload_length as u32,
                                    payload: b.subrange(
                                        24 + headers_length,
                                        24 + headers_length + payload_length,
                                    ),
                                    headers,
                                },
                                (24 + headers_length + payload_length) as nat,
                            ),
                        )
                    }
                },
            }
        }
    }
}

/// The id of a message that leaves the choice of its id to the server.
pub fn default_message_id() -> (id: u128)
    ensures
        id == 0,
{
    0
}

/// The length field for a payload of `len` bytes.
fn length_of(len: usize) -> (length: u32)
    ensures
        length == length_field(len as nat),
{
    (len as u64 % 0x1_0000_0000u64) as u32
}

impl Message {
    /// Create a new message with the optional ID, payload and headers. No
    /// id, like the id 0, leaves the choice of the id to the server.
    pub fn new(id: Option<u128>, payload: Bytes, headers: Option<HeaderSet>) -> (m: Message)
        ensures
            m@ == MessageView::new(
                id,
                bytes_view(payload),
                match headers {
                    Some(headers) => Some(headers@),
                    None => None,
                },
            ),
    {
        let length = length_of(bytes_as_slice(&payload).len());
        Message {
            id: match id {
                Some(id) => id,
                None => 0,
            },
            length,
            payload,
            headers,
        }
    }

    /// The message without id and headers whose payload is the UTF-8 bytes
    /// of `input`; `EmptyMessagePayload` if `input` is empty.
    pub fn from_str(input: &str) -> (r: Result<Message, IggyError>)
        ensures
            match r {
                Ok(m) => input.spec_bytes().len() > 0 && m@ == MessageView::new(
                    None,
                    input.spec_bytes(),
                    None,
                ),
                Err(e) => e == IggyError::EmptyMessagePayload && input.spec_bytes().len() == 0,
            },
    {
        let data = input.as_bytes();
        if data.len() == 0 {
            return Err(IggyError::EmptyMessagePayload);
        }
        let id = default_message_id();
        let length = length_of(data.len());
        let payload = bytes_from_vec(slice_to_vec(data));
        Ok(Message { id, length, payload, headers: None })
    }

    /// The text form with `payload_text` as the text of the payload; see
    /// `MessageView::text`.
    pub fn render(&self, payload_text: &str) -> (text: String)
        ensures
            text@ == self@.text(payload_text@),
    {
        let mut text = decimal_string(self.id);
        text.append("|");
        text.append(payload_text);
        text
    }

    /// The text form; see `MessageView::text`. The payload is shown as
    /// `String::from_utf8_lossy` reads it.
    pub fn to_string(&self) -> (text: String)
        ensures
            text@ == self@.text(utf8_lossy(self@.payload)),
            valid_utf8(self@.payload) ==> text@ == self@.text(decode_utf8(self@.payload)),
    {
        let payload_text = from_utf8_lossy(bytes_as_slice(&self.payload));
        self.render(payload_text.as_str())
    }

    /// Checks the payload; see `MessageView::validation`. A message that
    /// passes is valid, since headers are well formed by construction
    /// unless the set is present and empty.
    pub fn validate(&self) -> (r: Result<(), IggyError>)
        ensures
            r == self@.validation(),
    {
        let len = bytes_as_slice(&self.payload).len();
        if len == 0 {
            return Err(IggyError::EmptyMessagePayload);
        }
        if len > MAX_PAYLOAD_SIZE as usize {
            return Err(IggyError::TooBigMessagePayload);
        }
        if self.length as usize != len {
            return Err(IggyError::InvalidMessagePayloadLength);
        }
        Ok(())
    }

    /// Get the size of the message in bytes.
    pub fn get_size_bytes(&self) -> (size: u32)
        requires
            self@.size() <= u32::MAX,
        ensures
            size == self@.size(),
    {
        let headers: u32 = match &self.headers {
            Some(headers) => headers.get_size_bytes(),
            None => 0,
        };
        16 + 4 + headers + 4 + bytes_as_slice(&self.payload).len() as u32
    }

    /// The wire form: id, headers length, headers, payload length, payload.
    pub fn as_bytes(&self) -> (bytes: Bytes)
        ensures
            bytes_view(bytes) == self@.wire(),
    {
        let payload = bytes_as_slice(&self.payload);
        let mut bytes = bytes_mut_with_capacity(24);
        put_u128_le(&mut bytes, self.id);
        match &self.headers {
            Some(headers) => {
                let headers_bytes = headers.as_bytes();
                let headers_data = bytes_as_slice(&headers_bytes);
                put_slice(&mut bytes, le_vec(headers_data.len() as u128, 4).as_slice());
                put_slice(&mut bytes, headers_data);
            },
            None => {
                put_u32_le(&mut bytes, 0);
            },
        }
        put_u32_le(&mut bytes, self.length);
        put_slice(&mut bytes, payload);
        assert(bytes_mut_view(bytes) =~= self@.wire());
        freeze(bytes)
    }

    /// Parses the message at the start of `bytes`; see `parse_message`.
    pub fn from_bytes(bytes: Bytes) -> (r: Result<Message, IggyError>)
        ensures
            match r {
                Ok(m) => {
                    &&& parse_message(bytes_view(bytes)) is Ok
                    &&& parse_message(bytes_view(bytes))->Ok_0.0 == m@
                    &&& m@.is_valid()
                },
                Err(e) => parse_message(bytes_view(bytes)) == Err::<(MessageView, nat), IggyError>(
                    e,
                ),
            },
    {
        assert(bytes_view(bytes).skip(0) =~= bytes_view(bytes));
        match Message::parse_at(&bytes, 0) {
            Ok((message, _)) => Ok(message),
            Err(e) => Err(e),
        }
    }

    /// Parses the message that starts at `at` in `bytes`; see
    /// `parse_message`. Returns the message and the number of bytes read.
    pub fn parse_at(bytes: &Bytes, at: usize) -> (r: Result<(Message, usize), IggyError>)
        requires
            at <= bytes_view(*bytes).len(),
        ensures
            match r {
                Ok((m, size)) => {
                    &&& parse_message(bytes_view(*bytes).skip(at as int)) == Ok::<
                        (MessageView, nat),
                        IggyError,
                    >((m@, size as nat))
                    &&& m@.is_valid()
                    &&& 24 < size
                    &&& at + size <= bytes_view(*bytes).len()
                },
                Err(e) => parse_message(bytes_view(*bytes).skip(at as int)) == Err::<
                    (MessageView, nat),
                    IggyError,
                >(e),
            },
    {
        let data = bytes_as_slice(bytes);
        let ghost b = data@.skip(at as int);
        let remaining = data.len() - at;
        if remaining < 24 {
            return Err(IggyError::InvalidCommand);
        }
        assert(b.subrange(0, 16) =~= data@.subrange(at as int, at + 16));
        assert(b.subrange(16, 20) =~= data@.subrange(at + 16, at + 20));
        let id = read_le(data, at, 16);
        let headers_length = read_u32_le(data, at + 16) as usize;
        if remaining - 24 < headers_length {
            return Err(IggyError::InvalidCommand);
        }
        let headers_end = at + 20 + headers_length;
        assert(b.subrange(20, 20 + headers_length) =~= data@.subrange(
            at + 20,
            headers_end as int,
        ));
        assert(b.subrange(20 + headers_length, 24 + headers_length) =~= data@.subrange(
            headers_end as int,
            headers_end + 4,
        ));
        let headers = if headers_length == 0 {
            None
        } else {
            match HeaderSet::parse(slice_subrange(data, at + 20, headers_end)) {
                Ok(headers) => Some(headers),
                Err(e) => {
                    return Err(e);
                },
            }
        };
        let length = read_u32_le(data, headers_end);
        let payload_length = length as usize;
        if remaining - 24 - headers_length < payload_length {
            return Err(IggyError::InvalidCommand);
        }
        if length == 0 {
            return Err(IggyError::EmptyMessagePayload);
        }
        if length > MAX_PAYLOAD_SIZE {
            return Err(IggyError::TooBigMessagePayload);
        }
        let start = headers_end + 4;
        assert(b.subrange(24 + headers_length, 24 + headers_length + payload_length)
            =~= data@.subrange(start as int, start + payload_length));
        let payload = bytes_slice(bytes, start, start + payload_length);
        Ok((Message { id, length, payload, headers }, 24 + headers_length + payload_length))
    }
}

impl Default for Message {
    /// The message without id and headers whose payload is `hello world`.
    fn default() -> (m: Message)
        ensures
            m@ == MessageView::new(None, "hello world".spec_bytes(), None),
    {
        let data = "hello world".as_bytes();
        let length = length_of(data.len());
        Message { id: 0, length, payload: bytes_from_vec(slice_to_vec(data)), headers: None }
    }
}

/// The wire form of a message has as many bytes as its size says.
pub proof fn lemma_message_wire_len(message: MessageView)
    ensures
        message.wire().len() == message.size(),
{
    lemma_le_bytes_len(message.id as nat, 16);
    lemma_le_bytes_len(message.headers_wire().len(), 4);
    lemma_le_bytes_len(message.length as nat, 4);
    if message.headers is Some {
        lemma_headers_wire_len(message.headers->0);
    }
}

/// A valid message whose headers fit the 32 bits of their length field is
/// unchanged when written and read back, whatever follows it in the buffer.
pub proof fn lemma_message_round_trip(message: MessageView, rest: Seq<u8>)
    requires
        message.is_valid(),
        message.headers_size() <= u32::MAX,
    ensures
        message.wire().len() == message.size(),
        parse_message(message.wire() + rest) == Ok::<(MessageView, nat), IggyError>(
            (message, message.size()),
        ),
{
    let headers = message.headers_wire();
    let headers_length = headers.len() as int;
    let payload_length = message.payload.len() as int;
    let b = message.wire() + rest;
    lemma_message_wire_len(message);
    lemma_pow256_values();
    if message.headers is Some {
        lemma_headers_wire_len(message.headers->0);
    }
    lemma_le_value_of_bytes(message.id as nat, 16);
    lemma_le_value_of_bytes(headers_length as nat, 4);
    lemma_le_value_of_bytes(message.length as nat, 4);
    match message.headers {
        Some(set) => {
            lemma_headers_round_trip(set);
            lemma_headers_size_concat(seq![set[0]], set.drop_first());
            lemma_headers_size_one(set[0]);
            assert(seq![set[0]] + set.drop_first() =~= set);
            assert(headers_length >= 9);
        },
        None => {},
    }
    assert(b.subrange(0, 16) =~= le_bytes(message.id as nat, 16));
    assert(b.subrange(16, 20) =~= le_bytes(headers_length as nat, 4));
    assert(b.subrange(20, 20 + headers_length) =~= headers);
    assert(b.subrange(20 + headers_length, 24 + headers_length) =~= le_bytes(
        message.length as nat,
        4,
    ));
    assert(b.subrange(24 + headers_length, 24 + headers_length + payload_length)
        =~= message.payload);
}

/// A message that parses is valid, and the parser reads no more than there
/// is.
pub proof fn lemma_message_parse_sound(b: Seq<u8>)
    requires
        parse_message(b) is Ok,
    ensures
        parse_message(b)->Ok_0.0.is_valid(),
        24 < parse_message(b)->Ok_0.1 <= b.len(),
{
    let headers_length = le_value(b.subrange(16, 20)) as int;
    if headers_length != 0 {
        lemma_headers_parse_sound(b.subrange(20, 20 + headers_length), Seq::empty());
    }
}

} // verus!
