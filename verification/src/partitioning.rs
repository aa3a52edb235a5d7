//! Partitioning: how the server picks the partition for a batch of messages.
//!
//! On the wire a partitioning is one byte of kind, one byte of length and
//! that many value bytes.

use crate::buffer::{
    bytes_as_slice, bytes_mut_with_capacity, bytes_view, freeze, put_slice, put_u8,
};
use crate::endian::{le_bytes, le_value, le_vec, lemma_le_bytes_len, read_le};
use crate::text::{decimal, from_utf8_lossy, push_decimal, utf8_lossy};
use crate::error::IggyError;
use bytes::Bytes;
use vstd::prelude::*;
use vstd::slice::{slice_subrange, slice_to_vec};
use vstd::string::{StringExecFns, StringSliceAdditionalSpecFns};
use vstd::utf8::{decode_utf8, valid_utf8};

verus! {

/// The kinds of partitioning.
#[derive(Clone, Copy, Debug, PartialEq, Eq, Structural)]
pub enum PartitioningKind {
    /// The server spreads the messages round-robin; code 1, no value.
    Balanced,
    /// The client names the partition; code 2, a little-endian `u32`.
    PartitionId,
    /// The server hashes a key of 1 to 255 bytes to a partition; code 3.
    MessagesKey,
}

impl PartitioningKind {
    /// The byte that stands for the kind on the wire.
    pub open spec fn code(self) -> u8 {
        match self {
            PartitioningKind::Balanced => 1,
            PartitioningKind::PartitionId => 2,
            PartitioningKind::MessagesKey => 3,
        }
    }

    /// The kind that a wire byte stands for, if any.
    pub open spec fn of_code(code: u8) -> Option<PartitioningKind> {
        if code == 1 {
            Some(PartitioningKind::Balanced)
        } else if code == 2 {
            Some(PartitioningKind::PartitionId)
        } else if code == 3 {
            Some(PartitioningKind::MessagesKey)
        } else {
            None
        }
    }

    /// The name of the kind in text forms.
    pub open spec fn name(self) -> Seq<char> {
        match self {
            PartitioningKind::Balanced => "balanced"@,
            PartitioningKind::PartitionId => "partition_id"@,
            PartitioningKind::MessagesKey => "messages_key"@,
        }
    }

    /// The text form: the name of the kind.
    pub fn to_string(&self) -> (text: String)
        ensures
            text@ == self.name(),
    {
        match self {
            PartitioningKind::Balanced => String::from_str("balanced"),
            PartitioningKind::PartitionId => String::from_str("partition_id"),
            PartitioningKind::MessagesKey => String::from_str("messages_key"),
        }
    }

    /// Get the code of the partitioning kind.
    pub fn as_code(&self) -> (code: u8)
        ensures
            code == self.code(),
    {
        match self {
            PartitioningKind::Balanced => 1,
            PartitioningKind::PartitionId => 2,
            PartitioningKind::MessagesKey => 3,
        }
    }

    /// Get the partitioning kind from the provided code; codes other than 1,
    /// 2 and 3 are rejected with `InvalidCommand`.
    pub fn from_code(code: u8) -> (r: Result<PartitioningKind, IggyError>)
        ensures
            r == match PartitioningKind::of_code(code) {
                Some(kind) => Ok::<PartitioningKind, IggyError>(kind),
                None => Err::<PartitioningKind, IggyError>(IggyError::InvalidCommand),
            },
    {
        match code {
            1 => Ok(PartitioningKind::Balanced),
            2 => Ok(PartitioningKind::PartitionId),
            3 => Ok(PartitioningKind::MessagesKey),
            _ => Err(IggyError::InvalidCommand),
        }
    }
}

impl Default for PartitioningKind {
    fn default() -> (kind: PartitioningKind)
        ensures
            kind == PartitioningKind::Balanced,
    {
        PartitioningKind::Balanced
    }
}

/// To which partition the messages of a batch go.
#[derive(Clone, Debug, PartialEq, Eq)]
pub struct Partitioning {
    /// The kind of partitioning.
    pub kind: PartitioningKind,
    /// The length of the value payload.
    pub length: u8,
    /// The binary value payload.
    pub value: Vec<u8>,
}

/// A partitioning as a mathematical value.
pub struct PartitioningView {
    pub kind: PartitioningKind,
    pub length: u8,
    pub value: Seq<u8>,
}

impl View for Partitioning {
    type V = PartitioningView;

    open spec fn view(&self) -> PartitioningView {
        PartitioningView { kind: self.kind, length: self.length, value: self.value@ }
    }
}

impl PartitioningView {
    /// Round-robin on the server.
    pub open spec fn balanced() -> PartitioningView {
        PartitioningView { kind: PartitioningKind::Balanced, length: 0, value: Seq::empty() }
    }

    /// The partition with the number `id`.
    pub open spec fn partition_id(id: u32) -> PartitioningView {
        PartitioningView {
            kind: PartitioningKind::PartitionId,
            length: 4,
            value: le_bytes(id as nat, 4),
        }
    }

    /// The key `key`, which has 1 to 255 bytes.
    pub open spec fn messages_key(key: Seq<u8>) -> PartitioningView {
        PartitioningView { kind: PartitioningKind::MessagesKey, length: key.len() as u8, value: key }
    }

    /// The rule on the value's length: at most 255 bytes, none for
    /// `Balanced`, at least one for the other kinds.
    pub open spec fn value_length_valid(self) -> bool {
        &&& self.value.len() <= 255
        &&& self.kind == PartitioningKind::Balanced <==> self.value.len() == 0
    }

    /// `length` counts the value bytes, and the value's length fits the kind.
    pub open spec fn is_valid(self) -> bool {
        &&& self.length == self.value.len()
        &&& self.value_length_valid()
    }

    /// Kind, length, value.
    pub open spec fn wire(self) -> Seq<u8> {
        seq![self.kind.code(), self.length] + self.value
    }

    /// The number of bytes of the wire form, where `length` counts the value
    /// bytes.
    pub open spec fn size(self) -> nat {
        2 + self.length as nat
    }

    /// Whether the value can be shown: a partition number needs its four
    /// bytes.
    pub open spec fn has_text(self) -> bool {
        self.kind == PartitioningKind::PartitionId ==> self.value.len() >= 4
    }

    /// The text form, where `key_text` is the text of a messages key: the
    /// name of the kind, a bar, and `0` for `Balanced`, the partition number
    /// in decimal for `PartitionId`, the key's text for `MessagesKey`.
    pub open spec fn text(self, key_text: Seq<char>) -> Seq<char> {
        self.kind.name() + "|"@ + match self.kind {
            PartitioningKind::Balanced => "0"@,
            PartitioningKind::PartitionId => decimal(le_value(self.value.subrange(0, 4))),
            PartitioningKind::MessagesKey => key_text,
        }
    }
}

/// What the start of `b` parses to. Bytes after the partitioning are ignored.
///
/// A buffer without the two leading bytes, an unknown kind, or fewer value
/// bytes than the length byte announces is `InvalidCommand`. Whether the
/// length fits the kind is left to the command that holds the partitioning.
pub open spec fn parse_partitioning(b: Seq<u8>) -> Result<PartitioningView, IggyError> {
    if b.len() < 2 {
        Err(IggyError::InvalidCommand)
    } else if PartitioningKind::of_code(b[0]) is None {
        Err(IggyError::InvalidCommand)
    } else if b.len() < 2 + b[1] {
        Err(IggyError::InvalidCommand)
    } else {
        Ok(
            PartitioningView {
                kind: PartitioningKind::of_code(b[0])->0,
                length: b[1],
                value: b.subrange(2, 2 + b[1]),
            },
        )
    }
}

impl Partitioning {
    /// Partition the messages using the balanced round-robin algorithm on the server.
    pub fn balanced() -> (p: Partitioning)
        ensures
            p@ == PartitioningView::balanced(),
            p@.is_valid(),
    {
        Partitioning { kind: PartitioningKind::Balanced, length: 0, value: Vec::new() }
    }

    /// Partition the messages using the provided partition ID.
    pub fn partition_id(partition_id: u32) -> (p: Partitioning)
        ensures
            p@ == PartitioningView::partition_id(partition_id),
            p@.is_valid(),
    {
        proof {
            lemma_le_bytes_len(partition_id as nat, 4);
        }
        Partitioning {
            kind: PartitioningKind::PartitionId,
            length: 4,
            value: le_vec(partition_id as u128, 4),
        }
    }

    /// Partition the messages using the provided messages key; `InvalidCommand`
    /// if the key is empty or longer than 255 bytes.
    pub fn messages_key(value: &[u8]) -> (r: Result<Partitioning, IggyError>)
        ensures
            match r {
                Ok(p) => {
                    &&& 1 <= value@.len() <= 255
                    &&& p@ == PartitioningView::messages_key(value@)
                    &&& p@.is_valid()
                },
                Err(e) => {
                    &&& e == IggyError::InvalidCommand
                    &&& (value@.len() == 0 || value@.len() > 255)
                },
            },
    {
        let length = value.len();
        if length == 0 || length > 255 {
            return Err(IggyError::InvalidCommand);
        }
        Ok(
            Partitioning {
                kind: PartitioningKind::MessagesKey,
                length: length as u8,
                value: slice_to_vec(value),
            },
        )
    }

    /// Partition the messages using the provided messages key as str: the
    /// key is the UTF-8 bytes of `value`.
    pub fn messages_key_str(value: &str) -> (r: Result<Partitioning, IggyError>)
        ensures
            match r {
                Ok(p) => {
                    &&& 1 <= value.spec_bytes().len() <= 255
                    &&& p@ == PartitioningView::messages_key(value.spec_bytes())
                    &&& p@.is_valid()
                },
                Err(e) => {
                    &&& e == IggyError::InvalidCommand
                    &&& (value.spec_bytes().len() == 0 || value.spec_bytes().len() > 255)
                },
            },
    {
        Partitioning::messages_key(value.as_bytes())
    }

    /// Partition the messages using the provided messages key as u32: the
    /// key is its four little-endian bytes.
    pub fn messages_key_u32(value: u32) -> (p: Partitioning)
        ensures
            p@ == PartitioningView::messages_key(le_bytes(value as nat, 4)),
            p@.length == 4,
            p@.is_valid(),
    {
        proof {
            lemma_le_bytes_len(value as nat, 4);
        }
        Partitioning {
            kind: PartitioningKind::MessagesKey,
            length: 4,
            value: le_vec(value as u128, 4),
        }
    }

    /// Partition the messages using the provided messages key as u64: the
    /// key is its eight little-endian bytes.
    pub fn messages_key_u64(value: u64) -> (p: Partitioning)
        ensures
            p@ == PartitioningView::messages_key(le_bytes(value as nat, 8)),
            p@.length == 8,
            p@.is_valid(),
    {
        proof {
            lemma_le_bytes_len(value as nat, 8);
        }
        Partitioning {
            kind: PartitioningKind::MessagesKey,
            length: 8,
            value: le_vec(value as u128, 8),
        }
    }

    /// Partition the messages using the provided messages key as u128: the
    /// key is its sixteen little-endian bytes.
    pub fn messages_key_u128(value: u128) -> (p: Partitioning)
        ensures
            p@ == PartitioningView::messages_key(le_bytes(value as nat, 16)),
            p@.length == 16,
            p@.is_valid(),
    {
        proof {
            lemma_le_bytes_len(value as nat, 16);
        }
        Partitioning { kind: PartitioningKind::MessagesKey, length: 16, value: le_vec(value, 16) }
    }

    /// Create the partitioning from the provided partitioning.
    pub fn from_partitioning(partitioning: &Partitioning) -> (p: Partitioning)
        ensures
            p@ == partitioning@,
    {
        Partitioning {
            kind: partitioning.kind,
            length: partitioning.length,
            value: partitioning.value.clone(),
        }
    }

    /// Get the size of the partitioning in bytes.
    pub fn get_size_bytes(&self) -> (size: u32)
        ensures
            size == self@.size(),
    {
        2 + self.length as u32
    }

    /// The text form with `key_text` as the text of a messages key; see
    /// `PartitioningView::text`.
    pub fn render(&self, key_text: &str) -> (text: String)
        requires
            self@.has_text(),
        ensures
            text@ == self@.text(key_text@),
    {
        let mut text = self.kind.to_string();
        text.append("|");
        match self.kind {
            PartitioningKind::Balanced => {
                text.append("0");
            },
            PartitioningKind::PartitionId => {
                push_decimal(&mut text, read_le(self.value.as_slice(), 0, 4));
            },
            PartitioningKind::MessagesKey => {
                text.append(key_text);
            },
        }
        assert(text@ =~= self@.text(key_text@));
        text
    }

    /// The text form; see `PartitioningView::text`. A messages key is shown
    /// as `String::from_utf8_lossy` reads it.
    pub fn to_string(&self) -> (text: String)
        requires
            self@.has_text(),
        ensures
            text@ == self@.text(utf8_lossy(self.value@)),
            valid_utf8(self.value@) ==> text@ == self@.text(decode_utf8(self.value@)),
    {
        let key_text = from_utf8_lossy(self.value.as_slice());
        self.render(key_text.as_str())
    }

    /// The wire form: kind, length, value.
    pub fn as_bytes(&self) -> (bytes: Bytes)
        ensures
            bytes_view(bytes) == self@.wire(),
    {
        let mut bytes = bytes_mut_with_capacity(2 + self.length as usize);
        put_u8(&mut bytes, self.kind.as_code());
        put_u8(&mut bytes, self.length);
        put_slice(&mut bytes, self.value.as_slice());
        let bytes = freeze(bytes);
        assert(bytes_view(bytes) =~= self@.wire());
        bytes
    }

    /// Parses the partitioning at the start of `bytes`; see
    /// `parse_partitioning`.
    pub fn from_bytes(bytes: Bytes) -> (r: Result<Partitioning, IggyError>)
        ensures
            match r {
                Ok(p) => parse_partitioning(bytes_view(bytes)) == Ok::<
                    PartitioningView,
                    IggyError,
                >(p@),
                Err(e) => parse_partitioning(bytes_view(bytes)) == Err::<
                    PartitioningView,
                    IggyError,
                >(e),
            },
    {
        Partitioning::parse(bytes_as_slice(&bytes))
    }

    /// Parses the partitioning at the start of `data`; see
    /// `parse_partitioning`.
    pub fn parse(data: &[u8]) -> (r: Result<Partitioning, IggyError>)
        ensures
            match r {
                Ok(p) => parse_partitioning(data@) == Ok::<PartitioningView, IggyError>(p@),
                Err(e) => parse_partitioning(data@) == Err::<PartitioningView, IggyError>(e),
            },
    {
        if data.len() < 2 {
            return Err(IggyError::InvalidCommand);
        }
        let kind = match PartitioningKind::from_code(data[0]) {
            Ok(kind) => kind,
            Err(e) => {
                return Err(e);
            },
        };
        let length = data[1];
        if data.len() - 2 < length as usize {
            return Err(IggyError::InvalidCommand);
        }
        let value = slice_to_vec(slice_subrange(data, 2, 2 + length as usize));
        Ok(Partitioning { kind, length, value })
    }
}

impl Default for Partitioning {
    fn default() -> (p: Partitioning)
        ensures
            p@ == PartitioningView::balanced(),
    {
        Partitioning::balanced()
    }
}

/// A partitioning whose `length` counts its value bytes is unchanged when
/// written and read back, whatever follows it in the buffer.
pub proof fn lemma_partitioning_round_trip(p: PartitioningView, rest: Seq<u8>)
    requires
        p.length == p.value.len(),
    ensures
        p.wire().len() == p.size(),
        parse_partitioning(p.wire() + rest) == Ok::<PartitioningView, IggyError>(p),
{
    let b = p.wire() + rest;
    assert(b[0] == p.kind.code());
    assert(b[1] == p.length);
    assert(b.subrange(2, 2 + b[1]) =~= p.value);
}

/// The parser reads exactly the wire form of what it returns.
pub proof fn lemma_partitioning_parse_sound(b: Seq<u8>)
    requires
        parse_partitioning(b) is Ok,
    ensures
        parse_partitioning(b)->Ok_0.length == parse_partitioning(b)->Ok_0.value.len(),
        parse_partitioning(b)->Ok_0.size() <= b.len(),
        parse_partitioning(b)->Ok_0.wire() == b.subrange(
            0,
            parse_partitioning(b)->Ok_0.size() as int,
        ),
{
    let p = parse_partitioning(b)->Ok_0;
    assert(p.wire() =~= b.subrange(0, p.size() as int));
}

} // verus!
