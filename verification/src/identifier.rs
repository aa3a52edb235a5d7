//! Identifiers of streams, topics and consumer groups: a 32-bit number or a
//! bounded name.
//!
//! On the wire an identifier is one byte of kind, one byte of length and
//! that many value bytes.

use crate::buffer::{
    bytes_as_slice, bytes_mut_with_capacity, bytes_view, freeze, put_slice, put_u8,
};
use crate::endian::{le_bytes, le_value, le_vec, read_le};
use crate::text::{decimal, decimal_string, from_utf8_lossy, utf8_lossy};
use crate::error::IggyError;
use bytes::Bytes;
use vstd::prelude::*;
use vstd::slice::{slice_subrange, slice_to_vec};
use vstd::string::StringSliceAdditionalSpecFns;
use vstd::utf8::{decode_utf8, valid_utf8};

verus! {

/// The longest name, in bytes.
pub const MAX_NAME_LENGTH: usize = 255;

/// The longest identifier value, in bytes.
pub const MAX_ID_VALUE_LENGTH: usize = 255;

/// The two kinds of identifier.
#[derive(Clone, Copy, Debug, PartialEq, Eq, Structural)]
pub enum IdKind {
    /// A 32-bit number in four little-endian bytes; code 1.
    Numeric,
    /// A name of 1 to 255 bytes; code 2.
    Named,
}

impl IdKind {
    /// The byte that stands for the kind on the wire.
    pub open spec fn code(self) -> u8 {
        match self {
            IdKind::Numeric => 1,
            IdKind::Named => 2,
        }
    }

    /// The kind that a wire byte stands for, if any.
    pub open spec fn of_code(code: u8) -> Option<IdKind> {
        if code == 1 {
            Some(IdKind::Numeric)
        } else if code == 2 {
            Some(IdKind::Named)
        } else {
            None
        }
    }

    pub fn as_code(&self) -> (code: u8)
        ensures
            code == self.code(),
    {
        match self {
            IdKind::Numeric => 1,
            IdKind::Named => 2,
        }
    }

    /// Unknown codes are rejected with `InvalidCommand`.
    pub fn from_code(code: u8) -> (r: Result<IdKind, IggyError>)
        ensures
            r == match IdKind::of_code(code) {
                Some(kind) => Ok::<IdKind, IggyError>(kind),
                None => Err::<IdKind, IggyError>(IggyError::InvalidCommand),
            },
    {
        match code {
            1 => Ok(IdKind::Numeric),
            2 => Ok(IdKind::Named),
            _ => Err(IggyError::InvalidCommand),
        }
    }
}

/// A stream, topic or consumer group reference.
#[derive(Clone, Debug, PartialEq, Eq)]
pub struct Identifier {
    pub kind: IdKind,
    /// The number of value bytes.
    pub length: u8,
    /// Four little-endian bytes for a number, the name's bytes for a name.
    pub value: Vec<u8>,
}

/// An identifier as a mathematical value.
pub struct IdentifierView {
    pub kind: IdKind,
    pub length: u8,
    pub value: Seq<u8>,
}

impl View for Identifier {
    type V = IdentifierView;

    open spec fn view(&self) -> IdentifierView {
        IdentifierView { kind: self.kind, length: self.length, value: self.value@ }
    }
}

impl IdentifierView {
    /// The identifier with the number `value`.
    pub open spec fn numeric(value: u32) -> IdentifierView {
        IdentifierView { kind: IdKind::Numeric, length: 4, value: le_bytes(value as nat, 4) }
    }

    /// A number carries exactly four bytes; a name is neither empty nor
    /// longer than 255 bytes. `length` counts the value bytes.
    pub open spec fn is_valid(self) -> bool {
        &&& self.length == self.value.len()
        &&& match self.kind {
            IdKind::Numeric => self.length == 4,
            IdKind::Named => self.length >= 1,
        }
    }

    /// Kind, length, value.
    pub open spec fn wire(self) -> Seq<u8> {
        seq![self.kind.code(), self.length] + self.value
    }

    /// The number of bytes of the wire form of a valid identifier.
    pub open spec fn size(self) -> nat {
        2 + self.length as nat
    }

    /// The text form: a number in decimal, a name as its text.
    pub open spec fn text(self) -> Seq<char> {
        match self.kind {
            IdKind::Numeric => decimal(le_value(self.value)),
            IdKind::Named => utf8_lossy(self.value),
        }
    }
}

/// What the start of `b` parses to. Bytes after the identifier are ignored.
///
/// A buffer without the two leading bytes, an unknown kind, or fewer value
/// bytes than the length byte announces is `InvalidCommand`; a number that
/// is not four bytes wide or an empty name is `InvalidIdentifier`.
pub open spec fn parse_identifier(b: Seq<u8>) -> Result<IdentifierView, IggyError> {
    if b.len() < 2 {
        Err(IggyError::InvalidCommand)
    } else if IdKind::of_code(b[0]) is None {
        Err(IggyError::InvalidCommand)
    } else if b.len() < 2 + b[1] {
        Err(IggyError::InvalidCommand)
    } else {
        let id = IdentifierView {
            kind: IdKind::of_code(b[0])->0,
            length: b[1],
            value: b.subrange(2, 2 + b[1]),
        };
        if id.is_valid() {
            Ok(id)
        } else {
            Err(IggyError::InvalidIdentifier)
        }
    }
}

impl Identifier {
    /// The identifier with the number `value`.
    pub fn numeric(value: u32) -> (id: Identifier)
        ensures
            id@ == IdentifierView::numeric(value),
            id@.is_valid(),
    {
        let bytes = le_vec(value as u128, 4);
        proof {
            crate::endian::lemma_le_bytes_len(value as nat, 4);
        }
        Identifier { kind: IdKind::Numeric, length: 4, value: bytes }
    }

    /// The identifier with the name `value`; `InvalidIdentifier` if the name
    /// is empty or longer than 255 bytes.
    pub fn named(value: &str) -> (r: Result<Identifier, IggyError>)
        ensures
            match r {
                Ok(id) => {
                    &&& 1 <= value.spec_bytes().len() <= 255
                    &&& id@ == (IdentifierView {
                        kind: IdKind::Named,
                        length: value.spec_bytes().len() as u8,
                        value: value.spec_bytes(),
                    })
                    &&& id@.is_valid()
                },
                Err(e) => {
                    &&& e == IggyError::InvalidIdentifier
                    &&& (value.spec_bytes().len() == 0 || value.spec_bytes().len() > 255)
                },
            },
    {
        let bytes = value.as_bytes();
        let length = bytes.len();
        if length == 0 || length > MAX_NAME_LENGTH {
            return Err(IggyError::InvalidIdentifier);
        }
        Ok(Identifier { kind: IdKind::Named, length: length as u8, value: slice_to_vec(bytes) })
    }

    /// Whether the record is a valid identifier; `InvalidIdentifier` if not.
    pub fn validate(&self) -> (r: Result<(), IggyError>)
        ensures
            r == if self@.is_valid() {
                Ok::<(), IggyError>(())
            } else {
                Err::<(), IggyError>(IggyError::InvalidIdentifier)
            },
    {
        if self.value.len() != self.length as usize {
            return Err(IggyError::InvalidIdentifier);
        }
        match self.kind {
            IdKind::Numeric => {
                if self.length != 4 {
                    return Err(IggyError::InvalidIdentifier);
                }
            },
            IdKind::Named => {
                if self.length == 0 {
                    return Err(IggyError::InvalidIdentifier);
                }
            },
        }
        Ok(())
    }

    /// The text form: a number in decimal, a name as its text. A name that
    /// is UTF-8 reads as what its bytes encode.
    pub fn to_string(&self) -> (text: String)
        requires
            self@.is_valid(),
        ensures
            text@ == self@.text(),
            self.kind == IdKind::Named && valid_utf8(self.value@) ==> text@ == decode_utf8(
                self.value@,
            ),
    {
        match self.kind {
            IdKind::Numeric => {
                assert(self.value@.subrange(0, 4) =~= self.value@);
                decimal_string(read_le(self.value.as_slice(), 0, 4))
            },
            IdKind::Named => from_utf8_lossy(self.value.as_slice()),
        }
    }

    /// The size of the wire form: two bytes and the value.
    pub fn get_size_bytes(&self) -> (size: u32)
        ensures
            size == self@.size(),
    {
        2 + self.length as u32
    }

    /// The wire form: kind, length, value.
    pub fn as_bytes(&self) -> (bytes: Bytes)
        ensures
            bytes_view(bytes) == self@.wire(),
    {
        let mut bytes = bytes_mut_with_capacity(2 + self.length as usize);
        put_u8(&mut bytes, self.kind.as_code());
        put_u8(&mut bytes, self.length);
        put_slice(&mut bytes, self.value.as_slice());
        let bytes = freeze(bytes);
        assert(bytes_view(bytes) =~= self@.wire());
        bytes
    }

    /// Parses the identifier at the start of `bytes`; see `parse_identifier`.
    pub fn from_bytes(bytes: Bytes) -> (r: Result<Identifier, IggyError>)
        ensures
            match r {
                Ok(id) => parse_identifier(bytes_view(bytes)) == Ok::<IdentifierView, IggyError>(
                    id@,
                ),
                Err(e) => parse_identifier(bytes_view(bytes)) == Err::<IdentifierView, IggyError>(
                    e,
                ),
            },
    {
        Identifier::parse(bytes_as_slice(&bytes))
    }

    /// Parses the identifier at the start of `data`; see `parse_identifier`.
    pub fn parse(data: &[u8]) -> (r: Result<Identifier, IggyError>)
        ensures
            match r {
                Ok(id) => parse_identifier(data@) == Ok::<IdentifierView, IggyError>(id@),
                Err(e) => parse_identifier(data@) == Err::<IdentifierView, IggyError>(e),
            },
    {
        if data.len() < 2 {
            return Err(IggyError::InvalidCommand);
        }
        let kind = match IdKind::from_code(data[0]) {
            Ok(kind) => kind,
            Err(e) => {
                return Err(e);
            },
        };
        let length = data[1];
        if data.len() - 2 < length as usize {
            return Err(IggyError::InvalidCommand);
        }
        let value = slice_to_vec(slice_subrange(data, 2, 2 + length as usize));
        let id = Identifier { kind, length, value };
        match id.validate() {
            Ok(()) => Ok(id),
            Err(e) => Err(e),
        }
    }
}

impl Default for Identifier {
    /// The identifier with the number 1.
    fn default() -> (id: Identifier)
        ensures
            id@ == IdentifierView::numeric(1),
    {
        Identifier::numeric(1)
    }
}

/// An identifier that is written and read back is unchanged, whatever
/// follows it in the buffer.
pub proof fn lemma_identifier_round_trip(id: IdentifierView, rest: Seq<u8>)
    requires
        id.is_valid(),
    ensures
        id.wire().len() == id.size(),
        parse_identifier(id.wire() + rest) == Ok::<IdentifierView, IggyError>(id),
{
    let b = id.wire() + rest;
    assert(b[0] == id.kind.code());
    assert(b[1] == id.length);
    assert(b.subrange(2, 2 + b[1]) =~= id.value);
}

/// Whatever parses is valid, and the parser reads exactly its wire form.
pub proof fn lemma_identifier_parse_sound(b: Seq<u8>)
    requires
        parse_identifier(b) is Ok,
    ensures
        parse_identifier(b)->Ok_0.is_valid(),
        parse_identifier(b)->Ok_0.size() <= b.len(),
        parse_identifier(b)->Ok_0.wire() == b.subrange(0, parse_identifier(b)->Ok_0.size() as int),
{
    let id = parse_identifier(b)->Ok_0;
    assert(id.wire() =~= b.subrange(0, id.size() as int));
}

} // verus!
