//! Message headers: typed key-value pairs.
//!
//! On the wire a header is the key's length as a little-endian `u32`, the
//! key's bytes, one byte of value kind, the value's length as a little-endian
//! `u32` and the value's bytes. A header set is its headers back to back,
//! without a count.

use crate::buffer::{
    bytes_as_slice, bytes_mut_view, bytes_mut_with_capacity, bytes_view, freeze, put_slice,
    put_u32_le, put_u8,
};
use crate::endian::{
    le_bytes, le_value, le_vec, lemma_le_bytes_len, lemma_le_value_of_bytes, lemma_pow256_values,
    pow256, read_u32_le,
};
use crate::error::IggyError;
use bytes::Bytes;
use vstd::prelude::*;
use vstd::slice::{slice_subrange, slice_to_vec};
use vstd::std_specs::cmp::PartialEqSpecImpl;
use vstd::string::StringSliceAdditionalSpecFns;
use vstd::utf8::{encode_utf8, valid_utf8};

verus! {

/// The longest header key, in bytes.
pub const MAX_HEADER_KEY_LENGTH: usize = 255;

/// The longest value of a variable-length kind, in bytes.
pub const MAX_HEADER_VALUE_LENGTH: usize = 255;

/// The kinds of header value. The codes on the wire run from 1 (`Raw`) to 15
/// (`Float64`), in the order of the variants.
#[derive(Clone, Copy, Debug, PartialEq, Eq, Structural)]
pub enum HeaderKind {
    Raw,
    String,
    Bool,
    Int8,
    Int16,
    Int32,
    Int64,
    Int128,
    Uint8,
    Uint16,
    Uint32,
    Uint64,
    Uint128,
    Float32,
    Float64,
}

impl HeaderKind {
    /// The byte that stands for the kind on the wire.
    pub open spec fn code(self) -> u8 {
        match self {
            HeaderKind::Raw => 1,
            HeaderKind::String => 2,
            HeaderKind::Bool => 3,
            HeaderKind::Int8 => 4,
            HeaderKind::Int16 => 5,
            HeaderKind::Int32 => 6,
            HeaderKind::Int64 => 7,
            HeaderKind::Int128 => 8,
            HeaderKind::Uint8 => 9,
            HeaderKind::Uint16 => 10,
            HeaderKind::Uint32 => 11,
            HeaderKind::Uint64 => 12,
            HeaderKind::Uint128 => 13,
            HeaderKind::Float32 => 14,
            HeaderKind::Float64 => 15,
        }
    }

    /// The kind that a wire byte stands for, if any.
    pub open spec fn of_code(code: u8) -> Option<HeaderKind> {
        if code == 1 {
            Some(HeaderKind::Raw)
        } else if code == 2 {
            Some(HeaderKind::String)
        } else if code == 3 {
            Some(HeaderKind::Bool)
        } else if code == 4 {
            Some(HeaderKind::Int8)
        } else if code == 5 {
            Some(HeaderKind::Int16)
        } else if code == 6 {
            Some(HeaderKind::Int32)
        } else if code == 7 {
            Some(HeaderKind::Int64)
        } else if code == 8 {
            Some(HeaderKind::Int128)
        } else if code == 9 {
            Some(HeaderKind::Uint8)
        } else if code == 10 {
            Some(HeaderKind::Uint16)
        } else if code == 11 {
            Some(HeaderKind::Uint32)
        } else if code == 12 {
            Some(HeaderKind::Uint64)
        } else if code == 13 {
            Some(HeaderKind::Uint128)
        } else if code == 14 {
            Some(HeaderKind::Float32)
        } else if code == 15 {
            Some(HeaderKind::Float64)
        } else {
            None
        }
    }

    /// The number of value bytes of a fixed-width kind; `None` for `Raw` and
    /// `String`, whose values have 1 to 255 bytes.
    pub open spec fn width(self) -> Option<nat> {
        match self {
            HeaderKind::Raw | HeaderKind::String => None,
            HeaderKind::Bool | HeaderKind::Int8 | HeaderKind::Uint8 => Some(1),
            HeaderKind::Int16 | HeaderKind::Uint16 => Some(2),
            HeaderKind::Int32 | HeaderKind::Uint32 | HeaderKind::Float32 => Some(4),
            HeaderKind::Int64 | HeaderKind::Uint64 | HeaderKind::Float64 => Some(8),
            HeaderKind::Int128 | HeaderKind::Uint128 => Some(16),
        }
    }

    /// Whether a value of this kind may have `length` bytes.
    pub open spec fn admits_length(self, length: nat) -> bool {
        match self.width() {
            Some(width) => length == width,
            None => 1 <= length <= 255,
        }
    }

    pub fn as_code(&self) -> (code: u8)
        ensures
            code == self.code(),
    {
        match self {
            HeaderKind::Raw => 1,
            HeaderKind::String => 2,
            HeaderKind::Bool => 3,
            HeaderKind::Int8 => 4,
            HeaderKind::Int16 => 5,
            HeaderKind::Int32 => 6,
            HeaderKind::Int64 => 7,
            HeaderKind::Int128 => 8,
            HeaderKind::Uint8 => 9,
            HeaderKind::Uint16 => 10,
            HeaderKind::Uint32 => 11,
            HeaderKind::Uint64 => 12,
            HeaderKind::Uint128 => 13,
            HeaderKind::Float32 => 14,
            HeaderKind::Float64 => 15,
        }
    }

    /// Unknown codes are rejected with `InvalidCommand`.
    pub fn from_code(code: u8) -> (r: Result<HeaderKind, IggyError>)
        ensures
            r == match HeaderKind::of_code(code) {
                Some(kind) => Ok::<HeaderKind, IggyError>(kind),
                None => Err::<HeaderKind, IggyError>(IggyError::InvalidCommand),
            },
    {
        match code {
            1 => Ok(HeaderKind::Raw),
            2 => Ok(HeaderKind::String),
            3 => Ok(HeaderKind::Bool),
            4 => Ok(HeaderKind::Int8),
            5 => Ok(HeaderKind::Int16),
            6 => Ok(HeaderKind::Int32),
            7 => Ok(HeaderKind::Int64),
            8 => Ok(HeaderKind::Int128),
            9 => Ok(HeaderKind::Uint8),
            10 => Ok(HeaderKind::Uint16),
            11 => Ok(HeaderKind::Uint32),
            12 => Ok(HeaderKind::Uint64),
            13 => Ok(HeaderKind::Uint128),
            14 => Ok(HeaderKind::Float32),
            15 => Ok(HeaderKind::Float64),
            _ => Err(IggyError::InvalidCommand),
        }
    }

    /// Whether a value of this kind may have `length` bytes.
    pub fn accepts(&self, length: usize) -> (ok: bool)
        ensures
            ok == self.admits_length(length as nat),
    {
        match self {
            HeaderKind::Raw | HeaderKind::String => 1 <= length && length
                <= MAX_HEADER_VALUE_LENGTH,
            HeaderKind::Bool | HeaderKind::Int8 | HeaderKind::Uint8 => length == 1,
            HeaderKind::Int16 | HeaderKind::Uint16 => length == 2,
            HeaderKind::Int32 | HeaderKind::Uint32 | HeaderKind::Float32 => length == 4,
            HeaderKind::Int64 | HeaderKind::Uint64 | HeaderKind::Float64 => length == 8,
            HeaderKind::Int128 | HeaderKind::Uint128 => length == 16,
        }
    }
}

/// Whether the two slices hold the same bytes.
pub fn bytes_equal(a: &[u8], b: &[u8]) -> (r: bool)
    ensures
        r == (a@ == b@),
{
    if a.len() != b.len() {
        return false;
    }
    let mut i: usize = 0;
    while i < a.len()
        invariant
            i <= a@.len() == b@.len(),
            forall|j: int| 0 <= j < i ==> a@[j] == b@[j],
        decreases a@.len() - i,
    {
        if a[i] != b[i] {
            return false;
        }
        i = i + 1;
    }
    assert(a@ =~= b@);
    true
}

/// Whether `key` can be a header key: 1 to 255 bytes of UTF-8.
pub open spec fn key_valid(key: Seq<u8>) -> bool {
    &&& 1 <= key.len() <= 255
    &&& valid_utf8(key)
}

/// `String::from_utf8`: the string whose UTF-8 bytes are `bytes`, or nothing
/// where the bytes are not UTF-8.
#[verifier::external_body]
fn string_from_utf8(bytes: Vec<u8>) -> (r: Option<String>)
    ensures
        r is Some <==> valid_utf8(bytes@),
        r matches Some(s) ==> encode_utf8(s@) == bytes@,
{
    match String::from_utf8(bytes) {
        Ok(s) => Some(s),
        Err(_) => None,
    }
}

/// The key of a header: a string of 1 to 255 bytes. Its view is its bytes.
#[derive(Debug, PartialEq, Eq)]
pub struct HeaderKey {
    name: String,
}

impl View for HeaderKey {
    type V = Seq<u8>;

    closed spec fn view(&self) -> Seq<u8> {
        encode_utf8(self.name@)
    }
}

impl HeaderKey {
    #[verifier::type_invariant]
    closed spec fn bounded(&self) -> bool {
        1 <= encode_utf8(self.name@).len() <= 255
    }

    /// The key `key`; `InvalidHeaderKey` if it is empty or longer than 255
    /// bytes.
    pub fn new(key: &str) -> (r: Result<HeaderKey, IggyError>)
        ensures
            match r {
                Ok(k) => k@ == key.spec_bytes() && key_valid(k@),
                Err(e) => e == IggyError::InvalidHeaderKey && !(1 <= key.spec_bytes().len()
                    <= 255),
            },
    {
        broadcast use vstd::utf8::encode_utf8_valid_utf8;

        let length = key.as_bytes().len();
        if length == 0 || length > MAX_HEADER_KEY_LENGTH {
            return Err(IggyError::InvalidHeaderKey);
        }
        Ok(HeaderKey { name: key.to_owned() })
    }

    /// The key whose bytes are `bytes`; `InvalidHeaderKey` unless they are 1
    /// to 255 bytes of UTF-8.
    pub fn from_bytes(bytes: &[u8]) -> (r: Result<HeaderKey, IggyError>)
        ensures
            match r {
                Ok(k) => k@ == bytes@ && key_valid(k@),
                Err(e) => e == IggyError::InvalidHeaderKey && !key_valid(bytes@),
            },
    {
        let length = bytes.len();
        if length == 0 || length > MAX_HEADER_KEY_LENGTH {
            return Err(IggyError::InvalidHeaderKey);
        }
        match string_from_utf8(slice_to_vec(bytes)) {
            Some(name) => Ok(HeaderKey { name }),
            None => Err(IggyError::InvalidHeaderKey),
        }
    }

    /// The key as a string.
    pub fn as_str(&self) -> (s: &str)
        ensures
            s.spec_bytes() == self@,
            key_valid(self@),
    {
        broadcast use vstd::utf8::encode_utf8_valid_utf8;

        proof {
            use_type_invariant(self);
        }
        self.name.as_str()
    }

    /// The key's bytes.
    pub fn as_bytes(&self) -> (bytes: &[u8])
        ensures
            bytes@ == self@,
            key_valid(self@),
    {
        self.as_str().as_bytes()
    }

    /// Whether the two keys have the same bytes.
    pub fn same(&self, other: &HeaderKey) -> (r: bool)
        ensures
            r == (self@ == other@),
    {
        broadcast use vstd::utf8::encode_utf8_decode_utf8;

        let r = self.name == other.name;
        proof {
            if self@ == other@ {
                assert(vstd::utf8::decode_utf8(encode_utf8(self.name@)) == self.name@);
                assert(vstd::utf8::decode_utf8(encode_utf8(other.name@)) == other.name@);
            }
        }
        r
    }
}

impl Clone for HeaderKey {
    fn clone(&self) -> (key: HeaderKey)
        ensures
            key@ == self@,
    {
        proof {
            use_type_invariant(self);
        }
        HeaderKey { name: self.name.clone() }
    }
}

/// A header value as a mathematical value: its kind and its bytes.
pub struct HeaderValueView {
    pub kind: HeaderKind,
    pub value: Seq<u8>,
}

/// The unsigned number with the bits of the signed `value` in `width` bytes.
pub open spec fn twos_complement(value: int, width: nat) -> nat {
    if value >= 0 {
        value as nat
    } else {
        (value + pow256(width)) as nat
    }
}

impl HeaderValueView {
    /// The value has a length that its kind admits.
    pub open spec fn is_valid(self) -> bool {
        self.kind.admits_length(self.value.len())
    }

    /// The value of the fixed-width kind `kind` for the number `x`: its
    /// little-endian bytes.
    pub open spec fn number(kind: HeaderKind, x: nat) -> HeaderValueView {
        HeaderValueView { kind, value: le_bytes(x, kind.width()->0) }
    }
}

/// The value of a header: a kind and the bytes that the kind interprets.
#[derive(Debug, PartialEq, Eq)]
pub struct HeaderValue {
    kind: HeaderKind,
    value: Vec<u8>,
}

impl View for HeaderValue {
    type V = HeaderValueView;

    closed spec fn view(&self) -> HeaderValueView {
        HeaderValueView { kind: self.kind, value: self.value@ }
    }
}

impl HeaderValue {
    #[verifier::type_invariant]
    closed spec fn fits_kind(&self) -> bool {
        self.kind.admits_length(self.value@.len())
    }

    /// The value of kind `kind` with the bytes `value`; `InvalidHeaderValue`
    /// unless the kind admits their number.
    pub fn new(kind: HeaderKind, value: &[u8]) -> (r: Result<HeaderValue, IggyError>)
        ensures
            match r {
                Ok(v) => v@ == (HeaderValueView { kind, value: value@ }) && v@.is_valid(),
                Err(e) => e == IggyError::InvalidHeaderValue && !kind.admits_length(
                    value@.len(),
                ),
            },
    {
        if !kind.accepts(value.len()) {
            return Err(IggyError::InvalidHeaderValue);
        }
        Ok(HeaderValue { kind, value: slice_to_vec(value) })
    }

    /// The value of a fixed-width kind for the number `x`.
    fn fixed(kind: HeaderKind, x: u128, width: usize) -> (v: HeaderValue)
        requires
            kind.width() == Some(width as nat),
        ensures
            v@ == HeaderValueView::number(kind, x as nat),
            v@.is_valid(),
    {
        proof {
            lemma_le_bytes_len(x as nat, width as nat);
        }
        HeaderValue { kind, value: le_vec(x, width) }
    }

    /// A raw value of 1 to 255 bytes; `InvalidHeaderValue` otherwise.
    pub fn from_raw(value: &[u8]) -> (r: Result<HeaderValue, IggyError>)
        ensures
            match r {
                Ok(v) => v@ == (HeaderValueView { kind: HeaderKind::Raw, value: value@ })
                    && v@.is_valid(),
                Err(e) => e == IggyError::InvalidHeaderValue && !(1 <= value@.len() <= 255),
            },
    {
        HeaderValue::new(HeaderKind::Raw, value)
    }

    /// A string value of 1 to 255 bytes; `InvalidHeaderValue` otherwise.
    pub fn from_str(value: &str) -> (r: Result<HeaderValue, IggyError>)
        ensures
            match r {
                Ok(v) => v@ == (HeaderValueView {
                    kind: HeaderKind::String,
                    value: value.spec_bytes(),
                }) && v@.is_valid(),
                Err(e) => e == IggyError::InvalidHeaderValue && !(1 <= value.spec_bytes().len()
                    <= 255),
            },
    {
        HeaderValue::new(HeaderKind::String, value.as_bytes())
    }

    /// A boolean value: one byte, 1 for true and 0 for false.
    pub fn from_bool(value: bool) -> (v: HeaderValue)
        ensures
            v@ == HeaderValueView::number(
                HeaderKind::Bool,
                if value {
                    1
                } else {
                    0
                },
            ),
            v@.is_valid(),
    {
        HeaderValue::fixed(
            HeaderKind::Bool,
            if value {
                1
            } else {
                0
            },
            1,
        )
    }

    pub fn from_int8(value: i8) -> (v: HeaderValue)
        ensures
            v@ == HeaderValueView::number(HeaderKind::Int8, twos_complement(value as int, 1)),
            v@.is_valid(),
    {
        proof {
            lemma_pow256_values();
        }
        let bits: u8 = if value >= 0 {
            value as u8
        } else {
            (value as i16 + 0x100) as u8
        };
        HeaderValue::fixed(HeaderKind::Int8, bits as u128, 1)
    }

    pub fn from_int16(value: i16) -> (v: HeaderValue)
        ensures
            v@ == HeaderValueView::number(HeaderKind::Int16, twos_complement(value as int, 2)),
            v@.is_valid(),
    {
        proof {
            lemma_pow256_values();
        }
        let bits: u16 = if value >= 0 {
            value as u16
        } else {
            (value as i32 + 0x1_0000) as u16
        };
        HeaderValue::fixed(HeaderKind::Int16, bits as u128, 2)
    }

    pub fn from_int32(value: i32) -> (v: HeaderValue)
        ensures
            v@ == HeaderValueView::number(HeaderKind::Int32, twos_complement(value as int, 4)),
            v@.is_valid(),
    {
        proof {
            lemma_pow256_values();
        }
        let bits: u32 = if value >= 0 {
            value as u32
        } else {
            (value as i64 + 0x1_0000_0000) as u32
        };
        HeaderValue::fixed(HeaderKind::Int32, bits as u128, 4)
    }

    pub fn from_int64(value: i64) -> (v: HeaderValue)
        ensures
            v@ == HeaderValueView::number(HeaderKind::Int64, twos_complement(value as int, 8)),
            v@.is_valid(),
    {
        proof {
            lemma_pow256_values();
        }
        let bits: u64 = if value >= 0 {
            value as u64
        } else {
            (value as i128 + 0x1_0000_0000_0000_0000) as u64
        };
        HeaderValue::fixed(HeaderKind::Int64, bits as u128, 8)
    }

    pub fn from_int128(value: i128) -> (v: HeaderValue)
        ensures
            v@ == HeaderValueView::number(HeaderKind::Int128, twos_complement(value as int, 16)),
            v@.is_valid(),
    {
        proof {
            lemma_pow256_values();
        }
        let bits: u128 = if value >= 0 {
            value as u128
        } else {
            (value + i128::MAX + 1) as u128 + 0x8000_0000_0000_0000_0000_0000_0000_0000
        };
        HeaderValue::fixed(HeaderKind::Int128, bits, 16)
    }

    pub fn from_uint8(value: u8) -> (v: HeaderValue)
        ensures
            v@ == HeaderValueView::number(HeaderKind::Uint8, value as nat),
            v@.is_valid(),
    {
        HeaderValue::fixed(HeaderKind::Uint8, value as u128, 1)
    }

    pub fn from_uint16(value: u16) -> (v: HeaderValue)
        ensures
            v@ == HeaderValueView::number(HeaderKind::Uint16, value as nat),
            v@.is_valid(),
    {
        HeaderValue::fixed(HeaderKind::Uint16, value as u128, 2)
    }

    pub fn from_uint32(value: u32) -> (v: HeaderValue)
        ensures
            v@ == HeaderValueView::number(HeaderKind::Uint32, value as nat),
            v@.is_valid(),
    {
        HeaderValue::fixed(HeaderKind::Uint32, value as u128, 4)
    }

    pub fn from_uint64(value: u64) -> (v: HeaderValue)
        ensures
            v@ == HeaderValueView::number(HeaderKind::Uint64, value as nat),
            v@.is_valid(),
    {
        HeaderValue::fixed(HeaderKind::Uint64, value as u128, 8)
    }

    pub fn from_uint128(value: u128) -> (v: HeaderValue)
        ensures
            v@ == HeaderValueView::number(HeaderKind::Uint128, value as nat),
            v@.is_valid(),
    {
        HeaderValue::fixed(HeaderKind::Uint128, value, 16)
    }

    /// A 32-bit floating-point value, given by its bits.
    pub fn from_float32_bits(bits: u32) -> (v: HeaderValue)
        ensures
            v@ == HeaderValueView::number(HeaderKind::Float32, bits as nat),
            v@.is_valid(),
    {
        HeaderValue::fixed(HeaderKind::Float32, bits as u128, 4)
    }

    /// A 64-bit floating-point value, given by its bits.
    pub fn from_float64_bits(bits: u64) -> (v: HeaderValue)
        ensures
            v@ == HeaderValueView::number(HeaderKind::Float64, bits as nat),
            v@.is_valid(),
    {
        HeaderValue::fixed(HeaderKind::Float64, bits as u128, 8)
    }

    /// Whether the two values have the same kind and the same bytes.
    pub fn same(&self, other: &HeaderValue) -> (r: bool)
        ensures
            r == (self@ == other@),
    {
        let kinds = self.kind == other.kind;
        let bytes = bytes_equal(self.value.as_slice(), other.value.as_slice());
        proof {
            if bytes {
                assert(self.value@ =~= other.value@);
            }
        }
        kinds && bytes
    }

    /// The kind of the value.
    pub fn kind(&self) -> (kind: HeaderKind)
        ensures
            kind == self@.kind,
    {
        self.kind
    }

    /// The bytes of the value.
    pub fn as_bytes(&self) -> (bytes: &[u8])
        ensures
            bytes@ == self@.value,
            self@.is_valid(),
    {
        proof {
            use_type_invariant(self);
        }
        self.value.as_slice()
    }
}

impl Clone for HeaderValue {
    fn clone(&self) -> (value: HeaderValue)
        ensures
            value@ == self@,
    {
        proof {
            use_type_invariant(self);
        }
        HeaderValue { kind: self.kind, value: self.value.clone() }
    }
}


/// One header as a mathematical value.
pub struct HeaderView {
    pub key: Seq<u8>,
    pub value: HeaderValueView,
}

impl HeaderView {
    pub open spec fn is_valid(self) -> bool {
        key_valid(self.key) && self.value.is_valid()
    }

    /// Key length, key, kind, value length, value.
    pub open spec fn wire(self) -> Seq<u8> {
        le_bytes(self.key.len(), 4) + self.key + seq![self.value.kind.code()] + le_bytes(
            self.value.value.len(),
            4,
        ) + self.value.value
    }

    /// The number of bytes of the wire form.
    pub open spec fn size(self) -> nat {
        9 + self.key.len() + self.value.value.len()
    }
}

/// Whether some header of `headers` has the key `key`.
pub open spec fn has_key(headers: Seq<HeaderView>, key: Seq<u8>) -> bool {
    exists|i: int| 0 <= i < headers.len() && (#[trigger] headers[i]).key == key
}

/// No key occurs twice.
pub open spec fn keys_unique(headers: Seq<HeaderView>) -> bool {
    forall|i: int, j: int|
        0 <= i < j < headers.len() ==> (#[trigger] headers[i]).key != (#[trigger] headers[j]).key
}

/// Every header is valid and no key occurs twice.
pub open spec fn headers_valid(headers: Seq<HeaderView>) -> bool {
    &&& keys_unique(headers)
    &&& forall|i: int| 0 <= i < headers.len() ==> (#[trigger] headers[i]).is_valid()
}

/// `headers` with `header` put under its key: in the place of the header
/// that had the key, or at the end where none had it.
pub open spec fn insert_header(headers: Seq<HeaderView>, header: HeaderView) -> Seq<HeaderView> {
    if has_key(headers, header.key) {
        Seq::new(
            headers.len(),
            |i: int|
                if headers[i].key == header.key {
                    header
                } else {
                    headers[i]
                },
        )
    } else {
        headers.push(header)
    }
}

/// The wire form of a header set: its headers back to back.
pub open spec fn headers_wire(headers: Seq<HeaderView>) -> Seq<u8>
    decreases headers.len(),
{
    if headers.len() == 0 {
        Seq::empty()
    } else {
        headers[0].wire() + headers_wire(headers.drop_first())
    }
}

/// The number of bytes of the wire form of a header set.
pub open spec fn headers_size(headers: Seq<HeaderView>) -> nat
    decreases headers.len(),
{
    if headers.len() == 0 {
        0
    } else {
        headers[0].size() + headers_size(headers.drop_first())
    }
}

/// The number of value bytes in a header set: what the limit on the headers
/// of a batch counts.
pub open spec fn headers_value_bytes(headers: Seq<HeaderView>) -> nat
    decreases headers.len(),
{
    if headers.len() == 0 {
        0
    } else {
        headers[0].value.value.len() + headers_value_bytes(headers.drop_first())
    }
}

/// What the first header of `b` parses to. Bytes after it are ignored.
///
/// Bytes that end before the header does are `InvalidHeaderValue`; a key
/// length outside 1 to 255 or a key that is not UTF-8 is `InvalidHeaderKey`;
/// an unknown kind is `InvalidCommand`; a value length that the kind does not
/// admit is `InvalidHeaderValue`.
pub open spec fn parse_header(b: Seq<u8>) -> Result<HeaderView, IggyError> {
    if b.len() < 4 {
        Err(IggyError::InvalidHeaderValue)
    } else {
        let key_length = le_value(b.subrange(0, 4)) as int;
        if key_length == 0 || key_length > 255 {
            Err(IggyError::InvalidHeaderKey)
        } else if b.len() < 9 + key_length {
            Err(IggyError::InvalidHeaderValue)
        } else if !valid_utf8(b.subrange(4, 4 + key_length)) {
            Err(IggyError::InvalidHeaderKey)
        } else if HeaderKind::of_code(b[4 + key_length]) is None {
            Err(IggyError::InvalidCommand)
        } else {
            let kind = HeaderKind::of_code(b[4 + key_length])->0;
            let value_length = le_value(b.subrange(5 + key_length, 9 + key_length)) as int;
            if !kind.admits_length(value_length as nat) {
                Err(IggyError::InvalidHeaderValue)
            } else if b.len() < 9 + key_length + value_length {
                Err(IggyError::InvalidHeaderValue)
            } else {
                Ok(
                    HeaderView {
                        key: b.subrange(4, 4 + key_length),
                        value: HeaderValueView {
                            kind,
                            value: b.subrange(9 + key_length, 9 + key_length + value_length),
                        },
                    },
                )
            }
        }
    }
}

/// What `b` parses to, header by header, on top of the headers `seen` that
/// were read before. A later header replaces an earlier one with its key.
pub open spec fn parse_headers_from(b: Seq<u8>, seen: Seq<HeaderView>) -> Result<
    Seq<HeaderView>,
    IggyError,
>
    decreases b.len(),
{
    if b.len() == 0 {
        Ok(seen)
    } else {
        match parse_header(b) {
            Err(e) => Err(e),
            Ok(header) => parse_headers_from(
                b.skip(header.size() as int),
                insert_header(seen, header),
            ),
        }
    }
}

/// What the header bytes `b` parse to. The bytes must split into whole
/// headers: there is no count, so the set ends where the bytes end.
pub open spec fn parse_headers(b: Seq<u8>) -> Result<Seq<HeaderView>, IggyError> {
    parse_headers_from(b, Seq::empty())
}

/// Every header of `a` is a header of `b`.
pub open spec fn headers_within(a: Seq<HeaderView>, b: Seq<HeaderView>) -> bool {
    forall|i: int| 0 <= i < a.len() ==> b.contains(#[trigger] a[i])
}

/// The two sets hold the same headers, in whatever order.
pub open spec fn same_headers(a: Seq<HeaderView>, b: Seq<HeaderView>) -> bool {
    headers_within(a, b) && headers_within(b, a)
}

/// A set of headers, each under a key of its own. Its view is the sequence
/// of its headers in the order in which their keys were first inserted,
/// which is the order on the wire. Two sets are equal when they hold the
/// same headers: the order plays no part.
#[derive(Debug)]
pub struct HeaderSet {
    entries: Vec<(HeaderKey, HeaderValue)>,
}

/// The headers that the pairs of `entries` stand for.
spec fn entries_view(entries: Seq<(HeaderKey, HeaderValue)>) -> Seq<HeaderView> {
    Seq::new(entries.len(), |i: int| HeaderView { key: entries[i].0@, value: entries[i].1@ })
}

/// The place of the pair with the key `key`, if there is one.
fn find_key(entries: &Vec<(HeaderKey, HeaderValue)>, key: &HeaderKey) -> (r: Option<usize>)
    ensures
        match r {
            Some(i) => i < entries@.len() && entries_view(entries@)[i as int].key == key@,
            None => !has_key(entries_view(entries@), key@),
        },
{
    let mut i: usize = 0;
    while i < entries.len()
        invariant
            i <= entries@.len(),
            forall|j: int| 0 <= j < i ==> (#[trigger] entries_view(entries@)[j]).key != key@,
        decreases entries@.len() - i,
    {
        if entries[i].0.same(key) {
            return Some(i);
        }
        i = i + 1;
    }
    None
}

/// Whether every pair of `a` is a pair of `b`, where no key occurs twice in
/// `b`.
fn entries_within(a: &Vec<(HeaderKey, HeaderValue)>, b: &Vec<(HeaderKey, HeaderValue)>) -> (r:
    bool)
    requires
        keys_unique(entries_view(b@)),
    ensures
        r == headers_within(entries_view(a@), entries_view(b@)),
{
    let ghost left = entries_view(a@);
    let ghost right = entries_view(b@);
    let mut i: usize = 0;
    while i < a.len()
        invariant
            i <= a@.len(),
            left == entries_view(a@),
            right == entries_view(b@),
            keys_unique(right),
            forall|j: int| 0 <= j < i ==> right.contains(#[trigger] left[j]),
        decreases a@.len() - i,
    {
        let found = match find_key(b, &a[i].0) {
            Some(at) => {
                let same = b[at].1.same(&a[i].1);
                proof {
                    if same {
                        assert(right[at as int] == left[i as int]);
                    } else if right.contains(left[i as int]) {
                        let other = choose|k: int| 0 <= k < right.len() && right[k] == left[i as int];
                        assert(right[other].key == right[at as int].key);
                    }
                }
                same
            },
            None => {
                proof {
                    if right.contains(left[i as int]) {
                        let other = choose|k: int| 0 <= k < right.len() && right[k] == left[i as int];
                        assert(right[other].key == left[i as int].key);
                    }
                }
                false
            },
        };
        if !found {
            return false;
        }
        i = i + 1;
    }
    true
}

impl PartialEq for HeaderSet {
    fn eq(&self, other: &HeaderSet) -> (r: bool) {
        proof {
            use_type_invariant(self);
            use_type_invariant(other);
        }
        entries_within(&self.entries, &other.entries) && entries_within(
            &other.entries,
            &self.entries,
        )
    }
}

impl PartialEqSpecImpl for HeaderSet {
    open spec fn obeys_eq_spec() -> bool {
        true
    }

    open spec fn eq_spec(&self, other: &HeaderSet) -> bool {
        same_headers(self@, other@)
    }
}

impl Eq for HeaderSet {

}

impl View for HeaderSet {
    type V = Seq<HeaderView>;

    closed spec fn view(&self) -> Seq<HeaderView> {
        entries_view(self.entries@)
    }
}

impl HeaderSet {
    #[verifier::type_invariant]
    closed spec fn well_formed(&self) -> bool {
        headers_valid(self@)
    }

    /// The empty set.
    pub fn new() -> (headers: HeaderSet)
        ensures
            headers@ == Seq::<HeaderView>::empty(),
            headers_valid(headers@),
    {
        let headers = HeaderSet { entries: Vec::new() };
        assert(headers@ =~= Seq::<HeaderView>::empty());
        headers
    }

    /// The number of headers.
    pub fn len(&self) -> (n: usize)
        ensures
            n == self@.len(),
            headers_valid(self@),
    {
        proof {
            use_type_invariant(self);
        }
        self.entries.len()
    }

    /// Whether the set has no header.
    pub fn is_empty(&self) -> (empty: bool)
        ensures
            empty == (self@.len() == 0),
    {
        self.entries.len() == 0
    }

    /// The key of the header at `index`.
    pub fn key_at(&self, index: usize) -> (key: &HeaderKey)
        requires
            index < self@.len(),
        ensures
            key@ == self@[index as int].key,
    {
        &self.entries[index].0
    }

    /// The value of the header at `index`.
    pub fn value_at(&self, index: usize) -> (value: &HeaderValue)
        requires
            index < self@.len(),
        ensures
            value@ == self@[index as int].value,
    {
        &self.entries[index].1
    }

    /// The place of the header with the key `key`, if there is one.
    pub fn position(&self, key: &HeaderKey) -> (r: Option<usize>)
        ensures
            match r {
                Some(i) => i < self@.len() && self@[i as int].key == key@,
                None => !has_key(self@, key@),
            },
    {
        find_key(&self.entries, key)
    }

    /// The value under the key `key`, if there is one.
    pub fn get(&self, key: &HeaderKey) -> (r: Option<&HeaderValue>)
        ensures
            match r {
                Some(value) => exists|i: int|
                    0 <= i < self@.len() && (#[trigger] self@[i]).key == key@ && self@[i].value
                        == value@,
                None => !has_key(self@, key@),
            },
    {
        match self.position(key) {
            Some(i) => {
                assert(self@[i as int].key == key@);
                Some(&self.entries[i].1)
            },
            None => None,
        }
    }

    /// Puts `value` under `key`: in the place of the value that the key had,
    /// or as a new header at the end.
    pub fn insert(&mut self, key: HeaderKey, value: HeaderValue)
        ensures
            final(self)@ == insert_header(old(self)@, HeaderView { key: key@, value: value@ }),
            headers_valid(final(self)@),
    {
        proof {
            use_type_invariant(&*self);
            use_type_invariant(&key);
            use_type_invariant(&value);
        }
        broadcast use vstd::utf8::encode_utf8_valid_utf8;

        let ghost before = self@;
        let ghost header = HeaderView { key: key@, value: value@ };
        let mut entries: Vec<(HeaderKey, HeaderValue)> = Vec::new();
        assert(entries_view(entries@) =~= Seq::<HeaderView>::empty());
        core::mem::swap(&mut self.entries, &mut entries);
        match find_key(&entries, &key) {
            Some(i) => {
                entries[i] = (key, value);
                assert(has_key(before, header.key)) by {
                    assert(before[i as int].key == header.key);
                }
                assert(entries_view(entries@) =~= insert_header(before, header));
            },
            None => {
                entries.push((key, value));
                assert(entries_view(entries@) =~= insert_header(before, header));
            },
        }
        self.entries = entries;
    }

    /// The wire form: the headers back to back, each as key length, key,
    /// kind, value length, value.
    pub fn as_bytes(&self) -> (bytes: Bytes)
        ensures
            bytes_view(bytes) == headers_wire(self@),
            headers_valid(self@),
    {
        proof {
            use_type_invariant(self);
        }
        let mut bytes = bytes_mut_with_capacity(0);
        let mut i: usize = 0;
        proof {
            assert(self@.take(0) =~= Seq::<HeaderView>::empty());
        }
        while i < self.entries.len()
            invariant
                i <= self.entries@.len(),
                self@.len() == self.entries@.len(),
                headers_valid(self@),
                bytes_mut_view(bytes) == headers_wire(self@.take(i as int)),
            decreases self.entries@.len() - i,
        {
            let key = self.entries[i].0.as_bytes();
            let value = &self.entries[i].1;
            let value_bytes = value.as_bytes();
            let ghost header = self@[i as int];
            proof {
                assert(header.is_valid());
                lemma_headers_wire_push(self@.take(i as int), header);
                assert(self@.take(i as int).push(header) =~= self@.take(i + 1));
            }
            put_u32_le(&mut bytes, key.len() as u32);
            put_slice(&mut bytes, key);
            put_u8(&mut bytes, value.kind().as_code());
            put_u32_le(&mut bytes, value_bytes.len() as u32);
            put_slice(&mut bytes, value_bytes);
            assert(bytes_mut_view(bytes) =~= headers_wire(self@.take(i as int)) + header.wire());
            i = i + 1;
        }
        assert(self@.take(i as int) =~= self@);
        freeze(bytes)
    }

    /// The number of bytes of the wire form.
    pub fn get_size_bytes(&self) -> (size: u32)
        requires
            headers_size(self@) <= u32::MAX,
        ensures
            size == headers_size(self@),
    {
        proof {
            use_type_invariant(self);
        }
        let mut size: u32 = 0;
        let mut i: usize = 0;
        proof {
            assert(self@.take(0) =~= Seq::<HeaderView>::empty());
        }
        while i < self.entries.len()
            invariant
                i <= self.entries@.len(),
                self@.len() == self.entries@.len(),
                headers_valid(self@),
                headers_size(self@) <= u32::MAX,
                size == headers_size(self@.take(i as int)),
            decreases self.entries@.len() - i,
        {
            let key = self.entries[i].0.as_bytes();
            let value = self.entries[i].1.as_bytes();
            proof {
                let header = self@[i as int];
                assert(header.is_valid());
                assert(self@.take(i as int).push(header) =~= self@.take(i + 1));
                lemma_headers_size_concat(self@.take(i as int), seq![header]);
                assert(self@.take(i as int) + seq![header] =~= self@.take(i + 1));
                lemma_headers_size_one(header);
                lemma_headers_size_concat(self@.take(i + 1), self@.skip(i + 1));
                assert(self@.take(i + 1) + self@.skip(i + 1) =~= self@);
            }
            size = size + (9 + key.len() + value.len()) as u32;
            i = i + 1;
        }
        assert(self@.take(i as int) =~= self@);
        size
    }

    /// Parses a header set from all of `bytes`; see `parse_headers`.
    pub fn from_bytes(bytes: Bytes) -> (r: Result<HeaderSet, IggyError>)
        ensures
            match r {
                Ok(headers) => {
                    &&& parse_headers(bytes_view(bytes)) == Ok::<Seq<HeaderView>, IggyError>(
                        headers@,
                    )
                    &&& headers_valid(headers@)
                },
                Err(e) => parse_headers(bytes_view(bytes)) == Err::<Seq<HeaderView>, IggyError>(e),
            },
    {
        HeaderSet::parse(bytes_as_slice(&bytes))
    }

    /// Parses a header set from all of `data`; see `parse_headers`.
    pub fn parse(data: &[u8]) -> (r: Result<HeaderSet, IggyError>)
        ensures
            match r {
                Ok(headers) => {
                    &&& parse_headers(data@) == Ok::<Seq<HeaderView>, IggyError>(headers@)
                    &&& headers_valid(headers@)
                    &&& data@.len() > 0 ==> headers@.len() > 0
                },
                Err(e) => parse_headers(data@) == Err::<Seq<HeaderView>, IggyError>(e),
            },
    {
        let mut headers = HeaderSet::new();
        let mut position: usize = 0;
        assert(data@.skip(0) =~= data@);
        while position < data.len()
            invariant
                position <= data@.len(),
                parse_headers(data@) == parse_headers_from(data@.skip(position as int), headers@),
                position > 0 ==> headers@.len() > 0,
                headers_valid(headers@),
            decreases data@.len() - position,
        {
            let ghost rest = data@.skip(position as int);
            match HeaderSet::parse_entry(data, position) {
                Err(e) => {
                    return Err(e);
                },
                Ok((key, value, size)) => {
                    headers.insert(key, value);
                    assert(rest.skip(size as int) =~= data@.skip(position + size));
                    position = position + size;
                },
            }
        }
        Ok(headers)
    }

    /// Parses the header that starts at `at`; see `parse_header`. Returns the
    /// key, the value and the number of bytes read.
    fn parse_entry(data: &[u8], at: usize) -> (r: Result<(HeaderKey, HeaderValue, usize), IggyError>)
        requires
            at < data@.len(),
        ensures
            match r {
                Ok((key, value, size)) => {
                    let header = HeaderView { key: key@, value: value@ };
                    &&& parse_header(data@.skip(at as int)) == Ok::<HeaderView, IggyError>(header)
                    &&& size == header.size()
                    &&& at + size <= data@.len()
                },
                Err(e) => parse_header(data@.skip(at as int)) == Err::<HeaderView, IggyError>(e),
            },
    {
        let ghost b = data@.skip(at as int);
        let remaining = data.len() - at;
        if remaining < 4 {
            return Err(IggyError::InvalidHeaderValue);
        }
        assert(b.subrange(0, 4) =~= data@.subrange(at as int, at + 4));
        let key_length = read_u32_le(data, at) as usize;
        if key_length == 0 || key_length > MAX_HEADER_KEY_LENGTH {
            return Err(IggyError::InvalidHeaderKey);
        }
        if remaining < 9 + key_length {
            return Err(IggyError::InvalidHeaderValue);
        }
        assert(b.subrange(4, 4 + key_length) =~= data@.subrange(at + 4, at + 4 + key_length));
        let key = match HeaderKey::from_bytes(slice_subrange(data, at + 4, at + 4 + key_length)) {
            Ok(key) => key,
            Err(e) => {
                return Err(e);
            },
        };
        assert(b[4 + key_length] == data@[at + 4 + key_length]);
        let kind = match HeaderKind::from_code(data[at + 4 + key_length]) {
            Ok(kind) => kind,
            Err(e) => {
                return Err(e);
            },
        };
        assert(b.subrange(5 + key_length, 9 + key_length) =~= data@.subrange(
            at + 5 + key_length,
            at + 9 + key_length,
        ));
        let value_length = read_u32_le(data, at + 5 + key_length) as usize;
        if !kind.accepts(value_length) {
            return Err(IggyError::InvalidHeaderValue);
        }
        if remaining - 9 - key_length < value_length {
            return Err(IggyError::InvalidHeaderValue);
        }
        let start = at + 9 + key_length;
        assert(b.subrange(9 + key_length, 9 + key_length + value_length) =~= data@.subrange(
            start as int,
            start + value_length,
        ));
        match HeaderValue::new(kind, slice_subrange(data, start, start + value_length)) {
            Ok(value) => Ok((key, value, 9 + key_length + value_length)),
            Err(e) => Err(e),
        }
    }
}

/// The wire form of a set with one more header at its end.
pub proof fn lemma_headers_wire_push(headers: Seq<HeaderView>, header: HeaderView)
    ensures
        headers_wire(headers.push(header)) == headers_wire(headers) + header.wire(),
    decreases headers.len(),
{
    if headers.len() == 0 {
        let one = headers.push(header);
        assert(one.drop_first() =~= Seq::<HeaderView>::empty());
        assert(headers_wire(one.drop_first()) =~= Seq::<u8>::empty());
        assert(one[0] == header);
        assert(headers_wire(one) =~= header.wire());
    } else {
        assert(headers.push(header).drop_first() =~= headers.drop_first().push(header));
        lemma_headers_wire_push(headers.drop_first(), header);
        assert(headers_wire(headers.push(header)) =~= headers_wire(headers) + header.wire());
    }
}

/// The size of a set of one header.
pub proof fn lemma_headers_size_one(header: HeaderView)
    ensures
        headers_size(seq![header]) == header.size(),
        headers_value_bytes(seq![header]) == header.value.value.len(),
{
    let one = seq![header];
    assert(one.drop_first() =~= Seq::<HeaderView>::empty());
    assert(headers_size(one.drop_first()) == 0);
    assert(headers_value_bytes(one.drop_first()) == 0);
}

/// Sizes add up over the parts of a set.
pub proof fn lemma_headers_size_concat(a: Seq<HeaderView>, b: Seq<HeaderView>)
    ensures
        headers_size(a + b) == headers_size(a) + headers_size(b),
        headers_value_bytes(a + b) == headers_value_bytes(a) + headers_value_bytes(b),
    decreases a.len(),
{
    if a.len() == 0 {
        assert(a + b =~= b);
    } else {
        assert((a + b).drop_first() =~= a.drop_first() + b);
        lemma_headers_size_concat(a.drop_first(), b);
    }
}

/// The wire form of a set has as many bytes as its size says.
pub proof fn lemma_headers_wire_len(headers: Seq<HeaderView>)
    ensures
        headers_wire(headers).len() == headers_size(headers),
    decreases headers.len(),
{
    if headers.len() > 0 {
        lemma_headers_wire_len(headers.drop_first());
        lemma_le_bytes_len(headers[0].key.len(), 4);
        lemma_le_bytes_len(headers[0].value.value.len(), 4);
    }
}

/// A code names the kind that it is the code of.
pub proof fn lemma_header_kind_code(kind: HeaderKind)
    ensures
        HeaderKind::of_code(kind.code()) == Some(kind),
{
}

/// A valid header that is written and read back is unchanged, whatever
/// follows it in the buffer.
pub proof fn lemma_header_round_trip(header: HeaderView, rest: Seq<u8>)
    requires
        header.is_valid(),
    ensures
        header.wire().len() == header.size(),
        parse_header(header.wire() + rest) == Ok::<HeaderView, IggyError>(header),
{
    let key_length = header.key.len() as int;
    let value_length = header.value.value.len() as int;
    let b = header.wire() + rest;
    lemma_pow256_values();
    lemma_le_value_of_bytes(key_length as nat, 4);
    lemma_le_value_of_bytes(value_length as nat, 4);
    lemma_header_kind_code(header.value.kind);
    assert(b.subrange(0, 4) =~= le_bytes(key_length as nat, 4));
    assert(b.subrange(4, 4 + key_length) =~= header.key);
    assert(b[4 + key_length] == header.value.kind.code());
    assert(b.subrange(5 + key_length, 9 + key_length) =~= le_bytes(value_length as nat, 4));
    assert(b.subrange(9 + key_length, 9 + key_length + value_length) =~= header.value.value);
}

/// A valid header set that is written and read back is unchanged, also on
/// top of headers `seen` that share no key with it.
pub proof fn lemma_headers_round_trip_from(headers: Seq<HeaderView>, seen: Seq<HeaderView>)
    requires
        headers_valid(headers),
        forall|i: int| 0 <= i < headers.len() ==> !has_key(seen, (#[trigger] headers[i]).key),
    ensures
        parse_headers_from(headers_wire(headers), seen) == Ok::<Seq<HeaderView>, IggyError>(
            seen + headers,
        ),
    decreases headers.len(),
{
    if headers.len() == 0 {
        assert(seen + headers =~= seen);
    } else {
        let first = headers[0];
        let tail = headers.drop_first();
        let b = headers_wire(headers);
        lemma_header_round_trip(first, headers_wire(tail));
        assert(b.skip(first.size() as int) =~= headers_wire(tail));
        assert(!has_key(seen, first.key));
        let next = seen.push(first);
        assert(insert_header(seen, first) == next);
        assert forall|i: int| 0 <= i < tail.len() implies !has_key(
            next,
            (#[trigger] tail[i]).key,
        ) by {
            assert(tail[i] == headers[i + 1]);
            assert(!has_key(seen, headers[i + 1].key));
            assert forall|j: int| 0 <= j < next.len() implies (#[trigger] next[j]).key
                != tail[i].key by {
                if j < seen.len() {
                    assert(next[j] == seen[j]);
                } else {
                    assert(next[j] == headers[0]);
                }
            }
        }
        assert(headers_valid(tail)) by {
            assert forall|i: int, j: int| 0 <= i < j < tail.len() implies (#[trigger] tail[i]).key
                != (#[trigger] tail[j]).key by {
                assert(tail[i] == headers[i + 1]);
                assert(tail[j] == headers[j + 1]);
            }
            assert forall|i: int| 0 <= i < tail.len() implies (#[trigger] tail[i]).is_valid() by {
                assert(tail[i] == headers[i + 1]);
            }
        }
        lemma_headers_round_trip_from(tail, next);
        assert(next + tail =~= seen + headers);
    }
}

/// A valid header set that is written and read back is unchanged.
pub proof fn lemma_headers_round_trip(headers: Seq<HeaderView>)
    requires
        headers_valid(headers),
    ensures
        headers_wire(headers).len() == headers_size(headers),
        parse_headers(headers_wire(headers)) == Ok::<Seq<HeaderView>, IggyError>(headers),
{
    lemma_headers_wire_len(headers);
    lemma_headers_round_trip_from(headers, Seq::empty());
    assert(Seq::<HeaderView>::empty() + headers =~= headers);
}

/// A valid header takes at most 264 bytes more than its value, and a valid
/// set at most 265 bytes for each of its value bytes.
pub proof fn lemma_headers_size_bound(headers: Seq<HeaderView>)
    requires
        forall|i: int| 0 <= i < headers.len() ==> (#[trigger] headers[i]).is_valid(),
    ensures
        headers_size(headers) <= 265 * headers_value_bytes(headers),
    decreases headers.len(),
{
    if headers.len() > 0 {
        let tail = headers.drop_first();
        assert(headers[0].is_valid());
        assert forall|i: int| 0 <= i < tail.len() implies (#[trigger] tail[i]).is_valid() by {
            assert(tail[i] == headers[i + 1]);
        }
        lemma_headers_size_bound(tail);
    }
}

/// A header that parses is valid, and the parser reads no more than there
/// is.
pub proof fn lemma_header_parse_sound(b: Seq<u8>)
    requires
        parse_header(b) is Ok,
    ensures
        parse_header(b)->Ok_0.is_valid(),
        9 < parse_header(b)->Ok_0.size() <= b.len(),
{
}

/// Putting a valid header into a valid set leaves a valid set that is not
/// empty.
pub proof fn lemma_insert_header_valid(headers: Seq<HeaderView>, header: HeaderView)
    requires
        headers_valid(headers),
        header.is_valid(),
    ensures
        headers_valid(insert_header(headers, header)),
        insert_header(headers, header).len() > 0,
{
    let next = insert_header(headers, header);
    if has_key(headers, header.key) {
        assert forall|i: int, j: int| 0 <= i < j < next.len() implies (#[trigger] next[i]).key
            != (#[trigger] next[j]).key by {
            assert(next[i].key == headers[i].key);
            assert(next[j].key == headers[j].key);
        }
        assert forall|i: int| 0 <= i < next.len() implies (#[trigger] next[i]).is_valid() by {
            assert(headers[i].is_valid());
        }
    } else {
        assert forall|i: int, j: int| 0 <= i < j < next.len() implies (#[trigger] next[i]).key
            != (#[trigger] next[j]).key by {
            assert(next[i] == headers[i]);
            if j < headers.len() {
                assert(next[j] == headers[j]);
            }
        }
        assert forall|i: int| 0 <= i < next.len() implies (#[trigger] next[i]).is_valid() by {
            if i < headers.len() {
                assert(next[i] == headers[i]);
            }
        }
    }
}

/// Header bytes that parse on top of a valid set give a valid set, and one
/// that is not empty unless there was nothing at all.
pub proof fn lemma_headers_parse_sound(b: Seq<u8>, seen: Seq<HeaderView>)
    requires
        headers_valid(seen),
        parse_headers_from(b, seen) is Ok,
    ensures
        headers_valid(parse_headers_from(b, seen)->Ok_0),
        b.len() > 0 || seen.len() > 0 ==> parse_headers_from(b, seen)->Ok_0.len() > 0,
    decreases b.len(),
{
    if b.len() > 0 {
        let header = parse_header(b)->Ok_0;
        lemma_header_parse_sound(b);
        lemma_insert_header_valid(seen, header);
        lemma_headers_parse_sound(b.skip(header.size() as int), insert_header(seen, header));
    }
}

} // verus!
