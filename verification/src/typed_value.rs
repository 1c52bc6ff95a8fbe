//! The typed-value codec: six wire types and their byte forms.
//!
//! Every fixed-width value travels as a little-endian two's-complement
//! integer of four or eight bytes; text travels as its UTF-8 bytes. A
//! floating-point value is held as its IEEE 754 bit pattern, which is also
//! what travels, so the codec never has to do floating-point arithmetic.

use crate::error::PayloadError;
use vstd::prelude::*;
use vstd::slice::slice_to_vec;
use vstd::string::*;
use vstd::utf8::*;

verus! {

/// The wire type of a state, as the manifest declares it.
#[derive(Debug, Clone, Copy, PartialEq, Eq, Structural)]
pub enum Type {
    Boolean,
    Integer32,
    Float,
    Double,
    String,
    Long,
}

/// A value together with its wire type.
///
/// `Float` and `Double` hold the IEEE 754 bit pattern of the number
/// (`f32::to_bits`, `f64::to_bits`).
#[derive(Debug)]
pub enum TypedValue {
    Boolean(bool),
    Integer32(i32),
    Float(u32),
    Double(u64),
    String(String),
    Long(i64),
}

/// What a [`TypedValue`] is, with its text as a sequence of characters.
pub enum Value {
    Boolean(bool),
    Integer32(i32),
    Float(u32),
    Double(u64),
    Text(Seq<char>),
    Long(i64),
}

/// The four bytes of a 32-bit pattern `v`, least significant first.
pub open spec fn le_bytes4(v: int) -> Seq<u8> {
    seq![
        (v % 0x100) as u8,
        (v / 0x100 % 0x100) as u8,
        (v / 0x1_0000 % 0x100) as u8,
        (v / 0x100_0000 % 0x100) as u8,
    ]
}

/// The eight bytes of a 64-bit pattern `v`, least significant first.
pub open spec fn le_bytes8(v: int) -> Seq<u8> {
    seq![
        (v % 0x100) as u8,
        (v / 0x100 % 0x100) as u8,
        (v / 0x1_0000 % 0x100) as u8,
        (v / 0x100_0000 % 0x100) as u8,
        (v / 0x1_0000_0000 % 0x100) as u8,
        (v / 0x100_0000_0000 % 0x100) as u8,
        (v / 0x1_0000_0000_0000 % 0x100) as u8,
        (v / 0x100_0000_0000_0000 % 0x100) as u8,
    ]
}

/// The unsigned number whose little-endian form is the first four bytes of `b`.
pub open spec fn le_value4(b: Seq<u8>) -> int {
    b[0] + b[1] * 0x100 + b[2] * 0x1_0000 + b[3] * 0x100_0000
}

/// The unsigned number whose little-endian form is the first eight bytes of `b`.
pub open spec fn le_value8(b: Seq<u8>) -> int {
    b[0] + b[1] * 0x100 + b[2] * 0x1_0000 + b[3] * 0x100_0000 + b[4] * 0x1_0000_0000 + b[5]
        * 0x100_0000_0000 + b[6] * 0x1_0000_0000_0000 + b[7] * 0x100_0000_0000_0000
}

/// The 32-bit two's-complement pattern of `v`.
pub open spec fn pattern32(v: int) -> int {
    if v < 0 {
        v + 0x1_0000_0000
    } else {
        v
    }
}

/// The 64-bit two's-complement pattern of `v`.
pub open spec fn pattern64(v: int) -> int {
    if v < 0 {
        v + 0x1_0000_0000_0000_0000
    } else {
        v
    }
}

/// The two's-complement reading of a 32-bit pattern.
pub open spec fn signed32(u: int) -> int {
    if u >= 0x8000_0000 {
        u - 0x1_0000_0000
    } else {
        u
    }
}

/// The two's-complement reading of a 64-bit pattern.
pub open spec fn signed64(u: int) -> int {
    if u >= 0x8000_0000_0000_0000 {
        u - 0x1_0000_0000_0000_0000
    } else {
        u
    }
}

impl Type {
    /// The number of payload bytes of a value of this type; `None` for text,
    /// whose length travels in the frame.
    pub open spec fn spec_width(self) -> Option<nat> {
        match self {
            Type::Boolean | Type::Integer32 | Type::Float => Some(4),
            Type::Double | Type::Long => Some(8),
            Type::String => None,
        }
    }

    /// The number of payload bytes of a value of this type; `None` for text.
    pub fn width(&self) -> (w: Option<usize>)
        ensures
            match w {
                Some(n) => self.spec_width() == Some(n as nat),
                None => self.spec_width() is None,
            },
    {
        match self {
            Type::Boolean | Type::Integer32 | Type::Float => Some(4),
            Type::Double | Type::Long => Some(8),
            Type::String => None,
        }
    }

    /// The type that a manifest tag stands for.
    pub open spec fn spec_from_tag(tag: int) -> Option<Type> {
        if tag == 0 {
            Some(Type::Boolean)
        } else if tag == 1 {
            Some(Type::Integer32)
        } else if tag == 2 {
            Some(Type::Float)
        } else if tag == 3 {
            Some(Type::Double)
        } else if tag == 4 {
            Some(Type::String)
        } else if tag == 5 {
            Some(Type::Long)
        } else {
            None
        }
    }

    /// The type that a manifest tag stands for; `None` for a tag outside `0..=5`.
    pub fn from_tag(tag: i32) -> (t: Option<Type>)
        ensures
            t == Type::spec_from_tag(tag as int),
    {
        match tag {
            0 => Some(Type::Boolean),
            1 => Some(Type::Integer32),
            2 => Some(Type::Float),
            3 => Some(Type::Double),
            4 => Some(Type::String),
            5 => Some(Type::Long),
            _ => None,
        }
    }
}

impl Value {
    /// The wire type of the value.
    pub open spec fn kind(self) -> Type {
        match self {
            Value::Boolean(_) => Type::Boolean,
            Value::Integer32(_) => Type::Integer32,
            Value::Float(_) => Type::Float,
            Value::Double(_) => Type::Double,
            Value::Text(_) => Type::String,
            Value::Long(_) => Type::Long,
        }
    }

    /// The bytes that carry the value.
    pub open spec fn encoding(self) -> Seq<u8> {
        match self {
            Value::Boolean(b) => le_bytes4(if b { 1 } else { 0 }),
            Value::Integer32(v) => le_bytes4(pattern32(v as int)),
            Value::Float(bits) => le_bytes4(bits as int),
            Value::Double(bits) => le_bytes8(bits as int),
            Value::Text(s) => encode_utf8(s),
            Value::Long(v) => le_bytes8(pattern64(v as int)),
        }
    }

    /// The value of type `kind` that `bytes` carry, or why they carry none.
    ///
    /// A boolean is true when its four bytes are not all zero.
    pub open spec fn decoding(kind: Type, bytes: Seq<u8>) -> Result<Value, PayloadError> {
        match kind {
            Type::String => if valid_utf8(bytes) {
                Ok(Value::Text(decode_utf8(bytes)))
            } else {
                Err(PayloadError::InvalidUtf8)
            },
            Type::Boolean => if bytes.len() == 4 {
                Ok(Value::Boolean(le_value4(bytes) != 0))
            } else {
                Err(PayloadError::WrongLength)
            },
            Type::Integer32 => if bytes.len() == 4 {
                Ok(Value::Integer32(signed32(le_value4(bytes)) as i32))
            } else {
                Err(PayloadError::WrongLength)
            },
            Type::Float => if bytes.len() == 4 {
                Ok(Value::Float(le_value4(bytes) as u32))
            } else {
                Err(PayloadError::WrongLength)
            },
            Type::Double => if bytes.len() == 8 {
                Ok(Value::Double(le_value8(bytes) as u64))
            } else {
                Err(PayloadError::WrongLength)
            },
            Type::Long => if bytes.len() == 8 {
                Ok(Value::Long(signed64(le_value8(bytes)) as i64))
            } else {
                Err(PayloadError::WrongLength)
            },
        }
    }
}

impl View for TypedValue {
    type V = Value;

    open spec fn view(&self) -> Value {
        match self {
            TypedValue::Boolean(b) => Value::Boolean(*b),
            TypedValue::Integer32(v) => Value::Integer32(*v),
            TypedValue::Float(bits) => Value::Float(*bits),
            TypedValue::Double(bits) => Value::Double(*bits),
            TypedValue::String(s) => Value::Text(s@),
            TypedValue::Long(v) => Value::Long(*v),
        }
    }
}

impl Clone for TypedValue {
    fn clone(&self) -> (copy: Self)
        ensures
            copy == *self,
    {
        match self {
            TypedValue::Boolean(b) => TypedValue::Boolean(*b),
            TypedValue::Integer32(v) => TypedValue::Integer32(*v),
            TypedValue::Float(bits) => TypedValue::Float(*bits),
            TypedValue::Double(bits) => TypedValue::Double(*bits),
            TypedValue::String(s) => TypedValue::String(s.clone()),
            TypedValue::Long(v) => TypedValue::Long(*v),
        }
    }
}

impl TypedValue {
    /// The bytes that carry the value on the wire: four or eight little-endian
    /// bytes for a number or a boolean, the UTF-8 bytes for text.
    pub fn to_bytes_vec(&self) -> (bytes: Vec<u8>)
        ensures
            bytes@ == self@.encoding(),
    {
        match self {
            TypedValue::Boolean(val) => u32_le_bytes(if *val { 1 } else { 0 }),
            TypedValue::Integer32(val) => i32_le_bytes(*val),
            TypedValue::Float(val) => u32_le_bytes(*val),
            TypedValue::Double(val) => u64_le_bytes(*val),
            TypedValue::String(val) => val.as_str().as_bytes_vec(),
            TypedValue::Long(val) => i64_le_bytes(*val),
        }
    }

    /// The value of wire type `kind` that `bytes` carry.
    ///
    /// Fails with `WrongLength` when a fixed-width type is given another
    /// number of bytes than its width, and with `InvalidUtf8` when text is
    /// not UTF-8.
    pub fn from_bytes(kind: Type, bytes: &[u8]) -> (value: Result<TypedValue, PayloadError>)
        ensures
            match value {
                Ok(v) => Value::decoding(kind, bytes@) == Ok::<Value, PayloadError>(v@),
                Err(e) => Value::decoding(kind, bytes@) == Err::<Value, PayloadError>(e),
            },
    {
        match kind {
            Type::String => match string_from_utf8(slice_to_vec(bytes)) {
                Some(text) => Ok(TypedValue::String(text)),
                None => Err(PayloadError::InvalidUtf8),
            },
            Type::Boolean => if bytes.len() == 4 {
                Ok(TypedValue::Boolean(read_bool(bytes)))
            } else {
                Err(PayloadError::WrongLength)
            },
            Type::Integer32 => if bytes.len() == 4 {
                Ok(TypedValue::Integer32(read_le_i32(bytes)))
            } else {
                Err(PayloadError::WrongLength)
            },
            Type::Float => if bytes.len() == 4 {
                Ok(TypedValue::Float(read_le_f32(bytes)))
            } else {
                Err(PayloadError::WrongLength)
            },
            Type::Double => if bytes.len() == 8 {
                Ok(TypedValue::Double(read_le_f64(bytes)))
            } else {
                Err(PayloadError::WrongLength)
            },
            Type::Long => if bytes.len() == 8 {
                Ok(TypedValue::Long(read_le_i64(bytes)))
            } else {
                Err(PayloadError::WrongLength)
            },
        }
    }
}

/// `String::from_utf8`: the text that `bytes` spell where they are valid
/// UTF-8, and nothing where they are not.
#[verifier::external_body]
pub(crate) fn string_from_utf8(bytes: Vec<u8>) -> (text: Option<String>)
    ensures
        match text {
            Some(s) => valid_utf8(bytes@) && s@ == decode_utf8(bytes@),
            None => !valid_utf8(bytes@),
        },
{
    match String::from_utf8(bytes) {
        Ok(s) => Some(s),
        Err(_) => None,
    }
}

/// Reading back the four bytes of a 32-bit pattern gives the pattern.
pub proof fn lemma_le_value4_of_bytes(u: int)
    requires
        0 <= u < 0x1_0000_0000,
    ensures
        le_bytes4(u).len() == 4,
        le_value4(le_bytes4(u)) == u,
{
}

/// Reading back the eight bytes of a 64-bit pattern gives the pattern.
pub proof fn lemma_le_value8_of_bytes(u: int)
    requires
        0 <= u < 0x1_0000_0000_0000_0000,
    ensures
        le_bytes8(u).len() == 8,
        le_value8(le_bytes8(u)) == u,
{
    let q1 = u / 0x100;
    let q2 = q1 / 0x100;
    let q3 = q2 / 0x100;
    let q4 = q3 / 0x100;
    let q5 = q4 / 0x100;
    let q6 = q5 / 0x100;
    let q7 = q6 / 0x100;
    assert(u / 0x1_0000 == q2);
    assert(u / 0x100_0000 == q3);
    assert(u / 0x1_0000_0000 == q4);
    assert(u / 0x100_0000_0000 == q5);
    assert(u / 0x1_0000_0000_0000 == q6);
    assert(u / 0x100_0000_0000_0000 == q7);
    assert(q7 < 0x100);
    let b = le_bytes8(u);
    assert(b[0] == u % 0x100 && b[1] == q1 % 0x100 && b[2] == q2 % 0x100 && b[3] == q3 % 0x100);
    assert(b[4] == q4 % 0x100 && b[5] == q5 % 0x100 && b[6] == q6 % 0x100 && b[7] == q7);
}

/// Encoding a value and decoding the bytes under the value's own wire type
/// gives the value back, for each of the six types and for every text.
pub proof fn lemma_decoding_inverts_encoding(v: Value)
    ensures
        Value::decoding(v.kind(), v.encoding()) == Ok::<Value, PayloadError>(v),
{
    match v {
        Value::Boolean(b) => {
            lemma_le_value4_of_bytes(if b { 1 } else { 0 });
        },
        Value::Integer32(x) => {
            lemma_le_value4_of_bytes(pattern32(x as int));
        },
        Value::Float(bits) => {
            lemma_le_value4_of_bytes(bits as int);
        },
        Value::Double(bits) => {
            lemma_le_value8_of_bytes(bits as int);
        },
        Value::Text(s) => {
            encode_utf8_valid_utf8(s);
            encode_utf8_decode_utf8(s);
        },
        Value::Long(x) => {
            lemma_le_value8_of_bytes(pattern64(x as int));
        },
    }
}

/// The little-endian bytes of a 32-bit pattern.
pub fn u32_le_bytes(u: u32) -> (bytes: Vec<u8>)
    ensures
        bytes@ == le_bytes4(u as int),
{
    let mut bytes: Vec<u8> = Vec::with_capacity(4);
    bytes.push((u % 0x100) as u8);
    bytes.push((u / 0x100 % 0x100) as u8);
    bytes.push((u / 0x1_0000 % 0x100) as u8);
    bytes.push((u / 0x100_0000 % 0x100) as u8);
    assert(bytes@ =~= le_bytes4(u as int));
    bytes
}

/// The little-endian bytes of a 64-bit pattern.
pub fn u64_le_bytes(u: u64) -> (bytes: Vec<u8>)
    ensures
        bytes@ == le_bytes8(u as int),
{
    let mut bytes: Vec<u8> = Vec::with_capacity(8);
    bytes.push((u % 0x100) as u8);
    bytes.push((u / 0x100 % 0x100) as u8);
    bytes.push((u / 0x1_0000 % 0x100) as u8);
    bytes.push((u / 0x100_0000 % 0x100) as u8);
    bytes.push((u / 0x1_0000_0000 % 0x100) as u8);
    bytes.push((u / 0x100_0000_0000 % 0x100) as u8);
    bytes.push((u / 0x1_0000_0000_0000 % 0x100) as u8);
    bytes.push((u / 0x100_0000_0000_0000 % 0x100) as u8);
    assert(bytes@ =~= le_bytes8(u as int));
    bytes
}

/// The little-endian two's-complement bytes of a 32-bit integer.
pub fn i32_le_bytes(v: i32) -> (bytes: Vec<u8>)
    ensures
        bytes@ == le_bytes4(pattern32(v as int)),
{
    let pattern: u32 = if v >= 0 {
        v as u32
    } else {
        ((v + 0x7fff_ffff + 1) as u32) + 0x8000_0000
    };
    u32_le_bytes(pattern)
}

/// The little-endian two's-complement bytes of a 64-bit integer.
pub fn i64_le_bytes(v: i64) -> (bytes: Vec<u8>)
    ensures
        bytes@ == le_bytes8(pattern64(v as int)),
{
    let pattern: u64 = if v >= 0 {
        v as u64
    } else {
        ((v + 0x7fff_ffff_ffff_ffff + 1) as u64) + 0x8000_0000_0000_0000
    };
    u64_le_bytes(pattern)
}

/// Reads the 32-bit pattern that the first four bytes carry.
pub fn read_le_f32(input: &[u8]) -> (bits: u32)
    requires
        input@.len() >= 4,
    ensures
        bits as int == le_value4(input@),
{
    let b0: u32 = input[0] as u32;
    let b1: u32 = input[1] as u32;
    let b2: u32 = input[2] as u32;
    let b3: u32 = input[3] as u32;
    b0 + b1 * 0x100 + b2 * 0x1_0000 + b3 * 0x100_0000
}

/// Reads the 64-bit pattern that the first eight bytes carry.
pub fn read_le_f64(input: &[u8]) -> (bits: u64)
    requires
        input@.len() >= 8,
    ensures
        bits as int == le_value8(input@),
{
    let b0: u64 = input[0] as u64;
    let b1: u64 = input[1] as u64;
    let b2: u64 = input[2] as u64;
    let b3: u64 = input[3] as u64;
    let b4: u64 = input[4] as u64;
    let b5: u64 = input[5] as u64;
    let b6: u64 = input[6] as u64;
    let b7: u64 = input[7] as u64;
    b0 + b1 * 0x100 + b2 * 0x1_0000 + b3 * 0x100_0000 + b4 * 0x1_0000_0000 + b5
        * 0x100_0000_0000 + b6 * 0x1_0000_0000_0000 + b7 * 0x100_0000_0000_0000
}

/// Reads the little-endian 32-bit integer that the first four bytes carry.
pub fn read_le_i32(input: &[u8]) -> (v: i32)
    requires
        input@.len() >= 4,
    ensures
        v as int == signed32(le_value4(input@)),
{
    let pattern = read_le_f32(input);
    if pattern >= 0x8000_0000 {
        ((pattern - 0x8000_0000) as i32) - 0x7fff_ffff - 1
    } else {
        pattern as i32
    }
}

/// Reads the little-endian 64-bit integer that the first eight bytes carry.
pub fn read_le_i64(input: &[u8]) -> (v: i64)
    requires
        input@.len() >= 8,
    ensures
        v as int == signed64(le_value8(input@)),
{
    let pattern = read_le_f64(input);
    if pattern >= 0x8000_0000_0000_0000 {
        ((pattern - 0x8000_0000_0000_0000) as i64) - 0x7fff_ffff_ffff_ffff - 1
    } else {
        pattern as i64
    }
}

/// Reads the boolean that the first four bytes carry: true unless all are zero.
pub fn read_bool(input: &[u8]) -> (b: bool)
    requires
        input@.len() >= 4,
    ensures
        b == (le_value4(input@) != 0),
{
    read_le_f32(input) != 0
}

} // verus!
