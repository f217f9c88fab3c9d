use crate::bytes::{
    le_bytes, le_encode, le_read, le_value, lemma_le_bytes_len, lemma_le_round_trip,
    lemma_le_value_bound, window,
};
use vstd::arithmetic::power::pow;
use vstd::layout::unsigned_int_max_values;
use vstd::prelude::*;

verus! {

/// A typed value as it sits in the target's memory. The two float variants hold the
/// IEEE-754 bit pattern of the number.
#[derive(Clone, Copy, Debug, PartialEq, Eq, Structural)]
pub enum ValueType {
    Int8(i8),
    Int16(i16),
    Int32(i32),
    Int64(i64),
    UInt8(u8),
    UInt16(u16),
    UInt32(u32),
    UInt64(u64),
    Float32(u32),
    Float64(u64),
    Size(usize),
    Pointer(usize),
    Bool(bool),
}

/// Bytes of an address-sized value on this machine.
pub open spec fn word_size() -> nat {
    vstd::layout::size_of::<usize>()
}

impl ValueType {
    /// Number of bytes a value of this variant occupies.
    pub open spec fn width(self) -> nat {
        match self {
            ValueType::Int8(_) | ValueType::UInt8(_) | ValueType::Bool(_) => 1,
            ValueType::Int16(_) | ValueType::UInt16(_) => 2,
            ValueType::Int32(_) | ValueType::UInt32(_) | ValueType::Float32(_) => 4,
            ValueType::Int64(_) | ValueType::UInt64(_) | ValueType::Float64(_) => 8,
            ValueType::Size(_) | ValueType::Pointer(_) => word_size(),
        }
    }

    /// The unsigned number whose little-endian bytes encode this value.
    pub open spec fn raw(self) -> nat {
        match self {
            ValueType::Int8(x) => x as u8 as nat,
            ValueType::Int16(x) => x as u16 as nat,
            ValueType::Int32(x) => x as u32 as nat,
            ValueType::Int64(x) => x as u64 as nat,
            ValueType::UInt8(x) => x as nat,
            ValueType::UInt16(x) => x as nat,
            ValueType::UInt32(x) => x as nat,
            ValueType::UInt64(x) => x as nat,
            ValueType::Float32(x) => x as nat,
            ValueType::Float64(x) => x as nat,
            ValueType::Size(x) => x as nat,
            ValueType::Pointer(x) => x as nat,
            ValueType::Bool(x) => if x { 1 } else { 0 },
        }
    }

    /// The value of this variant that the unsigned number `r` encodes.
    pub open spec fn with_raw(self, r: nat) -> ValueType {
        match self {
            ValueType::Int8(_) => ValueType::Int8(r as u8 as i8),
            ValueType::Int16(_) => ValueType::Int16(r as u16 as i16),
            ValueType::Int32(_) => ValueType::Int32(r as u32 as i32),
            ValueType::Int64(_) => ValueType::Int64(r as u64 as i64),
            ValueType::UInt8(_) => ValueType::UInt8(r as u8),
            ValueType::UInt16(_) => ValueType::UInt16(r as u16),
            ValueType::UInt32(_) => ValueType::UInt32(r as u32),
            ValueType::UInt64(_) => ValueType::UInt64(r as u64),
            ValueType::Float32(_) => ValueType::Float32(r as u32),
            ValueType::Float64(_) => ValueType::Float64(r as u64),
            ValueType::Size(_) => ValueType::Size(r as usize),
            ValueType::Pointer(_) => ValueType::Pointer(r as usize),
            ValueType::Bool(_) => ValueType::Bool(r != 0),
        }
    }

    /// The position of this value's variant in the declaration.
    pub open spec fn tag(self) -> nat {
        match self {
            ValueType::Int8(_) => 0,
            ValueType::Int16(_) => 1,
            ValueType::Int32(_) => 2,
            ValueType::Int64(_) => 3,
            ValueType::UInt8(_) => 4,
            ValueType::UInt16(_) => 5,
            ValueType::UInt32(_) => 6,
            ValueType::UInt64(_) => 7,
            ValueType::Float32(_) => 8,
            ValueType::Float64(_) => 9,
            ValueType::Size(_) => 10,
            ValueType::Pointer(_) => 11,
            ValueType::Bool(_) => 12,
        }
    }

    /// Both values are of the same variant.
    pub open spec fn same_tag(self, o: ValueType) -> bool {
        self.tag() == o.tag()
    }

    pub open spec fn is_float(self) -> bool {
        self is Float32 || self is Float64
    }

    /// The number an integer, address or boolean value stands for.
    pub open spec fn num(self) -> int {
        match self {
            ValueType::Int8(x) => x as int,
            ValueType::Int16(x) => x as int,
            ValueType::Int32(x) => x as int,
            ValueType::Int64(x) => x as int,
            ValueType::UInt8(x) => x as int,
            ValueType::UInt16(x) => x as int,
            ValueType::UInt32(x) => x as int,
            ValueType::UInt64(x) => x as int,
            ValueType::Size(x) => x as int,
            ValueType::Pointer(x) => x as int,
            ValueType::Bool(x) => if x { 1 } else { 0 },
            _ => 0,
        }
    }

    pub fn tag_of(v: &ValueType) -> (r: u8)
        ensures
            r == v.tag(),
    {
        match v {
            ValueType::Int8(_) => 0,
            ValueType::Int16(_) => 1,
            ValueType::Int32(_) => 2,
            ValueType::Int64(_) => 3,
            ValueType::UInt8(_) => 4,
            ValueType::UInt16(_) => 5,
            ValueType::UInt32(_) => 6,
            ValueType::UInt64(_) => 7,
            ValueType::Float32(_) => 8,
            ValueType::Float64(_) => 9,
            ValueType::Size(_) => 10,
            ValueType::Pointer(_) => 11,
            ValueType::Bool(_) => 12,
        }
    }

    /// The unsigned number whose little-endian bytes encode `v`.
    pub fn raw_of(v: &ValueType) -> (r: u64)
        ensures
            r as nat == v.raw(),
            v.raw() < pow(256, v.width()),
    {
        proof {
            lemma_raw_fits(*v);
        }
        match *v {
            ValueType::Int8(x) => x as u8 as u64,
            ValueType::Int16(x) => x as u16 as u64,
            ValueType::Int32(x) => x as u32 as u64,
            ValueType::Int64(x) => x as u64,
            ValueType::UInt8(x) => x as u64,
            ValueType::UInt16(x) => x as u64,
            ValueType::UInt32(x) => x as u64,
            ValueType::UInt64(x) => x,
            ValueType::Float32(x) => x as u64,
            ValueType::Float64(x) => x,
            ValueType::Size(x) => x as u64,
            ValueType::Pointer(x) => x as u64,
            ValueType::Bool(x) => if x {
                1
            } else {
                0
            },
        }
    }

    /// The bytes that encode this value.
    pub open spec fn encoded(self) -> Seq<u8> {
        le_bytes(self.raw(), self.width())
    }

    /// The value of `hint`'s variant that the first bytes of `b` encode; missing bytes
    /// read as zero.
    pub open spec fn decoded(b: Seq<u8>, hint: ValueType) -> ValueType {
        hint.with_raw(le_value(window(b, 0, hint.width())))
    }

    /// The name of this value's variant.
    pub open spec fn tag_name(self) -> Seq<char> {
        match self {
            ValueType::Int8(_) => "Int8"@,
            ValueType::Int16(_) => "Int16"@,
            ValueType::Int32(_) => "Int32"@,
            ValueType::Int64(_) => "Int64"@,
            ValueType::UInt8(_) => "UInt8"@,
            ValueType::UInt16(_) => "UInt16"@,
            ValueType::UInt32(_) => "UInt32"@,
            ValueType::UInt64(_) => "UInt64"@,
            ValueType::Float32(_) => "Float32"@,
            ValueType::Float64(_) => "Float64"@,
            ValueType::Size(_) => "Size"@,
            ValueType::Pointer(_) => "Pointer"@,
            ValueType::Bool(_) => "Bool"@,
        }
    }

    /// The variants a value read without an explicit type is also looked for as, the
    /// value's own variant first.
    pub open spec fn scan_list(self) -> Seq<ValueType> {
        match self {
            ValueType::Int8(_) => seq![
                ValueType::Int8(0),
                ValueType::Int16(0),
                ValueType::Int32(0),
            ],
            ValueType::Int16(_) => seq![
                ValueType::Int16(0),
                ValueType::Int8(0),
                ValueType::Int32(0),
            ],
            ValueType::Int32(_) => seq![
                ValueType::Int32(0),
                ValueType::Int64(0),
                ValueType::Int16(0),
            ],
            ValueType::Int64(_) => seq![ValueType::Int64(0), ValueType::Int32(0)],
            ValueType::UInt8(_) => seq![
                ValueType::UInt8(0),
                ValueType::UInt16(0),
                ValueType::UInt32(0),
            ],
            ValueType::UInt16(_) => seq![
                ValueType::UInt16(0),
                ValueType::UInt8(0),
                ValueType::UInt32(0),
            ],
            ValueType::UInt32(_) => seq![
                ValueType::UInt32(0),
                ValueType::UInt64(0),
                ValueType::UInt16(0),
            ],
            ValueType::UInt64(_) => seq![ValueType::UInt64(0), ValueType::UInt32(0)],
            ValueType::Float32(_) => seq![ValueType::Float32(0), ValueType::Float64(0)],
            ValueType::Float64(_) => seq![ValueType::Float64(0), ValueType::Float32(0)],
            ValueType::Size(_) => seq![
                ValueType::Size(0),
                ValueType::UInt64(0),
                ValueType::Int64(0),
            ],
            ValueType::Pointer(_) => seq![ValueType::Pointer(0), ValueType::UInt64(0)],
            ValueType::Bool(_) => seq![ValueType::Bool(false), ValueType::UInt8(0)],
        }
    }

    pub fn type_size(h: &ValueType) -> (r: usize)
        ensures
            r == h.width(),
            1 <= r <= 8,
    {
        proof {
            broadcast use vstd::layout::layout_of_primitives;
        }
        match h {
            ValueType::Int8(_) | ValueType::UInt8(_) | ValueType::Bool(_) => 1,
            ValueType::Int16(_) | ValueType::UInt16(_) => 2,
            ValueType::Int32(_) | ValueType::UInt32(_) | ValueType::Float32(_) => 4,
            ValueType::Int64(_) | ValueType::UInt64(_) | ValueType::Float64(_) => 8,
            ValueType::Size(_) | ValueType::Pointer(_) => core::mem::size_of::<usize>(),
        }
    }

    pub fn to_bytes(&self) -> (r: Vec<u8>)
        ensures
            r@ == self.encoded(),
            r@.len() == self.width(),
    {
        let n = ValueType::type_size(self);
        let raw = ValueType::raw_of(self);
        proof {
            lemma_le_bytes_len(self.raw(), self.width());
        }
        le_encode(raw, n)
    }

    /// Reads a value of `hint`'s variant from the first bytes of `buf` at `start`.
    pub fn decode_at(buf: &Vec<u8>, start: usize, hint: &ValueType) -> (r: ValueType)
        requires
            start <= buf@.len(),
        ensures
            r == ValueType::decoded(buf@.subrange(start as int, buf@.len() as int), *hint),
    {
        let n = ValueType::type_size(hint);
        let raw = le_read(buf, start, n);
        proof {
            let rest = buf@.subrange(start as int, buf@.len() as int);
            assert(window(buf@, start as int, n as nat) =~= window(rest, 0, n as nat));
            lemma_le_value_bound(window(buf@, start as int, n as nat));
        }
        ValueType::from_raw(raw, hint)
    }

    pub(crate) fn from_raw(raw: u64, hint: &ValueType) -> (r: ValueType)
        requires
            raw < pow(256, hint.width()),
        ensures
            r == hint.with_raw(raw as nat),
    {
        match hint {
            ValueType::Int8(_) => ValueType::Int8(raw as u8 as i8),
            ValueType::Int16(_) => ValueType::Int16(raw as u16 as i16),
            ValueType::Int32(_) => ValueType::Int32(raw as u32 as i32),
            ValueType::Int64(_) => ValueType::Int64(raw as i64),
            ValueType::UInt8(_) => ValueType::UInt8(raw as u8),
            ValueType::UInt16(_) => ValueType::UInt16(raw as u16),
            ValueType::UInt32(_) => ValueType::UInt32(raw as u32),
            ValueType::UInt64(_) => ValueType::UInt64(raw),
            ValueType::Float32(_) => ValueType::Float32(raw as u32),
            ValueType::Float64(_) => ValueType::Float64(raw),
            ValueType::Size(_) => ValueType::Size(raw as usize),
            ValueType::Pointer(_) => ValueType::Pointer(raw as usize),
            ValueType::Bool(_) => ValueType::Bool(raw != 0),
        }
    }

    pub fn from_bytes(bytes: Vec<u8>, hint: ValueType) -> (r: ValueType)
        ensures
            r == ValueType::decoded(bytes@, hint),
    {
        let r = ValueType::decode_at(&bytes, 0, &hint);
        proof {
            assert(bytes@.subrange(0, bytes@.len() as int) =~= bytes@);
        }
        r
    }

    pub fn scan_types(v: &ValueType) -> (r: Vec<ValueType>)
        ensures
            r@ == v.scan_list(),
    {
        match v {
            ValueType::Int8(_) => vec![
                ValueType::Int8(0),
                ValueType::Int16(0),
                ValueType::Int32(0),
            ],
            ValueType::Int16(_) => vec![
                ValueType::Int16(0),
                ValueType::Int8(0),
                ValueType::Int32(0),
            ],
            ValueType::Int32(_) => vec![
                ValueType::Int32(0),
                ValueType::Int64(0),
                ValueType::Int16(0),
            ],
            ValueType::Int64(_) => vec![ValueType::Int64(0), ValueType::Int32(0)],
            ValueType::UInt8(_) => vec![
                ValueType::UInt8(0),
                ValueType::UInt16(0),
                ValueType::UInt32(0),
            ],
            ValueType::UInt16(_) => vec![
                ValueType::UInt16(0),
                ValueType::UInt8(0),
                ValueType::UInt32(0),
            ],
            ValueType::UInt32(_) => vec![
                ValueType::UInt32(0),
                ValueType::UInt64(0),
                ValueType::UInt16(0),
            ],
            ValueType::UInt64(_) => vec![ValueType::UInt64(0), ValueType::UInt32(0)],
            ValueType::Float32(_) => vec![ValueType::Float32(0), ValueType::Float64(0)],
            ValueType::Float64(_) => vec![ValueType::Float64(0), ValueType::Float32(0)],
            ValueType::Size(_) => vec![
                ValueType::Size(0),
                ValueType::UInt64(0),
                ValueType::Int64(0),
            ],
            ValueType::Pointer(_) => vec![ValueType::Pointer(0), ValueType::UInt64(0)],
            ValueType::Bool(_) => vec![ValueType::Bool(false), ValueType::UInt8(0)],
        }
    }

    pub fn type_to_string(t: &ValueType) -> (r: &'static str)
        ensures
            r@ == t.tag_name(),
    {
        match t {
            ValueType::Int8(_) => "Int8",
            ValueType::Int16(_) => "Int16",
            ValueType::Int32(_) => "Int32",
            ValueType::Int64(_) => "Int64",
            ValueType::UInt8(_) => "UInt8",
            ValueType::UInt16(_) => "UInt16",
            ValueType::UInt32(_) => "UInt32",
            ValueType::UInt64(_) => "UInt64",
            ValueType::Float32(_) => "Float32",
            ValueType::Float64(_) => "Float64",
            ValueType::Size(_) => "Size",
            ValueType::Pointer(_) => "Pointer",
            ValueType::Bool(_) => "Bool",
        }
    }

    /// The variant whose name is `s`, holding zero.
    pub open spec fn tag_named(s: Seq<char>) -> Option<ValueType> {
        if s == "Int8"@ {
            Some(ValueType::Int8(0))
        } else if s == "Int16"@ {
            Some(ValueType::Int16(0))
        } else if s == "Int32"@ {
            Some(ValueType::Int32(0))
        } else if s == "Int64"@ {
            Some(ValueType::Int64(0))
        } else if s == "UInt8"@ {
            Some(ValueType::UInt8(0))
        } else if s == "UInt16"@ {
            Some(ValueType::UInt16(0))
        } else if s == "UInt32"@ {
            Some(ValueType::UInt32(0))
        } else if s == "UInt64"@ {
            Some(ValueType::UInt64(0))
        } else if s == "Float32"@ {
            Some(ValueType::Float32(0))
        } else if s == "Float64"@ {
            Some(ValueType::Float64(0))
        } else if s == "Size"@ {
            Some(ValueType::Size(0))
        } else if s == "Pointer"@ {
            Some(ValueType::Pointer(0))
        } else if s == "Bool"@ {
            Some(ValueType::Bool(false))
        } else {
            None
        }
    }

    pub fn string_to_type(s: &str) -> (r: Option<ValueType>)
        ensures
            r == ValueType::tag_named(s@),
    {
        if same_text(s, "Int8") {
            Some(ValueType::Int8(0))
        } else if same_text(s, "Int16") {
            Some(ValueType::Int16(0))
        } else if same_text(s, "Int32") {
            Some(ValueType::Int32(0))
        } else if same_text(s, "Int64") {
            Some(ValueType::Int64(0))
        } else if same_text(s, "UInt8") {
            Some(ValueType::UInt8(0))
        } else if same_text(s, "UInt16") {
            Some(ValueType::UInt16(0))
        } else if same_text(s, "UInt32") {
            Some(ValueType::UInt32(0))
        } else if same_text(s, "UInt64") {
            Some(ValueType::UInt64(0))
        } else if same_text(s, "Float32") {
            Some(ValueType::Float32(0))
        } else if same_text(s, "Float64") {
            Some(ValueType::Float64(0))
        } else if same_text(s, "Size") {
            Some(ValueType::Size(0))
        } else if same_text(s, "Pointer") {
            Some(ValueType::Pointer(0))
        } else if same_text(s, "Bool") {
            Some(ValueType::Bool(false))
        } else {
            None
        }
    }
}

/// Whether two strings hold the same characters.
pub fn same_text(a: &str, b: &str) -> (r: bool)
    ensures
        r == (a@ == b@),
{
    a.to_owned() == b.to_owned()
}

/// A value's encoding number fits in its width, which is one to eight bytes.
pub proof fn lemma_raw_fits(v: ValueType)
    ensures
        v.raw() < pow(256, v.width()),
        1 <= v.width() <= 8,
{
    broadcast use vstd::layout::layout_of_primitives;

    reveal_with_fuel(pow, 9);
    unsigned_int_max_values();
}

/// Decoding the bytes of a value as its own variant gives the value back, and a value
/// takes exactly as many bytes as its variant's width.
pub proof fn lemma_codec_round_trip(v: ValueType)
    ensures
        ValueType::decoded(v.encoded(), v) == v,
        v.encoded().len() == v.width(),
{
    lemma_raw_fits(v);
    lemma_le_bytes_len(v.raw(), v.width());
    assert(window(v.encoded(), 0, v.width()) =~= v.encoded());
    lemma_le_round_trip(v.raw(), v.width());
    match v {
        ValueType::Int8(x) => {
            assert(x as u8 as i8 == x) by (bit_vector);
        },
        ValueType::Int16(x) => {
            assert(x as u16 as i16 == x) by (bit_vector);
        },
        ValueType::Int32(x) => {
            assert(x as u32 as i32 == x) by (bit_vector);
        },
        ValueType::Int64(x) => {
            assert(x as u64 as i64 == x) by (bit_vector);
        },
        _ => {},
    }
}

} // verus!
