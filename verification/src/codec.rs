//! The self-describing binary encoding for typed values.
//!
//! A serialized value ("atom") is a fixed header — a type tag and the byte
//! length of the payload, both little-endian 32-bit words — followed by a
//! type-specific payload.  Scalars are fixed-width little-endian words; a
//! byte-string payload is the bytes verbatim; a homogeneous vector's payload
//! begins with the element type tag followed by the concatenated fixed-width
//! element encodings.  Floating-point values travel as their raw bit
//! patterns, so the codec itself works on integer words only.

use vstd::bytes::*;
use vstd::prelude::*;

verus! {

/// The mathematical reading of a decoded value.
#[verifier::ext_equal]
pub enum AtomData {
    Int32(i32),
    Int64(i64),
    /// The raw bit pattern of a 32-bit floating-point number.
    Float32Bits(u32),
    /// The raw bit pattern of a 64-bit floating-point number.
    Float64Bits(u64),
    BoolVal(bool),
    /// A byte-string payload: strings, paths and opaque chunks.
    Bytes(Seq<u8>),
    VectorInt32 { elem_tag: u32, elems: Seq<i32> },
    VectorInt64 { elem_tag: u32, elems: Seq<i64> },
    VectorFloat32 { elem_tag: u32, elems: Seq<u32> },
    VectorFloat64 { elem_tag: u32, elems: Seq<u64> },
    VectorBool { elem_tag: u32, elems: Seq<bool> },
}

/// A typed value to be serialized, or the result of decoding one.
#[derive(Clone, Debug, PartialEq, Eq)]
pub enum AtomValue {
    Int32(i32),
    Int64(i64),
    /// The raw bit pattern of a 32-bit floating-point number.
    Float32Bits(u32),
    /// The raw bit pattern of a 64-bit floating-point number.
    Float64Bits(u64),
    BoolVal(bool),
    /// A byte-string payload: strings, paths and opaque chunks.
    Bytes(Vec<u8>),
    VectorInt32 { elem_tag: u32, elems: Vec<i32> },
    VectorInt64 { elem_tag: u32, elems: Vec<i64> },
    VectorFloat32 { elem_tag: u32, elems: Vec<u32> },
    VectorFloat64 { elem_tag: u32, elems: Vec<u64> },
    VectorBool { elem_tag: u32, elems: Vec<bool> },
}

impl View for AtomValue {
    type V = AtomData;

    open spec fn view(&self) -> AtomData {
        match self {
            AtomValue::Int32(v) => AtomData::Int32(*v),
            AtomValue::Int64(v) => AtomData::Int64(*v),
            AtomValue::Float32Bits(v) => AtomData::Float32Bits(*v),
            AtomValue::Float64Bits(v) => AtomData::Float64Bits(*v),
            AtomValue::BoolVal(v) => AtomData::BoolVal(*v),
            AtomValue::Bytes(b) => AtomData::Bytes(b@),
            AtomValue::VectorInt32 { elem_tag, elems } => AtomData::VectorInt32 {
                elem_tag: *elem_tag,
                elems: elems@,
            },
            AtomValue::VectorInt64 { elem_tag, elems } => AtomData::VectorInt64 {
                elem_tag: *elem_tag,
                elems: elems@,
            },
            AtomValue::VectorFloat32 { elem_tag, elems } => AtomData::VectorFloat32 {
                elem_tag: *elem_tag,
                elems: elems@,
            },
            AtomValue::VectorFloat64 { elem_tag, elems } => AtomData::VectorFloat64 {
                elem_tag: *elem_tag,
                elems: elems@,
            },
            AtomValue::VectorBool { elem_tag, elems } => AtomData::VectorBool {
                elem_tag: *elem_tag,
                elems: elems@,
            },
        }
    }
}

/// The payload shape a reader expects; vector kinds carry the expected
/// element type tag as the auxiliary parameter of the read.
#[derive(Clone, Copy, Debug, PartialEq, Eq, Structural)]
pub enum AtomKind {
    Int32,
    Int64,
    Float32,
    Float64,
    Bool,
    Bytes,
    VectorInt32 { elem_tag: u32 },
    VectorInt64 { elem_tag: u32 },
    VectorFloat32 { elem_tag: u32 },
    VectorFloat64 { elem_tag: u32 },
    VectorBool { elem_tag: u32 },
}

/// The reading of an optional decoded value.
pub open spec fn opt_data(r: Option<AtomValue>) -> Option<AtomData> {
    match r {
        Option::Some(v) => Option::Some(v@),
        Option::None => Option::None,
    }
}

// ---------------------------------------------------------------------------
// Payload encoding, at the specification level
// ---------------------------------------------------------------------------

/// The four little-endian bytes of a 32-bit signed word.
pub open spec fn spec_i32_le(v: i32) -> Seq<u8> {
    spec_u32_to_le_bytes(v as u32)
}

/// The eight little-endian bytes of a 64-bit signed word.
pub open spec fn spec_i64_le(v: i64) -> Seq<u8> {
    spec_u64_to_le_bytes(v as u64)
}

/// The 32-bit word a truth value is encoded as.
pub open spec fn spec_bool_word(b: bool) -> u32 {
    if b {
        1
    } else {
        0
    }
}

/// The concatenated encodings of a sequence of 32-bit signed words.
pub open spec fn spec_concat_i32(vs: Seq<i32>) -> Seq<u8>
    decreases vs.len(),
{
    if vs.len() == 0 {
        Seq::empty()
    } else {
        spec_i32_le(vs[0]) + spec_concat_i32(vs.skip(1))
    }
}

/// The concatenated encodings of a sequence of 32-bit unsigned words.
pub open spec fn spec_concat_u32(vs: Seq<u32>) -> Seq<u8>
    decreases vs.len(),
{
    if vs.len() == 0 {
        Seq::empty()
    } else {
        spec_u32_to_le_bytes(vs[0]) + spec_concat_u32(vs.skip(1))
    }
}

/// The concatenated encodings of a sequence of 64-bit signed words.
pub open spec fn spec_concat_i64(vs: Seq<i64>) -> Seq<u8>
    decreases vs.len(),
{
    if vs.len() == 0 {
        Seq::empty()
    } else {
        spec_i64_le(vs[0]) + spec_concat_i64(vs.skip(1))
    }
}

/// The concatenated encodings of a sequence of 64-bit unsigned words.
pub open spec fn spec_concat_u64(vs: Seq<u64>) -> Seq<u8>
    decreases vs.len(),
{
    if vs.len() == 0 {
        Seq::empty()
    } else {
        spec_u64_to_le_bytes(vs[0]) + spec_concat_u64(vs.skip(1))
    }
}

/// The concatenated encodings of a sequence of truth values, one 32-bit
/// word each.
pub open spec fn spec_concat_bool(vs: Seq<bool>) -> Seq<u8>
    decreases vs.len(),
{
    if vs.len() == 0 {
        Seq::empty()
    } else {
        spec_u32_to_le_bytes(spec_bool_word(vs[0])) + spec_concat_bool(vs.skip(1))
    }
}

/// The payload bytes of a value: everything after the atom header.
pub open spec fn spec_payload(d: AtomData) -> Seq<u8> {
    match d {
        AtomData::Int32(v) => spec_i32_le(v),
        AtomData::Int64(v) => spec_i64_le(v),
        AtomData::Float32Bits(v) => spec_u32_to_le_bytes(v),
        AtomData::Float64Bits(v) => spec_u64_to_le_bytes(v),
        AtomData::BoolVal(b) => spec_u32_to_le_bytes(spec_bool_word(b)),
        AtomData::Bytes(s) => s,
        AtomData::VectorInt32 { elem_tag, elems } => spec_u32_to_le_bytes(elem_tag)
            + spec_concat_i32(elems),
        AtomData::VectorInt64 { elem_tag, elems } => spec_u32_to_le_bytes(elem_tag)
            + spec_concat_i64(elems),
        AtomData::VectorFloat32 { elem_tag, elems } => spec_u32_to_le_bytes(elem_tag)
            + spec_concat_u32(elems),
        AtomData::VectorFloat64 { elem_tag, elems } => spec_u32_to_le_bytes(elem_tag)
            + spec_concat_u64(elems),
        AtomData::VectorBool { elem_tag, elems } => spec_u32_to_le_bytes(elem_tag)
            + spec_concat_bool(elems),
    }
}

// ---------------------------------------------------------------------------
// Payload decoding, at the specification level
// ---------------------------------------------------------------------------

/// Split a byte sequence into consecutive 32-bit signed words.
pub open spec fn spec_split_i32(s: Seq<u8>) -> Seq<i32>
    decreases s.len(),
{
    if s.len() < 4 {
        Seq::empty()
    } else {
        seq![spec_u32_from_le_bytes(s.take(4)) as i32] + spec_split_i32(s.skip(4))
    }
}

/// Split a byte sequence into consecutive 32-bit unsigned words.
pub open spec fn spec_split_u32(s: Seq<u8>) -> Seq<u32>
    decreases s.len(),
{
    if s.len() < 4 {
        Seq::empty()
    } else {
        seq![spec_u32_from_le_bytes(s.take(4))] + spec_split_u32(s.skip(4))
    }
}

/// Split a byte sequence into consecutive 64-bit signed words.
pub open spec fn spec_split_i64(s: Seq<u8>) -> Seq<i64>
    decreases s.len(),
{
    if s.len() < 8 {
        Seq::empty()
    } else {
        seq![spec_u64_from_le_bytes(s.take(8)) as i64] + spec_split_i64(s.skip(8))
    }
}

/// Split a byte sequence into consecutive 64-bit unsigned words.
pub open spec fn spec_split_u64(s: Seq<u8>) -> Seq<u64>
    decreases s.len(),
{
    if s.len() < 8 {
        Seq::empty()
    } else {
        seq![spec_u64_from_le_bytes(s.take(8))] + spec_split_u64(s.skip(8))
    }
}

/// Split a byte sequence into consecutive truth values, one 32-bit word
/// each; any nonzero word reads as true.
pub open spec fn spec_split_bool(s: Seq<u8>) -> Seq<bool>
    decreases s.len(),
{
    if s.len() < 4 {
        Seq::empty()
    } else {
        seq![spec_u32_from_le_bytes(s.take(4)) != 0] + spec_split_bool(s.skip(4))
    }
}

/// What decoding a payload of the expected shape yields: `None` exactly when
/// the payload is malformed for that shape — wrong length, a length that is
/// not a whole number of elements, or a vector whose element tag differs
/// from the expected one.
pub open spec fn spec_decode(kind: AtomKind, s: Seq<u8>) -> Option<AtomData> {
    match kind {
        AtomKind::Int32 => if s.len() == 4 {
            Option::Some(AtomData::Int32(spec_u32_from_le_bytes(s) as i32))
        } else {
            Option::None
        },
        AtomKind::Int64 => if s.len() == 8 {
            Option::Some(AtomData::Int64(spec_u64_from_le_bytes(s) as i64))
        } else {
            Option::None
        },
        AtomKind::Float32 => if s.len() == 4 {
            Option::Some(AtomData::Float32Bits(spec_u32_from_le_bytes(s)))
        } else {
            Option::None
        },
        AtomKind::Float64 => if s.len() == 8 {
            Option::Some(AtomData::Float64Bits(spec_u64_from_le_bytes(s)))
        } else {
            Option::None
        },
        AtomKind::Bool => if s.len() == 4 {
            Option::Some(AtomData::BoolVal(spec_u32_from_le_bytes(s) != 0))
        } else {
            Option::None
        },
        AtomKind::Bytes => Option::Some(AtomData::Bytes(s)),
        AtomKind::VectorInt32 { elem_tag } => if s.len() >= 4 && spec_u32_from_le_bytes(
            s.take(4),
        ) == elem_tag && (s.len() - 4) % 4 == 0 {
            Option::Some(
                AtomData::VectorInt32 { elem_tag, elems: spec_split_i32(s.skip(4)) },
            )
        } else {
            Option::None
        },
        AtomKind::VectorFloat32 { elem_tag } => if s.len() >= 4 && spec_u32_from_le_bytes(
            s.take(4),
        ) == elem_tag && (s.len() - 4) % 4 == 0 {
            Option::Some(
                AtomData::VectorFloat32 { elem_tag, elems: spec_split_u32(s.skip(4)) },
            )
        } else {
            Option::None
        },
        AtomKind::VectorInt64 { elem_tag } => if s.len() >= 4 && spec_u32_from_le_bytes(
            s.take(4),
        ) == elem_tag && (s.len() - 4) % 8 == 0 {
            Option::Some(
                AtomData::VectorInt64 { elem_tag, elems: spec_split_i64(s.skip(4)) },
            )
        } else {
            Option::None
        },
        AtomKind::VectorFloat64 { elem_tag } => if s.len() >= 4 && spec_u32_from_le_bytes(
            s.take(4),
        ) == elem_tag && (s.len() - 4) % 8 == 0 {
            Option::Some(
                AtomData::VectorFloat64 { elem_tag, elems: spec_split_u64(s.skip(4)) },
            )
        } else {
            Option::None
        },
        AtomKind::VectorBool { elem_tag } => if s.len() >= 4 && spec_u32_from_le_bytes(
            s.take(4),
        ) == elem_tag && (s.len() - 4) % 4 == 0 {
            Option::Some(
                AtomData::VectorBool { elem_tag, elems: spec_split_bool(s.skip(4)) },
            )
        } else {
            Option::None
        },
    }
}

/// The payload shape a value encodes as; for vectors it carries the
/// element tag the value was written with.
pub open spec fn kind_of(d: AtomData) -> AtomKind {
    match d {
        AtomData::Int32(_) => AtomKind::Int32,
        AtomData::Int64(_) => AtomKind::Int64,
        AtomData::Float32Bits(_) => AtomKind::Float32,
        AtomData::Float64Bits(_) => AtomKind::Float64,
        AtomData::BoolVal(_) => AtomKind::Bool,
        AtomData::Bytes(_) => AtomKind::Bytes,
        AtomData::VectorInt32 { elem_tag, .. } => AtomKind::VectorInt32 { elem_tag },
        AtomData::VectorInt64 { elem_tag, .. } => AtomKind::VectorInt64 { elem_tag },
        AtomData::VectorFloat32 { elem_tag, .. } => AtomKind::VectorFloat32 { elem_tag },
        AtomData::VectorFloat64 { elem_tag, .. } => AtomKind::VectorFloat64 { elem_tag },
        AtomData::VectorBool { elem_tag, .. } => AtomKind::VectorBool { elem_tag },
    }
}

// ---------------------------------------------------------------------------
// Round-trip laws
// ---------------------------------------------------------------------------

/// A word encoding is four bytes per word.
pub proof fn lemma_concat_i32_len(vs: Seq<i32>)
    ensures
        spec_concat_i32(vs).len() == 4 * vs.len(),
    decreases vs.len(),
{
    lemma_auto_spec_u32_to_from_le_bytes();
    if vs.len() > 0 {
        lemma_concat_i32_len(vs.skip(1));
    }
}

/// A word encoding is four bytes per word.
pub proof fn lemma_concat_u32_len(vs: Seq<u32>)
    ensures
        spec_concat_u32(vs).len() == 4 * vs.len(),
    decreases vs.len(),
{
    lemma_auto_spec_u32_to_from_le_bytes();
    if vs.len() > 0 {
        lemma_concat_u32_len(vs.skip(1));
    }
}

/// Appending a word to a vector appends its encoding to the payload.
pub proof fn lemma_concat_i32_push(vs: Seq<i32>, x: i32)
    ensures
        spec_concat_i32(vs.push(x)) == spec_concat_i32(vs) + spec_i32_le(x),
    decreases vs.len(),
{
    let t = vs.push(x);
    if vs.len() == 0 {
        assert(t.skip(1) =~= Seq::<i32>::empty());
        assert(t[0] == x);
        assert(spec_concat_i32(t) == spec_i32_le(x) + spec_concat_i32(t.skip(1)));
        assert(spec_concat_i32(t) =~= spec_concat_i32(vs) + spec_i32_le(x));
    } else {
        assert(t.skip(1) =~= vs.skip(1).push(x));
        lemma_concat_i32_push(vs.skip(1), x);
        assert(spec_concat_i32(t) == spec_i32_le(vs[0]) + (spec_concat_i32(vs.skip(1))
            + spec_i32_le(x)));
        assert(spec_i32_le(vs[0]) + (spec_concat_i32(vs.skip(1)) + spec_i32_le(x)) =~= (
        spec_i32_le(vs[0]) + spec_concat_i32(vs.skip(1))) + spec_i32_le(x));
    }
}

/// Appending a word to a vector appends its encoding to the payload.
pub proof fn lemma_concat_u32_push(vs: Seq<u32>, x: u32)
    ensures
        spec_concat_u32(vs.push(x)) == spec_concat_u32(vs) + spec_u32_to_le_bytes(x),
    decreases vs.len(),
{
    let t = vs.push(x);
    if vs.len() == 0 {
        assert(t.skip(1) =~= Seq::<u32>::empty());
        assert(t[0] == x);
        assert(spec_concat_u32(t) == spec_u32_to_le_bytes(x) + spec_concat_u32(t.skip(1)));
        assert(spec_concat_u32(t) =~= spec_concat_u32(vs) + spec_u32_to_le_bytes(x));
    } else {
        assert(t.skip(1) =~= vs.skip(1).push(x));
        lemma_concat_u32_push(vs.skip(1), x);
        assert(spec_concat_u32(t) == spec_u32_to_le_bytes(vs[0]) + (spec_concat_u32(vs.skip(1))
            + spec_u32_to_le_bytes(x)));
        assert(spec_u32_to_le_bytes(vs[0]) + (spec_concat_u32(vs.skip(1)) + spec_u32_to_le_bytes(
            x,
        )) =~= (spec_u32_to_le_bytes(vs[0]) + spec_concat_u32(vs.skip(1))) + spec_u32_to_le_bytes(
            x,
        ));
    }
}

/// Splitting a concatenation of 32-bit signed words gives the words back.
pub proof fn lemma_split_concat_i32(vs: Seq<i32>)
    ensures
        spec_split_i32(spec_concat_i32(vs)) == vs,
    decreases vs.len(),
{
    lemma_auto_spec_u32_to_from_le_bytes();
    if vs.len() == 0 {
        assert(spec_split_i32(spec_concat_i32(vs)) =~= vs);
    } else {
        let p = spec_concat_i32(vs);
        lemma_concat_i32_len(vs.skip(1));
        assert(p.take(4) =~= spec_i32_le(vs[0]));
        assert(p.skip(4) =~= spec_concat_i32(vs.skip(1)));
        let v0 = vs[0];
        assert((v0 as u32) as i32 == v0) by (bit_vector);
        lemma_split_concat_i32(vs.skip(1));
        assert(seq![vs[0]] + vs.skip(1) =~= vs);
    }
}

/// Splitting a concatenation of 32-bit unsigned words gives the words back.
pub proof fn lemma_split_concat_u32(vs: Seq<u32>)
    ensures
        spec_split_u32(spec_concat_u32(vs)) == vs,
    decreases vs.len(),
{
    lemma_auto_spec_u32_to_from_le_bytes();
    if vs.len() == 0 {
        assert(spec_split_u32(spec_concat_u32(vs)) =~= vs);
    } else {
        let p = spec_concat_u32(vs);
        lemma_concat_u32_len(vs.skip(1));
        assert(p.take(4) =~= spec_u32_to_le_bytes(vs[0]));
        assert(p.skip(4) =~= spec_concat_u32(vs.skip(1)));
        lemma_split_concat_u32(vs.skip(1));
        assert(seq![vs[0]] + vs.skip(1) =~= vs);
    }
}

/// A word encoding is eight bytes per word.
pub proof fn lemma_concat_i64_len(vs: Seq<i64>)
    ensures
        spec_concat_i64(vs).len() == 8 * vs.len(),
    decreases vs.len(),
{
    lemma_auto_spec_u64_to_from_le_bytes();
    if vs.len() > 0 {
        lemma_concat_i64_len(vs.skip(1));
    }
}

/// A word encoding is eight bytes per word.
pub proof fn lemma_concat_u64_len(vs: Seq<u64>)
    ensures
        spec_concat_u64(vs).len() == 8 * vs.len(),
    decreases vs.len(),
{
    lemma_auto_spec_u64_to_from_le_bytes();
    if vs.len() > 0 {
        lemma_concat_u64_len(vs.skip(1));
    }
}

/// A truth-value encoding is four bytes per value.
pub proof fn lemma_concat_bool_len(vs: Seq<bool>)
    ensures
        spec_concat_bool(vs).len() == 4 * vs.len(),
    decreases vs.len(),
{
    lemma_auto_spec_u32_to_from_le_bytes();
    if vs.len() > 0 {
        lemma_concat_bool_len(vs.skip(1));
    }
}

/// Appending a word to a vector appends its encoding to the payload.
pub proof fn lemma_concat_i64_push(vs: Seq<i64>, x: i64)
    ensures
        spec_concat_i64(vs.push(x)) == spec_concat_i64(vs) + spec_i64_le(x),
    decreases vs.len(),
{
    lemma_auto_spec_u64_to_from_le_bytes();
    let t = vs.push(x);
    if vs.len() == 0 {
        assert(t.skip(1) =~= Seq::<i64>::empty());
        assert(t[0] == x);
        assert(spec_concat_i64(t) == spec_i64_le(x) + spec_concat_i64(t.skip(1)));
        assert(spec_concat_i64(t) =~= spec_concat_i64(vs) + spec_i64_le(x));
    } else {
        assert(t.skip(1) =~= vs.skip(1).push(x));
        lemma_concat_i64_push(vs.skip(1), x);
        assert(spec_concat_i64(t) == spec_i64_le(vs[0]) + (spec_concat_i64(vs.skip(1))
            + spec_i64_le(x)));
        assert(spec_i64_le(vs[0]) + (spec_concat_i64(vs.skip(1)) + spec_i64_le(x)) =~= (
        spec_i64_le(vs[0]) + spec_concat_i64(vs.skip(1))) + spec_i64_le(x));
    }
}

/// Appending a word to a vector appends its encoding to the payload.
pub proof fn lemma_concat_u64_push(vs: Seq<u64>, x: u64)
    ensures
        spec_concat_u64(vs.push(x)) == spec_concat_u64(vs) + spec_u64_to_le_bytes(x),
    decreases vs.len(),
{
    lemma_auto_spec_u64_to_from_le_bytes();
    let t = vs.push(x);
    if vs.len() == 0 {
        assert(t.skip(1) =~= Seq::<u64>::empty());
        assert(t[0] == x);
        assert(spec_concat_u64(t) == spec_u64_to_le_bytes(x) + spec_concat_u64(t.skip(1)));
        assert(spec_concat_u64(t) =~= spec_concat_u64(vs) + spec_u64_to_le_bytes(x));
    } else {
        assert(t.skip(1) =~= vs.skip(1).push(x));
        lemma_concat_u64_push(vs.skip(1), x);
        assert(spec_concat_u64(t) == spec_u64_to_le_bytes(vs[0]) + (spec_concat_u64(vs.skip(1))
            + spec_u64_to_le_bytes(x)));
        assert(spec_u64_to_le_bytes(vs[0]) + (spec_concat_u64(vs.skip(1)) + spec_u64_to_le_bytes(
            x,
        )) =~= (spec_u64_to_le_bytes(vs[0]) + spec_concat_u64(vs.skip(1))) + spec_u64_to_le_bytes(
            x,
        ));
    }
}

/// Appending a truth value to a vector appends its encoding to the payload.
pub proof fn lemma_concat_bool_push(vs: Seq<bool>, x: bool)
    ensures
        spec_concat_bool(vs.push(x)) == spec_concat_bool(vs) + spec_u32_to_le_bytes(
            spec_bool_word(x),
        ),
    decreases vs.len(),
{
    lemma_auto_spec_u32_to_from_le_bytes();
    let t = vs.push(x);
    if vs.len() == 0 {
        assert(t.skip(1) =~= Seq::<bool>::empty());
        assert(t[0] == x);
        assert(spec_concat_bool(t) == spec_u32_to_le_bytes(spec_bool_word(x)) + spec_concat_bool(
            t.skip(1),
        ));
        assert(spec_concat_bool(t) =~= spec_concat_bool(vs) + spec_u32_to_le_bytes(
            spec_bool_word(x),
        ));
    } else {
        assert(t.skip(1) =~= vs.skip(1).push(x));
        lemma_concat_bool_push(vs.skip(1), x);
        assert(spec_concat_bool(t) == spec_u32_to_le_bytes(spec_bool_word(vs[0])) + (
        spec_concat_bool(vs.skip(1)) + spec_u32_to_le_bytes(spec_bool_word(x))));
        assert(spec_u32_to_le_bytes(spec_bool_word(vs[0])) + (spec_concat_bool(vs.skip(1))
            + spec_u32_to_le_bytes(spec_bool_word(x))) =~= (spec_u32_to_le_bytes(
            spec_bool_word(vs[0]),
        ) + spec_concat_bool(vs.skip(1))) + spec_u32_to_le_bytes(spec_bool_word(x)));
    }
}

/// Splitting a concatenation of 64-bit signed words gives the words back.
pub proof fn lemma_split_concat_i64(vs: Seq<i64>)
    ensures
        spec_split_i64(spec_concat_i64(vs)) == vs,
    decreases vs.len(),
{
    lemma_auto_spec_u64_to_from_le_bytes();
    if vs.len() == 0 {
        assert(spec_split_i64(spec_concat_i64(vs)) =~= vs);
    } else {
        let p = spec_concat_i64(vs);
        lemma_concat_i64_len(vs.skip(1));
        assert(p.take(8) =~= spec_i64_le(vs[0]));
        assert(p.skip(8) =~= spec_concat_i64(vs.skip(1)));
        let v0 = vs[0];
        assert((v0 as u64) as i64 == v0) by (bit_vector);
        lemma_split_concat_i64(vs.skip(1));
        assert(seq![vs[0]] + vs.skip(1) =~= vs);
    }
}

/// Splitting a concatenation of 64-bit unsigned words gives the words back.
pub proof fn lemma_split_concat_u64(vs: Seq<u64>)
    ensures
        spec_split_u64(spec_concat_u64(vs)) == vs,
    decreases vs.len(),
{
    lemma_auto_spec_u64_to_from_le_bytes();
    if vs.len() == 0 {
        assert(spec_split_u64(spec_concat_u64(vs)) =~= vs);
    } else {
        let p = spec_concat_u64(vs);
        lemma_concat_u64_len(vs.skip(1));
        assert(p.take(8) =~= spec_u64_to_le_bytes(vs[0]));
        assert(p.skip(8) =~= spec_concat_u64(vs.skip(1)));
        lemma_split_concat_u64(vs.skip(1));
        assert(seq![vs[0]] + vs.skip(1) =~= vs);
    }
}

/// Splitting a concatenation of truth-value words gives the values back.
pub proof fn lemma_split_concat_bool(vs: Seq<bool>)
    ensures
        spec_split_bool(spec_concat_bool(vs)) == vs,
    decreases vs.len(),
{
    lemma_auto_spec_u32_to_from_le_bytes();
    if vs.len() == 0 {
        assert(spec_split_bool(spec_concat_bool(vs)) =~= vs);
    } else {
        let p = spec_concat_bool(vs);
        lemma_concat_bool_len(vs.skip(1));
        assert(p.take(4) =~= spec_u32_to_le_bytes(spec_bool_word(vs[0])));
        assert(p.skip(4) =~= spec_concat_bool(vs.skip(1)));
        lemma_split_concat_bool(vs.skip(1));
        assert(seq![vs[0]] + vs.skip(1) =~= vs);
    }
}

/// Round trip: decoding an encoded payload with the shape it was written
/// with yields the original value, for every supported value — scalars,
/// byte strings and homogeneous vectors of any length.
pub proof fn lemma_payload_round_trip(d: AtomData)
    ensures
        spec_decode(kind_of(d), spec_payload(d)) == Option::Some(d),
{
    lemma_auto_spec_u32_to_from_le_bytes();
    lemma_auto_spec_u64_to_from_le_bytes();
    match d {
        AtomData::Int32(v) => {
            assert((v as u32) as i32 == v) by (bit_vector);
        },
        AtomData::Int64(v) => {
            assert((v as u64) as i64 == v) by (bit_vector);
        },
        AtomData::Float32Bits(_) => {},
        AtomData::Float64Bits(_) => {},
        AtomData::BoolVal(_) => {},
        AtomData::Bytes(_) => {},
        AtomData::VectorInt32 { elem_tag, elems } => {
            let p = spec_payload(d);
            lemma_concat_i32_len(elems);
            assert(p.take(4) =~= spec_u32_to_le_bytes(elem_tag));
            assert(p.skip(4) =~= spec_concat_i32(elems));
            lemma_split_concat_i32(elems);
            assert(spec_decode(kind_of(d), p) == Option::Some(d));
        },
        AtomData::VectorFloat32 { elem_tag, elems } => {
            let p = spec_payload(d);
            lemma_concat_u32_len(elems);
            assert(p.take(4) =~= spec_u32_to_le_bytes(elem_tag));
            assert(p.skip(4) =~= spec_concat_u32(elems));
            lemma_split_concat_u32(elems);
            assert(spec_decode(kind_of(d), p) == Option::Some(d));
        },
        AtomData::VectorInt64 { elem_tag, elems } => {
            let p = spec_payload(d);
            lemma_concat_i64_len(elems);
            assert(p.take(4) =~= spec_u32_to_le_bytes(elem_tag));
            assert(p.skip(4) =~= spec_concat_i64(elems));
            lemma_split_concat_i64(elems);
            assert(spec_decode(kind_of(d), p) == Option::Some(d));
        },
        AtomData::VectorFloat64 { elem_tag, elems } => {
            let p = spec_payload(d);
            lemma_concat_u64_len(elems);
            assert(p.take(4) =~= spec_u32_to_le_bytes(elem_tag));
            assert(p.skip(4) =~= spec_concat_u64(elems));
            lemma_split_concat_u64(elems);
            assert(spec_decode(kind_of(d), p) == Option::Some(d));
        },
        AtomData::VectorBool { elem_tag, elems } => {
            let p = spec_payload(d);
            lemma_concat_bool_len(elems);
            assert(p.take(4) =~= spec_u32_to_le_bytes(elem_tag));
            assert(p.skip(4) =~= spec_concat_bool(elems));
            lemma_split_concat_bool(elems);
            assert(spec_decode(kind_of(d), p) == Option::Some(d));
        },
    }
}

// ---------------------------------------------------------------------------
// Executable payload encoding and decoding
// ---------------------------------------------------------------------------

/// Serialize a value's payload: everything after the atom header.
pub fn encode_payload(value: &AtomValue) -> (r: Vec<u8>)
    ensures
        r@ == spec_payload(value@),
{
    match value {
        AtomValue::Int32(v) => u32_to_le_bytes(*v as u32),
        AtomValue::Int64(v) => u64_to_le_bytes(*v as u64),
        AtomValue::Float32Bits(v) => u32_to_le_bytes(*v),
        AtomValue::Float64Bits(v) => u64_to_le_bytes(*v),
        AtomValue::BoolVal(b) => u32_to_le_bytes(
            if *b {
                1
            } else {
                0
            },
        ),
        AtomValue::Bytes(bytes) => vstd::slice::slice_to_vec(bytes.as_slice()),
        AtomValue::VectorInt32 { elem_tag, elems } => {
            let mut out = u32_to_le_bytes(*elem_tag);
            let n = elems.len();
            let mut i: usize = 0;
            while i < n
                invariant
                    n == elems@.len(),
                    i <= n,
                    out@ == spec_u32_to_le_bytes(*elem_tag) + spec_concat_i32(
                        elems@.take(i as int),
                    ),
                decreases n - i,
            {
                let mut eb = u32_to_le_bytes(elems[i] as u32);
                out.append(&mut eb);
                proof {
                    lemma_concat_i32_push(elems@.take(i as int), elems@[i as int]);
                    assert(elems@.take(i + 1) =~= elems@.take(i as int).push(elems@[i as int]));
                    assert(out@ =~= spec_u32_to_le_bytes(*elem_tag) + spec_concat_i32(
                        elems@.take(i + 1),
                    ));
                }
                i = i + 1;
            }
            proof {
                assert(elems@.take(n as int) =~= elems@);
            }
            out
        },
        AtomValue::VectorFloat32 { elem_tag, elems } => {
            let mut out = u32_to_le_bytes(*elem_tag);
            let n = elems.len();
            let mut i: usize = 0;
            while i < n
                invariant
                    n == elems@.len(),
                    i <= n,
                    out@ == spec_u32_to_le_bytes(*elem_tag) + spec_concat_u32(
                        elems@.take(i as int),
                    ),
                decreases n - i,
            {
                let mut eb = u32_to_le_bytes(elems[i]);
                out.append(&mut eb);
                proof {
                    lemma_concat_u32_push(elems@.take(i as int), elems@[i as int]);
                    assert(elems@.take(i + 1) =~= elems@.take(i as int).push(elems@[i as int]));
                    assert(out@ =~= spec_u32_to_le_bytes(*elem_tag) + spec_concat_u32(
                        elems@.take(i + 1),
                    ));
                }
                i = i + 1;
            }
            proof {
                assert(elems@.take(n as int) =~= elems@);
            }
            out
        },
        AtomValue::VectorInt64 { elem_tag, elems } => {
            let mut out = u32_to_le_bytes(*elem_tag);
            let n = elems.len();
            let mut i: usize = 0;
            while i < n
                invariant
                    n == elems@.len(),
                    i <= n,
                    out@ == spec_u32_to_le_bytes(*elem_tag) + spec_concat_i64(
                        elems@.take(i as int),
                    ),
                decreases n - i,
            {
                let mut eb = u64_to_le_bytes(elems[i] as u64);
                out.append(&mut eb);
                proof {
                    lemma_concat_i64_push(elems@.take(i as int), elems@[i as int]);
                    assert(elems@.take(i + 1) =~= elems@.take(i as int).push(elems@[i as int]));
                    assert(out@ =~= spec_u32_to_le_bytes(*elem_tag) + spec_concat_i64(
                        elems@.take(i + 1),
                    ));
                }
                i = i + 1;
            }
            proof {
                assert(elems@.take(n as int) =~= elems@);
            }
            out
        },
        AtomValue::VectorFloat64 { elem_tag, elems } => {
            let mut out = u32_to_le_bytes(*elem_tag);
            let n = elems.len();
            let mut i: usize = 0;
            while i < n
                invariant
                    n == elems@.len(),
                    i <= n,
                    out@ == spec_u32_to_le_bytes(*elem_tag) + spec_concat_u64(
                        elems@.take(i as int),
                    ),
                decreases n - i,
            {
                let mut eb = u64_to_le_bytes(elems[i]);
                out.append(&mut eb);
                proof {
                    lemma_concat_u64_push(elems@.take(i as int), elems@[i as int]);
                    assert(elems@.take(i + 1) =~= elems@.take(i as int).push(elems@[i as int]));
                    assert(out@ =~= spec_u32_to_le_bytes(*elem_tag) + spec_concat_u64(
                        elems@.take(i + 1),
                    ));
                }
                i = i + 1;
            }
            proof {
                assert(elems@.take(n as int) =~= elems@);
            }
            out
        },
        AtomValue::VectorBool { elem_tag, elems } => {
            let mut out = u32_to_le_bytes(*elem_tag);
            let n = elems.len();
            let mut i: usize = 0;
            while i < n
                invariant
                    n == elems@.len(),
                    i <= n,
                    out@ == spec_u32_to_le_bytes(*elem_tag) + spec_concat_bool(
                        elems@.take(i as int),
                    ),
                decreases n - i,
            {
                let mut eb = u32_to_le_bytes(
                    if elems[i] {
                        1
                    } else {
                        0
                    },
                );
                out.append(&mut eb);
                proof {
                    lemma_concat_bool_push(elems@.take(i as int), elems@[i as int]);
                    assert(elems@.take(i + 1) =~= elems@.take(i as int).push(elems@[i as int]));
                    assert(out@ =~= spec_u32_to_le_bytes(*elem_tag) + spec_concat_bool(
                        elems@.take(i + 1),
                    ));
                }
                i = i + 1;
            }
            proof {
                assert(elems@.take(n as int) =~= elems@);
            }
            out
        },
    }
}

/// Decode a payload against the expected shape; `None` exactly when the
/// payload is malformed for that shape.
pub fn decode_payload(kind: AtomKind, s: &[u8]) -> (r: Option<AtomValue>)
    ensures
        opt_data(r) == spec_decode(kind, s@),
{
    match kind {
        AtomKind::Int32 => {
            if s.len() == 4 {
                Some(AtomValue::Int32(u32_from_le_bytes(s) as i32))
            } else {
                None
            }
        },
        AtomKind::Int64 => {
            if s.len() == 8 {
                Some(AtomValue::Int64(u64_from_le_bytes(s) as i64))
            } else {
                None
            }
        },
        AtomKind::Float32 => {
            if s.len() == 4 {
                Some(AtomValue::Float32Bits(u32_from_le_bytes(s)))
            } else {
                None
            }
        },
        AtomKind::Float64 => {
            if s.len() == 8 {
                Some(AtomValue::Float64Bits(u64_from_le_bytes(s)))
            } else {
                None
            }
        },
        AtomKind::Bool => {
            if s.len() == 4 {
                Some(AtomValue::BoolVal(u32_from_le_bytes(s) != 0))
            } else {
                None
            }
        },
        AtomKind::Bytes => Some(AtomValue::Bytes(vstd::slice::slice_to_vec(s))),
        AtomKind::VectorInt32 { elem_tag } => {
            match decode_vector_i32(elem_tag, s) {
                Some(elems) => Some(AtomValue::VectorInt32 { elem_tag, elems }),
                None => None,
            }
        },
        AtomKind::VectorFloat32 { elem_tag } => {
            match decode_vector_u32(elem_tag, s) {
                Some(elems) => Some(AtomValue::VectorFloat32 { elem_tag, elems }),
                None => None,
            }
        },
        AtomKind::VectorInt64 { elem_tag } => {
            match decode_vector_i64(elem_tag, s) {
                Some(elems) => Some(AtomValue::VectorInt64 { elem_tag, elems }),
                None => None,
            }
        },
        AtomKind::VectorFloat64 { elem_tag } => {
            match decode_vector_u64(elem_tag, s) {
                Some(elems) => Some(AtomValue::VectorFloat64 { elem_tag, elems }),
                None => None,
            }
        },
        AtomKind::VectorBool { elem_tag } => {
            match decode_vector_bool(elem_tag, s) {
                Some(elems) => Some(AtomValue::VectorBool { elem_tag, elems }),
                None => None,
            }
        },
    }
}

/// Decode a vector payload of 32-bit signed words.
fn decode_vector_i32(elem_tag: u32, s: &[u8]) -> (r: Option<Vec<i32>>)
    ensures
        match r {
            Some(elems) => s@.len() >= 4 && spec_u32_from_le_bytes(s@.take(4)) == elem_tag && (
            s@.len() - 4) % 4 == 0 && elems@ == spec_split_i32(s@.skip(4)),
            None => !(s@.len() >= 4 && spec_u32_from_le_bytes(s@.take(4)) == elem_tag && (s@.len()
                - 4) % 4 == 0),
        },
{
    let n = s.len();
    if n < 4 {
        return None;
    }
    let tag = u32_from_le_bytes(vstd::slice::slice_subrange(s, 0, 4));
    proof {
        assert(s@.subrange(0, 4) =~= s@.take(4));
    }
    if tag != elem_tag {
        return None;
    }
    if (n - 4) % 4 != 0 {
        return None;
    }
    let mut elems: Vec<i32> = Vec::new();
    let mut off: usize = 4;
    while off < n
        invariant
            n == s@.len(),
            4 <= off <= n,
            (n - off) % 4 == 0,
            spec_split_i32(s@.skip(4)) == elems@ + spec_split_i32(s@.subrange(off as int, n as int)),
        decreases n - off,
    {
        let e = u32_from_le_bytes(vstd::slice::slice_subrange(s, off, off + 4)) as i32;
        proof {
            let t = s@.subrange(off as int, n as int);
            assert(t.len() >= 4);
            assert(t.take(4) =~= s@.subrange(off as int, off + 4));
            assert(t.skip(4) =~= s@.subrange(off + 4, n as int));
            assert(spec_split_i32(t) == seq![spec_u32_from_le_bytes(t.take(4)) as i32]
                + spec_split_i32(t.skip(4)));
            assert(elems@ + spec_split_i32(t) =~= elems@.push(e) + spec_split_i32(
                s@.subrange(off + 4, n as int),
            ));
        }
        elems.push(e);
        off = off + 4;
    }
    proof {
        assert(s@.subrange(off as int, n as int) =~= Seq::<u8>::empty());
        assert(elems@ + spec_split_i32(s@.subrange(off as int, n as int)) =~= elems@);
    }
    Some(elems)
}

/// Decode a vector payload of 32-bit unsigned words.
fn decode_vector_u32(elem_tag: u32, s: &[u8]) -> (r: Option<Vec<u32>>)
    ensures
        match r {
            Some(elems) => s@.len() >= 4 && spec_u32_from_le_bytes(s@.take(4)) == elem_tag && (
            s@.len() - 4) % 4 == 0 && elems@ == spec_split_u32(s@.skip(4)),
            None => !(s@.len() >= 4 && spec_u32_from_le_bytes(s@.take(4)) == elem_tag && (s@.len()
                - 4) % 4 == 0),
        },
{
    let n = s.len();
    if n < 4 {
        return None;
    }
    let tag = u32_from_le_bytes(vstd::slice::slice_subrange(s, 0, 4));
    proof {
        assert(s@.subrange(0, 4) =~= s@.take(4));
    }
    if tag != elem_tag {
        return None;
    }
    if (n - 4) % 4 != 0 {
        return None;
    }
    let mut elems: Vec<u32> = Vec::new();
    let mut off: usize = 4;
    while off < n
        invariant
            n == s@.len(),
            4 <= off <= n,
            (n - off) % 4 == 0,
            spec_split_u32(s@.skip(4)) == elems@ + spec_split_u32(s@.subrange(off as int, n as int)),
        decreases n - off,
    {
        let e = u32_from_le_bytes(vstd::slice::slice_subrange(s, off, off + 4));
        proof {
            let t = s@.subrange(off as int, n as int);
            assert(t.len() >= 4);
            assert(t.take(4) =~= s@.subrange(off as int, off + 4));
            assert(t.skip(4) =~= s@.subrange(off + 4, n as int));
            assert(spec_split_u32(t) == seq![spec_u32_from_le_bytes(t.take(4))]
                + spec_split_u32(t.skip(4)));
            assert(elems@ + spec_split_u32(t) =~= elems@.push(e) + spec_split_u32(
                s@.subrange(off + 4, n as int),
            ));
        }
        elems.push(e);
        off = off + 4;
    }
    proof {
        assert(s@.subrange(off as int, n as int) =~= Seq::<u8>::empty());
        assert(elems@ + spec_split_u32(s@.subrange(off as int, n as int)) =~= elems@);
    }
    Some(elems)
}

/// Decode a vector payload of 64-bit signed words.
fn decode_vector_i64(elem_tag: u32, s: &[u8]) -> (r: Option<Vec<i64>>)
    ensures
        match r {
            Some(elems) => s@.len() >= 4 && spec_u32_from_le_bytes(s@.take(4)) == elem_tag && (
            s@.len() - 4) % 8 == 0 && elems@ == spec_split_i64(s@.skip(4)),
            None => !(s@.len() >= 4 && spec_u32_from_le_bytes(s@.take(4)) == elem_tag && (s@.len()
                - 4) % 8 == 0),
        },
{
    let n = s.len();
    if n < 4 {
        return None;
    }
    let tag = u32_from_le_bytes(vstd::slice::slice_subrange(s, 0, 4));
    proof {
        assert(s@.subrange(0, 4) =~= s@.take(4));
    }
    if tag != elem_tag {
        return None;
    }
    if (n - 4) % 8 != 0 {
        return None;
    }
    let mut elems: Vec<i64> = Vec::new();
    let mut off: usize = 4;
    while off < n
        invariant
            n == s@.len(),
            4 <= off <= n,
            (n - off) % 8 == 0,
            spec_split_i64(s@.skip(4)) == elems@ + spec_split_i64(s@.subrange(off as int, n as int)),
        decreases n - off,
    {
        let e = u64_from_le_bytes(vstd::slice::slice_subrange(s, off, off + 8)) as i64;
        proof {
            let t = s@.subrange(off as int, n as int);
            assert(t.len() >= 8);
            assert(t.take(8) =~= s@.subrange(off as int, off + 8));
            assert(t.skip(8) =~= s@.subrange(off + 8, n as int));
            assert(spec_split_i64(t) == seq![spec_u64_from_le_bytes(t.take(8)) as i64]
                + spec_split_i64(t.skip(8)));
            assert(elems@ + spec_split_i64(t) =~= elems@.push(e) + spec_split_i64(
                s@.subrange(off + 8, n as int),
            ));
        }
        elems.push(e);
        off = off + 8;
    }
    proof {
        assert(s@.subrange(off as int, n as int) =~= Seq::<u8>::empty());
        assert(elems@ + spec_split_i64(s@.subrange(off as int, n as int)) =~= elems@);
    }
    Some(elems)
}

/// Decode a vector payload of 64-bit unsigned words.
fn decode_vector_u64(elem_tag: u32, s: &[u8]) -> (r: Option<Vec<u64>>)
    ensures
        match r {
            Some(elems) => s@.len() >= 4 && spec_u32_from_le_bytes(s@.take(4)) == elem_tag && (
            s@.len() - 4) % 8 == 0 && elems@ == spec_split_u64(s@.skip(4)),
            None => !(s@.len() >= 4 && spec_u32_from_le_bytes(s@.take(4)) == elem_tag && (s@.len()
                - 4) % 8 == 0),
        },
{
    let n = s.len();
    if n < 4 {
        return None;
    }
    let tag = u32_from_le_bytes(vstd::slice::slice_subrange(s, 0, 4));
    proof {
        assert(s@.subrange(0, 4) =~= s@.take(4));
    }
    if tag != elem_tag {
        return None;
    }
    if (n - 4) % 8 != 0 {
        return None;
    }
    let mut elems: Vec<u64> = Vec::new();
    let mut off: usize = 4;
    while off < n
        invariant
            n == s@.len(),
            4 <= off <= n,
            (n - off) % 8 == 0,
            spec_split_u64(s@.skip(4)) == elems@ + spec_split_u64(s@.subrange(off as int, n as int)),
        decreases n - off,
    {
        let e = u64_from_le_bytes(vstd::slice::slice_subrange(s, off, off + 8));
        proof {
            let t = s@.subrange(off as int, n as int);
            assert(t.len() >= 8);
            assert(t.take(8) =~= s@.subrange(off as int, off + 8));
            assert(t.skip(8) =~= s@.subrange(off + 8, n as int));
            assert(spec_split_u64(t) == seq![spec_u64_from_le_bytes(t.take(8))]
                + spec_split_u64(t.skip(8)));
            assert(elems@ + spec_split_u64(t) =~= elems@.push(e) + spec_split_u64(
                s@.subrange(off + 8, n as int),
            ));
        }
        elems.push(e);
        off = off + 8;
    }
    proof {
        assert(s@.subrange(off as int, n as int) =~= Seq::<u8>::empty());
        assert(elems@ + spec_split_u64(s@.subrange(off as int, n as int)) =~= elems@);
    }
    Some(elems)
}

/// Decode a vector payload of truth values, one 32-bit word each.
fn decode_vector_bool(elem_tag: u32, s: &[u8]) -> (r: Option<Vec<bool>>)
    ensures
        match r {
            Some(elems) => s@.len() >= 4 && spec_u32_from_le_bytes(s@.take(4)) == elem_tag && (
            s@.len() - 4) % 4 == 0 && elems@ == spec_split_bool(s@.skip(4)),
            None => !(s@.len() >= 4 && spec_u32_from_le_bytes(s@.take(4)) == elem_tag && (s@.len()
                - 4) % 4 == 0),
        },
{
    let n = s.len();
    if n < 4 {
        return None;
    }
    let tag = u32_from_le_bytes(vstd::slice::slice_subrange(s, 0, 4));
    proof {
        assert(s@.subrange(0, 4) =~= s@.take(4));
    }
    if tag != elem_tag {
        return None;
    }
    if (n - 4) % 4 != 0 {
        return None;
    }
    let mut elems: Vec<bool> = Vec::new();
    let mut off: usize = 4;
    while off < n
        invariant
            n == s@.len(),
            4 <= off <= n,
            (n - off) % 4 == 0,
            spec_split_bool(s@.skip(4)) == elems@ + spec_split_bool(
                s@.subrange(off as int, n as int),
            ),
        decreases n - off,
    {
        let e = u32_from_le_bytes(vstd::slice::slice_subrange(s, off, off + 4)) != 0;
        proof {
            let t = s@.subrange(off as int, n as int);
            assert(t.len() >= 4);
            assert(t.take(4) =~= s@.subrange(off as int, off + 4));
            assert(t.skip(4) =~= s@.subrange(off + 4, n as int));
            assert(spec_split_bool(t) == seq![spec_u32_from_le_bytes(t.take(4)) != 0]
                + spec_split_bool(t.skip(4)));
            assert(elems@ + spec_split_bool(t) =~= elems@.push(e) + spec_split_bool(
                s@.subrange(off + 4, n as int),
            ));
        }
        elems.push(e);
        off = off + 4;
    }
    proof {
        assert(s@.subrange(off as int, n as int) =~= Seq::<u8>::empty());
        assert(elems@ + spec_split_bool(s@.subrange(off as int, n as int)) =~= elems@);
    }
    Some(elems)
}

// ---------------------------------------------------------------------------
// The atom header and the full wire form
// ---------------------------------------------------------------------------

/// The full wire form of an atom: type tag, payload byte length, payload.
pub open spec fn spec_atom_wire(tag: u32, payload: Seq<u8>) -> Seq<u8>
    recommends
        payload.len() <= u32::MAX,
{
    spec_u32_to_le_bytes(tag) + spec_u32_to_le_bytes(payload.len() as u32) + payload
}

/// The type tag declared in an atom header.
pub open spec fn spec_wire_tag(b: Seq<u8>) -> u32 {
    spec_u32_from_le_bytes(b.subrange(0, 4))
}

/// The payload byte length declared in an atom header.
pub open spec fn spec_wire_size(b: Seq<u8>) -> u32 {
    spec_u32_from_le_bytes(b.subrange(4, 8))
}

/// A structurally sound serialized atom: a full header is present and the
/// declared payload length does not exceed the bytes that follow it.
pub open spec fn spec_wire_wf(b: Seq<u8>) -> bool {
    b.len() >= 8 && spec_wire_size(b) + 8 <= b.len()
}

/// The payload of a serialized atom: the declared number of bytes after the
/// header.
pub open spec fn spec_wire_payload(b: Seq<u8>) -> Seq<u8> {
    b.subrange(8, 8 + spec_wire_size(b))
}

/// The wire form reads back as it was written.
pub proof fn lemma_wire_round_trip(tag: u32, payload: Seq<u8>)
    requires
        payload.len() <= u32::MAX,
    ensures
        spec_wire_wf(spec_atom_wire(tag, payload)),
        spec_wire_tag(spec_atom_wire(tag, payload)) == tag,
        spec_wire_size(spec_atom_wire(tag, payload)) == payload.len(),
        spec_wire_payload(spec_atom_wire(tag, payload)) == payload,
{
    lemma_auto_spec_u32_to_from_le_bytes();
    let b = spec_atom_wire(tag, payload);
    assert(b.subrange(0, 4) =~= spec_u32_to_le_bytes(tag));
    assert(b.subrange(4, 8) =~= spec_u32_to_le_bytes(payload.len() as u32));
    assert(b.subrange(8, 8 + spec_wire_size(b)) =~= payload);
}

/// Serialize a complete atom: header followed by payload.
pub fn encode_atom_wire(tag: u32, payload: Vec<u8>) -> (r: Vec<u8>)
    requires
        payload@.len() <= u32::MAX,
    ensures
        r@ == spec_atom_wire(tag, payload@),
{
    let mut out = u32_to_le_bytes(tag);
    let mut size_bytes = u32_to_le_bytes(payload.len() as u32);
    out.append(&mut size_bytes);
    let mut p = payload;
    let ghost p0 = p@;
    out.append(&mut p);
    proof {
        assert(out@ =~= spec_atom_wire(tag, p0));
    }
    out
}

/// Split a serialized atom into its declared type tag and payload,
/// validating the header: `None` exactly when the bytes are not a
/// structurally sound atom.
pub fn parse_atom_wire(b: &[u8]) -> (r: Option<(u32, Vec<u8>)>)
    ensures
        match r {
            Some(p) => spec_wire_wf(b@) && p.0 == spec_wire_tag(b@) && p.1@ == spec_wire_payload(
                b@,
            ),
            None => !spec_wire_wf(b@),
        },
{
    if b.len() < 8 {
        return None;
    }
    let tag = u32_from_le_bytes(vstd::slice::slice_subrange(b, 0, 4));
    let size = u32_from_le_bytes(vstd::slice::slice_subrange(b, 4, 8));
    if (size as usize) <= b.len() - 8 {
        let payload = vstd::slice::slice_to_vec(
            vstd::slice::slice_subrange(b, 8, 8 + size as usize),
        );
        Some((tag, payload))
    } else {
        None
    }
}

} // verus!
