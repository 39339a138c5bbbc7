//! The compact self-describing value codec.
//!
//! A value is written as one tag byte followed by a little-endian
//! payload. The encoder always picks the narrowest representation:
//! the smallest signed integer variant that holds the value, an 8-bit
//! length prefix for short strings and binaries, a 16-bit one otherwise.
//! Lists and maps are count-prefixed and capped at 255 entries; an
//! encoder that drops entries reports the truncation to its caller.
//! Floats travel as their IEEE-754 bit patterns.

use vstd::prelude::*;

use crate::errors::AgentError;
use vstd::bytes::*;
use vstd::string::StringSliceAdditionalSpecFns;
use vstd::utf8::{decode_utf8, encode_utf8, valid_utf8};

verus! {

broadcast use vstd::std_specs::vec::axiom_vec_index_decreases, vstd::seq::axiom_seq_index_decreases, vstd::std_specs::vec::axiom_vec_decreases_to_view, vstd::seq::axiom_seq_subrange_decreases;

/// Wire tag of each value variant.
#[derive(Debug, Clone, Copy, PartialEq, Eq, Structural)]
pub enum ValueType {
    Null,
    Bool,
    Int8,
    Int16,
    Int32,
    Int64,
    Float32,
    Float64,
    String8,
    String16,
    List,
    Mapping,
    Binary8,
    Binary16,
    Timestamp,
    Uuid,
}

pub const TAG_NULL: u8 = 0;

pub const TAG_BOOL: u8 = 1;

pub const TAG_INT8: u8 = 2;

pub const TAG_INT16: u8 = 3;

pub const TAG_INT32: u8 = 4;

pub const TAG_INT64: u8 = 5;

pub const TAG_FLOAT32: u8 = 6;

pub const TAG_FLOAT64: u8 = 7;

pub const TAG_STRING8: u8 = 8;

pub const TAG_STRING16: u8 = 9;

pub const TAG_LIST: u8 = 10;

pub const TAG_MAP: u8 = 11;

pub const TAG_BINARY8: u8 = 12;

pub const TAG_BINARY16: u8 = 13;

pub const TAG_TIMESTAMP: u8 = 14;

pub const TAG_UUID: u8 = 15;

impl ValueType {
    /// The tag byte this variant is written as.
    pub fn tag(&self) -> (r: u8)
        ensures
            r == self.spec_tag(),
    {
        match self {
            ValueType::Null => TAG_NULL,
            ValueType::Bool => TAG_BOOL,
            ValueType::Int8 => TAG_INT8,
            ValueType::Int16 => TAG_INT16,
            ValueType::Int32 => TAG_INT32,
            ValueType::Int64 => TAG_INT64,
            ValueType::Float32 => TAG_FLOAT32,
            ValueType::Float64 => TAG_FLOAT64,
            ValueType::String8 => TAG_STRING8,
            ValueType::String16 => TAG_STRING16,
            ValueType::List => TAG_LIST,
            ValueType::Mapping => TAG_MAP,
            ValueType::Binary8 => TAG_BINARY8,
            ValueType::Binary16 => TAG_BINARY16,
            ValueType::Timestamp => TAG_TIMESTAMP,
            ValueType::Uuid => TAG_UUID,
        }
    }

    /// The tag byte of a variant, as a specification-level map.
    pub open spec fn spec_tag(&self) -> u8 {
        match self {
            ValueType::Null => TAG_NULL,
            ValueType::Bool => TAG_BOOL,
            ValueType::Int8 => TAG_INT8,
            ValueType::Int16 => TAG_INT16,
            ValueType::Int32 => TAG_INT32,
            ValueType::Int64 => TAG_INT64,
            ValueType::Float32 => TAG_FLOAT32,
            ValueType::Float64 => TAG_FLOAT64,
            ValueType::String8 => TAG_STRING8,
            ValueType::String16 => TAG_STRING16,
            ValueType::List => TAG_LIST,
            ValueType::Mapping => TAG_MAP,
            ValueType::Binary8 => TAG_BINARY8,
            ValueType::Binary16 => TAG_BINARY16,
            ValueType::Timestamp => TAG_TIMESTAMP,
            ValueType::Uuid => TAG_UUID,
        }
    }

    /// The variant a tag byte names; unknown tags fall back to `Null`.
    pub fn from_tag(value: u8) -> (r: ValueType)
        ensures
            1 <= value <= 15 ==> r.spec_tag() == value,
            value == 0 || value > 15 ==> r == ValueType::Null,
    {
        if value == TAG_BOOL {
            ValueType::Bool
        } else if value == TAG_INT8 {
            ValueType::Int8
        } else if value == TAG_INT16 {
            ValueType::Int16
        } else if value == TAG_INT32 {
            ValueType::Int32
        } else if value == TAG_INT64 {
            ValueType::Int64
        } else if value == TAG_FLOAT32 {
            ValueType::Float32
        } else if value == TAG_FLOAT64 {
            ValueType::Float64
        } else if value == TAG_STRING8 {
            ValueType::String8
        } else if value == TAG_STRING16 {
            ValueType::String16
        } else if value == TAG_LIST {
            ValueType::List
        } else if value == TAG_MAP {
            ValueType::Mapping
        } else if value == TAG_BINARY8 {
            ValueType::Binary8
        } else if value == TAG_BINARY16 {
            ValueType::Binary16
        } else if value == TAG_TIMESTAMP {
            ValueType::Timestamp
        } else if value == TAG_UUID {
            ValueType::Uuid
        } else {
            ValueType::Null
        }
    }
}

/// A telemetry value: the tagged union of the wire protocol's data model.
/// Floats are carried as IEEE-754 bit patterns.
#[derive(Debug, PartialEq)]
pub enum Value {
    Null,
    Bool(bool),
    Int(i64),
    /// Bits of a 32-bit IEEE-754 float.
    F32Bits(u32),
    /// Bits of a 64-bit IEEE-754 float.
    F64Bits(u64),
    Str(String),
    Binary(Vec<u8>),
    /// Seconds since the epoch and a millisecond remainder.
    Timestamp(u32, u16),
    List(Vec<Value>),
    Mapping(Vec<(String, Value)>),
}

/// The mathematical model of a `Value`: strings as character sequences,
/// collections as sequences.
pub enum ValueModel {
    Null,
    Bool(bool),
    Int(i64),
    F32Bits(u32),
    F64Bits(u64),
    Str(Seq<char>),
    Binary(Seq<u8>),
    Timestamp(u32, u16),
    List(Seq<ValueModel>),
    Mapping(Seq<(Seq<char>, ValueModel)>),
}

pub open spec fn value_model(v: Value) -> ValueModel
    decreases v,
{
    match v {
        Value::Null => ValueModel::Null,
        Value::Bool(b) => ValueModel::Bool(b),
        Value::Int(i) => ValueModel::Int(i),
        Value::F32Bits(b) => ValueModel::F32Bits(b),
        Value::F64Bits(b) => ValueModel::F64Bits(b),
        Value::Str(s) => ValueModel::Str(s@),
        Value::Binary(b) => ValueModel::Binary(b@),
        Value::Timestamp(s, ms) => ValueModel::Timestamp(s, ms),
        Value::List(items) => ValueModel::List(value_seq_model(items@)),
        Value::Mapping(entries) => ValueModel::Mapping(entry_seq_model(entries@)),
    }
}

pub open spec fn value_seq_model(s: Seq<Value>) -> Seq<ValueModel>
    decreases s,
{
    if s.len() == 0 {
        Seq::empty()
    } else {
        seq![value_model(s[0])] + value_seq_model(s.drop_first())
    }
}

pub open spec fn entry_seq_model(s: Seq<(String, Value)>) -> Seq<(Seq<char>, ValueModel)>
    decreases s,
{
    if s.len() == 0 {
        Seq::empty()
    } else {
        seq![(s[0].0@, value_model(s[0].1))] + entry_seq_model(s.drop_first())
    }
}

impl View for Value {
    type V = ValueModel;

    open spec fn view(&self) -> ValueModel {
        value_model(*self)
    }
}

/// The low byte of an integer in signed 8-bit range, two's complement.
pub open spec fn lo8(i: int) -> u8
    recommends
        -128 <= i <= 127,
{
    if i >= 0 {
        i as u8
    } else {
        (i + 256) as u8
    }
}

/// Sign extension of an 8-bit two's complement byte.
pub open spec fn sx8(b: u8) -> int {
    if b >= 128 {
        b - 256
    } else {
        b as int
    }
}

pub open spec fn lo16(i: int) -> u16
    recommends
        -32768 <= i <= 32767,
{
    if i >= 0 {
        i as u16
    } else {
        (i + 0x10000) as u16
    }
}

pub open spec fn sx16(b: u16) -> int {
    if b >= 0x8000 {
        b - 0x10000
    } else {
        b as int
    }
}

pub open spec fn lo32(i: int) -> u32
    recommends
        -0x8000_0000 <= i <= 0x7fff_ffff,
{
    if i >= 0 {
        i as u32
    } else {
        (i + 0x1_0000_0000) as u32
    }
}

pub open spec fn sx32(b: u32) -> int {
    if b >= 0x8000_0000 {
        b - 0x1_0000_0000
    } else {
        b as int
    }
}

pub open spec fn lo64(i: int) -> u64
    recommends
        i64::MIN <= i <= i64::MAX,
{
    if i >= 0 {
        i as u64
    } else {
        (i + 0x1_0000_0000_0000_0000) as u64
    }
}

pub open spec fn sx64(b: u64) -> int {
    if b >= 0x8000_0000_0000_0000 {
        b - 0x1_0000_0000_0000_0000
    } else {
        b as int
    }
}

/// Encoding of an integer: the narrowest signed variant that holds it.
pub open spec fn spec_encode_int(i: i64) -> Seq<u8> {
    if -128 <= i <= 127 {
        seq![TAG_INT8, lo8(i as int)]
    } else if -32768 <= i <= 32767 {
        seq![TAG_INT16] + spec_u16_to_le_bytes(lo16(i as int))
    } else if -0x8000_0000 <= i <= 0x7fff_ffff {
        seq![TAG_INT32] + spec_u32_to_le_bytes(lo32(i as int))
    } else {
        seq![TAG_INT64] + spec_u64_to_le_bytes(lo64(i as int))
    }
}

/// Encoding of a string: 8-bit length prefix for at most 255 UTF-8
/// bytes, 16-bit prefix otherwise.
pub open spec fn spec_encode_str(s: Seq<char>) -> Seq<u8> {
    let bytes = encode_utf8(s);
    if bytes.len() <= 255 {
        seq![TAG_STRING8, bytes.len() as u8] + bytes
    } else {
        seq![TAG_STRING16] + spec_u16_to_le_bytes(bytes.len() as u16) + bytes
    }
}

/// The byte image of a value model.
pub open spec fn spec_encode(m: ValueModel) -> Seq<u8>
    decreases m,
{
    match m {
        ValueModel::Null => seq![TAG_NULL],
        ValueModel::Bool(b) => seq![
            TAG_BOOL,
            if b {
                1u8
            } else {
                0u8
            },
        ],
        ValueModel::Int(i) => spec_encode_int(i),
        ValueModel::F32Bits(b) => seq![TAG_FLOAT32] + spec_u32_to_le_bytes(b),
        ValueModel::F64Bits(b) => seq![TAG_FLOAT64] + spec_u64_to_le_bytes(b),
        ValueModel::Str(s) => spec_encode_str(s),
        ValueModel::Binary(b) => if b.len() <= 255 {
            seq![TAG_BINARY8, b.len() as u8] + b
        } else {
            seq![TAG_BINARY16] + spec_u16_to_le_bytes(b.len() as u16) + b
        },
        ValueModel::Timestamp(s, ms) => seq![TAG_TIMESTAMP] + spec_u32_to_le_bytes(s)
            + spec_u16_to_le_bytes(ms),
        ValueModel::List(items) => {
            if items.len() <= 255 {
                seq![TAG_LIST, items.len() as u8] + spec_encode_items(items)
            } else {
                seq![TAG_LIST, 255u8] + spec_encode_items(items.subrange(0, 255))
            }
        },
        ValueModel::Mapping(entries) => {
            if entries.len() <= 255 {
                seq![TAG_MAP, entries.len() as u8] + spec_encode_entries(entries)
            } else {
                seq![TAG_MAP, 255u8] + spec_encode_entries(entries.subrange(0, 255))
            }
        },
    }
}

pub open spec fn spec_encode_items(items: Seq<ValueModel>) -> Seq<u8>
    decreases items,
{
    if items.len() == 0 {
        Seq::empty()
    } else {
        spec_encode(items[0]) + spec_encode_items(items.drop_first())
    }
}

pub open spec fn spec_encode_entries(entries: Seq<(Seq<char>, ValueModel)>) -> Seq<u8>
    decreases entries,
{
    if entries.len() == 0 {
        Seq::empty()
    } else {
        spec_encode_str(entries[0].0) + spec_encode(entries[0].1) + spec_encode_entries(
            entries.drop_first(),
        )
    }
}

/// Whether the encoder has a faithful image for the value: strings and
/// binaries fit their largest length prefix.
pub open spec fn encodable(m: ValueModel) -> bool
    decreases m,
{
    match m {
        ValueModel::Str(s) => encode_utf8(s).len() <= 65535,
        ValueModel::Binary(b) => b.len() <= 65535,
        ValueModel::List(items) => encodable_items(items),
        ValueModel::Mapping(entries) => encodable_entries(entries),
        _ => true,
    }
}

pub open spec fn encodable_items(items: Seq<ValueModel>) -> bool
    decreases items,
{
    if items.len() == 0 {
        true
    } else {
        encodable(items[0]) && encodable_items(items.drop_first())
    }
}

pub open spec fn encodable_entries(entries: Seq<(Seq<char>, ValueModel)>) -> bool
    decreases entries,
{
    if entries.len() == 0 {
        true
    } else {
        encode_utf8(entries[0].0).len() <= 65535 && encodable(entries[0].1) && encodable_entries(
            entries.drop_first(),
        )
    }
}

/// Whether every list and map fits the 255-entry cap, so that nothing
/// is dropped on encode.
pub open spec fn within_caps(m: ValueModel) -> bool
    decreases m,
{
    match m {
        ValueModel::List(items) => items.len() <= 255 && within_caps_items(items),
        ValueModel::Mapping(entries) => entries.len() <= 255 && within_caps_entries(entries),
        _ => true,
    }
}

pub open spec fn within_caps_items(items: Seq<ValueModel>) -> bool
    decreases items,
{
    if items.len() == 0 {
        true
    } else {
        within_caps(items[0]) && within_caps_items(items.drop_first())
    }
}

pub open spec fn within_caps_entries(entries: Seq<(Seq<char>, ValueModel)>) -> bool
    decreases entries,
{
    if entries.len() == 0 {
        true
    } else {
        within_caps(entries[0].1) && within_caps_entries(entries.drop_first())
    }
}

/// Whether encoding the value drops entries of an over-long list or map.
pub open spec fn spec_truncated(m: ValueModel) -> bool
    decreases m,
{
    match m {
        ValueModel::List(items) => items.len() > 255 || truncated_items(
            if items.len() <= 255 {
                items
            } else {
                items.subrange(0, 255)
            },
        ),
        ValueModel::Mapping(entries) => entries.len() > 255 || truncated_entries(
            if entries.len() <= 255 {
                entries
            } else {
                entries.subrange(0, 255)
            },
        ),
        _ => false,
    }
}

pub open spec fn truncated_items(items: Seq<ValueModel>) -> bool
    decreases items,
{
    if items.len() == 0 {
        false
    } else {
        spec_truncated(items[0]) || truncated_items(items.drop_first())
    }
}

pub open spec fn truncated_entries(entries: Seq<(Seq<char>, ValueModel)>) -> bool
    decreases entries,
{
    if entries.len() == 0 {
        false
    } else {
        spec_truncated(entries[0].1) || truncated_entries(entries.drop_first())
    }
}

proof fn lemma_encodable_items_index(items: Seq<ValueModel>, i: int)
    requires
        encodable_items(items),
        0 <= i < items.len(),
    ensures
        encodable(items[i]),
    decreases i,
{
    if i > 0 {
        lemma_encodable_items_index(items.drop_first(), i - 1);
    }
}

proof fn lemma_encodable_entries_index(entries: Seq<(Seq<char>, ValueModel)>, i: int)
    requires
        encodable_entries(entries),
        0 <= i < entries.len(),
    ensures
        encode_utf8(entries[i].0).len() <= 65535,
        encodable(entries[i].1),
    decreases i,
{
    if i > 0 {
        lemma_encodable_entries_index(entries.drop_first(), i - 1);
    }
}

proof fn lemma_truncated_items_snoc(items: Seq<ValueModel>, k: int)
    requires
        0 <= k < items.len(),
    ensures
        truncated_items(items.take(k + 1)) == (truncated_items(items.take(k)) || spec_truncated(
            items[k],
        )),
    decreases k,
{
    let t = items.take(k + 1);
    if k == 0 {
        assert(t.drop_first() =~= items.take(0));
        assert(items.take(0).len() == 0);
        assert(t[0] == items[0]);
    } else {
        let d = items.drop_first();
        assert(t.drop_first() =~= d.take(k));
        assert(items.take(k).drop_first() =~= d.take(k - 1));
        lemma_truncated_items_snoc(d, k - 1);
        assert(d.take(k - 1 + 1) =~= d.take(k));
        assert(d[k - 1] == items[k]);
    }
}

proof fn lemma_truncated_entries_snoc(entries: Seq<(Seq<char>, ValueModel)>, k: int)
    requires
        0 <= k < entries.len(),
    ensures
        truncated_entries(entries.take(k + 1)) == (truncated_entries(entries.take(k))
            || spec_truncated(entries[k].1)),
    decreases k,
{
    let t = entries.take(k + 1);
    if k == 0 {
        assert(t.drop_first() =~= entries.take(0));
        assert(entries.take(0).len() == 0);
        assert(t[0] == entries[0]);
    } else {
        let d = entries.drop_first();
        assert(t.drop_first() =~= d.take(k));
        assert(entries.take(k).drop_first() =~= d.take(k - 1));
        lemma_truncated_entries_snoc(d, k - 1);
        assert(d.take(k - 1 + 1) =~= d.take(k));
        assert(d[k - 1] == entries[k]);
    }
}

proof fn lemma_encode_items_snoc(items: Seq<ValueModel>, k: int)
    requires
        0 <= k < items.len(),
    ensures
        spec_encode_items(items.take(k + 1)) == spec_encode_items(items.take(k)) + spec_encode(
            items[k],
        ),
    decreases k,
{
    let t = items.take(k + 1);
    if k == 0 {
        assert(t.drop_first() =~= items.take(0));
        assert(spec_encode_items(items.take(0)) =~= Seq::<u8>::empty());
        assert(spec_encode_items(t) =~= spec_encode(items[0]) + spec_encode_items(items.take(0)));
        assert(spec_encode_items(items.take(1)) =~= spec_encode_items(items.take(0)) + spec_encode(
            items[0],
        ));
    } else {
        let d = items.drop_first();
        assert(t.drop_first() =~= d.take(k));
        assert(items.take(k).drop_first() =~= d.take(k - 1));
        lemma_encode_items_snoc(d, k - 1);
        assert(d.take(k - 1 + 1) =~= d.take(k));
        assert(spec_encode_items(items.take(k + 1)) == spec_encode(items[0]) + spec_encode_items(
            d.take(k),
        ));
        assert(spec_encode_items(items.take(k)) == spec_encode(items[0]) + spec_encode_items(
            d.take(k - 1),
        ));
        assert(d[k - 1] == items[k]);
        assert(spec_encode(items[0]) + (spec_encode_items(d.take(k - 1)) + spec_encode(items[k]))
            =~= (spec_encode(items[0]) + spec_encode_items(d.take(k - 1))) + spec_encode(items[k]));
    }
}

proof fn lemma_encode_entries_snoc(entries: Seq<(Seq<char>, ValueModel)>, k: int)
    requires
        0 <= k < entries.len(),
    ensures
        spec_encode_entries(entries.take(k + 1)) == spec_encode_entries(entries.take(k))
            + spec_encode_str(entries[k].0) + spec_encode(entries[k].1),
    decreases k,
{
    let t = entries.take(k + 1);
    if k == 0 {
        assert(t.drop_first() =~= entries.take(0));
        assert(spec_encode_entries(entries.take(0)) =~= Seq::<u8>::empty());
        assert(spec_encode_entries(t) =~= spec_encode_str(entries[0].0) + spec_encode(
            entries[0].1,
        ) + spec_encode_entries(entries.take(0)));
        assert(spec_encode_entries(entries.take(0)) + spec_encode_str(entries[0].0) + spec_encode(
            entries[0].1,
        ) =~= spec_encode_str(entries[0].0) + spec_encode(entries[0].1));
    } else {
        let d = entries.drop_first();
        assert(t.drop_first() =~= d.take(k));
        assert(entries.take(k).drop_first() =~= d.take(k - 1));
        lemma_encode_entries_snoc(d, k - 1);
        assert(d.take(k - 1 + 1) =~= d.take(k));
        let head = spec_encode_str(entries[0].0) + spec_encode(entries[0].1);
        assert(spec_encode_entries(entries.take(k + 1)) == head + spec_encode_entries(d.take(k)));
        assert(spec_encode_entries(entries.take(k)) == head + spec_encode_entries(d.take(k - 1)));
        assert(d[k - 1] == entries[k]);
        assert(head + (spec_encode_entries(d.take(k - 1)) + spec_encode_str(entries[k].0)
            + spec_encode(entries[k].1)) =~= ((head + spec_encode_entries(d.take(k - 1)))
            + spec_encode_str(entries[k].0)) + spec_encode(entries[k].1));
    }
}

pub proof fn lemma_value_seq_model_index(s: Seq<Value>, i: int)
    requires
        0 <= i < s.len(),
    ensures
        value_seq_model(s).len() == s.len(),
        value_seq_model(s)[i] == value_model(s[i]),
    decreases s.len(),
{
    if s.len() > 0 {
        if i > 0 {
            lemma_value_seq_model_index(s.drop_first(), i - 1);
        } else {
            lemma_value_seq_model_len(s.drop_first());
        }
    }
}

pub proof fn lemma_value_seq_model_len(s: Seq<Value>)
    ensures
        value_seq_model(s).len() == s.len(),
    decreases s.len(),
{
    if s.len() > 0 {
        lemma_value_seq_model_len(s.drop_first());
    }
}

pub proof fn lemma_entry_seq_model_index(s: Seq<(String, Value)>, i: int)
    requires
        0 <= i < s.len(),
    ensures
        entry_seq_model(s).len() == s.len(),
        entry_seq_model(s)[i] == (s[i].0@, value_model(s[i].1)),
    decreases s.len(),
{
    if s.len() > 0 {
        if i > 0 {
            lemma_entry_seq_model_index(s.drop_first(), i - 1);
        } else {
            lemma_entry_seq_model_len(s.drop_first());
        }
    }
}

pub proof fn lemma_entry_seq_model_len(s: Seq<(String, Value)>)
    ensures
        entry_seq_model(s).len() == s.len(),
    decreases s.len(),
{
    if s.len() > 0 {
        lemma_entry_seq_model_len(s.drop_first());
    }
}

pub proof fn lemma_entry_seq_model_push(s: Seq<(String, Value)>, e: (String, Value))
    ensures
        entry_seq_model(s.push(e)) == entry_seq_model(s).push((e.0@, value_model(e.1))),
    decreases s.len(),
{
    lemma_entry_seq_model_len(s);
    lemma_entry_seq_model_len(s.push(e));
    if s.len() == 0 {
        assert(s.push(e)[0] == e);
        assert(s.push(e).drop_first() =~= Seq::<(String, Value)>::empty());
        assert(entry_seq_model(s.push(e)) =~= entry_seq_model(s).push((e.0@, value_model(e.1))));
    } else {
        assert(s.push(e)[0] == s[0]);
        assert(s.push(e).drop_first() =~= s.drop_first().push(e));
        lemma_entry_seq_model_push(s.drop_first(), e);
        assert(entry_seq_model(s.push(e)) =~= entry_seq_model(s).push((e.0@, value_model(e.1))));
    }
}

/// Write the string encoding (tag, length prefix, UTF-8 bytes).
fn encode_str_bytes(s: &str, buffer: &mut Vec<u8>)
    requires
        s.spec_bytes().len() <= 65535,
    ensures
        final(buffer)@ == old(buffer)@ + spec_encode_str(s@),
{
    let bytes = s.as_bytes();
    let len = bytes.len();
    if len <= 255 {
        buffer.push(TAG_STRING8);
        buffer.push(len as u8);
        buffer.extend_from_slice(bytes);
        proof {
            assert(buffer@ =~= old(buffer)@ + spec_encode_str(s@));
        }
    } else {
        buffer.push(TAG_STRING16);
        let len_bytes = u16_to_le_bytes(len as u16);
        buffer.extend_from_slice(len_bytes.as_slice());
        buffer.extend_from_slice(bytes);
        proof {
            assert(buffer@ =~= old(buffer)@ + spec_encode_str(s@));
        }
    }
}

/// Append the encoding of `v` to `buffer`; reports whether any list or
/// map entries were dropped by the 255-entry cap.
#[verifier::loop_isolation(false)]
pub fn encode(v: &Value, buffer: &mut Vec<u8>) -> (truncated: bool)
    requires
        encodable(v@),
    ensures
        final(buffer)@ == old(buffer)@ + spec_encode(v@),
        truncated == spec_truncated(v@),
    decreases v, 1nat,
{
    match v {
        Value::Null => {
            buffer.push(TAG_NULL);
            proof {
                assert(buffer@ =~= old(buffer)@ + spec_encode(v@));
            }
            false
        },
        Value::Bool(b) => {
            buffer.push(TAG_BOOL);
            buffer.push(if *b {
                1u8
            } else {
                0u8
            });
            proof {
                assert(buffer@ =~= old(buffer)@ + spec_encode(v@));
            }
            false
        },
        Value::Int(i) => {
            let i = *i;
            if -128 <= i && i <= 127 {
                buffer.push(TAG_INT8);
                let b: u8 = if i >= 0 {
                    i as u8
                } else {
                    (i + 256) as u8
                };
                buffer.push(b);
            } else if -32768 <= i && i <= 32767 {
                buffer.push(TAG_INT16);
                let w: u16 = if i >= 0 {
                    i as u16
                } else {
                    (i + 0x10000) as u16
                };
                let wb = u16_to_le_bytes(w);
                buffer.extend_from_slice(wb.as_slice());
            } else if -0x8000_0000 <= i && i <= 0x7fff_ffff {
                buffer.push(TAG_INT32);
                let w: u32 = if i >= 0 {
                    i as u32
                } else {
                    (i + 0x1_0000_0000) as u32
                };
                let wb = u32_to_le_bytes(w);
                buffer.extend_from_slice(wb.as_slice());
            } else {
                buffer.push(TAG_INT64);
                let w: u64 = if i >= 0 {
                    i as u64
                } else {
                    (((i as i128) + 0x1_0000_0000_0000_0000i128) as u64)
                };
                let wb = u64_to_le_bytes(w);
                buffer.extend_from_slice(wb.as_slice());
            }
            proof {
                assert(buffer@ =~= old(buffer)@ + spec_encode(v@));
            }
            false
        },
        Value::F32Bits(b) => {
            buffer.push(TAG_FLOAT32);
            let wb = u32_to_le_bytes(*b);
            buffer.extend_from_slice(wb.as_slice());
            proof {
                assert(buffer@ =~= old(buffer)@ + spec_encode(v@));
            }
            false
        },
        Value::F64Bits(b) => {
            buffer.push(TAG_FLOAT64);
            let wb = u64_to_le_bytes(*b);
            buffer.extend_from_slice(wb.as_slice());
            proof {
                assert(buffer@ =~= old(buffer)@ + spec_encode(v@));
            }
            false
        },
        Value::Str(s) => {
            encode_str_bytes(s.as_str(), buffer);
            false
        },
        Value::Binary(b) => {
            let len = b.len();
            if len <= 255 {
                buffer.push(TAG_BINARY8);
                buffer.push(len as u8);
                buffer.extend_from_slice(b.as_slice());
            } else {
                buffer.push(TAG_BINARY16);
                let len_bytes = u16_to_le_bytes(len as u16);
                buffer.extend_from_slice(len_bytes.as_slice());
                buffer.extend_from_slice(b.as_slice());
            }
            proof {
                assert(buffer@ =~= old(buffer)@ + spec_encode(v@));
            }
            false
        },
        Value::Timestamp(secs, ms) => {
            buffer.push(TAG_TIMESTAMP);
            let sb = u32_to_le_bytes(*secs);
            buffer.extend_from_slice(sb.as_slice());
            let mb = u16_to_le_bytes(*ms);
            buffer.extend_from_slice(mb.as_slice());
            proof {
                assert(buffer@ =~= old(buffer)@ + spec_encode(v@));
            }
            false
        },
        Value::List(items) => encode_list(items, buffer),
        Value::Mapping(entries) => encode_map(entries, buffer),
    }
}

/// Append the encoding of a list value (tag, capped count, elements).
#[verifier::loop_isolation(false)]
fn encode_list(items: &Vec<Value>, buffer: &mut Vec<u8>) -> (truncated: bool)
    requires
        encodable(ValueModel::List(value_seq_model(items@))),
    ensures
        final(buffer)@ == old(buffer)@ + spec_encode(ValueModel::List(value_seq_model(items@))),
        truncated == spec_truncated(ValueModel::List(value_seq_model(items@))),
    decreases items, 0nat,
{
    let ghost items_m = value_seq_model(items@);
    proof {
        lemma_value_seq_model_len(items@);
        assert(encodable_items(items_m));
    }
    let total = items.len();
    let n = if total <= 255 {
        total
    } else {
        255
    };
    buffer.push(TAG_LIST);
    buffer.push(n as u8);
    let ghost prefix = old(buffer)@ + seq![TAG_LIST, n as u8];
    let mut truncated = total > 255;
    let mut idx: usize = 0;
    while idx < n
        invariant
            idx <= n,
            buffer@ == prefix + spec_encode_items(items_m.take(idx as int)),
            truncated == (items@.len() > 255 || truncated_items(items_m.take(idx as int))),
        decreases n - idx,
    {
        proof {
            lemma_value_seq_model_index(items@, idx as int);
            assert(decreases_to!(items@ => items@[idx as int]));
            lemma_encodable_items_index(items_m, idx as int);
        }
        let t = encode(&items[idx], buffer);
        proof {
            lemma_encode_items_snoc(items_m, idx as int);
            lemma_truncated_items_snoc(items_m, idx as int);
        }
        truncated = truncated || t;
        idx = idx + 1;
    }
    proof {
        if items_m.len() <= 255 {
            assert(items_m.take(n as int) =~= items_m);
        } else {
            assert(items_m.take(n as int) =~= items_m.subrange(0, 255));
        }
        assert(buffer@ =~= old(buffer)@ + spec_encode(ValueModel::List(items_m)));
    }
    truncated
}

/// Append the encoding of a map value (tag, capped count, key/value pairs).
#[verifier::loop_isolation(false)]
fn encode_map(entries: &Vec<(String, Value)>, buffer: &mut Vec<u8>) -> (truncated: bool)
    requires
        encodable(ValueModel::Mapping(entry_seq_model(entries@))),
    ensures
        final(buffer)@ == old(buffer)@ + spec_encode(
            ValueModel::Mapping(entry_seq_model(entries@)),
        ),
        truncated == spec_truncated(ValueModel::Mapping(entry_seq_model(entries@))),
    decreases entries, 0nat,
{
    let ghost entries_m = entry_seq_model(entries@);
    proof {
        lemma_entry_seq_model_len(entries@);
        assert(encodable_entries(entries_m));
    }
    let total = entries.len();
    let n = if total <= 255 {
        total
    } else {
        255
    };
    buffer.push(TAG_MAP);
    buffer.push(n as u8);
    let ghost prefix = old(buffer)@ + seq![TAG_MAP, n as u8];
    let mut truncated = total > 255;
    let mut idx: usize = 0;
    while idx < n
        invariant
            idx <= n,
            buffer@ == prefix + spec_encode_entries(entries_m.take(idx as int)),
            truncated == (entries@.len() > 255 || truncated_entries(entries_m.take(idx as int))),
        decreases n - idx,
    {
        proof {
            lemma_entry_seq_model_index(entries@, idx as int);
            assert(decreases_to!(entries@ => entries@[idx as int]));
            lemma_encodable_entries_index(entries_m, idx as int);
        }
        encode_str_bytes(entries[idx].0.as_str(), buffer);
        let t = encode(&entries[idx].1, buffer);
        proof {
            lemma_encode_entries_snoc(entries_m, idx as int);
            lemma_truncated_entries_snoc(entries_m, idx as int);
            assert(buffer@ =~= prefix + spec_encode_entries(entries_m.take(idx as int + 1)));
        }
        truncated = truncated || t;
        idx = idx + 1;
    }
    proof {
        if entries_m.len() <= 255 {
            assert(entries_m.take(n as int) =~= entries_m);
        } else {
            assert(entries_m.take(n as int) =~= entries_m.subrange(0, 255));
        }
        assert(buffer@ =~= old(buffer)@ + spec_encode(ValueModel::Mapping(entries_m)));
    }
    truncated
}

/// Result of parsing a string header at the front of `data`: the text
/// and the number of bytes consumed.
pub open spec fn spec_decode_str(data: Seq<u8>) -> Option<(Seq<char>, int)> {
    if data.len() < 2 {
        None
    } else if data[0] == TAG_STRING8 {
        let n = data[1] as int;
        if data.len() < 2 + n {
            None
        } else {
            let bytes = data.subrange(2, 2 + n);
            if valid_utf8(bytes) {
                Some((decode_utf8(bytes), 2 + n))
            } else {
                None
            }
        }
    } else if data[0] == TAG_STRING16 {
        if data.len() < 3 {
            None
        } else {
            let n = spec_u16_from_le_bytes(data.subrange(1, 3)) as int;
            if data.len() < 3 + n {
                None
            } else {
                let bytes = data.subrange(3, 3 + n);
                if valid_utf8(bytes) {
                    Some((decode_utf8(bytes), 3 + n))
                } else {
                    None
                }
            }
        }
    } else {
        None
    }
}

/// Parse one value at the front of `data`; `Some` carries the value and
/// the number of bytes consumed.
pub open spec fn spec_decode(data: Seq<u8>) -> Option<(ValueModel, int)>
    decreases data.len(), 0nat,
{
    if data.len() < 1 {
        None
    } else {
        let tag = data[0];
        if tag == TAG_NULL {
            Some((ValueModel::Null, 1))
        } else if tag == TAG_BOOL {
            if data.len() < 2 {
                None
            } else {
                Some((ValueModel::Bool(data[1] != 0), 2))
            }
        } else if tag == TAG_INT8 {
            if data.len() < 2 {
                None
            } else {
                Some((ValueModel::Int(sx8(data[1]) as i64), 2))
            }
        } else if tag == TAG_INT16 {
            if data.len() < 3 {
                None
            } else {
                Some((ValueModel::Int(sx16(spec_u16_from_le_bytes(data.subrange(1, 3))) as i64), 3))
            }
        } else if tag == TAG_INT32 {
            if data.len() < 5 {
                None
            } else {
                Some((ValueModel::Int(sx32(spec_u32_from_le_bytes(data.subrange(1, 5))) as i64), 5))
            }
        } else if tag == TAG_INT64 {
            if data.len() < 9 {
                None
            } else {
                Some((ValueModel::Int(sx64(spec_u64_from_le_bytes(data.subrange(1, 9))) as i64), 9))
            }
        } else if tag == TAG_FLOAT32 {
            if data.len() < 5 {
                None
            } else {
                Some((ValueModel::F32Bits(spec_u32_from_le_bytes(data.subrange(1, 5))), 5))
            }
        } else if tag == TAG_FLOAT64 {
            if data.len() < 9 {
                None
            } else {
                Some((ValueModel::F64Bits(spec_u64_from_le_bytes(data.subrange(1, 9))), 9))
            }
        } else if tag == TAG_STRING8 || tag == TAG_STRING16 {
            match spec_decode_str(data) {
                Some((text, used)) => Some((ValueModel::Str(text), used)),
                None => None,
            }
        } else if tag == TAG_LIST {
            if data.len() < 2 {
                None
            } else {
                match spec_decode_items(data.subrange(2, data.len() as int), data[1] as nat) {
                    Some((items, used)) => Some((ValueModel::List(items), 2 + used)),
                    None => None,
                }
            }
        } else if tag == TAG_MAP {
            if data.len() < 2 {
                None
            } else {
                match spec_decode_entries(data.subrange(2, data.len() as int), data[1] as nat) {
                    Some((entries, used)) => Some((ValueModel::Mapping(entries), 2 + used)),
                    None => None,
                }
            }
        } else if tag == TAG_BINARY8 {
            if data.len() < 2 {
                None
            } else {
                let n = data[1] as int;
                if data.len() < 2 + n {
                    None
                } else {
                    Some((ValueModel::Binary(data.subrange(2, 2 + n)), 2 + n))
                }
            }
        } else if tag == TAG_BINARY16 {
            if data.len() < 3 {
                None
            } else {
                let n = spec_u16_from_le_bytes(data.subrange(1, 3)) as int;
                if data.len() < 3 + n {
                    None
                } else {
                    Some((ValueModel::Binary(data.subrange(3, 3 + n)), 3 + n))
                }
            }
        } else if tag == TAG_TIMESTAMP {
            if data.len() < 7 {
                None
            } else {
                Some((
                    ValueModel::Timestamp(
                        spec_u32_from_le_bytes(data.subrange(1, 5)),
                        spec_u16_from_le_bytes(data.subrange(5, 7)),
                    ),
                    7,
                ))
            }
        } else {
            None
        }
    }
}

/// Parse `n` consecutive values at the front of `data`.
pub open spec fn spec_decode_items(data: Seq<u8>, n: nat) -> Option<(Seq<ValueModel>, int)>
    decreases data.len(), n + 1,
{
    if n == 0 {
        Some((Seq::empty(), 0))
    } else {
        match spec_decode(data) {
            Some((m, used)) => {
                if 0 < used <= data.len() {
                    match spec_decode_items(
                        data.subrange(used, data.len() as int),
                        (n - 1) as nat,
                    ) {
                        Some((more, used2)) => Some((seq![m] + more, used + used2)),
                        None => None,
                    }
                } else {
                    None
                }
            },
            None => None,
        }
    }
}

/// Parse `n` consecutive key/value pairs at the front of `data`.
pub open spec fn spec_decode_entries(data: Seq<u8>, n: nat) -> Option<
    (Seq<(Seq<char>, ValueModel)>, int),
>
    decreases data.len(), n + 1,
{
    if n == 0 {
        Some((Seq::empty(), 0))
    } else {
        match spec_decode_str(data) {
            Some((key, kused)) => {
                if 0 < kused <= data.len() {
                    match spec_decode(data.subrange(kused, data.len() as int)) {
                        Some((m, vused)) => {
                            if 0 < vused <= data.len() - kused {
                                match spec_decode_entries(
                                    data.subrange(kused + vused, data.len() as int),
                                    (n - 1) as nat,
                                ) {
                                    Some((more, used2)) => Some(
                                        (seq![(key, m)] + more, kused + vused + used2),
                                    ),
                                    None => None,
                                }
                            } else {
                                None
                            }
                        },
                        None => None,
                    }
                } else {
                    None
                }
            },
            None => None,
        }
    }
}

proof fn lemma_encode_len_pos(m: ValueModel)
    ensures
        spec_encode(m).len() >= 1,
{
    match m {
        ValueModel::Int(i) => {
            assert(spec_encode_int(i).len() >= 1);
        },
        ValueModel::Str(str_chars) => {
            assert(spec_encode_str(str_chars).len() >= 2);
        },
        _ => {},
    }
}

proof fn lemma_str_round_trip(str_chars: Seq<char>, rest: Seq<u8>)
    requires
        encode_utf8(str_chars).len() <= 65535,
    ensures
        spec_decode_str(spec_encode_str(str_chars) + rest) == Some(
            (str_chars, spec_encode_str(str_chars).len() as int),
        ),
{
    let bytes = encode_utf8(str_chars);
    let e = spec_encode_str(str_chars);
    let data = e + rest;
    lemma_auto_spec_u16_to_from_le_bytes();
    vstd::utf8::encode_utf8_valid_utf8(str_chars);
    vstd::utf8::encode_utf8_decode_utf8(str_chars);
    if bytes.len() <= 255 {
        assert(data[0] == TAG_STRING8);
        assert(data[1] == bytes.len() as u8);
        assert(data[1] as int == bytes.len());
        assert(data.len() >= 2 + bytes.len());
        assert(data.subrange(2, 2 + bytes.len() as int) =~= bytes);
    } else {
        assert(data[0] == TAG_STRING16);
        assert(data.subrange(1, 3) =~= spec_u16_to_le_bytes(bytes.len() as u16));
        lemma_auto_spec_u16_to_from_le_bytes();
        assert(spec_u16_from_le_bytes(data.subrange(1, 3)) == bytes.len() as u16);
        assert(spec_u16_from_le_bytes(data.subrange(1, 3)) as int == bytes.len());
        assert(data.len() >= 3 + bytes.len());
        assert(data.subrange(3, 3 + bytes.len() as int) =~= bytes);
    }
}

/// Decoding inverts encoding: parsing the encoding of a value (with any
/// trailing bytes) returns that value and consumes exactly its encoding.
pub proof fn lemma_value_round_trip(m: ValueModel, rest: Seq<u8>)
    requires
        encodable(m),
        within_caps(m),
    ensures
        spec_decode(spec_encode(m) + rest) == Some((m, spec_encode(m).len() as int)),
    decreases m,
{
    let e = spec_encode(m);
    let data = e + rest;
    lemma_auto_spec_u16_to_from_le_bytes();
    lemma_auto_spec_u32_to_from_le_bytes();
    lemma_auto_spec_u64_to_from_le_bytes();
    match m {
        ValueModel::Null => {
            assert(data[0] == TAG_NULL);
        },
        ValueModel::Bool(b) => {
            assert(data[0] == TAG_BOOL);
            if b {
                assert(data[1] == 1u8);
            } else {
                assert(data[1] == 0u8);
            }
        },
        ValueModel::Int(i) => {
            let ii = i as int;
            if -128 <= ii && ii <= 127 {
                assert(data[0] == TAG_INT8);
                assert(data[1] == lo8(ii));
                assert(sx8(lo8(ii)) == ii);
            } else if -32768 <= ii && ii <= 32767 {
                assert(data[0] == TAG_INT16);
                assert(data.subrange(1, 3) =~= spec_u16_to_le_bytes(lo16(ii)));
                lemma_auto_spec_u16_to_from_le_bytes();
                assert(sx16(lo16(ii)) == ii);
            } else if -0x8000_0000 <= ii && ii <= 0x7fff_ffff {
                assert(data[0] == TAG_INT32);
                assert(data.subrange(1, 5) =~= spec_u32_to_le_bytes(lo32(ii)));
                lemma_auto_spec_u32_to_from_le_bytes();
                assert(sx32(lo32(ii)) == ii);
            } else {
                assert(data[0] == TAG_INT64);
                assert(data.subrange(1, 9) =~= spec_u64_to_le_bytes(lo64(ii)));
                lemma_auto_spec_u64_to_from_le_bytes();
                assert(sx64(lo64(ii)) == ii);
            }
        },
        ValueModel::F32Bits(b) => {
            assert(data[0] == TAG_FLOAT32);
            assert(data.subrange(1, 5) =~= spec_u32_to_le_bytes(b));
            lemma_auto_spec_u32_to_from_le_bytes();
        },
        ValueModel::F64Bits(b) => {
            assert(data[0] == TAG_FLOAT64);
            assert(data.subrange(1, 9) =~= spec_u64_to_le_bytes(b));
            lemma_auto_spec_u64_to_from_le_bytes();
        },
        ValueModel::Str(str_chars) => {
            lemma_str_round_trip(str_chars, rest);
            let bytes = encode_utf8(str_chars);
            if bytes.len() <= 255 {
                assert(data[0] == TAG_STRING8);
            } else {
                assert(data[0] == TAG_STRING16);
            }
        },
        ValueModel::Binary(b) => {
            if b.len() <= 255 {
                assert(data[0] == TAG_BINARY8);
                assert(data[1] as int == b.len());
                assert(data.subrange(2, 2 + b.len() as int) =~= b);
            } else {
                assert(data[0] == TAG_BINARY16);
                assert(data.subrange(1, 3) =~= spec_u16_to_le_bytes(b.len() as u16));
                lemma_auto_spec_u16_to_from_le_bytes();
                assert(spec_u16_from_le_bytes(data.subrange(1, 3)) as int == b.len());
                assert(data.subrange(3, 3 + b.len() as int) =~= b);
            }
        },
        ValueModel::Timestamp(secs, ms) => {
            assert(data[0] == TAG_TIMESTAMP);
            assert(data.subrange(1, 5) =~= spec_u32_to_le_bytes(secs));
            assert(data.subrange(5, 7) =~= spec_u16_to_le_bytes(ms));
            lemma_auto_spec_u32_to_from_le_bytes();
            lemma_auto_spec_u16_to_from_le_bytes();
        },
        ValueModel::List(items) => {
            assert(data[0] == TAG_LIST);
            assert(items.len() <= 255);
            assert(data[1] == items.len() as u8);
            assert(data[1] as nat == items.len());
            lemma_items_round_trip(items, rest);
            assert(data.subrange(2, data.len() as int) =~= spec_encode_items(items) + rest);
            assert(spec_decode_items(data.subrange(2, data.len() as int), items.len() as nat)
                == Some((items, spec_encode_items(items).len() as int)));
            assert(e.len() == 2 + spec_encode_items(items).len());
        },
        ValueModel::Mapping(entries) => {
            assert(data[0] == TAG_MAP);
            assert(entries.len() <= 255);
            assert(data[1] == entries.len() as u8);
            assert(data[1] as nat == entries.len());
            lemma_entries_round_trip(entries, rest);
            assert(data.subrange(2, data.len() as int) =~= spec_encode_entries(entries) + rest);
            assert(spec_decode_entries(data.subrange(2, data.len() as int), entries.len() as nat)
                == Some((entries, spec_encode_entries(entries).len() as int)));
            assert(e.len() == 2 + spec_encode_entries(entries).len());
        },
    }
}

proof fn lemma_items_round_trip(items: Seq<ValueModel>, rest: Seq<u8>)
    requires
        encodable_items(items),
        within_caps_items(items),
    ensures
        spec_decode_items(spec_encode_items(items) + rest, items.len() as nat) == Some(
            (items, spec_encode_items(items).len() as int),
        ),
    decreases items,
{
    if items.len() == 0 {
        assert(spec_encode_items(items) + rest =~= rest);
        assert(spec_decode_items(rest, 0) == Some((Seq::<ValueModel>::empty(), 0int)));
        assert(items =~= Seq::<ValueModel>::empty());
    } else {
        let head = items[0];
        let tail = items.drop_first();
        let e_head = spec_encode(head);
        let e_tail = spec_encode_items(tail);
        let data = spec_encode_items(items) + rest;
        lemma_value_round_trip(head, e_tail + rest);
        lemma_encode_len_pos(head);
        assert(data =~= e_head + (e_tail + rest));
        assert(spec_decode(data) == Some((head, e_head.len() as int)));
        assert(0 < e_head.len() <= data.len());
        assert(data.subrange(e_head.len() as int, data.len() as int) =~= e_tail + rest);
        lemma_items_round_trip(tail, rest);
        assert(spec_decode_items(data.subrange(e_head.len() as int, data.len() as int), tail.len() as nat)
            == Some((tail, e_tail.len() as int)));
        assert(seq![head] + tail =~= items);
        assert(spec_encode_items(items).len() == e_head.len() + e_tail.len());
    }
}

proof fn lemma_entries_round_trip(entries: Seq<(Seq<char>, ValueModel)>, rest: Seq<u8>)
    requires
        encodable_entries(entries),
        within_caps_entries(entries),
    ensures
        spec_decode_entries(spec_encode_entries(entries) + rest, entries.len() as nat) == Some(
            (entries, spec_encode_entries(entries).len() as int),
        ),
    decreases entries,
{
    if entries.len() == 0 {
        assert(spec_encode_entries(entries) + rest =~= rest);
        assert(spec_decode_entries(rest, 0) == Some(
            (Seq::<(Seq<char>, ValueModel)>::empty(), 0int),
        ));
        assert(entries =~= Seq::<(Seq<char>, ValueModel)>::empty());
    } else {
        let key = entries[0].0;
        let val = entries[0].1;
        let tail = entries.drop_first();
        let e_key = spec_encode_str(key);
        let e_val = spec_encode(val);
        let e_tail = spec_encode_entries(tail);
        let data = spec_encode_entries(entries) + rest;
        assert(data =~= e_key + (e_val + (e_tail + rest)));
        lemma_str_round_trip(key, e_val + (e_tail + rest));
        assert(spec_decode_str(data) == Some((key, e_key.len() as int)));
        assert(0 < e_key.len() <= data.len());
        assert(data.subrange(e_key.len() as int, data.len() as int) =~= e_val + (e_tail + rest));
        lemma_value_round_trip(val, e_tail + rest);
        lemma_encode_len_pos(val);
        assert(spec_decode(data.subrange(e_key.len() as int, data.len() as int)) == Some(
            (val, e_val.len() as int),
        ));
        assert(0 < e_val.len() <= data.len() - e_key.len());
        assert(data.subrange(e_key.len() + e_val.len() as int, data.len() as int) =~= e_tail + rest);
        lemma_entries_round_trip(tail, rest);
        assert(spec_decode_entries(
            data.subrange(e_key.len() + e_val.len() as int, data.len() as int),
            tail.len() as nat,
        ) == Some((tail, e_tail.len() as int)));
        assert(seq![(key, val)] + tail =~= entries);
        assert(spec_encode_entries(entries).len() == e_key.len() + e_val.len() + e_tail.len());
    }
}

proof fn lemma_spec_decode_str_bounds(data: Seq<u8>)
    ensures
        spec_decode_str(data) is Some ==> 2 <= spec_decode_str(data).unwrap().1 <= data.len(),
{
}

proof fn lemma_spec_decode_bounds(data: Seq<u8>)
    ensures
        spec_decode(data) is Some ==> 0 < spec_decode(data).unwrap().1 <= data.len(),
    decreases data.len(), 0nat,
{
    if data.len() >= 1 {
        let tag = data[0];
        if tag == TAG_LIST || tag == TAG_MAP {
            if data.len() >= 2 {
                if tag == TAG_LIST {
                    lemma_spec_decode_items_bounds(
                        data.subrange(2, data.len() as int),
                        data[1] as nat,
                    );
                } else {
                    lemma_spec_decode_entries_bounds(
                        data.subrange(2, data.len() as int),
                        data[1] as nat,
                    );
                }
            }
        }
    }
}

proof fn lemma_spec_decode_items_bounds(data: Seq<u8>, n: nat)
    ensures
        spec_decode_items(data, n) is Some ==> 0 <= spec_decode_items(data, n).unwrap().1
            <= data.len(),
    decreases data.len(), n + 1,
{
    if n > 0 {
        lemma_spec_decode_bounds(data);
        match spec_decode(data) {
            Some((m, used)) => {
                if 0 < used <= data.len() {
                    lemma_spec_decode_items_bounds(
                        data.subrange(used, data.len() as int),
                        (n - 1) as nat,
                    );
                }
            },
            None => {},
        }
    }
}

proof fn lemma_spec_decode_entries_bounds(data: Seq<u8>, n: nat)
    ensures
        spec_decode_entries(data, n) is Some ==> 0 <= spec_decode_entries(data, n).unwrap().1
            <= data.len(),
    decreases data.len(), n + 1,
{
    if n > 0 {
        lemma_spec_decode_str_bounds(data);
        match spec_decode_str(data) {
            Some((key, kused)) => {
                if 0 < kused <= data.len() {
                    let data2 = data.subrange(kused, data.len() as int);
                    lemma_spec_decode_bounds(data2);
                    match spec_decode(data2) {
                        Some((m, vused)) => {
                            if 0 < vused <= data.len() - kused {
                                lemma_spec_decode_entries_bounds(
                                    data.subrange(kused + vused as int, data.len() as int),
                                    (n - 1) as nat,
                                );
                            }
                        },
                        None => {},
                    }
                }
            },
            None => {},
        }
    }
}

/// Parse the string whose header starts at `pos`.
fn decode_str_at(data: &[u8], pos: usize) -> (r: Result<(String, usize), AgentError>)
    requires
        pos <= data@.len(),
    ensures
        ({
            let rem = data@.skip(pos as int);
            match spec_decode_str(rem) {
                Some((text, used)) => r is Ok && r.unwrap().0@ == text && r.unwrap().1 == pos
                    + used,
                None => r is Err,
            }
        }),
{
    let ghost rem = data@.skip(pos as int);
    let len = data.len();
    if len - pos < 2 {
        return Err(AgentError::InvalidData);
    }
    let tag = *vstd::slice::slice_index_get(data, pos);
    proof {
        assert(rem[0] == data@[pos as int]);
        assert(rem[1] == data@[pos as int + 1]);
    }
    if tag == TAG_STRING8 {
        let n = *vstd::slice::slice_index_get(data, pos + 1) as usize;
        if len - pos - 2 < n {
            proof {
                assert(rem.len() < 2 + rem[1] as int);
            }
            return Err(AgentError::InvalidData);
        }
        let bytes = vstd::slice::slice_subrange(data, pos + 2, pos + 2 + n);
        proof {
            assert(bytes@ =~= rem.subrange(2, 2 + rem[1] as int));
        }
        match core::str::from_utf8(bytes) {
            Ok(text) => {
                proof {
                    vstd::utf8::encode_utf8_decode_utf8(text@);
                }
                Ok((text.to_owned(), pos + 2 + n))
            },
            Err(_) => Err(AgentError::InvalidUtf8),
        }
    } else if tag == TAG_STRING16 {
        if len - pos < 3 {
            return Err(AgentError::InvalidData);
        }
        let n = vstd::bytes::u16_from_le_bytes(
            vstd::slice::slice_subrange(data, pos + 1, pos + 3),
        ) as usize;
        proof {
            assert(data@.subrange(pos as int + 1, pos as int + 3) =~= rem.subrange(1, 3));
        }
        if len - pos - 3 < n {
            proof {
                assert(rem.len() < 3 + spec_u16_from_le_bytes(rem.subrange(1, 3)) as int);
            }
            return Err(AgentError::InvalidData);
        }
        let bytes = vstd::slice::slice_subrange(data, pos + 3, pos + 3 + n);
        proof {
            assert(bytes@ =~= rem.subrange(3, 3 + spec_u16_from_le_bytes(rem.subrange(1, 3)) as int));
        }
        match core::str::from_utf8(bytes) {
            Ok(text) => {
                proof {
                    vstd::utf8::encode_utf8_decode_utf8(text@);
                }
                Ok((text.to_owned(), pos + 3 + n))
            },
            Err(_) => Err(AgentError::InvalidUtf8),
        }
    } else {
        Err(AgentError::InvalidData)
    }
}

/// Parse one value starting at `pos`; returns it with the position just
/// past its encoding.
#[verifier::loop_isolation(false)]
#[verifier::rlimit(60)]
pub fn decode_at(data: &[u8], pos: usize) -> (r: Result<(Value, usize), AgentError>)
    requires
        pos <= data@.len(),
    ensures
        ({
            let rem = data@.skip(pos as int);
            match spec_decode(rem) {
                Some((m, used)) => r is Ok && r.unwrap().0@ == m && r.unwrap().1 == pos + used,
                None => r is Err,
            }
        }),
    decreases data@.len() - pos, 1nat,
{
    let ghost rem = data@.skip(pos as int);
    let len = data.len();
    if len - pos < 1 {
        return Err(AgentError::InvalidData);
    }
    let tag = *vstd::slice::slice_index_get(data, pos);
    proof {
        assert(rem[0] == data@[pos as int]);
        if 1 < rem.len() {
            assert(rem[1] == data@[pos as int + 1]);
        }
    }
    if tag == TAG_NULL {
        Ok((Value::Null, pos + 1))
    } else if tag == TAG_BOOL {
        if len - pos < 2 {
            return Err(AgentError::InvalidData);
        }
        let b = *vstd::slice::slice_index_get(data, pos + 1);
        Ok((Value::Bool(b != 0), pos + 2))
    } else if tag == TAG_INT8 {
        if len - pos < 2 {
            return Err(AgentError::InvalidData);
        }
        let b = *vstd::slice::slice_index_get(data, pos + 1);
        let v: i64 = if b >= 128 {
            (b as i64) - 256
        } else {
            b as i64
        };
        Ok((Value::Int(v), pos + 2))
    } else if tag == TAG_INT16 {
        if len - pos < 3 {
            return Err(AgentError::InvalidData);
        }
        let w = vstd::bytes::u16_from_le_bytes(
            vstd::slice::slice_subrange(data, pos + 1, pos + 3),
        );
        proof {
            assert(data@.subrange(pos as int + 1, pos as int + 3) =~= rem.subrange(1, 3));
        }
        let v: i64 = if w >= 0x8000 {
            (w as i64) - 0x10000
        } else {
            w as i64
        };
        Ok((Value::Int(v), pos + 3))
    } else if tag == TAG_INT32 {
        if len - pos < 5 {
            return Err(AgentError::InvalidData);
        }
        let w = vstd::bytes::u32_from_le_bytes(
            vstd::slice::slice_subrange(data, pos + 1, pos + 5),
        );
        proof {
            assert(data@.subrange(pos as int + 1, pos as int + 5) =~= rem.subrange(1, 5));
        }
        let v: i64 = if w >= 0x8000_0000 {
            (w as i64) - 0x1_0000_0000
        } else {
            w as i64
        };
        Ok((Value::Int(v), pos + 5))
    } else if tag == TAG_INT64 {
        if len - pos < 9 {
            return Err(AgentError::InvalidData);
        }
        let w = vstd::bytes::u64_from_le_bytes(
            vstd::slice::slice_subrange(data, pos + 1, pos + 9),
        );
        proof {
            assert(data@.subrange(pos as int + 1, pos as int + 9) =~= rem.subrange(1, 9));
        }
        let v: i64 = if w >= 0x8000_0000_0000_0000 {
            (((w as i128) - 0x1_0000_0000_0000_0000i128) as i64)
        } else {
            w as i64
        };
        Ok((Value::Int(v), pos + 9))
    } else if tag == TAG_FLOAT32 {
        if len - pos < 5 {
            return Err(AgentError::InvalidData);
        }
        let w = vstd::bytes::u32_from_le_bytes(
            vstd::slice::slice_subrange(data, pos + 1, pos + 5),
        );
        proof {
            assert(data@.subrange(pos as int + 1, pos as int + 5) =~= rem.subrange(1, 5));
        }
        Ok((Value::F32Bits(w), pos + 5))
    } else if tag == TAG_FLOAT64 {
        if len - pos < 9 {
            return Err(AgentError::InvalidData);
        }
        let w = vstd::bytes::u64_from_le_bytes(
            vstd::slice::slice_subrange(data, pos + 1, pos + 9),
        );
        proof {
            assert(data@.subrange(pos as int + 1, pos as int + 9) =~= rem.subrange(1, 9));
        }
        Ok((Value::F64Bits(w), pos + 9))
    } else if tag == TAG_STRING8 || tag == TAG_STRING16 {
        match decode_str_at(data, pos) {
            Ok((text, newpos)) => Ok((Value::Str(text), newpos)),
            Err(e) => Err(e),
        }
    } else if tag == TAG_LIST {
        if len - pos < 2 {
            return Err(AgentError::InvalidData);
        }
        let n = *vstd::slice::slice_index_get(data, pos + 1);
        proof {
            assert(rem.subrange(2, rem.len() as int) =~= data@.skip(pos as int + 2));
        }
        match decode_items_at(data, pos + 2, n) {
            Ok((items, newpos)) => Ok((Value::List(items), newpos)),
            Err(e) => Err(e),
        }
    } else if tag == TAG_MAP {
        if len - pos < 2 {
            return Err(AgentError::InvalidData);
        }
        let n = *vstd::slice::slice_index_get(data, pos + 1);
        proof {
            assert(rem.subrange(2, rem.len() as int) =~= data@.skip(pos as int + 2));
        }
        match decode_entries_at(data, pos + 2, n) {
            Ok((entries, newpos)) => Ok((Value::Mapping(entries), newpos)),
            Err(e) => Err(e),
        }
    } else if tag == TAG_BINARY8 {
        if len - pos < 2 {
            return Err(AgentError::InvalidData);
        }
        let n = *vstd::slice::slice_index_get(data, pos + 1) as usize;
        if len - pos - 2 < n {
            proof {
                assert(rem.len() < 2 + rem[1] as int);
            }
            return Err(AgentError::InvalidData);
        }
        let bytes = vstd::slice::slice_to_vec(
            vstd::slice::slice_subrange(data, pos + 2, pos + 2 + n),
        );
        proof {
            assert(bytes@ =~= rem.subrange(2, 2 + rem[1] as int));
        }
        Ok((Value::Binary(bytes), pos + 2 + n))
    } else if tag == TAG_BINARY16 {
        if len - pos < 3 {
            return Err(AgentError::InvalidData);
        }
        let n = vstd::bytes::u16_from_le_bytes(
            vstd::slice::slice_subrange(data, pos + 1, pos + 3),
        ) as usize;
        proof {
            assert(data@.subrange(pos as int + 1, pos as int + 3) =~= rem.subrange(1, 3));
        }
        if len - pos - 3 < n {
            proof {
                assert(rem.len() < 3 + spec_u16_from_le_bytes(rem.subrange(1, 3)) as int);
            }
            return Err(AgentError::InvalidData);
        }
        let bytes = vstd::slice::slice_to_vec(
            vstd::slice::slice_subrange(data, pos + 3, pos + 3 + n),
        );
        proof {
            assert(bytes@ =~= rem.subrange(3, 3 + spec_u16_from_le_bytes(rem.subrange(1, 3)) as int));
        }
        Ok((Value::Binary(bytes), pos + 3 + n))
    } else if tag == TAG_TIMESTAMP {
        if len - pos < 7 {
            return Err(AgentError::InvalidData);
        }
        let secs = vstd::bytes::u32_from_le_bytes(
            vstd::slice::slice_subrange(data, pos + 1, pos + 5),
        );
        let ms = vstd::bytes::u16_from_le_bytes(
            vstd::slice::slice_subrange(data, pos + 5, pos + 7),
        );
        proof {
            assert(data@.subrange(pos as int + 1, pos as int + 5) =~= rem.subrange(1, 5));
            assert(data@.subrange(pos as int + 5, pos as int + 7) =~= rem.subrange(5, 7));
        }
        Ok((Value::Timestamp(secs, ms), pos + 7))
    } else {
        Err(AgentError::InvalidData)
    }
}

/// Parse `n` consecutive values starting at `pos`.
#[verifier::loop_isolation(false)]
fn decode_items_at(data: &[u8], pos: usize, n: u8) -> (r: Result<(Vec<Value>, usize), AgentError>)
    requires
        pos <= data@.len(),
    ensures
        ({
            let rem = data@.skip(pos as int);
            match spec_decode_items(rem, n as nat) {
                Some((ms, used)) => r is Ok && value_seq_model(r.unwrap().0@) == ms
                    && r.unwrap().1 == pos + used,
                None => r is Err,
            }
        }),
    decreases data@.len() - pos, 2nat,
{
    let ghost rem = data@.skip(pos as int);
    if n == 0 {
        let items: Vec<Value> = Vec::new();
        proof {
            assert(value_seq_model(items@) =~= Seq::<ValueModel>::empty());
        }
        return Ok((items, pos));
    }
    match decode_at(data, pos) {
        Ok((v, newpos)) => {
            proof {
                lemma_spec_decode_bounds(rem);
                assert(newpos <= data@.len());
                assert(data@.skip(newpos as int) =~= rem.subrange(
                    newpos - pos,
                    rem.len() as int,
                ));
            }
            match decode_items_at(data, newpos, n - 1) {
                Ok((mut items, endpos)) => {
                    let ghost tail_view = items@;
                    items.insert(0, v);
                    proof {
                        assert(items@ =~= seq![v] + tail_view);
                        assert(items@.drop_first() =~= tail_view);
                        assert(items@[0] == v);
                        assert(value_seq_model(items@) == seq![v@] + value_seq_model(tail_view));
                    }
                    Ok((items, endpos))
                },
                Err(e) => Err(e),
            }
        },
        Err(e) => Err(e),
    }
}

/// Parse `n` consecutive key/value pairs starting at `pos`.
#[verifier::loop_isolation(false)]
fn decode_entries_at(data: &[u8], pos: usize, n: u8) -> (r: Result<
    (Vec<(String, Value)>, usize),
    AgentError,
>)
    requires
        pos <= data@.len(),
    ensures
        ({
            let rem = data@.skip(pos as int);
            match spec_decode_entries(rem, n as nat) {
                Some((ms, used)) => r is Ok && entry_seq_model(r.unwrap().0@) == ms
                    && r.unwrap().1 == pos + used,
                None => r is Err,
            }
        }),
    decreases data@.len() - pos, 2nat,
{
    let ghost rem = data@.skip(pos as int);
    if n == 0 {
        let entries: Vec<(String, Value)> = Vec::new();
        proof {
            assert(entry_seq_model(entries@) =~= Seq::<(Seq<char>, ValueModel)>::empty());
        }
        return Ok((entries, pos));
    }
    match decode_str_at(data, pos) {
        Ok((key, kpos)) => {
            proof {
                lemma_spec_decode_str_bounds(rem);
                assert(kpos <= data@.len());
                assert(data@.skip(kpos as int) =~= rem.subrange(kpos - pos, rem.len() as int));
            }
            match decode_at(data, kpos) {
                Ok((v, vpos)) => {
                    proof {
                        lemma_spec_decode_bounds(data@.skip(kpos as int));
                        assert(vpos <= data@.len());
                        assert(data@.skip(vpos as int) =~= rem.subrange(
                            vpos - pos,
                            rem.len() as int,
                        ));
                    }
                    match decode_entries_at(data, vpos, n - 1) {
                        Ok((mut entries, endpos)) => {
                            let ghost tail_view = entries@;
                            entries.insert(0, (key, v));
                            proof {
                                assert(entries@ =~= seq![(key, v)] + tail_view);
                                assert(entries@.drop_first() =~= tail_view);
                                assert(entries@[0] == (key, v));
                                assert(entry_seq_model(entries@) == seq![(key@, v@)]
                                    + entry_seq_model(tail_view));
                            }
                            Ok((entries, endpos))
                        },
                        Err(e) => Err(e),
                    }
                },
                Err(e) => Err(e),
            }
        },
        Err(e) => Err(e),
    }
}

impl Value {
    /// Append this value's encoding to `buffer`; true when list or map
    /// entries were dropped by the 255-entry cap.
    pub fn write_to(&self, buffer: &mut Vec<u8>) -> (truncated: bool)
        requires
            encodable(self@),
        ensures
            final(buffer)@ == old(buffer)@ + spec_encode(self@),
            truncated == spec_truncated(self@),
    {
        encode(self, buffer)
    }

    /// The byte image of this value.
    pub fn serialize(&self) -> (r: Vec<u8>)
        requires
            encodable(self@),
        ensures
            r@ == spec_encode(self@),
    {
        let mut buffer: Vec<u8> = Vec::new();
        encode(self, &mut buffer);
        buffer
    }

    /// Parse the value at the front of `bytes`.
    pub fn deserialize(bytes: &[u8]) -> (r: Result<Value, AgentError>)
        ensures
            r is Ok <==> spec_decode(bytes@) is Some,
            r is Ok ==> r.unwrap()@ == spec_decode(bytes@).unwrap().0,
    {
        proof {
            assert(bytes@.skip(0) =~= bytes@);
        }
        match decode_at(bytes, 0) {
            Ok((v, _)) => Ok(v),
            Err(e) => Err(e),
        }
    }

    /// Parse the value at the front of `bytes`, also returning how many
    /// bytes its encoding took.
    pub fn decode(bytes: &[u8]) -> (r: Result<(Value, usize), AgentError>)
        ensures
            r is Ok <==> spec_decode(bytes@) is Some,
            r is Ok ==> r.unwrap().0@ == spec_decode(bytes@).unwrap().0 && r.unwrap().1
                == spec_decode(bytes@).unwrap().1,
    {
        proof {
            assert(bytes@.skip(0) =~= bytes@);
        }
        decode_at(bytes, 0)
    }
}

/// Law: decode inverts encode, and re-encoding the decoded value gives
/// the same bytes, for every value within the length and entry caps.
pub proof fn lemma_value_codec_identity(m: ValueModel)
    requires
        encodable(m),
        within_caps(m),
    ensures
        spec_decode(spec_encode(m)) == Some((m, spec_encode(m).len() as int)),
        spec_encode(spec_decode(spec_encode(m)).unwrap().0) == spec_encode(m),
{
    lemma_value_round_trip(m, Seq::empty());
    assert(spec_encode(m) + Seq::<u8>::empty() =~= spec_encode(m));
}

} // verus!
