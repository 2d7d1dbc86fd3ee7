//! GGUF header and metadata reader.
//!
//! Reads the header and the key/value block, never tensor data. Arrays are
//! skipped: only their element type and count are kept. The reader works on
//! the bytes that are at hand, which may be the beginning of a file only: it
//! then keeps the entries that are complete and says that it was cut short.
use vstd::prelude::*;
use vstd::string::StringExecFns;
use vstd::utf8::{decode_utf8, encode_utf8, valid_utf8};

use crate::model::{ModelFormat, ModelMeta};
use crate::text::{decimal, decimal_of, opt_text, owned, same};

verus! {

/// `GGUF`, least significant byte first.
pub const MAGIC: u32 = 0x4655_4747;

/// No string is longer.
pub const MAX_STRING_LEN: u64 = 16_777_216;

#[derive(Debug, Clone, PartialEq)]
pub enum GgufError {
    /// The bytes could not be had.
    Io(String),
    BadMagic { got: u32 },
    BadVersion { version: u32 },
    Truncated { where_: &'static str },
    UnknownValueType { id: u32 },
}

#[derive(Debug, Clone, Copy, PartialEq, Eq, Structural)]
pub enum ValueType {
    U8,
    I8,
    U16,
    I16,
    U32,
    I32,
    F32,
    Bool,
    String,
    Array,
    U64,
    I64,
    F64,
}

/// The value type with an id.
pub open spec fn type_of_id(id: nat) -> Option<ValueType> {
    if id == 0 {
        Some(ValueType::U8)
    } else if id == 1 {
        Some(ValueType::I8)
    } else if id == 2 {
        Some(ValueType::U16)
    } else if id == 3 {
        Some(ValueType::I16)
    } else if id == 4 {
        Some(ValueType::U32)
    } else if id == 5 {
        Some(ValueType::I32)
    } else if id == 6 {
        Some(ValueType::F32)
    } else if id == 7 {
        Some(ValueType::Bool)
    } else if id == 8 {
        Some(ValueType::String)
    } else if id == 9 {
        Some(ValueType::Array)
    } else if id == 10 {
        Some(ValueType::U64)
    } else if id == 11 {
        Some(ValueType::I64)
    } else if id == 12 {
        Some(ValueType::F64)
    } else {
        None
    }
}

/// The bytes of a value of a type, where all values have the same length.
pub open spec fn width_of(t: ValueType) -> Option<nat> {
    match t {
        ValueType::U8 | ValueType::I8 | ValueType::Bool => Some(1),
        ValueType::U16 | ValueType::I16 => Some(2),
        ValueType::U32 | ValueType::I32 | ValueType::F32 => Some(4),
        ValueType::U64 | ValueType::I64 | ValueType::F64 => Some(8),
        ValueType::String | ValueType::Array => None,
    }
}

impl ValueType {
    pub fn from_id(id: u32) -> (r: Result<ValueType, GgufError>)
        ensures
            match r {
                Ok(t) => type_of_id(id as nat) == Some(t),
                Err(e) => type_of_id(id as nat) is None && e == (GgufError::UnknownValueType { id }),
            },
    {
        match id {
            0 => Ok(ValueType::U8),
            1 => Ok(ValueType::I8),
            2 => Ok(ValueType::U16),
            3 => Ok(ValueType::I16),
            4 => Ok(ValueType::U32),
            5 => Ok(ValueType::I32),
            6 => Ok(ValueType::F32),
            7 => Ok(ValueType::Bool),
            8 => Ok(ValueType::String),
            9 => Ok(ValueType::Array),
            10 => Ok(ValueType::U64),
            11 => Ok(ValueType::I64),
            12 => Ok(ValueType::F64),
            _ => Err(GgufError::UnknownValueType { id }),
        }
    }

    pub fn byte_size(self) -> (r: Option<u64>)
        ensures
            match r {
                Some(n) => width_of(self) == Some(n as nat) && 1 <= n <= 8,
                None => width_of(self) is None,
            },
    {
        match self {
            ValueType::U8 | ValueType::I8 | ValueType::Bool => Some(1),
            ValueType::U16 | ValueType::I16 => Some(2),
            ValueType::U32 | ValueType::I32 | ValueType::F32 => Some(4),
            ValueType::U64 | ValueType::I64 | ValueType::F64 => Some(8),
            ValueType::String | ValueType::Array => None,
        }
    }
}

/// A metadata value. Floats are kept by their bit patterns.
#[derive(Debug, Clone, PartialEq)]
pub enum MetaValue {
    Int(i64),
    Float32 { bits: u32 },
    Float64 { bits: u64 },
    Bool(bool),
    Str(String),
    Array { elem_type: ValueType, count: u64 },
}

/// What a metadata value says.
pub enum ValueView {
    Int(i64),
    Float32(u32),
    Float64(u64),
    Bool(bool),
    Str(Seq<char>),
    Array(ValueType, u64),
}

impl View for MetaValue {
    type V = ValueView;

    open spec fn view(&self) -> ValueView {
        match self {
            MetaValue::Int(v) => ValueView::Int(*v),
            MetaValue::Float32 { bits } => ValueView::Float32(*bits),
            MetaValue::Float64 { bits } => ValueView::Float64(*bits),
            MetaValue::Bool(v) => ValueView::Bool(*v),
            MetaValue::Str(s) => ValueView::Str(s@),
            MetaValue::Array { elem_type, count } => ValueView::Array(*elem_type, *count),
        }
    }
}

impl MetaValue {
    pub fn as_int(&self) -> (r: Option<i64>)
        ensures
            r == match self@ {
                ValueView::Int(v) => Some(v),
                _ => None,
            },
    {
        match self {
            MetaValue::Int(v) => Some(*v),
            _ => None,
        }
    }

    pub fn as_str(&self) -> (r: Option<&str>)
        ensures
            match (r, self@) {
                (Some(s), ValueView::Str(t)) => s@ == t,
                (None, ValueView::Str(_)) => false,
                (Some(_), _) => false,
                (None, _) => true,
            },
    {
        match self {
            MetaValue::Str(s) => Some(s.as_str()),
            _ => None,
        }
    }

    pub fn kind_name(&self) -> (r: &'static str)
        ensures
            r@ == match self@ {
                ValueView::Int(_) => "int"@,
                ValueView::Float32(_) | ValueView::Float64(_) => "float"@,
                ValueView::Bool(_) => "bool"@,
                ValueView::Str(_) => "string"@,
                ValueView::Array(_, _) => "array"@,
            },
    {
        match self {
            MetaValue::Int(_) => "int",
            MetaValue::Float32 { bits: _ } => "float",
            MetaValue::Float64 { bits: _ } => "float",
            MetaValue::Bool(_) => "bool",
            MetaValue::Str(_) => "string",
            MetaValue::Array { elem_type: _, count: _ } => "array",
        }
    }
}

/// The number in the `n` bytes at `i`, least significant first.
pub open spec fn le(b: Seq<u8>, i: int, n: nat) -> nat
    decreases n,
{
    if n == 0 {
        0
    } else {
        b[i] as nat + 256 * le(b, i + 1, (n - 1) as nat)
    }
}

/// The number in the `n` bytes at `i`, where they are all there.
pub open spec fn number_at(b: Seq<u8>, i: nat, n: nat) -> Option<nat> {
    if i + n <= b.len() {
        Some(le(b, i as int, n))
    } else {
        None
    }
}

/// The number `v` of `bits` bits read as a signed one.
pub open spec fn signed(v: nat, half: nat) -> int {
    if v >= half {
        v - 2 * half
    } else {
        v as int
    }
}

/// The bytes of a length: four in the first version, eight since.
pub open spec fn length_width(legacy: bool) -> nat {
    if legacy {
        4
    } else {
        8
    }
}

/// The string at `i`, and where it ends.
pub open spec fn string_at(b: Seq<u8>, i: nat, legacy: bool) -> Option<(Seq<char>, nat)> {
    let w = length_width(legacy);
    match number_at(b, i, w) {
        Some(len) => if len <= MAX_STRING_LEN && i + w + len <= b.len() && valid_utf8(
            b.subrange((i + w) as int, (i + w + len) as int),
        ) {
            Some(
                (
                    decode_utf8(b.subrange((i + w) as int, (i + w + len) as int)),
                    i + w + len,
                ),
            )
        } else {
            None
        },
        None => None,
    }
}

/// What is left of the bytes at `i`.
pub open spec fn left(b: Seq<u8>, i: nat) -> nat {
    if i < b.len() {
        (b.len() - i) as nat
    } else {
        0
    }
}

/// Where the `count` elements of an array that start at `i` end. Elements of
/// fixed width are stepped over without a look, also past the end of the
/// bytes.
pub open spec fn array_end(b: Seq<u8>, i: nat, elem: ValueType, count: nat, legacy: bool) -> Option<
    nat,
>
    decreases left(b, i), count,
{
    match width_of(elem) {
        Some(w) => {
            let total = if w * count > u64::MAX {
                u64::MAX as nat
            } else {
                w * count
            };
            if i + total > u64::MAX {
                None
            } else {
                Some(i + total)
            }
        },
        None => if count == 0 {
            Some(i)
        } else if elem == ValueType::String {
            match string_at(b, i, legacy) {
                Some((_, end)) => if end > i {
                    array_end(b, end, elem, (count - 1) as nat, legacy)
                } else {
                    None
                },
                None => None,
            }
        } else {
            match nested_header(b, i) {
                Some((inner, inner_count)) => match array_end(b, i + 12, inner, inner_count, legacy) {
                    Some(end) => if end > i {
                        array_end(b, end, elem, (count - 1) as nat, legacy)
                    } else {
                        None
                    },
                    None => None,
                },
                None => None,
            }
        },
    }
}

/// The element type and count of the array whose header is at `i`.
pub open spec fn nested_header(b: Seq<u8>, i: nat) -> Option<(ValueType, nat)> {
    match number_at(b, i, 4) {
        Some(id) => match type_of_id(id) {
            Some(t) => match number_at(b, i + 4, 8) {
                Some(n) => Some((t, n)),
                None => None,
            },
            None => None,
        },
        None => None,
    }
}

/// The value of a type at `i`, and where it ends.
pub open spec fn value_at(b: Seq<u8>, i: nat, t: ValueType, legacy: bool) -> Option<(ValueView, nat)> {
    match t {
        ValueType::String => match string_at(b, i, legacy) {
            Some((s, end)) => Some((ValueView::Str(s), end)),
            None => None,
        },
        ValueType::Array => match nested_header(b, i) {
            Some((elem, count)) => match array_end(b, i + 12, elem, count, legacy) {
                Some(end) => Some((ValueView::Array(elem, count as u64), end)),
                None => None,
            },
            None => None,
        },
        _ => {
            let w = width_of(t)->0;
            match number_at(b, i, w) {
                Some(v) => Some((scalar(t, v), i + w)),
                None => None,
            }
        },
    }
}

/// What the number `v` says as a value of a type of fixed width.
pub open spec fn scalar(t: ValueType, v: nat) -> ValueView {
    match t {
        ValueType::I8 => ValueView::Int(signed(v, 0x80) as i64),
        ValueType::I16 => ValueView::Int(signed(v, 0x8000) as i64),
        ValueType::I32 => ValueView::Int(signed(v, 0x8000_0000) as i64),
        ValueType::U64 | ValueType::I64 => ValueView::Int(signed(v, 0x8000_0000_0000_0000) as i64),
        ValueType::F32 => ValueView::Float32(v as u32),
        ValueType::F64 => ValueView::Float64(v as u64),
        ValueType::Bool => ValueView::Bool(v != 0),
        _ => ValueView::Int(v as i64),
    }
}

/// How the reading of the entries ends.
pub enum Entries {
    /// The bytes ended within the entry that follows these.
    Cut(Seq<(Seq<char>, ValueView)>),
    /// All were read.
    All(Seq<(Seq<char>, ValueView)>),
    /// The type of a value is unknown.
    BadType(u32),
}

/// Reads `n` entries at `i` after those that were read before.
pub open spec fn entries_at(
    b: Seq<u8>,
    i: nat,
    n: nat,
    legacy: bool,
    before: Seq<(Seq<char>, ValueView)>,
) -> Entries
    decreases n,
{
    if n == 0 {
        Entries::All(before)
    } else {
        match string_at(b, i, legacy) {
            None => Entries::Cut(before),
            Some((key, j)) => match number_at(b, j, 4) {
                None => Entries::Cut(before),
                Some(id) => match type_of_id(id) {
                    None => Entries::BadType(id as u32),
                    Some(t) => match value_at(b, j + 4, t, legacy) {
                        None => Entries::Cut(before),
                        Some((v, end)) => entries_at(
                            b,
                            end,
                            (n - 1) as nat,
                            legacy,
                            before.push((key, v)),
                        ),
                    },
                },
            },
        }
    }
}

/// The header: version, tensor count, entry count, and where it ends.
pub enum Header {
    Complete(u32, u64, u64, nat),
    Short(Seq<char>),
    BadMagic(u32),
    BadVersion(u32),
}

/// The header of a file.
pub open spec fn header_of(b: Seq<u8>) -> Header {
    match number_at(b, 0, 4) {
        None => Header::Short("magic"@),
        Some(m) => if m != MAGIC {
            Header::BadMagic(m as u32)
        } else {
            match number_at(b, 4, 4) {
                None => Header::Short("version"@),
                Some(v) => if v < 1 || v > 3 {
                    Header::BadVersion(v as u32)
                } else {
                    let w = length_width(v == 1);
                    match number_at(b, 8, w) {
                        None => Header::Short("tensor_count"@),
                        Some(t) => match number_at(b, 8 + w, w) {
                            None => Header::Short("kv_count"@),
                            Some(k) => Header::Complete(v as u32, t as u64, k as u64, 8 + 2 * w),
                        },
                    }
                },
            }
        },
    }
}

/// The entries of a file whose header is complete.
pub open spec fn entries_of(b: Seq<u8>) -> Entries {
    match header_of(b) {
        Header::Complete(v, _, k, i) => entries_at(b, i, k as nat, v == 1, Seq::empty()),
        _ => Entries::Cut(Seq::empty()),
    }
}

/// The metadata of a file.
#[derive(Debug, Clone)]
pub struct GgufMeta {
    pub version: u32,
    pub tensor_count: u64,
    pub file_size: u64,
    /// The entries, by the order in which their keys come in the file. No key
    /// is there twice: of a repeated one the last value counts.
    pub kv: Vec<(String, MetaValue)>,
    /// The bytes ended before the last entry did.
    pub truncated: bool,
}

/// What a list of entries says.
pub open spec fn entry_views(kv: Seq<(String, MetaValue)>) -> Seq<(Seq<char>, ValueView)> {
    Seq::new(kv.len(), |i: int| (kv[i].0@, kv[i].1@))
}

/// `String::from_utf8` of the standard library: the text that the bytes encode
/// in UTF-8, or nothing where they encode none.
#[verifier::external_body]
fn utf8_text(bytes: Vec<u8>) -> (r: Option<String>)
    ensures
        match r {
            Some(s) => valid_utf8(bytes@) && s@ == decode_utf8(bytes@),
            None => !valid_utf8(bytes@),
        },
{
    String::from_utf8(bytes).ok()
}

proof fn lemma_le_bound(b: Seq<u8>, i: int, n: nat)
    requires
        n <= 8,
    ensures
        n == 1 ==> le(b, i, n) == b[i] && le(b, i, n) <= 0xff,
        n == 2 ==> le(b, i, n) == b[i] + 256 * b[i + 1] && le(b, i, n) <= 0xffff,
        n == 4 ==> le(b, i, n) == b[i] + 256 * b[i + 1] + 65536 * b[i + 2] + 16777216 * b[i + 3]
            && le(b, i, n) <= 0xffff_ffff,
        n == 8 ==> le(b, i, n) == le(b, i, 4) + 0x1_0000_0000 * le(b, i + 4, 4) && le(b, i, n)
            <= 0xffff_ffff_ffff_ffff,
{
    reveal_with_fuel(le, 9);
}

/// The number in the `n` bytes at `i`, where they are all there.
fn read_number(b: &[u8], i: u64, n: u64) -> (r: Option<u64>)
    requires
        n == 1 || n == 2 || n == 4 || n == 8,
    ensures
        match r {
            Some(v) => number_at(b@, i as nat, n as nat) == Some(v as nat),
            None => number_at(b@, i as nat, n as nat) is None,
        },
        r is Some ==> i + n <= b@.len() <= usize::MAX && (n == 1 ==> r->0 <= 0xff) && (n == 2 ==> r->0 <= 0xffff)
            && (n == 4 ==> r->0 <= 0xffff_ffff),
{
    let len = b.len() as u64;
    if i > len || n > len - i {
        return None;
    }
    let at = i as usize;
    proof {
        lemma_le_bound(b@, i as int, n as nat);
        if n == 8 {
            lemma_le_bound(b@, i as int, 4);
            lemma_le_bound(b@, i + 4, 4);
        }
    }
    if n == 1 {
        Some(b[at] as u64)
    } else if n == 2 {
        Some(b[at] as u64 + 256 * (b[at + 1] as u64))
    } else {
        let low: u64 = b[at] as u64 + 256 * (b[at + 1] as u64) + 65536 * (b[at + 2] as u64)
            + 16777216 * (b[at + 3] as u64);
        if n == 4 {
            Some(low)
        } else {
            let high: u64 = b[at + 4] as u64 + 256 * (b[at + 5] as u64) + 65536 * (b[at + 6] as u64)
                + 16777216 * (b[at + 7] as u64);
            Some(low + 0x1_0000_0000 * high)
        }
    }
}

fn to_signed(v: u64, half: u64) -> (r: i64)
    requires
        half == 0x80 || half == 0x8000 || half == 0x8000_0000 || half == 0x8000_0000_0000_0000,
        half < 0x8000_0000_0000_0000 ==> v < 2 * half,
    ensures
        r == signed(v as nat, half as nat),
{
    if v >= half {
        let below: u64 = half - 1 - (v - half);
        -(below as i64) - 1
    } else {
        v as i64
    }
}

/// The string at `i`, and where it ends.
pub fn read_string(b: &[u8], i: u64, legacy: bool) -> (r: Option<(String, u64)>)
    ensures
        match r {
            Some((s, end)) => string_at(b@, i as nat, legacy) == Some((s@, end as nat)) && i < end
                && end <= b@.len(),
            None => string_at(b@, i as nat, legacy) is None,
        },
{
    let w: u64 = if legacy {
        4
    } else {
        8
    };
    let len = match read_number(b, i, w) {
        Some(len) => len,
        None => {
            return None;
        },
    };
    if len > MAX_STRING_LEN {
        return None;
    }
    let start: u64 = i + w;
    if len > b.len() as u64 - start {
        return None;
    }
    let mut bytes: Vec<u8> = Vec::new();
    let mut k: usize = start as usize;
    let end = (start + len) as usize;
    while k < end
        invariant
            start <= k <= end <= b@.len(),
            bytes@ == b@.subrange(start as int, k as int),
        decreases end - k,
    {
        bytes.push(b[k]);
        assert(b@.subrange(start as int, k + 1) =~= b@.subrange(start as int, k as int).push(
            b@[k as int],
        ));
        k = k + 1;
    }
    match utf8_text(bytes) {
        Some(s) => Some((s, start + len)),
        None => None,
    }
}

/// Where a string or array that is there ends: after where it starts.
proof fn lemma_array_end(b: Seq<u8>, i: nat, elem: ValueType, count: nat, legacy: bool)
    ensures
        array_end(b, i, elem, count, legacy) is Some ==> array_end(b, i, elem, count, legacy)->0 >= i,
    decreases left(b, i), count,
{
    match width_of(elem) {
        Some(w) => {},
        None => if count > 0 {
            if elem == ValueType::String {
                match string_at(b, i, legacy) {
                    Some((_, end)) => {
                        if end > i {
                            lemma_array_end(b, end, elem, (count - 1) as nat, legacy);
                        }
                    },
                    None => {},
                }
            } else {
                match nested_header(b, i) {
                    Some((inner, inner_count)) => {
                        lemma_array_end(b, i + 12, inner, inner_count, legacy);
                        match array_end(b, i + 12, inner, inner_count, legacy) {
                            Some(end) => {
                                lemma_array_end(b, end, elem, (count - 1) as nat, legacy);
                            },
                            None => {},
                        }
                    },
                    None => {},
                }
            }
        },
    }
}

/// The header of the array at `i`.
fn read_array_header(b: &[u8], i: u64) -> (r: Option<(ValueType, u64)>)
    ensures
        match r {
            Some((t, n)) => nested_header(b@, i as nat) == Some((t, n as nat)) && i + 12
                <= b@.len() <= usize::MAX,
            None => nested_header(b@, i as nat) is None,
        },
{
    let id = match read_number(b, i, 4) {
        Some(id) => id,
        None => {
            return None;
        },
    };
    let t = match ValueType::from_id(id as u32) {
        Ok(t) => t,
        Err(_) => {
            return None;
        },
    };
    match read_number(b, i + 4, 8) {
        Some(n) => Some((t, n)),
        None => None,
    }
}

/// Steps over the elements of an array.
pub fn skip_array(b: &[u8], i: u64, elem: ValueType, count: u64, legacy: bool) -> (r: Option<u64>)
    ensures
        match r {
            Some(end) => array_end(b@, i as nat, elem, count as nat, legacy) == Some(end as nat),
            None => array_end(b@, i as nat, elem, count as nat, legacy) is None,
        },
    decreases left(b@, i as nat),
{
    match elem.byte_size() {
        Some(w) => {
            let total: u64 = match w.checked_mul(count) {
                Some(t) => t,
                None => 0xffff_ffff_ffff_ffff,
            };
            return i.checked_add(total);
        },
        None => {},
    }
    let mut at: u64 = i;
    let mut rest: u64 = count;
    while rest > 0
        invariant
            i <= at,
            width_of(elem) is None,
            array_end(b@, i as nat, elem, count as nat, legacy) == array_end(
                b@,
                at as nat,
                elem,
                rest as nat,
                legacy,
            ),
        decreases rest,
    {
        if elem == ValueType::String {
            match read_string(b, at, legacy) {
                Some((_, end)) => {
                    at = end;
                },
                None => {
                    return None;
                },
            }
        } else {
            match read_array_header(b, at) {
                Some((inner, inner_count)) => {
                    match skip_array(b, at + 12, inner, inner_count, legacy) {
                        Some(end) => {
                            proof {
                                lemma_array_end(
                                    b@,
                                    (at + 12) as nat,
                                    inner,
                                    inner_count as nat,
                                    legacy,
                                );
                            }
                            at = end;
                        },
                        None => {
                            return None;
                        },
                    }
                },
                None => {
                    return None;
                },
            }
        }
        rest = rest - 1;
    }
    Some(at)
}

/// Reads a value of a type.
pub fn read_value(b: &[u8], i: u64, t: ValueType, legacy: bool) -> (r: Option<(MetaValue, u64)>)
    ensures
        match r {
            Some((v, end)) => value_at(b@, i as nat, t, legacy) == Some((v@, end as nat)),
            None => value_at(b@, i as nat, t, legacy) is None,
        },
{
    match t.byte_size() {
        Some(w) => match read_number(b, i, w) {
            Some(v) => {
                let value = match t {
                    ValueType::I8 => MetaValue::Int(to_signed(v, 0x80)),
                    ValueType::I16 => MetaValue::Int(to_signed(v, 0x8000)),
                    ValueType::I32 => MetaValue::Int(to_signed(v, 0x8000_0000)),
                    ValueType::U64 | ValueType::I64 => MetaValue::Int(
                        to_signed(v, 0x8000_0000_0000_0000),
                    ),
                    ValueType::F32 => MetaValue::Float32 { bits: v as u32 },
                    ValueType::F64 => MetaValue::Float64 { bits: v },
                    ValueType::Bool => MetaValue::Bool(v != 0),
                    _ => MetaValue::Int(v as i64),
                };
                Some((value, i + w))
            },
            None => None,
        },
        None => if t == ValueType::String {
            match read_string(b, i, legacy) {
                Some((s, end)) => Some((MetaValue::Str(s), end)),
                None => None,
            }
        } else {
            match read_array_header(b, i) {
                Some((elem_type, count)) => match skip_array(b, i + 12, elem_type, count, legacy) {
                    Some(end) => Some((MetaValue::Array { elem_type, count }, end)),
                    None => None,
                },
                None => None,
            }
        },
    }
}

/// The position of a key among the first `n` entries.
pub open spec fn key_index(kv: Seq<(Seq<char>, ValueView)>, key: Seq<char>, n: int) -> Option<int>
    decreases n,
{
    if n <= 0 {
        None
    } else if kv[n - 1].0 == key {
        Some(n - 1)
    } else {
        key_index(kv, key, n - 1)
    }
}

/// The entries with one more: it takes the place of the one with its key.
pub open spec fn put(
    kv: Seq<(Seq<char>, ValueView)>,
    e: (Seq<char>, ValueView),
) -> Seq<(Seq<char>, ValueView)> {
    match key_index(kv, e.0, kv.len() as int) {
        Some(i) => kv.update(i, e),
        None => kv.push(e),
    }
}

/// What is left of entries that come one after another.
pub open spec fn settled(kv: Seq<(Seq<char>, ValueView)>) -> Seq<(Seq<char>, ValueView)>
    decreases kv.len(),
{
    if kv.len() == 0 {
        Seq::empty()
    } else {
        put(settled(kv.drop_last()), kv.last())
    }
}

/// No key is there twice.
pub open spec fn no_key_twice(kv: Seq<(Seq<char>, ValueView)>) -> bool {
    forall|i: int, j: int| 0 <= i < j < kv.len() ==> (#[trigger] kv[i]).0 != (#[trigger] kv[j]).0
}

proof fn lemma_key_index(kv: Seq<(Seq<char>, ValueView)>, key: Seq<char>, n: int)
    requires
        0 <= n <= kv.len(),
    ensures
        match key_index(kv, key, n) {
            Some(i) => 0 <= i < n && kv[i].0 == key && forall|j: int|
                i < j < n ==> (#[trigger] kv[j]).0 != key,
            None => forall|j: int| 0 <= j < n ==> (#[trigger] kv[j]).0 != key,
        },
    decreases n,
{
    if n > 0 && kv[n - 1].0 != key {
        lemma_key_index(kv, key, n - 1);
    }
}

proof fn lemma_lookup(kv: Seq<(Seq<char>, ValueView)>, key: Seq<char>)
    ensures
        match lookup(kv, key) {
            Some(v) => exists|i: int|
                0 <= i < kv.len() && #[trigger] kv[i] == (key, v) && forall|j: int|
                    i < j < kv.len() ==> (#[trigger] kv[j]).0 != key,
            None => forall|j: int| 0 <= j < kv.len() ==> (#[trigger] kv[j]).0 != key,
        },
    decreases kv.len(),
{
    if kv.len() > 0 {
        let n = kv.len() - 1;
        let short = kv.drop_last();
        if kv.last().0 == key {
            assert(kv[n] == (key, kv.last().1));
        } else {
            lemma_lookup(short, key);
            match lookup(short, key) {
                Some(v) => {
                    let i = choose|i: int|
                        0 <= i < short.len() && #[trigger] short[i] == (key, v) && forall|j: int|
                            i < j < short.len() ==> (#[trigger] short[j]).0 != key;
                    assert(kv[i] == (key, v));
                    assert forall|j: int| i < j < kv.len() implies (#[trigger] kv[j]).0 != key by {
                        if j < n {
                            assert(short[j] == kv[j]);
                        }
                    }
                },
                None => {
                    assert forall|j: int| 0 <= j < kv.len() implies (#[trigger] kv[j]).0
                        != key by {
                        if j < n {
                            assert(short[j] == kv[j]);
                        }
                    }
                },
            }
        }
    }
}

proof fn lemma_put(kv: Seq<(Seq<char>, ValueView)>, e: (Seq<char>, ValueView), key: Seq<char>)
    requires
        no_key_twice(kv),
    ensures
        no_key_twice(put(kv, e)),
        lookup(put(kv, e), key) == if key == e.0 {
            Some(e.1)
        } else {
            lookup(kv, key)
        },
{
    let n = kv.len() as int;
    let after = put(kv, e);
    lemma_key_index(kv, e.0, n);
    lemma_lookup(kv, key);
    lemma_lookup(after, key);
    match key_index(kv, e.0, n) {
        Some(i) => {
            assert(after[i] == e);
            assert forall|a: int, b: int| 0 <= a < b < after.len() implies (#[trigger] after[a]).0
                != (#[trigger] after[b]).0 by {
                assert(kv[a].0 != kv[b].0);
            }
            if key != e.0 && lookup(kv, key) is Some {
                let k = choose|k: int|
                    0 <= k < kv.len() && #[trigger] kv[k] == (key, lookup(kv, key)->0);
                assert(after[k] == kv[k]);
            }
            if key != e.0 && lookup(after, key) is Some {
                let k = choose|k: int|
                    0 <= k < after.len() && #[trigger] after[k] == (key, lookup(after, key)->0);
                assert(after[k] == kv[k]);
            }
        },
        None => {
            assert(after.drop_last() =~= kv);
        },
    }
}

/// Of entries that come one after another no key is left twice, and each key
/// has the value that it was given last.
pub proof fn law_last_value_counts(kv: Seq<(Seq<char>, ValueView)>, key: Seq<char>)
    ensures
        no_key_twice(settled(kv)),
        lookup(settled(kv), key) == lookup(kv, key),
    decreases kv.len(),
{
    if kv.len() > 0 {
        law_last_value_counts(kv.drop_last(), key);
        lemma_put(settled(kv.drop_last()), kv.last(), key);
    }
}

/// Adds an entry; it takes the place of the one with its key.
fn put_entry(kv: &mut Vec<(String, MetaValue)>, key: String, value: MetaValue)
    ensures
        entry_views(final(kv)@) == put(entry_views(old(kv)@), (key@, value@)),
{
    let ghost before = entry_views(kv@);
    let ghost e = (key@, value@);
    let mut n: usize = kv.len();
    while n > 0
        invariant
            before == entry_views(kv@),
            n <= kv@.len(),
            key_index(before, key@, before.len() as int) == key_index(before, key@, n as int),
        ensures
            n > 0 ==> before[n - 1].0 == key@,
        decreases n,
    {
        if same(kv[n - 1].0.as_str(), key.as_str()) {
            assert(before[n - 1].0 == key@);
            break;
        }
        n = n - 1;
    }
    if n > 0 {
        kv.set(n - 1, (key, value));
        assert(entry_views(kv@) =~= before.update(n - 1, e));
    } else {
        kv.push((key, value));
        assert(entry_views(kv@) =~= before.push(e));
    }
}

/// What the bytes of a file, or of its beginning, say.
pub open spec fn parses_to(b: Seq<u8>, r: Result<GgufMeta, GgufError>) -> bool {
    match header_of(b) {
        Header::Short(w) => r is Err && r->Err_0 is Truncated && r->Err_0->where_@ == w,
        Header::BadMagic(got) => r is Err && r->Err_0 == (GgufError::BadMagic { got }),
        Header::BadVersion(version) => r is Err && r->Err_0 == (GgufError::BadVersion { version }),
        Header::Complete(version, tensor_count, _, _) => match entries_of(b) {
            Entries::BadType(id) => r is Err && r->Err_0 == (GgufError::UnknownValueType { id }),
            Entries::Cut(kv) => r is Ok && r->Ok_0.version == version && r->Ok_0.tensor_count
                == tensor_count && entry_views(r->Ok_0.kv@) == settled(kv) && r->Ok_0.truncated,
            Entries::All(kv) => r is Ok && r->Ok_0.version == version && r->Ok_0.tensor_count
                == tensor_count && entry_views(r->Ok_0.kv@) == settled(kv) && !r->Ok_0.truncated,
        },
    }
}

/// Reads the header and the entries.
fn parse(b: &[u8]) -> (r: Result<GgufMeta, GgufError>)
    ensures
        parses_to(b@, r),
        r is Ok ==> r->Ok_0.file_size == 0,
        r is Ok ==> no_key_twice(entry_views(r->Ok_0.kv@)),
{
    let magic = match read_number(b, 0, 4) {
        Some(m) => m as u32,
        None => {
            return Err(GgufError::Truncated { where_: "magic" });
        },
    };
    if magic != MAGIC {
        return Err(GgufError::BadMagic { got: magic });
    }
    let version = match read_number(b, 4, 4) {
        Some(v) => v as u32,
        None => {
            return Err(GgufError::Truncated { where_: "version" });
        },
    };
    if version < 1 || version > 3 {
        return Err(GgufError::BadVersion { version });
    }
    let legacy = version == 1;
    let w: u64 = if legacy {
        4
    } else {
        8
    };
    let tensor_count = match read_number(b, 8, w) {
        Some(n) => n,
        None => {
            return Err(GgufError::Truncated { where_: "tensor_count" });
        },
    };
    let kv_count = match read_number(b, 8 + w, w) {
        Some(n) => n,
        None => {
            return Err(GgufError::Truncated { where_: "kv_count" });
        },
    };
    let ghost all = entries_of(b@);
    assert(header_of(b@) == Header::Complete(version, tensor_count, kv_count, (8 + 2 * w) as nat));
    let mut kv: Vec<(String, MetaValue)> = Vec::new();
    let mut truncated = false;
    let mut at: u64 = 8 + 2 * w;
    let mut rest: u64 = kv_count;
    let ghost mut read: Seq<(Seq<char>, ValueView)> = Seq::empty();
    assert(entry_views(kv@) =~= settled(read));
    while rest > 0
        invariant_except_break
            !truncated,
            all == entries_at(b@, at as nat, rest as nat, legacy, read),
        invariant
            entry_views(kv@) == settled(read),
            header_of(b@) == Header::Complete(version, tensor_count, kv_count, (8 + 2 * w) as nat),
            all == entries_of(b@),
        ensures
            truncated ==> all == Entries::Cut(read),
            !truncated ==> all == Entries::All(read),
        decreases rest,
    {
        let (key, after_key) = match read_string(b, at, legacy) {
            Some(k) => k,
            None => {
                truncated = true;
                break;
            },
        };
        let id = match read_number(b, after_key, 4) {
            Some(id) => id as u32,
            None => {
                truncated = true;
                break;
            },
        };
        let t = match ValueType::from_id(id) {
            Ok(t) => t,
            Err(e) => {
                return Err(e);
            },
        };
        match read_value(b, after_key + 4, t, legacy) {
            Some((v, end)) => {
                proof {
                    let before = read;
                    read = read.push((key@, v@));
                    assert(read.drop_last() =~= before);
                }
                put_entry(&mut kv, key, v);
                at = end;
            },
            None => {
                truncated = true;
                break;
            },
        }
        rest = rest - 1;
    }
    proof {
        law_last_value_counts(read, Seq::empty());
    }
    Ok(GgufMeta { version, tensor_count, file_size: 0, kv, truncated })
}


/// The name of a quantisation code.
pub open spec fn quant_of(code: u32) -> Seq<char> {
    if code == 0 {
        "F32"@
    } else if code == 1 {
        "F16"@
    } else if code == 2 {
        "Q4_0"@
    } else if code == 3 {
        "Q4_1"@
    } else if code == 7 {
        "Q8_0"@
    } else if code == 8 {
        "Q5_0"@
    } else if code == 9 {
        "Q5_1"@
    } else if code == 10 {
        "Q2_K"@
    } else if code == 11 {
        "Q3_K_S"@
    } else if code == 12 {
        "Q3_K_M"@
    } else if code == 13 {
        "Q3_K_L"@
    } else if code == 14 {
        "Q4_K_S"@
    } else if code == 15 {
        "Q4_K_M"@
    } else if code == 16 {
        "Q5_K_S"@
    } else if code == 17 {
        "Q5_K_M"@
    } else if code == 18 {
        "Q6_K"@
    } else if code == 19 {
        "IQ2_XXS"@
    } else if code == 20 {
        "IQ2_XS"@
    } else if code == 21 {
        "Q2_K_S"@
    } else if code == 22 {
        "IQ3_XS"@
    } else if code == 23 {
        "IQ3_XXS"@
    } else if code == 24 {
        "IQ1_S"@
    } else if code == 25 {
        "IQ4_NL"@
    } else if code == 26 {
        "IQ3_S"@
    } else if code == 27 {
        "IQ3_M"@
    } else if code == 28 {
        "IQ2_S"@
    } else if code == 29 {
        "IQ2_M"@
    } else if code == 30 {
        "IQ4_XS"@
    } else if code == 31 {
        "IQ1_M"@
    } else if code == 32 {
        "BF16"@
    } else if code == 36 {
        "TQ1_0"@
    } else if code == 37 {
        "TQ2_0"@
    } else if code == 38 {
        "MXFP4"@
    } else {
        "unknown("@ + decimal(code as nat) + ")"@
    }
}

/// The name of a quantisation code.
pub fn file_type_name(code: u32) -> (r: String)
    ensures
        r@ == quant_of(code),
{
    let name = match code {
        0 => "F32",
        1 => "F16",
        2 => "Q4_0",
        3 => "Q4_1",
        7 => "Q8_0",
        8 => "Q5_0",
        9 => "Q5_1",
        10 => "Q2_K",
        11 => "Q3_K_S",
        12 => "Q3_K_M",
        13 => "Q3_K_L",
        14 => "Q4_K_S",
        15 => "Q4_K_M",
        16 => "Q5_K_S",
        17 => "Q5_K_M",
        18 => "Q6_K",
        19 => "IQ2_XXS",
        20 => "IQ2_XS",
        21 => "Q2_K_S",
        22 => "IQ3_XS",
        23 => "IQ3_XXS",
        24 => "IQ1_S",
        25 => "IQ4_NL",
        26 => "IQ3_S",
        27 => "IQ3_M",
        28 => "IQ2_S",
        29 => "IQ2_M",
        30 => "IQ4_XS",
        31 => "IQ1_M",
        32 => "BF16",
        36 => "TQ1_0",
        37 => "TQ2_0",
        38 => "MXFP4",
        _ => {
            let mut r = owned("unknown(");
            r.append(decimal_of(code as u64).as_str());
            r.append(")");
            return r;
        },
    };
    owned(name)
}

/// The value of a key; of a repeated key the last counts.
pub open spec fn lookup(kv: Seq<(Seq<char>, ValueView)>, key: Seq<char>) -> Option<ValueView>
    decreases kv.len(),
{
    if kv.len() == 0 {
        None
    } else if kv.last().0 == key {
        Some(kv.last().1)
    } else {
        lookup(kv.drop_last(), key)
    }
}

/// The text of a key.
pub open spec fn text_of(kv: Seq<(Seq<char>, ValueView)>, key: Seq<char>) -> Option<Seq<char>> {
    match lookup(kv, key) {
        Some(ValueView::Str(s)) => Some(s),
        _ => None,
    }
}

/// The number of a key.
pub open spec fn int_of(kv: Seq<(Seq<char>, ValueView)>, key: Seq<char>) -> Option<i64> {
    match lookup(kv, key) {
        Some(ValueView::Int(v)) => Some(v),
        _ => None,
    }
}

/// A number as the bits of an unsigned one.
pub open spec fn as_bits(v: i64) -> u64 {
    if v < 0 {
        (v + 0x1_0000_0000_0000_0000) as u64
    } else {
        v as u64
    }
}

/// The number of a key, as the bits of an unsigned one.
pub open spec fn bits_of(kv: Seq<(Seq<char>, ValueView)>, key: Seq<char>) -> Option<u64> {
    match int_of(kv, key) {
        Some(v) => Some(as_bits(v)),
        None => None,
    }
}

pub open spec fn arch_of(kv: Seq<(Seq<char>, ValueView)>) -> Option<Seq<char>> {
    text_of(kv, "general.architecture"@)
}

/// The number of a key that the architecture begins.
pub open spec fn arch_int(kv: Seq<(Seq<char>, ValueView)>, suffix: Seq<char>) -> Option<i64> {
    match arch_of(kv) {
        Some(a) => int_of(kv, a + suffix),
        None => None,
    }
}

pub open spec fn arch_bits(kv: Seq<(Seq<char>, ValueView)>, suffix: Seq<char>) -> Option<u64> {
    match arch_int(kv, suffix) {
        Some(v) => Some(as_bits(v)),
        None => None,
    }
}

pub open spec fn quant_name_of(kv: Seq<(Seq<char>, ValueView)>) -> Option<Seq<char>> {
    match int_of(kv, "general.file_type"@) {
        Some(v) => Some(
            quant_of(
                if v < 0 {
                    0
                } else if v > i32::MAX {
                    i32::MAX as u32
                } else {
                    v as u32
                },
            ),
        ),
        None => None,
    }
}

pub open spec fn vocab_of(kv: Seq<(Seq<char>, ValueView)>) -> Option<u64> {
    match lookup(kv, "tokenizer.ggml.tokens"@) {
        Some(ValueView::Array(_, n)) => Some(n),
        _ => None,
    }
}

fn bits(v: i64) -> (r: u64)
    ensures
        r == as_bits(v),
{
    if v < 0 {
        0xffff_ffff_ffff_ffff - ((-(v + 1)) as u64)
    } else {
        v as u64
    }
}

impl GgufMeta {
    /// Reads metadata from the bytes of a file, or of its beginning.
    /// `total_size` is the size of the whole file.
    pub fn from_reader(bytes: &[u8], total_size: u64) -> (r: Result<GgufMeta, GgufError>)
        ensures
            parses_to(bytes@, r),
            r is Ok ==> r->Ok_0.file_size == total_size,
            r is Ok ==> no_key_twice(r->Ok_0.entries()),
    {
        match parse(bytes) {
            Ok(meta) => Ok(
                GgufMeta {
                    version: meta.version,
                    tensor_count: meta.tensor_count,
                    file_size: total_size,
                    kv: meta.kv,
                    truncated: meta.truncated,
                },
            ),
            Err(e) => Err(e),
        }
    }

    /// What the entries say.
    pub open spec fn entries(self) -> Seq<(Seq<char>, ValueView)> {
        entry_views(self.kv@)
    }

    /// The value of a key.
    pub fn get(&self, key: &str) -> (r: Option<&MetaValue>)
        ensures
            match r {
                Some(v) => lookup(self.entries(), key@) == Some(v@),
                None => lookup(self.entries(), key@) is None,
            },
    {
        let ghost kv = self.entries();
        let mut n: usize = self.kv.len();
        assert(kv.take(n as int) =~= kv);
        while n > 0
            invariant
                n <= self.kv@.len(),
                kv == self.entries(),
                lookup(kv, key@) == lookup(kv.take(n as int), key@),
            decreases n,
        {
            assert(kv.take(n as int).drop_last() =~= kv.take(n - 1));
            assert(kv.take(n as int).last() == kv[n - 1]);
            if same(self.kv[n - 1].0.as_str(), key) {
                return Some(&self.kv[n - 1].1);
            }
            n = n - 1;
        }
        None
    }

    fn text(&self, key: &str) -> (r: Option<&str>)
        ensures
            match r {
                Some(s) => text_of(self.entries(), key@) == Some(s@),
                None => text_of(self.entries(), key@) is None,
            },
    {
        match self.get(key) {
            Some(v) => v.as_str(),
            None => None,
        }
    }

    fn number(&self, key: &str) -> (r: Option<i64>)
        ensures
            r == int_of(self.entries(), key@),
    {
        match self.get(key) {
            Some(v) => v.as_int(),
            None => None,
        }
    }

    fn arch_number(&self, suffix: &str) -> (r: Option<i64>)
        ensures
            r == arch_int(self.entries(), suffix@),
    {
        match self.arch() {
            Some(a) => {
                let mut key = owned(a);
                key.append(suffix);
                self.number(key.as_str())
            },
            None => None,
        }
    }

    pub fn arch(&self) -> (r: Option<&str>)
        ensures
            match r {
                Some(s) => arch_of(self.entries()) == Some(s@),
                None => arch_of(self.entries()) is None,
            },
    {
        self.text("general.architecture")
    }

    pub fn name(&self) -> (r: Option<&str>)
        ensures
            match r {
                Some(s) => text_of(self.entries(), "general.name"@) == Some(s@),
                None => text_of(self.entries(), "general.name"@) is None,
            },
    {
        self.text("general.name")
    }

    pub fn quant_name(&self) -> (r: Option<String>)
        ensures
            opt_text(r) == quant_name_of(self.entries()),
    {
        match self.number("general.file_type") {
            Some(v) => {
                let code: u32 = if v < 0 {
                    0
                } else if v > 2_147_483_647 {
                    2_147_483_647
                } else {
                    v as u32
                };
                Some(file_type_name(code))
            },
            None => None,
        }
    }

    pub fn ctx_train(&self) -> (r: Option<i64>)
        ensures
            r == arch_int(self.entries(), ".context_length"@),
    {
        self.arch_number(".context_length")
    }

    /// The number of tokens of the tokenizer.
    pub fn vocab_size(&self) -> (r: Option<u64>)
        ensures
            r == vocab_of(self.entries()),
    {
        match self.get("tokenizer.ggml.tokens") {
            Some(v) => match v {
                MetaValue::Array { elem_type: _, count } => Some(*count),
                _ => None,
            },
            None => None,
        }
    }

    fn arch_unsigned(&self, suffix: &str) -> (r: Option<u64>)
        ensures
            r == arch_bits(self.entries(), suffix@),
    {
        match self.arch_number(suffix) {
            Some(v) => Some(bits(v)),
            None => None,
        }
    }

    pub fn n_layers(&self) -> (r: Option<u64>)
        ensures
            r == arch_bits(self.entries(), ".block_count"@),
    {
        self.arch_unsigned(".block_count")
    }

    pub fn n_embd(&self) -> (r: Option<u64>)
        ensures
            r == arch_bits(self.entries(), ".embedding_length"@),
    {
        self.arch_unsigned(".embedding_length")
    }

    pub fn params(&self) -> (r: Option<u64>)
        ensures
            r == bits_of(self.entries(), "general.parameter_count"@),
    {
        match self.number("general.parameter_count") {
            Some(v) => Some(bits(v)),
            None => None,
        }
    }

    /// The model descriptor of the file at `path`.
    pub fn to_meta(&self, path: &str) -> (r: ModelMeta)
        ensures
            r.path@ == path@,
            r.format == ModelFormat::Gguf,
            r.name@ == match text_of(self.entries(), "general.name"@) {
                Some(s) => s,
                None => "unknown"@,
            },
            opt_text(r.basename) == text_of(self.entries(), "general.basename"@),
            opt_text(r.arch) == arch_of(self.entries()),
            opt_text(r.quant) == quant_name_of(self.entries()),
            r.params == bits_of(self.entries(), "general.parameter_count"@),
            r.n_layers == arch_bits(self.entries(), ".block_count"@),
            r.n_embd == arch_bits(self.entries(), ".embedding_length"@),
            r.n_head == arch_bits(self.entries(), ".attention.head_count"@),
            r.n_head_kv == arch_bits(self.entries(), ".attention.head_count_kv"@),
            r.ctx_train == arch_bits(self.entries(), ".context_length"@),
            r.vocab == vocab_of(self.entries()),
            r.weight_size == self.file_size,
            r.footprint == self.file_size,
    {
        ModelMeta {
            path: owned(path),
            format: ModelFormat::Gguf,
            name: match self.name() {
                Some(s) => owned(s),
                None => owned("unknown"),
            },
            basename: match self.text("general.basename") {
                Some(s) => Some(owned(s)),
                None => None,
            },
            arch: match self.arch() {
                Some(s) => Some(owned(s)),
                None => None,
            },
            quant: self.quant_name(),
            params: self.params(),
            n_layers: self.n_layers(),
            n_embd: self.n_embd(),
            n_head: self.arch_unsigned(".attention.head_count"),
            n_head_kv: self.arch_unsigned(".attention.head_count_kv"),
            ctx_train: self.arch_unsigned(".context_length"),
            vocab: self.vocab_size(),
            weight_size: self.file_size,
            footprint: self.file_size,
        }
    }
}

/// The lower-case hexadecimal digit of a number.
pub open spec fn hex_digit(d: nat) -> char {
    if d < 10 {
        crate::text::digit_char(d)
    } else if d == 10 {
        'a'
    } else if d == 11 {
        'b'
    } else if d == 12 {
        'c'
    } else if d == 13 {
        'd'
    } else if d == 14 {
        'e'
    } else {
        'f'
    }
}

/// The `width` lowest hexadecimal digits of a number.
pub open spec fn hex(n: nat, width: nat) -> Seq<char>
    decreases width,
{
    if width == 0 {
        Seq::empty()
    } else {
        hex(n / 16, (width - 1) as nat).push(hex_digit(n % 16))
    }
}

pub fn hex_digit_of(d: u64) -> (c: char)
    requires
        d < 16,
    ensures
        c == hex_digit(d as nat),
{
    match d {
        0 => '0',
        1 => '1',
        2 => '2',
        3 => '3',
        4 => '4',
        5 => '5',
        6 => '6',
        7 => '7',
        8 => '8',
        9 => '9',
        10 => 'a',
        11 => 'b',
        12 => 'c',
        13 => 'd',
        14 => 'e',
        _ => 'f',
    }
}

/// Appends the `width` lowest hexadecimal digits of a number.
pub fn push_hex(s: &mut String, n: u64, width: u64)
    ensures
        final(s)@ == old(s)@ + hex(n as nat, width as nat),
    decreases width,
{
    let ghost before = s@;
    if width > 0 {
        push_hex(s, n / 16, width - 1);
        s.push(hex_digit_of(n % 16));
    }
    assert(s@ =~= before + hex(n as nat, width as nat));
}

impl GgufError {
    /// What an error says.
    pub open spec fn spec_message(self) -> Seq<char> {
        match self {
            GgufError::Io(e) => "io error: "@ + e@,
            GgufError::BadMagic { got } => "not a GGUF file (bad magic 0x"@ + hex(got as nat, 8)
                + ")"@,
            GgufError::BadVersion { version } => "GGUF version "@ + decimal(version as nat)
                + " unsupported"@,
            GgufError::Truncated { where_ } => "file truncated while reading "@ + where_@,
            GgufError::UnknownValueType { id } => "unknown GGUF value type id "@ + decimal(
                id as nat,
            ),
        }
    }

    /// What the error says.
    pub fn message(&self) -> (r: String)
        ensures
            r@ == self.spec_message(),
    {
        match self {
            GgufError::Io(e) => {
                let mut r = owned("io error: ");
                r.append(e.as_str());
                r
            },
            GgufError::BadMagic { got } => {
                let mut r = owned("not a GGUF file (bad magic 0x");
                push_hex(&mut r, *got as u64, 8);
                r.append(")");
                r
            },
            GgufError::BadVersion { version } => {
                let mut r = owned("GGUF version ");
                r.append(decimal_of(*version as u64).as_str());
                r.append(" unsupported");
                r
            },
            GgufError::Truncated { where_ } => {
                let mut r = owned("file truncated while reading ");
                r.append(where_);
                r
            },
            GgufError::UnknownValueType { id } => {
                let mut r = owned("unknown GGUF value type id ");
                r.append(decimal_of(*id as u64).as_str());
                r
            },
        }
    }
}

proof fn lemma_le_prefix(p: Seq<u8>, b: Seq<u8>, i: int, n: nat)
    requires
        0 <= i,
        i + n <= p.len() <= b.len(),
        p == b.take(p.len() as int),
    ensures
        le(p, i, n) == le(b, i, n),
    decreases n,
{
    if n > 0 {
        assert(p[i] == b[i]);
        lemma_le_prefix(p, b, i + 1, (n - 1) as nat);
    }
}

proof fn lemma_number_prefix(p: Seq<u8>, b: Seq<u8>, i: nat, n: nat)
    requires
        p.len() <= b.len(),
        p == b.take(p.len() as int),
        number_at(p, i, n) is Some,
    ensures
        number_at(b, i, n) == number_at(p, i, n),
{
    lemma_le_prefix(p, b, i as int, n);
}

proof fn lemma_string_prefix(p: Seq<u8>, b: Seq<u8>, i: nat, legacy: bool)
    requires
        p.len() <= b.len(),
        p == b.take(p.len() as int),
        string_at(p, i, legacy) is Some,
    ensures
        string_at(b, i, legacy) == string_at(p, i, legacy),
{
    let w = length_width(legacy);
    lemma_number_prefix(p, b, i, w);
    let len = number_at(p, i, w)->0;
    assert(p.subrange((i + w) as int, (i + w + len) as int) =~= b.subrange(
        (i + w) as int,
        (i + w + len) as int,
    ));
}

proof fn lemma_header_prefix(p: Seq<u8>, b: Seq<u8>, i: nat)
    requires
        p.len() <= b.len(),
        p == b.take(p.len() as int),
        nested_header(p, i) is Some,
    ensures
        nested_header(b, i) == nested_header(p, i),
{
    lemma_number_prefix(p, b, i, 4);
    lemma_number_prefix(p, b, i + 4, 8);
}

proof fn lemma_array_prefix(
    p: Seq<u8>,
    b: Seq<u8>,
    i: nat,
    elem: ValueType,
    count: nat,
    legacy: bool,
)
    requires
        p.len() <= b.len(),
        p == b.take(p.len() as int),
        array_end(p, i, elem, count, legacy) is Some,
    ensures
        array_end(b, i, elem, count, legacy) == array_end(p, i, elem, count, legacy),
    decreases left(p, i), count,
{
    match width_of(elem) {
        Some(w) => {},
        None => if count > 0 {
            if elem == ValueType::String {
                lemma_string_prefix(p, b, i, legacy);
                let end = (string_at(p, i, legacy)->0).1;
                lemma_array_prefix(p, b, end, elem, (count - 1) as nat, legacy);
            } else {
                lemma_header_prefix(p, b, i);
                let (inner, inner_count) = nested_header(p, i)->0;
                lemma_array_prefix(p, b, i + 12, inner, inner_count, legacy);
                let end = array_end(p, i + 12, inner, inner_count, legacy)->0;
                lemma_array_prefix(p, b, end, elem, (count - 1) as nat, legacy);
            }
        },
    }
}

proof fn lemma_value_prefix(p: Seq<u8>, b: Seq<u8>, i: nat, t: ValueType, legacy: bool)
    requires
        p.len() <= b.len(),
        p == b.take(p.len() as int),
        value_at(p, i, t, legacy) is Some,
    ensures
        value_at(b, i, t, legacy) == value_at(p, i, t, legacy),
{
    match t {
        ValueType::String => {
            lemma_string_prefix(p, b, i, legacy);
        },
        ValueType::Array => {
            lemma_header_prefix(p, b, i);
            let (elem, count) = nested_header(p, i)->0;
            lemma_array_prefix(p, b, i + 12, elem, count, legacy);
        },
        _ => {
            lemma_number_prefix(p, b, i, width_of(t)->0);
        },
    }
}

/// What reading a file's beginning gives agrees with what reading more of the
/// file gives.
pub open spec fn agrees(short: Entries, long: Entries) -> bool {
    match short {
        Entries::All(_) => long == short,
        Entries::BadType(_) => long == short,
        Entries::Cut(k) => match long {
            Entries::All(m) => k.is_prefix_of(m),
            Entries::Cut(m) => k.is_prefix_of(m),
            _ => true,
        },
    }
}

/// The entries that were read before stay.
proof fn lemma_entries_keep(
    b: Seq<u8>,
    i: nat,
    n: nat,
    legacy: bool,
    before: Seq<(Seq<char>, ValueView)>,
)
    ensures
        match entries_at(b, i, n, legacy, before) {
            Entries::All(m) => before.is_prefix_of(m),
            Entries::Cut(m) => before.is_prefix_of(m),
            _ => true,
        },
    decreases n,
{
    if n > 0 {
        match string_at(b, i, legacy) {
            Some((key, j)) => match number_at(b, j, 4) {
                Some(id) => match type_of_id(id) {
                    Some(t) => match value_at(b, j + 4, t, legacy) {
                        Some((v, end)) => {
                            let more = before.push((key, v));
                            lemma_entries_keep(b, end, (n - 1) as nat, legacy, more);
                            match entries_at(b, end, (n - 1) as nat, legacy, more) {
                                Entries::All(m) => {
                                    assert(before =~= m.take(before.len() as int)) by {
                                        assert(more =~= m.take(more.len() as int));
                                        assert(before =~= more.take(before.len() as int));
                                    }
                                },
                                Entries::Cut(m) => {
                                    assert(before =~= m.take(before.len() as int)) by {
                                        assert(more =~= m.take(more.len() as int));
                                        assert(before =~= more.take(before.len() as int));
                                    }
                                },
                                _ => {},
                            }
                        },
                        None => {},
                    },
                    None => {},
                },
                None => {},
            },
            None => {},
        }
    }
}

proof fn lemma_entries_prefix(
    p: Seq<u8>,
    b: Seq<u8>,
    i: nat,
    n: nat,
    legacy: bool,
    before: Seq<(Seq<char>, ValueView)>,
)
    requires
        p.len() <= b.len(),
        p == b.take(p.len() as int),
    ensures
        agrees(entries_at(p, i, n, legacy, before), entries_at(b, i, n, legacy, before)),
    decreases n,
{
    lemma_entries_keep(b, i, n, legacy, before);
    if n > 0 {
        match string_at(p, i, legacy) {
            Some((key, j)) => {
                lemma_string_prefix(p, b, i, legacy);
                match number_at(p, j, 4) {
                    Some(id) => {
                        lemma_number_prefix(p, b, j, 4);
                        match type_of_id(id) {
                            Some(t) => match value_at(p, j + 4, t, legacy) {
                                Some((v, end)) => {
                                    lemma_value_prefix(p, b, j + 4, t, legacy);
                                    lemma_entries_prefix(
                                        p,
                                        b,
                                        end,
                                        (n - 1) as nat,
                                        legacy,
                                        before.push((key, v)),
                                    );
                                },
                                None => {},
                            },
                            None => {},
                        }
                    },
                    None => {},
                }
            },
            None => {},
        }
    }
}

/// The beginning of a file gives the header and the first entries of the file:
/// what was read of it stays when more of the file is read, and where nothing
/// was cut off it is all.
pub proof fn law_beginning_agrees(b: Seq<u8>, n: int)
    requires
        0 <= n <= b.len(),
        header_of(b.take(n)) is Complete,
    ensures
        header_of(b) == header_of(b.take(n)),
        agrees(entries_of(b.take(n)), entries_of(b)),
{
    let p = b.take(n);
    lemma_number_prefix(p, b, 0, 4);
    lemma_number_prefix(p, b, 4, 4);
    let w = length_width(number_at(p, 4, 4)->0 == 1);
    lemma_number_prefix(p, b, 8, w);
    lemma_number_prefix(p, b, 8 + w, w);
    match header_of(p) {
        Header::Complete(v, _, k, i) => {
            lemma_entries_prefix(p, b, i, k as nat, v == 1, Seq::empty());
        },
        _ => {},
    }
}


/// The `n` lowest bytes of a number, least significant first.
pub open spec fn to_le(v: nat, n: nat) -> Seq<u8>
    decreases n,
{
    if n == 0 {
        Seq::empty()
    } else {
        seq![(v % 256) as u8] + to_le(v / 256, (n - 1) as nat)
    }
}

/// 256 to the power of `n`.
pub open spec fn byte_range(n: nat) -> nat
    decreases n,
{
    if n == 0 {
        1
    } else {
        256 * byte_range((n - 1) as nat)
    }
}

/// The bytes of a string: its length, then its UTF-8 encoding.
pub open spec fn string_bytes(s: Seq<char>) -> Seq<u8> {
    to_le(encode_utf8(s).len(), 8) + encode_utf8(s)
}

/// The bytes of a list of strings.
pub open spec fn strings_bytes(v: Seq<Seq<char>>) -> Seq<u8>
    decreases v.len(),
{
    if v.len() == 0 {
        Seq::empty()
    } else {
        string_bytes(v[0]) + strings_bytes(v.drop_first())
    }
}

/// A value to be written.
pub enum Written {
    /// A value of a type of fixed width, as the number of its bytes.
    Scalar(ValueType, nat),
    Text(Seq<char>),
    /// An array of strings.
    Texts(Seq<Seq<char>>),
    /// An array of values of a type of fixed width, by their bytes.
    Block(ValueType, Seq<u8>),
}

/// The id of a value type.
pub open spec fn id_of(t: ValueType) -> nat {
    match t {
        ValueType::U8 => 0,
        ValueType::I8 => 1,
        ValueType::U16 => 2,
        ValueType::I16 => 3,
        ValueType::U32 => 4,
        ValueType::I32 => 5,
        ValueType::F32 => 6,
        ValueType::Bool => 7,
        ValueType::String => 8,
        ValueType::Array => 9,
        ValueType::U64 => 10,
        ValueType::I64 => 11,
        ValueType::F64 => 12,
    }
}

/// The string is not too long to be read.
pub open spec fn writable_text(s: Seq<char>) -> bool {
    encode_utf8(s).len() <= MAX_STRING_LEN
}

/// The value can be written.
pub open spec fn writable(w: Written) -> bool {
    match w {
        Written::Scalar(t, v) => width_of(t) is Some && v < byte_range(width_of(t)->0),
        Written::Text(s) => writable_text(s),
        Written::Texts(v) => v.len() <= u64::MAX && forall|i: int|
            0 <= i < v.len() ==> writable_text(#[trigger] v[i]),
        Written::Block(t, bytes) => width_of(t) is Some && bytes.len() % width_of(t)->0 == 0
            && bytes.len() <= u64::MAX,
    }
}

/// The type and the bytes of a value.
pub open spec fn value_bytes(w: Written) -> Seq<u8> {
    match w {
        Written::Scalar(t, v) => to_le(id_of(t), 4) + to_le(v, width_of(t)->0),
        Written::Text(s) => to_le(8, 4) + string_bytes(s),
        Written::Texts(v) => to_le(9, 4) + (to_le(8, 4) + to_le(v.len(), 8) + strings_bytes(v)),
        Written::Block(t, bytes) => to_le(9, 4) + (to_le(id_of(t), 4) + to_le(
            bytes.len() / width_of(t)->0,
            8,
        ) + bytes),
    }
}

/// What a written value says when it is read.
pub open spec fn says(w: Written) -> ValueView {
    match w {
        Written::Scalar(t, v) => scalar(t, v),
        Written::Text(s) => ValueView::Str(s),
        Written::Texts(v) => ValueView::Array(ValueType::String, v.len() as u64),
        Written::Block(t, bytes) => ValueView::Array(t, (bytes.len() / width_of(t)->0) as u64),
    }
}

/// The bytes of an entry.
pub open spec fn entry_bytes(e: (Seq<char>, Written)) -> Seq<u8> {
    string_bytes(e.0) + value_bytes(e.1)
}

/// The bytes of a list of entries.
pub open spec fn entries_bytes(es: Seq<(Seq<char>, Written)>) -> Seq<u8>
    decreases es.len(),
{
    if es.len() == 0 {
        Seq::empty()
    } else {
        entry_bytes(es[0]) + entries_bytes(es.drop_first())
    }
}

/// The bytes of a file with 64-bit counts, up to the end of its entries.
pub open spec fn file_bytes(version: u32, tensors: u64, es: Seq<(Seq<char>, Written)>) -> Seq<u8> {
    to_le(MAGIC as nat, 4) + to_le(version as nat, 4) + to_le(tensors as nat, 8) + to_le(
        es.len(),
        8,
    ) + entries_bytes(es)
}

/// What the entries say when they are read.
pub open spec fn all_say(es: Seq<(Seq<char>, Written)>) -> Seq<(Seq<char>, ValueView)> {
    Seq::new(es.len(), |i: int| (es[i].0, says(es[i].1)))
}

/// The bytes `s` stand at `i`.
pub open spec fn stands_at(b: Seq<u8>, i: nat, s: Seq<u8>) -> bool {
    i + s.len() <= b.len() && b.subrange(i as int, (i + s.len()) as int) == s
}

proof fn lemma_stands_split(b: Seq<u8>, i: nat, x: Seq<u8>, y: Seq<u8>)
    requires
        stands_at(b, i, x + y),
    ensures
        stands_at(b, i, x),
        stands_at(b, i + x.len(), y),
{
    let all = b.subrange(i as int, (i + (x + y).len()) as int);
    assert(b.subrange(i as int, (i + x.len()) as int) =~= all.take(x.len() as int));
    assert(all.take(x.len() as int) =~= x);
    assert(b.subrange((i + x.len()) as int, (i + x.len() + y.len()) as int) =~= all.skip(
        x.len() as int,
    ));
    assert(all.skip(x.len() as int) =~= y);
}

proof fn lemma_to_le_len(v: nat, n: nat)
    ensures
        to_le(v, n).len() == n,
    decreases n,
{
    if n > 0 {
        lemma_to_le_len(v / 256, (n - 1) as nat);
    }
}

proof fn lemma_number_written(b: Seq<u8>, i: nat, v: nat, n: nat)
    requires
        stands_at(b, i, to_le(v, n)),
        v < byte_range(n),
    ensures
        number_at(b, i, n) == Some(v),
        to_le(v, n).len() == n,
    decreases n,
{
    lemma_to_le_len(v, n);
    if n > 0 {
        let head = seq![(v % 256) as u8];
        let tail = to_le(v / 256, (n - 1) as nat);
        lemma_stands_split(b, i, head, tail);
        lemma_number_written(b, i + 1, v / 256, (n - 1) as nat);
        assert(b.subrange(i as int, (i + 1) as int)[0] == head[0]);
    }
}

proof fn lemma_byte_ranges()
    ensures
        byte_range(1) == 0x100,
        byte_range(2) == 0x1_0000,
        byte_range(4) == 0x1_0000_0000,
        byte_range(8) == 0x1_0000_0000_0000_0000,
{
    reveal_with_fuel(byte_range, 9);
}

proof fn lemma_string_written(b: Seq<u8>, i: nat, s: Seq<char>)
    requires
        stands_at(b, i, string_bytes(s)),
        writable_text(s),
    ensures
        string_at(b, i, false) == Some((s, i + string_bytes(s).len())),
        string_bytes(s).len() >= 8,
{
    let u = encode_utf8(s);
    lemma_byte_ranges();
    lemma_stands_split(b, i, to_le(u.len(), 8), u);
    lemma_number_written(b, i, u.len(), 8);
    vstd::utf8::encode_utf8_valid_utf8(s);
    vstd::utf8::encode_utf8_decode_utf8(s);
}

proof fn lemma_strings_written(b: Seq<u8>, i: nat, v: Seq<Seq<char>>)
    requires
        stands_at(b, i, strings_bytes(v)),
        forall|k: int| 0 <= k < v.len() ==> writable_text(#[trigger] v[k]),
    ensures
        array_end(b, i, ValueType::String, v.len(), false) == Some(i + strings_bytes(v).len()),
    decreases v.len(),
{
    if v.len() > 0 {
        let rest = v.drop_first();
        lemma_stands_split(b, i, string_bytes(v[0]), strings_bytes(rest));
        lemma_string_written(b, i, v[0]);
        assert forall|k: int| 0 <= k < rest.len() implies writable_text(#[trigger] rest[k]) by {
            assert(rest[k] == v[k + 1]);
        }
        lemma_strings_written(b, i + string_bytes(v[0]).len(), rest);
    }
}

proof fn lemma_type_ids(t: ValueType)
    ensures
        type_of_id(id_of(t)) == Some(t),
        id_of(t) <= 12,
{
}

proof fn lemma_value_written(b: Seq<u8>, i: nat, w: Written)
    requires
        b.len() <= u64::MAX,
        stands_at(b, i, value_bytes(w)),
        writable(w),
    ensures
        value_bytes(w).len() >= 4,
        number_at(b, i, 4) is Some,
        type_of_id(number_at(b, i, 4)->0) is Some,
        value_at(b, i + 4, type_of_id(number_at(b, i, 4)->0)->0, false) == Some(
            (says(w), i + value_bytes(w).len()),
        ),
{
    lemma_byte_ranges();
    match w {
        Written::Scalar(t, v) => {
            lemma_type_ids(t);
            lemma_stands_split(b, i, to_le(id_of(t), 4), to_le(v, width_of(t)->0));
            lemma_number_written(b, i, id_of(t), 4);
            lemma_number_written(b, i + 4, v, width_of(t)->0);
        },
        Written::Text(s) => {
            lemma_stands_split(b, i, to_le(8, 4), string_bytes(s));
            lemma_number_written(b, i, 8, 4);
            lemma_string_written(b, i + 4, s);
        },
        Written::Texts(v) => {
            let rest = to_le(8, 4) + to_le(v.len(), 8) + strings_bytes(v);
            lemma_stands_split(b, i, to_le(9, 4), rest);
            lemma_number_written(b, i, 9, 4);
            lemma_stands_split(b, i + 4, to_le(8, 4) + to_le(v.len(), 8), strings_bytes(v));
            lemma_stands_split(b, i + 4, to_le(8, 4), to_le(v.len(), 8));
            lemma_number_written(b, i + 4, 8, 4);
            lemma_number_written(b, i + 8, v.len(), 8);
            lemma_strings_written(b, i + 16, v);
        },
        Written::Block(t, bytes) => {
            let n = width_of(t)->0;
            let count = bytes.len() / n;
            lemma_type_ids(t);
            assert(count * n == bytes.len() && count <= bytes.len()) by {
                vstd::arithmetic::div_mod::lemma_fundamental_div_mod(bytes.len() as int, n as int);
                assert(count * n == n * count) by (nonlinear_arith);
                assert(count <= bytes.len());
            }
            let rest = to_le(id_of(t), 4) + to_le(count, 8) + bytes;
            lemma_stands_split(b, i, to_le(9, 4), rest);
            lemma_number_written(b, i, 9, 4);
            lemma_stands_split(b, i + 4, to_le(id_of(t), 4) + to_le(count, 8), bytes);
            lemma_stands_split(b, i + 4, to_le(id_of(t), 4), to_le(count, 8));
            lemma_number_written(b, i + 4, id_of(t), 4);
            lemma_number_written(b, i + 8, count, 8);
            assert(n * count == bytes.len()) by (nonlinear_arith)
                requires
                    count * n == bytes.len(),
            ;
        },
    }
}

/// The entry can be written.
pub open spec fn writable_entry(e: (Seq<char>, Written)) -> bool {
    writable_text(e.0) && writable(e.1)
}

proof fn lemma_entries_written(
    b: Seq<u8>,
    i: nat,
    es: Seq<(Seq<char>, Written)>,
    before: Seq<(Seq<char>, ValueView)>,
)
    requires
        b.len() <= u64::MAX,
        stands_at(b, i, entries_bytes(es)),
        forall|k: int| 0 <= k < es.len() ==> writable_entry(#[trigger] es[k]),
    ensures
        entries_at(b, i, es.len(), false, before) == Entries::All(before + all_say(es)),
    decreases es.len(),
{
    if es.len() > 0 {
        let e = es[0];
        let rest = es.drop_first();
        assert(writable_entry(e));
        lemma_stands_split(b, i, entry_bytes(e), entries_bytes(rest));
        lemma_stands_split(b, i, string_bytes(e.0), value_bytes(e.1));
        lemma_string_written(b, i, e.0);
        let j = i + string_bytes(e.0).len();
        lemma_value_written(b, j, e.1);
        assert forall|k: int| 0 <= k < rest.len() implies writable_entry(#[trigger] rest[k]) by {
            assert(rest[k] == es[k + 1]);
        }
        let more = before.push((e.0, says(e.1)));
        lemma_entries_written(b, i + entry_bytes(e).len(), rest, more);
        assert(more + all_say(rest) =~= before + all_say(es));
    } else {
        assert(before + all_say(es) =~= before);
    }
}

/// Reading a file gives back what was written to it: the version, the number
/// of tensors, and every entry, in order, with nothing cut short. So the value
/// of a key is what was written under it last.
pub proof fn law_read_gives_back_written(version: u32, tensors: u64, es: Seq<(Seq<char>, Written)>)
    requires
        2 <= version <= 3,
        es.len() <= u64::MAX,
        file_bytes(version, tensors, es).len() <= u64::MAX,
        forall|k: int| 0 <= k < es.len() ==> writable_entry(#[trigger] es[k]),
    ensures
        header_of(file_bytes(version, tensors, es)) == Header::Complete(
            version,
            tensors,
            es.len() as u64,
            24,
        ),
        entries_of(file_bytes(version, tensors, es)) == Entries::All(all_say(es)),
        forall|key: Seq<char>| #[trigger]
            lookup(settled(all_say(es)), key) == lookup(all_say(es), key),
{
    assert forall|key: Seq<char>| #[trigger]
        lookup(settled(all_say(es)), key) == lookup(all_say(es), key) by {
        law_last_value_counts(all_say(es), key);
    }
    let b = file_bytes(version, tensors, es);
    let m = to_le(MAGIC as nat, 4);
    let v = to_le(version as nat, 4);
    let t = to_le(tensors as nat, 8);
    let c = to_le(es.len(), 8);
    let rest = entries_bytes(es);
    lemma_byte_ranges();
    lemma_to_le_len(MAGIC as nat, 4);
    lemma_to_le_len(version as nat, 4);
    lemma_to_le_len(tensors as nat, 8);
    lemma_to_le_len(es.len(), 8);
    assert(b.subrange(0, b.len() as int) =~= b);
    assert(stands_at(b, 0, m + v + t + c + rest));
    lemma_stands_split(b, 0, m + v + t + c, rest);
    lemma_stands_split(b, 0, m + v + t, c);
    lemma_stands_split(b, 0, m + v, t);
    lemma_stands_split(b, 0, m, v);
    lemma_number_written(b, 0, MAGIC as nat, 4);
    lemma_number_written(b, 4, version as nat, 4);
    lemma_number_written(b, 8, tensors as nat, 8);
    lemma_number_written(b, 16, es.len(), 8);
    lemma_entries_written(b, 24, es, Seq::empty());
    assert(Seq::<(Seq<char>, ValueView)>::empty() + all_say(es) =~= all_say(es));
}

} // verus!
