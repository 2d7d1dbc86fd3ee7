//! GGUF files: where their bytes stand, and what is read back of them.
use vstd::prelude::*;
use vstd::utf8::encode_utf8;

use crate::gguf::{
    all_say, entry_views, file_bytes, law_last_value_counts, law_read_gives_back_written, lookup,
    says, settled, string_bytes, to_le, value_bytes, writable_entry, GgufError, GgufMeta, MetaValue,
    ValueType, ValueView, Written,
};

verus! {

proof fn lemma_le_len(v: nat, n: nat)
    ensures
        to_le(v, n).len() == n,
    decreases n,
{
    if n > 0 {
        lemma_le_len(v / 256, (n - 1) as nat);
    }
}

/// The eight bytes of a number, the least significant first.
pub open spec fn eight_bytes(b: Seq<u8>, i: int, v: nat) -> bool {
    &&& i + 8 <= b.len()
    &&& b[i] == v % 256
    &&& b[i + 1] == v / 0x100 % 256
    &&& b[i + 2] == v / 0x1_0000 % 256
    &&& b[i + 3] == v / 0x100_0000 % 256
    &&& b[i + 4] == v / 0x1_0000_0000 % 256
    &&& b[i + 5] == v / 0x100_0000_0000 % 256
    &&& b[i + 6] == v / 0x1_0000_0000_0000 % 256
    &&& b[i + 7] == v / 0x100_0000_0000_0000 % 256
}

/// The four bytes of a number, the least significant first.
pub open spec fn four_bytes(b: Seq<u8>, i: int, v: nat) -> bool {
    &&& i + 4 <= b.len()
    &&& b[i] == v % 256
    &&& b[i + 1] == v / 0x100 % 256
    &&& b[i + 2] == v / 0x1_0000 % 256
    &&& b[i + 3] == v / 0x100_0000 % 256
}

proof fn lemma_four(v: nat)
    ensures
        four_bytes(to_le(v, 4), 0, v),
        to_le(v, 4).len() == 4,
{
    lemma_le_len(v, 4);
    reveal_with_fuel(to_le, 5);
}

proof fn lemma_eight(v: nat)
    ensures
        eight_bytes(to_le(v, 8), 0, v),
        to_le(v, 8).len() == 8,
{
    lemma_le_len(v, 8);
    reveal_with_fuel(to_le, 9);
}

/// A file begins with the letters GGUF, its version, and the numbers of its
/// tensors and entries.
pub proof fn law_file_begins(version: u32, tensors: u64, es: Seq<(Seq<char>, Written)>)
    requires
        es.len() <= u64::MAX,
    ensures
        file_bytes(version, tensors, es).len() >= 24,
        file_bytes(version, tensors, es)[0] == 0x47,
        file_bytes(version, tensors, es)[1] == 0x47,
        file_bytes(version, tensors, es)[2] == 0x55,
        file_bytes(version, tensors, es)[3] == 0x46,
        four_bytes(file_bytes(version, tensors, es), 4, version as nat),
        eight_bytes(file_bytes(version, tensors, es), 8, tensors as nat),
        eight_bytes(file_bytes(version, tensors, es), 16, es.len()),
{
    lemma_four(0x4655_4747);
    lemma_four(version as nat);
    lemma_eight(tensors as nat);
    lemma_eight(es.len());
}

/// A string is its length in bytes, then its bytes.
pub proof fn law_string_bytes(s: Seq<char>)
    ensures
        eight_bytes(string_bytes(s), 0, encode_utf8(s).len()),
        string_bytes(s).len() == 8 + encode_utf8(s).len(),
        string_bytes(s).skip(8) == encode_utf8(s),
{
    lemma_eight(encode_utf8(s).len());
    assert(string_bytes(s).skip(8) =~= encode_utf8(s));
}

/// A value is the number of its type in four bytes, then the value itself.
pub proof fn law_value_bytes(v: nat, s: Seq<char>)
    ensures
        four_bytes(value_bytes(Written::Scalar(ValueType::U8, v)), 0, 0),
        four_bytes(value_bytes(Written::Scalar(ValueType::I8, v)), 0, 1),
        four_bytes(value_bytes(Written::Scalar(ValueType::U16, v)), 0, 2),
        four_bytes(value_bytes(Written::Scalar(ValueType::I16, v)), 0, 3),
        four_bytes(value_bytes(Written::Scalar(ValueType::U32, v)), 0, 4),
        four_bytes(value_bytes(Written::Scalar(ValueType::I32, v)), 0, 5),
        four_bytes(value_bytes(Written::Scalar(ValueType::F32, v)), 0, 6),
        four_bytes(value_bytes(Written::Scalar(ValueType::Bool, v)), 0, 7),
        four_bytes(value_bytes(Written::Text(s)), 0, 8),
        four_bytes(value_bytes(Written::Scalar(ValueType::U64, v)), 0, 10),
        four_bytes(value_bytes(Written::Scalar(ValueType::I64, v)), 0, 11),
        four_bytes(value_bytes(Written::Scalar(ValueType::F64, v)), 0, 12),
        value_bytes(Written::Scalar(ValueType::U8, v)).len() == 5,
        value_bytes(Written::Scalar(ValueType::U16, v)).len() == 6,
        four_bytes(value_bytes(Written::Scalar(ValueType::U32, v)), 4, v),
        four_bytes(value_bytes(Written::Scalar(ValueType::I32, v)), 4, v),
        four_bytes(value_bytes(Written::Scalar(ValueType::F32, v)), 4, v),
        eight_bytes(value_bytes(Written::Scalar(ValueType::U64, v)), 4, v),
        eight_bytes(value_bytes(Written::Scalar(ValueType::I64, v)), 4, v),
        eight_bytes(value_bytes(Written::Scalar(ValueType::F64, v)), 4, v),
        value_bytes(Written::Text(s)).skip(4) == string_bytes(s),
{
    lemma_four(0);
    lemma_four(1);
    lemma_four(2);
    lemma_four(3);
    lemma_four(4);
    lemma_four(5);
    lemma_four(6);
    lemma_four(7);
    lemma_four(8);
    lemma_four(10);
    lemma_four(11);
    lemma_four(12);
    lemma_four(v);
    lemma_eight(v);
    lemma_le_len(v, 1);
    lemma_le_len(v, 2);
    assert(value_bytes(Written::Text(s)).skip(4) =~= string_bytes(s));
}

proof fn lemma_last_one(kv: Seq<(Seq<char>, ValueView)>, k: int)
    requires
        0 <= k < kv.len(),
        forall|j: int| k < j < kv.len() ==> (#[trigger] kv[j]).0 != kv[k].0,
    ensures
        lookup(kv, kv[k].0) == Some(kv[k].1),
    decreases kv.len(),
{
    if k < kv.len() - 1 {
        let short = kv.drop_last();
        assert(kv.last() == kv[kv.len() - 1]);
        assert forall|j: int| k < j < short.len() implies (#[trigger] short[j]).0 != short[k].0 by {
            assert(short[j] == kv[j]);
        }
        lemma_last_one(short, k);
    }
}

/// What is read of a file is what was written to it: the version, the number of
/// tensors, nothing cut short, and under each key what was written last. An
/// unsigned number is read as itself, a signed one with its sign, a truth value
/// as true where it is not zero, a float as its bits, a text as the text, an
/// array by its element type and length.
pub proof fn law_written_is_read(
    version: u32,
    tensors: u64,
    es: Seq<(Seq<char>, Written)>,
    bytes: &[u8],
    size: u64,
    r: Result<GgufMeta, GgufError>,
    k: int,
)
    requires
        2 <= version <= 3,
        es.len() <= u64::MAX,
        forall|i: int| 0 <= i < es.len() ==> writable_entry(#[trigger] es[i]),
        bytes@ == file_bytes(version, tensors, es),
        bytes@.len() <= u64::MAX,
        call_ensures(GgufMeta::from_reader, (bytes, size), r),
        0 <= k < es.len(),
        forall|j: int| k < j < es.len() ==> (#[trigger] es[j]).0 != es[k].0,
    ensures
        r is Ok,
        r->Ok_0.version == version,
        r->Ok_0.tensor_count == tensors,
        r->Ok_0.file_size == size,
        !r->Ok_0.truncated,
        match es[k].1 {
            Written::Scalar(ValueType::U64, v) => v < 0x8000_0000_0000_0000 ==> lookup(
                r->Ok_0.entries(),
                es[k].0,
            ) == Some(ValueView::Int(v as i64)),
            Written::Scalar(ValueType::I64, v) => lookup(r->Ok_0.entries(), es[k].0) == Some(
                ValueView::Int(
                    (if v < 0x8000_0000_0000_0000 {
                        v as int
                    } else {
                        v - 0x1_0000_0000_0000_0000
                    }) as i64,
                ),
            ),
            Written::Scalar(ValueType::U8, v) => lookup(r->Ok_0.entries(), es[k].0) == Some(
                ValueView::Int(v as i64),
            ),
            Written::Scalar(ValueType::U16, v) => lookup(r->Ok_0.entries(), es[k].0) == Some(
                ValueView::Int(v as i64),
            ),
            Written::Scalar(ValueType::U32, v) => lookup(r->Ok_0.entries(), es[k].0) == Some(
                ValueView::Int(v as i64),
            ),
            Written::Scalar(ValueType::I8, v) => lookup(r->Ok_0.entries(), es[k].0) == Some(
                ValueView::Int(
                    (if v < 0x80 {
                        v as int
                    } else {
                        v - 0x100
                    }) as i64,
                ),
            ),
            Written::Scalar(ValueType::I16, v) => lookup(r->Ok_0.entries(), es[k].0) == Some(
                ValueView::Int(
                    (if v < 0x8000 {
                        v as int
                    } else {
                        v - 0x1_0000
                    }) as i64,
                ),
            ),
            Written::Scalar(ValueType::I32, v) => lookup(r->Ok_0.entries(), es[k].0) == Some(
                ValueView::Int(
                    (if v < 0x8000_0000 {
                        v as int
                    } else {
                        v - 0x1_0000_0000
                    }) as i64,
                ),
            ),
            Written::Scalar(ValueType::Bool, v) => lookup(r->Ok_0.entries(), es[k].0) == Some(
                ValueView::Bool(v != 0),
            ),
            Written::Scalar(ValueType::F32, v) => lookup(r->Ok_0.entries(), es[k].0) == Some(
                ValueView::Float32(v as u32),
            ),
            Written::Scalar(ValueType::F64, v) => lookup(r->Ok_0.entries(), es[k].0) == Some(
                ValueView::Float64(v as u64),
            ),
            Written::Text(s) => lookup(r->Ok_0.entries(), es[k].0) == Some(ValueView::Str(s)),
            Written::Texts(v) => lookup(r->Ok_0.entries(), es[k].0) == Some(
                ValueView::Array(ValueType::String, v.len() as u64),
            ),
            _ => true,
        },
{
    law_read_gives_back_written(version, tensors, es);
    let kv = all_say(es);
    assert(kv[k] == (es[k].0, says(es[k].1)));
    assert forall|j: int| k < j < kv.len() implies (#[trigger] kv[j]).0 != kv[k].0 by {
        assert(es[j].0 != es[k].0);
    }
    lemma_last_one(kv, k);
    law_last_value_counts(kv, es[k].0);
    assert(r->Ok_0.entries() == settled(kv));
    assert(writable_entry(es[k]));
    lemma_ranges();
}

proof fn lemma_ranges()
    ensures
        crate::gguf::byte_range(1) == 0x100,
        crate::gguf::byte_range(2) == 0x1_0000,
        crate::gguf::byte_range(4) == 0x1_0000_0000,
        crate::gguf::byte_range(8) == 0x1_0000_0000_0000_0000,
{
    reveal_with_fuel(crate::gguf::byte_range, 9);
}

/// Bytes that do not begin with the letters GGUF are refused, with the number
/// that they make; so is a version other than one, two or three; so is a
/// beginning that is too short to tell.
pub proof fn law_bad_headers_are_refused(bytes: &[u8], size: u64, r: Result<GgufMeta, GgufError>)
    requires
        call_ensures(GgufMeta::from_reader, (bytes, size), r),
    ensures
        bytes@.len() < 4 ==> r is Err && r->Err_0 is Truncated,
        bytes@.len() >= 4 && !(bytes@[0] == 0x47 && bytes@[1] == 0x47 && bytes@[2] == 0x55
            && bytes@[3] == 0x46) ==> r is Err && r->Err_0 is BadMagic,
        bytes@.len() >= 8 && bytes@[0] == 0x47 && bytes@[1] == 0x47 && bytes@[2] == 0x55
            && bytes@[3] == 0x46 && (bytes@[4] == 0 || bytes@[4] > 3 || bytes@[5] > 0 || bytes@[6]
            > 0 || bytes@[7] > 0) ==> r is Err && r->Err_0 is BadVersion,
        r is Ok ==> bytes@.len() >= 16 && bytes@[0] == 0x47 && bytes@[1] == 0x47 && bytes@[2]
            == 0x55 && bytes@[3] == 0x46 && 1 <= bytes@[4] <= 3,
        r is Ok ==> r->Ok_0.version == bytes@[4] && r->Ok_0.file_size == size,
{
    let b = bytes@;
    reveal_with_fuel(crate::gguf::le, 9);
    if b.len() >= 4 {
        let m = crate::gguf::le(b, 0, 4);
        assert(m == b[0] as nat + 256 * (b[1] as nat + 256 * (b[2] as nat + 256 * (b[3] as nat))));
        assert(m == 0x4655_4747 <==> (b[0] == 0x47 && b[1] == 0x47 && b[2] == 0x55 && b[3]
            == 0x46));
    }
    if b.len() >= 8 {
        let v = crate::gguf::le(b, 4, 4);
        assert(v == b[4] as nat + 256 * (b[5] as nat + 256 * (b[6] as nat + 256 * (b[7] as nat))));
    }
}

/// What stands under a key.
pub open spec fn under(meta: &GgufMeta, key: Seq<char>) -> Option<ValueView> {
    lookup(meta.entries(), key)
}

/// What the metadata says of the model: texts and numbers under their keys,
/// those of the architecture under its name.
pub proof fn law_metadata_is_under_its_keys(
    meta: &GgufMeta,
    path: &str,
    m: crate::model::ModelMeta,
    a: Seq<char>,
)
    requires
        call_ensures(GgufMeta::to_meta, (meta, path), m),
        under(meta, "general.architecture"@) == Some(ValueView::Str(a)),
    ensures
        m.path@ == path@,
        m.format == crate::model::ModelFormat::Gguf,
        m.weight_size == meta.file_size,
        m.footprint == meta.file_size,
        m.arch is Some && m.arch->0@ == a,
        under(meta, "general.name"@) is Some && under(meta, "general.name"@)->0 is Str ==> m.name@
            == under(meta, "general.name"@)->0->Str_0,
        under(meta, "general.name"@) is None ==> m.name@ == "unknown"@,
        under(meta, "general.basename"@) is Some && under(meta, "general.basename"@)->0 is Str
            ==> m.basename is Some && m.basename->0@ == under(meta, "general.basename"@)->0->Str_0,
        under(meta, "general.basename"@) is None ==> m.basename is None,
        under(meta, "general.file_type"@) is None ==> m.quant is None,
        under(meta, "tokenizer.ggml.tokens"@) is Some && under(
            meta,
            "tokenizer.ggml.tokens"@,
        )->0 is Array ==> m.vocab == Some(under(meta, "tokenizer.ggml.tokens"@)->0->Array_1),
        under(meta, "tokenizer.ggml.tokens"@) is None ==> m.vocab is None,
        under(meta, "general.parameter_count"@) is Some && under(meta, "general.parameter_count"@)->0 is Int && under(meta, "general.parameter_count"@)->0->Int_0 >= 0
            ==> m.params == Some(under(meta, "general.parameter_count"@)->0->Int_0 as u64),
        under(meta, "general.parameter_count"@) is None ==> m.params is None,
        under(meta, a + ".block_count"@) is Some && under(meta, a + ".block_count"@)->0 is Int && under(meta, a + ".block_count"@)->0->Int_0 >= 0
            ==> m.n_layers == Some(under(meta, a + ".block_count"@)->0->Int_0 as u64),
        under(meta, a + ".block_count"@) is None ==> m.n_layers is None,
        under(meta, a + ".embedding_length"@) is Some && under(meta, a + ".embedding_length"@)->0 is Int && under(meta, a + ".embedding_length"@)->0->Int_0 >= 0
            ==> m.n_embd == Some(under(meta, a + ".embedding_length"@)->0->Int_0 as u64),
        under(meta, a + ".embedding_length"@) is None ==> m.n_embd is None,
        under(meta, a + ".context_length"@) is Some && under(meta, a + ".context_length"@)->0 is Int && under(meta, a + ".context_length"@)->0->Int_0 >= 0
            ==> m.ctx_train == Some(under(meta, a + ".context_length"@)->0->Int_0 as u64),
        under(meta, a + ".context_length"@) is None ==> m.ctx_train is None,
        under(meta, a + ".attention.head_count"@) is Some && under(meta, a + ".attention.head_count"@)->0 is Int && under(meta, a + ".attention.head_count"@)->0->Int_0 >= 0
            ==> m.n_head == Some(under(meta, a + ".attention.head_count"@)->0->Int_0 as u64),
        under(meta, a + ".attention.head_count"@) is None ==> m.n_head is None,
        under(meta, a + ".attention.head_count_kv"@) is Some && under(meta, a + ".attention.head_count_kv"@)->0 is Int && under(meta, a + ".attention.head_count_kv"@)->0->Int_0 >= 0
            ==> m.n_head_kv == Some(under(meta, a + ".attention.head_count_kv"@)->0->Int_0 as u64),
        under(meta, a + ".attention.head_count_kv"@) is None ==> m.n_head_kv is None,
{
}

/// Without an architecture nothing is known that stands under its name.
pub proof fn law_no_architecture_no_shape(
    meta: &GgufMeta,
    path: &str,
    m: crate::model::ModelMeta,
)
    requires
        call_ensures(GgufMeta::to_meta, (meta, path), m),
        under(meta, "general.architecture"@) is None,
    ensures
        m.arch is None,
        m.n_layers is None,
        m.n_embd is None,
        m.ctx_train is None,
        m.n_head is None,
        m.n_head_kv is None,
{
}

/// The names of the quantisation codes.
pub proof fn law_quant_names(code: u32, name: String)
    requires
        call_ensures(crate::gguf::file_type_name, (code,), name),
    ensures
        code == 0 ==> name@ == "F32"@,
        code == 1 ==> name@ == "F16"@,
        code == 2 ==> name@ == "Q4_0"@,
        code == 3 ==> name@ == "Q4_1"@,
        code == 7 ==> name@ == "Q8_0"@,
        code == 8 ==> name@ == "Q5_0"@,
        code == 9 ==> name@ == "Q5_1"@,
        code == 10 ==> name@ == "Q2_K"@,
        code == 11 ==> name@ == "Q3_K_S"@,
        code == 12 ==> name@ == "Q3_K_M"@,
        code == 13 ==> name@ == "Q3_K_L"@,
        code == 14 ==> name@ == "Q4_K_S"@,
        code == 15 ==> name@ == "Q4_K_M"@,
        code == 16 ==> name@ == "Q5_K_S"@,
        code == 17 ==> name@ == "Q5_K_M"@,
        code == 18 ==> name@ == "Q6_K"@,
        code == 19 ==> name@ == "IQ2_XXS"@,
        code == 20 ==> name@ == "IQ2_XS"@,
        code == 21 ==> name@ == "Q2_K_S"@,
        code == 22 ==> name@ == "IQ3_XS"@,
        code == 23 ==> name@ == "IQ3_XXS"@,
        code == 24 ==> name@ == "IQ1_S"@,
        code == 25 ==> name@ == "IQ4_NL"@,
        code == 26 ==> name@ == "IQ3_S"@,
        code == 27 ==> name@ == "IQ3_M"@,
        code == 28 ==> name@ == "IQ2_S"@,
        code == 29 ==> name@ == "IQ2_M"@,
        code == 30 ==> name@ == "IQ4_XS"@,
        code == 31 ==> name@ == "IQ1_M"@,
        code == 32 ==> name@ == "BF16"@,
        code == 36 ==> name@ == "TQ1_0"@,
        code == 37 ==> name@ == "TQ2_0"@,
        code == 38 ==> name@ == "MXFP4"@,
        (code == 4 || code == 5 || code == 6 || (33 <= code <= 35) || code > 38) ==> name@
            == "unknown("@ + crate::text::decimal(code as nat) + ")"@,
{
}

/// The value of a key is the last that was given to it.
pub proof fn law_lookup_is_the_last(meta: &GgufMeta, key: &str, g: Option<&MetaValue>)
    requires
        call_ensures(GgufMeta::get, (meta, key), g),
    ensures
        g is None <==> forall|i: int| 0 <= i < meta.kv@.len() ==> (#[trigger] meta.kv@[i]).0@ != key@,
        forall|i: int|
            #![trigger meta.kv@[i]]
            0 <= i < meta.kv@.len() && meta.kv@[i].0@ == key@ && (forall|j: int|
                i < j < meta.kv@.len() ==> (#[trigger] meta.kv@[j]).0@ != key@) ==> g is Some
                && g->0@ == meta.kv@[i].1@,
{
    let kv = entry_views(meta.kv@);
    lemma_absent(kv, key@);
    assert forall|i: int|
        #![trigger meta.kv@[i]]
        0 <= i < meta.kv@.len() && meta.kv@[i].0@ == key@ && (forall|j: int|
            i < j < meta.kv@.len() ==> (#[trigger] meta.kv@[j]).0@ != key@) implies g is Some
        && g->0@ == meta.kv@[i].1@ by {
        assert forall|j: int| i < j < kv.len() implies (#[trigger] kv[j]).0 != kv[i].0 by {
            assert(meta.kv@[j].0@ != key@);
        }
        lemma_last_one(kv, i);
    }
    if g is None {
        assert forall|i: int| 0 <= i < meta.kv@.len() implies (#[trigger] meta.kv@[i]).0@ != key@ by {
            assert(kv[i].0 != key@);
        }
    }
    if forall|i: int| 0 <= i < meta.kv@.len() ==> (#[trigger] meta.kv@[i]).0@ != key@ {
        assert forall|i: int| 0 <= i < kv.len() implies (#[trigger] kv[i]).0 != key@ by {
            assert(meta.kv@[i].0@ != key@);
        }
    }
}

proof fn lemma_absent(kv: Seq<(Seq<char>, ValueView)>, key: Seq<char>)
    ensures
        lookup(kv, key) is None <==> forall|i: int| 0 <= i < kv.len() ==> (#[trigger] kv[i]).0 != key,
    decreases kv.len(),
{
    if kv.len() > 0 {
        let short = kv.drop_last();
        lemma_absent(short, key);
        if lookup(kv, key) is None {
            assert forall|i: int| 0 <= i < kv.len() implies (#[trigger] kv[i]).0 != key by {
                if i < short.len() {
                    assert(short[i] == kv[i]);
                }
            }
        }
        if forall|i: int| 0 <= i < kv.len() ==> (#[trigger] kv[i]).0 != key {
            assert(kv[kv.len() - 1].0 != key);
            assert forall|i: int| 0 <= i < short.len() implies (#[trigger] short[i]).0 != key by {
                assert(short[i] == kv[i]);
            }
        }
    }
}

} // verus!
