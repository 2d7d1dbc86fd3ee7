//! The machine, the models that are directories, and the swap's report.
use vstd::prelude::*;

use crate::engines::swap::{SwapPair, SwapReport};
use crate::engines::swap_ops::SwapCall;
use crate::hardware::{
    capture, cpu_model, gpu_name, hexadecimal, line_from, os_line, poly_hash, ram_total_mb,
    vram_reported, with_content_hash, HardwareProfile, Lookup, Reports,
};
use crate::json::JsonView;
use crate::model::{ModelFormat, ModelMeta};
use crate::paths::name_extension;
use crate::safetensors::{
    bytes_upto, is_model_dir, is_weights, weights_upto, DirFile, SafetensorsModel,
};
use crate::text::{decimal, has_prefix, lines, opt_text, parse_number, split, texts, trim, words};

verus! {

/// Line `i` is the first that begins with a key.
pub open spec fn first_beginning(ls: Seq<Seq<char>>, key: Seq<char>, i: int) -> bool {
    &&& 0 <= i < ls.len()
    &&& has_prefix(ls[i], key)
    &&& forall|j: int| 0 <= j < i ==> !has_prefix(#[trigger] ls[j], key)
}

proof fn lemma_beginning(ls: Seq<Seq<char>>, key: Seq<char>, k: int, i: int)
    requires
        0 <= k <= i,
        first_beginning(ls, key, i),
    ensures
        line_from(ls, Lookup::Begins, key, k) == Some(ls[i]),
    decreases i - k,
{
    if k < i {
        assert(!has_prefix(ls[k], key));
        lemma_beginning(ls, key, k + 1, i);
    }
}

proof fn lemma_no_beginning(ls: Seq<Seq<char>>, key: Seq<char>, k: int)
    requires
        0 <= k,
        forall|j: int| 0 <= j < ls.len() ==> !has_prefix(#[trigger] ls[j], key),
    ensures
        line_from(ls, Lookup::Begins, key, k) is None,
    decreases ls.len() - k,
{
    if k < ls.len() {
        assert(!has_prefix(ls[k], key));
        lemma_no_beginning(ls, key, k + 1);
    }
}

/// The memory in MiB is the number of kibibytes on the line of the total, over
/// 1024, rounded down; without such a line nothing.
pub proof fn law_memory(meminfo: &str, r: u64, i: int, kb: nat)
    requires
        call_ensures(ram_total_mb, (meminfo,), r),
    ensures
        first_beginning(lines(meminfo@), "MemTotal"@, i) && words(lines(meminfo@)[i]).len() > 1
            && parse_number(words(lines(meminfo@)[i])[1], 0xffff_ffff_ffff_ffff) == Some(kb)
            && kb <= u64::MAX ==> r * 1024 <= kb < (r + 1) * 1024,
        (forall|j: int|
            0 <= j < lines(meminfo@).len() ==> !has_prefix(
                #[trigger] lines(meminfo@)[j],
                "MemTotal"@,
            )) ==> r == 0,
{
    let ls = lines(meminfo@);
    if first_beginning(ls, "MemTotal"@, i) {
        lemma_beginning(ls, "MemTotal"@, 0, i);
    }
    if forall|j: int| 0 <= j < ls.len() ==> !has_prefix(#[trigger] ls[j], "MemTotal"@) {
        lemma_no_beginning(ls, "MemTotal"@, 0);
    }
}

/// The processor is what stands behind the colon on the first line of its
/// name.
pub proof fn law_processor(cpuinfo: &str, r: Option<String>, i: int)
    requires
        call_ensures(cpu_model, (cpuinfo,), r),
    ensures
        first_beginning(lines(cpuinfo@), "model name"@, i) && split(
            lines(cpuinfo@)[i],
            ':',
        ).len() > 1 ==> opt_text(r) == Some(trim(split(lines(cpuinfo@)[i], ':')[1])),
        (forall|j: int|
            0 <= j < lines(cpuinfo@).len() ==> !has_prefix(
                #[trigger] lines(cpuinfo@)[j],
                "model name"@,
            )) ==> r is None,
{
    let ls = lines(cpuinfo@);
    if first_beginning(ls, "model name"@, i) {
        lemma_beginning(ls, "model name"@, 0, i);
    }
    if forall|j: int| 0 <= j < ls.len() ==> !has_prefix(#[trigger] ls[j], "model name"@) {
        lemma_no_beginning(ls, "model name"@, 0);
    }
}

/// The system is the first line of its name; the graphics memory the number
/// that is reported; the graphics processor the first line.
pub proof fn law_system_and_graphics(
    os: &str,
    o: Option<String>,
    vram: &str,
    v: u64,
    gpu: &str,
    g: String,
    i: int,
)
    requires
        call_ensures(os_line, (os,), o),
        call_ensures(vram_reported, (vram,), v),
        call_ensures(gpu_name, (gpu,), g),
    ensures
        first_beginning(lines(os@), "PRETTY_NAME"@, i) ==> opt_text(o) == Some(lines(os@)[i]),
        (match parse_number(trim(vram@), 0xffff_ffff_ffff_ffff) {
            Some(n) => n <= u64::MAX ==> v == n,
            None => v == 0,
        }),
        lines(trim(gpu@)).len() > 0 ==> g@ == lines(trim(gpu@))[0],
        lines(trim(gpu@)).len() == 0 ==> g@ == "unknown"@,
{
    if first_beginning(lines(os@), "PRETTY_NAME"@, i) {
        lemma_beginning(lines(os@), "PRETTY_NAME"@, 0, i);
    }
}

/// A machine is known by its parts and not by the time: a hash over them,
/// which adds each byte to 31 times what came before, in hexadecimal.
pub proof fn law_hash_of_a_machine(p: HardwareProfile, r: HardwareProfile)
    requires
        call_ensures(with_content_hash, (p,), r),
    ensures
        r.content_hash@ == hexadecimal(
            byte_hash(
                vstd::utf8::encode_utf8(
                    p.gpu@ + "|"@ + decimal(p.vram_mb as nat) + "|"@ + p.cpu@ + "|"@ + decimal(
                        p.ram_mb as nat,
                    ) + "|"@ + p.os@ + "|"@ + p.driver@ + "|"@ + p.cuda@ + "|"@ + p.engines_json@,
                ),
            ),
        ),
{
    lemma_hash(
        vstd::utf8::encode_utf8(
            p.gpu@ + "|"@ + decimal(p.vram_mb as nat) + "|"@ + p.cpu@ + "|"@ + decimal(
                p.ram_mb as nat,
            ) + "|"@ + p.os@ + "|"@ + p.driver@ + "|"@ + p.cuda@ + "|"@ + p.engines_json@,
        ),
    );
}

/// A polynomial in 31 over bytes, in 64 bits.
pub open spec fn byte_hash(bytes: Seq<u8>) -> nat
    decreases bytes.len(),
{
    if bytes.len() == 0 {
        0
    } else {
        ((31 * byte_hash(bytes.drop_last()) + bytes.last()) % 0x1_0000_0000_0000_0000) as nat
    }
}

proof fn lemma_hash(bytes: Seq<u8>)
    ensures
        byte_hash(bytes) == poly_hash(bytes),
    decreases bytes.len(),
{
    if bytes.len() > 0 {
        lemma_hash(bytes.drop_last());
    }
}

/// A capture holds what the reports say.
pub proof fn law_capture(
    r: &Reports,
    version: &str,
    now: i64,
    p: HardwareProfile,
    gpu: String,
    vram: u64,
    ram: u64,
    cpu: Option<String>,
    meminfo: &str,
    cpuinfo: &str,
    gpus: &str,
    vrams: &str,
)
    requires
        call_ensures(capture, (r, version, now), p),
        gpus@ == r.gpu@,
        vrams@ == r.vram@,
        r.meminfo is Some ==> meminfo@ == (r.meminfo->0)@,
        r.cpuinfo is Some ==> cpuinfo@ == (r.cpuinfo->0)@,
        call_ensures(gpu_name, (gpus,), gpu),
        call_ensures(vram_reported, (vrams,), vram),
        call_ensures(ram_total_mb, (meminfo,), ram),
        call_ensures(cpu_model, (cpuinfo,), cpu),
    ensures
        p.gpu@ == gpu@,
        p.vram_mb == vram,
        r.meminfo is Some ==> p.ram_mb == ram,
        r.meminfo is None ==> p.ram_mb == 0,
        r.cpuinfo is Some && cpu is Some ==> p.cpu@ == (cpu->0)@,
        r.cpuinfo is None || cpu is None ==> p.cpu@ == trim(r.processor@),
        p.cyberdeck_ver@ == version@,
        p.captured_at == now,
        p.driver@ == trim(r.driver@),
{
}

/// The bytes of the first `n` files, of the weights alone or of all.
pub open spec fn sum_of_files(files: Seq<DirFile>, weights_only: bool, n: int) -> int
    decreases n,
{
    if n <= 0 {
        0
    } else if weights_only && !is_weights(files[n - 1].0@) {
        sum_of_files(files, weights_only, n - 1)
    } else {
        sum_of_files(files, weights_only, n - 1) + files[n - 1].1
    }
}

proof fn lemma_files(files: Seq<DirFile>, n: int)
    requires
        0 <= n <= files.len(),
    ensures
        sum_of_files(files, true, n) == weights_upto(files, n),
        sum_of_files(files, false, n) == bytes_upto(files, n),
        weights_upto(files, n) <= bytes_upto(files, n),
    decreases n,
{
    if n > 0 {
        lemma_files(files, n - 1);
    }
}

/// A file of weights goes by its extension.
pub proof fn law_weights_by_extension(name: &str, ext: Option<String>)
    requires
        call_ensures(name_extension, (name,), ext),
    ensures
        is_weights(name@) <==> ext is Some && (ext->0)@ == "safetensors"@,
{
}

/// The number under a name of a document, as an integer.
pub open spec fn whole_at(j: JsonView, key: Seq<char>) -> Option<u64> {
    match j.get(key) {
        Some(v) => v.unsigned(),
        None => None,
    }
}

/// A model directory weighs what its index states, else its files of weights;
/// its footprint is all files, but no less than the weights. Its shape is in
/// its document.
pub proof fn law_model_directory(
    model: SafetensorsModel,
    files: &Vec<DirFile>,
    m: ModelMeta,
    stated: u64,
)
    requires
        call_ensures(SafetensorsModel::into_meta, (model, files), m),
        bytes_upto(files@, files@.len() as int) <= u64::MAX,
    ensures
        m.path@ == model.dir@,
        m.format == ModelFormat::SafetensorsDir,
        model.index is None ==> m.weight_size == sum_of_files(files@, true, files@.len() as int)
            && m.footprint == sum_of_files(files@, false, files@.len() as int),
        (model.index matches Some(i) && (i@.get("metadata"@) matches Some(d) && whole_at(
            d,
            "total_size"@,
        ) == Some(stated))) ==> m.weight_size == stated,
        m.footprint >= m.weight_size,
        m.footprint >= sum_of_files(files@, false, files@.len() as int),
        m.footprint == m.weight_size || m.footprint == sum_of_files(
            files@,
            false,
            files@.len() as int,
        ),
        whole_at(model.config@, "num_hidden_layers"@) is Some ==> m.n_layers == whole_at(
            model.config@,
            "num_hidden_layers"@,
        ),
        whole_at(model.config@, "hidden_size"@) is Some ==> m.n_embd == whole_at(
            model.config@,
            "hidden_size"@,
        ),
        whole_at(model.config@, "vocab_size"@) is Some ==> m.vocab == whole_at(
            model.config@,
            "vocab_size"@,
        ),
        whole_at(model.config@, "max_position_embeddings"@) is Some ==> m.ctx_train == whole_at(
            model.config@,
            "max_position_embeddings"@,
        ),
        m.n_head is None,
        m.n_head_kv is None,
        m.params is None,
{
    lemma_files(files@, files@.len() as int);
}

/// The architecture is the first that the document lists, else its type.
pub proof fn law_architecture_of_a_directory(
    model: SafetensorsModel,
    files: &Vec<DirFile>,
    m: ModelMeta,
    list: Seq<JsonView>,
)
    requires
        call_ensures(SafetensorsModel::into_meta, (model, files), m),
    ensures
        model.config@.get("architectures"@) == Some(JsonView::Array(list)) && list.len() > 0
            && list[0] is Str ==> opt_text(m.arch) == Some(list[0]->Str_0),
        model.config@.get("architectures"@) is None && (model.config@.get("model_type"@) matches Some(
            t,
        ) && t is Str) ==> opt_text(m.arch) == Some((model.config@.get("model_type"@)->0)->Str_0),
{
}

/// A directory is a model where it has its document, and an index or a file of
/// weights.
pub proof fn law_what_is_a_model_directory(
    config: bool,
    index: bool,
    names: &Vec<String>,
    r: bool,
    i: int,
)
    requires
        call_ensures(is_model_dir, (config, index, names), r),
    ensures
        !config ==> !r,
        config && index ==> r,
        config && 0 <= i < names@.len() && is_weights(names@[i]@) ==> r,
        !index && (forall|k: int| 0 <= k < names@.len() ==> !is_weights((#[trigger] names@[k])@))
            ==> !r,
{
    let all = texts(names@);
    if config && 0 <= i < names@.len() && is_weights(names@[i]@) {
        assert(is_weights(all[i]));
    }
    if !index && (forall|k: int| 0 <= k < names@.len() ==> !is_weights((#[trigger] names@[k])@)) && r {
        let k = choose|k: int| 0 <= k < all.len() && is_weights(#[trigger] all[k]);
        assert(all[k] == names@[k]@);
    }
}

/// A swap tells how it ended, and gives the candidate three minutes to be
/// verified and one to serve.
pub proof fn law_swap_tells(
    pair: SwapPair,
    verify: bool,
    calls: Seq<SwapCall>,
    r: SwapReport,
    k: int,
)
    requires
        pair.swapped_by(verify, calls, r),
    ensures
        r.swapped ==> r.summary@ == "swapped "@ + pair.from_runtime + " → "@ + pair.to_runtime
            + " at ctx "@ + decimal(r.ctx as nat),
        r.from_runtime@ == pair.from_runtime,
        r.to_runtime@ == pair.to_runtime,
        r.from_unit@ == pair.from_unit,
        r.to_unit@ == pair.to_unit,
        0 <= k < calls.len() && calls[k] is Verify ==> calls[k]->Verify_timeout_s == 180,
        0 <= k < calls.len() && calls[k] is Health ==> calls[k]->Health_timeout_s == 60 && calls[k]->host
            == pair.new.host@ && calls[k]->port == pair.new.port,
{
    if 0 <= k < calls.len() {
        assert(pair.due(verify, calls, k));
    }
}

} // verus!
