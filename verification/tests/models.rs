use cyberdeck::dedup::{extra_copies, find_duplicates};
use cyberdeck::fit::{estimate, FitRequest, Verdict};
use cyberdeck::fitplan::{candidates_for, max_ctx_for, plan_for_runtime, recommend};
use cyberdeck::gguf::{GgufError, GgufMeta, MetaValue, ValueType};
use cyberdeck::library::{
    classify, diff_fields, display_name_for, explain_fit, group_identities, DiskFact, Lifecycle,
};
use cyberdeck::model::{version_token, ModelFormat, ModelMeta};
use cyberdeck::profile::Profile;
use cyberdeck::runtime_registry::builtin_manifests;
use cyberdeck::safetensors::{is_model_dir, open_dir, search_value, SafetensorsModel};
use cyberdeck::scanner::{
    classify as classify_entry, dedup_and_sort, default_roots, keep, Candidate, EntryKind,
};
use cyberdeck::storage::{reconcile_registered_vs_found, removal_plan};
use cyberdeck::store::index::{
    dedup_delete, from_stored, model_of_row, prune, row_of_model, to_stored,
};

fn model(path: &str, name: &str, arch: &str, bytes: u64) -> ModelMeta {
    ModelMeta {
        path: path.to_string(),
        format: ModelFormat::Gguf,
        name: name.to_string(),
        basename: None,
        arch: Some(arch.to_string()),
        quant: Some("Q4_0".to_string()),
        params: None,
        n_layers: None,
        n_embd: None,
        n_head: None,
        n_head_kv: None,
        ctx_train: None,
        vocab: None,
        weight_size: bytes,
        footprint: bytes,
    }
}

fn fake(identity: &str, footprint: u64) -> ModelMeta {
    model(&format!("/x/{identity}/{footprint}"), identity, identity, footprint)
}

#[test]
fn equal_copies_report_full_reclaim() {
    let models = vec![fake("dup", 100), fake("dup", 100)];
    let groups = find_duplicates(&models);
    assert_eq!(groups.len(), 1);
    assert_eq!(groups[0].wasted_bytes, 100);
}

#[test]
fn mixed_sizes_keep_cheapest() {
    let models = vec![fake("dup", 100), fake("dup", 50), fake("dup", 100)];
    let groups = find_duplicates(&models);
    assert_eq!(groups[0].wasted_bytes, 200);
    assert_eq!(groups[0].members[0].footprint, 50);
}

#[test]
fn single_copies_are_no_duplicates() {
    assert!(find_duplicates(&vec![fake("a", 1), fake("b", 1)]).is_empty());
    assert!(find_duplicates(&vec![]).is_empty());
}

#[test]
fn most_wasteful_group_comes_first() {
    let models = vec![fake("a", 5), fake("b", 70), fake("a", 5), fake("b", 70)];
    let groups = find_duplicates(&models);
    assert_eq!(groups.len(), 2);
    assert_eq!(groups[0].wasted_bytes, 70);
    assert_eq!(groups[1].wasted_bytes, 5);
}

#[test]
fn thinning_out_keeps_the_cheapest_copy() {
    let models = vec![fake("dup", 100), fake("dup", 50), fake("other", 9)];
    let groups = find_duplicates(&models);
    let id = groups[0].identity.clone();
    assert_eq!(dedup_delete(&groups, &id), vec!["/x/dup/100".to_string()]);
    assert_eq!(extra_copies(&groups[0]), vec!["/x/dup/100".to_string()]);
    assert!(dedup_delete(&groups, "nothing").is_empty());
}

fn sized(weight_gib: u64) -> ModelMeta {
    ModelMeta {
        quant: Some("Q4_K_M".to_string()),
        n_layers: Some(48),
        n_embd: Some(5120),
        ..model("/models/q.gguf", "qwen", "qwen3", weight_gib * 1024 * 1024 * 1024)
    }
}

#[test]
fn small_model_yields_llamacpp_candidate_with_explanation() {
    let c = candidates_for(&sized(4), &builtin_manifests(), 16 * 1024);
    assert!(!c.is_empty());
    let top = &c[0];
    assert!(top.max_ctx >= 32768);
    assert!(!top.why.is_empty());
    assert!(c.iter().all(|x| x.runtime_id != "ollama"));
}

#[test]
fn absurdly_huge_model_yields_no_candidate() {
    let c = candidates_for(&sized(1024), &builtin_manifests(), 16 * 1024);
    assert!(c.is_empty());
    assert!(recommend(&sized(1024), &builtin_manifests(), 16 * 1024).is_none());
}

#[test]
fn a_third_of_the_weights_can_be_asked_for() {
    let b = estimate(
        &sized(4),
        &FitRequest { ngl_nano: 333_333_333, ..FitRequest::default() },
        16 * 1024,
    );
    assert_eq!(b.weights_mb, 1365);
}

#[test]
fn each_identity_is_counted_by_itself() {
    let models = vec![fake("a", u64::MAX), fake("b", 3), fake("b", 4)];
    assert_eq!(find_duplicates(&models)[0].wasted_bytes, 4);
}

#[test]
fn a_larger_context_never_takes_less() {
    let m = sized(4);
    let mut last = 0;
    for ctx in [2048u64, 4096, 32768, 65536] {
        let b = estimate(&m, &FitRequest { ctx, ..FitRequest::default() }, 16 * 1024);
        assert!(b.model_vram_mb >= last);
        last = b.model_vram_mb;
    }
}

#[test]
fn the_largest_context_fits_and_the_next_does_not() {
    let m = sized(8);
    let (ctx, b) = max_ctx_for(&m, false, 16 * 1024).unwrap();
    assert!(b.verdict != Verdict::Oom);
    assert!(ctx % 2048 == 0);
    assert!(max_ctx_for(&sized(1024), false, 16 * 1024).is_none());
}

#[test]
fn a_plan_names_its_runtime_or_fails() {
    let (loadout, port) =
        plan_for_runtime(&sized(4), "llamacpp", &builtin_manifests(), 16 * 1024).unwrap();
    assert_eq!(port, 18999);
    assert_eq!(loadout.profile.model, "/models/q.gguf");
    assert!(plan_for_runtime(&sized(4), "nope", &builtin_manifests(), 16 * 1024).is_err());
}

fn family(basename: Option<&str>, arch: Option<&str>, bytes: u64) -> ModelMeta {
    ModelMeta {
        basename: basename.map(str::to_string),
        arch: arch.map(str::to_string),
        quant: Some("Q4_K_M".to_string()),
        ..model(&format!("/m/{}.gguf", basename.unwrap_or("x")), "n", "", bytes)
    }
}

const GIB: u64 = 1024 * 1024 * 1024;

#[test]
fn same_basename_groups_across_quants_and_sizes() {
    let a = family(Some("Qwen3.8-27B"), Some("qwen35"), 10 * GIB);
    let b = family(Some("qwen3.8-27b"), Some("QWEN35"), 13 * GIB);
    assert_eq!(a.group_key(), b.group_key(), "case-insensitive family key");
}

#[test]
fn different_families_or_arches_stay_apart() {
    let a = family(Some("Qwen3.8-27B"), Some("qwen35"), 10 * GIB);
    let b = family(Some("Muse-Glimmer-30B"), Some("muse-glimmer"), 10 * GIB);
    let c = family(Some("Qwen3.8-27B"), Some("other-arch"), 10 * GIB);
    assert_ne!(a.group_key(), b.group_key());
    assert_ne!(a.group_key(), c.group_key());
}

#[test]
fn abliterated_finetunes_share_the_38_listing_not_36() {
    let base = family(Some("Qwen3.8-27B"), Some("qwen35"), 12 * GIB);
    let abit = family(Some("Qwen3.8"), Some("qwen35"), 13 * GIB);
    let huihui = family(Some("Huihui-Qwen3.8"), Some("qwen35"), 16 * GIB);
    let q36 = family(Some("qwen3.6"), Some("qwen35"), 12 * GIB);
    assert_eq!(base.group_key(), abit.group_key());
    assert_eq!(base.group_key(), huihui.group_key());
    assert_ne!(base.group_key(), q36.group_key());
}

#[test]
fn version_token_ignores_bare_sizes_and_singles() {
    assert_eq!(version_token("qwen3.8-27b"), Some("3.8".to_string()));
    assert_eq!(version_token("huihui-qwen3.8"), Some("3.8".to_string()));
    assert_eq!(version_token("gemma-4-26b-a4b-it"), None);
    assert_eq!(version_token("mistral"), None);
    assert_eq!(version_token("model-v2"), None);
}

#[test]
fn no_basename_falls_back_to_identity_rows() {
    let a = family(None, Some("qwen3"), 10 * GIB);
    let b = family(None, Some("qwen3"), 10 * GIB + 100);
    assert_eq!(a.group_key(), b.group_key());
    assert_eq!(a.group_key(), a.identity(), "fallback is today's grouping");
    let c = family(None, Some("qwen3"), 20 * GIB);
    assert_ne!(a.group_key(), c.group_key(), "different buckets stay apart");
}

#[test]
fn lifecycle_truth_table() {
    assert_eq!(classify(false, false), Lifecycle::Discovered);
    assert_eq!(classify(true, false), Lifecycle::Installed);
    assert_eq!(classify(true, true), Lifecycle::Running);
    // A running flag wins even if the file check raced a delete.
    assert_eq!(classify(false, true), Lifecycle::Running);
}

#[test]
fn diff_reports_only_changed_fields() {
    let a = Profile::default();
    let mut b = a.clone();
    assert!(diff_fields(&a, &b).is_empty());
    b.ctx_size += 4096;
    b.n_gpu_layers = 0;
    assert_eq!(diff_fields(&a, &b), vec!["ctx_size".to_string(), "n_gpu_layers".to_string()]);
}

#[test]
fn diff_reports_texts_options_and_tunables() {
    let a = Profile::default();
    let mut b = a.clone();
    b.alias = "other".to_string();
    b.ctx_ladder = vec![1024];
    b.load_mode = None;
    b.mem_max_mb = Some(1);
    b.params.set("k", "v");
    b.temperature = "0.1".to_string();
    assert_eq!(
        diff_fields(&a, &b),
        vec!["alias", "ctx_ladder", "load_mode", "mem_max_mb", "params", "temperature"]
    );
}

fn on_disk(paths: &[&str]) -> Vec<DiskFact> {
    paths.iter().map(|p| DiskFact { canonical: p.to_string(), exists: true }).collect()
}

#[test]
fn groups_share_identity_and_sum_bytes() {
    let a = model("/m/qwen-Q3.gguf", "qwen-Q3.gguf", "qwen3", 10 * GIB);
    let b = model("/m/qwen-Q4.gguf", "qwen-Q4.gguf", "qwen3", 10 * GIB + 100);
    let disk = on_disk(&["/m/qwen-Q3.gguf", "/m/qwen-Q4.gguf"]);
    let groups = group_identities(&vec![a, b], &disk, &vec![]);
    assert_eq!(groups.len(), 1);
    assert_eq!(groups[0].artifacts.len(), 2);
    assert_eq!(groups[0].total_bytes, 20 * GIB + 100);
    assert_eq!(groups[0].display_name, "qwen");
}

#[test]
fn groups_come_in_order_and_know_what_runs() {
    let models = vec![
        model("/m/z.gguf", "z.gguf", "zeta", GIB),
        model("/m/b.gguf", "b.gguf", "alpha", GIB),
        model("/m/a.gguf", "a.gguf", "alpha", GIB),
    ];
    let mut disk = on_disk(&["/m/z.gguf", "/real/b.gguf", "/m/a.gguf"]);
    disk[0].exists = false;
    let groups = group_identities(&models, &disk, &vec!["/real/b.gguf".to_string()]);
    assert_eq!(groups.len(), 2);
    assert_eq!(groups[0].arch.as_deref(), Some("alpha"));
    assert_eq!(groups[0].artifacts[0].path, "/m/a.gguf");
    assert_eq!(groups[0].artifacts[0].lifecycle, Lifecycle::Installed);
    assert_eq!(groups[0].artifacts[1].lifecycle, Lifecycle::Running);
    assert_eq!(groups[1].artifacts[0].lifecycle, Lifecycle::Discovered);
    assert_eq!(groups.iter().map(|g| g.total_bytes).sum::<u64>(), 3 * GIB);
}

#[test]
fn display_names_need_a_shared_stem() {
    let names = |v: &[&str]| v.iter().map(|s| s.to_string()).collect::<Vec<_>>();
    assert_eq!(display_name_for(&names(&["qwen-27b-Q3.gguf", "qwen-27b-Q4.gguf"])), "qwen-27b");
    assert_eq!(display_name_for(&names(&["qwen-Q3.gguf", "llama-Q4.gguf"])), "qwen-Q3.gguf");
    assert_eq!(display_name_for(&names(&["ab-Q3.gguf"])), "ab-Q3.gguf");
    assert_eq!(display_name_for(&names(&["plain.gguf"])), "plain.gguf");
    assert_eq!(display_name_for(&vec![]), "unknown model");
}

#[test]
fn fit_explanations_say_where_the_weights_are() {
    assert_eq!(
        explain_fit("llamacpp", 32768, "q4_0", 9000, 16384, false),
        "llamacpp: ctx 32768 with q4_0 KV; estimated VRAM ~9000 MiB of 16384 MiB."
    );
    assert_eq!(
        explain_fit("freetoken", 8192, "fp16", 5000, 16384, true),
        "freetoken: ctx 8192 with fp16 KV; weights spill to RAM, VRAM holds KV+buffers (~5000 MiB of 16384 MiB)."
    );
}

struct Buf(Vec<u8>);

impl Buf {
    fn u32(self, x: u32) -> Self {
        self.append(&x.to_le_bytes())
    }
    fn u64(self, x: u64) -> Self {
        self.append(&x.to_le_bytes())
    }
    fn str(self, s: &str) -> Self {
        self.u64(s.len() as u64).append(s.as_bytes())
    }
    fn append(self, bytes: &[u8]) -> Self {
        let mut b = self.0;
        b.extend_from_slice(bytes);
        Self(b)
    }
    fn done(self) -> Vec<u8> {
        self.0
    }
}

const MAGIC: u32 = 0x4655_4747;
const U32: u32 = 4;
const F32: u32 = 6;
const BOOL: u32 = 7;
const STRING: u32 = 8;
const ARRAY: u32 = 9;

fn build_test_gguf(version: u32) -> Vec<u8> {
    Buf(vec![])
        .u32(MAGIC)
        .u32(version)
        .u64(0)
        .u64(6)
        .str("general.architecture")
        .u32(STRING)
        .str("qwen3")
        .str("general.file_type")
        .u32(U32)
        .u32(15)
        .str("qwen3.context_length")
        .u32(U32)
        .u32(262144)
        .str("test.flag")
        .u32(BOOL)
        .append(&[1])
        .str("test.f")
        .u32(F32)
        .append(&0.5f32.to_le_bytes())
        .str("tokenizer.ggml.tokens")
        .u32(ARRAY)
        .u32(STRING)
        .u64(3)
        .str("<pad>")
        .str("hello")
        .str("world")
        .done()
}

#[test]
fn parses_synthetic_v3() {
    let bytes = build_test_gguf(3);
    let meta = GgufMeta::from_reader(&bytes, bytes.len() as u64).unwrap();
    assert_eq!(meta.version, 3);
    assert_eq!(meta.arch(), Some("qwen3"));
    assert_eq!(meta.quant_name().as_deref(), Some("Q4_K_M"));
    assert_eq!(meta.ctx_train(), Some(262144));
    assert_eq!(meta.vocab_size(), Some(3));
    assert!(
        matches!(meta.get("test.flag"), Some(MetaValue::Bool(true))),
        "bool KV should round-trip"
    );
    assert!(
        matches!(
            meta.get("tokenizer.ggml.tokens"),
            Some(MetaValue::Array { elem_type: ValueType::String, count: 3 })
        ),
        "token array should be skipped but counted"
    );
    assert_eq!(meta.get("test.f"), Some(&MetaValue::Float32 { bits: 0.5f32.to_bits() }));
}

#[test]
fn seeks_past_large_fixed_stride_array() {
    let mut bytes = Buf(vec![])
        .u32(MAGIC)
        .u32(3)
        .u64(0)
        .u64(1)
        .str("embeddings.dummy")
        .u32(ARRAY)
        .u32(F32)
        .u64(2_000_000)
        .done();
    bytes.extend(std::iter::repeat_n([0u8; 4], 2_000_000).flatten());
    let len = bytes.len() as u64;
    let meta = GgufMeta::from_reader(&bytes, len).unwrap();
    assert_eq!(meta.file_size, len);
    assert_eq!(
        meta.get("embeddings.dummy"),
        Some(&MetaValue::Array { elem_type: ValueType::F32, count: 2_000_000 })
    );
}

#[test]
fn rejects_bad_magic() {
    let err = GgufMeta::from_reader(b"NOTGGUFF NOT", 12).unwrap_err();
    assert!(matches!(err, GgufError::BadMagic { got: _ }));
}

#[test]
fn rejects_future_version() {
    let bytes = Buf(vec![]).u32(MAGIC).u32(99).u64(0).u64(0).done();
    let err = GgufMeta::from_reader(&bytes, bytes.len() as u64).unwrap_err();
    assert!(matches!(err, GgufError::BadVersion { version: 99 }));
}

#[test]
fn rejects_short_headers_and_unknown_types() {
    assert!(matches!(
        GgufMeta::from_reader(b"GG", 2).unwrap_err(),
        GgufError::Truncated { where_: _ }
    ));
    let bytes = Buf(vec![]).u32(MAGIC).u32(3).u64(0).u64(1).str("k").u32(77).u32(0).done();
    match GgufMeta::from_reader(&bytes, bytes.len() as u64) {
        Err(e) => assert!(matches!(e, GgufError::UnknownValueType { id: 77 })),
        Ok(m) => assert!(m.truncated),
    }
    assert!(!GgufError::BadVersion { version: 99 }.message().is_empty());
}

#[test]
fn from_reader_parses_clean_buffer() {
    let bytes = build_test_gguf(3);
    let total = bytes.len() as u64 * 3;
    let meta = GgufMeta::from_reader(&bytes, total).unwrap();
    assert_eq!(meta.arch(), Some("qwen3"));
    assert_eq!(meta.quant_name().as_deref(), Some("Q4_K_M"));
    assert_eq!(meta.n_layers(), None);
    assert_eq!(meta.file_size, total);
    assert!(!meta.truncated, "no truncation when all data fits");
}

#[test]
fn from_reader_tolerates_truncated_array() {
    let full = build_test_gguf(3);
    let cut = (full.len() as f64 * 0.7) as usize;
    let truncated_buf: Vec<u8> = full[..cut].to_vec();
    let total = full.len() as u64;
    let meta = GgufMeta::from_reader(&truncated_buf, total).unwrap();
    assert!(meta.truncated, "should detect truncation");
    assert_eq!(meta.arch(), Some("qwen3"));
    assert_eq!(meta.get("general.file_type").and_then(MetaValue::as_int), Some(15));
    assert_eq!(meta.ctx_train(), Some(262144));
}

#[test]
fn a_header_cut_before_a_type_keeps_what_came_before() {
    let bytes = Buf(vec![])
        .u32(MAGIC)
        .u32(3)
        .u64(0)
        .u64(2)
        .str("general.architecture")
        .u32(STRING)
        .str("qwen3")
        .str("general.file_type")
        .done();
    let meta = GgufMeta::from_reader(&bytes, 1000).unwrap();
    assert!(meta.truncated);
    assert_eq!(meta.arch(), Some("qwen3"));
    assert_eq!((meta.kv.len(), meta.file_size), (1, 1000));
}

#[test]
fn a_repeated_key_is_kept_once() {
    let bytes = Buf(vec![])
        .u32(MAGIC)
        .u32(3)
        .u64(0)
        .u64(3)
        .str("general.name")
        .u32(STRING)
        .str("first")
        .str("general.architecture")
        .u32(STRING)
        .str("qwen3")
        .str("general.name")
        .u32(STRING)
        .str("second")
        .done();
    let meta = GgufMeta::from_reader(&bytes, 1).unwrap();
    assert_eq!(meta.name(), Some("second"));
    assert_eq!(meta.kv.len(), 2);
}

#[test]
fn a_header_that_is_not_utf8_ends_the_reading() {
    let bytes = Buf(vec![])
        .u32(MAGIC)
        .u32(3)
        .u64(0)
        .u64(1)
        .str("general.architecture")
        .u32(STRING)
        .u64(2)
        .append(&[0xff, 0xfe])
        .done();
    match GgufMeta::from_reader(&bytes, bytes.len() as u64) {
        Ok(m) => assert!(m.get("general.architecture").is_none()),
        Err(_) => {}
    }
}

#[test]
fn a_header_becomes_a_record() {
    let bytes = build_test_gguf(3);
    let meta = GgufMeta::from_reader(&bytes, 5_000_000).unwrap();
    let m = meta.to_meta("/m/mini.gguf");
    assert_eq!(m.path, "/m/mini.gguf");
    assert_eq!(m.arch.as_deref(), Some("qwen3"));
    assert_eq!(m.quant.as_deref(), Some("Q4_K_M"));
    assert_eq!(m.ctx_train, Some(262144));
    assert_eq!(m.weight_size, 5_000_000);
}

#[test]
fn parses_real_nvfp4_if_present() {
    let index = r#"{"metadata":{"total_size":22000000000}}"#;
    let quant = r#"{"quantization":{"quant_algo":"MIXED_PRECISION","quantized_layers":{"a":{"quant_algo":"W4A16_nvfp4_NVFP4"}}}}"#;
    let config = r#"{"architectures":["Qwen3_5MoeForConditionalGeneration"],"text_config":{"num_hidden_layers":40,"hidden_size":2048.9}}"#;
    let files = vec![("model-1.safetensors".to_string(), 100), ("config.json".to_string(), 7)];
    let meta = open_dir(
        "/home/deviant/models/Qwen3.6-35B-A3B-NVFP4",
        config,
        Some(quant),
        Some(index),
        &files,
    )
    .unwrap();
    assert!(
        meta.quant.as_ref().map(|q| q.contains("NVFP4")).unwrap_or(false),
        "should detect NVFP4"
    );
    assert_eq!(meta.quant.as_deref(), Some("W4A16_NVFP4_NVFP4"));
    assert!(meta.weight_size > 20_000_000_000, "should read ~22GB from index");
    assert!(meta.footprint >= meta.weight_size, "footprint must include weights");
    assert_eq!(meta.name, "Qwen3.6-35B-A3B-NVFP4");
    assert_eq!(meta.arch.as_deref(), Some("Qwen3_5MoeForConditionalGeneration"));
    assert_eq!(meta.n_layers, Some(40));
    assert_eq!(meta.n_embd, Some(2048));
    assert_eq!(meta.vocab, None);
}

#[test]
fn model_directories_fall_back_step_by_step() {
    let files = vec![("a.safetensors".to_string(), 30), ("tokenizer.json".to_string(), 12)];
    let m = open_dir(
        "/m/123",
        r#"{"model_type":"llama","quantization_config":{"quant_method":"awq"},"max_sequence_length":4096}"#,
        None,
        Some("not a document"),
        &files,
    )
    .unwrap();
    assert_eq!(m.name, "llama");
    assert_eq!(m.arch.as_deref(), Some("llama"));
    assert_eq!(m.quant.as_deref(), Some("awq"));
    assert_eq!(m.ctx_train, Some(4096));
    assert_eq!((m.weight_size, m.footprint), (30, 42));
    let named = open_dir("/m/x1", r#"{"_name_or_path":"org/Model-7B"}"#, None, None, &vec![]).unwrap();
    assert_eq!(named.name, "Model-7B");
    assert_eq!(
        open_dir("/m/1", "{}", Some(r#"{"producer":{"name":"modelopt"}}"#), None, &vec![])
            .unwrap()
            .quant
            .as_deref(),
        Some("modelopt")
    );
    assert!(open_dir("/m/x", "nonsense", None, None, &vec![]).is_err());
}

#[test]
fn a_search_goes_through_lists_and_objects() {
    let m = SafetensorsModel::open("/m", r#"{"b":["x",{"c":"W4_NVFP4"}],"a":1}"#, None, None).unwrap();
    assert_eq!(search_value(&m.config, "NVFP4").as_deref(), Some("W4_NVFP4"));
    assert_eq!(search_value(&m.config, "missing"), None);
}

#[test]
fn a_model_dir_has_a_configuration_and_weights() {
    let names = vec!["model.safetensors".to_string()];
    assert!(is_model_dir(true, false, &names));
    assert!(is_model_dir(true, true, &vec![]));
    assert!(!is_model_dir(true, false, &vec!["a.bin".to_string()]));
    assert!(!is_model_dir(false, true, &names));
}

#[test]
fn hidden_trashed_and_built_entries_are_not_walked() {
    assert!(keep("models", "/home/u/models"));
    assert!(keep(".cache", "/home/u/.cache"));
    assert!(!keep(".hidden", "/home/u/.hidden"));
    assert!(!keep("target", "/home/u/target"));
    assert!(!keep("a.gguf", "/home/u/Trash/a.gguf"));
    assert!(!keep("a.gguf", "/home/u/.Trash-1000/a.gguf"));
    assert_eq!(
        default_roots("/home/u", "/home/u/models"),
        vec!["/home/u", "/home/u/models", "/home/u/.cache/huggingface/hub"]
    );
}

#[test]
fn entries_are_classified_by_kind_name_and_size() {
    assert_eq!(classify_entry("/m/a.gguf", EntryKind::File, 1_048_577, false), Candidate::GgufFile);
    assert_eq!(classify_entry("/m/a.gguf", EntryKind::File, 1_048_576, false), Candidate::Nothing);
    assert_eq!(
        classify_entry("/m/ggml-vocab-x.gguf", EntryKind::File, 9_000_000, false),
        Candidate::Nothing
    );
    assert_eq!(classify_entry("/m/a.bin", EntryKind::File, 9_000_000, false), Candidate::Nothing);
    assert_eq!(classify_entry("/m/d", EntryKind::Dir, 0, true), Candidate::ModelDir);
    assert_eq!(classify_entry("/m/d", EntryKind::Dir, 0, false), Candidate::Nothing);
    assert_eq!(classify_entry("/m/a.gguf", EntryKind::Other, 9_000_000, false), Candidate::Nothing);
}

#[test]
fn scan_dup_surfaces_wasted_over_10gib() {
    let size = 11 * GIB;
    let found = vec![
        model("/r/copy-b/model.gguf", "model.gguf", "qwen3", size),
        model("/r/copy-a/model.gguf", "model.gguf", "qwen3", size),
        model("/link/model.gguf", "model.gguf", "qwen3", size),
    ];
    let canonical = vec![
        "/r/copy-b/model.gguf".to_string(),
        "/r/copy-a/model.gguf".to_string(),
        "/r/copy-a/model.gguf".to_string(),
    ];
    let models = dedup_and_sort(&found, &canonical);
    assert_eq!(models.len(), 2, "both duplicate copies should be indexed");
    assert_eq!(models[0].path, "/r/copy-a/model.gguf");
    let dups = find_duplicates(&models);
    assert_eq!(dups.len(), 1, "one duplicate identity expected");
    assert!(dups[0].wasted_bytes > 10 * GIB);
}

#[test]
fn paths_sort_step_by_step() {
    let paths = ["/m/a-b/x.gguf", "/m/a/x.gguf", "/m/a/../z.gguf", "rel.gguf"];
    let found: Vec<ModelMeta> = paths.iter().map(|p| model(p, "x", "q", 1)).collect();
    let canonical: Vec<String> = paths.iter().map(|p| p.to_string()).collect();
    let sorted = dedup_and_sort(&found, &canonical);
    let got: Vec<&str> = sorted.iter().map(|m| m.path.as_str()).collect();
    assert_eq!(got, vec!["/m/a/../z.gguf", "/m/a/x.gguf", "/m/a-b/x.gguf", "rel.gguf"]);
}

fn entry(raw: &str, bytes: u64) -> (String, String, u64, String) {
    (raw.to_string(), format!("c:{raw}"), bytes, raw.to_string())
}

#[test]
fn db_claim_without_file_is_missing() {
    let r = reconcile_registered_vs_found(&[entry("/m/a.gguf", 10)], &[]);
    assert_eq!(r.ok_count, 0);
    assert_eq!(r.missing.len(), 1);
    assert_eq!(r.missing[0].claimed_bytes, 10);
    assert!(r.orphaned.is_empty());
}

#[test]
fn file_without_row_is_orphaned() {
    let r = reconcile_registered_vs_found(&[], &[entry("/m/stray.gguf", 7)]);
    assert!(r.missing.is_empty());
    assert_eq!(r.orphaned.len(), 1);
    assert_eq!(r.total_bytes, 7);
}

#[test]
fn healthy_row_is_ok_and_counted() {
    let r = reconcile_registered_vs_found(&[entry("/m/a.gguf", 10)], &[entry("/m/a.gguf", 10)]);
    assert_eq!(r.ok_count, 1);
    assert_eq!(r.ok_bytes, 10);
    assert!(r.missing.is_empty() && r.orphaned.is_empty());
}

#[test]
fn either_spelling_of_a_path_matches() {
    let registered = [("/link/a.gguf".to_string(), String::new(), 10, "a".to_string())];
    let found = [("/link/a.gguf".to_string(), "/real/a.gguf".to_string(), 10, "a".to_string())];
    let r = reconcile_registered_vs_found(&registered, &found);
    assert_eq!((r.ok_count, r.missing.len(), r.orphaned.len()), (1, 0, 0));
    let canonical = [("/real/a.gguf".to_string(), String::new(), 10, "a".to_string())];
    let r = reconcile_registered_vs_found(&canonical, &found);
    assert_eq!((r.ok_count, r.missing.len(), r.orphaned.len()), (1, 0, 0));
}

#[test]
fn missing_and_orphaned_come_by_path() {
    let registered = [entry("/z", 1), entry("/a", 2), entry("/ok", 3)];
    let found = [entry("/y", 4), entry("/ok", 3), entry("/b", 5)];
    let r = reconcile_registered_vs_found(&registered, &found);
    assert_eq!(r.missing.iter().map(|m| m.path.as_str()).collect::<Vec<_>>(), vec!["/a", "/z"]);
    assert_eq!(r.orphaned.iter().map(|m| m.path.as_str()).collect::<Vec<_>>(), vec!["/b", "/y"]);
    assert_eq!(r.ok_count + r.missing.len(), registered.len());
    assert_eq!((r.ok_bytes, r.total_bytes), (3, 12));
}

#[test]
fn multi_artifact_selection_plans_exact_bytes() {
    let plan = removal_plan(&[
        ("/d/q4.gguf".to_string(), Some(2048)),
        ("/d/q3.gguf".to_string(), Some(1024)),
        ("/d/gone.gguf".to_string(), None),
    ]);
    assert_eq!(plan.total_bytes, 3072);
    assert_eq!(plan.missing.len(), 1);
    assert_eq!(plan.files[0].path, "/d/q3.gguf");
    assert_eq!(plan.files[1].bytes, 2048);
}

#[test]
fn rows_keep_what_a_model_is() {
    let mut m = sized(4);
    m.params = Some(u64::MAX);
    let back = model_of_row(&row_of_model(&m));
    assert_eq!(back, m);
    for v in [0u64, 1, 1 << 63, u64::MAX] {
        assert_eq!(from_stored(to_stored(v)), v);
    }
    assert_eq!(to_stored(u64::MAX), -1);
}

#[test]
fn pruning_removes_what_a_scan_did_not_keep() {
    let rows = vec![(1, "/a".to_string()), (2, "/b".to_string())];
    assert_eq!(prune(&rows, &vec!["/b".to_string()]), vec![(1, "/a".to_string())]);
    assert!(prune(&rows, &vec!["/a".to_string(), "/b".to_string()]).is_empty());
}
