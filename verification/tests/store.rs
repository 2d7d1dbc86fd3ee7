use std::collections::BTreeMap;

use cyberdeck::engines::backup::FileStep;
use cyberdeck::engines::evaluation::Exact;
use cyberdeck::engines::unit::{build_args, shell_join};
use cyberdeck::hardware::{
    capture, cpu_model, cuda_line, engines_json, gpu_name, os_line, ram_total_mb, vram_reported,
    with_content_hash, HardwareProfile, Reports,
};
use cyberdeck::importer::{
    extract, freetoken_numerals, llamacpp_numerals, parse_common, parse_freetoken_script_text,
    parse_llamacpp_script_text, parse_vars, reads_as_float, resolve, tokenize,
};
use cyberdeck::json::read_list;
use cyberdeck::library::{ConfigOrigin, Provenance};
use cyberdeck::measure::Measure;
use cyberdeck::model::ModelFormat;
use cyberdeck::numeral::print_numeral;
use cyberdeck::opencode_sync::{deck_canonical_model, sync_opencode};
use cyberdeck::params::Params;
use cyberdeck::profile::{Engine, Profile};
use cyberdeck::recommend::{
    median, rank_candidates, tallies, task_labels, RankedCandidate, TaskRun,
};
use cyberdeck::relevance::{
    age_seconds, family_of, model_type, params_total_b, quant_options, quant_ratio, quant_token,
    rank, score_one, BenchBest, Estimate, Installed, Score, Sizing, Weights,
};
use cyberdeck::runtime::{find_bin, ConfigParam, RuntimeManifest, RuntimeStatus};
use cyberdeck::runtime_registry::{accept_manifest, all_manifests, builtin_manifests, list_runtimes};
use cyberdeck::store::agents::{list_quota, set_harness_binding, set_quota};
use cyberdeck::store::bench::{
    per_role_bench, workflow_loop_passes, BenchRow, LoopPass, MatrixRow, StoredRun,
};
use cyberdeck::store::engine_bin::{
    installed_version, record_runtime_install, resolve_engine_bin, set_engine_bin, EngineBin,
};
use cyberdeck::store::index::{
    add_scan_dir, custom_runtimes_dir, default_db_path, generated_dir, models_dir,
    remove_scan_dir, scan_dirs, schema_step, schema_version, systemd_dir, SchemaStep,
    SCHEMA_VERSION,
};
use cyberdeck::store::profiles::{
    current_profile_for_model, duplicate_profile, ensure_model_indexed, names_model, origin_for,
    profile_origin, save_profile_edited,
};
use cyberdeck::store::releases::{insert_release, Release};
use cyberdeck::store::residents::{set_resident, Resident};
use cyberdeck::store::sessions::{
    format_timestamp, generate_handoff, is_leap, update_session, Session, SessionEvent,
    SessionStatus, SqlValue,
};
use cyberdeck::store::settings::{settings_set, settings_undo, AuditEntry, SettingChange};
use cyberdeck::wfstore::{list_workflow_runs, status_from_str, status_str, WorkflowRunRow};
use cyberdeck::workflow::WorkflowRunStatus;
use cyberdeck::workload::{seeded, task_evaluator};

fn m(v: f64) -> Measure {
    Measure { bits: v.to_bits() }
}

fn f(v: Measure) -> f64 {
    f64::from_bits(v.bits)
}

// ---------------------------------------------------------------- runtimes

#[test]
fn builtins_cover_existing_engines_with_stable_ports() {
    let b = builtin_manifests();
    assert_eq!(b.len(), 4);
    let llamacpp = b.iter().find(|x| x.id == "llamacpp").unwrap();
    assert_eq!(llamacpp.default_port, 18000);
    assert_eq!(llamacpp.status, RuntimeStatus::Stable);
    assert!(llamacpp.supports(&ModelFormat::Gguf, Some("qwen3")));
    let ollama = b.iter().find(|x| x.id == "ollama").unwrap();
    assert!(!ollama.supports(&ModelFormat::Gguf, Some("qwen3")));
}

fn manifest(id: &str, default_port: u16, test_port: u16, argv: &[&str]) -> RuntimeManifest {
    RuntimeManifest {
        id: id.into(),
        display: id.into(),
        version: None,
        formats: vec![],
        architectures: vec![],
        capabilities: vec![],
        model_source: Default::default(),
        protocol: Default::default(),
        default_port,
        test_port,
        unit_name: String::new(),
        is_system_service: false,
        status: Default::default(),
        bin_candidates: vec![],
        configuration: vec![],
        argv_template: argv.iter().map(|s| s.to_string()).collect(),
        env: Default::default(),
        install: None,
    }
}

#[test]
fn custom_manifest_parses_and_renders_argv() {
    let mut raw = manifest(
        "beellama",
        18222,
        18991,
        &["serve", "-m", "{model}", "--port", "{port}", "--ctx-size", "{ctx}"],
    );
    raw.formats = vec!["gguf".into()];
    let b = accept_manifest(raw, "/x/beellama.json").unwrap();
    assert_eq!(b.id, "beellama");
    assert_eq!(b.status, RuntimeStatus::Experimental);
    assert!(b.supports(&ModelFormat::Gguf, Some("qwen3")));
    assert!(!b.supports(&ModelFormat::SafetensorsDir, Some("qwen3")));
    let argv = b.render_argv("/models/q.gguf", "127.0.0.1", 18222, 49152, "q", &Params::new());
    assert_eq!(
        argv,
        vec!["serve", "-m", "/models/q.gguf", "--port", "18222", "--ctx-size", "49152"]
    );
    assert_eq!(b.unit_name, "cyberdeck-beellama.service");
    assert!(accept_manifest(manifest("", 1, 2, &[]), "/x").is_err());
    assert!(accept_manifest(manifest("x", 5, 5, &[]), "/x").is_err());
}

#[test]
fn declared_param_overrides_and_optional_flag_drop() {
    let mut raw = manifest(
        "param",
        18230,
        18990,
        &["--model", "{model}", "--n-gpu-layers", "{gpu_layers}", "--cache-type-k", "{kv_cache}"],
    );
    let param = |key: &str, default: Option<&str>| ConfigParam {
        key: key.into(),
        label: String::new(),
        default: default.map(str::to_string),
        help: String::new(),
    };
    raw.configuration = vec![param("gpu_layers", Some("999")), param("kv_cache", None)];
    let p = accept_manifest(raw, "/x").unwrap();
    let argv = p.render_argv("/m.gguf", "h", 1, 2048, "a", &Params::new());
    assert_eq!(argv, vec!["--model", "/m.gguf", "--n-gpu-layers", "999"]);
    let over = Params::from_pairs(&vec![
        ("gpu_layers".to_string(), "0".to_string()),
        ("kv_cache".to_string(), "q4_0".to_string()),
    ]);
    let argv = p.render_argv("/m.gguf", "h", 1, 2048, "a", &over);
    assert_eq!(
        argv,
        vec!["--model", "/m.gguf", "--n-gpu-layers", "0", "--cache-type-k", "q4_0"]
    );
}

#[test]
fn unknown_placeholder_is_rejected_at_load() {
    let raw = manifest("typo", 18231, 18989, &["--model", "{model}", "--ctx", "{contxt}"]);
    let err = accept_manifest(raw, "/x/typo.json").unwrap_err();
    assert!(err.contains("contxt"), "error should name the bad placeholder: {err}");
}

#[test]
fn customs_stand_beside_the_builtins() {
    let c = accept_manifest(manifest("mine", 1, 2, &[]), "/x").unwrap();
    let all = all_manifests(&vec![c.clone()]);
    assert_eq!(all.len(), 5);
    assert_eq!(list_runtimes(&vec![c]).len(), 5);
}

#[test]
fn resolves_override_then_candidates_then_path() {
    let dirs = vec!["/d1".to_string(), "/d2".to_string()];
    let files = vec!["/d1/custom-ft".to_string(), "/d2/ft".to_string()];
    let cand = |s: &str| vec![s.to_string()];
    assert_eq!(
        find_bin(&cand("ft"), &dirs, Some("/d1/custom-ft"), &files).as_deref(),
        Some("/d1/custom-ft")
    );
    assert_eq!(find_bin(&cand("ft"), &dirs, None, &files).as_deref(), Some("/d2/ft"));
    assert_eq!(find_bin(&cand("/d2/ft"), &dirs, None, &files).as_deref(), Some("/d2/ft"));
    assert_eq!(find_bin(&cand("nope"), &dirs, None, &files), None);
    assert_eq!(find_bin(&cand("/no/such/bin"), &dirs, None, &files), None);
}

// ---------------------------------------------------------------- importer

const SCRIPT: &str = r#"
# header comment with --load-mode mmap+mlock should NOT confuse parsing
MODEL=/models/x.gguf
BIN=/bin/llama-server
exec "$BIN" \
  -m "$MODEL" \
  --alias qwen \
  --ctx-size 65536 \
  --n-gpu-layers 64 \
  --flash-attn on \
  --reasoning on
"#;

#[test]
fn resolves_vars_and_flags() {
    let p = parse_llamacpp_script_text(SCRIPT, "t", &vec![]);
    assert_eq!(p.model, "/models/x.gguf");
    assert_eq!(p.bin, "/bin/llama-server");
    assert_eq!(p.alias, "qwen");
    assert_eq!(p.ctx_size, 65536);
    assert_eq!(p.n_gpu_layers, 64);
    assert!(p.flash_attn);
}

#[test]
fn does_not_match_flag_inside_word() {
    let p = parse_llamacpp_script_text(SCRIPT, "t", &vec![]);
    assert_eq!(p.model, "/models/x.gguf");
    assert_eq!(p.load_mode, Some("mmap+mlock".into()));
}

#[test]
fn freetoken_parses_offload() {
    let s = "exec ft serve --model nvidia/Qwen-X --port 1919 --moe-backend offload --moe-cache-size 3000";
    let p = parse_freetoken_script_text(s, "ft", &vec![]);
    assert_eq!(p.engine, Engine::FreeToken);
    assert_eq!(p.model, "nvidia/Qwen-X");
    assert_eq!(p.port, 1919);
    assert_eq!(p.ft_backend.as_deref(), Some("offload"));
    assert_eq!(p.ft_moe_cache_size, Some(3000));
}

#[test]
fn scripts_are_read_word_by_word() {
    assert_eq!(tokenize("a \"b c\" d"), vec!["a", "\"b c\"", "d"]);
    assert_eq!(extract("--port 18000", "port").as_deref(), Some("18000"));
    let vars = parse_vars("MODEL=/m/x.gguf\n1BAD=no\nÄ=yes\n");
    assert_eq!(vars.get("MODEL"), Some("/m/x.gguf"));
    assert_eq!(vars.get("1BAD"), None);
    assert_eq!(vars.get("Ä"), Some("yes"));
    assert_eq!(resolve(&vars, "$MODEL"), "/m/x.gguf");
    assert!(reads_as_float("0.7") && !reads_as_float("x"));
}

#[test]
fn numerals_are_kept_in_shortest_form() {
    let script = "exec llama-server --temp 0.70 --top-p +9e-1";
    assert!(llamacpp_numerals(script).is_empty());
    let p = parse_llamacpp_script_text(script, "t", &vec![]);
    assert_eq!((p.temperature.as_str(), p.top_p.as_str()), ("0.7", "0.9"));
    let printed = |v: &str| v.parse::<f32>().unwrap().to_string();
    for v in ["0.70", "1.0", "00.25", ".5", "2.", "-0.50", "+3", "0", "-0", "10.010", "0e999", "1E2"] {
        assert_eq!(print_numeral(v), Some(printed(v)), "{v}");
    }
    for digits in ["1", "7", "12", "99", "123", "999", "1001", "16777", "99999", "123456", "999999"] {
        for e in -41i32..=32 {
            let v = format!("{digits}e{e}");
            let leading = e + digits.len() as i32;
            let told = (-36..=38).contains(&leading);
            assert_eq!(print_numeral(&v), if told { Some(printed(&v)) } else { None }, "{v}");
        }
    }
}

#[test]
fn a_numeral_with_many_digits_is_read_as_a_float() {
    let script = "exec llama-server --temp 0.123456789 --top-p inf";
    let needed = llamacpp_numerals(script);
    assert_eq!(needed, vec!["0.123456789", "inf"]);
    let readings: Vec<(String, String)> = needed
        .into_iter()
        .map(|n| {
            let shown = n.parse::<f32>().unwrap().to_string();
            (n, shown)
        })
        .collect();
    let p = parse_llamacpp_script_text(script, "t", &readings);
    assert_eq!((p.temperature.as_str(), p.top_p.as_str()), ("0.12345679", "inf"));
    assert_eq!(freetoken_numerals("exec ft serve --temp 1e60"), vec!["1e60"]);
}

#[test]
fn built_arguments_are_read_back() {
    let p = Profile {
        alias: "my model".into(),
        model: "/m/x y.gguf".into(),
        ctx_size: 12288,
        temperature: "0.25".into(),
        host: "0.0.0.0".into(),
        port: 4242,
        flash_attn: true,
        kv_cache_type_k: Some("q8_0".into()),
        reasoning_budget: Some(77),
        ..Profile::default()
    };
    let mut q = Profile::default();
    parse_common(&mut q, &shell_join(&build_args(&p)), &vec![]);
    assert_eq!((q.alias.as_str(), q.ctx_size), ("my model", 12288));
    assert_eq!((q.temperature.as_str(), q.top_p.as_str()), ("0.25", "0.8"));
    assert_eq!((q.host.as_str(), q.port), ("0.0.0.0", 4242));
    assert!(q.flash_attn);
    assert_eq!(q.kv_cache_type_k.as_deref(), Some("q8_0"));
    assert_eq!(q.reasoning_budget, Some(77));
    assert_eq!(q.top_k, p.top_k);
}

// ---------------------------------------------------------------- engine bins and residents

fn engine_bin_case() {
    let mut table: BTreeMap<String, EngineBin> = BTreeMap::new();
    assert!(table.get("llamacpp").is_none());
    let row = set_engine_bin("llamacpp", "/opt/llama/llama-server");
    table.insert(row.engine_id.clone(), row);
    assert_eq!(table["llamacpp"].bin, "/opt/llama/llama-server");
    table.remove("llamacpp");
    assert!(table.get("llamacpp").is_none());
}

#[test]
fn store_engine_bin_roundtrip() {
    engine_bin_case();
}

#[test]
fn mod_engine_bin_roundtrip() {
    engine_bin_case();
}

#[test]
fn install_record_roundtrips_version_and_hand_bins_stay_unknown() {
    assert!(installed_version(None).is_none());
    let row = record_runtime_install("llamacpp", "/x/llama-server", "b10930");
    assert_eq!(installed_version(Some(&row)).as_deref(), Some("b10930"));
    let row = record_runtime_install("llamacpp", "/x/llama-server", "b10931");
    assert_eq!(installed_version(Some(&row)).as_deref(), Some("b10931"));
    let row = set_engine_bin("llamacpp", "/mine");
    assert!(installed_version(Some(&row)).is_none());
}

fn residents_case() {
    let mut table: BTreeMap<String, Resident> = BTreeMap::new();
    assert!(table.get("llamacpp").is_none());
    let r = set_resident(table.get("llamacpp"), "llamacpp", "qwen", Some(true));
    assert_eq!(r.engine_id, "llamacpp");
    assert_eq!(r.profile, "qwen");
    assert!(r.resident);
    table.insert(r.engine_id.clone(), r);
    let r = set_resident(table.get("llamacpp"), "llamacpp", "qwen2", None);
    assert_eq!(r.profile, "qwen2");
    assert!(r.resident, "flag preserved on re-bind");
    table.insert(r.engine_id.clone(), r);
    let r = set_resident(table.get("llamacpp"), "llamacpp", "qwen2", Some(false));
    assert!(!r.resident);
    table.insert(r.engine_id.clone(), r);
    let r = set_resident(table.get("ollama"), "ollama", "qwen-ollama", Some(true));
    table.insert(r.engine_id.clone(), r);
    assert_eq!(table.len(), 2);
    table.remove("llamacpp");
    assert!(table.get("llamacpp").is_none());
    assert!(table.len() == 1);
    assert!(!set_resident(None, "freetoken", "p", None).resident);
}

#[test]
fn store_residents_roundtrip_keeps_flag() {
    residents_case();
}

#[test]
fn mod_residents_roundtrip_keeps_flag() {
    residents_case();
}

fn substitutes_case() {
    let p = Profile {
        engine: Engine::LlamaCpp,
        bin: "/usr/bin/llama-server".into(),
        ..Default::default()
    };
    let resolved = resolve_engine_bin(p, Some("/opt/llama/llama-server"), false);
    assert_eq!(resolved.bin, "/opt/llama/llama-server");
}

#[test]
fn store_resolve_substitutes_missing_absolute_bin() {
    substitutes_case();
}

#[test]
fn mod_resolve_substitutes_missing_absolute_bin() {
    substitutes_case();
}

fn leaves_case() {
    let p = Profile { engine: Engine::Ollama, bin: "ollama".into(), ..Default::default() };
    assert_eq!(resolve_engine_bin(p, Some("/opt/ollama/bin/ollama"), false).bin, "ollama");
    let p = Profile {
        engine: Engine::LlamaCpp,
        bin: "/tmp/cyberdeck-resolve-test.bin".into(),
        ..Default::default()
    };
    assert_eq!(
        resolve_engine_bin(p, Some("/opt/llama/llama-server"), true).bin,
        "/tmp/cyberdeck-resolve-test.bin"
    );
    let p = Profile { bin: "/gone".into(), ..Default::default() };
    assert_eq!(resolve_engine_bin(p, None, false).bin, "/gone");
}

#[test]
fn store_resolve_leaves_bare_names_and_existing_files() {
    leaves_case();
}

#[test]
fn mod_resolve_leaves_bare_names_and_existing_files() {
    leaves_case();
}

// ---------------------------------------------------------------- workloads and hardware

fn workloads_case() {
    let ws = seeded();
    assert!(ws.iter().any(|w| w.id == "coding"));
    let coding = ws.iter().find(|w| w.id == "coding").unwrap();
    assert!(!coding.tasks.is_empty());
    assert_eq!(ws.len(), 5);
}

#[test]
fn store_workloads_seed_and_roundtrip() {
    workloads_case();
}

#[test]
fn mod_workloads_seed_and_roundtrip() {
    workloads_case();
}

#[test]
fn tasks_know_their_evaluator() {
    let ws = seeded();
    assert_eq!(
        task_evaluator(&ws, "debug"),
        ("regex".to_string(), "IndexError|bounds".to_string())
    );
    assert_eq!(task_evaluator(&ws, "none"), ("lexical-placeholder".to_string(), String::new()));
}

fn machine(gpu: &str, at: i64) -> HardwareProfile {
    with_content_hash(HardwareProfile {
        id: 0,
        gpu: gpu.into(),
        vram_mb: 1,
        cpu: String::new(),
        ram_mb: 2,
        os: String::new(),
        driver: String::new(),
        cuda: String::new(),
        cyberdeck_ver: format!("{at}"),
        engines_json: String::new(),
        captured_at: at,
        content_hash: String::new(),
    })
}

fn hardware_case() {
    let a = machine("g", 1);
    let b = machine("g", 2);
    assert_eq!(a.content_hash, b.content_hash);
    assert_ne!(a.content_hash, machine("h", 1).content_hash);
    // The hash is the polynomial in base 31 of "g|1||2||||".
    let want = "g|1||2||||"
        .bytes()
        .fold(0u64, |h, c| h.wrapping_mul(31).wrapping_add(c as u64));
    assert_eq!(a.content_hash, format!("{want:x}"));
}

#[test]
fn store_hardware_profile_dedup() {
    hardware_case();
}

#[test]
fn mod_hardware_profile_dedup() {
    hardware_case();
}

#[test]
fn reports_of_the_machine_are_read() {
    assert_eq!(gpu_name("RTX A\nRTX B\n"), "RTX A");
    assert_eq!(gpu_name("  \n"), "unknown");
    assert_eq!(vram_reported(" 16303 \n"), 16303);
    assert_eq!(vram_reported("1\n2"), 0);
    assert_eq!(cpu_model("x\nmodel name\t: Ryzen 9\n").as_deref(), Some("Ryzen 9"));
    assert_eq!(cpu_model("none"), None);
    assert_eq!(ram_total_mb("MemTotal:       65536 kB\n"), 64);
    assert_eq!(os_line("A=1\nPRETTY_NAME=\"Arch\"").as_deref(), Some("PRETTY_NAME=\"Arch\""));
    assert_eq!(cuda_line("a\n| CUDA Version: 12 |\n"), "| CUDA Version: 12 |");
    assert_eq!(
        engines_json("version: 1 \"x\"\nmore", "0.5"),
        r#"{"llamacpp":"version: 1 \"x\"","ollama":"0.5"}"#
    );
    assert_eq!(engines_json("", ""), "{}");
    let r = Reports {
        gpu: "RTX".into(),
        vram: "16303".into(),
        driver: "550\n".into(),
        driver_summary: String::new(),
        cpuinfo: None,
        processor: "x86_64\n".into(),
        meminfo: Some("MemTotal: 2048 kB".into()),
        os_release: Some("nothing".into()),
        kernel: "Linux \n".into(),
        llamacpp: String::new(),
        ollama: String::new(),
    };
    let p = capture(&r, "1", 5);
    assert_eq!((p.cpu.as_str(), p.os.as_str(), p.driver.as_str()), ("x86_64", "Linux", "550"));
    assert_eq!((p.ram_mb, p.vram_mb, p.captured_at), (2, 16303, 5));
    assert!(!p.content_hash.is_empty());
}

// ---------------------------------------------------------------- settings

struct Settings {
    table: BTreeMap<String, String>,
    log: Vec<AuditEntry>,
}

impl Settings {
    fn apply(&mut self, c: SettingChange) {
        match c.value {
            Some(v) => self.table.insert(c.key, v),
            None => self.table.remove(&c.key),
        };
        self.log.push(c.audit);
    }
    fn set(&mut self, key: &str, value: &str, actor: &str, reason: &str) {
        let old = self.table.get(key).cloned();
        let c = settings_set(key, value, actor, reason, old.as_deref(), 1).unwrap();
        self.apply(c);
    }
    fn undo(&mut self, i: usize) {
        let a = self.log[i].clone();
        let current = self.table.get(&a.key).cloned();
        let c = settings_undo(i as i64, &a, current.as_deref(), 2).unwrap();
        self.apply(c);
    }
}

fn settings_case() {
    let mut s = Settings { table: BTreeMap::new(), log: vec![] };
    s.set("foo", "\"bar\"", "tester", "test");
    assert_eq!(s.table.get("foo").map(String::as_str), Some("\"bar\""));
    s.set("foo", "\"baz\"", "tester", "update");
    assert!(s.log.len() >= 2);
    s.undo(1);
    assert_eq!(s.table.get("foo").map(String::as_str), Some("\"bar\""));
    assert_eq!(s.log[2].reason, "revert #1");
    s.undo(0);
    assert_eq!(s.table.get("foo"), None);
    assert_eq!(s.log[3].new_json, None);
}

#[test]
fn store_settings_audit_reversible() {
    settings_case();
}

#[test]
fn mod_settings_audit_reversible() {
    settings_case();
}

#[test]
fn a_value_that_is_no_document_is_refused() {
    assert_eq!(
        settings_set("k", "bar", "t", "r", None, 1).unwrap_err(),
        "value must be valid JSON"
    );
    let bad = AuditEntry {
        ts: 0,
        actor: "t".into(),
        key: "k".into(),
        old_json: Some("{".into()),
        new_json: None,
        reason: String::new(),
    };
    assert_eq!(settings_undo(1, &bad, None, 1).unwrap_err(), "value must be valid JSON");
    assert!(set_harness_binding("agents.opencode", "{}", None, 1).is_ok());
    assert!(set_quota("p", "nope", None, 1).is_err());
    assert_eq!(set_quota("p", "1", None, 1).unwrap().key, "agents.quota.p");
    let all = vec![
        ("agents.quota.a".to_string(), "1".to_string(), 0),
        ("other".to_string(), "2".to_string(), 0),
    ];
    assert_eq!(list_quota(&all), vec![("agents.quota.a".to_string(), "1".to_string())]);
}

#[test]
fn scan_directories_are_added_once_and_removed() {
    assert!(scan_dirs(None).is_empty());
    assert!(scan_dirs(Some("nonsense")).is_empty());
    let c = add_scan_dir(None, "/a \"b\"").unwrap();
    assert_eq!(c.value_json, r#"["/a \"b\""]"#);
    assert_eq!(c.reason, "add scan dir: /a \"b\"");
    assert!(add_scan_dir(Some(&c.value_json), "/a \"b\"").is_none());
    let d = add_scan_dir(Some(&c.value_json), "/c").unwrap();
    assert_eq!(scan_dirs(Some(&d.value_json)), vec!["/a \"b\"", "/c"]);
    let e = remove_scan_dir(Some(&d.value_json), "/a \"b\"").unwrap();
    assert_eq!(scan_dirs(Some(&e.value_json)), vec!["/c"]);
    assert!(remove_scan_dir(Some(&e.value_json), "/a \"b\"").is_none());
    assert!(read_list(r#"["a",1]"#).is_empty());
}

#[test]
fn schema_version_stamped_on_open() {
    assert_eq!(schema_step(None), SchemaStep::Stamp);
    let stamped = format!("{SCHEMA_VERSION}");
    assert_eq!(schema_version(Some(&stamped)), Some(SCHEMA_VERSION));
    assert_eq!(schema_step(Some(&stamped)), SchemaStep::Keep);
    assert_eq!(schema_step(Some("1")), SchemaStep::Migrate { from: 1 });
    assert_eq!(schema_step(Some("-9223372036854775808")), SchemaStep::Migrate { from: i64::MIN });
    assert_eq!(schema_step(Some("99")), SchemaStep::Keep);
    assert_eq!(schema_step(Some("x")), SchemaStep::Keep);
    assert_eq!(schema_version(Some("-+1")), None);
    assert_eq!(
        default_db_path(None, Some("/h")),
        "/h/.local/share/cyberdeck/cyberdeck.db"
    );
    assert_eq!(default_db_path(Some("/d"), Some("/h")), "/d/cyberdeck/cyberdeck.db");
    assert_eq!(models_dir(None), "./models");
    assert_eq!(custom_runtimes_dir(None, Some("/h")), "/h/.local/share/cyberdeck/runtimes");
    assert_eq!(systemd_dir(Some("/c"), Some("/h")), "/c/systemd/user");
    assert_eq!(generated_dir(None, None), ".local/share/cyberdeck/generated");
}

// ---------------------------------------------------------------- profiles

#[test]
fn derived_baseline_then_edit_marks_overrides() {
    let base = Profile { name: "q".into(), ctx_size: 49152, ..Default::default() };
    let prov = Provenance {
        runtime_id: "llamacpp".into(),
        artifact_path: "/m.gguf".into(),
        vram_mb: 16303,
        why: "fits".into(),
        baseline: base.clone(),
        overridden_fields: vec![],
    };
    assert_eq!(origin_for(&prov).tag(), "auto");
    let mut edited = base.clone();
    edited.ctx_size = 65536;
    let (stored, origin) = save_profile_edited(Some(prov), &edited).unwrap();
    assert_eq!(stored.overridden_fields, vec!["ctx_size".to_string()]);
    assert_eq!(origin, ConfigOrigin::Override);
    assert_eq!(stored.baseline.ctx_size, 49152, "auto baseline preserved");
    assert!(save_profile_edited(None, &edited).is_none());
    assert_eq!(profile_origin(None), "auto");
}

#[test]
fn duplicate_copies_config_and_provenance_source_untouched() {
    let p = Profile { name: "known-good".into(), ctx_size: 49152, ..Default::default() };
    let dup = duplicate_profile(Some(&p), false, "known-good", "known-good-64k").unwrap();
    assert_eq!(dup.name, "known-good-64k");
    assert_eq!(dup.ctx_size, 49152);
    assert_eq!(p.ctx_size, 49152, "source config untouched by the clone");
    assert_eq!(
        duplicate_profile(Some(&p), true, "known-good", "known-good-64k").unwrap_err(),
        "a loadout named 'known-good-64k' already exists"
    );
    assert_eq!(
        duplicate_profile(None, false, "missing", "x").unwrap_err(),
        "no loadout named 'missing'"
    );
}

#[test]
fn flavor_linkage_and_convergence() {
    let row = ensure_model_indexed("/m/a.gguf", true, false).unwrap();
    assert_eq!((row.format.as_str(), row.name.as_str()), ("gguf", "a.gguf"));
    assert_eq!(ensure_model_indexed("/m/d", true, true).unwrap().format, "safetensors-dir");
    assert!(ensure_model_indexed("Qwen/Qwen3.8-27B-Instruct", true, false).is_none());
    assert!(ensure_model_indexed("/gone", false, false).is_none());
    assert!(!names_model(&Profile { model: "  ".into(), ..Default::default() }));
    let p = |name: &str| Profile { name: name.into(), model: "/m".into(), ..Default::default() };
    let profiles = vec![p("a"), p("b")];
    let bound = vec![Resident {
        engine_id: "llamacpp".into(),
        profile: "b".into(),
        resident: true,
    }];
    assert_eq!(current_profile_for_model(&profiles, &bound, "/m"), Some(1));
    assert_eq!(current_profile_for_model(&profiles, &vec![], "/m"), Some(0));
    assert_eq!(current_profile_for_model(&profiles, &bound, "/other"), None);
}

// ---------------------------------------------------------------- benchmarks

fn row(role: &str, model: &str, tps: Option<f64>) -> MatrixRow {
    MatrixRow {
        engine: "llamacpp".into(),
        model: model.into(),
        ctx: 0,
        task: role.into(),
        run: 1,
        verdict: "ok".into(),
        summary: "workflow node".into(),
        gen_tokens: Some(100),
        prompt_tokens: None,
        tok_s: tps.map(m),
        tok_s_kind: "wall".into(),
        wall_ms: 500,
        output: String::new(),
        at: 0,
        workload_id: None,
        hardware_profile_id: None,
        engine_version: None,
        prompt_tps: None,
        ttft_ms: Some(40),
        peak_vram_mb: None,
        model_rev: None,
        sampling_json: None,
        role_id: Some(role.into()),
        workflow_id: None,
    }
}

#[test]
fn per_role_bench_aggregates_best_avg_last() {
    let rows: Vec<StoredRun> = vec![
        row("r1", "qwen-fast", Some(80.0)),
        row("r1", "qwen-fast", Some(60.0)),
        row("r1", "qwen-slow", Some(30.0)),
        row("r2", "qwen-slow", Some(20.0)),
        row("r1", "agent-node", None),
    ]
    .into_iter()
    .enumerate()
    .map(|(i, row)| StoredRun { id: i as i64 + 1, row })
    .collect();
    let out = per_role_bench(&rows, &vec!["r1".to_string()]);
    assert_eq!(out.len(), 2);
    let fast = out.iter().find(|r| r.model == "qwen-fast").unwrap();
    assert_eq!(fast.runs, 2);
    assert_eq!(f(fast.best_tps), 80.0);
    let avg = fast.speeds.iter().map(|s| f(*s)).sum::<f64>() / fast.speeds.len() as f64;
    assert!((avg - 70.0).abs() < 1e-9);
    assert_eq!(f(fast.last_tps), 60.0);
    assert_eq!(fast.last_ttft_ms, Some(40));
    let slow = out.iter().find(|r| r.model == "qwen-slow").unwrap();
    assert_eq!(slow.runs, 1);
    assert_eq!(out[0].role_id, "r1");
    assert!(f(out[0].best_tps) >= f(out[1].best_tps));
    assert!(per_role_bench(&rows, &vec![]).is_empty());
}

#[test]
fn passes_of_a_workflow_add_up_latest_first() {
    let at = |at: i64, wf: &str, tps: Option<f64>| MatrixRow {
        at,
        workflow_id: Some(wf.into()),
        ..row("r", "m", tps)
    };
    let rows =
        vec![at(1, "w", Some(1.0)), at(2, "w", Some(1.0)), at(1, "w", Some(1.0)), at(3, "v", Some(1.0)), at(4, "w", None)];
    assert_eq!(
        workflow_loop_passes(&rows, "w"),
        vec![
            LoopPass { at: 2, gen_tokens: 100, wall_ms: 500 },
            LoopPass { at: 1, gen_tokens: 200, wall_ms: 1000 },
        ]
    );
}

fn evaluations_case() {
    let id = 17;
    let ev = Exact { expected: "hello world".into() }.evaluate("hello world", id, 0);
    assert_eq!(ev.matrix_run_id, id);
    assert_eq!(ev.method, "exact");
    assert!(ev.passed);
    assert_eq!(f(ev.score), 1.0);
}

#[test]
fn store_evaluations_persist_per_matrix() {
    evaluations_case();
}

#[test]
fn mod_evaluations_persist_per_matrix() {
    evaluations_case();
}

#[test]
fn a_measurement_keeps_its_provenance() {
    let b = BenchRow::with_provenance(
        Some(3), "llamacpp", "h", 1, "q", 8192, m(9.5), 7, Some("b1".into()), None, Some(4),
    );
    assert_eq!((b.id, b.hardware_profile_id, b.at), (0, Some(3), 7));
    assert_eq!(f(b.tps), 9.5);
}

#[test]
fn a_release_enters_the_catalog_once() {
    let mut catalog = vec![];
    assert!(insert_release(&mut catalog, rel("hf", "a/b")));
    assert!(!insert_release(&mut catalog, rel("hf", "a/b")));
    assert!(insert_release(&mut catalog, rel("github", "a/b")));
    assert_eq!(catalog.len(), 2);
}

// ---------------------------------------------------------------- recommendation

fn task_run(id: i64, model: &str, tok_s: Option<f64>) -> TaskRun {
    TaskRun { id, model: model.into(), engine: "llamacpp".into(), tok_s: tok_s.map(m) }
}

#[test]
fn trials_are_tallied_per_model_and_engine() {
    let rows = vec![
        task_run(1, "a", Some(10.0)),
        task_run(2, "b", None),
        task_run(3, "a", Some(30.0)),
        task_run(4, "a", Some(20.0)),
    ];
    let t = tallies(&rows, &vec![(1, false), (3, false), (3, true)], "coding").unwrap();
    assert_eq!(t.len(), 2);
    assert_eq!((t[0].model.as_str(), t[0].runs, t[0].successes), ("a", 3, 2));
    assert_eq!(t[0].p50.map(f), Some(20.0));
    assert_eq!((t[1].runs, t[1].successes, t[1].p50), (1, 1, None));
    assert_eq!(
        tallies(&vec![], &vec![], "coding").unwrap_err(),
        "insufficient data — run `deck bench matrix --workload coding` first"
    );
    assert_eq!(task_labels(None, "x").unwrap_err(), "unknown workload 'x'");
    assert_eq!(task_labels(Some(&seeded()[0]), "coding").unwrap(), vec!["humaneval", "mbpp", "debug"]);
    assert_eq!(median(&vec![m(3.0), m(1.0)]).map(f), Some(3.0));
}

#[test]
fn an_objective_orders_the_candidates() {
    let c = |model: &str, success: f64, p50: Option<f64>| RankedCandidate {
        model: model.into(),
        engine: "e".into(),
        runs: 1,
        success_rate: m(success),
        mean_score: m(success),
        p50_tok_s: p50.map(m),
        mean_tok_s: None,
        explain: String::new(),
    };
    let all = || vec![c("a", 1.0, None), c("b", 0.5, Some(50.0)), c("c", 1.0, Some(10.0))];
    let eff = vec![m(0.0), m(25.0), m(10.0)];
    let names = |v: Vec<RankedCandidate>| v.into_iter().map(|x| x.model).collect::<Vec<_>>();
    assert_eq!(names(rank_candidates(all(), &eff, "speed")), vec!["b", "c", "a"]);
    assert_eq!(names(rank_candidates(all(), &eff, "efficient")), vec!["b", "c", "a"]);
    assert_eq!(names(rank_candidates(all(), &eff, "best")), vec!["c", "a", "b"]);
}

// ---------------------------------------------------------------- relevance

fn rel(source: &str, repo: &str) -> Release {
    Release {
        source: source.into(),
        repo: repo.into(),
        rev: "r1".into(),
        kind: "model".into(),
        title: repo.into(),
        url: "".into(),
        published_at: "".into(),
        payload_json: "{}".into(),
        fetched_at: 0,
    }
}

/// What a model is estimated to take, by its name.
fn sizing(repo: &str, vram_mb: u64) -> Option<Sizing> {
    let params: f64 = params_total_b(repo)?.parse().unwrap();
    let gb = params * 2.0 * (quant_ratio(repo) as f64 / 100.0);
    let headroom = vram_mb as f64 - 1600.0 - params * 1024.0 - 64.0;
    let max_ctx = if headroom <= 0.0 {
        None
    } else {
        Some(((headroom * 1000.0 / (4.0 * params)) as u64).clamp(1024, 131_072))
    };
    Some(Sizing {
        gb: m(gb),
        gb_rounded: format!("{gb:.0}"),
        mb: (gb * 1024.0) as u64,
        max_ctx,
        quant_gb: quant_options()
            .into_iter()
            .map(|(_, p)| m(params * 2.0 * (p as f64 / 100.0)))
            .collect(),
    })
}

fn score(r: &Release, installed: &Vec<Installed>, disk_free_mb: u64) -> Score {
    let z = sizing(&r.repo, 16000);
    let s = score_one(r, installed, &BenchBest::default(), 16000, z.as_ref(), disk_free_mb, m(1.0), m(0.0));
    let w = Weights::default();
    let total = f(w.hw) * f(s.hw)
        + f(w.family) * f(s.family)
        + f(w.novelty) * f(s.novelty)
        + f(w.bench) * f(s.bench)
        + f(w.recency) * f(s.recency);
    score_one(r, installed, &BenchBest::default(), 16000, z.as_ref(), disk_free_mb, m(1.0), m(total))
}

#[test]
fn github_fits_but_ranks_low() {
    let s = score(&rel("github", "ggml-org/llama.cpp"), &vec![], 268_000);
    assert!(s.fits);
    assert_eq!(f(s.hw), 0.2, "engine hw should be capped below models");
    assert_eq!(s.model_type, "engine");
    assert_eq!(s.reasons, vec!["engine release"]);
}

#[test]
fn family_hit_scores_higher() {
    let r = rel("hf", "unsloth/Qwen3-8B-GGUF");
    let installed =
        vec![Installed { name: "qwen3".into(), arch: Some("qwen3".into()), quant: None }];
    let s_hit = score(&r, &installed, 268_000);
    let s_miss = score(&r, &vec![], 268_000);
    assert!(f(s_hit.family) > f(s_miss.family));
    assert!(f(s_hit.total) > f(s_miss.total));
    assert_eq!(s_hit.reasons, vec!["~8GB fits 16000MB", "family qwen you use"]);
}

#[test]
fn rank_sorts_desc() {
    let a = rel("hf", "unsloth/Qwen3-70B-GGUF");
    let b = rel("hf", "unsloth/Qwen3-7B-GGUF");
    let estimates = vec![estimate(&a, 0), estimate(&b, 0)];
    let ranked = rank(vec![a, b], &vec![], &BenchBest::default(), 16000, 0, 268_000, &estimates);
    assert!(ranked[0].0.repo.contains("7B"));
    assert_eq!(ranked[0].0.repo, "unsloth/Qwen3-7B-GGUF");
    assert!(ranked[0].1.fits && !ranked[1].1.fits, "each release keeps its own score");
}

fn estimate(r: &Release, now: i64) -> Estimate {
    let s = score(r, &vec![], 268_000);
    Estimate {
        age_s: age_seconds(r, now),
        recency: s.recency,
        sizing: sizing(&r.repo, 16000),
        total: s.total,
    }
}

#[test]
fn equal_totals_keep_their_order_and_ages_are_counted() {
    let (a, b) = (rel("hf", "org/x-7b-one"), rel("hf", "org/x-7b-two"));
    let estimates = vec![estimate(&a, 0), estimate(&b, 0)];
    let ranked = rank(vec![a, b], &vec![], &BenchBest::default(), 16000, 0, 268_000, &estimates);
    let names: Vec<&str> = ranked.iter().map(|x| x.0.repo.as_str()).collect();
    assert_eq!(names, vec!["org/x-7b-one", "org/x-7b-two"]);
    let fresh = Release { fetched_at: 1000, ..rel("hf", "x") };
    assert_eq!(age_seconds(&fresh, 87_400), 86_400);
    assert_eq!(age_seconds(&rel("hf", "x"), 87_400), 30 * 86_400);
}

#[test]
fn a_name_without_a_size_is_never_sized() {
    let z = sizing("org/model-7b", 16000);
    let r = rel("hf", "mistralai/Mixtral-8x7B-GGUF");
    let bench = BenchBest::default();
    let s = score_one(&r, &vec![], &bench, 16000, z.as_ref(), 268_000, m(1.0), m(0.0));
    assert!(!s.fits && s.disk_gb.is_none() && s.quant_sizes.is_empty());
    let r = rel("hf", "org/model-7b");
    let s = score_one(&r, &vec![], &bench, 16000, z.as_ref(), 268_000, m(1.0), m(0.0));
    assert_eq!(s.quant_sizes[7], ("F16".to_string(), m(14.0)));
}

#[test]
fn moe_flagship_never_overclaims_fit() {
    let s = score(&rel("hf", "bartowski/Qwen3.8-Flash-Next-GGUF"), &vec![], 268_000);
    assert!(!s.fits, "Flash-Next must not be declared fittable offline");
    assert_eq!(f(s.hw), 0.0);
    assert_eq!(s.disk_gb, None);
    assert_eq!(s.max_ctx, None);
}

#[test]
fn decimal_params_is_uncertain_not_tiny() {
    assert_eq!(params_total_b("bartowski/Qwen3.6-35b-a3b-GGUF").as_deref(), Some("35"));
    assert_eq!(params_total_b("bartowski/Qwen3.8-Flash-Next-GGUF"), None);
    assert_eq!(params_total_b("unsloth/Qwen3-8B-GGUF").as_deref(), Some("8"));
    assert_eq!(params_total_b("org/model-1.5b"), None);
    assert_eq!(params_total_b("mistralai/Mixtral-8x7B-GGUF"), None);
    assert_eq!(params_total_b("org/Moe-A3B"), None);
    assert_eq!(params_total_b("org/0b-7b").as_deref(), Some("7"));
}

#[test]
fn o4_disk_and_ctx_enrichment_for_sizable_model() {
    let s = score(&rel("hf", "unsloth/Qwen3-8B-GGUF"), &vec![], 268_000);
    assert!(s.fits);
    assert!(s.disk_gb.is_some(), "disk_gb should be computed");
    let gb = f(s.disk_gb.unwrap());
    assert!(gb > 3.0 && gb < 12.0, "8B quant should be 3-12GB, got {gb}");
    assert!(s.disk_fits);
    assert!(s.max_ctx.is_some(), "max_ctx should exist for a fitting model");
}

#[test]
fn o4_ctx_scales_down_when_read_only_headroom() {
    let s = score(&rel("hf", "unsloth/Qwen3-70B-GGUF"), &vec![], 268_000);
    assert!(!s.fits);
    assert!(s.disk_gb.is_some());
    assert_eq!(s.max_ctx, None);
}

#[test]
fn o4_disk_fits_flips_when_free_disk_is_tiny() {
    let s = score(&rel("hf", "unsloth/Qwen3-8B-GGUF"), &vec![], 1024);
    assert!(s.fits, "weights fit VRAM but the download is blocked by disk");
    assert!(!s.disk_fits);
    assert_eq!(s.reasons.last().map(String::as_str), Some("~8GB won't fit free disk"));
}

#[test]
fn names_tell_family_quant_and_kind() {
    assert_eq!(family_of("unsloth/Qwen3.8-GGUF"), "qwen");
    assert_eq!(family_of("Some/Thing"), "some");
    assert_eq!(quant_token("x-Q4_K_M.gguf").as_deref(), Some("q4_k_m"));
    assert_eq!(quant_token("plain"), None);
    assert_eq!(quant_ratio("x-IQ4_XS"), 37);
    assert_eq!(quant_ratio("plain"), 50);
    assert_eq!(model_type("Mixtral-8x7B"), "moe");
    assert_eq!(model_type("Llama-3-8B"), "dense");
    assert_eq!(model_type("other"), "unknown");
}

// ---------------------------------------------------------------- opencode

#[test]
fn the_configuration_mirrors_the_canonical_model() {
    let p = Profile { alias: "qwen".into(), ..Default::default() };
    assert_eq!(deck_canonical_model(Some(&p), &vec![]), "llamacpp/qwen");
    assert_eq!(deck_canonical_model(None, &vec![p]), "llamacpp/qwen");
    assert_eq!(deck_canonical_model(None, &vec![]), "ollama/qwen3.8:27b");

    let text = r#"{"agent":{"generalist":{"model":"old","x":1.5}},"model":"old"}"#;
    let plan = sync_opencode(Some(text), "new", true, "/d/c.json", "7").unwrap();
    assert_eq!(
        plan.message,
        "deck canonical → new\nmodel: old → new\nagent.generalist.model: old → new\nwrote /d/c.json"
    );
    let content = match plan.steps.as_slice() {
        [FileStep::BackUp { path, to }, FileStep::Write { path: target, content }] => {
            assert_eq!((path.as_str(), to.as_str()), ("/d/c.json", "/d/c.json.bak.7"));
            assert_eq!(target, "/d/c.json");
            content
        }
        other => panic!("a backup and a write were expected: {other:?}"),
    };
    assert_eq!(
        content,
        "{\n  \"agent\": {\n    \"generalist\": {\n      \"model\": \"new\",\n      \"x\": 1.5\n    }\n  },\n  \"model\": \"new\",\n  \"small_model\": \"new\"\n}\n"
    );
}

#[test]
fn a_mirrored_configuration_is_left_alone() {
    let text = r#"{"model":"m","small_model":"m"}"#;
    let plan = sync_opencode(Some(text), "m", true, "/c", "7").unwrap();
    assert_eq!(plan.message, "opencode.json already mirrors deck → m (no change)");
    assert!(plan.steps.is_empty());
    let fresh = sync_opencode(None, "m", true, "/c", "7").unwrap();
    assert!(matches!(fresh.steps.as_slice(), [FileStep::Write { .. }]));
    let dry = sync_opencode(None, "m", false, "/c", "7").unwrap();
    assert!(dry.message.ends_with("\n(dry-run: add --write to write /c)"));
    assert!(dry.steps.is_empty());
    let refused = |text: &str| sync_opencode(Some(text), "m", true, "/c", "7").unwrap_err();
    assert_eq!(refused("[]"), "opencode.json is not an object");
    assert_eq!(refused("{"), "parse /c");
}

// ---------------------------------------------------------------- sessions and runs

fn sample_session(id: &str) -> Session {
    Session {
        id: id.into(),
        project_dir: "/home/deviant/Projects/cyberdeck".into(),
        agent: "opencode".into(),
        model: "qwen3.8-27b".into(),
        task: "Fix the bug in main.rs".into(),
        status: SessionStatus::Pending,
        created_at: 1_700_000_000,
        started_at: None,
        completed_at: None,
        auto_mode: true,
        ctx_size: 32768,
        exit_code: None,
        handoff_json: None,
        error_message: None,
    }
}

#[test]
fn update_session_status() {
    let conn = rusqlite::Connection::open_in_memory().unwrap();
    conn.execute_batch(
        "CREATE TABLE sessions (id TEXT PRIMARY KEY, status TEXT, started_at INTEGER,
            completed_at INTEGER, exit_code INTEGER, handoff_json TEXT, error_message TEXT);
         INSERT INTO sessions (id, status, error_message) VALUES ('sess-2', 'pending', 'old');
         INSERT INTO sessions (id, status) VALUES ('other', 'pending');",
    )
    .unwrap();
    let stmt = update_session(
        "sess-2",
        Some(SessionStatus::Running),
        Some(Some(1_700_000_005)),
        None,
        None,
        None,
        Some(None),
    )
    .unwrap();
    let values: Vec<rusqlite::types::Value> = stmt
        .params
        .iter()
        .map(|v| match v {
            SqlValue::Int(i) => rusqlite::types::Value::Integer(*i),
            SqlValue::Text(t) => rusqlite::types::Value::Text(t.clone()),
        })
        .collect();
    conn.execute(&stmt.sql, rusqlite::params_from_iter(values)).unwrap();
    let got: (String, Option<i64>, Option<String>) = conn
        .query_row(
            "SELECT status, started_at, error_message FROM sessions WHERE id = 'sess-2'",
            [],
            |r| Ok((r.get(0)?, r.get(1)?, r.get(2)?)),
        )
        .unwrap();
    assert_eq!(got, ("running".to_string(), Some(1_700_000_005), None));
    let other: String = conn
        .query_row("SELECT status FROM sessions WHERE id = 'other'", [], |r| r.get(0))
        .unwrap();
    assert_eq!(other, "pending");
    assert!(update_session("x", None, None, None, None, None, None).is_none());
}

#[test]
fn handoff_generation() {
    let mut s = sample_session("ho-1");
    s.status = SessionStatus::Complete;
    s.started_at = Some(1_700_000_010);
    s.completed_at = Some(1_700_000_060);
    s.exit_code = Some(0);
    let events = vec![SessionEvent {
        id: 0,
        session_id: "ho-1".into(),
        timestamp: 1_700_000_020,
        kind: "line".into(),
        stream: "stdout".into(),
        text: "Fixed the bug".into(),
    }];
    let h = generate_handoff(&s, &events);
    assert!(h.contains("## Objective"));
    assert!(h.contains("Fix the bug in main.rs"));
    assert!(h.contains("## Configuration"));
    assert!(h.contains("qwen3.8-27b"));
    assert!(h.contains("## Work Performed"));
    assert!(h.contains("Fixed the bug"));
    assert!(h.contains("## Status"));
    assert!(h.contains("COMPLETE"));
    assert!(h.contains("50s"));
}

#[test]
fn dates_are_those_of_the_calendar() {
    assert_eq!(format_timestamp(0), "1970-01-01 00:00:00");
    assert_eq!(format_timestamp(951_782_400), "2000-02-29 00:00:00");
    assert_eq!(format_timestamp(1_700_000_000), "2023-11-14 22:13:20");
    assert!(is_leap(2000) && !is_leap(1900) && is_leap(2024));
    assert!(SessionStatus::from_str("nonsense").is_err());
    assert_eq!(SessionStatus::from_str("running").unwrap().word(), "running");
}

#[test]
fn runs_are_listed_by_workflow() {
    let run = |id: &str, wf: &str, status: WorkflowRunStatus| WorkflowRunRow {
        id: id.into(),
        workflow_id: wf.into(),
        status,
        created_at: 1,
        updated_at: 1,
        budget_tokens: 0,
        tokens_used: 42,
        output: String::new(),
    };
    let rows = vec![
        run("r1", "coding-review", WorkflowRunStatus::Done),
        run("r2", "other", WorkflowRunStatus::Running),
    ];
    assert_eq!(list_workflow_runs(&rows, Some("coding-review")), vec![0]);
    assert_eq!(list_workflow_runs(&rows, None), vec![0, 1]);
    for s in [
        WorkflowRunStatus::Queued,
        WorkflowRunStatus::Running,
        WorkflowRunStatus::Done,
        WorkflowRunStatus::Partial,
        WorkflowRunStatus::Stopped,
        WorkflowRunStatus::Error,
    ] {
        assert_eq!(status_from_str(status_str(s)), s);
    }
    assert_eq!(status_from_str("running_done"), WorkflowRunStatus::Running);
    assert_eq!(status_from_str("nonsense"), WorkflowRunStatus::Queued);
}
