use std::cell::RefCell;

use cyberdeck::engines::backup::FileStep;
use cyberdeck::engines::autotune::{sweep_trial, SweepPoint};
use cyberdeck::engines::discover::{
    apply_engine_bin, plan_trials, protocol_for, trial_measured, TrialPlan, PROBE_TASK,
};
use cyberdeck::engines::evaluation::JsonSchema;
use cyberdeck::engines::external::{cyberdeck_units, get_exec_start, get_unit_description};
use cyberdeck::engines::grid::build_cells;
use cyberdeck::engines::health::{spawn_failed, usable_reading, version_program};
use cyberdeck::engines::inference::GenSample;
use cyberdeck::engines::install::{needed_repo, parse_btag};
use cyberdeck::engines::matrix::{cell_rows, failed_cell_rows, plan_profile, MatrixCell};
use cyberdeck::engines::rewire::rewire_clients;
use cyberdeck::engines::service_ops::{ServiceBackend, ServiceOps};
use cyberdeck::engines::systemd::{apply, backup_file, install, install_paths, Applied};
use cyberdeck::engines::unit::{args_for, child_env_for, unit_name_for};
use cyberdeck::fit::available_vram_mb;
use cyberdeck::gguf::{file_type_name, MetaValue};
use cyberdeck::library::canon;
use cyberdeck::measure::Measure;
use cyberdeck::model::{ModelFormat, ModelMeta};
use cyberdeck::params::Params;
use cyberdeck::profile::{Engine, EngineProtocol, Profile};
use cyberdeck::runtime::{
    availability_for, bare_placeholder, is_installed, placeholders, subst, InstallRecipe,
    RuntimeManifest,
};
use cyberdeck::runtime_registry::{builtin_manifests, load_custom_manifests};
use cyberdeck::store::sessions::SessionStatus;
use cyberdeck::workflow::seed_coding_review;

fn m(v: f64) -> Measure {
    Measure { bits: v.to_bits() }
}

fn f(v: Measure) -> f64 {
    f64::from_bits(v.bits)
}

fn gguf(gib: u64) -> ModelMeta {
    ModelMeta {
        path: "/models/q.gguf".into(),
        format: ModelFormat::Gguf,
        name: "qwen".into(),
        basename: None,
        arch: Some("qwen3".into()),
        quant: Some("Q4_K_M".into()),
        params: None,
        n_layers: Some(48),
        n_embd: Some(5120),
        n_head: None,
        n_head_kv: None,
        ctx_train: None,
        vocab: None,
        weight_size: gib * 1024 * 1024 * 1024,
        footprint: gib * 1024 * 1024 * 1024,
    }
}

fn sample(ok: bool, tok_s: Option<f64>) -> GenSample {
    GenSample {
        ok,
        text: "t".into(),
        prompt_tokens: Some(1),
        gen_tokens: Some(2),
        tok_s: tok_s.map(m),
        tok_s_kind: "wall".into(),
        wall_ms: 3,
        error: if ok { None } else { Some("down".into()) },
        prompt_tps: None,
        ttft_ms: None,
    }
}

fn trial() -> TrialPlan {
    TrialPlan {
        runtime_id: "llamacpp".into(),
        display: "llama.cpp".into(),
        test_port: 18999,
        profile: Profile { model: "/m.gguf".into(), ctx_size: 4096, ..Default::default() },
        label: "llama.cpp @ ctx 4096".into(),
    }
}

#[test]
fn trials_are_planned_per_runtime_and_context() {
    let ms = builtin_manifests();
    let (plans, skipped) = plan_trials(&gguf(4), &ms, None, 2, Some(16384), 16 * 1024).unwrap();
    assert!(plans.iter().all(|p| p.profile.ctx_size <= 16384));
    assert!(plans.iter().any(|p| p.runtime_id == "llamacpp"));
    assert!(plans.iter().all(|p| p.runtime_id != "ollama"));
    assert!(skipped.iter().all(|s| !s.1.is_empty()));
    let only = vec!["nope".to_string()];
    assert!(plan_trials(&gguf(4), &ms, Some(&only), 2, None, 16 * 1024).is_err());
}

#[test]
fn a_measured_trial_names_its_fastest_run() {
    let samples = vec![sample(true, Some(10.0)), sample(false, None), sample(true, Some(30.0))];
    let r = trial_measured(
        &trial(),
        &samples,
        &vec![5, 6, 7],
        &Some("31.5".into()),
        &Some("b1".into()),
    );
    assert_eq!(r.best_tps.map(f), Some(30.0));
    assert_eq!(r.boot_summary, "serving on :18999 (metrics native 31.5)");
    assert_eq!(r.rows.len(), 3);
    assert_eq!(r.rows[1].verdict, "ERROR");
    assert_eq!(r.rows[1].summary, "down");
    assert_eq!((r.rows[2].run, r.rows[2].at), (2, 7));
    assert_eq!(r.rows[0].task, PROBE_TASK);
    assert_eq!(r.rows[0].engine_version.as_deref(), Some("b1"));
}

#[test]
fn a_configured_executable_replaces_the_planned_one() {
    assert_eq!(apply_engine_bin(trial(), Some("/x".into())).profile.bin, "/x");
    assert_eq!(apply_engine_bin(trial(), None).profile.bin, trial().profile.bin);
    assert_eq!(protocol_for(&trial().profile, &builtin_manifests()), EngineProtocol::OpenAiChat);
}

#[test]
fn cells_become_rows_task_by_task() {
    let cell = MatrixCell {
        engine: Engine::LlamaCpp,
        model_id: "/m/a.gguf".into(),
        display: "a.gguf".into(),
    };
    let tasks = vec![("t1".to_string(), "p1".to_string()), ("t2".to_string(), "p2".to_string())];
    let samples = vec![
        sample(true, Some(1.0)),
        sample(true, Some(2.0)),
        sample(false, None),
        sample(true, Some(4.0)),
    ];
    let rows = cell_rows(&cell, 8192, &tasks, 2, &samples, &vec![1, 2, 3, 4]);
    let got: Vec<(&str, u32, &str)> =
        rows.iter().map(|r| (r.task.as_str(), r.run, r.verdict.as_str())).collect();
    assert_eq!(
        got,
        vec![("t1", 0, "RUNNING"), ("t1", 1, "RUNNING"), ("t2", 0, "ERROR"), ("t2", 1, "RUNNING")]
    );
    assert_eq!(rows[3].at, 4);
    assert_eq!(rows[0].engine, "llamacpp");
    assert_eq!(rows[0].model, "a.gguf");
    let failed = failed_cell_rows(&cell, 0, &tasks, "OOM", "no memory", 9);
    assert_eq!(failed.len(), 2);
    assert_eq!((failed[1].task.as_str(), failed[1].verdict.as_str()), ("t2", "OOM"));
}

#[test]
fn a_cell_is_launched_from_its_loadout_or_as_a_daemon() {
    let local = MatrixCell {
        engine: Engine::LlamaCpp,
        model_id: "/m/a.gguf".into(),
        display: "a.gguf".into(),
    };
    let bins = vec![(Engine::LlamaCpp, "/mine".to_string())];
    assert_eq!(plan_profile(&local, &bins, Ok(Profile::default())).unwrap().bin, "/mine");
    assert_eq!(
        plan_profile(&local, &bins, Err("no fit".into())).unwrap_err(),
        "derive failed for a.gguf: no fit"
    );
    let daemon = MatrixCell {
        engine: Engine::Ollama,
        model_id: "qwen:7b".into(),
        display: "qwen:7b".into(),
    };
    let p = plan_profile(&daemon, &bins, Err("unused".into())).unwrap();
    assert_eq!((p.bin.as_str(), p.model.as_str(), p.alias.as_str()), ("ollama", "qwen:7b", "qwen:7b"));
}

#[test]
fn a_grid_crosses_files_with_local_engines() {
    let files = vec!["/m/b.gguf".to_string(), "/m/a.gguf".to_string()];
    let cells = build_cells(
        "/m",
        Some(&files),
        &vec![Engine::LlamaCpp],
        &vec!["qwen:7b".to_string()],
    )
    .unwrap();
    let got: Vec<(&str, Engine)> = cells.iter().map(|c| (c.display.as_str(), c.engine)).collect();
    assert_eq!(
        got,
        vec![
            ("a.gguf", Engine::LlamaCpp),
            ("b.gguf", Engine::LlamaCpp),
            ("qwen:7b", Engine::Ollama),
        ]
    );
    assert!(build_cells("/m", Some(&files), &vec![Engine::Ollama], &vec![]).is_err());
    assert!(build_cells("/m/x.bin", None, &vec![Engine::LlamaCpp], &vec![]).is_err());
}

#[test]
fn a_sweep_records_what_ran_and_what_failed() {
    let pt = SweepPoint { ctx: 1, ngl: 2, ubatch: 3 };
    let ran = sweep_trial(pt, 9, Ok(Some(m(5.0))));
    assert_eq!((ran.verdict.as_str(), ran.tok_s.map(f)), ("RAN", Some(5.0)));
    let failed = sweep_trial(pt, 9, Err(("OOM".into(), "full".into())));
    assert_eq!((failed.verdict.as_str(), failed.error.as_deref()), ("OOM", Some("full")));
}

#[test]
fn unit_properties_are_read() {
    assert_eq!(
        get_exec_start("{ path=/bin/foo ; argv[]=/bin/foo -m a ; ignore_errors=no }\n"),
        "/bin/foo -m a"
    );
    assert_eq!(get_exec_start("\"/bin/foo -x\""), "/bin/foo -x");
    assert_eq!(get_exec_start("/bin/foo"), "/bin/foo");
    assert_eq!(get_unit_description(" Mine \n").as_deref(), Some("Mine"));
    assert_eq!(get_unit_description("\n"), None);
    assert!(cyberdeck_units().contains(&"llama-server.service"));
}

#[test]
fn clients_and_backups_have_their_places() {
    let targets = rewire_clients("/home/u");
    assert_eq!(targets[0].path, "/home/u/.dsh/settings.yaml");
    assert_eq!(targets[1].path, "/home/u/.config/opencode/opencode.json");
    assert_eq!(backup_file("/a/settings.yaml", "7"), "/a/settings.yaml.bak.7");
}

#[test]
fn an_install_writes_unit_copy_and_drop_in() {
    let p = Profile { name: "q".into(), ..Default::default() };
    let steps = |there: &[&str]| {
        let there: Vec<String> = there.iter().map(|t| t.to_string()).collect();
        install(&p, &builtin_manifests(), "/u", "/g", &there, "7")
    };
    let shown = |v: &[FileStep]| -> Vec<String> {
        v.iter()
            .map(|s| match s {
                FileStep::BackUp { path, to } => format!("{path} -> {to}"),
                FileStep::Write { path, .. } => path.clone(),
            })
            .collect()
    };
    let paths =
        vec!["/u/llama-server.service", "/g/llama-server.service", "/u/llama-server.d/memlock.conf"];
    assert_eq!(shown(&steps(&[])), paths);
    assert_eq!(install_paths(&p, "/u", "/g"), paths);
    assert_eq!(
        shown(&steps(&["/u/llama-server.service", "/u/llama-server.d/memlock.conf"])),
        vec![
            "/u/llama-server.service -> /u/llama-server.service.bak.7",
            "/u/llama-server.service",
            "/g/llama-server.service",
            "/u/llama-server.d/memlock.conf -> /u/llama-server.d/memlock.conf.bak.7",
            "/u/llama-server.d/memlock.conf",
        ],
        "what is there is kept before it is written over"
    );
    let written: Vec<String> = steps(&[])
        .into_iter()
        .filter_map(|s| match s {
            FileStep::Write { content, .. } => Some(content),
            FileStep::BackUp { .. } => None,
        })
        .collect();
    assert_eq!(written[0], written[1]);
    assert_eq!(unit_name_for(&p, &builtin_manifests()), "llama-server.service");
}

struct Services<'a> {
    log: &'a RefCell<Vec<String>>,
    serves_below: u32,
    last_ctx: RefCell<u32>,
    had_unit: bool,
    broken: bool,
}

impl ServiceBackend for Services<'_> {
    fn install(&self, p: &Profile) -> Result<(), String> {
        self.log.borrow_mut().push(format!("install:{}", p.ctx_size));
        *self.last_ctx.borrow_mut() = p.ctx_size;
        if self.broken {
            Err("disk full".into())
        } else {
            Ok(())
        }
    }
    fn unit_files(&self) -> Vec<String> {
        self.log.borrow_mut().push("files".into());
        // Each install leaves a backup of the unit that it replaced.
        let installs = self.log.borrow().iter().filter(|l| l.starts_with("install")).count();
        let first = if self.had_unit { 1 } else { 2 };
        (first..=installs).map(|k| format!("/u/llama-server.service.bak.{k}")).collect()
    }
    fn start(&self, unit: &str) -> Result<(), String> {
        self.log.borrow_mut().push(format!("start:{unit}"));
        Ok(())
    }
    fn healthy(&self, _host: &str, _port: u16) -> bool {
        *self.last_ctx.borrow() < self.serves_below
    }
    fn restore(&self, backup: &str, unit: &str) -> bool {
        self.log.borrow_mut().push(format!("restore:{backup}:{unit}"));
        true
    }
}

fn services(log: &RefCell<Vec<String>>, serves_below: u32, had_unit: bool) -> Services<'_> {
    Services { log, serves_below, last_ctx: RefCell::new(0), had_unit, broken: false }
}

#[test]
fn applying_walks_the_ladder_then_restores() {
    let p = Profile { ctx_size: 65536, ctx_ladder: vec![49152, 32768], ..Default::default() };
    let run = |s: Services, dry_run: bool| apply(&p, dry_run, &mut ServiceOps::new(s));
    let log = RefCell::new(Vec::new());
    assert_eq!(run(services(&log, 40000, true), false), Ok(Applied::Serving { ctx: 32768 }));
    assert_eq!(log.borrow().iter().filter(|l| l.starts_with("install")).count(), 3);

    let log = RefCell::new(Vec::new());
    assert_eq!(run(services(&log, 0, true), false), Ok(Applied::Restored));
    let start = "start:llama-server.service";
    assert_eq!(
        *log.borrow(),
        vec![
            "install:65536",
            "files",
            start,
            "install:49152",
            start,
            "install:32768",
            start,
            "restore:/u/llama-server.service.bak.1:llama-server.service",
            start,
        ],
        "the unit that was there before comes back, not that of a failed attempt"
    );

    let log = RefCell::new(Vec::new());
    assert_eq!(run(services(&log, 0, false), false), Ok(Applied::Lost));

    let log = RefCell::new(Vec::new());
    assert_eq!(run(services(&log, 0, false), true), Ok(Applied::DryRun));
    assert!(log.borrow().is_empty());

    let log = RefCell::new(Vec::new());
    let broken = Services { broken: true, ..services(&log, 0, false) };
    assert_eq!(run(broken, false), Err("disk full".to_string()));
}

#[test]
fn a_daemon_gets_its_address_from_the_environment() {
    let p = Profile {
        engine: Engine::Ollama,
        host: "127.0.0.1".into(),
        port: 18997,
        ..Default::default()
    };
    let env = child_env_for(&p, &builtin_manifests());
    assert!(env.contains(&("OLLAMA_HOST".to_string(), "127.0.0.1:18997".to_string())));
    assert_eq!(args_for(&p, &builtin_manifests()), vec!["serve"]);
}

#[test]
fn memory_is_what_the_driver_reports() {
    assert_eq!(available_vram_mb(Some("16303\n"), 1), 16303);
    assert_eq!(available_vram_mb(Some("none"), 1), 1);
    assert_eq!(available_vram_mb(None, 7), 7);
}

fn custom(id: &str, install: Option<InstallRecipe>) -> RuntimeManifest {
    RuntimeManifest {
        id: id.into(),
        display: id.into(),
        version: None,
        formats: vec![],
        architectures: vec![],
        capabilities: vec![],
        model_source: Default::default(),
        protocol: Default::default(),
        default_port: 1,
        test_port: 2,
        unit_name: String::new(),
        is_system_service: false,
        status: Default::default(),
        bin_candidates: vec!["srv".into()],
        configuration: vec![],
        argv_template: vec![],
        env: Params::new(),
        install,
    }
}

#[test]
fn customs_never_shadow_a_builtin() {
    let all = vec![custom("zeta", None), custom("llamacpp", None), custom("alpha", None)];
    let ids: Vec<String> = load_custom_manifests(&all).into_iter().map(|c| c.id).collect();
    assert_eq!(ids, vec!["alpha", "zeta"]);
}

#[test]
fn a_runtime_is_installed_where_its_program_is() {
    let dirs = vec!["/bin".to_string()];
    let files = vec!["/bin/srv".to_string()];
    let c = custom("c", None);
    let a = availability_for(&c, None, &dirs, &files);
    assert_eq!((a.installed, a.bin.as_deref()), (true, Some("/bin/srv")));
    assert!(!is_installed(&c.bin_candidates, &dirs, None, &vec![]));
    assert_eq!(needed_repo(&c), None);
    let gh = custom(
        "g",
        Some(InstallRecipe::GithubRelease {
            repo: "o/r".into(),
            asset_pattern: "x".into(),
            unpack: None,
            bin_path: "b".into(),
            tag: None,
            sha256: None,
        }),
    );
    assert_eq!(needed_repo(&gh), Some("o/r"));
    assert_eq!(parse_btag("b12"), Some(12));
    assert_eq!(parse_btag("v12"), None);
}

#[test]
fn templates_are_filled_in() {
    let vals = Params::from_pairs(&vec![("a".to_string(), "1".to_string())]);
    assert_eq!(subst("x{a}y", &vals), "x1y");
    assert_eq!(placeholders("{a}-{b}"), vec!["a", "b"]);
    assert_eq!(bare_placeholder("{a}").as_deref(), Some("a"));
    assert_eq!(bare_placeholder("{host}:{port}"), None);
    let mut m = custom("c", None);
    m.argv_template = vec!["--addr".into(), "{host}:{port}".into(), "--k".into(), "{none}".into()];
    assert_eq!(m.render_argv("/m", "h", 1, 2, "a", &Params::new()), vec!["--addr", "h:1"]);
    assert_eq!(vals.get("a"), Some("1"));
    let mut over = vals.copy();
    over.set("a", "2");
    over.set("0", "3");
    assert_eq!(over.entry(0), ("0", "3"));
    assert_eq!(over.get("a"), Some("2"));
}

#[test]
fn small_words_and_labels() {
    assert_eq!(version_program(Engine::FreeToken), "ft");
    assert_eq!(
        spawn_failed("/b", "no such file"),
        ("ERROR".to_string(), "failed to spawn /b: no such file".to_string())
    );
    assert_eq!(usable_reading(Some(m(0.0))), None);
    assert_eq!(canon("/a", Some("/b")), "/b");
    assert_eq!(canon("/a", None), "/a");
    assert_eq!(SessionStatus::of_row("nonsense"), SessionStatus::Error);
    assert_eq!(seed_coding_review().nodes[0].kind_label(), "agentic");
    assert_eq!(MetaValue::Bool(true).kind_name(), "bool");
    assert_eq!(file_type_name(15), "Q4_K_M");
    for e in Engine::all() {
        assert_eq!(Engine::parse(e.store_id()), Some(e));
        assert_ne!(e.default_port(), e.test_port());
    }
}

#[test]
fn doubles_are_truncated_as_casts_are() {
    for v in [0.0, 0.9, 1.0, 2048.9, 4503599627370497.0, 1e18, 1.8446744073709552e19, 1e300, -3.0] {
        assert_eq!(m(v).truncate(), v as u64, "{v}");
    }
    assert_eq!(m(f64::NAN).truncate(), 0);
    assert_eq!(m(f64::INFINITY).truncate(), u64::MAX);
    assert!(m(1.0).is_below(m(2.0)) && !m(f64::NAN).is_below(m(2.0)));
    assert!(m(-0.0).is_totally_below(m(0.0)));
}

#[test]
fn a_schema_is_shown_in_compact_form() {
    let e = JsonSchema { schema: "{ \"required\" : [ \"a\" ] }".into() };
    assert_eq!(
        e.evaluate("{\"a\":1}", 1, 0).unwrap().details_json,
        "{\"schema\":{\"required\":[\"a\"]},\"valid\":true}"
    );
}
