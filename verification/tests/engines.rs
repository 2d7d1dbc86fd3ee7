use std::cell::RefCell;
use std::collections::{HashMap, HashSet};
use std::sync::atomic::AtomicBool;

use cyberdeck::engines::autotune::{best_trial, sweep, AutotuneParams};
use cyberdeck::engines::backup::FileStep;
use cyberdeck::engines::boots::{Booter, Boots};
use cyberdeck::engines::compare::{
    blind_candidates, report_from_rows, CompareReport, Means,
};
use cyberdeck::engines::discover::{
    summarize, trial_failed, trial_points, TrialPlan, TrialResult, PROBE_TASK,
};
use cyberdeck::engines::evaluation::{
    evaluator_for, AnyEvaluator, Exact, JsonSchema, LexicalPlaceholder, LmEval, RegexEval,
};
use cyberdeck::engines::external::{external_service, external_units, extract_arg};
use cyberdeck::engines::grid::{parse_tasks, quant_files, resolve_bins};
use cyberdeck::engines::health::{
    judge_boot, liveness_urls, logs_oom, measured_rate, parse_tps, verify_on_test_port,
    version_in_metrics, BootVerdict, BringupOutcome,
};
use cyberdeck::engines::inference::{
    detect_engine_version, prompt_request, read_answer, sample_failed, version_in_answer, Rate,
    Reading,
};
use cyberdeck::engines::install::{
    execute as install_steps, filename_of, is_newer, latest_matching_tag, pick_asset,
    resolve_recipe, substitute_tag, unpack_mode, verify_sha256, GhAsset, GhRelease, InstallPlan,
    InstallStep, Resolved, Unpack,
};
use cyberdeck::engines::rewire::{
    rewire_file, rewire_written, set_port_in_block, ClientFile, Rewire,
};
use cyberdeck::engines::runner::{
    build_prompt, node_to_matrix_row, AgenticRunner, EchoRunner as Echo, StatelessRunner,
};
use cyberdeck::engines::scoring::{quality, shuffled_indices};
use cyberdeck::engines::status::{probe_slot, unit_active};
use cyberdeck::engines::swap::swap_with;
use cyberdeck::engines::swap_ops::{SwapBackend, SwapOps};
use cyberdeck::engines::systemd::{backup_existing, install, restore_last_good};
use cyberdeck::engines::turns::Turns;
use cyberdeck::engines::unit::{build_args, render_unit, shell_join};
use cyberdeck::engines::unmanaged::{
    check_stoppable, extract_systemd_unit, is_systemd_managed, process_on_line, stop_by,
    unmanaged_process, StopBy,
};
use cyberdeck::engines::workflow::{
    execute, execute_until, run_pass, Ledger, NodeOutcome, NodeResult, NodeRunner, StopSignal,
};
use cyberdeck::measure::Measure;
use cyberdeck::profile::{Engine, EngineProtocol, Profile};
use cyberdeck::runtime::{InstallRecipe, RuntimeManifest};
use cyberdeck::runtime_registry::builtin_manifests;
use cyberdeck::store::bench::MatrixRow;
use cyberdeck::workflow::{
    plan, seed_coding_review, seed_coding_review_roles, EdgePredicate, ExecSettings, Message,
    MessageKind, ModelBinding, NodeExec, NodeKind, NodePos, Workflow, WorkflowEdge, WorkflowNode,
    WorkflowRunStatus,
};

fn m(v: f64) -> Measure {
    Measure { bits: v.to_bits() }
}

fn f(v: Measure) -> f64 {
    f64::from_bits(v.bits)
}

// ---------------------------------------------------------------- arguments

#[test]
fn extract_port_from_exec() {
    let cmd = "/opt/llama/bin/llama-server -m /models/test.gguf --port 18999 -ngl 99";
    assert_eq!(extract_arg(cmd, "--port"), Some("18999".into()));
}

#[test]
fn extract_model_short_flag() {
    let cmd = "/opt/llama/bin/llama-server -m /models/test.gguf --port 18999";
    assert_eq!(extract_arg(cmd, "-m"), Some("/models/test.gguf".into()));
}

#[test]
fn extract_model_equals_form() {
    let cmd = "/opt/llama/bin/llama-server --model=/tmp/model.gguf -ngl 64";
    assert_eq!(extract_arg(cmd, "--model"), Some("/tmp/model.gguf".into()));
}

#[test]
fn extract_port_long_form() {
    assert_eq!(extract_arg("llama-server --port 18000", "--port"), Some("18000".into()));
}

#[test]
fn extract_port_equals() {
    assert_eq!(extract_arg("llama-server --port=18999 -t 8", "--port"), Some("18999".into()));
}

#[test]
fn extract_model_short() {
    assert_eq!(
        extract_arg("llama-server -m /path/to/model.gguf", "-m"),
        Some("/path/to/model.gguf".into())
    );
}

#[test]
fn extract_missing() {
    assert_eq!(extract_arg("llama-server -t 8", "--port"), None);
}

#[test]
fn a_flag_is_a_word_of_its_own() {
    let cmd = "llama-server --model /x.gguf --port 1";
    assert_eq!(extract_arg(cmd, "-m"), None);
    assert_eq!(extract_arg(cmd, "--model"), Some("/x.gguf".into()));
    assert_eq!(extract_arg("srv --port-range=1 --port=2", "--port"), Some("2".into()));
    assert_eq!(extract_arg("srv --port -v", "--port"), None);
}

#[test]
fn a_foreign_unit_shows_its_model_and_port() {
    let cmd = "/opt/llama/bin/llama-server -m /models/test.gguf --port 18999";
    let s = external_service("mine.service", cmd, true, Some("Mine".into())).unwrap();
    assert_eq!(s.model.as_deref(), Some("/models/test.gguf"));
    assert_eq!(s.port, Some(18999));
    assert!(s.active);
    assert!(external_units("").is_empty());
}

#[test]
fn processes_are_found_and_stopped_by_their_unit() {
    let unit = "0::/user.slice/user-1000.slice/user@1000.service/app.slice/mine.service";
    assert_eq!(extract_systemd_unit(unit).as_deref(), Some("mine.service"));
    assert!(matches!(stop_by(Some(unit), false), StopBy::Unit(u) if u == "mine.service"));
    assert!(matches!(stop_by(Some(unit), true), StopBy::Signal));
    assert!(matches!(stop_by(None, false), StopBy::Signal));
    assert!(!is_systemd_managed(None));
    assert!(is_systemd_managed(Some("1:x:/\n0::/user.slice/app.slice/llama-server.service\n")));
    assert!(!is_systemd_managed(Some("0::/user.slice/app.slice/my-llama-server.service\n")));
    assert_eq!(extract_systemd_unit("0::/system.slice/mine.service"), None);
    let (pid, cmd) = process_on_line("1234 llama-server -m /m/a.gguf --port 9000").unwrap();
    assert_eq!(pid, 1234);
    let p = unmanaged_process(pid, &cmd, None).unwrap();
    assert_eq!(p.port, Some(9000));
    assert_eq!(p.model.as_deref(), Some("/m/a.gguf"));
    assert!(check_stoppable(1234, None).is_err());
}

// ---------------------------------------------------------------- installs

#[test]
fn asset_pick_is_case_insensitive_first_match() {
    let assets = vec![
        GhAsset { name: "foo-bin-linux-cuda.tar.gz".into(), browser_download_url: "".into() },
        GhAsset {
            name: "foo-bin-Ubuntu-x64.zip".into(),
            browser_download_url: "https://x/u.zip".into(),
        },
    ];
    // Empty URL never wins, even on name match.
    assert!(pick_asset(&assets[..1].to_vec(), "cuda").is_none());
    let got = pick_asset(&assets, "UBUNTU-x64").unwrap();
    assert_eq!(got.browser_download_url, "https://x/u.zip");
    assert!(pick_asset(&assets, "macos").is_none());
}

#[test]
fn unpack_mode_guesses_from_filename() {
    assert_eq!(unpack_mode(None, "a.zip"), Unpack::Zip);
    assert_eq!(unpack_mode(None, "a.tar.gz"), Unpack::TarGz);
    assert_eq!(unpack_mode(None, "a.tgz"), Unpack::TarGz);
    assert_eq!(unpack_mode(None, "llama-server"), Unpack::Plain);
    assert_eq!(unpack_mode(Some("none"), "a.zip"), Unpack::Plain);
}

#[test]
fn newer_compares_btags_numerically_and_falls_back_to_change() {
    assert!(is_newer("b10931", "b10930"));
    assert!(!is_newer("b10930", "b10930"));
    assert!(!is_newer("b10929", "b10930"));
    assert!(is_newer("v2", "v1"));
    assert!(!is_newer("v1", "v1"));
    // Mixed schemes: any difference means changed.
    assert!(is_newer("b10930", "v1"));
}

#[test]
fn bin_path_tag_substitution_tracks_releases() {
    assert_eq!(
        substitute_tag("llama-{tag}/llama-server", "b10930"),
        "llama-b10930/llama-server"
    );
    assert_eq!(substitute_tag("bin/srv", "b1"), "bin/srv");
}

fn bare_manifest(recipe: Option<InstallRecipe>) -> RuntimeManifest {
    RuntimeManifest {
        id: "x".into(),
        display: "X".into(),
        version: None,
        formats: vec![],
        architectures: vec![],
        capabilities: vec![],
        model_source: Default::default(),
        protocol: Default::default(),
        default_port: 1,
        test_port: 2,
        unit_name: "x.service".into(),
        is_system_service: false,
        status: Default::default(),
        bin_candidates: vec![],
        configuration: vec![],
        argv_template: vec![],
        env: Default::default(),
        install: recipe,
    }
}

#[test]
fn manual_recipe_resolves_to_guidance_not_a_download() {
    let mf = bare_manifest(Some(InstallRecipe::Manual {
        url: "https://example.com".into(),
        instructions: "pip install x".into(),
    }));
    match resolve_recipe(&mf, None, &vec![]).unwrap() {
        Resolved::Manual { url, .. } => assert_eq!(url, "https://example.com"),
        Resolved::Download(_) => panic!("manual must not download"),
    }
}

#[test]
fn a_manifest_without_a_recipe_cannot_be_installed() {
    assert!(resolve_recipe(&bare_manifest(None), None, &vec![]).is_err());
    let mf = bare_manifest(Some(InstallRecipe::Url {
        url: "https://x/a.zip?token=1".into(),
        filename: None,
        unpack: None,
        bin_path: "bin/srv".into(),
        sha256: None,
    }));
    match resolve_recipe(&mf, None, &vec![]).unwrap() {
        Resolved::Download(p) => {
            assert_eq!((p.filename.as_str(), p.unpack), ("a.zip", Unpack::Zip));
            assert_eq!((p.url.as_str(), p.bin_path.as_str()), ("https://x/a.zip?token=1", "bin/srv"));
        }
        Resolved::Manual { .. } => panic!("a download was expected"),
    }
}

#[test]
fn a_download_takes_its_name_from_the_address() {
    assert_eq!(filename_of("https://h/a/b.zip", None), "b.zip");
    assert_eq!(filename_of("https://h/a/b.zip", Some("c.zip")), "c.zip");
}

#[test]
fn the_newest_release_with_the_asset_counts() {
    let with = |tag: &str, asset: &str| GhRelease {
        tag_name: tag.into(),
        assets: vec![GhAsset { name: asset.into(), browser_download_url: "https://x/a".into() }],
    };
    let rs = vec![with("b3", "mac.zip"), with("b2", "linux.zip"), with("b1", "linux.zip")];
    assert_eq!(latest_matching_tag(&rs, "o/r", "LINUX").unwrap(), "b2");
    assert!(latest_matching_tag(&rs, "o/r", "windows").is_err());
}

#[test]
fn sha256_mismatch_refuses_the_bytes() {
    let sum = "e3b0c44298fc1c149afbf4c8996fb92427ae41e4649b934ca495991b7852b855";
    let report = format!("{sum}  file.zip\n");
    assert!(verify_sha256("file.zip", &report, sum).is_ok());
    assert!(verify_sha256("file.zip", &report, &sum.to_uppercase()).is_ok());
    assert!(verify_sha256("file.zip", &report, "00").is_err());
}

#[test]
fn bytes_are_checked_before_they_are_unpacked() {
    let plan = InstallPlan {
        url: "https://h/a.zip".into(),
        filename: "a.zip".into(),
        unpack: Unpack::Zip,
        bin_path: "bin/srv".into(),
        sha256: Some("abc".into()),
        version: "b1".into(),
    };
    let (steps, bin) = install_steps(&plan, "/opt/x");
    assert_eq!(bin, "/opt/x/bin/srv");
    let check = steps.iter().position(|s| matches!(s, InstallStep::CheckSum { .. })).unwrap();
    let unpack = steps
        .iter()
        .position(|s| matches!(s, InstallStep::Run(p, _) if p.contains("zip")))
        .unwrap();
    assert!(check < unpack);
}

#[test]
fn a_file_that_is_the_binary_stays_where_it_is() {
    let plan = |bin_path: &str| InstallPlan {
        url: "https://h/srv".into(),
        filename: "srv".into(),
        unpack: Unpack::Plain,
        bin_path: bin_path.into(),
        sha256: None,
        version: "b1".into(),
    };
    let renames = |bin_path: &str| {
        let (steps, _) = install_steps(&plan(bin_path), "/opt/x");
        steps.iter().filter(|s| matches!(s, InstallStep::Rename { .. })).count()
    };
    assert_eq!(renames("srv"), 0);
    assert_eq!(renames("./srv"), 0, "paths are compared step by step");
    assert_eq!(renames(".//srv"), 0);
    assert_eq!(renames("bin/srv"), 1);
    assert_eq!(renames("../srv"), 1);
}

// ---------------------------------------------------------------- rewiring

#[test]
fn rewrites_scoped_port() {
    let text = r#"provider:
  llamacpp:
    baseURL: http://127.0.0.1:18000/v1
  freetoken:
    baseURL: http://127.0.0.1:1919/v1
"#;
    let out = set_port_in_block(text, 9999, "llamacpp:", true).unwrap();
    // llamacpp block changed, freetoken untouched
    assert!(out.contains("http://127.0.0.1:9999/v1"));
    assert!(out.contains("http://127.0.0.1:1919/v1"));
    assert_eq!(out.matches("9999").count(), 1);
    // Rewriting again changes nothing.
    let again = set_port_in_block(&out, 9999, "llamacpp:", true);
    assert!(again.is_none() || again.as_deref() == Some(out.as_str()));
}

#[test]
fn no_anchor_means_no_change() {
    let text = "baseURL: http://127.0.0.1:18000/v1";
    assert!(set_port_in_block(text, 1919, "llamacpp:", true).is_none());
}

#[test]
fn client_files_are_left_or_written() {
    assert!(matches!(
        rewire_file("oc", "/c", 1, "llamacpp:", ClientFile::Missing, "7"),
        Rewire::Leave(_)
    ));
    assert!(matches!(
        rewire_file("oc", "/c", 1, "llamacpp:", ClientFile::Unreadable("denied".into()), "7"),
        Rewire::Leave(_)
    ));
    let text = "llamacpp:\n  baseURL: http://127.0.0.1:18000/v1\n".to_string();
    match rewire_file("oc", "/d/c.json", 7777, "llamacpp:", ClientFile::Text(text), "7") {
        Rewire::Write(steps) => match steps.as_slice() {
            [FileStep::BackUp { path, to }, FileStep::Write { path: target, content }] => {
                assert_eq!((path.as_str(), to.as_str()), ("/d/c.json", "/d/c.json.bak.7"));
                assert_eq!(target, "/d/c.json");
                assert!(content.contains("127.0.0.1:7777"));
            }
            other => panic!("a backup and a write were expected: {other:?}"),
        },
        Rewire::Leave(r) => panic!("should be written: {}", r.status),
    }
    assert_ne!(
        rewire_written("oc", "/c", 1, &None).status,
        rewire_written("oc", "/c", 1, &Some("full".into())).status
    );
}

// ---------------------------------------------------------------- scoring

/// The score of a text, from what the scorecard counts.
fn quality_of(text: &str) -> f64 {
    let l = quality(text);
    if l.tokens < 4 {
        return 0.0;
    }
    0.25 * (l.unique as f64 / l.tokens as f64) + 0.75 * (l.singles as f64 / l.pairs as f64)
}

#[test]
fn degenerate_output_scores_zero() {
    assert_eq!(quality_of(""), 0.0);
    assert_eq!(quality_of("yes"), 0.0);
    assert_eq!(quality_of("yes yes"), 0.0);
    assert!(quality_of("yes yes yes yes yes yes") < 0.05);
}

#[test]
fn varied_output_scores_higher_than_repetitive() {
    let varied =
        "The quick brown fox jumps over the lazy dog and keeps running south into the marsh.";
    let repetitive = "red red red red red red red red red red red red";
    assert!(quality_of(varied) > quality_of(repetitive));
}

#[test]
fn a_lexicon_counts_words_and_pairs() {
    let l = quality("a b a b c");
    assert_eq!((l.tokens, l.unique, l.pairs, l.singles), (5, 3, 3, 2));
}

#[test]
fn seeds_permute_and_are_bijective() {
    let a = shuffled_indices(6, 1);
    let b = shuffled_indices(6, 2);
    assert_ne!(a, b);
    let mut sorted = a.clone();
    sorted.sort();
    assert_eq!(sorted, vec![0, 1, 2, 3, 4, 5]);
}

fn matrix_row(
    model: &str,
    task: &str,
    run: u32,
    ok: bool,
    tok_s: Option<f64>,
    output: &str,
) -> MatrixRow {
    MatrixRow {
        engine: "llamacpp".into(),
        model: model.into(),
        ctx: 8192,
        task: task.into(),
        run,
        verdict: if ok { "RUNNING".into() } else { "ERROR".into() },
        summary: String::new(),
        gen_tokens: if ok { Some(10) } else { None },
        prompt_tokens: if ok { Some(20) } else { None },
        tok_s: tok_s.map(m),
        tok_s_kind: "native".into(),
        wall_ms: 100,
        output: output.into(),
        at: 0,
        workload_id: None,
        hardware_profile_id: None,
        engine_version: None,
        prompt_tps: None,
        ttft_ms: None,
        peak_vram_mb: None,
        model_rev: None,
        sampling_json: None,
        role_id: None,
        workflow_id: None,
    }
}

fn report(rows: Vec<MatrixRow>, seed: u64) -> CompareReport {
    let mut task_max: HashMap<String, f64> = HashMap::new();
    for r in &rows {
        if let Some(t) = r.tok_s {
            let e = task_max.entry(r.task.clone()).or_insert(0.0);
            *e = e.max(f(t));
        }
    }
    let scores: Vec<f64> = rows
        .iter()
        .map(|r| {
            if r.verdict != "RUNNING" {
                return 0.0;
            }
            let top = task_max.get(&r.task).copied().unwrap_or(0.0);
            let speed = match r.tok_s.map(f) {
                Some(t) if t > 0.0 && top > 0.0 => (t / top).min(1.0),
                _ => 0.0,
            };
            0.6 * quality_of(&r.output) + 0.4 * speed
        })
        .collect();
    let means: Vec<Means> = blind_candidates(&rows, seed)
        .iter()
        .map(|c| {
            let total: f64 = c.rows.iter().map(|i| scores[*i]).sum();
            let mean = total / c.rows.len() as f64;
            let speed: f64 = c
                .rows
                .iter()
                .filter(|i| rows[**i].verdict == "RUNNING")
                .filter_map(|i| rows[*i].tok_s.map(f))
                .sum();
            let tok_s = speed / c.ok_runs as f64;
            Means {
                score: m(mean),
                score_text: format!("{mean:.3}"),
                tok_s: m(tok_s),
                tok_s_text: format!("{tok_s:.1}"),
            }
        })
        .collect();
    let bits: Vec<Measure> = scores.into_iter().map(m).collect();
    report_from_rows(&rows, seed, &bits, &means)
}

#[test]
fn report_blinds_order_and_picks_better_candidate() {
    let rows = vec![
        matrix_row(
            "good-Q4",
            "greet",
            0,
            true,
            Some(20.0),
            "A clear and varied response with structure and detail for the reader.",
        ),
        matrix_row(
            "good-Q4",
            "greet",
            1,
            true,
            Some(19.0),
            "A second clear response, equally varied and informative for the reader.",
        ),
        matrix_row(
            "loop-Q8",
            "greet",
            0,
            true,
            Some(40.0),
            "yes yes yes yes yes yes yes yes yes yes yes yes yes yes",
        ),
        matrix_row(
            "loop-Q8",
            "greet",
            1,
            true,
            Some(38.0),
            "no no no no no no no no no no no no no no no no no",
        ),
    ];
    let report = report(rows, 7);
    assert_eq!(report.candidates.len(), 2);
    assert_eq!(report.trials.len(), 4);
    let ids: HashSet<&str> = report.candidates.iter().map(|c| c.trial.as_str()).collect();
    assert_eq!(ids.len(), 2, "opaque ids must be unique");
    let winner =
        report.candidates.iter().find(|c| c.verdict.as_deref() == Some("BEST")).unwrap();
    assert_eq!(winner.model, "good-Q4", "quality must outrank raw speed");
    assert!(report.verdict.contains(&winner.trial));
    assert_eq!(report.tasks, vec!["greet"]);
}

#[test]
fn failed_trials_score_zero_and_surface_the_cause() {
    let rows = vec![
        matrix_row(
            "a",
            "greet",
            0,
            true,
            Some(10.0),
            "A distinctly worded and varied sentence for the purpose of this test.",
        ),
        MatrixRow {
            summary: "engine exited early with status exit status: 1".into(),
            ..matrix_row("b", "greet", 0, false, None, "")
        },
        MatrixRow {
            summary: "engine exited early with status exit status: 1".into(),
            ..matrix_row("b", "greet", 1, false, None, "")
        },
    ];
    let report = report(rows, 1);
    let b = report.candidates.iter().find(|c| c.model == "b").unwrap();
    assert_eq!(b.ok_runs, 0);
    assert_eq!(f(b.mean_score), 0.0);
    assert_eq!(
        b.failure.as_deref(),
        Some("ERROR: engine exited early with status exit status: 1")
    );
    let a = report.candidates.iter().find(|c| c.model == "a").unwrap();
    assert_eq!(a.failure, None);
    let zero = report.trials.iter().filter(|t| !t.ok).collect::<Vec<_>>();
    assert_eq!(zero.len(), 2);
    assert_eq!(f(zero[0].score), 0.0);
    assert_eq!(
        zero[0].error.as_deref(),
        Some("engine exited early with status exit status: 1")
    );
}

#[test]
fn same_inputs_same_seed_rerun_is_identical() {
    let rows = vec![
        matrix_row(
            "a",
            "greet",
            0,
            true,
            Some(10.0),
            "Distinct and varied prose for this test.",
        ),
        matrix_row(
            "b",
            "greet",
            0,
            true,
            Some(20.0),
            "Equally distinct and varied prose, longer.",
        ),
        matrix_row(
            "c",
            "greet",
            0,
            true,
            Some(30.0),
            "Third candidate with its own varied sentence.",
        ),
    ];
    let r1 = report(rows.clone(), 99);
    let r2 = report(rows, 99);
    let ids1: Vec<(&str, &str)> =
        r1.candidates.iter().map(|c| (c.trial.as_str(), c.model.as_str())).collect();
    let ids2: Vec<(&str, &str)> =
        r2.candidates.iter().map(|c| (c.trial.as_str(), c.model.as_str())).collect();
    assert_eq!(ids1, ids2);
}

#[test]
fn nothing_to_compare_is_said() {
    assert_eq!(report(vec![], 1).verdict, "no trials to compare");
}

// ---------------------------------------------------------------- discovery

#[test]
fn boot_failure_records_a_row_and_never_samples() {
    let p = Profile {
        engine: Engine::LlamaCpp,
        bin: "/nonexistent-llama-server-xyz".into(),
        model: "/x.gguf".into(),
        port: 38991,
        ctx_size: 2048,
        ..Default::default()
    };
    let plan = TrialPlan {
        runtime_id: "llamacpp".into(),
        display: "llama.cpp".into(),
        test_port: 38991,
        profile: p,
        label: "llama.cpp @ ctx 2048".into(),
    };
    let r = trial_failed(&plan, "ERROR", "spawn failed", 7);
    assert_eq!(r.boot_verdict, "ERROR");
    assert!(r.best_tps.is_none());
    assert_eq!(r.rows.len(), 1);
    assert_eq!(r.rows[0].verdict, "ERROR");
    assert_eq!(r.rows[0].task, PROBE_TASK);
}

#[test]
fn summarize_ranks_by_measured_tps_and_names_best() {
    let mk = |rt: &str, tps: Option<f64>| TrialResult {
        runtime_id: rt.into(),
        display: rt.into(),
        ctx: 8192,
        boot_verdict: "RUNNING".into(),
        boot_summary: String::new(),
        rows: vec![],
        best_tps: tps.map(m),
        best_kind: tps.map(|_| "wall".into()),
        prompt_tps: None,
    };
    let rep = summarize(
        "/m.gguf",
        &vec![mk("a", Some(10.0)), mk("b", Some(44.0)), mk("c", None)],
        &vec![],
        &vec![],
    );
    assert_eq!(rep.best.as_deref(), Some("b"));
    assert!(rep.summary.contains("2/3"));
}

#[test]
fn no_trial_point_passes_the_cap() {
    for c in trial_points(131072, 4, Some(16384)) {
        assert!(c <= 16384);
    }
    assert!(!trial_points(32768, 3, None).is_empty());
    assert_eq!(trial_points(131072, 2, Some(1024)), vec![1024]);
    assert_eq!(trial_points(16384, 2, Some(12288)), vec![8192, 12288]);
    assert_eq!(trial_points(16384, 2, None), vec![16384, 8192]);
}

// ---------------------------------------------------------------- evaluation

#[test]
fn exact_pass_fail() {
    let e = Exact { expected: "hello".into() };
    assert!(e.evaluate("hello", 1, 0).passed);
    assert!(!e.evaluate("hello ", 1, 0).passed == false);
    assert!(!e.evaluate("hi", 1, 0).passed);
    assert_eq!(e.evaluate("hi", 1, 0).details_json, r#"{"expected":"hello"}"#);
    assert_eq!(f(e.evaluate("hello", 1, 0).score), 1.0);
}

#[test]
fn regex_match() {
    let e = RegexEval { pattern: "IndexError|bounds".into() };
    assert!(e.evaluate("fix IndexError here", 1, 0).unwrap().passed);
    assert!(!e.evaluate("all good", 1, 0).unwrap().passed);
}

#[test]
fn a_refused_pattern_is_an_error() {
    let e = RegexEval { pattern: "(".into() };
    assert!(e.evaluate("x", 1, 0).is_err());
}

#[test]
fn json_schema_required() {
    let e = JsonSchema { schema: r#"{"required":["name","age"]}"#.into() };
    assert!(e.evaluate(r#"{"name":"Alice","age":30}"#, 1, 0).unwrap().passed);
    assert!(!e.evaluate(r#"{"name":"Alice"}"#, 1, 0).unwrap().passed);
    assert!(!e.evaluate("not json", 1, 0).unwrap().passed);
    assert_eq!(
        e.evaluate(r#"{"name":1}"#, 1, 0).unwrap().details_json,
        r#"{"schema":{"required":["name","age"]},"valid":false}"#
    );
    assert!(JsonSchema { schema: "{".into() }
        .evaluate("{}", 1, 0)
        .unwrap_err()
        .starts_with("bad schema: "));
    assert!(JsonSchema { schema: "{}".into() }.evaluate("1", 1, 0).unwrap().passed);
    assert!(!JsonSchema { schema: r#"{"required":[1]}"#.into() }.evaluate("{}", 1, 0).unwrap().passed);
}

#[test]
fn evaluators_go_by_name() {
    assert!(matches!(evaluator_for("exact", "a"), AnyEvaluator::Exact(_)));
    assert!(matches!(evaluator_for("regex", "a"), AnyEvaluator::Regex(_)));
    assert!(matches!(evaluator_for("json_schema", "{}"), AnyEvaluator::JsonSchema(_)));
    assert!(matches!(evaluator_for("anything", ""), AnyEvaluator::Lexical(_)));
    match evaluator_for("lm_eval:mbpp", "") {
        AnyEvaluator::LmEval(e) => assert_eq!(e.tasks_csv, "mbpp"),
        _ => panic!("a harness is named"),
    }
    assert!(LexicalPlaceholder.evaluate(m(0.6), 1, 0).passed);
    assert!(!LexicalPlaceholder.evaluate(m(0.5), 1, 0).passed);
    let h = LmEval { tasks_csv: "mbpp".into() }.evaluate(m(0.1), None, 1, 0);
    assert!(h.details_json.contains("\"harness_version\":\"not-installed\""));
}

// ---------------------------------------------------------------- health

fn tps(text: &str) -> Option<f64> {
    parse_tps(text).map(|t| t.parse().unwrap())
}

#[test]
fn tps_reads_predicted_gauge_of_local_llamacpp_build() {
    let text = "# HELP llamacpp:predicted_tokens_seconds Average generation throughput\n\
                # TYPE llamacpp:predicted_tokens_seconds gauge\n\
                llamacpp:predicted_tokens_seconds 47.5\n\
                llamacpp:tokens_predicted_seconds_total 14.742\n";
    assert_eq!(tps(text), Some(47.5));
}

#[test]
fn tps_ignores_counters_and_prompt_rate() {
    let text = "llamacpp:tokens_predicted_seconds_total 14.742\n\
                llamacpp:prompt_tokens_seconds 980.0\n";
    assert_eq!(tps(text), None);
}

#[test]
fn tps_still_reads_upstream_and_freetoken_names() {
    let upstream = "llamacpp:generation_tokens_per_second 12.5\n";
    assert_eq!(tps(upstream), Some(12.5));
    let ft = "ft:tok_per_sec 31.0\n";
    assert_eq!(tps(ft), Some(31.0));
}

#[test]
fn parses_generation_tps() {
    let text = "# TYPE llamacpp:generation_tokens_per_second gauge
llamacpp:generation_tokens_per_second 42.7
llamacpp:prompt_processing_tokens_per_second 1234.5";
    assert_eq!(tps(text), Some(42.7));
}

#[test]
fn parses_tps_without_generation_line() {
    let text = "# HELP ft:tok_per_sec tokens/sec
ft:tok_per_sec 9.5";
    assert_eq!(tps(text), Some(9.5));
}

#[test]
fn no_tps_returns_none() {
    assert_eq!(tps("up 1\ngo_process_cpu_seconds_total 0.1"), None);
}

#[test]
fn versions_are_read_from_metrics_and_answers() {
    assert_eq!(version_in_metrics("llama_version \"b123\"\n").as_deref(), Some("b123"));
    assert_eq!(version_in_metrics("llama_version 0\n"), None);
    assert_eq!(version_in_answer(r#"{"version":"0.5.1"}"#).as_deref(), Some("0.5.1"));
    assert_eq!(version_in_answer("nothing"), None);
    let detect = detect_engine_version;
    let api = Some(r#"{"version":"0.5.1"}"#);
    assert_eq!(detect(Engine::Ollama, None, Some(("v1", "")), api).as_deref(), Some("v1"));
    assert_eq!(detect(Engine::Ollama, None, None, api).as_deref(), Some("0.5.1"));
    assert_eq!(detect(Engine::LlamaCpp, None, None, api), None);
    assert_eq!(detect(Engine::LlamaCpp, None, Some(("\n", " v2")), api).as_deref(), Some("v2"));
    assert_eq!(detect(Engine::FreeToken, None, None, None), None);
}

#[test]
fn a_boot_is_judged_by_what_is_seen() {
    assert!(matches!(judge_boot(true, None, true, false), BootVerdict::Failed(w, _) if w == "OOM"));
    assert!(matches!(judge_boot(false, None, true, false), BootVerdict::Running));
    assert!(matches!(judge_boot(false, None, false, false), BootVerdict::Waiting));
    assert!(matches!(judge_boot(false, None, false, true), BootVerdict::Failed(_, _)));
    assert!(logs_oom("ggml: CUDA out of memory"));
    assert!(!logs_oom("all is well"));
    assert_eq!(liveness_urls("h", 1)[0], "http://h:1/health");
    assert_eq!(measured_rate(Some(m(5.0)), None, &None).map(f), Ok(5.0));
    assert!(measured_rate(None, None, &Some("down".into())).is_err());
}

struct Ladder;

impl Booter for Ladder {
    fn boot(&self, p: &Profile, _port: u16) -> Result<Option<Measure>, (String, String)> {
        if p.ctx_size > 40000 {
            Err(("OOM".into(), "too large".into()))
        } else {
            Ok(Some(m(12.0)))
        }
    }
}

#[test]
fn a_bringup_walks_down_the_ladder() {
    let p = Profile { ctx_size: 65536, ctx_ladder: vec![49152, 32768], ..Default::default() };
    let o = verify_on_test_port(&p, 18999, &mut Boots::new(Ladder));
    assert_eq!(o.ctx, 32768);
    assert_eq!(o.verdict, "RUNNING");
    assert_eq!(o.tok_per_sec.map(f), Some(12.0));
}

// ---------------------------------------------------------------- generation

fn rate(r: Rate) -> f64 {
    match r {
        Rate::Stated(v) => f(v),
        Rate::OverMillis { tokens, millis } => tokens as f64 / millis as f64 * 1000.0,
        Rate::OverNanos { tokens, nanos } => tokens as f64 / (nanos as f64 / 1e9),
        Rate::OverTime { tokens, millis } => tokens as f64 / (f(millis) / 1000.0),
    }
}

fn openai(text: &str, wall: u64) -> Reading {
    read_answer(EngineProtocol::OpenAiChat, text, wall).unwrap()
}

#[test]
fn openai_uses_native_llamacpp_timing() {
    let s = openai(
        r#"{"choices":[{"message":{"content":"H"}}],
            "usage":{"prompt_tokens":12,"completion_tokens":40},
            "timings":{"predicted_per_second":51.5}}"#,
        3000,
    );
    assert_eq!(s.prompt_tokens, Some(12));
    assert_eq!(s.gen_tokens, Some(40));
    assert_eq!(s.tok_s.map(rate), Some(51.5));
    assert_eq!(s.tok_s_kind, "native");
    assert_eq!(s.text, "H");
    let sample = s.sample(Some(m(51.5)), None);
    assert!(sample.ok);
    assert_eq!(sample.tok_s.map(f), Some(51.5));
}

#[test]
fn openai_no_timing_falls_back_to_wall() {
    let s = openai(
        r#"{"choices":[{"message":{"content":"o"}}],
            "usage":{"prompt_tokens":12,"completion_tokens":40}}"#,
        2000,
    );
    assert_eq!(s.tok_s_kind, "wall");
    assert_eq!(rate(s.tok_s.unwrap()), 20.0, "40 tok / 2s = 20 tok/s");
}

#[test]
fn ollama_uses_eval_duration_for_native_speed() {
    let s = read_answer(
        EngineProtocol::OllamaChat,
        r#"{"message":{"content":"y"},"prompt_eval_count":3,"eval_count":88,"eval_duration":2200000000}"#,
        999_999,
    )
    .unwrap();
    assert_eq!(s.prompt_tokens, Some(3));
    assert_eq!(s.gen_tokens, Some(88));
    assert_eq!(rate(s.tok_s.unwrap()), 40.0, "88 tok / 2.2s = 40 tok/s");
    assert_eq!(s.tok_s_kind, "native");
}

#[test]
fn prompt_speed_is_stated_or_computed() {
    let s = openai(r#"{"timings":{"prompt_n":10,"prompt_ms":500.0}}"#, 0);
    assert_eq!(s.prompt_tps.map(rate), Some(20.0));
    assert_eq!(s.tok_s, None);
    assert_eq!(s.text, "");
    let s = openai(r#"{"timings":{"prompt_n":10,"prompt_ms":0.0}}"#, 0);
    assert_eq!(s.prompt_tps, None);
    let s = read_answer(EngineProtocol::OllamaChat, r#"{"load_duration":5000001}"#, 1).unwrap();
    assert_eq!(s.ttft_ms, Some(5));
}

#[test]
fn an_answer_that_is_no_document_is_quoted() {
    let e = read_answer(EngineProtocol::OpenAiChat, "x\"y", 1).unwrap_err();
    assert!(e.starts_with("parse response: "));
    assert!(e.ends_with(r#" — "x\"y""#));
    let s = sample_failed(9, "down");
    assert!(!s.ok);
    assert_eq!(s.error.as_deref(), Some("down"));
}

#[test]
fn requests_follow_the_protocol() {
    let r = prompt_request(Engine::LlamaCpp, "127.0.0.1", 18000, "q", "say \"hi\"", 64);
    assert_eq!(r.url, "http://127.0.0.1:18000/v1/chat/completions");
    assert_eq!(
        r.body,
        r#"{"max_tokens":64,"messages":[{"content":"say \"hi\"","role":"user"}],"model":"q","stream":false,"temperature":0}"#
    );
    let r = prompt_request(Engine::LlamaCpp, "h", 1, "q", "a\\\u{1}\u{8}\t\n\u{c}\r\u{1f}\u{7f}é", 64);
    assert!(r.body.contains(r#""content":"a\\\u0001\b\t\n\f\r\u001f"#));
    assert!(r.body.contains("\u{7f}é\""));
    let r = prompt_request(Engine::Ollama, "127.0.0.1", 11434, "q", "hi", 64);
    assert_eq!(r.url, "http://127.0.0.1:11434/api/chat");
    assert_eq!(
        r.body,
        r#"{"messages":[{"content":"hi","role":"user"}],"model":"q","options":{"num_predict":64,"temperature":0},"stream":false}"#
    );
}

// ---------------------------------------------------------------- units

fn sample_llamacpp() -> Profile {
    let mut p = Profile::default();
    p.name = "qwen".into();
    p.engine = Engine::LlamaCpp;
    p.bin = "/opt/llama.cpp/build/bin/llama-server".into();
    p.model = "/home/deviant/models/qwen.gguf".into();
    p.alias = "qwen3.8-27b".into();
    p.port = 18000;
    p.ctx_size = 32768;
    p.n_gpu_layers = 64;
    p.draft_model = Some("/home/deviant/models/mtp.gguf".into());
    p.mem_max_mb = Some(26_624);
    p
}

#[test]
fn render_contains_flags() {
    let u = render_unit(&sample_llamacpp(), &builtin_manifests());
    assert!(u.contains("--ctx-size 32768"));
    assert!(u.contains("--n-gpu-layers 64"));
    assert!(u.contains("--alias qwen3.8-27b"));
    assert!(u.contains("--port 18000"));
    assert!(u.contains("LLAMACPP_API_KEY=llamacpp-local"));
    assert!(u.contains("MemoryMax=26624M"));
    assert!(u.contains("--draft-model"));
    assert!(u.contains("mtp.gguf"));
    assert!(u.contains("--reasoning on"));
}

#[test]
fn build_args_freetoken() {
    let mut p = Profile::default();
    p.engine = Engine::FreeToken;
    p.model = "nvidia/Qwen3.6-35B-A3B-NVFP4".into();
    p.port = 1919;
    p.ft_backend = Some("offload".into());
    p.ft_moe_cache_size = Some(3000);
    let a = build_args(&p);
    assert_eq!(a[0], "serve");
    assert!(a.contains(&"--moe-backend".into()));
    assert!(a.contains(&"offload".into()));
    assert!(a.contains(&"--moe-cache-size".into()));
    assert!(a.contains(&"3000".into()));
    assert!(a.contains(&"--port".into()));
    assert!(a.contains(&"1919".into()));
}

#[test]
fn build_args_ollama_is_env_configured_daemon() {
    let p = Profile {
        engine: Engine::Ollama,
        bin: "/usr/bin/ollama".into(),
        host: "127.0.0.1".into(),
        port: 18997,
        ..Profile::default()
    };
    let a = build_args(&p);
    assert_eq!(a, vec!["serve"], "ollama takes no model/host args at exec");
    let u = render_unit(&p, &builtin_manifests());
    assert!(u.contains("OLLAMA_HOST=127.0.0.1:18997"));
    assert!(u.contains("ExecStart=/usr/bin/ollama serve"));
    assert!(!u.contains("LLAMACPP_API_KEY"), "no llama.cpp auth env");
}

#[test]
fn backup_existing_writes_bak() {
    let a = backup_existing("/u/llama-server.service", "20240101");
    assert!(a.contains(".bak."));
    assert_ne!(a, backup_existing("/u/llama-server.service", "20240102"));
    let paths = vec![
        backup_existing("/u/llama-server.service", "1"),
        backup_existing("/u/llama-server.service", "2"),
    ];
    assert_eq!(
        restore_last_good(&paths, "llama-server.service").as_deref(),
        Some("/u/llama-server.service.bak.2")
    );
    assert_eq!(restore_last_good(&vec![], "llama-server.service"), None);
}

#[test]
fn words_with_spaces_are_quoted() {
    assert_eq!(shell_join(&vec!["a".into(), "b c".into()]), "a \"b c\"");
    assert!(!install(&sample_llamacpp(), &builtin_manifests(), "/u", "/g", &vec![], "now").is_empty());
}

#[test]
fn a_slot_is_probed_by_unit_and_port() {
    assert!(unit_active(Some("active\n")));
    assert!(!unit_active(Some("inactive\n")));
    assert!(!unit_active(None));
    let p = probe_slot(Some("active"), false);
    assert!(p.unit_active && !p.port_up);
}

// ---------------------------------------------------------------- grids and sweeps

#[test]
fn tasks_are_labelled_prompts() {
    assert_eq!(
        parse_tasks(&vec!["greet=say hi".into()]).unwrap(),
        vec![("greet".to_string(), "say hi".to_string())]
    );
    assert!(parse_tasks(&vec!["no prompt".into()]).is_err());
    assert!(quant_files("/m", Some(&vec![])).is_err());
    assert_eq!(
        quant_files("/m", Some(&vec!["/m/b.gguf".into(), "/m/a.gguf".into()])).unwrap(),
        vec!["/m/a.gguf", "/m/b.gguf"]
    );
    let bins = resolve_bins(
        &vec![(Engine::LlamaCpp, "/mine".into())],
        &vec![(Engine::LlamaCpp, "/theirs".into())],
    );
    assert!(bins.contains(&(Engine::LlamaCpp, "/mine".into())));
}

#[test]
fn a_sweep_covers_every_combination() {
    let p = Profile { ctx_size: 4096, ctx_ladder: vec![2048], ..Default::default() };
    let params = AutotuneParams {
        ctx_values: vec![1024],
        ngl_values: vec![10, 20],
        ubatch_values: vec![128, 256, 512],
        runs: 1,
        max_tokens: 16,
        boot_timeout_ms: 1,
        generation_timeout_ms: 1,
    };
    let points = sweep(&p, &params);
    assert_eq!(points.len(), 12);
    let ctxs: Vec<u32> = points.iter().map(|x| x.ctx).collect();
    assert_eq!(ctxs, [[2048; 6], [1024; 6]].concat(), "the ladder first, then the others");
    let points = sweep(&Profile { ctx_ladder: vec![], ..p }, &params);
    assert!(points.iter().all(|x| x.ctx == 1024) && points.len() == 6);
    assert_eq!(best_trial(&vec![m(1.0), m(3.0), m(2.0)]), Some(1));
    assert_eq!(best_trial(&vec![]), None);
}

// ---------------------------------------------------------------- swaps

struct Ops<'a> {
    calls: &'a RefCell<Vec<String>>,
    verdict: &'static str,
    ctx: u32,
    healthy: bool,
}

impl SwapBackend for Ops<'_> {
    fn verify(&self, _p: &Profile, _port: u16, _timeout_s: u64) -> BringupOutcome {
        BringupOutcome {
            ctx: self.ctx,
            verdict: self.verdict.into(),
            summary: self.verdict.into(),
            tok_per_sec: Some(m(42.0)),
        }
    }
    fn install(&self, p: &Profile) -> Result<(), String> {
        self.calls.borrow_mut().push(format!("install:{}", p.name));
        Ok(())
    }
    fn start(&self, unit: &str) -> Result<(), String> {
        self.calls.borrow_mut().push(format!("start:{unit}"));
        Ok(())
    }
    fn stop(&self, unit: &str) -> Result<(), String> {
        self.calls.borrow_mut().push(format!("stop:{unit}"));
        Ok(())
    }
    fn health(&self, _host: &str, _port: u16, _timeout_s: u64) -> bool {
        self.healthy
    }
    fn progress(&self, _message: &str) {}
}

fn swap_profile(name: &str, port: u16, engine: Engine) -> Profile {
    Profile {
        engine,
        runtime_id: None,
        name: name.into(),
        model: "/m/x.gguf".into(),
        port,
        ctx_size: 32768,
        ..Profile::default()
    }
}

fn swap_case(
    calls: &RefCell<Vec<String>>,
    verdict: &'static str,
    ctx: u32,
    healthy: bool,
) -> cyberdeck::engines::swap::SwapReport {
    let mut ops = SwapOps::new(Ops { calls, verdict, ctx, healthy });
    let old = swap_profile("llamacpp", 18000, Engine::LlamaCpp);
    let new = swap_profile("freetoken", 1919, Engine::FreeToken);
    swap_with(&mut ops, &old, &new, 18998, true, &builtin_manifests())
}

#[test]
fn failed_verification_never_touches_the_live_slot() {
    let calls = RefCell::new(Vec::<String>::new());
    let r = swap_case(&calls, "OOM", 32768, true);
    assert!(!r.verified && !r.swapped && !r.rolled_back);
    assert!(calls.borrow().is_empty(), "no install/start/stop on verify failure");
}

#[test]
fn live_health_failure_rolls_back_to_the_old_profile() {
    let calls = RefCell::new(Vec::<String>::new());
    let r = swap_case(&calls, "RUNNING", 16384, false);
    assert!(r.verified && !r.swapped && r.rolled_back);
    // Candidate honored the ladder ctx.
    assert_eq!(r.ctx, 16384);
    let c = calls.borrow();
    assert!(c.iter().any(|x| x == "install:llamacpp"), "old reinstalled: {c:?}");
    assert!(c.iter().any(|x| x == "start:llama-server.service"), "old restarted: {c:?}");
}

#[test]
fn successful_swap_installs_candidate_and_stops_the_old_slot() {
    let calls = RefCell::new(Vec::<String>::new());
    let r = swap_case(&calls, "RUNNING", 32768, true);
    assert!(r.verified && r.swapped && !r.rolled_back);
    let c = calls.borrow();
    assert_eq!(c[0], "install:freetoken");
    assert!(c.iter().any(|x| x == "stop:llama-server.service"));
    assert!(c.iter().any(|x| x == "start:freetoken.service"));
}

#[test]
fn a_swap_makes_its_calls_in_order_and_no_others() {
    let calls = RefCell::new(Vec::<String>::new());
    swap_case(&calls, "RUNNING", 16384, false);
    assert_eq!(
        *calls.borrow(),
        vec![
            "install:freetoken",
            "stop:llama-server.service",
            "start:freetoken.service",
            "install:llamacpp",
            "start:llama-server.service",
            "stop:freetoken.service",
        ]
    );
    let calls = RefCell::new(Vec::<String>::new());
    swap_case(&calls, "RUNNING", 16384, true);
    assert_eq!(
        *calls.borrow(),
        vec!["install:freetoken", "stop:llama-server.service", "start:freetoken.service"]
    );
}

// ---------------------------------------------------------------- workflows

struct EchoRunner;

impl NodeRunner for EchoRunner {
    fn name(&self) -> &'static str {
        "echo"
    }
    fn run(&self, node: &WorkflowNode, inputs: &[Message]) -> Result<NodeOutcome, String> {
        let up: Vec<String> = inputs.iter().map(|m| m.text.clone()).collect();
        Ok(NodeOutcome {
            text: format!("{}|{}", node.id, up.join(";")),
            tps: None,
            ttft_ms: None,
            gen_tokens: 0,
        })
    }
}

fn node(id: &str) -> WorkflowNode {
    WorkflowNode {
        id: id.into(),
        role_id: format!("role-{id}"),
        binding: ModelBinding {
            role_id: format!("role-{id}"),
            model_ref: format!("{id}@Q4"),
            engine: Some("llamacpp".into()),
            overrides_json: String::new(),
            active: true,
        },
        kind: NodeKind::Stateless,
        pos: NodePos::default(),
        exec_overrides: NodeExec::default(),
    }
}

fn link(id: &str, from: &str, to: &str, condition: Option<&str>, loop_edge: bool) -> WorkflowEdge {
    WorkflowEdge {
        id: id.into(),
        from: from.into(),
        to: to.into(),
        from_port: "output".into(),
        to_port: "input".into(),
        condition: condition.map(str::to_string),
        loop_edge,
    }
}

fn edge(id: &str, from: &str, to: &str) -> WorkflowEdge {
    link(id, from, to, None, false)
}

fn graph(id: &str, nodes: &[&str], edges: Vec<WorkflowEdge>, settings: ExecSettings) -> Workflow {
    Workflow {
        id: id.into(),
        name: id.into(),
        description: String::new(),
        version: 1,
        nodes: nodes.iter().map(|n| node(n)).collect(),
        edges,
        exec_settings: settings,
        template: false,
        inputs: Default::default(),
    }
}

#[test]
fn linear_plans_to_two_waves() {
    let wf = seed_coding_review();
    assert!(!wf.has_cycle());
    let p = plan(&wf).expect("plan");
    assert_eq!(p.waves.len(), 2);
    assert_eq!(p.waves[0], vec!["n1"]);
    assert_eq!(p.waves[1], vec!["n2"]);
    assert!(p.predecessors_of("n2").unwrap().contains(&"n1".to_string()));
    assert!(p.successors_of("n1").unwrap().contains(&"n2".to_string()));
    assert!(p.unreachable.is_empty());
}

#[test]
fn fan_out_fan_in_parallel_wave() {
    let wf = graph(
        "debate",
        &["a", "b", "c", "d"],
        vec![edge("ea", "a", "b"), edge("eb", "a", "c"), edge("ec", "b", "d"), edge("ed", "c", "d")],
        ExecSettings::default(),
    );
    let p = plan(&wf).expect("plan");
    assert_eq!(p.waves.len(), 3);
    assert_eq!(p.waves[0], vec!["a"]);
    let second = &p.waves[1];
    assert_eq!(second.len(), 2);
    assert!(second.contains(&"b".to_string()) && second.contains(&"c".to_string()));
    assert_eq!(p.waves[2], vec!["d"]);
}

#[test]
fn rejects_cycles() {
    let wf = graph(
        "loop",
        &["a", "b"],
        vec![edge("e1", "a", "b"), edge("e2", "b", "a")],
        ExecSettings::default(),
    );
    assert!(wf.has_cycle());
    assert!(plan(&wf).is_err());
    let stop = AtomicBool::new(false);
    assert!(execute(&wf, &EchoRunner, "r".into(), 1, &stop).is_err());
    assert!(wf.validate().is_err());
}

#[test]
fn two_loop_edges_are_refused() {
    let wf = graph(
        "loops",
        &["a", "b"],
        vec![
            edge("e1", "a", "b"),
            link("e2", "b", "a", None, true),
            link("e3", "b", "b", None, true),
        ],
        ExecSettings::default(),
    );
    assert!(wf.validate().is_err());
}

#[test]
fn drives_weighted_fan_in() {
    let wf = seed_coding_review();
    let stop = AtomicBool::new(false);
    let rep = execute(&wf, &EchoRunner, "r-test".into(), 4, &stop).unwrap();
    assert_eq!(rep.status, WorkflowRunStatus::Done);
    assert_eq!(rep.node_results.len(), 2);
    let n1 = rep.node_results.iter().find(|r| r.node_id == "n1").unwrap();
    assert_eq!(n1.text, "n1|");
    let n2 = rep.node_results.iter().find(|r| r.node_id == "n2").unwrap();
    assert!(n2.text.contains("n1|"), "n2 should see n1 output, got {}", n2.text);
    assert_eq!((n1.order_idx, n2.order_idx), (1, 2));
}

#[test]
fn honours_stop_between_waves() {
    let wf = seed_coding_review();
    let stop = AtomicBool::new(true);
    let rep = execute(&wf, &EchoRunner, "r-stop".into(), 4, &stop).unwrap();
    assert_eq!(rep.status, WorkflowRunStatus::Stopped);
    assert!(rep.node_results.is_empty());
}

#[test]
fn stateless_runner_parses_engine_error() {
    let mut wf = seed_coding_review();
    wf.nodes[1].binding.engine = Some("bogus".into());
    let runner = StatelessRunner { max_tokens: 256 };
    let inputs = vec![];
    let r = runner.request(&wf.nodes[1], &inputs);
    assert!(r.is_err());
    assert!(r.unwrap_err().contains("unsupported engine"));
}

#[test]
fn stateless_runner_asks_the_engine_for_the_bare_model() {
    let wf = seed_coding_review();
    let r = StatelessRunner { max_tokens: 256 }.request(&wf.nodes[0], &[]).unwrap();
    assert_eq!(r.model_id, "qwen3.8-27b");
    assert_eq!(r.port, 18000);
    assert_eq!(r.max_tokens, 16);
    let failed = StatelessRunner::outcome(sample_failed(1, "down"));
    assert_eq!(failed.unwrap_err(), "down");
}

#[test]
fn agentic_runner_starts_a_session_in_its_directory() {
    let wf = seed_coding_review();
    let a = AgenticRunner { dir: "/w".into(), model: Some("m".into()) };
    let args = a.args(&wf.nodes[0], &[]);
    assert_eq!(&args[..5], &["run", "--dir", "/w", "-m", "m"]);
    assert_eq!(AgenticRunner::outcome(true, " out \n", "").unwrap().text, "out");
    assert_eq!(AgenticRunner::outcome(false, "", " bad \n").unwrap_err(), "bad");
}

#[test]
fn build_prompt_includes_upstream() {
    let mut n = node("n");
    n.role_id = "r".into();
    n.binding.role_id = "r".into();
    n.binding.model_ref = "m@Q".into();
    let msg = Message {
        id: "m1".into(),
        node_run_id: "x".into(),
        kind: MessageKind::Text,
        text: "hello upstream".into(),
        structured: None,
        ref_path: None,
        meta: Default::default(),
    };
    let p = build_prompt(&n, &[msg]);
    assert!(p.contains("r"));
    assert!(p.contains("hello upstream"));
    assert_eq!(
        p,
        "You are playing the role 'r' (binding m@Q). Perform your assigned step.\nUpstream context:\n<upstream>hello upstream</upstream>"
    );
}

#[test]
fn the_echo_shows_what_reached_it() {
    let o = Echo.run(&node("n"), &[]).unwrap();
    assert_eq!(o.text, "[echo n:role-n] saw upstream: no upstream — gen 42 tokens");
    assert_eq!(o.tps.map(f), Some(100.0));
    assert_eq!(o.gen_tokens, 42);
}

fn result(id: &str) -> NodeResult {
    NodeResult {
        node_id: id.into(),
        ok: true,
        text: "reviewed".into(),
        error: String::new(),
        wall_ms: 1234,
        order_idx: 1,
        tps: Some(m(62.5)),
        ttft_ms: Some(88),
        gen_tokens: 512,
        skipped: false,
    }
}

#[test]
fn node_to_matrix_row_records_role_metrics() {
    let wf = seed_coding_review();
    let row = node_to_matrix_row(&wf, &result("n1"), 1755500000).unwrap();
    assert_eq!(row.role_id.as_deref(), Some(wf.nodes[0].role_id.as_str()));
    assert_eq!(row.model, wf.nodes[0].binding.model_ref);
    assert_eq!(row.tok_s.map(f), Some(62.5));
    assert_eq!(row.ttft_ms, Some(88));
    assert_eq!(row.gen_tokens, Some(512));
    assert_eq!(row.wall_ms, 1234);
}

#[test]
fn a_node_without_an_engine_leaves_no_row() {
    let mut wf = seed_coding_review();
    wf.nodes[0].binding.engine = None;
    assert!(node_to_matrix_row(&wf, &result("n1"), 0).is_none());
    assert!(node_to_matrix_row(&wf, &result("missing"), 0).is_none());
}

#[test]
fn conditional_edge_skips_node_when_predicate_fails() {
    let wf = graph(
        "branch",
        &["gate", "consumer"],
        vec![link("e1", "gate", "consumer", Some("contains:APPROVE"), false)],
        ExecSettings::default(),
    );
    let stop = AtomicBool::new(false);
    let rep = execute(&wf, &EchoRunner, "r-branch".into(), 4, &stop).unwrap();
    assert_eq!(rep.status, WorkflowRunStatus::Done);
    let gate = rep.node_results.iter().find(|r| r.node_id == "gate").unwrap();
    assert!(!gate.skipped);
    let consumer = rep.node_results.iter().find(|r| r.node_id == "consumer").unwrap();
    assert!(consumer.skipped, "consumer gated out must be skipped");
    assert!(node_to_matrix_row(&wf, consumer, 0).is_none());
}

#[test]
fn conditional_edge_routes_when_predicate_holds() {
    let wf = graph(
        "branch-ok",
        &["gate", "consumer"],
        vec![link("e1", "gate", "consumer", Some("not_contains:NONE"), false)],
        ExecSettings::default(),
    );
    let stop = AtomicBool::new(false);
    let rep = execute(&wf, &EchoRunner, "r-branch-ok".into(), 4, &stop).unwrap();
    let consumer = rep.node_results.iter().find(|r| r.node_id == "consumer").unwrap();
    assert!(!consumer.skipped);
    assert!(consumer.text.contains("gate|"), "consumer should see gate output");
}

#[test]
fn unconditional_workflow_never_skips() {
    let wf = seed_coding_review();
    let stop = AtomicBool::new(false);
    let rep = execute(&wf, &EchoRunner, "r-uncond".into(), 4, &stop).unwrap();
    assert_eq!(rep.iterations, 1);
    assert!(rep.node_results.iter().all(|r| !r.skipped));
    assert_eq!(rep.node_results.len(), 2);
}

struct LoopRunner;

impl NodeRunner for LoopRunner {
    fn name(&self) -> &'static str {
        "loop"
    }
    fn run(&self, node: &WorkflowNode, inputs: &[Message]) -> Result<NodeOutcome, String> {
        let up = inputs.iter().map(|m| m.text.clone()).collect::<Vec<_>>().join(";");
        let attempt = up
            .split("attempt=")
            .nth(1)
            .and_then(|s| s.split_whitespace().next())
            .and_then(|s| s.parse::<u32>().ok())
            .unwrap_or(0);
        let next = attempt + 1;
        let word = if next >= 3 { "DONE" } else { "WIP" };
        Ok(NodeOutcome {
            text: format!("{} attempt={} result={}", node.id, next, word),
            tps: None,
            ttft_ms: None,
            gen_tokens: 0,
        })
    }
}

#[test]
fn bounded_loop_exits_on_termination_predicate() {
    let wf = graph(
        "rx-loop",
        &["dev", "rev"],
        vec![edge("e1", "dev", "rev"), link("e2", "rev", "dev", Some("not_contains:DONE"), true)],
        ExecSettings { max_iterations: 10, ..Default::default() },
    );
    assert_eq!(wf.validate(), Ok(()));
    let stop = AtomicBool::new(false);
    let rep = execute(&wf, &LoopRunner, "r-loop".into(), 4, &stop).unwrap();
    assert_eq!(rep.status, WorkflowRunStatus::Done);
    // dev escalates attempt 1 -> 2 -> 3(DONE): 2 body passes total.
    assert_eq!(rep.iterations, 2);
    assert_eq!(rep.node_results.iter().filter(|r| r.node_id == "dev").count(), 2);
    let rev = rep.node_results.iter().rfind(|r| r.node_id == "rev").unwrap();
    assert!(rev.ok);
    assert!(rev.text.contains("DONE"));
}

#[test]
fn bounded_loop_capped_by_max_iterations() {
    let wf = graph(
        "cap-loop",
        &["a"],
        vec![link("e1", "a", "a", Some("contains:WIP"), true)],
        ExecSettings { max_iterations: 2, ..Default::default() },
    );
    assert_eq!(wf.validate(), Ok(()));
    let stop = AtomicBool::new(false);
    let rep = execute(&wf, &LoopRunner, "r-cap".into(), 4, &stop).unwrap();
    assert_eq!(rep.iterations, 2, "always-continue loop must be capped at max_iterations");
    assert_eq!(rep.node_results.iter().filter(|r| r.node_id == "a").count(), 2);
}

#[test]
fn loop_respects_token_budget() {
    let wf = graph(
        "budget-loop",
        &["a"],
        vec![link("e1", "a", "a", None, true)],
        ExecSettings { max_iterations: 20, budget_tokens: 6, ..Default::default() },
    );
    assert_eq!(wf.validate(), Ok(()));
    let stop = AtomicBool::new(false);
    let rep = execute(&wf, &LoopRunner, "r-budget".into(), 4, &stop).unwrap();
    assert!(rep.iterations < 20, "budget must cap iterations, got {}", rep.iterations);
    assert_eq!(rep.status, WorkflowRunStatus::Stopped);
}

#[test]
fn edge_predicate_reexported_for_doors() {
    assert!(EdgePredicate::parse("contains:x").unwrap().eval("abc x def"));
    assert!(!EdgePredicate::parse("contains:x").unwrap().eval("abc"));
}

#[test]
fn a_spent_budget_ends_the_run_at_once() {
    let mut wf = seed_coding_review();
    wf.exec_settings.budget_tokens = 1;
    let stop = AtomicBool::new(false);
    let rep = execute(&wf, &Echo, "r".into(), 1, &stop).unwrap();
    assert_eq!(rep.status, WorkflowRunStatus::Stopped);
    let ids: Vec<&str> = rep.node_results.iter().map(|r| r.node_id.as_str()).collect();
    assert_eq!(ids, vec!["n1"]);
    assert_eq!(rep.tokens_used, 42);
}

#[test]
fn a_steady_signal_decides_the_run() {
    let wf = graph(
        "cap",
        &["a"],
        vec![link("e1", "a", "a", Some("contains:echo"), true)],
        ExecSettings { max_iterations: 2, ..Default::default() },
    );
    let rep = execute_until(&wf, &mut Turns::new(&Echo), "r".into(), StopSignal::Steady(false)).unwrap();
    assert_eq!((rep.iterations, rep.node_results.len(), rep.tokens_used), (2, 2, 84));
    assert_eq!(rep.status, WorkflowRunStatus::Done);
    let rep = execute_until(&wf, &mut Turns::new(&Echo), "r".into(), StopSignal::Steady(true)).unwrap();
    assert_eq!((rep.iterations, rep.node_results.len(), rep.tokens_used), (0, 0, 0));
    assert_eq!(rep.status, WorkflowRunStatus::Stopped);
}

#[test]
fn a_pass_runs_wave_by_wave() {
    let wf = graph(
        "fan-in",
        &["a", "b", "c"],
        vec![
            link("e1", "a", "c", Some("contains:echo"), false),
            link("e2", "b", "c", Some("contains:APPROVE"), false),
        ],
        ExecSettings::default(),
    );
    let waves = vec![vec!["a".to_string(), "b".to_string()], vec!["c".to_string()]];
    let mut st = Ledger::new();
    let mut turns = Turns::new(&Echo);
    let go = StopSignal::Steady(false);
    let ran = run_pass(&wf, &waves, "r", &None, 0, &mut st, &mut turns, &go);
    assert!(ran && !st.any_error);
    let seen: Vec<(&str, u64, bool)> =
        st.results.iter().map(|r| (r.node_id.as_str(), r.order_idx, r.skipped)).collect();
    assert_eq!(seen, vec![("a", 1, false), ("b", 2, false), ("c", 3, false)]);
    assert_eq!(
        st.results[2].text,
        "[echo c:role-c] saw upstream: [echo a:role-a] saw upstream: no upstream — gen 42 tokens — gen 42 tokens"
    );
    assert_eq!(st.tokens, 126);
    let mut st = Ledger::new();
    let halt = StopSignal::Steady(true);
    assert!(!run_pass(&wf, &waves, "r", &None, 0, &mut st, &mut turns, &halt));
    assert!(st.results.is_empty());
}

struct Failing;

impl NodeRunner for Failing {
    fn name(&self) -> &'static str {
        "failing"
    }
    fn run(&self, node: &WorkflowNode, _inputs: &[Message]) -> Result<NodeOutcome, String> {
        Err(format!("no {}", node.id))
    }
}

#[test]
fn a_failing_node_makes_the_run_partial() {
    let wf = seed_coding_review();
    let stop = AtomicBool::new(false);
    let rep = execute(&wf, &Failing, "r".into(), 1, &stop).unwrap();
    assert_eq!(rep.status, WorkflowRunStatus::Partial);
    assert_eq!(rep.node_results[0].error, "no n1");
}

#[test]
fn a_person_is_shown_what_reached_the_gate() {
    let mut wf = seed_coding_review();
    wf.nodes[1].kind = NodeKind::Human;
    wf.inputs = vec![("task".to_string(), "do it".to_string())];
    let stop = AtomicBool::new(false);
    let rep = execute(&wf, &EchoRunner, "r".into(), 1, &stop).unwrap();
    assert_eq!(rep.node_results[0].text, "n1|do it");
    assert_eq!(rep.node_results[1].text, "n1|do it");
}

#[test]
fn the_template_has_its_roles() {
    let roles = seed_coding_review_roles();
    let wf = seed_coding_review();
    assert_eq!(roles.len(), 2);
    for (role, node) in roles.iter().zip(&wf.nodes) {
        assert_eq!(role.id, node.role_id);
    }
    assert_eq!(roles[1].inference.temperature, "0.3");
    assert_eq!(f64::from_bits(wf.nodes[0].pos.y_bits), 120.0);
    assert_eq!(f64::from_bits(wf.nodes[1].pos.y_bits), 320.0);
}
