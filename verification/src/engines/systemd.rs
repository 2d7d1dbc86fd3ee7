//! Unit lifecycle: what is written, what is backed up, and how a profile is
//! brought to serve.
use vstd::prelude::*;
use vstd::string::{StrSliceExecFns, StringExecFns};

use crate::engines::backup::{
    add_write, backed_up_at, file_steps, write_steps, FileStep, FileStepView,
};
use crate::engines::service_ops::{answered_by, ServiceBackend, ServiceCall, ServiceOps};
use crate::engines::unit::{render_unit, unit_text};
use crate::paths::{
    extension, file_name, last_step, lemma_last_pos, name_stem, path_extension, path_file_name,
    stem_of, trim_slashes,
};
use crate::profile::{engine_unit, same_but_ctx, Engine, Profile};
use crate::runtime::{path_in, path_join, RuntimeManifest};
use crate::text::{
    contains, has_prefix, has_text, lemma_lex, lemma_lex_total, lex_below, opt_text, owned, same,
    slice_string, str_contains, str_has_prefix, str_lex_below, texts, to_chars,
};

verus! {

/// A path with another extension. A path that leads to no file stays.
pub open spec fn with_extension(path: Seq<char>, ext: Seq<char>) -> Seq<char> {
    match file_name(path) {
        Some(name) => {
            let t = trim_slashes(path);
            t.take(t.len() - name.len()) + stem_of(name) + "."@ + ext
        },
        None => path,
    }
}

proof fn lemma_trimmed(s: Seq<char>)
    ensures
        trim_slashes(s).len() <= s.len(),
        trim_slashes(s) == s.take(trim_slashes(s).len() as int),
    decreases s.len(),
{
    if s.len() > 0 && s.last() == '/' || s.len() > 1 && s.last() == '.' && s[s.len() - 2] == '/' {
        lemma_trimmed(s.drop_last());
        let t = trim_slashes(s);
        assert(s.drop_last().take(t.len() as int) =~= s.take(t.len() as int));
    } else {
        assert(s.take(s.len() as int) =~= s);
    }
}

fn path_with_extension(path: &str, ext: &str) -> (r: String)
    ensures
        r@ == with_extension(path@, ext@),
{
    match path_file_name(path) {
        Some(name) => {
            let v = to_chars(path);
            let mut n: usize = v.len();
            assert(v@.take(n as int) =~= v@);
            while n > 0 && (v[n - 1] == '/' || (n > 1 && v[n - 1] == '.' && v[n - 2] == '/'))
                invariant
                    v@ == path@,
                    n <= v@.len(),
                    trim_slashes(path@) == trim_slashes(v@.take(n as int)),
                decreases n,
            {
                assert(v@.take(n as int).drop_last() =~= v@.take(n - 1));
                n = n - 1;
            }
            let ghost t = trim_slashes(path@);
            assert(t == v@.take(n as int));
            let len = name.as_str().unicode_len();
            proof {
                lemma_last_pos(t, '/');
                assert(last_step(t) == name@);
                assert(name@.len() <= t.len());
            }
            let mut r = slice_string(&v, 0, n - len);
            assert(r@ =~= t.take(t.len() - name@.len()));
            r.append(name_stem(name.as_str()).as_str());
            r.append(".");
            r.append(ext);
            r
        },
        None => owned(path),
    }
}

/// The backup of a unit, taken at a time.
pub fn backup_existing(unit_path: &str, ts: &str) -> (r: String)
    ensures
        r@ == with_extension(unit_path@, "service.bak."@ + ts@),
{
    let mut ext = owned("service.bak.");
    ext.append(ts);
    path_with_extension(unit_path, ext.as_str())
}

/// The backup of any file, taken at a time: the extension stays in front.
pub open spec fn file_backup(path: Seq<char>, ts: Seq<char>) -> Seq<char> {
    with_extension(
        path,
        (match extension(path) {
            Some(e) => e,
            None => Seq::empty(),
        }) + ".bak."@ + ts,
    )
}

/// The backup of any file, taken at a time.
pub fn backup_file(path: &str, ts: &str) -> (r: String)
    ensures
        r@ == file_backup(path@, ts@),
{
    let mut ext = match path_extension(path) {
        Some(e) => e,
        None => {
            let e = String::new();
            assert(e@ =~= Seq::<char>::empty());
            e
        },
    };
    ext.append(".bak.");
    ext.append(ts);
    path_with_extension(path, ext.as_str())
}

/// The path is that of a backup of a unit.
pub open spec fn is_backup(path: Seq<char>, unit: Seq<char>) -> bool {
    match file_name(path) {
        Some(n) => has_prefix(n, unit) && contains(n, ".bak."@),
        None => false,
    }
}

fn names_backup(path: &str, unit: &str) -> (r: bool)
    ensures
        r == is_backup(path@, unit@),
{
    match path_file_name(path) {
        Some(n) => str_has_prefix(n.as_str(), unit) && str_contains(n.as_str(), ".bak."),
        None => false,
    }
}

/// The last in order of the backups of a unit among the first `n` paths.
pub open spec fn latest_upto(paths: Seq<Seq<char>>, unit: Seq<char>, n: int) -> Option<Seq<char>>
    decreases n,
{
    if n <= 0 {
        None
    } else {
        let before = latest_upto(paths, unit, n - 1);
        if is_backup(paths[n - 1], unit) {
            match before {
                Some(b) => if lex_below(b, paths[n - 1]) {
                    Some(paths[n - 1])
                } else {
                    before
                },
                None => Some(paths[n - 1]),
            }
        } else {
            before
        }
    }
}

/// The backup of a unit to be restored: the last in order.
pub fn restore_last_good(paths: &Vec<String>, unit_name: &str) -> (r: Option<String>)
    ensures
        opt_text(r) == latest_upto(texts(paths@), unit_name@, paths@.len() as int),
{
    let ghost all = texts(paths@);
    let mut best: Option<usize> = None;
    let mut i: usize = 0;
    while i < paths.len()
        invariant
            all == texts(paths@),
            i <= paths@.len(),
            match best {
                Some(b) => b < i && latest_upto(all, unit_name@, i as int) == Some(all[b as int]),
                None => latest_upto(all, unit_name@, i as int) is None,
            },
        decreases paths@.len() - i,
    {
        assert(all[i as int] == paths@[i as int]@);
        if names_backup(paths[i].as_str(), unit_name) {
            match best {
                Some(b) => {
                    if str_lex_below(paths[b].as_str(), paths[i].as_str()) {
                        best = Some(i);
                    }
                },
                None => {
                    best = Some(i);
                },
            }
        }
        i = i + 1;
    }
    match best {
        Some(b) => Some(owned(paths[b].as_str())),
        None => None,
    }
}

/// The backup that is restored is one of the unit's, and none of the others
/// comes after it.
pub proof fn law_restores_latest(paths: Seq<Seq<char>>, unit: Seq<char>, n: int, i: int)
    requires
        0 <= i < n <= paths.len(),
        is_backup(paths[i], unit),
    ensures
        ({
            let r = latest_upto(paths, unit, n);
            r is Some && is_backup(r->0, unit) && !lex_below(r->0, paths[i])
        }),
    decreases n,
{
    if i < n - 1 {
        law_restores_latest(paths, unit, n - 1, i);
        let b = latest_upto(paths, unit, n - 1)->0;
        lemma_lex(b, paths[n - 1], paths[i]);
        lemma_lex(paths[n - 1], paths[i], b);
        lemma_lex(b, paths[i], paths[n - 1]);
        lemma_lex_total(b, paths[n - 1]);
    } else {
        lemma_latest_is_backup(paths, unit, n - 1);
        lemma_lex_total(paths[i], paths[i]);
    }
}

proof fn lemma_latest_is_backup(paths: Seq<Seq<char>>, unit: Seq<char>, n: int)
    requires
        0 <= n <= paths.len(),
    ensures
        match latest_upto(paths, unit, n) {
            Some(b) => is_backup(b, unit),
            None => true,
        },
    decreases n,
{
    if n > 0 {
        lemma_latest_is_backup(paths, unit, n - 1);
    }
}

/// The drop-in that lifts the limit on locked memory.
pub open spec fn memlock_path(dir: Seq<char>) -> Seq<char> {
    path_in(dir, "llama-server.d/memlock.conf"@)
}

/// The files that installing a profile writes: its unit; a copy among the
/// generated files; and for llama.cpp a drop-in.
pub open spec fn installed_paths(p: Profile, dir: Seq<char>, generated: Seq<char>) -> Seq<Seq<char>> {
    let units = seq![
        path_in(dir, engine_unit(p.engine)),
        path_in(generated, engine_unit(p.engine)),
    ];
    if p.engine == Engine::LlamaCpp {
        units.push(memlock_path(dir))
    } else {
        units
    }
}

/// The files that installing a profile writes.
pub fn install_paths(p: &Profile, dir: &str, generated: &str) -> (r: Vec<String>)
    ensures
        texts(r@) == installed_paths(*p, dir@, generated@),
{
    let unit = p.engine.systemd_unit();
    let mut r: Vec<String> = Vec::new();
    r.push(path_join(dir, unit));
    r.push(path_join(generated, unit));
    if p.engine == Engine::LlamaCpp {
        r.push(path_join(dir, "llama-server.d/memlock.conf"));
    }
    assert(texts(r@) =~= installed_paths(*p, dir@, generated@));
    r
}

/// The steps that install a profile. `there` are the paths of files that
/// exist; each is backed up before it is written the first time.
pub open spec fn install_steps(
    p: Profile,
    ms: Seq<RuntimeManifest>,
    dir: Seq<char>,
    generated: Seq<char>,
    there: Seq<Seq<char>>,
    ts: Seq<char>,
) -> Seq<FileStepView> {
    let unit = path_in(dir, engine_unit(p.engine));
    let copy = path_in(generated, engine_unit(p.engine));
    let drop_in = memlock_path(dir);
    let units = write_steps(unit, unit_text(p, ms), there.contains(unit), ts) + write_steps(
        copy,
        unit_text(p, ms),
        there.contains(copy) && copy != unit,
        ts,
    );
    if p.engine == Engine::LlamaCpp {
        units + write_steps(
            drop_in,
            "[Service]\nLimitMEMLOCK=infinity\n"@,
            there.contains(drop_in) && drop_in != unit && drop_in != copy,
            ts,
        )
    } else {
        units
    }
}

/// The steps that install a profile, where the files at `there` exist. Backups
/// carry the time `ts` in their names.
pub fn install(
    p: &Profile,
    manifests: &Vec<RuntimeManifest>,
    dir: &str,
    generated: &str,
    there: &Vec<String>,
    ts: &str,
) -> (r: Vec<FileStep>)
    ensures
        file_steps(r@) == install_steps(*p, manifests@, dir@, generated@, texts(there@), ts@),
{
    let unit = p.engine.systemd_unit();
    let content = render_unit(p, manifests);
    let path = path_join(dir, unit);
    let copy = path_join(generated, unit);
    let mut r: Vec<FileStep> = Vec::new();
    assert(file_steps(r@) =~= Seq::<FileStepView>::empty());
    let copy_there = has_text(there, copy.as_str()) && !same(copy.as_str(), path.as_str());
    let drop_in = path_join(dir, "llama-server.d/memlock.conf");
    let drop_in_there = has_text(there, drop_in.as_str()) && !same(
        drop_in.as_str(),
        path.as_str(),
    ) && !same(drop_in.as_str(), copy.as_str());
    let path_there = has_text(there, path.as_str());
    let ghost first = write_steps(path@, content@, path_there, ts@);
    let ghost second = write_steps(copy@, content@, copy_there, ts@);
    add_write(&mut r, path, owned(content.as_str()), path_there, ts);
    assert(file_steps(r@) =~= first);
    add_write(&mut r, copy, content, copy_there, ts);
    assert(file_steps(r@) == first + second);
    if p.engine == Engine::LlamaCpp {
        add_write(
            &mut r,
            drop_in,
            owned("[Service]\nLimitMEMLOCK=infinity\n"),
            drop_in_there,
            ts,
        );
    }
    r
}

/// An installation writes over a file only after it backed it up.
pub proof fn law_install_backs_up(
    p: Profile,
    ms: Seq<RuntimeManifest>,
    dir: Seq<char>,
    generated: Seq<char>,
    there: Seq<Seq<char>>,
    ts: Seq<char>,
    k: int,
)
    requires
        0 <= k < install_steps(p, ms, dir, generated, there, ts).len(),
        install_steps(p, ms, dir, generated, there, ts)[k] is Write,
        there.contains(install_steps(p, ms, dir, generated, there, ts)[k]->Write_0),
    ensures
        exists|j: int| #[trigger]
            backed_up_at(install_steps(p, ms, dir, generated, there, ts), k, j, ts),
{
    let steps = install_steps(p, ms, dir, generated, there, ts);
    let unit = path_in(dir, engine_unit(p.engine));
    let copy = path_in(generated, engine_unit(p.engine));
    let drop_in = memlock_path(dir);
    let a = write_steps(unit, unit_text(p, ms), there.contains(unit), ts);
    let b = write_steps(copy, unit_text(p, ms), there.contains(copy) && copy != unit, ts);
    let path = steps[k]->Write_0;
    let at = if path == unit {
        0
    } else if path == copy {
        a.len() as int
    } else {
        (a + b).len() as int
    };
    if p.engine == Engine::LlamaCpp {
        let c = write_steps(
            drop_in,
            "[Service]\nLimitMEMLOCK=infinity\n"@,
            there.contains(drop_in) && drop_in != unit && drop_in != copy,
            ts,
        );
        assert(steps =~= a + b + c);
    } else {
        assert(steps =~= a + b);
    }
    assert(backed_up_at(steps, k, at, ts));
}

/// How bringing a profile up ended.
#[derive(Debug, Clone, Copy, PartialEq, Eq, Structural)]
pub enum Applied {
    /// Nothing was touched.
    DryRun,
    /// It serves at a context.
    Serving { ctx: u32 },
    /// No context served; the unit that was there before was restored and
    /// started.
    Restored,
    /// No context served, and there was nothing to restore.
    Lost,
}

/// Where bringing a profile up stands: the action that comes next, or how it
/// ended.
#[derive(Debug, Clone, Copy, PartialEq, Eq, Structural)]
pub enum ApplyPhase {
    /// Install the profile at the context that is due.
    Install,
    /// Look for the backup of what was there before the first install.
    Remember,
    /// Start the unit.
    Start,
    /// Look whether it serves.
    Check,
    /// Put the backup back.
    Restore,
    /// Start what was put back.
    Restart,
    Serving,
    Restored,
    Lost,
    /// The unit could not be installed or started.
    Broken,
}

/// The state of bringing a profile up.
pub struct ApplyView {
    pub phase: ApplyPhase,
    /// Which context of the ladder is due.
    pub rung: nat,
    /// The backup of the unit that was there before the first install.
    pub good: Option<Seq<char>>,
    pub error: Seq<char>,
}

/// The contexts that are tried, in order.
pub open spec fn ladder(p: Profile) -> Seq<u32> {
    seq![p.ctx_size] + p.ctx_ladder@
}

/// At the start the configured context is due.
pub open spec fn apply_start() -> ApplyView {
    ApplyView { phase: ApplyPhase::Install, rung: 0, good: None, error: Seq::empty() }
}

/// The phase is an end.
pub open spec fn is_end(p: ApplyPhase) -> bool {
    p == ApplyPhase::Serving || p == ApplyPhase::Restored || p == ApplyPhase::Lost || p
        == ApplyPhase::Broken
}

/// The error of a result.
pub open spec fn error_view(r: Result<(), String>) -> Option<Seq<char>> {
    match r {
        Ok(_) => None,
        Err(e) => Some(e@),
    }
}

/// The state after a call. What is remembered is the last in order of the
/// backups that there are after the first install.
pub open spec fn apply_step(s: ApplyView, c: ServiceCall, unit: Seq<char>, rungs: nat) -> ApplyView {
    match c {
        ServiceCall::Install { result, .. } => match error_view(result) {
            Some(e) => ApplyView { phase: ApplyPhase::Broken, error: e, ..s },
            None => ApplyView {
                phase: if s.rung == 0 {
                    ApplyPhase::Remember
                } else {
                    ApplyPhase::Start
                },
                ..s
            },
        },
        ServiceCall::UnitFiles { paths } => ApplyView {
            phase: ApplyPhase::Start,
            good: latest_upto(paths, unit, paths.len() as int),
            ..s
        },
        ServiceCall::Start { result, .. } => if s.phase == ApplyPhase::Restart {
            ApplyView { phase: ApplyPhase::Restored, ..s }
        } else {
            match error_view(result) {
                Some(e) => ApplyView { phase: ApplyPhase::Broken, error: e, ..s },
                None => ApplyView { phase: ApplyPhase::Check, ..s },
            }
        },
        ServiceCall::Health { up, .. } => if up {
            ApplyView { phase: ApplyPhase::Serving, ..s }
        } else if s.rung + 1 < rungs {
            ApplyView { phase: ApplyPhase::Install, rung: s.rung + 1, ..s }
        } else if s.good is Some {
            ApplyView { phase: ApplyPhase::Restore, ..s }
        } else {
            ApplyView { phase: ApplyPhase::Lost, ..s }
        },
        ServiceCall::Restore { restored, .. } => ApplyView {
            phase: if restored {
                ApplyPhase::Restart
            } else {
                ApplyPhase::Lost
            },
            ..s
        },
    }
}

/// The state after the first `n` calls.
pub open spec fn apply_after(p: Profile, calls: Seq<ServiceCall>, n: int) -> ApplyView
    decreases n,
{
    if n <= 0 {
        apply_start()
    } else {
        apply_step(
            apply_after(p, calls, n - 1),
            calls[n - 1],
            engine_unit(p.engine),
            ladder(p).len(),
        )
    }
}

/// The call is the action that is due in a state.
pub open spec fn is_action(p: Profile, s: ApplyView, c: ServiceCall) -> bool {
    match (s.phase, c) {
        (ApplyPhase::Install, ServiceCall::Install { profile, .. }) => same_but_ctx(profile, p)
            && profile.ctx_size == ladder(p)[s.rung as int],
        (ApplyPhase::Remember, ServiceCall::UnitFiles { .. }) => true,
        (ApplyPhase::Start, ServiceCall::Start { unit, .. }) => unit == engine_unit(p.engine),
        (ApplyPhase::Check, ServiceCall::Health { host, port, .. }) => host == p.host@ && port
            == p.port,
        (ApplyPhase::Restore, ServiceCall::Restore { backup, unit, .. }) => s.good == Some(backup)
            && unit == engine_unit(p.engine),
        (ApplyPhase::Restart, ServiceCall::Start { unit, .. }) => unit == engine_unit(p.engine),
        _ => false,
    }
}

/// Call `k` is the action that was due.
pub open spec fn due(p: Profile, calls: Seq<ServiceCall>, k: int) -> bool {
    is_action(p, apply_after(p, calls, k), calls[k])
}

/// What is answered in an end.
pub open spec fn is_answer(p: Profile, s: ApplyView, r: Result<Applied, String>) -> bool {
    match s.phase {
        ApplyPhase::Serving => r is Ok && r->Ok_0 == (Applied::Serving {
            ctx: ladder(p)[s.rung as int],
        }),
        ApplyPhase::Restored => r is Ok && r->Ok_0 == Applied::Restored,
        ApplyPhase::Lost => r is Ok && r->Ok_0 == Applied::Lost,
        ApplyPhase::Broken => r is Err && r->Err_0@ == s.error,
        _ => false,
    }
}

/// The calls are those of bringing the profile up, to the end, each the action
/// that was due; and the result says how it ended.
pub open spec fn applied_by(p: Profile, calls: Seq<ServiceCall>, r: Result<Applied, String>) -> bool {
    &&& forall|k: int| 0 <= k < calls.len() ==> #[trigger] due(p, calls, k)
    &&& is_answer(p, apply_after(p, calls, calls.len() as int), r)
}

proof fn lemma_prefix(p: Profile, calls: Seq<ServiceCall>, more: Seq<ServiceCall>, n: int)
    requires
        0 <= n <= calls.len() <= more.len(),
        forall|k: int| 0 <= k < n ==> calls[k] == more[k],
    ensures
        apply_after(p, calls, n) == apply_after(p, more, n),
    decreases n,
{
    if n > 0 {
        lemma_prefix(p, calls, more, n - 1);
    }
}

proof fn lemma_one_more(p: Profile, calls: Seq<ServiceCall>, c: ServiceCall)
    requires
        forall|k: int| 0 <= k < calls.len() ==> #[trigger] due(p, calls, k),
        is_action(p, apply_after(p, calls, calls.len() as int), c),
    ensures
        forall|k: int| 0 <= k < calls.push(c).len() ==> #[trigger] due(p, calls.push(c), k),
        apply_after(p, calls.push(c), calls.push(c).len() as int) == apply_step(
            apply_after(p, calls, calls.len() as int),
            c,
            engine_unit(p.engine),
            ladder(p).len(),
        ),
{
    let more = calls.push(c);
    lemma_prefix(p, calls, more, calls.len() as int);
    assert forall|k: int| 0 <= k < more.len() implies #[trigger] due(p, more, k) by {
        lemma_prefix(p, calls, more, k);
        if k < calls.len() {
            assert(due(p, calls, k));
        }
    }
}

/// How far a profile was brought up.
struct Applying {
    phase: ApplyPhase,
    rung: usize,
    good: Option<String>,
    error: String,
}

impl View for Applying {
    type V = ApplyView;

    closed spec fn view(&self) -> ApplyView {
        ApplyView {
            phase: self.phase,
            rung: self.rung as nat,
            good: opt_text(self.good),
            error: self.error@,
        }
    }
}

/// How many actions are left at most from a phase on, within one context.
spec fn actions_left(p: ApplyPhase) -> nat {
    match p {
        ApplyPhase::Install => 9,
        ApplyPhase::Remember => 8,
        ApplyPhase::Start => 7,
        ApplyPhase::Check => 6,
        ApplyPhase::Restore => 5,
        ApplyPhase::Restart => 4,
        _ => 0,
    }
}

impl Applying {
    fn answered(&mut self, result: Result<(), String>, next: ApplyPhase)
        ensures
            final(self)@ == match error_view(result) {
                Some(e) => ApplyView { phase: ApplyPhase::Broken, error: e, ..old(self)@ },
                None => ApplyView { phase: next, ..old(self)@ },
            },
    {
        match result {
            Ok(_) => {
                self.phase = next;
            },
            Err(e) => {
                self.error = e;
                self.phase = ApplyPhase::Broken;
            },
        }
    }

    /// Performs the action that is due and moves on by its answer.
    fn act<B: ServiceBackend>(&mut self, ops: &mut ServiceOps<B>, p: &Profile, steps: &Vec<u32>)
        requires
            steps@ == ladder(*p),
            old(self)@.rung < steps@.len(),
            old(self)@.phase == ApplyPhase::Restore ==> old(self)@.good is Some,
            !is_end(old(self)@.phase),
        ensures
            final(ops).backend() == old(ops).backend(),
            final(ops)@.len() == old(ops)@.len() + 1,
            final(ops)@.drop_last() == old(ops)@,
            is_action(*p, old(self)@, final(ops)@.last()),
            answered_by(old(ops).backend(), final(ops)@.last()),
            final(self)@ == apply_step(
                old(self)@,
                final(ops)@.last(),
                engine_unit(p.engine),
                steps@.len(),
            ),
    {
        let unit = p.engine.systemd_unit();
        let ghost before = ops@;
        match self.phase {
            ApplyPhase::Install => {
                let draft = p.at_ctx(steps[self.rung]);
                let next = if self.rung == 0 {
                    ApplyPhase::Remember
                } else {
                    ApplyPhase::Start
                };
                let result = ops.install(&draft);
                self.answered(result, next);
            },
            ApplyPhase::Remember => {
                let paths = ops.unit_files();
                self.good = restore_last_good(&paths, unit);
                self.phase = ApplyPhase::Start;
            },
            ApplyPhase::Start => {
                let result = ops.start(unit);
                self.answered(result, ApplyPhase::Check);
            },
            ApplyPhase::Check => {
                if ops.healthy(p.host.as_str(), p.port) {
                    self.phase = ApplyPhase::Serving;
                } else if self.rung < steps.len() - 1 {
                    self.rung = self.rung + 1;
                    self.phase = ApplyPhase::Install;
                } else if self.good.is_some() {
                    self.phase = ApplyPhase::Restore;
                } else {
                    self.phase = ApplyPhase::Lost;
                }
            },
            ApplyPhase::Restore => {
                let done = match &self.good {
                    Some(backup) => ops.restore(backup.as_str(), unit),
                    None => false,
                };
                self.phase = if done {
                    ApplyPhase::Restart
                } else {
                    ApplyPhase::Lost
                };
            },
            _ => {
                let _ = ops.start(unit);
                self.phase = ApplyPhase::Restored;
            },
        }
        assert(ops@.drop_last() =~= before);
    }
}

/// Brings a profile to serve: installs it, starts it and waits for its health.
/// Where it does not serve, the ladder of contexts is walked, and at its end the
/// unit that was there before is restored from its backup and started.
pub fn apply<B: ServiceBackend>(p: &Profile, dry_run: bool, ops: &mut ServiceOps<B>) -> (r: Result<
    Applied,
    String,
>)
    ensures
        final(ops).backend() == old(ops).backend(),
        dry_run ==> r == Ok::<Applied, String>(Applied::DryRun) && final(ops)@ == old(ops)@,
        !dry_run ==> ({
            let n = old(ops)@.len();
            let calls = final(ops)@.skip(n as int);
            &&& n <= final(ops)@.len()
            &&& final(ops)@.take(n as int) == old(ops)@
            &&& applied_by(*p, calls, r)
            &&& forall|k: int|
                0 <= k < calls.len() ==> answered_by(old(ops).backend(), #[trigger] calls[k])
        }),
{
    if dry_run {
        return Ok(Applied::DryRun);
    }
    let steps = p.active_ladder();
    let ghost before = ops@;
    let ghost n = before.len() as int;
    let ghost backend = ops.backend();
    let mut state = Applying {
        phase: ApplyPhase::Install,
        rung: 0,
        good: None,
        error: String::new(),
    };
    while state.phase != ApplyPhase::Serving && state.phase != ApplyPhase::Restored && state.phase
        != ApplyPhase::Lost && state.phase != ApplyPhase::Broken
        invariant
            !dry_run,
            steps@ == ladder(*p),
            n == before.len(),
            n <= ops@.len(),
            ops@.take(n) == before,
            ops.backend() == backend,
            state.rung < steps@.len(),
            state.phase == ApplyPhase::Restore ==> state.good is Some,
            state@ == apply_after(*p, ops@.skip(n), ops@.len() - n),
            forall|k: int| 0 <= k < ops@.len() - n ==> #[trigger] due(*p, ops@.skip(n), k),
            forall|k: int|
                0 <= k < ops@.len() - n ==> answered_by(backend, #[trigger] ops@.skip(n)[k]),
        decreases steps@.len() - state.rung, actions_left(state.phase),
    {
        let ghost made = ops@.skip(n);
        state.act(ops, p, &steps);
        proof {
            let c = ops@.last();
            assert(ops@.skip(n) =~= made.push(c));
            assert(ops@.take(n) =~= before);
            lemma_one_more(*p, made, c);
        }
    }
    match state.phase {
        ApplyPhase::Serving => Ok(Applied::Serving { ctx: steps[state.rung] }),
        ApplyPhase::Restored => Ok(Applied::Restored),
        ApplyPhase::Lost => Ok(Applied::Lost),
        _ => Err(state.error),
    }
}

/// The files that were there after the first install.
pub open spec fn first_files(calls: Seq<ServiceCall>) -> Seq<Seq<char>> {
    match calls[1] {
        ServiceCall::UnitFiles { paths } => paths,
        _ => Seq::empty(),
    }
}

proof fn lemma_remembered(p: Profile, calls: Seq<ServiceCall>, n: int)
    requires
        0 <= n <= calls.len(),
        forall|k: int| 0 <= k < calls.len() ==> #[trigger] due(p, calls, k),
    ensures
        ({
            let s = apply_after(p, calls, n);
            &&& n == 0 ==> s == apply_start()
            &&& n == 1 ==> s.phase == ApplyPhase::Remember || s.phase == ApplyPhase::Broken
            &&& n >= 1 ==> calls[0] is Install
            &&& n >= 2 ==> {
                &&& calls[1] is UnitFiles
                &&& s.good == latest_upto(
                    first_files(calls),
                    engine_unit(p.engine),
                    first_files(calls).len() as int,
                )
                &&& s.phase != ApplyPhase::Remember
                &&& s.phase == ApplyPhase::Install ==> s.rung > 0
            }
        }),
    decreases n,
{
    if n > 0 {
        lemma_remembered(p, calls, n - 1);
        assert(due(p, calls, n - 1));
    }
}

/// What is restored is the latest backup of those that were there after the
/// first install, before any other: the unit that the profile replaced. It is
/// started again at the end.
pub proof fn law_restores_replaced_unit(p: Profile, calls: Seq<ServiceCall>)
    requires
        applied_by(p, calls, Ok(Applied::Restored)),
    ensures
        calls.len() > 3,
        calls[0] is Install,
        calls[1] is UnitFiles,
        ({
            let unit = engine_unit(p.engine);
            let paths = first_files(calls);
            &&& match calls[calls.len() - 2] {
                ServiceCall::Restore { backup, unit: u, restored } => u == unit && restored
                    && latest_upto(paths, unit, paths.len() as int) == Some(backup),
                _ => false,
            }
            &&& match calls[calls.len() - 1] {
                ServiceCall::Start { unit: u, .. } => u == unit,
                _ => false,
            }
        }),
{
    let n = calls.len() as int;
    lemma_remembered(p, calls, n);
    assert(due(p, calls, n - 1));
    assert(apply_after(p, calls, n - 1).phase == ApplyPhase::Restart);
    lemma_remembered(p, calls, n - 1);
    assert(due(p, calls, n - 2));
    assert(apply_after(p, calls, n - 2).phase == ApplyPhase::Restore);
    lemma_remembered(p, calls, n - 2);
}

/// A profile that serves was found healthy by the last call, at a context of
/// its ladder.
pub proof fn law_serving_ends(p: Profile, calls: Seq<ServiceCall>, ctx: u32)
    requires
        applied_by(p, calls, Ok(Applied::Serving { ctx })),
    ensures
        calls.len() > 0,
        calls[calls.len() - 1] == (ServiceCall::Health { host: p.host@, port: p.port, up: true }),
        ladder(p).contains(ctx),
{
    let n = calls.len() as int;
    lemma_rung(p, calls, n);
    assert(due(p, calls, n - 1));
    let s = apply_after(p, calls, n);
    assert(ladder(p)[s.rung as int] == ctx);
}

proof fn lemma_rung(p: Profile, calls: Seq<ServiceCall>, n: int)
    requires
        0 <= n <= calls.len(),
        forall|k: int| 0 <= k < calls.len() ==> #[trigger] due(p, calls, k),
    ensures
        apply_after(p, calls, n).rung < ladder(p).len(),
    decreases n,
{
    if n > 0 {
        lemma_rung(p, calls, n - 1);
    }
}

} // verus!
