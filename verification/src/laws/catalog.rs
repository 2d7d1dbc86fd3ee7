//! What the index holds, and the bench of roles and loops.
use vstd::prelude::*;

use crate::dedup::DupGroup;
use crate::model::{ModelFormat, ModelMeta};
use crate::order::in_order;
use crate::profile::Profile;
use crate::store::bench::{
    counts, fastest, group_of, group_upto, heads_upto, is_head, is_role_bench, latest, more_recent,
    of_workflow, per_role_bench, ranks_before, role_of, same_group, speed_of, tokens_upto,
    wall_upto, workflow_loop_passes, LoopPass, MatrixRow, RoleBenchRow, StoredRun,
};
use crate::store::index::{
    add_scan_dir, dedup_delete, from_stored, group_from, model_of_row, prune, pruned_upto,
    remove_scan_dir, row_of_model, row_paths, schema_step, stored_dirs, to_stored, DirsChange,
    ModelRow, RowPath, SchemaStep,
};
use crate::store::profiles::{
    bound_from, current_profile_for_model, ensure_model_indexed, loadout_from, IndexRow,
};
use crate::store::residents::{set_resident, Resident};
use crate::text::{opt_str, opt_text, texts};
use crate::wfstore::{list_workflow_runs, runs_upto, WorkflowRunRow};

verus! {

/// A number is stored as the signed one of the same 64 bits, and read back.
pub proof fn law_numbers_are_stored(v: u64, r: i64, w: i64, u: u64)
    requires
        call_ensures(to_stored, (v,), r),
        call_ensures(from_stored, (w,), u),
    ensures
        v <= 0x7fff_ffff_ffff_ffff ==> r == v,
        v > 0x7fff_ffff_ffff_ffff ==> r == v - 0x1_0000_0000_0000_0000,
        w >= 0 ==> u == w,
        w < 0 ==> u == w + 0x1_0000_0000_0000_0000,
        w == r ==> u == v,
{
}

/// A model is stored and read back with all that its row has; what the row
/// lacks is not known.
pub proof fn law_models_are_read_back(m: &ModelMeta, r: ModelRow, back: ModelMeta)
    requires
        call_ensures(row_of_model, (m,), r),
        call_ensures(model_of_row, (&r,), back),
    ensures
        back.path@ == m.path@,
        back.format == m.format,
        back.name@ == m.name@,
        opt_text(back.arch) == opt_text(m.arch),
        opt_text(back.quant) == opt_text(m.quant),
        back.params == m.params,
        back.n_layers == m.n_layers,
        back.n_embd == m.n_embd,
        back.ctx_train == m.ctx_train,
        back.vocab == m.vocab,
        back.weight_size == m.weight_size,
        back.footprint == m.footprint,
        back.n_head is None,
        back.n_head_kv is None,
        back.basename is None,
        r.path@ == m.path@,
        r.format@ == if m.format == ModelFormat::Gguf {
            "gguf"@
        } else {
            "safetensors-dir"@
        },
{
    crate::store::index::law_model_round_trip(*m, r, back);
}

proof fn lemma_pruned(rows: Seq<RowPath>, keep: Seq<Seq<char>>, n: int)
    requires
        0 <= n <= rows.len(),
    ensures
        forall|i: int|
            0 <= i < n && !keep.contains((#[trigger] rows[i]).1@) ==> pruned_upto(
                rows,
                keep,
                n,
            ).contains((rows[i].0, rows[i].1@)),
        forall|k: int|
            0 <= k < pruned_upto(rows, keep, n).len() ==> !keep.contains(
                (#[trigger] pruned_upto(rows, keep, n)[k]).1,
            ) && is_row(rows, pruned_upto(rows, keep, n)[k]),
    decreases n,
{
    if n > 0 {
        lemma_pruned(rows, keep, n - 1);
        let rest = pruned_upto(rows, keep, n - 1);
        let all = pruned_upto(rows, keep, n);
        assert forall|i: int| 0 <= i < n && !keep.contains((#[trigger] rows[i]).1@) implies
            all.contains((rows[i].0, rows[i].1@)) by {
            let x = (rows[i].0, rows[i].1@);
            if i == n - 1 {
                assert(all[rest.len() as int] == x);
            } else {
                assert(rest.contains(x));
                let k = choose|k: int| 0 <= k < rest.len() && rest[k] == x;
                assert(all[k] == x);
            }
        }
        assert forall|k: int| 0 <= k < all.len() implies !keep.contains((#[trigger] all[k]).1)
            && is_row(rows, all[k]) by {
            if k < rest.len() {
                assert(rest[k] == all[k]);
            } else {
                assert(all[k] == (rows[n - 1].0, rows[n - 1].1@));
            }
        }
    }
}

/// The pair is one of the rows.
pub open spec fn is_row(rows: Seq<RowPath>, r: (i64, Seq<char>)) -> bool {
    exists|i: int| 0 <= i < rows.len() && (#[trigger] rows[i]).0 == r.0 && rows[i].1@ == r.1
}

/// What is pruned is every row whose path is not to be kept, and no other.
pub proof fn law_pruned(rows: &Vec<RowPath>, keep: &Vec<String>, r: Vec<RowPath>, i: int)
    requires
        call_ensures(prune, (rows, keep), r),
    ensures
        0 <= i < rows@.len() && !texts(keep@).contains(rows@[i].1@) ==> row_paths(r@).contains(
            (rows@[i].0, rows@[i].1@),
        ),
        0 <= i < r@.len() ==> !texts(keep@).contains(r@[i].1@) && is_row(
            rows@,
            (r@[i].0, r@[i].1@),
        ),
{
    lemma_pruned(rows@, texts(keep@), rows@.len() as int);
    if 0 <= i < r@.len() {
        assert(row_paths(r@)[i] == (r@[i].0, r@[i].1@));
        let k = pruned_upto(rows@, texts(keep@), rows@.len() as int);
        assert(k[i] == (r@[i].0, r@[i].1@));
    }
}

proof fn lemma_group_at(groups: Seq<DupGroup>, id: Seq<char>, k: int, g: int)
    requires
        0 <= k <= g < groups.len(),
        groups[g].identity@ == id,
        forall|j: int| 0 <= j < g ==> (#[trigger] groups[j]).identity@ != id,
    ensures
        group_from(groups, id, k) == Some(g),
    decreases g - k,
{
    if k < g {
        assert(groups[k].identity@ != id);
        lemma_group_at(groups, id, k + 1, g);
    }
}

proof fn lemma_no_group(groups: Seq<DupGroup>, id: Seq<char>, k: int)
    requires
        0 <= k,
        forall|j: int| 0 <= j < groups.len() ==> (#[trigger] groups[j]).identity@ != id,
    ensures
        group_from(groups, id, k) is None,
    decreases groups.len() - k,
{
    if k < groups.len() {
        assert(groups[k].identity@ != id);
        lemma_no_group(groups, id, k + 1);
    }
}

/// Of the copies of an identity all are deleted but the first, which is the
/// cheapest; nothing is deleted of an identity without a group.
pub proof fn law_one_copy_stays(groups: &Vec<DupGroup>, id: &str, r: Vec<String>, g: int, k: int)
    requires
        call_ensures(dedup_delete, (groups, id), r),
    ensures
        0 <= g < groups@.len() && groups@[g].identity@ == id@ && (forall|j: int|
            0 <= j < g ==> (#[trigger] groups@[j]).identity@ != id@) && 0 < k
            < groups@[g].members@.len() ==> r@.len() == groups@[g].members@.len() - 1 && r@[k
            - 1]@ == groups@[g].members@[k].path@,
        (forall|j: int| 0 <= j < groups@.len() ==> (#[trigger] groups@[j]).identity@ != id@)
            ==> r@.len() == 0,
{
    if 0 <= g < groups@.len() && groups@[g].identity@ == id@ && (forall|j: int|
        0 <= j < g ==> (#[trigger] groups@[j]).identity@ != id@) {
        lemma_group_at(groups@, id@, 0, g);
        if 0 < k < groups@[g].members@.len() {
            assert(r@[k - 1]@ == groups@[g].members@[(k - 1) + 1].path@);
        }
    }
    if forall|j: int| 0 <= j < groups@.len() ==> (#[trigger] groups@[j]).identity@ != id@ {
        lemma_no_group(groups@, id@, 0);
    }
}

/// A directory is added once, at the end; one that is removed is gone, and the
/// others stay.
pub proof fn law_scan_directories(
    stored: Option<&str>,
    path: &str,
    a: Option<DirsChange>,
    d: Option<DirsChange>,
    other: Seq<char>,
)
    requires
        call_ensures(add_scan_dir, (stored, path), a),
        call_ensures(remove_scan_dir, (stored, path), d),
        other != path@,
    ensures
        a is None <==> stored_dirs(opt_str(stored)).contains(path@),
        d is Some <==> stored_dirs(opt_str(stored)).contains(path@),
        a is Some ==> stored_dirs(Some((a->0).value_json@)) == stored_dirs(opt_str(stored)).push(
            path@,
        ),
        d is Some ==> !stored_dirs(Some((d->0).value_json@)).contains(path@),
        d is Some ==> (stored_dirs(Some((d->0).value_json@)).contains(other) <==> stored_dirs(
            opt_str(stored),
        ).contains(other)),
{
    crate::store::index::law_removed_dir_is_gone(stored_dirs(opt_str(stored)), path@, other);
}

/// A database without a version is stamped; an older one is migrated; any
/// other is left alone.
pub proof fn law_database_versions(stored: Option<&str>, r: SchemaStep, v: int)
    requires
        call_ensures(schema_step, (stored,), r),
        stored is Some ==> crate::store::index::signed_number((stored->0)@) == Some(v),
    ensures
        stored is None ==> r is Stamp,
        stored is Some && v < 3 ==> r is Migrate && r->from == v,
        stored is Some && v >= 3 ==> r is Keep,
{
}

proof fn lemma_loadout(ps: Seq<Profile>, model: Seq<char>, name: Option<Seq<char>>, k: int, i: int)
    requires
        0 <= k <= i < ps.len(),
        is_loadout_of(ps[i], model, name),
        forall|j: int| 0 <= j < i ==> !is_loadout_of(#[trigger] ps[j], model, name),
    ensures
        loadout_from(ps, model, name, k) == Some(i),
    decreases i - k,
{
    if k < i {
        assert(!is_loadout_of(ps[k], model, name));
        lemma_loadout(ps, model, name, k + 1, i);
    }
}

proof fn lemma_no_loadout(ps: Seq<Profile>, model: Seq<char>, name: Option<Seq<char>>, k: int)
    requires
        0 <= k,
        forall|j: int| 0 <= j < ps.len() ==> !is_loadout_of(#[trigger] ps[j], model, name),
    ensures
        loadout_from(ps, model, name, k) is None,
    decreases ps.len() - k,
{
    if k < ps.len() {
        assert(!is_loadout_of(ps[k], model, name));
        lemma_no_loadout(ps, model, name, k + 1);
    }
}

/// The loadout is of the model, and of the name where one is asked for.
pub open spec fn is_loadout_of(p: Profile, model: Seq<char>, name: Option<Seq<char>>) -> bool {
    p.model@ == model && (name is Some ==> p.name@ == name->0)
}

/// No loadout of the model has the name.
pub open spec fn none_of(ps: Seq<Profile>, model: Seq<char>, name: Seq<char>) -> bool {
    forall|j: int| 0 <= j < ps.len() ==> !is_loadout_of(#[trigger] ps[j], model, Some(name))
}

proof fn lemma_unbound(ps: Seq<Profile>, rs: Seq<Resident>, model: Seq<char>, k: int)
    requires
        0 <= k,
        forall|j: int| 0 <= j < rs.len() ==> none_of(ps, model, (#[trigger] rs[j]).profile@),
    ensures
        bound_from(ps, rs, model, k) is None,
    decreases rs.len() - k,
{
    if k < rs.len() {
        assert(none_of(ps, model, rs[k].profile@));
        lemma_no_loadout(ps, model, Some(rs[k].profile@), 0);
        lemma_unbound(ps, rs, model, k + 1);
    }
}

proof fn lemma_bound(ps: Seq<Profile>, rs: Seq<Resident>, model: Seq<char>, k: int, r: int, i: int)
    requires
        0 <= k <= r < rs.len(),
        forall|j: int| 0 <= j < r ==> none_of(ps, model, (#[trigger] rs[j]).profile@),
        0 <= i < ps.len(),
        is_loadout_of(ps[i], model, Some(rs[r].profile@)),
        forall|j: int|
            0 <= j < i ==> !is_loadout_of(#[trigger] ps[j], model, Some(rs[r].profile@)),
    ensures
        bound_from(ps, rs, model, k) == Some(i),
    decreases r - k,
{
    if k < r {
        assert(none_of(ps, model, rs[k].profile@));
        lemma_no_loadout(ps, model, Some(rs[k].profile@), 0);
        lemma_bound(ps, rs, model, k + 1, r, i);
    } else {
        lemma_loadout(ps, model, Some(rs[r].profile@), 0, i);
    }
}

/// The current loadout of a model is the one that the first resident with one
/// is bound to; without such a resident the first of the model.
pub proof fn law_current_loadout(
    ps: &Vec<Profile>,
    rs: &Vec<Resident>,
    model: &str,
    out: Option<usize>,
    r: int,
    i: int,
)
    requires
        call_ensures(current_profile_for_model, (ps, rs, model), out),
    ensures
        0 <= r < rs@.len() && (forall|j: int|
            0 <= j < r ==> none_of(ps@, model@, (#[trigger] rs@[j]).profile@)) && 0 <= i < ps@.len()
            && is_loadout_of(ps@[i], model@, Some(rs@[r].profile@)) && (forall|j: int|
            0 <= j < i ==> !is_loadout_of(#[trigger] ps@[j], model@, Some(rs@[r].profile@))) ==> out
            == Some(i as usize),
        (forall|j: int| 0 <= j < rs@.len() ==> none_of(ps@, model@, (#[trigger] rs@[j]).profile@))
            && 0 <= i < ps@.len() && ps@[i].model@ == model@ && (forall|j: int|
            0 <= j < i ==> (#[trigger] ps@[j]).model@ != model@) ==> out == Some(i as usize),
        (forall|j: int| 0 <= j < ps@.len() ==> (#[trigger] ps@[j]).model@ != model@) ==> out is None,
{
    if 0 <= r < rs@.len() && (forall|j: int|
        0 <= j < r ==> none_of(ps@, model@, (#[trigger] rs@[j]).profile@)) && 0 <= i < ps@.len()
        && is_loadout_of(ps@[i], model@, Some(rs@[r].profile@)) && (forall|j: int|
        0 <= j < i ==> !is_loadout_of(#[trigger] ps@[j], model@, Some(rs@[r].profile@))) {
        lemma_bound(ps@, rs@, model@, 0, r, i);
    }
    if forall|j: int| 0 <= j < rs@.len() ==> none_of(ps@, model@, (#[trigger] rs@[j]).profile@) {
        lemma_unbound(ps@, rs@, model@, 0);
        if 0 <= i < ps@.len() && ps@[i].model@ == model@ && (forall|j: int|
            0 <= j < i ==> (#[trigger] ps@[j]).model@ != model@) {
            assert forall|j: int| 0 <= j < i implies !is_loadout_of(
                #[trigger] ps@[j],
                model@,
                None,
            ) by {
                assert(ps@[j].model@ != model@);
            }
            lemma_loadout(ps@, model@, None, 0, i);
        }
    }
    if forall|j: int| 0 <= j < ps@.len() ==> (#[trigger] ps@[j]).model@ != model@ {
        assert forall|j: int| 0 <= j < rs@.len() implies none_of(
            ps@,
            model@,
            (#[trigger] rs@[j]).profile@,
        ) by {
            assert forall|l: int| 0 <= l < ps@.len() implies !is_loadout_of(
                #[trigger] ps@[l],
                model@,
                Some(rs@[j].profile@),
            ) by {
                assert(ps@[l].model@ != model@);
            }
        }
        lemma_unbound(ps@, rs@, model@, 0);
        lemma_no_loadout(ps@, model@, None, 0);
    }
}

/// A slot keeps its flag where none is asked for; a new one has none.
pub proof fn law_residents(
    existing: Option<&Resident>,
    engine: &str,
    profile: &str,
    asked: Option<bool>,
    r: Resident,
)
    requires
        call_ensures(set_resident, (existing, engine, profile, asked), r),
    ensures
        r.engine_id@ == engine@,
        r.profile@ == profile@,
        asked is Some ==> r.resident == asked->0,
        asked is None && existing is Some ==> r.resident == (existing->0).resident,
        asked is None && existing is None ==> !r.resident,
{
}

proof fn lemma_runs(rows: Seq<WorkflowRunRow>, wf: Option<Seq<char>>, n: int)
    requires
        0 <= n <= rows.len(),
    ensures
        forall|i: int|
            0 <= i < n && (wf is None || (#[trigger] rows[i]).workflow_id@ == wf->0) ==> runs_upto(
                rows,
                wf,
                n,
            ).contains(i),
        forall|k: int|
            0 <= k < runs_upto(rows, wf, n).len() ==> 0 <= #[trigger] runs_upto(rows, wf, n)[k] < n
                && (wf is None || rows[runs_upto(rows, wf, n)[k]].workflow_id@ == wf->0),
        forall|k: int, l: int|
            0 <= k < l < runs_upto(rows, wf, n).len() ==> #[trigger] runs_upto(rows, wf, n)[k]
                < #[trigger] runs_upto(rows, wf, n)[l],
    decreases n,
{
    if n > 0 {
        lemma_runs(rows, wf, n - 1);
        let rest = runs_upto(rows, wf, n - 1);
        let all = runs_upto(rows, wf, n);
        assert forall|i: int|
            0 <= i < n && (wf is None || (#[trigger] rows[i]).workflow_id@ == wf->0) implies
            all.contains(i) by {
            if i == n - 1 {
                assert(all[rest.len() as int] == i);
            } else {
                assert(rest.contains(i));
                let k = choose|k: int| 0 <= k < rest.len() && rest[k] == i;
                assert(all[k] == i);
            }
        }
    }
}

/// The runs of a workflow are listed in order, all of them and no other; those
/// of all workflows where none is asked for.
pub proof fn law_runs_listed(
    rows: &Vec<WorkflowRunRow>,
    wf: Option<&str>,
    r: Vec<usize>,
    i: usize,
    k: int,
    l: int,
)
    requires
        call_ensures(list_workflow_runs, (rows, wf), r),
    ensures
        i < rows@.len() ==> (r@.contains(i) <==> wf is None || rows@[i as int].workflow_id@ == (
        wf->0)@),
        0 <= k < l < r@.len() ==> r@[k] < r@[l],
{
    let at = runs_upto(rows@, opt_str(wf), rows@.len() as int);
    let out = Seq::new(r@.len(), |x: int| r@[x] as int);
    lemma_runs(rows@, opt_str(wf), rows@.len() as int);
    assert(out == at);
    if i < rows@.len() {
        if wf is None || rows@[i as int].workflow_id@ == (wf->0)@ {
            assert(rows@[i as int].workflow_id@ == rows@[i as int].workflow_id@);
            assert(at.contains(i as int));
            let x = choose|x: int| 0 <= x < at.len() && at[x] == i;
            assert(out[x] == r@[x]);
            assert(r@[x] == i);
        }
        if r@.contains(i) {
            let x = choose|x: int| 0 <= x < r@.len() && r@[x] == i;
            assert(out[x] == i);
            assert(at[x] == i);
        }
    }
    if 0 <= k < l < r@.len() {
        assert(out[k] == r@[k] && out[l] == r@[l]);
        assert(at[k] < at[l]);
    }
}

/// A local model that is there gets a row; any other none.
pub proof fn law_rows_of_loadouts(model: &str, there: bool, is_dir: bool, r: Option<IndexRow>)
    requires
        call_ensures(ensure_model_indexed, (model, there, is_dir), r),
    ensures
        r is Some <==> there && crate::text::has_prefix(model@, "/"@),
        r is Some ==> (r->0).path@ == model@,
        r is Some ==> (r->0).format@ == if is_dir {
            "safetensors-dir"@
        } else {
            "gguf"@
        },
{
}

/// The run counts for the roles: it has one of them, and a speed.
pub open spec fn is_counted(roles: Seq<Seq<char>>, r: StoredRun) -> bool {
    r.row.role_id is Some && roles.contains((r.row.role_id->0)@) && r.row.tok_s is Some
}

/// The run is of a role, an engine and a model.
pub open spec fn is_of(r: StoredRun, role: Seq<char>, engine: Seq<char>, model: Seq<char>) -> bool {
    &&& r.row.role_id is Some
    &&& (r.row.role_id->0)@ == role
    &&& r.row.engine@ == engine
    &&& r.row.model@ == model
}

/// How many of the first `n` runs count for a role, an engine and a model.
pub open spec fn count_of(
    rows: Seq<StoredRun>,
    roles: Seq<Seq<char>>,
    role: Seq<char>,
    engine: Seq<char>,
    model: Seq<char>,
    n: int,
) -> int
    decreases n,
{
    if n <= 0 {
        0
    } else {
        count_of(rows, roles, role, engine, model, n - 1) + if is_counted(roles, rows[n - 1])
            && is_of(rows[n - 1], role, engine, model) {
            1int
        } else {
            0
        }
    }
}

proof fn lemma_group(rows: Seq<StoredRun>, roles: Seq<Seq<char>>, h: int, n: int)
    requires
        0 <= n <= rows.len(),
        0 <= h < rows.len(),
        counts(roles, rows[h]),
    ensures
        group_upto(rows, roles, h, n).len() == count_of(
            rows,
            roles,
            role_of(rows[h]),
            rows[h].row.engine@,
            rows[h].row.model@,
            n,
        ),
        forall|k: int|
            0 <= k < group_upto(rows, roles, h, n).len() ==> 0 <= #[trigger] group_upto(
                rows,
                roles,
                h,
                n,
            )[k] < n && is_counted(roles, rows[group_upto(rows, roles, h, n)[k]]) && is_of(
                rows[group_upto(rows, roles, h, n)[k]],
                role_of(rows[h]),
                rows[h].row.engine@,
                rows[h].row.model@,
            ),
        forall|i: int|
            0 <= i < n && is_counted(roles, #[trigger] rows[i]) && is_of(
                rows[i],
                role_of(rows[h]),
                rows[h].row.engine@,
                rows[h].row.model@,
            ) ==> group_upto(rows, roles, h, n).contains(i),
    decreases n,
{
    if n > 0 {
        lemma_group(rows, roles, h, n - 1);
        let rest = group_upto(rows, roles, h, n - 1);
        let all = group_upto(rows, roles, h, n);
        assert(counts(roles, rows[n - 1]) && same_group(rows[n - 1], rows[h]) <==> is_counted(
            roles,
            rows[n - 1],
        ) && is_of(rows[n - 1], role_of(rows[h]), rows[h].row.engine@, rows[h].row.model@));
        assert forall|i: int|
            0 <= i < n && is_counted(roles, #[trigger] rows[i]) && is_of(
                rows[i],
                role_of(rows[h]),
                rows[h].row.engine@,
                rows[h].row.model@,
            ) implies all.contains(i) by {
            if i == n - 1 {
                assert(all[rest.len() as int] == i);
            } else {
                assert(rest.contains(i));
                let k = choose|k: int| 0 <= k < rest.len() && rest[k] == i;
                assert(all[k] == i);
            }
        }
    }
}

proof fn lemma_heads(rows: Seq<StoredRun>, roles: Seq<Seq<char>>, n: int, k: int)
    requires
        0 <= n <= rows.len(),
        0 <= k < heads_upto(rows, roles, n).len(),
    ensures
        0 <= heads_upto(rows, roles, n)[k] < n,
        is_head(rows, roles, heads_upto(rows, roles, n)[k]),
    decreases n,
{
    if n > 0 && k < heads_upto(rows, roles, n - 1).len() {
        lemma_heads(rows, roles, n - 1, k);
    }
}

proof fn lemma_fastest(rows: Seq<StoredRun>, at: Seq<int>, n: int, k: int)
    requires
        0 <= k < n <= at.len(),
    ensures
        speed_of(rows[at[k]]).rank() <= fastest(rows, at, n).rank(),
    decreases n,
{
    if n > 1 {
        if k < n - 1 {
            lemma_fastest(rows, at, n - 1, k);
        } else {
            lemma_fastest(rows, at, n - 1, 0);
        }
    }
}

proof fn lemma_latest(rows: Seq<StoredRun>, at: Seq<int>, n: int, k: int) -> (x: int)
    requires
        0 <= k < n <= at.len(),
    ensures
        0 <= x < n,
        latest(rows, at, n) == at[x],
        !more_recent(rows[at[k]], rows[at[x]]),
    decreases n,
{
    if n <= 1 {
        0
    } else if k < n - 1 {
        let x = lemma_latest(rows, at, n - 1, k);
        if more_recent(rows[at[n - 1]], rows[at[x]]) {
            n - 1
        } else {
            x
        }
    } else {
        let x = lemma_latest(rows, at, n - 1, 0);
        if more_recent(rows[at[n - 1]], rows[at[x]]) {
            n - 1
        } else {
            x
        }
    }
}

/// A bench of a role with an engine and a model counts its runs; its best
/// speed is at least that of each, and what it says of the last run is of one
/// after which no run came.
pub proof fn law_bench_of_a_role(
    rows: &Vec<StoredRun>,
    roles: &Vec<String>,
    r: Vec<RoleBenchRow>,
    b: int,
    i: int,
)
    requires
        call_ensures(per_role_bench, (rows, roles), r),
        0 <= b < r@.len(),
    ensures
        r@[b].runs == count_of(
            rows@,
            texts(roles@),
            r@[b].role_id@,
            r@[b].engine@,
            r@[b].model@,
            rows@.len() as int,
        ),
        0 <= i < rows@.len() && is_counted(texts(roles@), rows@[i]) && is_of(
            rows@[i],
            r@[b].role_id@,
            r@[b].engine@,
            r@[b].model@,
        ) ==> {
            &&& (rows@[i].row.tok_s->0).rank() <= r@[b].best_tps.rank()
            &&& exists|l: int|
                {
                    &&& 0 <= l < rows@.len()
                    &&& is_of(#[trigger] rows@[l], r@[b].role_id@, r@[b].engine@, r@[b].model@)
                    &&& rows@[l].row.tok_s == Some(r@[b].last_tps)
                    &&& rows@[l].row.wall_ms == r@[b].last_wall_ms
                    &&& rows@[l].row.ttft_ms == r@[b].last_ttft_ms
                    &&& rows@[i].row.at < rows@[l].row.at || (rows@[i].row.at == rows@[l].row.at
                        && rows@[i].id <= rows@[l].id)
                }
        },
{
    let rs = texts(roles@);
    let heads = heads_upto(rows@, rs, rows@.len() as int);
    let p = choose|p: Seq<usize>|
        #[trigger] in_order(p, heads.len(), ranks_before(rows@, rs, heads)) && r@.len()
            == heads.len() && forall|i: int|
            0 <= i < r@.len() ==> is_role_bench(rows@, rs, heads[p[i] as int], #[trigger] r@[i]);
    assert(p[b] < heads.len());
    let h = heads[p[b] as int];
    assert(is_role_bench(rows@, rs, h, r@[b]));
    lemma_heads(rows@, rs, rows@.len() as int, p[b] as int);
    lemma_group(rows@, rs, h, rows@.len() as int);
    let at = group_of(rows@, rs, h);
    if 0 <= i < rows@.len() && is_counted(rs, rows@[i]) && is_of(
        rows@[i],
        r@[b].role_id@,
        r@[b].engine@,
        r@[b].model@,
    ) {
        assert(at.contains(i));
        let k = choose|k: int| 0 <= k < at.len() && at[k] == i;
        lemma_fastest(rows@, at, at.len() as int, k);
        let x = lemma_latest(rows@, at, at.len() as int, k);
        let l = at[x];
        assert(is_counted(rs, rows@[l]));
        assert(is_of(rows@[l], r@[b].role_id@, r@[b].engine@, r@[b].model@));
    }
}

/// The tokens and the time of the first `n` records of a workflow at a time.
pub open spec fn pass_upto(rows: Seq<MatrixRow>, wf: Seq<char>, at: i64, n: int) -> (int, int)
    decreases n,
{
    if n <= 0 {
        (0, 0)
    } else {
        let (tokens, wall) = pass_upto(rows, wf, at, n - 1);
        let r = rows[n - 1];
        if r.workflow_id is Some && (r.workflow_id->0)@ == wf && r.tok_s is Some && r.at == at {
            (
                tokens + if r.gen_tokens is Some {
                    r.gen_tokens->0 as int
                } else {
                    0
                },
                wall + r.wall_ms,
            )
        } else {
            (tokens, wall)
        }
    }
}

proof fn lemma_pass(rows: Seq<MatrixRow>, wf: Seq<char>, at: i64, n: int)
    requires
        0 <= n <= rows.len(),
    ensures
        pass_upto(rows, wf, at, n) == (
            tokens_upto(rows, wf, at, n) as int,
            wall_upto(rows, wf, at, n) as int,
        ),
    decreases n,
{
    if n > 0 {
        lemma_pass(rows, wf, at, n - 1);
    }
}

/// A pass of a loop adds up what its records say; the passes come the latest
/// first, one for each time.
pub proof fn law_passes_of_a_loop(
    rows: &Vec<MatrixRow>,
    wf: &str,
    r: Vec<LoopPass>,
    k: int,
    l: int,
    i: int,
)
    requires
        call_ensures(workflow_loop_passes, (rows, wf), r),
    ensures
        0 <= k < r@.len() ==> (r@[k].gen_tokens as int, r@[k].wall_ms as int) == pass_upto(
            rows@,
            wf@,
            r@[k].at,
            rows@.len() as int,
        ),
        0 <= k < l < r@.len() ==> r@[k].at > r@[l].at,
        0 <= i < rows@.len() && rows@[i].workflow_id is Some && (rows@[i].workflow_id->0)@ == wf@
            && rows@[i].tok_s is Some ==> exists|x: int|
            0 <= x < r@.len() && (#[trigger] r@[x]).at == rows@[i].at,
{
    if 0 <= k < r@.len() {
        assert(crate::store::bench::is_pass(rows@, wf@, r@[k]));
        lemma_pass(rows@, wf@, r@[k].at, rows@.len() as int);
    }
    if 0 <= i < rows@.len() && rows@[i].workflow_id is Some && (rows@[i].workflow_id->0)@ == wf@
        && rows@[i].tok_s is Some {
        assert(of_workflow(wf@, rows@[i]));
        assert(crate::store::bench::has_pass(r@, rows@[i].at));
    }
}

} // verus!
