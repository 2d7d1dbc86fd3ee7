//! Grid plumbing: turns what a user asks for into the cells and tasks that a
//! grid runs.
use vstd::prelude::*;
use vstd::string::StringExecFns;

use crate::engines::matrix::{bin_of, find_engine_bin, MatrixCell};
use crate::order::{in_order, is_stable_order, lemma_in_order, stable_order, Alphabetical};
use crate::paths::{extension, file_name, path_extension, path_file_name};
use crate::profile::{engine_display, engine_source, Engine, ModelSource};
use crate::text::{
    chars_until, debug_text, lex_below, owned, same, slice_string, str_debug, str_trim, texts,
    to_chars, trim, until,
};

verus! {

/// The configured binary of an engine.
pub open spec fn configured(bins: Seq<(Engine, String)>, e: Engine) -> Option<Seq<char>> {
    if e == Engine::UncensoredLlamaCpp {
        None
    } else {
        bin_of(bins, e)
    }
}

fn copy_bins(v: &Vec<(Engine, String)>) -> (r: Vec<(Engine, String)>)
    ensures
        r@.len() == v@.len(),
        forall|i: int| 0 <= i < r@.len() ==> (#[trigger] r@[i]).0 == v@[i].0 && r@[i].1@ == v@[i].1@,
{
    let mut r: Vec<(Engine, String)> = Vec::new();
    let mut i: usize = 0;
    while i < v.len()
        invariant
            i <= v@.len(),
            r@.len() == i,
            forall|j: int|
                0 <= j < i ==> (#[trigger] r@[j]).0 == v@[j].0 && r@[j].1@ == v@[j].1@,
        decreases v@.len() - i,
    {
        r.push((v[i].0, owned(v[i].1.as_str())));
        i = i + 1;
    }
    r
}

proof fn lemma_bin_same(a: Seq<(Engine, String)>, b: Seq<(Engine, String)>, e: Engine)
    requires
        a.len() == b.len(),
        forall|i: int| 0 <= i < a.len() ==> (#[trigger] a[i]).0 == b[i].0 && a[i].1@ == b[i].1@,
    ensures
        bin_of(a, e) == bin_of(b, e),
    decreases a.len(),
{
    if a.len() > 0 {
        assert(a[0].0 == b[0].0);
        let x = a.drop_first();
        let y = b.drop_first();
        assert forall|i: int| 0 <= i < x.len() implies (#[trigger] x[i]).0 == y[i].0 && x[i].1@
            == y[i].1@ by {
            assert(a[i + 1].0 == b[i + 1].0);
        }
        lemma_bin_same(x, y, e);
    }
}

proof fn lemma_bin_push(a: Seq<(Engine, String)>, x: (Engine, String), e: Engine)
    ensures
        bin_of(a.push(x), e) == match bin_of(a, e) {
            Some(b) => Some(b),
            None => if x.0 == e {
                Some(x.1@)
            } else {
                None
            },
        },
    decreases a.len(),
{
    if a.len() > 0 {
        lemma_bin_push(a.drop_first(), x, e);
        assert(a.push(x).drop_first() =~= a.drop_first().push(x));
        assert(a.push(x)[0] == a[0]);
    } else {
        let rest = a.push(x).drop_first();
        assert(rest =~= Seq::<(Engine, String)>::empty());
        assert(bin_of(rest, e) is None);
        assert(a.push(x)[0] == x);
    }
}

/// The binaries of a grid: what was passed wins, else what is configured.
pub fn resolve_bins(explicit: &Vec<(Engine, String)>, configured_bins: &Vec<(Engine, String)>) -> (r:
    Vec<(Engine, String)>)
    ensures
        forall|e: Engine|
            #[trigger] bin_of(r@, e) == match bin_of(explicit@, e) {
                Some(b) => Some(b),
                None => configured(configured_bins@, e),
            },
{
    let mut r = copy_bins(explicit);
    let ghost base = r@;
    proof {
        assert forall|e: Engine| bin_of(base, e) == bin_of(explicit@, e) by {
            lemma_bin_same(base, explicit@, e);
        }
    }
    let engines: Vec<Engine> = vec![Engine::LlamaCpp, Engine::FreeToken, Engine::Ollama];
    let mut i: usize = 0;
    while i < engines.len()
        invariant
            engines@ == seq![Engine::LlamaCpp, Engine::FreeToken, Engine::Ollama],
            i <= engines@.len(),
            forall|e: Engine|
                #[trigger] bin_of(r@, e) == match bin_of(explicit@, e) {
                    Some(b) => Some(b),
                    None => if engines@.take(i as int).contains(e) {
                        bin_of(configured_bins@, e)
                    } else {
                        None
                    },
                },
        decreases engines@.len() - i,
    {
        let e = engines[i];
        let ghost before = r@;
        let ghost seen = engines@.take(i as int);
        let ghost more = engines@.take(i + 1);
        assert(more =~= seen.push(e));
        assert(!seen.contains(e)) by {
            assert(engines@[0] != engines@[1] && engines@[1] != engines@[2] && engines@[0]
                != engines@[2]);
        }
        if find_engine_bin(&r, e).is_none() {
            match find_engine_bin(configured_bins, e) {
                Some(b) => {
                    let x = (e, owned(b.as_str()));
                    r.push(x);
                    proof {
                        assert forall|f: Engine| #[trigger]
                            bin_of(r@, f) == match bin_of(before, f) {
                                Some(b) => Some(b),
                                None => if f == e {
                                    bin_of(configured_bins@, e)
                                } else {
                                    None
                                },
                            } by {
                            lemma_bin_push(before, x, f);
                        }
                    }
                },
                None => {},
            }
        }
        proof {
            assert forall|f: Engine| #[trigger]
                bin_of(r@, f) == match bin_of(explicit@, f) {
                    Some(b) => Some(b),
                    None => if more.contains(f) {
                        bin_of(configured_bins@, f)
                    } else {
                        None
                    },
                } by {
                assert(bin_of(before, f) == match bin_of(explicit@, f) {
                    Some(b) => Some(b),
                    None => if seen.contains(f) {
                        bin_of(configured_bins@, f)
                    } else {
                        None
                    },
                });
                if f == e {
                    assert(more[i as int] == e);
                    assert(more.contains(e));
                } else {
                    if more.contains(f) {
                        let k = choose|k: int| 0 <= k < more.len() && more[k] == f;
                        assert(seen[k] == f);
                    }
                    if seen.contains(f) {
                        let k = choose|k: int| 0 <= k < seen.len() && seen[k] == f;
                        assert(more[k] == f);
                    }
                }
            }
        }
        i = i + 1;
    }
    proof {
        let all = engines@.take(i as int);
        assert(all =~= engines@);
        assert(all[0] == Engine::LlamaCpp && all[1] == Engine::FreeToken && all[2]
            == Engine::Ollama);
        assert forall|e: Engine| all.contains(e) == (e != Engine::UncensoredLlamaCpp) by {
            if all.contains(e) {
                let k = choose|k: int| 0 <= k < all.len() && all[k] == e;
            }
        }
    }
    r
}

/// The file is a GGUF file by its name.
pub open spec fn is_gguf(path: Seq<char>) -> bool {
    extension(path) == Some("gguf"@)
}

fn named_gguf(path: &str) -> (r: bool)
    ensures
        r == is_gguf(path@),
{
    match path_extension(path) {
        Some(e) => same(e.as_str(), "gguf"),
        None => false,
    }
}

/// The GGUF files among the first `n` files.
pub open spec fn gguf_upto(files: Seq<Seq<char>>, n: int) -> Seq<Seq<char>>
    decreases n,
{
    if n <= 0 {
        Seq::empty()
    } else {
        let rest = gguf_upto(files, n - 1);
        if is_gguf(files[n - 1]) {
            rest.push(files[n - 1])
        } else {
            rest
        }
    }
}

/// Compares the texts of a list.
pub open spec fn text_below(v: Seq<Seq<char>>) -> spec_fn(int, int) -> bool {
    |i: int, j: int| lex_below(v[i], v[j])
}

/// `r` holds the texts of `v` in order.
pub open spec fn is_sorted_texts(r: Seq<Seq<char>>, v: Seq<Seq<char>>) -> bool {
    exists|p: Seq<usize>|
        #[trigger] in_order(p, v.len(), text_below(v)) && r.len() == v.len() && forall|i: int|
            0 <= i < r.len() ==> #[trigger] r[i] == v[p[i] as int]
}

/// The texts of a list in order.
pub fn sorted_texts(v: Vec<String>) -> (r: Vec<String>)
    ensures
        is_sorted_texts(texts(r@), texts(v@)),
{
    let ghost all = texts(v@);
    let keys = Alphabetical { keys: v };
    let p = stable_order(&keys);
    let mut r: Vec<String> = Vec::new();
    let mut k: usize = 0;
    while k < p.len()
        invariant
            all == texts(keys.keys@),
            is_stable_order(&keys, p@),
            k <= p@.len(),
            r@.len() == k,
            forall|j: int| 0 <= j < k ==> (#[trigger] r@[j])@ == all[p@[j] as int],
        decreases p@.len() - k,
    {
        assert(p@[k as int] < keys.keys@.len());
        r.push(owned(keys.keys[p[k]].as_str()));
        k = k + 1;
    }
    proof {
        lemma_in_order(&keys, p@, text_below(all));
        assert(in_order(p@, all.len(), text_below(all)));
    }
    r
}

/// The GGUF files of a model: those of a directory, in order, or the file
/// itself.
pub open spec fn are_quant_files(
    r: Result<Vec<String>, String>,
    model: Seq<char>,
    listing: Option<Seq<Seq<char>>>,
) -> bool {
    match listing {
        Some(files) => {
            let found = gguf_upto(files, files.len() as int);
            if found.len() == 0 {
                r is Err && r->Err_0@ == "no *.gguf files found in "@ + debug_text(model)
            } else {
                r is Ok && is_sorted_texts(texts(r->Ok_0@), found)
            }
        },
        None => if is_gguf(model) {
            r is Ok && texts(r->Ok_0@) == seq![model]
        } else {
            r is Err && r->Err_0@ == debug_text(model) + " is neither a directory nor a .gguf file"@
        },
    }
}

/// The GGUF files of a model. `listing` holds the files of the directory,
/// where the model is one.
pub fn quant_files(model: &str, listing: Option<&Vec<String>>) -> (r: Result<Vec<String>, String>)
    ensures
        are_quant_files(r, model@, crate::engines::discover::opt_texts(listing)),
{
    match listing {
        Some(files) => {
            let ghost all = texts(files@);
            let mut found: Vec<String> = Vec::new();
            let mut i: usize = 0;
            assert(texts(found@) =~= Seq::<Seq<char>>::empty());
            while i < files.len()
                invariant
                    all == texts(files@),
                    i <= files@.len(),
                    texts(found@) == gguf_upto(all, i as int),
                decreases files@.len() - i,
            {
                let ghost before = texts(found@);
                if named_gguf(files[i].as_str()) {
                    found.push(owned(files[i].as_str()));
                    assert(texts(found@) =~= before.push(all[i as int]));
                }
                i = i + 1;
            }
            assert(texts(found@).len() == found@.len());
            if found.len() == 0 {
                let mut e = owned("no *.gguf files found in ");
                e.append(str_debug(model).as_str());
                return Err(e);
            }
            Ok(sorted_texts(found))
        },
        None => {
            if named_gguf(model) {
                let mut r: Vec<String> = Vec::new();
                r.push(owned(model));
                assert(texts(r@) =~= seq![model@]);
                Ok(r)
            } else {
                let mut e = str_debug(model);
                e.append(" is neither a directory nor a .gguf file");
                Err(e)
            }
        },
    }
}

/// The label and the prompt of a task.
pub open spec fn task_of(t: Seq<char>) -> Option<(Seq<char>, Seq<char>)> {
    let n = until(t, '=') as int;
    if n < t.len() {
        let l = trim(t.take(n));
        let p = trim(t.skip(n + 1));
        if l.len() > 0 && p.len() > 0 {
            Some((l, p))
        } else {
            None
        }
    } else {
        None
    }
}

/// The first of a list that is no task.
pub open spec fn bad_task_from(ts: Seq<Seq<char>>, i: int) -> Option<Seq<char>>
    decreases ts.len() - i,
{
    if i < 0 || i >= ts.len() {
        None
    } else if task_of(ts[i]) is None {
        Some(ts[i])
    } else {
        bad_task_from(ts, i + 1)
    }
}

fn read_task(t: &str) -> (r: Option<(String, String)>)
    ensures
        match r {
            Some((l, p)) => task_of(t@) == Some((l@, p@)),
            None => task_of(t@) is None,
        },
{
    let v = to_chars(t);
    let n = chars_until(&v, '=', 0);
    assert(v@.skip(0) =~= v@);
    if n == v.len() {
        return None;
    }
    let before = slice_string(&v, 0, n);
    assert(before@ =~= t@.take(n as int));
    let after = slice_string(&v, n + 1, v.len());
    assert(after@ =~= t@.skip(n + 1));
    let l = str_trim(before.as_str());
    let p = str_trim(after.as_str());
    if l.as_str().is_empty() || p.as_str().is_empty() {
        None
    } else {
        Some((l, p))
    }
}

/// Reads tasks of the form `label=prompt`; the first that is none is an error.
pub fn parse_tasks(tasks: &Vec<String>) -> (r: Result<Vec<(String, String)>, String>)
    ensures
        match r {
            Ok(v) => {
                &&& tasks@.len() > 0
                &&& bad_task_from(texts(tasks@), 0) is None
                &&& v@.len() == tasks@.len()
                &&& forall|i: int|
                    0 <= i < v@.len() ==> task_of(tasks@[i]@) == Some(
                        ((#[trigger] v@[i]).0@, v@[i].1@),
                    )
            },
            Err(e) => if tasks@.len() == 0 {
                e@ == "pass at least one task as \"label=prompt\""@
            } else {
                bad_task_from(texts(tasks@), 0) is Some && e@
                    == "task must be \"label=prompt\", got "@ + debug_text(
                    bad_task_from(texts(tasks@), 0)->0,
                )
            },
        },
{
    if tasks.len() == 0 {
        return Err(owned("pass at least one task as \"label=prompt\""));
    }
    let ghost ts = texts(tasks@);
    let mut v: Vec<(String, String)> = Vec::new();
    let mut i: usize = 0;
    while i < tasks.len()
        invariant
            ts == texts(tasks@),
            tasks@.len() > 0,
            i <= tasks@.len(),
            v@.len() == i,
            bad_task_from(ts, 0) == bad_task_from(ts, i as int),
            forall|j: int|
                0 <= j < i ==> task_of(tasks@[j]@) == Some(((#[trigger] v@[j]).0@, v@[j].1@)),
        decreases tasks@.len() - i,
    {
        match read_task(tasks[i].as_str()) {
            Some(t) => {
                v.push(t);
            },
            None => {
                let mut e = owned("task must be \"label=prompt\", got ");
                e.append(str_debug(tasks[i].as_str()).as_str());
                return Err(e);
            },
        }
        i = i + 1;
    }
    Ok(v)
}

/// The first engine that cannot serve local files.
pub open spec fn daemon_from(es: Seq<Engine>, i: int) -> Option<Engine>
    decreases es.len() - i,
{
    if i < 0 || i >= es.len() {
        None
    } else if engine_source(es[i]) != ModelSource::LocalPath {
        Some(es[i])
    } else {
        daemon_from(es, i + 1)
    }
}

/// What a cell says.
pub struct CellView {
    pub engine: Engine,
    pub model_id: Seq<char>,
    pub display: Seq<char>,
}

pub open spec fn cell_views(v: Seq<MatrixCell>) -> Seq<CellView> {
    Seq::new(
        v.len(),
        |i: int| CellView { engine: v[i].engine, model_id: v[i].model_id@, display: v[i].display@ },
    )
}

/// The label of a file.
pub open spec fn file_label(path: Seq<char>) -> Seq<char> {
    match file_name(path) {
        Some(n) => n,
        None => path,
    }
}

/// The cells of the first `n` files: of each file one for each engine.
pub open spec fn file_cells(files: Seq<Seq<char>>, es: Seq<Engine>, n: int) -> Seq<CellView>
    decreases n,
{
    if n <= 0 {
        Seq::empty()
    } else {
        file_cells(files, es, n - 1) + Seq::new(
            es.len(),
            |k: int|
                CellView {
                    engine: es[k],
                    model_id: files[n - 1],
                    display: file_label(files[n - 1]),
                },
        )
    }
}

/// The cells of Ollama's models.
pub open spec fn ollama_cells(ids: Seq<Seq<char>>) -> Seq<CellView> {
    Seq::new(
        ids.len(),
        |k: int| CellView { engine: Engine::Ollama, model_id: ids[k], display: ids[k] },
    )
}

/// The cells are those of a grid.
pub open spec fn is_grid(
    r: Result<Vec<MatrixCell>, String>,
    model: Seq<char>,
    listing: Option<Seq<Seq<char>>>,
    es: Seq<Engine>,
    ollama: Seq<Seq<char>>,
) -> bool {
    match daemon_from(es, 0) {
        Some(e) => r is Err && r->Err_0@ == engine_display(e)
            + " cannot serve arbitrary ~/models GGUFs — put Ollama models on --ollama"@,
        None => exists|files: Result<Vec<String>, String>|
            #[trigger] are_quant_files(files, model, listing) && match files {
                Err(e) => r is Err && r->Err_0@ == e@,
                Ok(fs) => {
                    let cells = file_cells(texts(fs@), es, fs@.len() as int) + ollama_cells(ollama);
                    if cells.len() == 0 {
                        r is Err && r->Err_0@
                            == "nothing to grid — pass a model file/dir and/or Ollama ids"@
                    } else {
                        r is Ok && cell_views(r->Ok_0@) == cells
                    }
                },
            },
    }
}

/// Builds the grid: local quants × engines that load local files, and each
/// Ollama id × Ollama. An engine that serves only its own store cannot take
/// local files.
pub fn build_cells(
    model: &str,
    listing: Option<&Vec<String>>,
    engines: &Vec<Engine>,
    ollama: &Vec<String>,
) -> (r: Result<Vec<MatrixCell>, String>)
    ensures
        is_grid(
            r,
            model@,
            crate::engines::discover::opt_texts(listing),
            engines@,
            texts(ollama@),
        ),
{
    let mut i: usize = 0;
    while i < engines.len()
        invariant
            i <= engines@.len(),
            daemon_from(engines@, 0) == daemon_from(engines@, i as int),
        decreases engines@.len() - i,
    {
        if engines[i].model_source() != ModelSource::LocalPath {
            let mut e = owned(engines[i].descriptor().display);
            e.append(" cannot serve arbitrary ~/models GGUFs — put Ollama models on --ollama");
            return Err(e);
        }
        i = i + 1;
    }
    let found = quant_files(model, listing);
    assert(are_quant_files(found, model@, crate::engines::discover::opt_texts(listing)));
    let files = match found {
        Ok(f) => f,
        Err(e) => {
            return Err(e);
        },
    };
    let ghost fs = texts(files@);
    let mut cells: Vec<MatrixCell> = Vec::new();
    let mut f: usize = 0;
    assert(cell_views(cells@) =~= Seq::<CellView>::empty());
    while f < files.len()
        invariant
            fs == texts(files@),
            f <= files@.len(),
            cell_views(cells@) == file_cells(fs, engines@, f as int),
        decreases files@.len() - f,
    {
        let path = files[f].as_str();
        let label = match path_file_name(path) {
            Some(n) => n,
            None => owned(path),
        };
        let ghost done = cell_views(cells@);
        let ghost mine = Seq::new(
            engines@.len(),
            |k: int|
                CellView {
                    engine: engines@[k],
                    model_id: fs[f as int],
                    display: file_label(fs[f as int]),
                },
        );
        let mut k: usize = 0;
        assert(done + mine.take(0) =~= done);
        while k < engines.len()
            invariant
                k <= engines@.len(),
                path@ == fs[f as int],
                label@ == file_label(path@),
                mine == Seq::new(
                    engines@.len(),
                    |k: int|
                        CellView {
                            engine: engines@[k],
                            model_id: fs[f as int],
                            display: file_label(fs[f as int]),
                        },
                ),
                cell_views(cells@) == done + mine.take(k as int),
            decreases engines@.len() - k,
        {
            let ghost before = cell_views(cells@);
            cells.push(
                MatrixCell {
                    engine: engines[k],
                    model_id: owned(path),
                    display: owned(label.as_str()),
                },
            );
            assert(cell_views(cells@) =~= before.push(mine[k as int]));
            assert(done + mine.take(k + 1) =~= before.push(mine[k as int]));
            k = k + 1;
        }
        assert(mine.take(k as int) =~= mine);
        f = f + 1;
    }
    let ghost local = cell_views(cells@);
    let ghost theirs = ollama_cells(texts(ollama@));
    let mut o: usize = 0;
    assert(local + theirs.take(0) =~= local);
    while o < ollama.len()
        invariant
            o <= ollama@.len(),
            theirs == ollama_cells(texts(ollama@)),
            cell_views(cells@) == local + theirs.take(o as int),
        decreases ollama@.len() - o,
    {
        let ghost before = cell_views(cells@);
        cells.push(
            MatrixCell {
                engine: Engine::Ollama,
                model_id: owned(ollama[o].as_str()),
                display: owned(ollama[o].as_str()),
            },
        );
        assert(cell_views(cells@) =~= before.push(theirs[o as int]));
        assert(local + theirs.take(o + 1) =~= before.push(theirs[o as int]));
        o = o + 1;
    }
    assert(theirs.take(o as int) =~= theirs);
    assert(cell_views(cells@).len() == cells@.len());
    if cells.len() == 0 {
        return Err(owned("nothing to grid — pass a model file/dir and/or Ollama ids"));
    }
    Ok(cells)
}

} // verus!
