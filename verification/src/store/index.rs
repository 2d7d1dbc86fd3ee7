//! The model index: its rows, its version, what is pruned from it, and the
//! directories that a scan adds.
use vstd::prelude::*;
use vstd::string::StringExecFns;

use crate::dedup::{extra_copies, DupGroup};
use crate::json::{json_list, read_list, strings_of, write_list, parsed_json, law_list_round_trip};
use crate::model::{format_tag, ModelFormat, ModelMeta};
use crate::runtime::{path_in, path_join};
use crate::text::{
    clone_opt, has_text, opt_str, opt_text, owned, parse_number, parse_number_of, same,
    slice_string, texts, to_chars,
};

verus! {

/// Where the database is: below the data directory, which is given or that of
/// the home directory.
pub open spec fn db_path(data_home: Option<Seq<char>>, home: Option<Seq<char>>) -> Seq<char> {
    let dir = match data_home {
        Some(d) => d,
        None => match home {
            Some(h) => path_in(h, ".local/share"@),
            None => "."@,
        },
    };
    path_in(dir, "cyberdeck/cyberdeck.db"@)
}

pub fn default_db_path(data_home: Option<&str>, home: Option<&str>) -> (r: String)
    ensures
        r@ == db_path(opt_str(data_home), opt_str(home)),
{
    let dir = match data_home {
        Some(d) => owned(d),
        None => match home {
            Some(h) => path_join(h, ".local/share"),
            None => owned("."),
        },
    };
    path_join(dir.as_str(), "cyberdeck/cyberdeck.db")
}

/// A directory of the user: below the given base, else below a place in the
/// home directory, else below that place here.
pub open spec fn user_dir(
    base: Option<Seq<char>>,
    home: Option<Seq<char>>,
    place: Seq<char>,
    name: Seq<char>,
) -> Seq<char> {
    let dir = match base {
        Some(b) => b,
        None => match home {
            Some(h) => path_in(h, place),
            None => place,
        },
    };
    path_in(dir, name)
}

fn join_user_dir(base: Option<&str>, home: Option<&str>, place: &str, name: &str) -> (r: String)
    ensures
        r@ == user_dir(opt_str(base), opt_str(home), place@, name@),
{
    let dir = match base {
        Some(b) => owned(b),
        None => match home {
            Some(h) => path_join(h, place),
            None => owned(place),
        },
    };
    path_join(dir.as_str(), name)
}

/// Where the manifests of custom runtimes are.
pub fn custom_runtimes_dir(data_home: Option<&str>, home: Option<&str>) -> (r: String)
    ensures
        r@ == user_dir(
            opt_str(data_home),
            opt_str(home),
            ".local/share"@,
            "cyberdeck/runtimes"@,
        ),
{
    join_user_dir(data_home, home, ".local/share", "cyberdeck/runtimes")
}

/// Where the user's units are.
pub fn systemd_dir(config_home: Option<&str>, home: Option<&str>) -> (r: String)
    ensures
        r@ == user_dir(opt_str(config_home), opt_str(home), ".config"@, "systemd/user"@),
{
    join_user_dir(config_home, home, ".config", "systemd/user")
}

/// Where copies of the generated units are kept.
pub fn generated_dir(data_home: Option<&str>, home: Option<&str>) -> (r: String)
    ensures
        r@ == user_dir(
            opt_str(data_home),
            opt_str(home),
            ".local/share"@,
            "cyberdeck/generated"@,
        ),
{
    join_user_dir(data_home, home, ".local/share", "cyberdeck/generated")
}

/// Where downloaded models land.
pub fn models_dir(home: Option<&str>) -> (r: String)
    ensures
        r@ == path_in(
            match home {
                Some(h) => h@,
                None => "."@,
            },
            "models"@,
        ),
{
    match home {
        Some(h) => path_join(h, "models"),
        None => path_join(".", "models"),
    }
}

/// The version of the tables. Every table or column that is added raises it.
pub const SCHEMA_VERSION: i64 = 3;

/// The number that a signed numeral denotes.
pub open spec fn signed_number(s: Seq<char>) -> Option<int> {
    if s.len() > 0 && s[0] == '-' {
        let body = s.drop_first();
        if body.len() > 0 && body[0] == '+' {
            None
        } else {
            match parse_number(body, 0x8000_0000_0000_0000) {
                Some(n) => Some(-(n as int)),
                None => None,
            }
        }
    } else {
        match parse_number(s, 0x7fff_ffff_ffff_ffff) {
            Some(n) => Some(n as int),
            None => None,
        }
    }
}

fn parse_signed(s: &str) -> (r: Option<i64>)
    ensures
        match r {
            Some(n) => signed_number(s@) == Some(n as int),
            None => signed_number(s@) is None,
        },
{
    let v = to_chars(s);
    if v.len() > 0 && v[0] == '-' {
        let body = slice_string(&v, 1, v.len());
        assert(body@ =~= s@.drop_first());
        if v.len() > 1 && v[1] == '+' {
            assert(body@[0] == '+');
            return None;
        }
        match parse_number_of(body.as_str(), 0x8000_0000_0000_0000) {
            Some(n) => {
                if n == 0x8000_0000_0000_0000 {
                    Some(i64::MIN)
                } else {
                    Some(-(n as i64))
                }
            },
            None => None,
        }
    } else {
        match parse_number_of(s, 0x7fff_ffff_ffff_ffff) {
            Some(n) => Some(n as i64),
            None => None,
        }
    }
}

/// The version that a database is stamped with.
pub open spec fn stamped_version(stored: Option<Seq<char>>) -> Option<int> {
    match stored {
        Some(s) => signed_number(s),
        None => None,
    }
}

pub fn schema_version(stored: Option<&str>) -> (r: Option<i64>)
    ensures
        match r {
            Some(v) => stamped_version(opt_str(stored)) == Some(v as int),
            None => stamped_version(opt_str(stored)) is None,
        },
{
    match stored {
        Some(s) => parse_signed(s),
        None => None,
    }
}

/// What opening a database does about its version.
#[derive(Debug, Clone, Copy, PartialEq, Eq, Structural)]
pub enum SchemaStep {
    /// It has none: it is stamped.
    Stamp,
    /// It is older: it is migrated, then stamped anew.
    Migrate { from: i64 },
    /// It is current, newer or unreadable: it is left alone.
    Keep,
}

/// What opening a database does about its version. An older program never
/// lowers it.
pub fn schema_step(stored: Option<&str>) -> (r: SchemaStep)
    ensures
        match stored {
            None => r == SchemaStep::Stamp,
            Some(s) => match signed_number(s@) {
                Some(v) => if v < SCHEMA_VERSION {
                    r is Migrate && r->from == v
                } else {
                    r == SchemaStep::Keep
                },
                None => r == SchemaStep::Keep,
            },
        },
{
    match stored {
        None => SchemaStep::Stamp,
        Some(s) => match parse_signed(s) {
            Some(v) => {
                if v < SCHEMA_VERSION {
                    SchemaStep::Migrate { from: v }
                } else {
                    SchemaStep::Keep
                }
            },
            None => SchemaStep::Keep,
        },
    }
}

/// An unsigned integer as the database holds it, in two's complement.
pub open spec fn stored_int(v: u64) -> int {
    if v < 0x8000_0000_0000_0000 {
        v as int
    } else {
        v - 0x1_0000_0000_0000_0000
    }
}

/// The unsigned integer that the database holds.
pub open spec fn loaded_int(v: i64) -> int {
    if v < 0 {
        v + 0x1_0000_0000_0000_0000
    } else {
        v as int
    }
}

pub fn to_stored(v: u64) -> (r: i64)
    ensures
        r == stored_int(v),
{
    if v < 0x8000_0000_0000_0000 {
        v as i64
    } else {
        (v - 0x8000_0000_0000_0000) as i64 + i64::MIN
    }
}

pub fn from_stored(v: i64) -> (r: u64)
    ensures
        r == loaded_int(v),
{
    if v < 0 {
        (v - i64::MIN) as u64 + 0x8000_0000_0000_0000
    } else {
        v as u64
    }
}

/// What was stored is loaded again.
pub proof fn law_stored_int_round_trip(v: u64, w: i64)
    ensures
        i64::MIN <= stored_int(v) <= i64::MAX,
        loaded_int(stored_int(v) as i64) == v,
        0 <= loaded_int(w) <= u64::MAX,
        stored_int(loaded_int(w) as u64) == w,
{
}

/// A row of the index.
#[derive(Debug, Clone, PartialEq, Eq)]
pub struct ModelRow {
    pub path: String,
    pub format: String,
    pub name: Option<String>,
    pub arch: Option<String>,
    pub quant: Option<String>,
    pub params: Option<i64>,
    pub n_layers: Option<i64>,
    pub n_embd: Option<i64>,
    pub ctx_train: Option<i64>,
    pub vocab: Option<i64>,
    pub weight_size: i64,
    pub footprint: i64,
}

/// An optional integer as the database holds it.
pub open spec fn stores_opt(r: Option<i64>, v: Option<u64>) -> bool {
    match v {
        Some(n) => r is Some && r->0 == stored_int(n),
        None => r is None,
    }
}

/// The integer that the database holds, if any.
pub open spec fn loads_opt(v: Option<u64>, r: Option<i64>) -> bool {
    match r {
        Some(n) => v is Some && v->0 == loaded_int(n),
        None => v is None,
    }
}

fn store_opt(v: Option<u64>) -> (r: Option<i64>)
    ensures
        stores_opt(r, v),
{
    match v {
        Some(n) => Some(to_stored(n)),
        None => None,
    }
}

fn load_opt(r: Option<i64>) -> (v: Option<u64>)
    ensures
        loads_opt(v, r),
{
    match r {
        Some(n) => Some(from_stored(n)),
        None => None,
    }
}

/// The row is that of a model.
pub open spec fn is_row_of(r: ModelRow, m: ModelMeta) -> bool {
    &&& r.path@ == m.path@
    &&& r.format@ == format_tag(m.format)
    &&& opt_text(r.name) == Some(m.name@)
    &&& opt_text(r.arch) == opt_text(m.arch)
    &&& opt_text(r.quant) == opt_text(m.quant)
    &&& stores_opt(r.params, m.params)
    &&& stores_opt(r.n_layers, m.n_layers)
    &&& stores_opt(r.n_embd, m.n_embd)
    &&& stores_opt(r.ctx_train, m.ctx_train)
    &&& stores_opt(r.vocab, m.vocab)
    &&& r.weight_size == stored_int(m.weight_size)
    &&& r.footprint == stored_int(m.footprint)
}

/// The model is that of a row. A row does not hold the family or the attention
/// heads.
pub open spec fn is_model_of(m: ModelMeta, r: ModelRow) -> bool {
    &&& m.path@ == r.path@
    &&& m.format == if r.format@ == "gguf"@ {
        ModelFormat::Gguf
    } else {
        ModelFormat::SafetensorsDir
    }
    &&& m.name@ == match opt_text(r.name) {
        Some(n) => n,
        None => ""@,
    }
    &&& m.basename is None
    &&& opt_text(m.arch) == opt_text(r.arch)
    &&& opt_text(m.quant) == opt_text(r.quant)
    &&& loads_opt(m.params, r.params)
    &&& loads_opt(m.n_layers, r.n_layers)
    &&& loads_opt(m.n_embd, r.n_embd)
    &&& m.n_head is None
    &&& m.n_head_kv is None
    &&& loads_opt(m.ctx_train, r.ctx_train)
    &&& loads_opt(m.vocab, r.vocab)
    &&& m.weight_size == loaded_int(r.weight_size)
    &&& m.footprint == loaded_int(r.footprint)
}

/// The row that a model is stored as.
pub fn row_of_model(m: &ModelMeta) -> (r: ModelRow)
    ensures
        is_row_of(r, *m),
{
    ModelRow {
        path: owned(m.path.as_str()),
        format: owned(m.format.tag()),
        name: Some(owned(m.name.as_str())),
        arch: clone_opt(&m.arch),
        quant: clone_opt(&m.quant),
        params: store_opt(m.params),
        n_layers: store_opt(m.n_layers),
        n_embd: store_opt(m.n_embd),
        ctx_train: store_opt(m.ctx_train),
        vocab: store_opt(m.vocab),
        weight_size: to_stored(m.weight_size),
        footprint: to_stored(m.footprint),
    }
}

/// The model that a row holds.
pub fn model_of_row(r: &ModelRow) -> (m: ModelMeta)
    ensures
        is_model_of(m, *r),
{
    ModelMeta {
        path: owned(r.path.as_str()),
        format: if same(r.format.as_str(), "gguf") {
            ModelFormat::Gguf
        } else {
            ModelFormat::SafetensorsDir
        },
        name: match &r.name {
            Some(n) => owned(n.as_str()),
            None => owned(""),
        },
        basename: None,
        arch: clone_opt(&r.arch),
        quant: clone_opt(&r.quant),
        params: load_opt(r.params),
        n_layers: load_opt(r.n_layers),
        n_embd: load_opt(r.n_embd),
        n_head: None,
        n_head_kv: None,
        ctx_train: load_opt(r.ctx_train),
        vocab: load_opt(r.vocab),
        weight_size: from_stored(r.weight_size),
        footprint: from_stored(r.footprint),
    }
}

/// A model that was stored is loaded with everything that a row holds.
pub proof fn law_model_round_trip(m: ModelMeta, r: ModelRow, back: ModelMeta)
    requires
        is_row_of(r, m),
        is_model_of(back, r),
    ensures
        back.path@ == m.path@,
        back.format == m.format,
        back.name@ == m.name@,
        opt_text(back.arch) == opt_text(m.arch),
        opt_text(back.quant) == opt_text(m.quant),
        back.params == m.params,
        back.n_layers == m.n_layers,
        back.n_embd == m.n_embd,
        back.ctx_train == m.ctx_train,
        back.vocab == m.vocab,
        back.weight_size == m.weight_size,
        back.footprint == m.footprint,
{
    reveal_strlit("gguf");
    reveal_strlit("safetensors-dir");
    assert("gguf"@.len() == 4);
    assert("safetensors-dir"@.len() == 15);
}

/// A row of the index by its id and path.
pub type RowPath = (i64, String);

/// The rows among the first `n` whose path is not kept.
pub open spec fn pruned_upto(rows: Seq<RowPath>, keep: Seq<Seq<char>>, n: int) -> Seq<
    (i64, Seq<char>),
>
    decreases n,
{
    if n <= 0 {
        Seq::empty()
    } else if keep.contains(rows[n - 1].1@) {
        pruned_upto(rows, keep, n - 1)
    } else {
        pruned_upto(rows, keep, n - 1).push((rows[n - 1].0, rows[n - 1].1@))
    }
}

/// The values of rows.
pub open spec fn row_paths(rows: Seq<RowPath>) -> Seq<(i64, Seq<char>)> {
    Seq::new(rows.len(), |i: int| (rows[i].0, rows[i].1@))
}

/// The rows to remove: those whose path a scan did not keep. A profile that
/// refers to such a row is unlinked from it first.
pub fn prune(rows: &Vec<RowPath>, keep: &Vec<String>) -> (r: Vec<RowPath>)
    ensures
        row_paths(r@) == pruned_upto(rows@, texts(keep@), rows@.len() as int),
{
    let mut r: Vec<RowPath> = Vec::new();
    let mut i: usize = 0;
    assert(row_paths(r@) =~= pruned_upto(rows@, texts(keep@), 0));
    while i < rows.len()
        invariant
            i <= rows@.len(),
            row_paths(r@) == pruned_upto(rows@, texts(keep@), i as int),
        decreases rows@.len() - i,
    {
        let ghost before = row_paths(r@);
        if !has_text(keep, rows[i].1.as_str()) {
            r.push((rows[i].0, owned(rows[i].1.as_str())));
            assert(row_paths(r@) =~= before.push((rows@[i as int].0, rows@[i as int].1@)));
        }
        i = i + 1;
    }
    r
}

/// The first group with an identity, from the `i`-th on.
pub open spec fn group_from(groups: Seq<DupGroup>, id: Seq<char>, i: int) -> Option<int>
    decreases groups.len() - i,
{
    if i < 0 || i >= groups.len() {
        None
    } else if groups[i].identity@ == id {
        Some(i)
    } else {
        group_from(groups, id, i + 1)
    }
}

/// The paths to delete when a group of duplicates is thinned out: all of its
/// copies but the cheapest.
pub fn dedup_delete(groups: &Vec<DupGroup>, identity: &str) -> (r: Vec<String>)
    ensures
        match group_from(groups@, identity@, 0) {
            Some(g) => r@.len() == if groups@[g].members@.len() > 0 {
                groups@[g].members@.len() - 1
            } else {
                0
            } && forall|i: int|
                0 <= i < r@.len() ==> (#[trigger] r@[i])@ == groups@[g].members@[i + 1].path@,
            None => r@.len() == 0,
        },
{
    let mut i: usize = 0;
    while i < groups.len()
        invariant
            i <= groups@.len(),
            group_from(groups@, identity@, 0) == group_from(groups@, identity@, i as int),
        decreases groups@.len() - i,
    {
        if same(groups[i].identity.as_str(), identity) {
            return extra_copies(&groups[i]);
        }
        i = i + 1;
    }
    Vec::new()
}

/// The directories that are stored as a list.
pub open spec fn stored_dirs(stored: Option<Seq<char>>) -> Seq<Seq<char>> {
    match stored {
        Some(s) => strings_of(parsed_json(s)),
        None => Seq::empty(),
    }
}

/// The directories that a scan adds.
pub fn scan_dirs(stored: Option<&str>) -> (r: Vec<String>)
    ensures
        texts(r@) == stored_dirs(opt_str(stored)),
{
    match stored {
        Some(s) => read_list(s),
        None => {
            let r: Vec<String> = Vec::new();
            assert(texts(r@) =~= Seq::<Seq<char>>::empty());
            r
        },
    }
}

/// A new list of directories to store, and why.
#[derive(Debug, Clone, PartialEq, Eq)]
pub struct DirsChange {
    pub value_json: String,
    pub reason: String,
}

/// The list is stored, for a reason.
pub open spec fn stores_dirs(c: DirsChange, dirs: Seq<Seq<char>>, reason: Seq<char>) -> bool {
    &&& c.value_json@ == json_list(dirs)
    &&& stored_dirs(Some(c.value_json@)) == dirs
    &&& c.reason@ == reason
}

/// Adds a directory to those that a scan adds; nothing changes where it is
/// there already.
pub fn add_scan_dir(stored: Option<&str>, path: &str) -> (r: Option<DirsChange>)
    ensures
        stored_dirs(opt_str(stored)).contains(path@) ==> r is None,
        !stored_dirs(opt_str(stored)).contains(path@) ==> r is Some && stores_dirs(
            r->0,
            stored_dirs(opt_str(stored)).push(path@),
            "add scan dir: "@ + path@,
        ),
{
    let mut dirs = scan_dirs(stored);
    if has_text(&dirs, path) {
        return None;
    }
    let ghost before = texts(dirs@);
    dirs.push(owned(path));
    assert(texts(dirs@) =~= before.push(path@));
    let value_json = write_list(&dirs);
    proof {
        law_list_round_trip(texts(dirs@));
    }
    let mut reason = owned("add scan dir: ");
    reason.append(path);
    Some(DirsChange { value_json, reason })
}

/// The first `n` texts without those that are `s`.
pub open spec fn without_upto(v: Seq<Seq<char>>, s: Seq<char>, n: int) -> Seq<Seq<char>>
    decreases n,
{
    if n <= 0 {
        Seq::empty()
    } else if v[n - 1] == s {
        without_upto(v, s, n - 1)
    } else {
        without_upto(v, s, n - 1).push(v[n - 1])
    }
}

pub open spec fn without(v: Seq<Seq<char>>, s: Seq<char>) -> Seq<Seq<char>> {
    without_upto(v, s, v.len() as int)
}

/// Removes a directory from those that a scan adds; nothing changes where it is
/// not there.
pub fn remove_scan_dir(stored: Option<&str>, path: &str) -> (r: Option<DirsChange>)
    ensures
        !stored_dirs(opt_str(stored)).contains(path@) ==> r is None,
        stored_dirs(opt_str(stored)).contains(path@) ==> r is Some && stores_dirs(
            r->0,
            without(stored_dirs(opt_str(stored)), path@),
            "remove scan dir: "@ + path@,
        ),
{
    let dirs = scan_dirs(stored);
    if !has_text(&dirs, path) {
        return None;
    }
    let ghost all = texts(dirs@);
    let mut rest: Vec<String> = Vec::new();
    let mut i: usize = 0;
    assert(texts(rest@) =~= without_upto(all, path@, 0));
    while i < dirs.len()
        invariant
            all == texts(dirs@),
            i <= dirs@.len(),
            texts(rest@) == without_upto(all, path@, i as int),
        decreases dirs@.len() - i,
    {
        let ghost before = texts(rest@);
        assert(all[i as int] == dirs@[i as int]@);
        if !same(dirs[i].as_str(), path) {
            rest.push(owned(dirs[i].as_str()));
            assert(texts(rest@) =~= before.push(all[i as int]));
        }
        i = i + 1;
    }
    let value_json = write_list(&rest);
    proof {
        law_list_round_trip(texts(rest@));
    }
    let mut reason = owned("remove scan dir: ");
    reason.append(path);
    Some(DirsChange { value_json, reason })
}

proof fn lemma_without(v: Seq<Seq<char>>, s: Seq<char>, n: int)
    requires
        0 <= n <= v.len(),
    ensures
        !without_upto(v, s, n).contains(s),
        forall|t: Seq<char>|
            t != s ==> (#[trigger] without_upto(v, s, n).contains(t) <==> v.take(n).contains(t)),
    decreases n,
{
    if n > 0 {
        lemma_without(v, s, n - 1);
        let rest = without_upto(v, s, n - 1);
        assert(v.take(n) =~= v.take(n - 1).push(v[n - 1]));
        assert forall|t: Seq<char>| t != s implies (#[trigger] without_upto(v, s, n).contains(t)
            <==> v.take(n).contains(t)) by {
            let shorter = v.take(n - 1);
            let longer = v.take(n);
            assert(rest.contains(t) <==> shorter.contains(t));
            if shorter.contains(t) {
                let k = choose|k: int| 0 <= k < shorter.len() && shorter[k] == t;
                assert(longer[k] == t);
            }
            if longer.contains(t) {
                let k = choose|k: int| 0 <= k < longer.len() && longer[k] == t;
                if k < n - 1 {
                    assert(shorter[k] == t);
                }
            }
            if v[n - 1] != s {
                let all = rest.push(v[n - 1]);
                if rest.contains(t) {
                    let k = choose|k: int| 0 <= k < rest.len() && rest[k] == t;
                    assert(all[k] == t);
                }
                if all.contains(t) {
                    let k = choose|k: int| 0 <= k < all.len() && all[k] == t;
                    if k < rest.len() {
                        assert(rest[k] == t);
                    } else {
                        assert(longer[n - 1] == t);
                    }
                }
                if v[n - 1] == t {
                    assert(all[rest.len() as int] == t);
                }
            }
        }
        if without_upto(v, s, n).contains(s) {
            let all = without_upto(v, s, n);
            let k = choose|k: int| 0 <= k < all.len() && all[k] == s;
            if k < rest.len() {
                assert(rest[k] == s);
            }
        }
    }
}

/// A directory that was removed is gone, and the others are still there.
pub proof fn law_removed_dir_is_gone(v: Seq<Seq<char>>, s: Seq<char>, other: Seq<char>)
    ensures
        !without(v, s).contains(s),
        other != s ==> (without(v, s).contains(other) <==> v.contains(other)),
{
    lemma_without(v, s, v.len() as int);
    assert(v.take(v.len() as int) =~= v);
}

} // verus!
