//! Model directories with safetensors weights: what their configuration says.
//!
//! A directory is a model where it has a configuration and weights. The quant
//! comes from the quantizer's own configuration, where there is one.
use vstd::prelude::*;

use crate::json::{
    find_double, find_item, find_member, find_text, find_u64, item_views, json_reading, json_view,
    lemma_items, lemma_members, member_views, opt_at, opt_double, opt_get, opt_json_text,
    opt_unsigned, opt_view, parse_json, Json, JsonView,
};
use crate::measure::Measure;
use crate::model::{ModelFormat, ModelMeta};
use crate::paths::{extension_of, file_name, name_extension, path_file_name};
use crate::text::{
    contains, opt_text, owned, same, split, str_contains, str_split, str_trim, str_upper, texts,
    to_chars, trim, uppercased,
};

verus! {

/// A model directory: its path and the documents in it.
#[derive(Debug, PartialEq)]
pub struct SafetensorsModel {
    pub dir: String,
    pub config: Json,
    pub quant_config: Option<Json>,
    pub index: Option<Json>,
}

/// What the documents say.
pub struct ModelDocs {
    pub config: JsonView,
    pub quant_config: Option<JsonView>,
    pub index: Option<JsonView>,
}

/// What an optional document says.
pub open spec fn doc_view(j: Option<Json>) -> Option<JsonView> {
    match j {
        Some(v) => Some(json_view(v)),
        None => None,
    }
}

/// The document that an optional text is; none where it is none.
pub open spec fn doc_of(text: Option<&str>) -> Option<JsonView> {
    match text {
        Some(t) => match json_reading(t@) {
            Ok(j) => Some(j),
            Err(_) => None,
        },
        None => None,
    }
}

fn read_doc(text: Option<&str>) -> (r: Option<Json>)
    ensures
        doc_view(r) == doc_of(text),
{
    match text {
        Some(t) => match parse_json(t) {
            Ok(j) => Some(j),
            Err(_) => None,
        },
        None => None,
    }
}

/// The number under a key: an unsigned integer, or the integer part of a
/// double.
pub open spec fn int_at(j: Option<JsonView>, key: Seq<char>) -> Option<u64> {
    match opt_unsigned(opt_get(j, key)) {
        Some(n) => Some(n),
        None => match opt_double(opt_get(j, key)) {
            Some(bits) => Some((Measure { bits }).truncated()),
            None => None,
        },
    }
}

fn find_int(j: Option<&Json>, key: &str) -> (r: Option<u64>)
    ensures
        r == int_at(opt_view(j), key@),
{
    match find_u64(find_member(j, key)) {
        Some(n) => Some(n),
        None => match find_double(find_member(j, key)) {
            Some(bits) => Some((Measure { bits }).truncate()),
            None => None,
        },
    }
}

/// The number under a key, at the top or else in the configuration of the text
/// model, where multimodal models keep it.
pub open spec fn config_int(config: JsonView, key: Seq<char>) -> Option<u64> {
    match int_at(Some(config), key) {
        Some(n) => Some(n),
        None => int_at(config.get("text_config"@), key),
    }
}

fn int_in_config(config: &Json, key: &str) -> (r: Option<u64>)
    ensures
        r == config_int(config@, key@),
{
    match find_int(Some(config), key) {
        Some(n) => Some(n),
        None => find_int(config.get("text_config"), key),
    }
}

/// The context that the model was trained with.
pub open spec fn trained_ctx(config: JsonView) -> Option<u64> {
    match config_int(config, "max_position_embeddings"@) {
        Some(n) => Some(n),
        None => int_at(Some(config), "max_sequence_length"@),
    }
}

/// The architecture: the first one that is listed, else the model type.
pub open spec fn architecture_of(config: JsonView) -> Option<Seq<char>> {
    match opt_json_text(opt_at(config.get("architectures"@), 0)) {
        Some(a) => Some(a),
        None => opt_json_text(config.get("model_type"@)),
    }
}

/// The first string in a document that contains `needle`, in document order.
pub open spec fn found_in(j: JsonView, needle: Seq<char>) -> Option<Seq<char>>
    decreases j,
{
    match j {
        JsonView::Str(s) => if contains(s, needle) {
            Some(s)
        } else {
            None
        },
        JsonView::Array(v) => found_in_items(v, needle),
        JsonView::Object(m) => found_in_members(m, needle),
        _ => None,
    }
}

/// The first such string among the items of a list.
pub open spec fn found_in_items(v: Seq<JsonView>, needle: Seq<char>) -> Option<Seq<char>>
    decreases v,
{
    if v.len() == 0 {
        None
    } else {
        match found_in_items(v.drop_last(), needle) {
            Some(s) => Some(s),
            None => found_in(v.last(), needle),
        }
    }
}

/// The first such string among the members of an object.
pub open spec fn found_in_members(m: Seq<(Seq<char>, JsonView)>, needle: Seq<char>) -> Option<
    Seq<char>,
>
    decreases m,
{
    if m.len() == 0 {
        None
    } else {
        match found_in_members(m.drop_last(), needle) {
            Some(s) => Some(s),
            None => found_in(m.last().1, needle),
        }
    }
}

proof fn lemma_items_keep(v: Seq<JsonView>, needle: Seq<char>, n: int)
    requires
        0 <= n <= v.len(),
        found_in_items(v.take(n), needle) is Some,
    ensures
        found_in_items(v, needle) == found_in_items(v.take(n), needle),
    decreases v.len() - n,
{
    if n < v.len() {
        assert(v.take(n + 1).drop_last() =~= v.take(n));
        lemma_items_keep(v, needle, n + 1);
    } else {
        assert(v.take(n) =~= v);
    }
}

proof fn lemma_members_keep(m: Seq<(Seq<char>, JsonView)>, needle: Seq<char>, n: int)
    requires
        0 <= n <= m.len(),
        found_in_members(m.take(n), needle) is Some,
    ensures
        found_in_members(m, needle) == found_in_members(m.take(n), needle),
    decreases m.len() - n,
{
    if n < m.len() {
        assert(m.take(n + 1).drop_last() =~= m.take(n));
        lemma_members_keep(m, needle, n + 1);
    } else {
        assert(m.take(n) =~= m);
    }
}

/// The first string in a document that contains `needle`.
pub fn search_value(node: &Json, needle: &str) -> (r: Option<String>)
    ensures
        opt_text(r) == found_in(node@, needle@),
    decreases node,
{
    match node {
        Json::Str(s) => {
            if str_contains(s.as_str(), needle) {
                Some(owned(s.as_str()))
            } else {
                None
            }
        },
        Json::Array(v) => {
            let ghost all = item_views(v@);
            proof {
                lemma_items(v@);
                assert(all.take(0) =~= Seq::<JsonView>::empty());
            }
            let mut i: usize = 0;
            while i < v.len()
                invariant
                    all == item_views(v@),
                    all.len() == v@.len(),
                    node@ == JsonView::Array(all),
                    *node == Json::Array(*v),
                    forall|k: int| 0 <= k < v@.len() ==> #[trigger] all[k] == json_view(v@[k]),
                    i <= v@.len(),
                    found_in_items(all.take(i as int), needle@) is None,
                decreases v@.len() - i,
            {
                assert(all.take(i + 1).drop_last() =~= all.take(i as int));
                assert(all.take(i + 1).last() == all[i as int]);
                let found = search_value(&v[i], needle);
                if found.is_some() {
                    proof {
                        lemma_items_keep(all, needle@, i + 1);
                    }
                    return found;
                }
                i = i + 1;
            }
            assert(all.take(i as int) =~= all);
            None
        },
        Json::Object(m) => {
            let ghost all = member_views(m@);
            proof {
                lemma_members(m@);
                assert(all.take(0) =~= Seq::<(Seq<char>, JsonView)>::empty());
            }
            let mut i: usize = 0;
            while i < m.len()
                invariant
                    all == member_views(m@),
                    all.len() == m@.len(),
                    node@ == JsonView::Object(all),
                    *node == Json::Object(*m),
                    forall|k: int|
                        0 <= k < m@.len() ==> #[trigger] all[k] == (m@[k].0@, json_view(m@[k].1)),
                    i <= m@.len(),
                    found_in_members(all.take(i as int), needle@) is None,
                decreases m@.len() - i,
            {
                assert(all.take(i + 1).drop_last() =~= all.take(i as int));
                assert(all.take(i + 1).last() == all[i as int]);
                let found = search_value(&m[i].1, needle);
                if found.is_some() {
                    proof {
                        lemma_members_keep(all, needle@, i + 1);
                    }
                    return found;
                }
                i = i + 1;
            }
            assert(all.take(i as int) =~= all);
            None
        },
        _ => None,
    }
}

/// The quant that a quantizer's configuration gives.
pub open spec fn quantizer_label(qc: JsonView) -> Option<Seq<char>> {
    match found_in(qc, "NVFP4"@) {
        Some(s) => Some(uppercased(s)),
        None => {
            let algo = opt_json_text(opt_get(qc.get("quantization"@), "quant_algo"@));
            if algo is Some && algo->0 != "MIXED_PRECISION"@ {
                algo
            } else {
                opt_json_text(opt_get(qc.get("producer"@), "name"@))
            }
        },
    }
}

/// The quant of a model.
pub open spec fn quant_of(d: ModelDocs) -> Option<Seq<char>> {
    let own = opt_json_text(opt_get(d.config.get("quantization_config"@), "quant_method"@));
    match d.quant_config {
        Some(qc) => match quantizer_label(qc) {
            Some(q) => Some(q),
            None => own,
        },
        None => own,
    }
}

pub open spec fn is_letter(c: char) -> bool {
    'a' as u32 <= c as u32 <= 'z' as u32 || 'A' as u32 <= c as u32 <= 'Z' as u32
}

/// A name that can be shown: it has a letter.
pub open spec fn is_showable(s: Seq<char>) -> bool {
    exists|i: int| 0 <= i < s.len() && is_letter(#[trigger] s[i])
}

fn showable(s: &str) -> (r: bool)
    ensures
        r == is_showable(s@),
{
    let v = to_chars(s);
    let mut i: usize = 0;
    while i < v.len()
        invariant
            v@ == s@,
            i <= v@.len(),
            forall|j: int| 0 <= j < i ==> !is_letter(#[trigger] v@[j]),
        decreases v@.len() - i,
    {
        let c = v[i] as u32;
        if ('a' as u32 <= c && c <= 'z' as u32) || ('A' as u32 <= c && c <= 'Z' as u32) {
            assert(is_letter(v@[i as int]));
            return true;
        }
        i = i + 1;
    }
    false
}

/// The last step of the name that the configuration gives the model.
pub open spec fn config_name(config: JsonView) -> Option<Seq<char>> {
    match opt_json_text(config.get("_name_or_path"@)) {
        Some(n) => Some(trim(split(n, '/').last())),
        None => None,
    }
}

/// The name of a model: the one its configuration gives it, else that of its
/// directory, else its type or architecture.
pub open spec fn pretty_name_of(dir: Seq<char>, config: JsonView) -> Seq<char> {
    let given = config_name(config);
    let dir_name = match file_name(dir) {
        Some(n) => Some(trim(n)),
        None => None,
    };
    if given is Some && is_showable(given->0) {
        given->0
    } else if dir_name is Some && is_showable(dir_name->0) {
        dir_name->0
    } else {
        match opt_json_text(config.get("model_type"@)) {
            Some(t) => t,
            None => match architecture_of(config) {
                Some(a) => a,
                None => "unknown"@,
            },
        }
    }
}

/// A file of the directory: its name and its bytes.
pub type DirFile = (String, u64);

/// A file that holds weights.
pub open spec fn is_weights(name: Seq<char>) -> bool {
    extension_of(name) == Some("safetensors"@)
}

fn holds_weights(name: &str) -> (r: bool)
    ensures
        r == is_weights(name@),
{
    match name_extension(name) {
        Some(e) => same(e.as_str(), "safetensors"),
        None => false,
    }
}

/// The bytes of the first `n` files.
pub open spec fn bytes_upto(files: Seq<DirFile>, n: int) -> nat
    decreases n,
{
    if n <= 0 {
        0
    } else {
        bytes_upto(files, n - 1) + files[n - 1].1 as nat
    }
}

/// The bytes of the weights among the first `n` files.
pub open spec fn weights_upto(files: Seq<DirFile>, n: int) -> nat
    decreases n,
{
    if n <= 0 {
        0
    } else {
        weights_upto(files, n - 1) + if is_weights(files[n - 1].0@) {
            files[n - 1].1 as nat
        } else {
            0nat
        }
    }
}

proof fn lemma_sums(files: Seq<DirFile>, n: int)
    requires
        0 <= n <= files.len(),
    ensures
        weights_upto(files, n) <= bytes_upto(files, n),
        bytes_upto(files, n) <= bytes_upto(files, files.len() as int),
    decreases files.len() - n,
{
    lemma_weights(files, n);
    if n < files.len() {
        lemma_sums(files, n + 1);
    }
}

proof fn lemma_weights(files: Seq<DirFile>, n: int)
    requires
        0 <= n <= files.len(),
    ensures
        weights_upto(files, n) <= bytes_upto(files, n),
    decreases n,
{
    if n > 0 {
        lemma_weights(files, n - 1);
    }
}

/// The size of the weights: what the index states, else that of the files.
pub open spec fn weight_size_of(index: Option<JsonView>, files: Seq<DirFile>) -> nat {
    match opt_unsigned(opt_get(opt_get(index, "metadata"@), "total_size"@)) {
        Some(n) => n as nat,
        None => weights_upto(files, files.len() as int),
    }
}

/// What the directory takes on disk, and no less than its weights.
pub open spec fn footprint_of(index: Option<JsonView>, files: Seq<DirFile>) -> nat {
    let all = bytes_upto(files, files.len() as int);
    if all < weight_size_of(index, files) {
        weight_size_of(index, files)
    } else {
        all
    }
}

/// The record of a model directory.
pub open spec fn is_meta_of(m: ModelMeta, dir: Seq<char>, d: ModelDocs, files: Seq<DirFile>) -> bool {
    &&& m.path@ == dir
    &&& m.format == ModelFormat::SafetensorsDir
    &&& m.name@ == pretty_name_of(dir, d.config)
    &&& m.basename is None
    &&& opt_text(m.arch) == architecture_of(d.config)
    &&& opt_text(m.quant) == quant_of(d)
    &&& m.params is None
    &&& m.n_layers == config_int(d.config, "num_hidden_layers"@)
    &&& m.n_embd == config_int(d.config, "hidden_size"@)
    &&& m.n_head is None
    &&& m.n_head_kv is None
    &&& m.ctx_train == trained_ctx(d.config)
    &&& m.vocab == config_int(d.config, "vocab_size"@)
    &&& m.weight_size == weight_size_of(d.index, files)
    &&& m.footprint == footprint_of(d.index, files)
}

fn as_doc(j: &Option<Json>) -> (r: Option<&Json>)
    ensures
        opt_view(r) == doc_view(*j),
{
    match j {
        Some(v) => Some(v),
        None => None,
    }
}

impl SafetensorsModel {
    /// What the documents say.
    pub open spec fn docs(&self) -> ModelDocs {
        ModelDocs {
            config: self.config@,
            quant_config: doc_view(self.quant_config),
            index: doc_view(self.index),
        }
    }

    /// Reads the documents of a directory. Without a configuration that is a
    /// document there is no model; the other two may be missing or unreadable.
    pub fn open(
        dir: &str,
        config: &str,
        quant_config: Option<&str>,
        index: Option<&str>,
    ) -> (r: Result<SafetensorsModel, String>)
        ensures
            match json_reading(config@) {
                Ok(c) => r is Ok && r->Ok_0.dir@ == dir@ && r->Ok_0.docs() == (ModelDocs {
                    config: c,
                    quant_config: doc_of(quant_config),
                    index: doc_of(index),
                }),
                Err(e) => r is Err && r->Err_0@ == e,
            },
    {
        match parse_json(config) {
            Ok(config) => Ok(
                SafetensorsModel {
                    dir: owned(dir),
                    config,
                    quant_config: read_doc(quant_config),
                    index: read_doc(index),
                },
            ),
            Err(e) => Err(e),
        }
    }

    fn architecture(&self) -> (r: Option<String>)
        ensures
            opt_text(r) == architecture_of(self.config@),
    {
        match find_text(find_item(self.config.get("architectures"), 0)) {
            Some(a) => Some(a),
            None => find_text(self.config.get("model_type")),
        }
    }

    fn ctx_train(&self) -> (r: Option<u64>)
        ensures
            r == trained_ctx(self.config@),
    {
        match int_in_config(&self.config, "max_position_embeddings") {
            Some(n) => Some(n),
            None => find_int(Some(&self.config), "max_sequence_length"),
        }
    }

    /// The quant of the model.
    pub fn quant(&self) -> (r: Option<String>)
        ensures
            opt_text(r) == quant_of(self.docs()),
    {
        match &self.quant_config {
            Some(qc) => {
                match search_value(qc, "NVFP4") {
                    Some(found) => {
                        return Some(str_upper(found.as_str()));
                    },
                    None => {},
                }
                match find_text(find_member(qc.get("quantization"), "quant_algo")) {
                    Some(q) => {
                        if !same(q.as_str(), "MIXED_PRECISION") {
                            return Some(q);
                        }
                    },
                    None => {},
                }
                match find_text(find_member(qc.get("producer"), "name")) {
                    Some(p) => {
                        return Some(p);
                    },
                    None => {},
                }
            },
            None => {},
        }
        find_text(find_member(self.config.get("quantization_config"), "quant_method"))
    }

    /// The size of the weights, given the files of the directory.
    pub fn weight_size(&self, files: &Vec<DirFile>) -> (r: u64)
        requires
            bytes_upto(files@, files@.len() as int) <= u64::MAX,
        ensures
            r == weight_size_of(self.docs().index, files@),
    {
        match find_u64(find_member(find_member(as_doc(&self.index), "metadata"), "total_size")) {
            Some(n) => {
                return n;
            },
            None => {},
        }
        let mut total: u64 = 0;
        let mut i: usize = 0;
        while i < files.len()
            invariant
                i <= files@.len(),
                bytes_upto(files@, files@.len() as int) <= u64::MAX,
                total == weights_upto(files@, i as int),
            decreases files@.len() - i,
        {
            proof {
                lemma_sums(files@, i + 1);
            }
            if holds_weights(files[i].0.as_str()) {
                total = total + files[i].1;
            }
            i = i + 1;
        }
        total
    }

    /// What the directory takes on disk.
    pub fn footprint(&self, files: &Vec<DirFile>) -> (r: u64)
        requires
            bytes_upto(files@, files@.len() as int) <= u64::MAX,
        ensures
            r == footprint_of(self.docs().index, files@),
    {
        let mut total: u64 = 0;
        let mut i: usize = 0;
        while i < files.len()
            invariant
                i <= files@.len(),
                bytes_upto(files@, files@.len() as int) <= u64::MAX,
                total == bytes_upto(files@, i as int),
            decreases files@.len() - i,
        {
            proof {
                lemma_sums(files@, i + 1);
            }
            total = total + files[i].1;
            i = i + 1;
        }
        let weights = self.weight_size(files);
        if total < weights {
            weights
        } else {
            total
        }
    }

    /// The name of the model.
    pub fn pretty_name(&self) -> (r: String)
        ensures
            r@ == pretty_name_of(self.dir@, self.config@),
    {
        match find_text(self.config.get("_name_or_path")) {
            Some(n) => {
                let parts = str_split(n.as_str(), '/');
                proof {
                    assert(split(n@, '/').len() > 0);
                    assert(texts(parts@)[parts@.len() - 1] == parts@[parts@.len() - 1]@);
                }
                let base = str_trim(parts[parts.len() - 1].as_str());
                if showable(base.as_str()) {
                    return base;
                }
            },
            None => {},
        }
        match path_file_name(self.dir.as_str()) {
            Some(d) => {
                let d = str_trim(d.as_str());
                if showable(d.as_str()) {
                    return d;
                }
            },
            None => {},
        }
        match find_text(self.config.get("model_type")) {
            Some(t) => t,
            None => match self.architecture() {
                Some(a) => a,
                None => owned("unknown"),
            },
        }
    }

    /// The record of the model, given the files of its directory.
    pub fn into_meta(self, files: &Vec<DirFile>) -> (m: ModelMeta)
        requires
            bytes_upto(files@, files@.len() as int) <= u64::MAX,
        ensures
            is_meta_of(m, self.dir@, self.docs(), files@),
    {
        let name = self.pretty_name();
        let arch = self.architecture();
        let quant = self.quant();
        let n_layers = int_in_config(&self.config, "num_hidden_layers");
        let n_embd = int_in_config(&self.config, "hidden_size");
        let ctx_train = self.ctx_train();
        let vocab = int_in_config(&self.config, "vocab_size");
        let weight_size = self.weight_size(files);
        let footprint = self.footprint(files);
        ModelMeta {
            path: owned(self.dir.as_str()),
            format: ModelFormat::SafetensorsDir,
            name,
            basename: None,
            arch,
            quant,
            params: None,
            n_layers,
            n_embd,
            n_head: None,
            n_head_kv: None,
            ctx_train,
            vocab,
            weight_size,
            footprint,
        }
    }
}

/// Reads a model directory: the record of the model, or why there is none.
pub fn open_dir(
    dir: &str,
    config: &str,
    quant_config: Option<&str>,
    index: Option<&str>,
    files: &Vec<DirFile>,
) -> (r: Result<ModelMeta, String>)
    requires
        bytes_upto(files@, files@.len() as int) <= u64::MAX,
    ensures
        match json_reading(config@) {
            Ok(c) => r is Ok && is_meta_of(
                r->Ok_0,
                dir@,
                ModelDocs { config: c, quant_config: doc_of(quant_config), index: doc_of(index) },
                files@,
            ),
            Err(e) => r is Err && r->Err_0@ == e,
        },
{
    match SafetensorsModel::open(dir, config, quant_config, index) {
        Ok(m) => Ok(m.into_meta(files)),
        Err(e) => Err(e),
    }
}

/// A directory is a model where it has a configuration, and an index or
/// weights.
pub open spec fn is_model_listing(has_config: bool, has_index: bool, names: Seq<Seq<char>>) -> bool {
    has_config && (has_index || exists|i: int|
        0 <= i < names.len() && is_weights(#[trigger] names[i]))
}

/// Whether a directory with these files is a model.
pub fn is_model_dir(has_config: bool, has_index: bool, names: &Vec<String>) -> (r: bool)
    ensures
        r == is_model_listing(has_config, has_index, texts(names@)),
{
    if !has_config {
        return false;
    }
    if has_index {
        return true;
    }
    let ghost all = texts(names@);
    let mut i: usize = 0;
    while i < names.len()
        invariant
            all == texts(names@),
            has_config,
            i <= names@.len(),
            forall|j: int| 0 <= j < i ==> !is_weights(#[trigger] all[j]),
        decreases names@.len() - i,
    {
        assert(all[i as int] == names@[i as int]@);
        if holds_weights(names[i].as_str()) {
            return true;
        }
        i = i + 1;
    }
    false
}

/// A model directory takes no less than its weights.
pub proof fn law_footprint_covers_weights(
    m: ModelMeta,
    dir: Seq<char>,
    d: ModelDocs,
    files: Seq<DirFile>,
)
    requires
        is_meta_of(m, dir, d, files),
    ensures
        m.footprint >= m.weight_size,
{
}

} // verus!
