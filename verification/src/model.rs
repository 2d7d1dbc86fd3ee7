//! The model descriptor that every format parser produces.
use vstd::prelude::*;
use vstd::string::StringExecFns;

use crate::text::{
    char_is_digit, clone_opt, decimal, decimal_of, is_digit, lowercased, opt_text, owned,
    slice_string, str_lower, str_trim, to_chars, trim,
};

verus! {

#[derive(Debug, Clone, Copy, PartialEq, Eq, Structural)]
pub enum ModelFormat {
    Gguf,
    SafetensorsDir,
}

/// The name of a format as identities spell it.
pub open spec fn format_name(f: ModelFormat) -> Seq<char> {
    match f {
        ModelFormat::Gguf => "Gguf"@,
        ModelFormat::SafetensorsDir => "SafetensorsDir"@,
    }
}

/// The name of a format as manifests and the index spell it.
pub open spec fn format_tag(f: ModelFormat) -> Seq<char> {
    match f {
        ModelFormat::Gguf => "gguf"@,
        ModelFormat::SafetensorsDir => "safetensors-dir"@,
    }
}

impl ModelFormat {
    pub fn name(&self) -> (r: &'static str)
        ensures
            r@ == format_name(*self),
    {
        match self {
            ModelFormat::Gguf => "Gguf",
            ModelFormat::SafetensorsDir => "SafetensorsDir",
        }
    }

    pub fn tag(&self) -> (r: &'static str)
        ensures
            r@ == format_tag(*self),
    {
        match self {
            ModelFormat::Gguf => "gguf",
            ModelFormat::SafetensorsDir => "safetensors-dir",
        }
    }
}

#[derive(Debug, Clone, PartialEq)]
pub struct ModelMeta {
    pub path: String,
    pub format: ModelFormat,
    /// Name for people.
    pub name: String,
    /// The family that the publisher declared, free of quantisation.
    pub basename: Option<String>,
    pub arch: Option<String>,
    pub quant: Option<String>,
    pub params: Option<u64>,
    pub n_layers: Option<u64>,
    pub n_embd: Option<u64>,
    pub n_head: Option<u64>,
    pub n_head_kv: Option<u64>,
    pub ctx_train: Option<u64>,
    pub vocab: Option<u64>,
    /// Bytes of tensor weights.
    pub weight_size: u64,
    /// Bytes on disk, tokenizer and configuration included.
    pub footprint: u64,
}

/// Two descriptors hold the same values.
pub open spec fn same_meta(a: ModelMeta, b: ModelMeta) -> bool {
    &&& a.path@ == b.path@
    &&& a.format == b.format
    &&& a.name@ == b.name@
    &&& opt_text(a.basename) == opt_text(b.basename)
    &&& opt_text(a.arch) == opt_text(b.arch)
    &&& opt_text(a.quant) == opt_text(b.quant)
    &&& a.params == b.params
    &&& a.n_layers == b.n_layers
    &&& a.n_embd == b.n_embd
    &&& a.n_head == b.n_head
    &&& a.n_head_kv == b.n_head_kv
    &&& a.ctx_train == b.ctx_train
    &&& a.vocab == b.vocab
    &&& a.weight_size == b.weight_size
    &&& a.footprint == b.footprint
}

/// Half a GiB.
pub const BUCKET: u64 = 536_870_912;

/// The weight size in half GiB, rounded to the nearest; a tie goes up.
pub open spec fn size_bucket(bytes: u64) -> nat {
    ((bytes + BUCKET / 2) / BUCKET as int) as nat
}

/// The architecture, or a question mark.
pub open spec fn arch_or_unknown(m: ModelMeta) -> Seq<char> {
    match opt_text(m.arch) {
        Some(a) => a,
        None => "?"@,
    }
}

/// The key under which copies of one model are found: architecture, format and
/// weight-size bucket.
pub open spec fn identity_of(m: ModelMeta) -> Seq<char> {
    arch_or_unknown(m) + "|"@ + format_name(m.format) + "|"@ + decimal(size_bucket(m.weight_size))
}

/// The end of the run of digits that starts at `i`.
pub open spec fn digits_end(s: Seq<char>, i: int) -> int
    decreases s.len() - i,
{
    if 0 <= i < s.len() && is_digit(s[i]) {
        digits_end(s, i + 1)
    } else {
        i
    }
}

/// The end of the `major.minor` token that starts with the run of digits at
/// `i`, if one does.
pub open spec fn version_end(s: Seq<char>, i: int) -> Option<int> {
    let j = digits_end(s, i);
    if i < j < s.len() && s[j] == '.' && digits_end(s, j + 1) > j + 1 {
        Some(digits_end(s, j + 1))
    } else {
        None
    }
}

/// The first `major.minor` token at or after `i`, where `i` does not split a
/// run of digits.
pub open spec fn version_from(s: Seq<char>, i: int) -> Option<Seq<char>>
    decreases s.len() - i,
{
    if i < 0 || i >= s.len() {
        None
    } else if !is_digit(s[i]) {
        version_from(s, i + 1)
    } else {
        match version_end(s, i) {
            Some(e) => Some(s.subrange(i, e)),
            None => if i < digits_end(s, i) <= s.len() {
                version_from(s, digits_end(s, i))
            } else {
                None
            },
        }
    }
}

/// The first `major.minor` token of a family name.
pub open spec fn version_of(s: Seq<char>) -> Option<Seq<char>> {
    version_from(s, 0)
}

/// The declared family, trimmed; a blank one counts as none.
pub open spec fn family_name(m: ModelMeta) -> Option<Seq<char>> {
    match opt_text(m.basename) {
        Some(b) => if trim(b).len() > 0 {
            Some(trim(b))
        } else {
            None
        },
        None => None,
    }
}

/// The key under which variants of one family are listed: architecture and
/// version token, or architecture and family name, without regard to case;
/// without a declared family the identity.
pub open spec fn group_key_of(m: ModelMeta) -> Seq<char> {
    match family_name(m) {
        Some(b) => lowercased(arch_or_unknown(m)) + "|"@ + match version_of(lowercased(b)) {
            Some(v) => v,
            None => lowercased(b),
        },
        None => identity_of(m),
    }
}

/// A run of digits ends within the text, behind its first digit.
pub proof fn lemma_digits_end(s: Seq<char>, i: int)
    requires
        0 <= i <= s.len(),
    ensures
        i <= digits_end(s, i) <= s.len(),
        i < s.len() && is_digit(s[i]) ==> i < digits_end(s, i),
    decreases s.len() - i,
{
    if i < s.len() && is_digit(s[i]) {
        lemma_digits_end(s, i + 1);
    }
}

/// The end of the run of digits that starts at a position.
pub fn end_of_digits(v: &Vec<char>, from: usize) -> (to: usize)
    requires
        from <= v@.len(),
    ensures
        from <= to <= v@.len(),
        to == digits_end(v@, from as int),
{
    let mut to: usize = from;
    while to < v.len() && char_is_digit(v[to])
        invariant
            from <= to <= v@.len(),
            digits_end(v@, from as int) == digits_end(v@, to as int),
        decreases v@.len() - to,
    {
        to = to + 1;
    }
    to
}

/// The first `major.minor` token of a family name; bare numbers are none.
pub fn version_token(name: &str) -> (r: Option<String>)
    ensures
        opt_text(r) == version_of(name@),
{
    let v = to_chars(name);
    let mut i: usize = 0;
    while i < v.len()
        invariant
            v@ == name@,
            i <= v@.len(),
            version_of(name@) == version_from(v@, i as int),
        decreases v@.len() - i,
    {
        if char_is_digit(v[i]) {
            let j = end_of_digits(&v, i);
            proof {
                lemma_digits_end(v@, i + 1);
            }
            if j < v.len() && v[j] == '.' {
                let l = end_of_digits(&v, j + 1);
                if l > j + 1 {
                    return Some(slice_string(&v, i, l));
                }
            }
            i = j;
        } else {
            i = i + 1;
        }
    }
    None
}

impl ModelMeta {
    /// The key under which copies of one model are found.
    pub fn identity(&self) -> (r: String)
        ensures
            r@ == identity_of(*self),
    {
        let mut r = match &self.arch {
            Some(a) => owned(a.as_str()),
            None => owned("?"),
        };
        r.append("|");
        r.append(self.format.name());
        r.append("|");
        let rem: u64 = self.weight_size % BUCKET;
        let bucket: u64 = self.weight_size / BUCKET + if rem >= 268_435_456 {
            1
        } else {
            0
        };
        assert(bucket == size_bucket(self.weight_size));
        r.append(decimal_of(bucket).as_str());
        r
    }

    /// The key under which variants of one family are listed.
    pub fn group_key(&self) -> (r: String)
        ensures
            r@ == group_key_of(*self),
    {
        let family = match &self.basename {
            Some(b) => str_trim(b.as_str()),
            None => String::new(),
        };
        if family.as_str().is_empty() {
            return self.identity();
        }
        let mut r = match &self.arch {
            Some(a) => str_lower(a.as_str()),
            None => str_lower("?"),
        };
        r.append("|");
        let lower = str_lower(family.as_str());
        match version_token(lower.as_str()) {
            Some(v) => r.append(v.as_str()),
            None => r.append(lower.as_str()),
        }
        r
    }
}

/// A copy of a descriptor.
pub fn clone_meta(m: &ModelMeta) -> (r: ModelMeta)
    ensures
        same_meta(r, *m),
{
    ModelMeta {
        path: owned(m.path.as_str()),
        format: m.format,
        name: owned(m.name.as_str()),
        basename: clone_opt(&m.basename),
        arch: clone_opt(&m.arch),
        quant: clone_opt(&m.quant),
        params: m.params,
        n_layers: m.n_layers,
        n_embd: m.n_embd,
        n_head: m.n_head,
        n_head_kv: m.n_head_kv,
        ctx_train: m.ctx_train,
        vocab: m.vocab,
        weight_size: m.weight_size,
        footprint: m.footprint,
    }
}

/// Without a declared family a model is listed under its identity.
pub proof fn law_group_key_falls_back(m: ModelMeta)
    requires
        family_name(m) is None,
    ensures
        group_key_of(m) == identity_of(m),
{
}

/// Models of one architecture whose family names carry the same version token
/// share a listing, whatever else the names and sizes are.
pub proof fn law_version_is_the_family(a: ModelMeta, b: ModelMeta)
    requires
        arch_or_unknown(a) == arch_or_unknown(b),
        family_name(a) is Some,
        family_name(b) is Some,
        version_of(lowercased(family_name(a)->0)) is Some,
        version_of(lowercased(family_name(a)->0)) == version_of(lowercased(family_name(b)->0)),
    ensures
        group_key_of(a) == group_key_of(b),
{
}

} // verus!
