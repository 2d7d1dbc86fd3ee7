//! Relevance of releases: what a release's name says of the model, and the
//! terms of its score.
//!
//! Each term lies between zero and one. What a name does not say is never
//! guessed: a model whose size cannot be told from its name is not claimed to
//! fit. The arithmetic on sizes and weights is the caller's.
use vstd::prelude::*;
use vstd::string::StringExecFns;

use crate::measure::Measure;
use crate::model::{digits_end, end_of_digits, lemma_digits_end};
use crate::order::{arranged, in_order, lemma_in_order, stable_order, Ranking};
use crate::store::releases::Release;
use crate::text::{
    char_is_digit, contains, decimal, decimal_of, is_digit, lowercased, opt_text, owned, same,
    slice_string, split, str_contains, str_lower, str_split, texts, to_chars,
};

verus! {

/// An installed model.
#[derive(Debug, Clone, PartialEq, Eq)]
pub struct Installed {
    pub name: String,
    pub arch: Option<String>,
    pub quant: Option<String>,
}

/// The best speed that was measured so far.
#[derive(Debug, Clone, Copy, PartialEq, Eq, Structural)]
pub struct BenchBest {
    pub tok_s: Option<Measure>,
}

impl Default for BenchBest {
    fn default() -> (r: Self)
        ensures
            r.tok_s is None,
    {
        BenchBest { tok_s: None }
    }
}

/// Doubles between zero and one, by their bit patterns.
pub const ZERO: u64 = 0;

pub const TENTH: u64 = 0x3fb9_9999_9999_999a;

pub const THREE_TWENTIETHS: u64 = 0x3fc3_3333_3333_3333;

pub const FIFTH: u64 = 0x3fc9_9999_9999_999a;

pub const QUARTER: u64 = 0x3fd0_0000_0000_0000;

pub const THREE_TENTHS: u64 = 0x3fd3_3333_3333_3333;

pub const TWO_FIFTHS: u64 = 0x3fd9_9999_9999_999a;

pub const HALF: u64 = 0x3fe0_0000_0000_0000;

pub const SEVEN_TENTHS: u64 = 0x3fe6_6666_6666_6666;

pub const ONE: u64 = 0x3ff0_0000_0000_0000;

/// The weights of the terms.
#[derive(Debug, Clone, Copy, PartialEq, Eq, Structural)]
pub struct Weights {
    pub hw: Measure,
    pub family: Measure,
    pub novelty: Measure,
    pub bench: Measure,
    pub recency: Measure,
}

impl Default for Weights {
    fn default() -> (r: Self)
        ensures
            r.hw.bits == THREE_TENTHS,
            r.family.bits == QUARTER,
            r.novelty.bits == THREE_TWENTIETHS,
            r.bench.bits == FIFTH,
            r.recency.bits == TENTH,
    {
        Weights {
            hw: Measure { bits: THREE_TENTHS },
            family: Measure { bits: QUARTER },
            novelty: Measure { bits: THREE_TWENTIETHS },
            bench: Measure { bits: FIFTH },
            recency: Measure { bits: TENTH },
        }
    }
}

/// A score with its terms.
#[derive(Debug, Clone, PartialEq)]
pub struct Score {
    pub total: Measure,
    pub hw: Measure,
    pub family: Measure,
    pub novelty: Measure,
    pub bench: Measure,
    pub recency: Measure,
    pub fits: bool,
    /// The size of the download in GB, where it can be told.
    pub disk_gb: Option<Measure>,
    /// The largest context with which the model still fits.
    pub max_ctx: Option<u64>,
    pub disk_fits: bool,
    pub reasons: Vec<String>,
    /// The size of the download in GB for each quant.
    pub quant_sizes: Vec<(String, Measure)>,
    /// `moe`, `dense`, `unknown` or `engine`.
    pub model_type: String,
}

/// The first of the words from the `i`-th on that a text contains.
pub open spec fn first_word(s: Seq<char>, ws: Seq<Seq<char>>, i: int) -> Option<int>
    decreases ws.len() - i,
{
    if i < 0 || i >= ws.len() {
        None
    } else if contains(s, ws[i]) {
        Some(i)
    } else {
        first_word(s, ws, i + 1)
    }
}

/// The words of a list.
pub open spec fn str_views(v: Seq<&'static str>) -> Seq<Seq<char>> {
    Seq::new(v.len(), |i: int| v[i]@)
}

fn find_word(s: &str, ws: &Vec<&'static str>) -> (r: Option<usize>)
    ensures
        match r {
            Some(i) => first_word(s@, str_views(ws@), 0) == Some(i as int) && i < ws@.len(),
            None => first_word(s@, str_views(ws@), 0) is None,
        },
{
    let ghost all = str_views(ws@);
    let mut i: usize = 0;
    while i < ws.len()
        invariant
            all == str_views(ws@),
            i <= ws@.len(),
            first_word(s@, all, 0) == first_word(s@, all, i as int),
        decreases ws@.len() - i,
    {
        assert(all[i as int] == ws@[i as int]@);
        if str_contains(s, ws[i]) {
            return Some(i);
        }
        i = i + 1;
    }
    None
}

/// The families that a name can tell.
pub open spec fn families() -> Seq<Seq<char>> {
    seq![
        "qwen"@,
        "llama"@,
        "mistral"@,
        "gemma"@,
        "phi"@,
        "deepseek"@,
        "glm"@,
        "codellama"@,
    ]
}

/// The family of a model: the first that its name contains, else the first step
/// of the name.
pub open spec fn family_spec(s: Seq<char>) -> Seq<char> {
    let lower = lowercased(s);
    match first_word(lower, families(), 0) {
        Some(i) => families()[i],
        None => split(lower, '/')[0],
    }
}

/// The family of a model.
pub fn family_of(s: &str) -> (r: String)
    ensures
        r@ == family_spec(s@),
{
    let lower = str_lower(s);
    let mut ws: Vec<&'static str> = Vec::new();
    ws.push("qwen");
    ws.push("llama");
    ws.push("mistral");
    ws.push("gemma");
    ws.push("phi");
    ws.push("deepseek");
    ws.push("glm");
    ws.push("codellama");
    assert(str_views(ws@) =~= families());
    match find_word(lower.as_str(), &ws) {
        Some(i) => {
            assert(families()[i as int] == ws@[i as int]@);
            owned(ws[i])
        },
        None => {
            let parts = str_split(lower.as_str(), '/');
            assert(split(lower@, '/').len() > 0);
            assert(texts(parts@)[0] == parts@[0]@);
            owned(parts[0].as_str())
        },
    }
}

/// The quants that a name can tell.
pub open spec fn quant_words() -> Seq<Seq<char>> {
    seq![
        "q4_k_m"@,
        "q4_0"@,
        "q5_k_m"@,
        "q3_k"@,
        "iq4_xs"@,
        "q8_0"@,
        "f16"@,
        "bf16"@,
        "q6_k"@,
    ]
}

/// The quant that a name tells.
pub open spec fn quant_spec(s: Seq<char>) -> Option<Seq<char>> {
    match first_word(lowercased(s), quant_words(), 0) {
        Some(i) => Some(quant_words()[i]),
        None => None,
    }
}

/// The quant that a name tells.
pub fn quant_token(s: &str) -> (r: Option<String>)
    ensures
        opt_text(r) == quant_spec(s@),
{
    let lower = str_lower(s);
    let mut ws: Vec<&'static str> = Vec::new();
    ws.push("q4_k_m");
    ws.push("q4_0");
    ws.push("q5_k_m");
    ws.push("q3_k");
    ws.push("iq4_xs");
    ws.push("q8_0");
    ws.push("f16");
    ws.push("bf16");
    ws.push("q6_k");
    assert(str_views(ws@) =~= quant_words());
    match find_word(lower.as_str(), &ws) {
        Some(i) => {
            assert(quant_words()[i as int] == ws@[i as int]@);
            Some(owned(ws[i]))
        },
        None => None,
    }
}

/// The quants whose size is known.
pub open spec fn sized_quants() -> Seq<Seq<char>> {
    seq![
        "iq4_xs"@,
        "iq4_nl"@,
        "q4_0"@,
        "q4_k_m"@,
        "q4_k_s"@,
        "q4_k"@,
        "q5_0"@,
        "q5_k_m"@,
        "q5_k_s"@,
        "q5_k"@,
        "q6_k"@,
        "q8_0"@,
        "f16"@,
        "bf16"@,
        "fp16"@,
    ]
}

/// Their sizes, in percent of the size with sixteen bits.
pub open spec fn quant_percents() -> Seq<u32> {
    seq![
        37u32,
        40u32,
        44u32,
        45u32,
        43u32,
        45u32,
        53u32,
        55u32,
        52u32,
        55u32,
        64u32,
        88u32,
        100u32,
        100u32,
        100u32,
    ]
}

/// The size of a model by its name, in percent of the size with sixteen bits;
/// half, where the name tells no quant.
pub open spec fn ratio_spec(repo: Seq<char>) -> u32 {
    match first_word(lowercased(repo), sized_quants(), 0) {
        Some(i) => quant_percents()[i],
        None => 50,
    }
}

/// The size of a model by its name, in percent of the size with sixteen bits.
pub fn quant_ratio(repo: &str) -> (r: u32)
    ensures
        r == ratio_spec(repo@),
{
    let lower = str_lower(repo);
    let mut ws: Vec<&'static str> = Vec::new();
    ws.push("iq4_xs");
    ws.push("iq4_nl");
    ws.push("q4_0");
    ws.push("q4_k_m");
    ws.push("q4_k_s");
    ws.push("q4_k");
    ws.push("q5_0");
    ws.push("q5_k_m");
    ws.push("q5_k_s");
    ws.push("q5_k");
    ws.push("q6_k");
    ws.push("q8_0");
    ws.push("f16");
    ws.push("bf16");
    ws.push("fp16");
    assert(str_views(ws@) =~= sized_quants());
    let percents: [u32; 15] = [37, 40, 44, 45, 43, 45, 53, 55, 52, 55, 64, 88, 100, 100, 100];
    assert(percents@ =~= quant_percents());
    match find_word(lower.as_str(), &ws) {
        Some(i) => percents[i],
        None => 50,
    }
}

/// Words by which a name tells a mixture of experts.
pub open spec fn moe_words() -> Seq<Seq<char>> {
    seq![
        "moe"@,
        "mixture"@,
        "mixtral"@,
        "dbrx"@,
        "deepseek-v2"@,
        "deepseek-v3"@,
        "arctic"@,
        "command-r"@,
    ]
}

/// Words by which a name tells a dense model.
pub open spec fn dense_words() -> Seq<Seq<char>> {
    seq![
        "qwen3-"@,
        "qwen2.5-"@,
        "qwen2-"@,
        "llama3"@,
        "llama-3"@,
        "phi-4"@,
        "phi-3"@,
        "gemma-3"@,
        "gemma-2"@,
        "mistral-7"@,
        "codellama"@,
        "deepseek-coder-v2"@,
    ]
}

/// The kind of a model by its name.
pub open spec fn model_type_spec(repo: Seq<char>) -> Seq<char> {
    let lower = lowercased(repo);
    if first_word(lower, moe_words(), 0) is Some {
        "moe"@
    } else if first_word(lower, dense_words(), 0) is Some {
        "dense"@
    } else {
        "unknown"@
    }
}

/// The kind of a model by its name.
pub fn model_type(repo: &str) -> (r: String)
    ensures
        r@ == model_type_spec(repo@),
{
    let lower = str_lower(repo);
    let mut moe: Vec<&'static str> = Vec::new();
    moe.push("moe");
    moe.push("mixture");
    moe.push("mixtral");
    moe.push("dbrx");
    moe.push("deepseek-v2");
    moe.push("deepseek-v3");
    moe.push("arctic");
    moe.push("command-r");
    assert(str_views(moe@) =~= moe_words());
    if find_word(lower.as_str(), &moe).is_some() {
        return owned("moe");
    }
    let mut dense: Vec<&'static str> = Vec::new();
    dense.push("qwen3-");
    dense.push("qwen2.5-");
    dense.push("qwen2-");
    dense.push("llama3");
    dense.push("llama-3");
    dense.push("phi-4");
    dense.push("phi-3");
    dense.push("gemma-3");
    dense.push("gemma-2");
    dense.push("mistral-7");
    dense.push("codellama");
    dense.push("deepseek-coder-v2");
    assert(str_views(dense@) =~= dense_words());
    if find_word(lower.as_str(), &dense).is_some() {
        return owned("dense");
    }
    owned("unknown")
}

/// The numeral is of a number above zero.
pub open spec fn is_positive(s: Seq<char>) -> bool {
    exists|i: int| 0 <= i < s.len() && #[trigger] s[i] != '0' && s[i] != '.'
}

/// The end of the numeral that begins with the run of digits at `i`, and
/// whether it has a fraction.
pub open spec fn numeral_end(s: Seq<char>, i: int) -> (int, bool) {
    let j = digits_end(s, i);
    if j + 1 < s.len() && s[j] == '.' && is_digit(s[j + 1]) {
        (digits_end(s, j + 1), true)
    } else {
        (j, false)
    }
}

proof fn lemma_numeral_end(s: Seq<char>, i: int)
    requires
        0 <= i < s.len(),
        is_digit(s[i]),
    ensures
        i < numeral_end(s, i).0 <= s.len(),
{
    lemma_digits_end(s, i);
    let j = digits_end(s, i);
    if j + 1 < s.len() {
        lemma_digits_end(s, j + 1);
    }
}

/// The numeral at `i` names a part and not the total: that of one expert, as in
/// `8x7b`, or the active part, as in a word that begins with `a3b`.
pub open spec fn names_part(s: Seq<char>, i: int) -> bool {
    ||| i >= 2 && s[i - 1] == 'x' && is_digit(s[i - 2])
    ||| i >= 1 && s[i - 1] == 'a' && (i == 1 || s[i - 2] == '-' || s[i - 2] == '_' || s[i - 2]
        == '/')
}

fn at_part(v: &Vec<char>, i: usize) -> (r: bool)
    requires
        i < v@.len(),
    ensures
        r == names_part(v@, i as int),
{
    if i >= 2 && v[i - 1] == 'x' && char_is_digit(v[i - 2]) {
        return true;
    }
    i >= 1 && v[i - 1] == 'a' && (i == 1 || v[i - 2] == '-' || v[i - 2] == '_' || v[i - 2] == '/')
}

/// The total of a model's parameters in billions, as the first numeral above
/// zero that a `b` follows, from `i` on. A numeral with a fraction or of a part
/// does not name the total, so then there is none.
pub open spec fn params_from(s: Seq<char>, i: int) -> Option<Seq<char>>
    decreases s.len() - i,
    via params_from_ends
{
    if i < 0 || i >= s.len() {
        None
    } else if !is_digit(s[i]) {
        params_from(s, i + 1)
    } else {
        let (k, fraction) = numeral_end(s, i);
        if k < s.len() && s[k] == 'b' && is_positive(s.subrange(i, k)) {
            if fraction || names_part(s, i) {
                None
            } else {
                Some(s.subrange(i, k))
            }
        } else {
            params_from(s, k)
        }
    }
}

#[via_fn]
proof fn params_from_ends(s: Seq<char>, i: int) {
    if 0 <= i < s.len() && is_digit(s[i]) {
        lemma_numeral_end(s, i);
    }
}

fn positive(v: &Vec<char>, from: usize, to: usize) -> (r: bool)
    requires
        from <= to <= v@.len(),
    ensures
        r == is_positive(v@.subrange(from as int, to as int)),
{
    let ghost s = v@.subrange(from as int, to as int);
    let mut i: usize = from;
    while i < to
        invariant
            s == v@.subrange(from as int, to as int),
            from <= i <= to <= v@.len(),
            forall|j: int| 0 <= j < i - from ==> #[trigger] s[j] == '0' || s[j] == '.',
        decreases to - i,
    {
        if v[i] != '0' && v[i] != '.' {
            assert(s[i - from] == v@[i as int]);
            return true;
        }
        i = i + 1;
    }
    false
}

/// The total of a model's parameters in billions, by its name; none where the
/// name does not tell it.
pub fn params_total_b(repo: &str) -> (r: Option<String>)
    ensures
        opt_text(r) == params_from(lowercased(repo@), 0),
{
    let lower = str_lower(repo);
    let v = to_chars(lower.as_str());
    let ghost s = lower@;
    let mut i: usize = 0;
    while i < v.len()
        invariant
            v@ == s,
            s == lowercased(repo@),
            i <= v@.len(),
            params_from(s, 0) == params_from(s, i as int),
        decreases v@.len() - i,
    {
        if !char_is_digit(v[i]) {
            i = i + 1;
            continue;
        }
        proof {
            lemma_numeral_end(s, i as int);
            lemma_digits_end(s, i as int);
        }
        let j = end_of_digits(&v, i);
        let mut k: usize = j;
        let mut fraction = false;
        if j < v.len() && v.len() - j > 1 && v[j] == '.' && char_is_digit(v[j + 1]) {
            fraction = true;
            k = end_of_digits(&v, j + 1);
        }
        assert(numeral_end(s, i as int) == (k as int, fraction));
        if k < v.len() && v[k] == 'b' && positive(&v, i, k) {
            if fraction || at_part(&v, i) {
                return None;
            }
            return Some(slice_string(&v, i, k));
        }
        i = k;
    }
    None
}

/// What a model is estimated to take, by its name: the download in GB, as a
/// double and rounded, and in MB; the largest context that its weights leave
/// room for; and the download for each quant.
#[derive(Debug, Clone, PartialEq)]
pub struct Sizing {
    pub gb: Measure,
    pub gb_rounded: String,
    pub mb: u64,
    pub max_ctx: Option<u64>,
    /// The download in GB for each quant of the table, in its order.
    pub quant_gb: Vec<Measure>,
}

/// The quants that a download can be had in, with their sizes in percent of the
/// size with sixteen bits.
pub open spec fn quant_table() -> Seq<(Seq<char>, u32)> {
    seq![
        ("Q4_K_M"@, 45u32),
        ("Q5_K_M"@, 55u32),
        ("Q8_0"@, 88u32),
        ("Q4_0"@, 44u32),
        ("Q5_0"@, 53u32),
        ("Q6_K"@, 64u32),
        ("IQ4_XS"@, 37u32),
        ("F16"@, 100u32),
    ]
}

/// The quants that a download can be had in, with their sizes in percent of the
/// size with sixteen bits.
pub fn quant_options() -> (r: Vec<(&'static str, u32)>)
    ensures
        r@.len() == quant_table().len(),
        forall|i: int|
            0 <= i < r@.len() ==> (#[trigger] r@[i]).0@ == quant_table()[i].0 && r@[i].1
                == quant_table()[i].1,
{
    vec![
        ("Q4_K_M", 45),
        ("Q5_K_M", 55),
        ("Q8_0", 88),
        ("Q4_0", 44),
        ("Q5_0", 53),
        ("Q6_K", 64),
        ("IQ4_XS", 37),
        ("F16", 100),
    ]
}

/// The sizing counts where the name of the release tells the total of the
/// model's parameters, and only there.
pub open spec fn told(r: Release, sizing: Option<&Sizing>) -> Option<&Sizing> {
    if params_from(lowercased(r.repo@), 0) is Some {
        sizing
    } else {
        None
    }
}

/// The memory that is kept back for the desktop, in MB.
pub const RESERVED_MB: u64 = 1600;

/// The model fits beside what is kept back.
pub open spec fn fits_vram(mb: u64, vram_mb: u64) -> bool {
    mb + RESERVED_MB < vram_mb
}

/// The release is one of an engine.
pub open spec fn is_engine(r: Release) -> bool {
    r.source@ == "github"@
}

/// Whether a release fits the hardware. An engine always does; a model whose
/// size is unknown is never said to.
pub open spec fn fits_spec(r: Release, sizing: Option<&Sizing>, vram_mb: u64) -> bool {
    is_engine(r) || (sizing is Some && fits_vram(sizing->0.mb, vram_mb))
}

/// The hardware term, by its bit pattern.
pub open spec fn hw_spec(r: Release, sizing: Option<&Sizing>, vram_mb: u64) -> u64 {
    if is_engine(r) {
        FIFTH
    } else {
        match sizing {
            None => ZERO,
            Some(z) => if fits_vram(z.mb, vram_mb) {
                ONE
            } else if z.mb < vram_mb + 4000 {
                HALF
            } else {
                ZERO
            },
        }
    }
}

/// Why the hardware term is what it is.
pub open spec fn hw_reason(r: Release, sizing: Option<&Sizing>, vram_mb: u64) -> Seq<char> {
    if is_engine(r) {
        "engine release"@
    } else {
        match sizing {
            None => "size unknown (composite/MoE) — probe GGUF in MARKET before testing"@,
            Some(z) => "~"@ + z.gb_rounded@ + (if fits_vram(z.mb, vram_mb) {
                "GB fits "@
            } else {
                "GB tight on "@
            }) + decimal(vram_mb as nat) + "MB"@,
        }
    }
}

/// An installed model is of a family.
pub open spec fn is_of_family(m: Installed, fam: Seq<char>) -> bool {
    contains(
        lowercased(
            match opt_text(m.arch) {
                Some(a) => a,
                None => m.name@,
            },
        ),
        fam,
    ) || contains(lowercased(m.name@), fam)
}

/// Some installed model is of the release's family.
pub open spec fn family_hit(r: Release, installed: Seq<Installed>) -> bool {
    exists|i: int|
        0 <= i < installed.len() && is_of_family(#[trigger] installed[i], family_spec(r.repo@))
}

/// An installed model has a quant.
pub open spec fn is_of_quant(m: Installed, q: Seq<char>) -> bool {
    contains(
        lowercased(
            match opt_text(m.quant) {
                Some(t) => t,
                None => ""@,
            },
        ),
        q,
    )
}

/// Some installed model has the quant.
pub open spec fn has_quant(installed: Seq<Installed>, q: Seq<char>) -> bool {
    exists|i: int| 0 <= i < installed.len() && is_of_quant(#[trigger] installed[i], q)
}

/// The novelty term, by its bit pattern.
pub open spec fn novelty_spec(r: Release, installed: Seq<Installed>) -> u64 {
    match quant_spec(r.repo@) {
        Some(q) => if has_quant(installed, q) {
            THREE_TENTHS
        } else {
            ONE
        },
        None => HALF,
    }
}

/// The benchmark term, by its bit pattern.
pub open spec fn bench_spec(bench: BenchBest, fits: bool) -> u64 {
    if bench.tok_s is None {
        HALF
    } else if fits {
        SEVEN_TENTHS
    } else {
        TWO_FIFTHS
    }
}

/// The download fits the free space. What has no known size is not judged.
pub open spec fn disk_spec(r: Release, sizing: Option<&Sizing>, disk_free_mb: u64) -> bool {
    is_engine(r) || sizing is None || sizing->0.mb + 512 < disk_free_mb
}

/// The reasons that are given for a score.
pub open spec fn reasons_spec(
    r: Release,
    installed: Seq<Installed>,
    bench: BenchBest,
    vram_mb: u64,
    sizing: Option<&Sizing>,
    disk_free_mb: u64,
) -> Seq<Seq<char>> {
    let first = seq![hw_reason(r, sizing, vram_mb)];
    let second = if family_hit(r, installed) {
        first.push("family "@ + family_spec(r.repo@) + " you use"@)
    } else {
        first
    };
    let q = quant_spec(r.repo@);
    let third = if q is Some && !has_quant(installed, q->0) {
        second.push("new quant "@ + q->0)
    } else {
        second
    };
    let fourth = if bench.tok_s is Some && fits_spec(r, sizing, vram_mb) {
        third.push("may beat current best"@)
    } else {
        third
    };
    if disk_spec(r, sizing, disk_free_mb) {
        fourth
    } else {
        fourth.push("~"@ + sizing->0.gb_rounded@ + "GB won't fit free disk"@)
    }
}

/// The sizes are those of the quants of the table, as far as they are given.
pub open spec fn are_quant_sizes(v: Seq<(String, Measure)>, gb: Seq<Measure>) -> bool {
    &&& v.len() == if gb.len() < quant_table().len() {
        gb.len()
    } else {
        quant_table().len()
    }
    &&& forall|i: int|
        0 <= i < v.len() ==> (#[trigger] v[i]).0@ == quant_table()[i].0 && v[i].1 == gb[i]
}

/// The terms of a release's score.
pub open spec fn has_terms(
    s: Score,
    r: Release,
    installed: Seq<Installed>,
    bench: BenchBest,
    vram_mb: u64,
    sizing: Option<&Sizing>,
    disk_free_mb: u64,
) -> bool {
    let sized = !is_engine(r) && sizing is Some;
    &&& s.hw.bits == hw_spec(r, sizing, vram_mb)
    &&& s.fits == fits_spec(r, sizing, vram_mb)
    &&& s.family.bits == if family_hit(r, installed) {
        ONE
    } else {
        THREE_TENTHS
    }
    &&& s.novelty.bits == novelty_spec(r, installed)
    &&& s.bench.bits == bench_spec(bench, s.fits)
    &&& s.disk_gb == if sized {
        Some(sizing->0.gb)
    } else {
        None
    }
    &&& s.max_ctx == if sized && s.fits {
        sizing->0.max_ctx
    } else {
        None
    }
    &&& s.disk_fits == disk_spec(r, sizing, disk_free_mb)
    &&& texts(s.reasons@) == reasons_spec(r, installed, bench, vram_mb, sizing, disk_free_mb)
    &&& if sized {
        are_quant_sizes(s.quant_sizes@, sizing->0.quant_gb@)
    } else {
        s.quant_sizes@.len() == 0
    }
    &&& s.model_type@ == if is_engine(r) {
        "engine"@
    } else {
        model_type_spec(r.repo@)
    }
}

fn uses_family(installed: &Vec<Installed>, fam: &str) -> (r: bool)
    ensures
        r == exists|i: int|
            0 <= i < installed@.len() && is_of_family(#[trigger] installed@[i], fam@),
{
    let mut i: usize = 0;
    while i < installed.len()
        invariant
            i <= installed@.len(),
            forall|j: int| 0 <= j < i ==> !is_of_family(#[trigger] installed@[j], fam@),
        decreases installed@.len() - i,
    {
        let m = &installed[i];
        let a = match &m.arch {
            Some(a) => str_lower(a.as_str()),
            None => str_lower(m.name.as_str()),
        };
        if str_contains(a.as_str(), fam) || str_contains(str_lower(m.name.as_str()).as_str(), fam) {
            assert(is_of_family(installed@[i as int], fam@));
            return true;
        }
        i = i + 1;
    }
    false
}

fn uses_quant(installed: &Vec<Installed>, q: &str) -> (r: bool)
    ensures
        r == has_quant(installed@, q@),
{
    let mut i: usize = 0;
    while i < installed.len()
        invariant
            i <= installed@.len(),
            forall|j: int| 0 <= j < i ==> !is_of_quant(#[trigger] installed@[j], q@),
        decreases installed@.len() - i,
    {
        let t = match &installed[i].quant {
            Some(t) => str_lower(t.as_str()),
            None => str_lower(""),
        };
        if str_contains(t.as_str(), q) {
            assert(is_of_quant(installed@[i as int], q@));
            return true;
        }
        i = i + 1;
    }
    false
}

fn named_sizes(gb: &Vec<Measure>) -> (r: Vec<(String, Measure)>)
    ensures
        are_quant_sizes(r@, gb@),
{
    let names = quant_options();
    let mut r: Vec<(String, Measure)> = Vec::new();
    let mut i: usize = 0;
    while i < names.len() && i < gb.len()
        invariant
            names@.len() == quant_table().len(),
            forall|j: int|
                0 <= j < names@.len() ==> (#[trigger] names@[j]).0@ == quant_table()[j].0,
            i <= names@.len(),
            i <= gb@.len(),
            r@.len() == i,
            forall|j: int|
                0 <= j < i ==> (#[trigger] r@[j]).0@ == quant_table()[j].0 && r@[j].1 == gb@[j],
        decreases names@.len() - i,
    {
        assert(names@[i as int].0@ == quant_table()[i as int].0);
        r.push((owned(names[i].0), gb[i]));
        i = i + 1;
    }
    r
}

fn sized_reason(z: &Sizing, fits: bool, vram_mb: u64) -> (r: String)
    requires
        fits == fits_vram(z.mb, vram_mb),
    ensures
        r@ == "~"@ + z.gb_rounded@ + (if fits_vram(z.mb, vram_mb) {
            "GB fits "@
        } else {
            "GB tight on "@
        }) + decimal(vram_mb as nat) + "MB"@,
{
    let mut r = owned("~");
    r.append(z.gb_rounded.as_str());
    if fits {
        r.append("GB fits ");
    } else {
        r.append("GB tight on ");
    }
    r.append(decimal_of(vram_mb).as_str());
    r.append("MB");
    r
}

/// Scores a release. `sizing` is what the model is estimated to take; it counts
/// only where the name tells the model's parameters. The recency term and the
/// total are the caller's.
pub fn score_one(
    release: &Release,
    installed: &Vec<Installed>,
    bench: &BenchBest,
    vram_mb: u64,
    sizing: Option<&Sizing>,
    disk_free_mb: u64,
    recency: Measure,
    total: Measure,
) -> (s: Score)
    ensures
        has_terms(s, *release, installed@, *bench, vram_mb, told(*release, sizing), disk_free_mb),
        s.recency == recency,
        s.total == total,
{
    let counted = match params_total_b(release.repo.as_str()) {
        Some(_) => sizing,
        None => None,
    };
    score_sized(release, installed, bench, vram_mb, counted, disk_free_mb, recency, total)
}

fn score_sized(
    release: &Release,
    installed: &Vec<Installed>,
    bench: &BenchBest,
    vram_mb: u64,
    sizing: Option<&Sizing>,
    disk_free_mb: u64,
    recency: Measure,
    total: Measure,
) -> (s: Score)
    ensures
        has_terms(s, *release, installed@, *bench, vram_mb, sizing, disk_free_mb),
        s.recency == recency,
        s.total == total,
{
    let engine = same(release.source.as_str(), "github");
    let mut hw: u64 = FIFTH;
    let mut fits = true;
    let mut disk_gb: Option<Measure> = None;
    let mut max_ctx: Option<u64> = None;
    let mut disk_fits = true;
    let mut quant_sizes: Vec<(String, Measure)> = Vec::new();
    let mut rounded = owned("");
    let mut reason = owned("engine release");
    if !engine {
        match sizing {
            None => {
                hw = ZERO;
                fits = false;
                reason = owned(
                    "size unknown (composite/MoE) — probe GGUF in MARKET before testing",
                );
            },
            Some(z) => {
                fits = vram_mb > RESERVED_MB && z.mb < vram_mb - RESERVED_MB;
                hw = if fits {
                    ONE
                } else if z.mb < 4000 || z.mb - 4000 < vram_mb {
                    HALF
                } else {
                    ZERO
                };
                reason = sized_reason(z, fits, vram_mb);
                disk_gb = Some(z.gb);
                if fits {
                    max_ctx = z.max_ctx;
                }
                disk_fits = disk_free_mb > 512 && z.mb < disk_free_mb - 512;
                quant_sizes = named_sizes(&z.quant_gb);
                rounded = owned(z.gb_rounded.as_str());
            },
        }
    }
    let model_type = if engine {
        owned("engine")
    } else {
        model_type(release.repo.as_str())
    };
    let mut reasons: Vec<String> = Vec::new();
    reasons.push(reason);
    let ghost first = seq![hw_reason(*release, sizing, vram_mb)];
    assert(texts(reasons@) =~= first);
    let fam = family_of(release.repo.as_str());
    let hit = uses_family(installed, fam.as_str());
    if hit {
        let mut l = owned("family ");
        l.append(fam.as_str());
        l.append(" you use");
        reasons.push(l);
        assert(texts(reasons@) =~= first.push(l@));
    }
    let ghost second = texts(reasons@);
    let mut novelty: u64 = HALF;
    match quant_token(release.repo.as_str()) {
        Some(q) => {
            if uses_quant(installed, q.as_str()) {
                novelty = THREE_TENTHS;
            } else {
                novelty = ONE;
                let mut l = owned("new quant ");
                l.append(q.as_str());
                reasons.push(l);
                assert(texts(reasons@) =~= second.push(l@));
            }
        },
        None => {},
    }
    let ghost third = texts(reasons@);
    let known = bench.tok_s.is_some();
    if known && fits {
        reasons.push(owned("may beat current best"));
        assert(texts(reasons@) =~= third.push("may beat current best"@));
    }
    let ghost fourth = texts(reasons@);
    if !disk_fits {
        let mut l = owned("~");
        l.append(rounded.as_str());
        l.append("GB won't fit free disk");
        reasons.push(l);
        assert(texts(reasons@) =~= fourth.push(l@));
    }
    let bench_bits: u64 = if !known {
        HALF
    } else if fits {
        SEVEN_TENTHS
    } else {
        TWO_FIFTHS
    };
    Score {
        total,
        hw: Measure { bits: hw },
        family: Measure {
            bits: if hit {
                ONE
            } else {
                THREE_TENTHS
            },
        },
        novelty: Measure { bits: novelty },
        bench: Measure { bits: bench_bits },
        recency,
        fits,
        disk_gb,
        max_ctx,
        disk_fits,
        reasons,
        quant_sizes,
        model_type,
    }
}

/// A model whose name does not tell the total of its parameters is never said
/// to fit, and no size and no context is made up for it, whatever it is
/// estimated to take.
pub proof fn law_unsized_never_fits(
    s: Score,
    r: Release,
    installed: Seq<Installed>,
    bench: BenchBest,
    vram_mb: u64,
    sizing: Option<&Sizing>,
    disk_free_mb: u64,
)
    requires
        has_terms(s, r, installed, bench, vram_mb, told(r, sizing), disk_free_mb),
        !is_engine(r),
        params_from(lowercased(r.repo@), 0) is None,
    ensures
        !s.fits,
        s.hw.bits == ZERO,
        s.disk_gb is None,
        s.max_ctx is None,
        s.quant_sizes@.len() == 0,
{
}

/// An engine always fits, and ranks below a model that does.
pub proof fn law_engine_fits_below_models(
    e: Score,
    m: Score,
    engine: Release,
    model: Release,
    installed: Seq<Installed>,
    bench: BenchBest,
    vram_mb: u64,
    engine_sizing: Option<&Sizing>,
    sizing: Option<&Sizing>,
    disk_free_mb: u64,
)
    requires
        has_terms(e, engine, installed, bench, vram_mb, engine_sizing, disk_free_mb),
        has_terms(m, model, installed, bench, vram_mb, sizing, disk_free_mb),
        is_engine(engine),
        !is_engine(model),
        m.fits,
    ensures
        e.fits,
        e.hw.below(m.hw),
{
}

/// Scores, the highest first.
pub struct ByTotal {
    pub keys: Vec<Measure>,
}

impl Ranking for ByTotal {
    open spec fn count(&self) -> nat {
        self.keys@.len()
    }

    open spec fn before(&self, i: int, j: int) -> bool {
        self.keys@[i].rank() > self.keys@[j].rank()
    }

    proof fn weak_order(&self, i: int, j: int, k: int) {
    }

    fn len(&self) -> usize {
        self.keys.len()
    }

    fn comes_before(&self, i: usize, j: usize) -> bool {
        self.keys[j].ranks_below(self.keys[i])
    }
}

/// Compares scored releases by their totals.
pub open spec fn scores_higher(v: Seq<(Release, Score)>) -> spec_fn(int, int) -> bool {
    |i: int, j: int| v[i].1.total.rank() > v[j].1.total.rank()
}

/// The age in seconds of a release that nothing fetched: thirty days.
pub const UNFETCHED_AGE_S: i64 = 2_592_000;

/// The age of a release in seconds.
pub open spec fn age_of(r: Release, now: i64) -> int {
    if r.fetched_at > 0 {
        now - r.fetched_at
    } else {
        UNFETCHED_AGE_S as int
    }
}

/// The age of a release in seconds.
pub fn age_seconds(r: &Release, now: i64) -> (age: i64)
    requires
        age_of(*r, now) >= i64::MIN,
    ensures
        age == age_of(*r, now),
{
    if r.fetched_at > 0 {
        now - r.fetched_at
    } else {
        UNFETCHED_AGE_S
    }
}

/// The arithmetic on doubles for one release: what the model is estimated to
/// take, the recency term at its age, and the weighted total of the terms.
#[derive(Debug, Clone, PartialEq)]
pub struct Estimate {
    pub age_s: i64,
    pub recency: Measure,
    pub sizing: Option<Sizing>,
    pub total: Measure,
}

/// The sizing of an estimate.
pub open spec fn sizing_of(e: &Estimate) -> Option<&Sizing> {
    match &e.sizing {
        Some(z) => Some(z),
        None => None,
    }
}

/// The score is that of a release by its estimate.
pub open spec fn is_score(
    s: Score,
    r: Release,
    installed: Seq<Installed>,
    bench: BenchBest,
    vram_mb: u64,
    disk_free_mb: u64,
    e: Estimate,
) -> bool {
    &&& has_terms(s, r, installed, bench, vram_mb, told(r, sizing_of(&e)), disk_free_mb)
    &&& s.recency == e.recency
    &&& s.total == e.total
}

/// The releases with their scores, in the order of the releases.
pub open spec fn are_scored(
    v: Seq<(Release, Score)>,
    releases: Seq<Release>,
    installed: Seq<Installed>,
    bench: BenchBest,
    vram_mb: u64,
    disk_free_mb: u64,
    es: Seq<Estimate>,
) -> bool {
    v.len() == releases.len() && forall|i: int|
        0 <= i < v.len() ==> (#[trigger] v[i]).0 == releases[i] && is_score(
            v[i].1,
            releases[i],
            installed,
            bench,
            vram_mb,
            disk_free_mb,
            es[i],
        )
}

/// `r` holds the scored releases, the highest total first; equals keep their
/// order.
pub open spec fn is_ranked(r: Seq<(Release, Score)>, scored: Seq<(Release, Score)>) -> bool {
    exists|p: Seq<usize>|
        #[trigger] in_order(p, scored.len(), scores_higher(scored)) && r.len() == scored.len()
            && forall|i: int| 0 <= i < r.len() ==> #[trigger] r[i] == scored[p[i] as int]
}

/// The pairs of two lists of one length.
fn paired(releases: Vec<Release>, scores: Vec<Score>) -> (r: Vec<(Release, Score)>)
    requires
        releases@.len() == scores@.len(),
    ensures
        r@.len() == releases@.len(),
        forall|i: int|
            0 <= i < r@.len() ==> (#[trigger] r@[i]).0 == releases@[i] && r@[i].1 == scores@[i],
{
    let ghost all = releases@;
    let ghost marks = scores@;
    let n = releases.len();
    let mut left = releases;
    let mut right = scores;
    let mut back: Vec<(Release, Score)> = Vec::new();
    let mut i: usize = n;
    assert(all.take(n as int) =~= all && marks.take(n as int) =~= marks);
    while i > 0
        invariant
            n == all.len() == marks.len(),
            i <= n,
            left@ == all.take(i as int),
            right@ == marks.take(i as int),
            back@.len() == n - i,
            forall|k: int|
                0 <= k < n - i ==> (#[trigger] back@[k]).0 == all[n - 1 - k] && back@[k].1
                    == marks[n - 1 - k],
        decreases i,
    {
        assert(all.take(i as int).drop_last() =~= all.take(i - 1));
        assert(marks.take(i as int).drop_last() =~= marks.take(i - 1));
        match (left.pop(), right.pop()) {
            (Some(a), Some(b)) => {
                back.push((a, b));
            },
            _ => {},
        }
        i = i - 1;
    }
    let ghost turned = back@;
    let mut r: Vec<(Release, Score)> = Vec::new();
    assert(turned.take(n as int) =~= turned);
    while i < n
        invariant
            n == all.len() == marks.len(),
            turned.len() == n,
            forall|k: int|
                0 <= k < n ==> (#[trigger] turned[k]).0 == all[n - 1 - k] && turned[k].1
                    == marks[n - 1 - k],
            i <= n,
            back@ == turned.take(n - i),
            r@.len() == i,
            forall|k: int|
                0 <= k < i ==> (#[trigger] r@[k]).0 == all[k] && r@[k].1 == marks[k],
        decreases n - i,
    {
        assert(turned.take(n - i).drop_last() =~= turned.take(n - i - 1));
        assert(turned.take(n - i).last() == turned[n - i - 1]);
        match back.pop() {
            Some(x) => {
                r.push(x);
            },
            None => {},
        }
        i = i + 1;
    }
    r
}

/// Scores all releases and ranks them, the highest total first; equals keep
/// their order. `estimates` holds the arithmetic for each release at its age,
/// and every total is a number.
pub fn rank(
    releases: Vec<Release>,
    installed: &Vec<Installed>,
    bench: &BenchBest,
    vram_mb: u64,
    now: i64,
    disk_free_mb: u64,
    estimates: &Vec<Estimate>,
) -> (r: Vec<(Release, Score)>)
    requires
        estimates@.len() == releases@.len(),
        forall|i: int|
            0 <= i < releases@.len() ==> (#[trigger] estimates@[i]).age_s == age_of(
                releases@[i],
                now,
            ) && !estimates@[i].total.nan(),
    ensures
        exists|scored: Seq<(Release, Score)>| #[trigger]
            are_scored(
                scored,
                releases@,
                installed@,
                *bench,
                vram_mb,
                disk_free_mb,
                estimates@,
            ) && is_ranked(r@, scored),
{
    let ghost all = releases@;
    let mut scores: Vec<Score> = Vec::new();
    let mut i: usize = 0;
    while i < releases.len()
        invariant
            all == releases@,
            estimates@.len() == all.len(),
            i <= all.len(),
            scores@.len() == i,
            forall|k: int|
                0 <= k < i ==> is_score(
                    #[trigger] scores@[k],
                    all[k],
                    installed@,
                    *bench,
                    vram_mb,
                    disk_free_mb,
                    estimates@[k],
                ),
        decreases all.len() - i,
    {
        let e = &estimates[i];
        let sizing = match &e.sizing {
            Some(z) => Some(z),
            None => None,
        };
        scores.push(
            score_one(
                &releases[i],
                installed,
                bench,
                vram_mb,
                sizing,
                disk_free_mb,
                e.recency,
                e.total,
            ),
        );
        i = i + 1;
    }
    let scored = paired(releases, scores);
    assert forall|k: int| 0 <= k < scored@.len() implies !(
    #[trigger] scored@[k]).1.total.nan() by {
        assert(is_score(
            scored@[k].1,
            all[k],
            installed@,
            *bench,
            vram_mb,
            disk_free_mb,
            estimates@[k],
        ));
        assert(!estimates@[k].total.nan());
    }
    assert(are_scored(scored@, all, installed@, *bench, vram_mb, disk_free_mb, estimates@));
    sorted_by_total(scored)
}

fn sorted_by_total(scored: Vec<(Release, Score)>) -> (r: Vec<(Release, Score)>)
    requires
        forall|i: int| 0 <= i < scored@.len() ==> !(#[trigger] scored@[i]).1.total.nan(),
    ensures
        is_ranked(r@, scored@),
{
    let mut keys: Vec<Measure> = Vec::new();
    let mut i: usize = 0;
    while i < scored.len()
        invariant
            i <= scored@.len(),
            keys@.len() == i,
            forall|k: int| 0 <= k < i ==> #[trigger] keys@[k] == scored@[k].1.total,
        decreases scored@.len() - i,
    {
        keys.push(scored[i].1.total);
        i = i + 1;
    }
    let ranking = ByTotal { keys };
    let p = stable_order(&ranking);
    proof {
        lemma_in_order(&ranking, p@, scores_higher(scored@));
        assert(in_order(p@, scored@.len(), scores_higher(scored@)));
    }
    arranged(scored, &p)
}

/// Of two ranked releases the earlier has no lower total.
pub proof fn law_ranked_descends(
    r: Seq<(Release, Score)>,
    scored: Seq<(Release, Score)>,
    i: int,
    j: int,
)
    requires
        is_ranked(r, scored),
        0 <= i < j < r.len(),
    ensures
        r[i].1.total.rank() >= r[j].1.total.rank(),
{
    let less = scores_higher(scored);
    let p = choose|p: Seq<usize>|
        #[trigger] in_order(p, scored.len(), less) && r.len() == scored.len() && forall|i: int|
            0 <= i < r.len() ==> #[trigger] r[i] == scored[p[i] as int];
    assert(less(p[i] as int, p[j] as int) || !less(p[j] as int, p[i] as int));
    assert(r[i] == scored[p[i] as int] && r[j] == scored[p[j] as int]);
}

} // verus!
