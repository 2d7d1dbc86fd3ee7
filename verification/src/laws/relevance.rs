//! Releases: what is said to fit, what a name tells, and the order of the list.
use vstd::prelude::*;

use crate::measure::Measure;
use crate::relevance::{
    age_seconds, are_scored, families, family_of, first_word, params_total_b, quant_ratio,
    quant_token, quant_words, rank, score_one, scores_higher, sized_quants, BenchBest, Estimate,
    Installed, Score, Sizing,
};
use crate::store::releases::Release;
use crate::text::{contains, decimal, lowercased};

verus! {

/// A model whose name tells its parameters fits exactly where its size and 1600
/// MB for the desktop are less than the memory. Only then is its hardware term
/// one and a context given; a model up to 4000 MB too large scores a half.
pub proof fn law_fits_by_the_numbers(
    release: &Release,
    installed: &Vec<Installed>,
    bench: &BenchBest,
    vram_mb: u64,
    z: &Sizing,
    disk_free_mb: u64,
    recency: Measure,
    total: Measure,
    s: Score,
    name: &str,
    params: Option<String>,
)
    requires
        call_ensures(
            score_one,
            (release, installed, bench, vram_mb, Some(z), disk_free_mb, recency, total),
            s,
        ),
        name@ == release.repo@,
        call_ensures(params_total_b, (name,), params),
        params is Some,
        release.source@ != "github"@,
    ensures
        s.fits <==> z.mb + 1600 < vram_mb,
        s.hw.bits == 0x3ff0_0000_0000_0000 <==> z.mb + 1600 < vram_mb,
        s.hw.bits == 0x3fe0_0000_0000_0000 <==> vram_mb <= z.mb + 1600 && z.mb < vram_mb + 4000,
        s.hw.bits == 0 <==> vram_mb <= z.mb + 1600 && vram_mb + 4000 <= z.mb,
        s.max_ctx == if z.mb + 1600 < vram_mb {
            z.max_ctx
        } else {
            None
        },
        s.disk_gb == Some(z.gb),
        s.disk_fits <==> z.mb + 512 < disk_free_mb,
        s.reasons@.len() > 0,
        s.reasons@[0]@ == "~"@ + z.gb_rounded@ + (if z.mb + 1600 < vram_mb {
            "GB fits "@
        } else {
            "GB tight on "@
        }) + decimal(vram_mb as nat) + "MB"@,
        s.quant_sizes@.len() <= z.quant_gb@.len(),
        forall|i: int|
            0 <= i < s.quant_sizes@.len() ==> (#[trigger] s.quant_sizes@[i]).1 == z.quant_gb@[i],
{
    lemma_first_reason(release, installed, bench, vram_mb, Some(z), disk_free_mb, recency, total, s);
}

proof fn lemma_first_reason(
    release: &Release,
    installed: &Vec<Installed>,
    bench: &BenchBest,
    vram_mb: u64,
    sizing: Option<&Sizing>,
    disk_free_mb: u64,
    recency: Measure,
    total: Measure,
    s: Score,
)
    requires
        call_ensures(
            score_one,
            (release, installed, bench, vram_mb, sizing, disk_free_mb, recency, total),
            s,
        ),
    ensures
        s.reasons@.len() > 0,
        s.reasons@[0]@ == crate::relevance::hw_reason(
            *release,
            crate::relevance::told(*release, sizing),
            vram_mb,
        ),
{
    let t = crate::text::texts(s.reasons@);
    assert(t.len() == s.reasons@.len());
    assert(t[0] == s.reasons@[0]@);
}

/// A model whose name does not tell its parameters is never said to fit: no
/// size, no context and no download are made up for it.
pub proof fn law_unsizable_is_uncertain(
    release: &Release,
    installed: &Vec<Installed>,
    bench: &BenchBest,
    vram_mb: u64,
    sizing: Option<&Sizing>,
    disk_free_mb: u64,
    recency: Measure,
    total: Measure,
    s: Score,
    name: &str,
    params: Option<String>,
)
    requires
        call_ensures(
            score_one,
            (release, installed, bench, vram_mb, sizing, disk_free_mb, recency, total),
            s,
        ),
        name@ == release.repo@,
        call_ensures(params_total_b, (name,), params),
        params is None || sizing is None,
        release.source@ != "github"@,
    ensures
        !s.fits,
        s.hw.bits == 0,
        s.max_ctx is None,
        s.disk_gb is None,
        s.disk_fits,
        s.quant_sizes@.len() == 0,
{
}

/// A release of an engine always fits, at a fifth of a model's hardware term,
/// and has no size.
pub proof fn law_engines_fit_low(
    release: &Release,
    installed: &Vec<Installed>,
    bench: &BenchBest,
    vram_mb: u64,
    sizing: Option<&Sizing>,
    disk_free_mb: u64,
    recency: Measure,
    total: Measure,
    s: Score,
)
    requires
        call_ensures(
            score_one,
            (release, installed, bench, vram_mb, sizing, disk_free_mb, recency, total),
            s,
        ),
        release.source@ == "github"@,
    ensures
        s.fits,
        s.hw.bits == 0x3fc9_9999_9999_999a,
        s.disk_gb is None,
        s.max_ctx is None,
        s.disk_fits,
        s.quant_sizes@.len() == 0,
        s.model_type@ == "engine"@,
        s.reasons@.len() > 0,
        s.reasons@[0]@ == "engine release"@,
{
    lemma_first_reason(release, installed, bench, vram_mb, sizing, disk_free_mb, recency, total, s);
}

/// The family term is one where an installed model is of the release's family,
/// by its architecture or its name, and else three tenths.
pub proof fn law_family_you_use(
    release: &Release,
    installed: &Vec<Installed>,
    bench: &BenchBest,
    vram_mb: u64,
    sizing: Option<&Sizing>,
    disk_free_mb: u64,
    recency: Measure,
    total: Measure,
    s: Score,
    name: &str,
    family: String,
)
    requires
        call_ensures(
            score_one,
            (release, installed, bench, vram_mb, sizing, disk_free_mb, recency, total),
            s,
        ),
        name@ == release.repo@,
        call_ensures(family_of, (name,), family),
    ensures
        s.family.bits == 0x3ff0_0000_0000_0000 || s.family.bits == 0x3fd3_3333_3333_3333,
        s.family.bits == 0x3ff0_0000_0000_0000 <==> exists|i: int|
            0 <= i < installed@.len() && ((#[trigger] installed@[i]).arch is Some && contains(
                lowercased(installed@[i].arch->0@),
                family@,
            ) || contains(lowercased(installed@[i].name@), family@)),
{
    if crate::relevance::family_hit(*release, installed@) {
        let i = choose|i: int|
            0 <= i < installed@.len() && crate::relevance::is_of_family(
                #[trigger] installed@[i],
                family@,
            );
        assert(installed@[i].arch is Some && contains(lowercased(installed@[i].arch->0@), family@)
            || contains(lowercased(installed@[i].name@), family@));
    } else {
        assert forall|i: int| 0 <= i < installed@.len() implies !((
        #[trigger] installed@[i]).arch is Some && contains(
            lowercased(installed@[i].arch->0@),
            family@,
        ) || contains(lowercased(installed@[i].name@), family@)) by {
            assert(!crate::relevance::is_of_family(installed@[i], family@));
        }
    }
}

/// The novelty term: one for a quant that no installed model has, three tenths
/// for one that some has, a half where the name tells none.
pub proof fn law_new_quants_are_novel(
    release: &Release,
    installed: &Vec<Installed>,
    bench: &BenchBest,
    vram_mb: u64,
    sizing: Option<&Sizing>,
    disk_free_mb: u64,
    recency: Measure,
    total: Measure,
    s: Score,
    name: &str,
    quant: Option<String>,
)
    requires
        call_ensures(
            score_one,
            (release, installed, bench, vram_mb, sizing, disk_free_mb, recency, total),
            s,
        ),
        name@ == release.repo@,
        call_ensures(quant_token, (name,), quant),
    ensures
        quant is None ==> s.novelty.bits == 0x3fe0_0000_0000_0000,
        quant is Some ==> (s.novelty.bits == 0x3ff0_0000_0000_0000 || s.novelty.bits
            == 0x3fd3_3333_3333_3333),
        quant is Some && (exists|i: int|
            0 <= i < installed@.len() && (#[trigger] installed@[i]).quant is Some && contains(
                lowercased(installed@[i].quant->0@),
                quant->0@,
            )) ==> s.novelty.bits == 0x3fd3_3333_3333_3333,
        quant is Some && s.novelty.bits == 0x3fd3_3333_3333_3333 ==> exists|i: int|
            0 <= i < installed@.len() && contains(
                lowercased(
                    match (#[trigger] installed@[i]).quant {
                        Some(t) => t@,
                        None => ""@,
                    },
                ),
                quant->0@,
            ),
{
    if quant is Some {
        let q = quant->0@;
        if exists|i: int|
            0 <= i < installed@.len() && (#[trigger] installed@[i]).quant is Some && contains(
                lowercased(installed@[i].quant->0@),
                q,
            ) {
            let i = choose|i: int|
                0 <= i < installed@.len() && (#[trigger] installed@[i]).quant is Some && contains(
                    lowercased(installed@[i].quant->0@),
                    q,
                );
            assert(crate::relevance::is_of_quant(installed@[i], q));
        }
        if crate::relevance::has_quant(installed@, q) {
            let i = choose|i: int|
                0 <= i < installed@.len() && crate::relevance::is_of_quant(
                    #[trigger] installed@[i],
                    q,
                );
            assert(contains(
                lowercased(
                    match installed@[i].quant {
                        Some(t) => t@,
                        None => ""@,
                    },
                ),
                q,
            ));
        }
    }
}

/// The benchmark term: a half where nothing was measured, seven tenths for what
/// fits, two fifths for what does not. The recency and the total are those that
/// were given.
pub proof fn law_bench_term(
    release: &Release,
    installed: &Vec<Installed>,
    bench: &BenchBest,
    vram_mb: u64,
    sizing: Option<&Sizing>,
    disk_free_mb: u64,
    recency: Measure,
    total: Measure,
    s: Score,
)
    requires
        call_ensures(
            score_one,
            (release, installed, bench, vram_mb, sizing, disk_free_mb, recency, total),
            s,
        ),
    ensures
        bench.tok_s is None ==> s.bench.bits == 0x3fe0_0000_0000_0000,
        bench.tok_s is Some && s.fits ==> s.bench.bits == 0x3fe6_6666_6666_6666,
        bench.tok_s is Some && !s.fits ==> s.bench.bits == 0x3fd9_9999_9999_999a,
        s.recency == recency,
        s.total == total,
{
}

proof fn lemma_first_word(s: Seq<char>, ws: Seq<Seq<char>>, i: int)
    requires
        0 <= i <= ws.len(),
    ensures
        match first_word(s, ws, i) {
            Some(k) => i <= k < ws.len() && contains(s, ws[k]) && forall|j: int|
                i <= j < k ==> !contains(s, #[trigger] ws[j]),
            None => forall|j: int| i <= j < ws.len() ==> !contains(s, #[trigger] ws[j]),
        },
    decreases ws.len() - i,
{
    if i < ws.len() && !contains(s, ws[i]) {
        lemma_first_word(s, ws, i + 1);
    }
}

/// A family that a name contains is told, the first of the known ones; a name
/// with none of them is told by what stands before its first slash.
pub proof fn law_family_is_in_the_name(name: &str, family: String)
    requires
        call_ensures(family_of, (name,), family),
    ensures
        contains(lowercased(name@), "qwen"@) ==> family@ == "qwen"@,
        !contains(lowercased(name@), "qwen"@) && contains(lowercased(name@), "llama"@)
            ==> family@ == "llama"@,
        family@ == "mistral"@ || family@ == "gemma"@ || family@ == "phi"@ || family@
            == "deepseek"@ || family@ == "glm"@ ==> contains(lowercased(name@), family@)
            || has_head(lowercased(name@), family@),
        (!contains(lowercased(name@), "qwen"@) && !contains(lowercased(name@), "llama"@)
            && !contains(lowercased(name@), "mistral"@) && !contains(lowercased(name@), "gemma"@)
            && !contains(lowercased(name@), "phi"@) && !contains(lowercased(name@), "deepseek"@)
            && !contains(lowercased(name@), "glm"@) && !contains(
            lowercased(name@),
            "codellama"@,
        )) ==> has_head(lowercased(name@), family@),
{
    let lower = lowercased(name@);
    let f = families();
    lemma_first_word(lower, f, 0);
    assert(f[0] == "qwen"@ && f[1] == "llama"@ && f[2] == "mistral"@ && f[3] == "gemma"@);
    assert(f[4] == "phi"@ && f[5] == "deepseek"@ && f[6] == "glm"@ && f[7] == "codellama"@);
    crate::text::lemma_until(lower, '/');
    assert(crate::text::split(lower, '/')[0] == lower.take(crate::text::until(lower, '/') as int)
        || crate::text::split(lower, '/')[0] == lower);
    if first_word(lower, f, 0) is None {
        let n = crate::text::until(lower, '/') as int;
        assert(lower.take(lower.len() as int) =~= lower);
        assert(family@ == lower.take(n));
    }
}

/// `head` is what stands before the first slash of `s`.
pub open spec fn has_head(s: Seq<char>, head: Seq<char>) -> bool {
    &&& head.len() <= s.len()
    &&& s.take(head.len() as int) == head
    &&& forall|i: int| 0 <= i < head.len() ==> #[trigger] head[i] != '/'
    &&& head.len() < s.len() ==> s[head.len() as int] == '/'
}

/// The quant that is told stands in the name.
pub proof fn law_quant_is_in_the_name(name: &str, quant: Option<String>)
    requires
        call_ensures(quant_token, (name,), quant),
    ensures
        quant is Some ==> contains(lowercased(name@), quant->0@),
        contains(lowercased(name@), "q4_k_m"@) ==> quant is Some && quant->0@ == "q4_k_m"@,
        contains(lowercased(name@), "q8_0"@) ==> quant is Some,
        contains(lowercased(name@), "f16"@) ==> quant is Some,
        quant is None ==> !contains(lowercased(name@), "q4_0"@) && !contains(
            lowercased(name@),
            "q5_k_m"@,
        ) && !contains(lowercased(name@), "q3_k"@) && !contains(lowercased(name@), "iq4_xs"@)
            && !contains(lowercased(name@), "q6_k"@) && !contains(lowercased(name@), "bf16"@),
{
    let w = quant_words();
    lemma_first_word(lowercased(name@), w, 0);
    assert(w[0] == "q4_k_m"@ && w[1] == "q4_0"@ && w[2] == "q5_k_m"@ && w[3] == "q3_k"@);
    assert(w[4] == "iq4_xs"@ && w[5] == "q8_0"@ && w[6] == "f16"@ && w[7] == "bf16"@);
    assert(w[8] == "q6_k"@);
}

/// The size in percent of sixteen bits is that of a quant in the name, and a
/// half exactly where the name tells none.
pub proof fn law_quant_sizes(name: &str, percent: u32)
    requires
        call_ensures(quant_ratio, (name,), percent),
    ensures
        percent == 37 <==> contains(lowercased(name@), "iq4_xs"@),
        percent == 40 ==> contains(lowercased(name@), "iq4_nl"@),
        percent == 43 ==> contains(lowercased(name@), "q4_k_s"@),
        percent == 44 ==> contains(lowercased(name@), "q4_0"@),
        percent == 45 ==> contains(lowercased(name@), "q4_k"@),
        percent == 52 ==> contains(lowercased(name@), "q5_k_s"@),
        percent == 53 ==> contains(lowercased(name@), "q5_0"@),
        percent == 55 ==> contains(lowercased(name@), "q5_k"@),
        percent == 64 ==> contains(lowercased(name@), "q6_k"@),
        percent == 88 ==> contains(lowercased(name@), "q8_0"@),
        percent == 100 ==> contains(lowercased(name@), "f16"@) || contains(
            lowercased(name@),
            "fp16"@,
        ),
        percent == 50 <==> !contains(lowercased(name@), "iq4_xs"@) && !contains(
            lowercased(name@),
            "iq4_nl"@,
        ) && !contains(lowercased(name@), "q4_0"@) && !contains(lowercased(name@), "q4_k"@)
            && !contains(lowercased(name@), "q5_0"@) && !contains(lowercased(name@), "q5_k"@)
            && !contains(lowercased(name@), "q6_k"@) && !contains(lowercased(name@), "q8_0"@)
            && !contains(lowercased(name@), "f16"@) && !contains(lowercased(name@), "fp16"@),
        percent == 37 || percent == 40 || percent == 43 || percent == 44 || percent == 45 || percent
            == 50 || percent == 52 || percent == 53 || percent == 55 || percent == 64 || percent
            == 88 || percent == 100,
{
    let w = sized_quants();
    let lower = lowercased(name@);
    lemma_first_word(lower, w, 0);
    assert(w[0] == "iq4_xs"@ && w[1] == "iq4_nl"@ && w[2] == "q4_0"@ && w[3] == "q4_k_m"@);
    assert(w[4] == "q4_k_s"@ && w[5] == "q4_k"@ && w[6] == "q5_0"@ && w[7] == "q5_k_m"@);
    assert(w[8] == "q5_k_s"@ && w[9] == "q5_k"@ && w[10] == "q6_k"@ && w[11] == "q8_0"@);
    assert(w[12] == "f16"@ && w[13] == "bf16"@ && w[14] == "fp16"@);
    reveal_strlit("q4_k_m");
    reveal_strlit("q4_k_s");
    reveal_strlit("q4_k");
    reveal_strlit("q5_k_m");
    reveal_strlit("q5_k_s");
    reveal_strlit("q5_k");
    reveal_strlit("f16");
    reveal_strlit("bf16");
    lemma_contains_part(lower, "q4_k_m"@, "q4_k"@, 0);
    lemma_contains_part(lower, "q4_k_s"@, "q4_k"@, 0);
    lemma_contains_part(lower, "q5_k_m"@, "q5_k"@, 0);
    lemma_contains_part(lower, "q5_k_s"@, "q5_k"@, 0);
    lemma_contains_part(lower, "bf16"@, "f16"@, 1);
}

proof fn lemma_contains_part(s: Seq<char>, long: Seq<char>, short: Seq<char>, at: int)
    requires
        0 <= at,
        at + short.len() <= long.len(),
        long.subrange(at, at + short.len()) =~= short,
    ensures
        contains(s, long) ==> contains(s, short),
{
    if contains(s, long) {
        let i = choose|i: int| crate::text::occurs_at(s, long, i);
        assert(s.subrange(i, i + long.len()) == long);
        assert(s.subrange(i + at, i + at + short.len()) =~= short) by {
            assert forall|k: int| 0 <= k < short.len() implies s[i + at + k] == short[k] by {
                assert(s.subrange(i, i + long.len())[at + k] == s[i + at + k]);
                assert(long.subrange(at, at + short.len())[k] == long[at + k]);
            }
        }
        assert(crate::text::occurs_at(s, short, i + at));
    }
}

/// A total that is told is a whole number above zero that stands in the name
/// before a `b`, with no digit before it.
pub proof fn law_total_is_in_the_name(name: &str, params: Option<String>) -> (at: int)
    requires
        call_ensures(params_total_b, (name,), params),
        params is Some,
    ensures
        0 <= at,
        0 < params->0@.len(),
        at + params->0@.len() < lowercased(name@).len(),
        lowercased(name@).subrange(at, at + params->0@.len()) == params->0@,
        lowercased(name@)[at + params->0@.len()] == 'b',
        forall|k: int| 0 <= k < params->0@.len() ==> '0' as u32 <= (#[trigger] params->0@[k]) as u32 <= '9' as u32,
        exists|k: int| 0 <= k < params->0@.len() && #[trigger] params->0@[k] != '0',
        !(at >= 2 && lowercased(name@)[at - 1] == 'x' && '0' as u32 <= lowercased(name@)[at - 2] as u32 <= '9' as u32),
{
    lemma_params(lowercased(name@), 0, params->0@)
}

proof fn lemma_params(s: Seq<char>, i: int, t: Seq<char>) -> (at: int)
    requires
        0 <= i,
        crate::relevance::params_from(s, i) == Some(t),
    ensures
        i <= at,
        0 < t.len(),
        at + t.len() < s.len(),
        s.subrange(at, at + t.len()) == t,
        s[at + t.len()] == 'b',
        forall|k: int| 0 <= k < t.len() ==> '0' as u32 <= (#[trigger] t[k]) as u32 <= '9' as u32,
        exists|k: int| 0 <= k < t.len() && #[trigger] t[k] != '0',
        !(at >= 2 && s[at - 1] == 'x' && '0' as u32 <= s[at - 2] as u32 <= '9' as u32),
    decreases s.len() - i,
{
    if !crate::text::is_digit(s[i]) {
        lemma_params(s, i + 1, t)
    } else {
        let (k, fraction) = crate::relevance::numeral_end(s, i);
        let j = crate::model::digits_end(s, i);
        crate::model::lemma_digits_end(s, i);
        if j + 1 < s.len() {
            crate::model::lemma_digits_end(s, j + 1);
        }
        if k < s.len() && s[k] == 'b' && crate::relevance::is_positive(s.subrange(i, k)) {
            assert(k == j);
            assert(t == s.subrange(i, k));
            assert forall|x: int| 0 <= x < t.len() implies '0' as u32 <= (#[trigger] t[x]) as u32 <= '9' as u32 by {
                lemma_run(s, i, i + x);
            }
            let y = choose|y: int| 0 <= y < t.len() && #[trigger] t[y] != '0' && t[y] != '.';
            assert(t[y] != '0');
            i
        } else {
            lemma_params(s, k, t)
        }
    }
}

proof fn lemma_run(s: Seq<char>, m: int, i: int)
    requires
        0 <= m <= i < crate::model::digits_end(s, m),
        m <= s.len(),
    ensures
        i < s.len(),
        crate::text::is_digit(s[i]),
    decreases i - m,
{
    crate::model::lemma_digits_end(s, m);
    if m < s.len() && crate::text::is_digit(s[m]) && i > m {
        lemma_run(s, m + 1, i);
    }
}

/// A name in which no digit stands before a `b` tells no total.
pub proof fn law_no_marker_no_total(name: &str, params: Option<String>)
    requires
        call_ensures(params_total_b, (name,), params),
        forall|k: int|
            0 < k < lowercased(name@).len() && #[trigger] lowercased(name@)[k] == 'b' ==> !('0' as u32 <= lowercased(name@)[k - 1] as u32 <= '9' as u32),
    ensures
        params is None,
{
    if params is Some {
        let at = law_total_is_in_the_name(name, params);
        let t = params->0@;
        let n = t.len() as int;
        assert(lowercased(name@)[at + n] == 'b');
        assert('0' as u32 <= t[n - 1] as u32 <= '9' as u32);
        assert(lowercased(name@).subrange(at, at + n)[n - 1] == lowercased(name@)[at + n - 1]);
    }
}

/// A ranked list holds every release once, each with the total of its own
/// estimate; the totals do not rise, and equal ones keep their order.
pub proof fn law_ranked_list(
    releases: Vec<Release>,
    installed: &Vec<Installed>,
    bench: &BenchBest,
    vram_mb: u64,
    now: i64,
    disk_free_mb: u64,
    estimates: &Vec<Estimate>,
    r: Vec<(Release, Score)>,
) -> (from: Seq<int>)
    requires
        call_ensures(
            rank,
            (releases, installed, bench, vram_mb, now, disk_free_mb, estimates),
            r,
        ),
    ensures
        r@.len() == releases@.len(),
        from.len() == r@.len(),
        from.no_duplicates(),
        forall|i: int| 0 <= i < r@.len() ==> 0 <= #[trigger] from[i] < releases@.len(),
        forall|i: int|
            0 <= i < r@.len() ==> (#[trigger] r@[i]).0 == releases@[from[i]] && r@[i].1.total
                == estimates@[from[i]].total && r@[i].1.recency == estimates@[from[i]].recency,
        forall|i: int, j: int|
            0 <= i < j < r@.len() ==> !(#[trigger] r@[i]).1.total.below((#[trigger] r@[j]).1.total),
        forall|i: int, j: int|
            0 <= i < j < r@.len() && (#[trigger] r@[i]).1.total == (#[trigger] r@[j]).1.total
                ==> from[i] < from[j],
{
    let scored = choose|scored: Seq<(Release, Score)>| #[trigger]
        are_scored(
            scored,
            releases@,
            installed@,
            *bench,
            vram_mb,
            disk_free_mb,
            estimates@,
        ) && crate::relevance::is_ranked(r@, scored);
    let less = scores_higher(scored);
    let p = choose|p: Seq<usize>|
        #[trigger] crate::order::in_order(p, scored.len(), less) && r@.len() == scored.len()
            && forall|i: int| 0 <= i < r@.len() ==> #[trigger] r@[i] == scored[p[i] as int];
    let from = Seq::new(p.len(), |i: int| p[i] as int);
    assert forall|i: int| 0 <= i < r@.len() implies (#[trigger] r@[i]).0 == releases@[from[i]]
        && r@[i].1.total == estimates@[from[i]].total && r@[i].1.recency
        == estimates@[from[i]].recency by {
        assert(p[i] < scored.len());
        assert(scored[p[i] as int].0 == releases@[p[i] as int]);
    }
    assert forall|i: int, j: int| 0 <= i < j < r@.len() implies !(
    #[trigger] r@[i]).1.total.below((#[trigger] r@[j]).1.total) && (r@[i].1.total
        == r@[j].1.total ==> from[i] < from[j]) by {
        assert(less(p[i] as int, p[j] as int) || (!less(p[j] as int, p[i] as int) && p[i] < p[j]));
    }
    from
}

/// The age of a release is the time since it was fetched; one that nothing
/// fetched counts as thirty days old.
pub proof fn law_ages(r: &Release, now: i64, age: i64)
    requires
        call_ensures(age_seconds, (r, now), age),
    ensures
        r.fetched_at > 0 ==> age + r.fetched_at == now,
        r.fetched_at <= 0 ==> age == 30 * 24 * 60 * 60,
{
}

proof fn lemma_word(s: Seq<char>, ws: Seq<Seq<char>>, i: int)
    requires
        0 <= i <= ws.len(),
    ensures
        crate::relevance::first_word(s, ws, i) is Some <==> exists|k: int|
            i <= k < ws.len() && contains(s, #[trigger] ws[k]),
    decreases ws.len() - i,
{
    if i < ws.len() {
        if contains(s, ws[i]) {
            assert(contains(s, ws[i]));
        } else {
            lemma_word(s, ws, i + 1);
            if exists|k: int| i <= k < ws.len() && contains(s, #[trigger] ws[k]) {
                let k = choose|k: int| i <= k < ws.len() && contains(s, #[trigger] ws[k]);
                assert(i + 1 <= k);
            }
        }
    }
}

/// A name tells a mixture of experts by one of these words.
pub open spec fn names_a_mixture(s: Seq<char>) -> bool {
    ||| contains(s, "moe"@)
    ||| contains(s, "mixture"@)
    ||| contains(s, "mixtral"@)
    ||| contains(s, "dbrx"@)
    ||| contains(s, "deepseek-v2"@)
    ||| contains(s, "deepseek-v3"@)
    ||| contains(s, "arctic"@)
    ||| contains(s, "command-r"@)
}

/// A name tells a dense model by one of these words.
pub open spec fn names_a_dense_model(s: Seq<char>) -> bool {
    ||| contains(s, "qwen3-"@)
    ||| contains(s, "qwen2.5-"@)
    ||| contains(s, "qwen2-"@)
    ||| contains(s, "llama3"@)
    ||| contains(s, "llama-3"@)
    ||| contains(s, "phi-4"@)
    ||| contains(s, "phi-3"@)
    ||| contains(s, "gemma-3"@)
    ||| contains(s, "gemma-2"@)
    ||| contains(s, "mistral-7"@)
    ||| contains(s, "codellama"@)
    ||| contains(s, "deepseek-coder-v2"@)
}

/// The kind of a model stands in its name, whatever the case; a mixture is a
/// mixture though a dense family is named too.
pub proof fn law_kind_is_in_the_name(repo: &str, r: String)
    requires
        call_ensures(crate::relevance::model_type, (repo,), r),
    ensures
        names_a_mixture(lowercased(repo@)) ==> r@ == "moe"@,
        !names_a_mixture(lowercased(repo@)) && names_a_dense_model(lowercased(repo@)) ==> r@
            == "dense"@,
        !names_a_mixture(lowercased(repo@)) && !names_a_dense_model(lowercased(repo@)) ==> r@
            == "unknown"@,
{
    let s = lowercased(repo@);
    let m = crate::relevance::moe_words();
    let d = crate::relevance::dense_words();
    lemma_word(s, m, 0);
    lemma_word(s, d, 0);
    assert(m.len() == 8);
    assert(m[0] == "moe"@ && m[1] == "mixture"@ && m[2] == "mixtral"@ && m[3] == "dbrx"@ && m[4]
        == "deepseek-v2"@ && m[5] == "deepseek-v3"@ && m[6] == "arctic"@ && m[7] == "command-r"@);
    assert(d.len() == 12);
    assert(d[0] == "qwen3-"@);
    assert(d[1] == "qwen2.5-"@);
    assert(d[2] == "qwen2-"@);
    assert(d[3] == "llama3"@);
    assert(d[4] == "llama-3"@);
    assert(d[5] == "phi-4"@);
    assert(d[6] == "phi-3"@);
    assert(d[7] == "gemma-3"@);
    assert(d[8] == "gemma-2"@);
    assert(d[9] == "mistral-7"@);
    assert(d[10] == "codellama"@);
    assert(d[11] == "deepseek-coder-v2"@);
}

} // verus!
