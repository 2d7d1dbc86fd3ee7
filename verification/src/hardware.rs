//! Hardware profiles: what a machine reported, with a hash of its content, so
//! that a change of the machine makes a new profile.
use vstd::prelude::*;
use vstd::string::{StrSliceExecFns, StringExecFns};

use crate::gguf::{hex_digit, hex_digit_of};
use crate::json::{json_quote, json_string};
use crate::text::{
    contains, decimal, decimal_of, has_prefix, lines, opt_text, owned, parse_number,
    parse_number_of, split, str_contains, str_has_prefix, str_lines, str_split, str_trim,
    str_words, texts, trim, words,
};

verus! {

#[derive(Debug, Clone, PartialEq, Eq)]
pub struct HardwareProfile {
    pub id: i64,
    pub gpu: String,
    pub vram_mb: u64,
    pub cpu: String,
    pub ram_mb: u64,
    pub os: String,
    pub driver: String,
    pub cuda: String,
    pub cyberdeck_ver: String,
    /// A JSON object: engine id to version line.
    pub engines_json: String,
    /// Unix time in seconds.
    pub captured_at: i64,
    pub content_hash: String,
}

/// The first line of a text.
pub open spec fn first_line(s: Seq<char>) -> Option<Seq<char>> {
    if lines(s).len() > 0 {
        Some(lines(s)[0])
    } else {
        None
    }
}

fn line_one(s: &str) -> (r: Option<String>)
    ensures
        opt_text(r) == first_line(s@),
{
    let ls = str_lines(s);
    if ls.len() > 0 {
        assert(texts(ls@)[0] == ls@[0]@);
        Some(owned(ls[0].as_str()))
    } else {
        None
    }
}

/// How a line is looked for.
#[derive(Clone, Copy, PartialEq, Eq, Structural)]
pub enum Lookup {
    /// It begins with the key.
    Begins,
    /// It contains the key.
    Contains,
}

pub open spec fn line_fits(l: Seq<char>, how: Lookup, key: Seq<char>) -> bool {
    match how {
        Lookup::Begins => has_prefix(l, key),
        Lookup::Contains => contains(l, key),
    }
}

/// The first line from the `i`-th on that fits.
pub open spec fn line_from(ls: Seq<Seq<char>>, how: Lookup, key: Seq<char>, i: int) -> Option<
    Seq<char>,
>
    decreases ls.len() - i,
{
    if i < 0 || i >= ls.len() {
        None
    } else if line_fits(ls[i], how, key) {
        Some(ls[i])
    } else {
        line_from(ls, how, key, i + 1)
    }
}

/// The first line of a text that fits.
pub open spec fn line_with(s: Seq<char>, how: Lookup, key: Seq<char>) -> Option<Seq<char>> {
    line_from(lines(s), how, key, 0)
}

fn find_line(s: &str, how: Lookup, key: &str) -> (r: Option<String>)
    ensures
        opt_text(r) == line_with(s@, how, key@),
{
    let ls = str_lines(s);
    let ghost all = texts(ls@);
    let mut i: usize = 0;
    while i < ls.len()
        invariant
            all == texts(ls@),
            all == lines(s@),
            i <= ls@.len(),
            line_with(s@, how, key@) == line_from(all, how, key@, i as int),
        decreases ls@.len() - i,
    {
        assert(all[i as int] == ls@[i as int]@);
        let fits = match how {
            Lookup::Begins => str_has_prefix(ls[i].as_str(), key),
            Lookup::Contains => str_contains(ls[i].as_str(), key),
        };
        if fits {
            return Some(owned(ls[i].as_str()));
        }
        i = i + 1;
    }
    None
}

/// The name of the graphics card: the first line of what was reported.
pub open spec fn gpu_name_spec(reported: Seq<char>) -> Seq<char> {
    match first_line(trim(reported)) {
        Some(l) => l,
        None => "unknown"@,
    }
}

pub fn gpu_name(reported: &str) -> (r: String)
    ensures
        r@ == gpu_name_spec(reported@),
{
    match line_one(str_trim(reported).as_str()) {
        Some(l) => l,
        None => owned("unknown"),
    }
}

/// Memory in megabytes, as reported; zero where no number was.
pub open spec fn vram_spec(reported: Seq<char>) -> u64 {
    match parse_number(trim(reported), u64::MAX as nat) {
        Some(n) => n as u64,
        None => 0,
    }
}

pub fn vram_reported(reported: &str) -> (r: u64)
    ensures
        r == vram_spec(reported@),
{
    match parse_number_of(str_trim(reported).as_str(), u64::MAX) {
        Some(n) => n,
        None => 0,
    }
}

/// The processor that `/proc/cpuinfo` names.
pub open spec fn cpu_spec(cpuinfo: Seq<char>) -> Option<Seq<char>> {
    match line_with(cpuinfo, Lookup::Begins, "model name"@) {
        Some(l) => Some(
            if split(l, ':').len() > 1 {
                trim(split(l, ':')[1])
            } else {
                ""@
            },
        ),
        None => None,
    }
}

pub fn cpu_model(cpuinfo: &str) -> (r: Option<String>)
    ensures
        opt_text(r) == cpu_spec(cpuinfo@),
{
    match find_line(cpuinfo, Lookup::Begins, "model name") {
        Some(l) => {
            let parts = str_split(l.as_str(), ':');
            if parts.len() > 1 {
                assert(texts(parts@)[1] == parts@[1]@);
                Some(str_trim(parts[1].as_str()))
            } else {
                Some(owned(""))
            }
        },
        None => None,
    }
}

/// The memory that `/proc/meminfo` gives, in megabytes; zero where it gives
/// none.
pub open spec fn ram_spec(meminfo: Seq<char>) -> u64 {
    match line_with(meminfo, Lookup::Begins, "MemTotal"@) {
        Some(l) => if words(l).len() > 1 {
            match parse_number(words(l)[1], u64::MAX as nat) {
                Some(kb) => (kb / 1024) as u64,
                None => 0,
            }
        } else {
            0
        },
        None => 0,
    }
}

pub fn ram_total_mb(meminfo: &str) -> (r: u64)
    ensures
        r == ram_spec(meminfo@),
{
    match find_line(meminfo, Lookup::Begins, "MemTotal") {
        Some(l) => {
            let w = str_words(l.as_str());
            if w.len() > 1 {
                assert(texts(w@)[1] == w@[1]@);
                match parse_number_of(w[1].as_str(), u64::MAX) {
                    Some(kb) => kb / 1024,
                    None => 0,
                }
            } else {
                0
            }
        },
        None => 0,
    }
}

/// The line of `/etc/os-release` that names the system.
pub fn os_line(os_release: &str) -> (r: Option<String>)
    ensures
        opt_text(r) == line_with(os_release@, Lookup::Begins, "PRETTY_NAME"@),
{
    find_line(os_release, Lookup::Begins, "PRETTY_NAME")
}

/// The line of the driver's report that gives the CUDA version; empty where
/// there is none.
pub open spec fn cuda_spec(report: Seq<char>) -> Seq<char> {
    match line_with(trim(report), Lookup::Contains, "CUDA Version"@) {
        Some(l) => l,
        None => ""@,
    }
}

pub fn cuda_line(report: &str) -> (r: String)
    ensures
        r@ == cuda_spec(report@),
{
    match find_line(str_trim(report).as_str(), Lookup::Contains, "CUDA Version") {
        Some(l) => l,
        None => owned(""),
    }
}

/// The member of an engine in the versions document; none for an engine that
/// reported nothing.
pub open spec fn version_member(id: Seq<char>, report: Seq<char>) -> Option<Seq<char>> {
    match first_line(trim(report)) {
        Some(l) => Some(json_string(id) + ":"@ + json_string(l)),
        None => None,
    }
}

/// The versions document: what the engines answered to being asked for their
/// version.
pub open spec fn engines_doc(llamacpp: Seq<char>, ollama: Seq<char>) -> Seq<char> {
    match (version_member("llamacpp"@, llamacpp), version_member("ollama"@, ollama)) {
        (Some(a), Some(b)) => "{"@ + a + ","@ + b + "}"@,
        (Some(a), None) => "{"@ + a + "}"@,
        (None, Some(b)) => "{"@ + b + "}"@,
        (None, None) => "{}"@,
    }
}

fn write_version(id: &str, report: &str) -> (r: Option<String>)
    ensures
        opt_text(r) == version_member(id@, report@),
{
    match line_one(str_trim(report).as_str()) {
        Some(l) => {
            let mut m = json_quote(id);
            m.append(":");
            m.append(json_quote(l.as_str()).as_str());
            Some(m)
        },
        None => None,
    }
}

pub fn engines_json(llamacpp: &str, ollama: &str) -> (r: String)
    ensures
        r@ == engines_doc(llamacpp@, ollama@),
{
    match (write_version("llamacpp", llamacpp), write_version("ollama", ollama)) {
        (Some(a), Some(b)) => {
            let mut r = owned("{");
            r.append(a.as_str());
            r.append(",");
            r.append(b.as_str());
            r.append("}");
            r
        },
        (Some(a), None) => {
            let mut r = owned("{");
            r.append(a.as_str());
            r.append("}");
            r
        },
        (None, Some(b)) => {
            let mut r = owned("{");
            r.append(b.as_str());
            r.append("}");
            r
        },
        (None, None) => owned("{}"),
    }
}

/// A polynomial hash of bytes in base 31, modulo two to the 64.
pub open spec fn poly_hash(bytes: Seq<u8>) -> nat
    decreases bytes.len(),
{
    if bytes.len() == 0 {
        0
    } else {
        (poly_hash(bytes.drop_last()) * 31 + bytes.last() as nat) % 0x1_0000_0000_0000_0000
    }
}

/// A number in hexadecimal, without leading zeros.
pub open spec fn hexadecimal(n: nat) -> Seq<char>
    decreases n,
{
    if n < 16 {
        seq![hex_digit(n)]
    } else {
        hexadecimal(n / 16).push(hex_digit(n % 16))
    }
}

fn push_hexadecimal(s: &mut String, n: u64)
    ensures
        final(s)@ == old(s)@ + hexadecimal(n as nat),
    decreases n,
{
    let ghost before = s@;
    if n < 16 {
        s.push(hex_digit_of(n));
    } else {
        push_hexadecimal(s, n / 16);
        s.push(hex_digit_of(n % 16));
    }
    assert(s@ =~= before + hexadecimal(n as nat));
}

/// What a profile is identified by. Neither the deck's own version nor the time
/// belongs to it.
pub open spec fn hash_source(p: HardwareProfile) -> Seq<char> {
    p.gpu@ + "|"@ + decimal(p.vram_mb as nat) + "|"@ + p.cpu@ + "|"@ + decimal(p.ram_mb as nat)
        + "|"@ + p.os@ + "|"@ + p.driver@ + "|"@ + p.cuda@ + "|"@ + p.engines_json@
}

fn hash_bytes(s: &str) -> (r: u64)
    ensures
        r as nat == poly_hash(vstd::utf8::encode_utf8(s@)),
{
    let bytes = s.as_bytes();
    let n = bytes.len();
    let mut h: u64 = 0;
    let mut i: usize = 0;
    while i < n
        invariant
            n == bytes@.len(),
            i <= n,
            h as nat == poly_hash(bytes@.subrange(0, i as int)),
        decreases n - i,
    {
        assert(bytes@.subrange(0, i + 1).drop_last() =~= bytes@.subrange(0, i as int));
        let m = h.wrapping_mul(31);
        let sum = m.wrapping_add(bytes[i] as u64);
        proof {
            lemma_wraps(h as nat, bytes@[i as int] as nat);
        }
        h = sum;
        i = i + 1;
    }
    assert(bytes@.subrange(0, n as int) =~= bytes@);
    h
}

proof fn lemma_wraps(h: nat, b: nat)
    ensures
        ((h * 31) % 0x1_0000_0000_0000_0000 + b) % 0x1_0000_0000_0000_0000 == (h * 31 + b)
            % 0x1_0000_0000_0000_0000,
{
    vstd::arithmetic::div_mod::lemma_add_mod_noop(
        (h * 31) as int,
        b as int,
        0x1_0000_0000_0000_0000,
    );
    vstd::arithmetic::div_mod::lemma_add_mod_noop(
        ((h * 31) % 0x1_0000_0000_0000_0000) as int,
        b as int,
        0x1_0000_0000_0000_0000,
    );
    vstd::arithmetic::div_mod::lemma_mod_twice((h * 31) as int, 0x1_0000_0000_0000_0000);
}

/// The profile with the hash of its content.
pub fn with_content_hash(p: HardwareProfile) -> (r: HardwareProfile)
    ensures
        r.content_hash@ == hexadecimal(poly_hash(vstd::utf8::encode_utf8(hash_source(p)))),
        r.id == p.id,
        r.gpu@ == p.gpu@,
        r.vram_mb == p.vram_mb,
        r.cpu@ == p.cpu@,
        r.ram_mb == p.ram_mb,
        r.os@ == p.os@,
        r.driver@ == p.driver@,
        r.cuda@ == p.cuda@,
        r.cyberdeck_ver@ == p.cyberdeck_ver@,
        r.engines_json@ == p.engines_json@,
        r.captured_at == p.captured_at,
{
    let mut src = owned(p.gpu.as_str());
    src.append("|");
    src.append(decimal_of(p.vram_mb).as_str());
    src.append("|");
    src.append(p.cpu.as_str());
    src.append("|");
    src.append(decimal_of(p.ram_mb).as_str());
    src.append("|");
    src.append(p.os.as_str());
    src.append("|");
    src.append(p.driver.as_str());
    src.append("|");
    src.append(p.cuda.as_str());
    src.append("|");
    src.append(p.engines_json.as_str());
    let h = hash_bytes(src.as_str());
    let mut content_hash = owned("");
    push_hexadecimal(&mut content_hash, h);
    proof {
        reveal_strlit("");
        assert(content_hash@ =~= hexadecimal(h as nat));
    }
    HardwareProfile { content_hash, ..p }
}

/// What the machine reported: the answers of the driver to its queries, the
/// files that describe the machine (none where they cannot be read), and what
/// the engines printed for their versions.
#[derive(Debug, Clone, PartialEq, Eq)]
pub struct Reports {
    pub gpu: String,
    pub vram: String,
    pub driver: String,
    pub driver_summary: String,
    pub cpuinfo: Option<String>,
    /// The processor by its short name, where the file does not tell it.
    pub processor: String,
    pub meminfo: Option<String>,
    pub os_release: Option<String>,
    /// The system by its kernel, where the file does not name it.
    pub kernel: String,
    pub llamacpp: String,
    pub ollama: String,
}

/// The processor that is recorded.
pub open spec fn recorded_cpu(r: Reports) -> Seq<char> {
    let told = match opt_text(r.cpuinfo) {
        Some(t) => cpu_spec(t),
        None => None,
    };
    match told {
        Some(c) => c,
        None => trim(r.processor@),
    }
}

/// The system that is recorded.
pub open spec fn recorded_os(r: Reports) -> Seq<char> {
    let told = match opt_text(r.os_release) {
        Some(t) => line_with(t, Lookup::Begins, "PRETTY_NAME"@),
        None => None,
    };
    match told {
        Some(l) => l,
        None => trim(r.kernel@),
    }
}

/// The profile is what the machine reported, at a time.
pub open spec fn is_capture(p: HardwareProfile, r: Reports, version: Seq<char>, now: i64) -> bool {
    &&& p.id == 0
    &&& p.gpu@ == gpu_name_spec(r.gpu@)
    &&& p.vram_mb == vram_spec(r.vram@)
    &&& p.cpu@ == recorded_cpu(r)
    &&& p.ram_mb == match opt_text(r.meminfo) {
        Some(t) => ram_spec(t),
        None => 0,
    }
    &&& p.os@ == recorded_os(r)
    &&& p.driver@ == trim(r.driver@)
    &&& p.cuda@ == cuda_spec(r.driver_summary@)
    &&& p.cyberdeck_ver@ == version
    &&& p.engines_json@ == engines_doc(r.llamacpp@, r.ollama@)
    &&& p.captured_at == now
    &&& p.content_hash@ == hexadecimal(poly_hash(vstd::utf8::encode_utf8(hash_source(p))))
}

/// The profile of a machine.
pub fn capture(r: &Reports, version: &str, now: i64) -> (p: HardwareProfile)
    ensures
        is_capture(p, *r, version@, now),
{
    let told_cpu = match &r.cpuinfo {
        Some(t) => cpu_model(t.as_str()),
        None => None,
    };
    let cpu = match told_cpu {
        Some(c) => c,
        None => str_trim(r.processor.as_str()),
    };
    let told_os = match &r.os_release {
        Some(t) => os_line(t.as_str()),
        None => None,
    };
    let os = match told_os {
        Some(l) => l,
        None => str_trim(r.kernel.as_str()),
    };
    let ram_mb = match &r.meminfo {
        Some(t) => ram_total_mb(t.as_str()),
        None => 0,
    };
    with_content_hash(
        HardwareProfile {
            id: 0,
            gpu: gpu_name(r.gpu.as_str()),
            vram_mb: vram_reported(r.vram.as_str()),
            cpu,
            ram_mb,
            os,
            driver: str_trim(r.driver.as_str()),
            cuda: cuda_line(r.driver_summary.as_str()),
            cyberdeck_ver: owned(version),
            engines_json: engines_json(r.llamacpp.as_str(), r.ollama.as_str()),
            captured_at: now,
            content_hash: owned(""),
        },
    )
}

/// Two captures of one machine have one hash, whenever and by whichever version
/// of the deck they were taken.
pub proof fn law_hash_ignores_time_and_version(a: HardwareProfile, b: HardwareProfile)
    requires
        a.gpu@ == b.gpu@,
        a.vram_mb == b.vram_mb,
        a.cpu@ == b.cpu@,
        a.ram_mb == b.ram_mb,
        a.os@ == b.os@,
        a.driver@ == b.driver@,
        a.cuda@ == b.cuda@,
        a.engines_json@ == b.engines_json@,
    ensures
        poly_hash(vstd::utf8::encode_utf8(hash_source(a))) == poly_hash(
            vstd::utf8::encode_utf8(hash_source(b)),
        ),
{
}

} // verus!
