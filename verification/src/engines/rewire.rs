//! Managed client rewiring: points client tools at the port of the engine that
//! is active now.
use vstd::prelude::*;
use vstd::string::StringExecFns;

use crate::engines::backup::{add_write, file_steps, write_steps, FileStep};
use crate::runtime::{path_in, path_join};
use crate::text::{
    chars_find_from, contains, decimal, decimal_of, find, find_from, is_digit,
    lemma_decimal_denotes, lemma_find_from, occurs_at, opt_text, owned, same, slice_string,
    to_chars,
};

verus! {

#[derive(Debug, Clone, PartialEq)]
pub struct RewireReport {
    pub client: String,
    pub path: String,
    pub status: String,
}

/// What a port follows in an address of this machine.
pub open spec fn marker() -> Seq<char> {
    "http://127.0.0.1:"@
}

/// Where the port of the first address of this machine at or after the anchor
/// stands: from the marker's end to the next slash. None where there is no
/// anchor, no address, no slash, or nothing before it.
pub open spec fn port_span(text: Seq<char>, anchor: Seq<char>, require_anchor: bool) -> Option<
    (int, int),
> {
    let from = if require_anchor {
        find(text, anchor)
    } else {
        Some(0int)
    };
    match from {
        None => None,
        Some(a) => match find_from(text, marker(), a) {
            None => None,
            Some(m) => {
                let start = m + marker().len();
                match find_from(text, "/"@, start) {
                    None => None,
                    Some(end) => if start == end {
                        None
                    } else {
                        Some((start as int, end))
                    },
                }
            },
        },
    }
}

/// The text with the port of that address replaced.
pub open spec fn repointed(text: Seq<char>, port: u16, anchor: Seq<char>, require_anchor: bool) -> Option<
    Seq<char>,
> {
    match port_span(text, anchor, require_anchor) {
        Some((start, end)) => Some(text.take(start) + decimal(port as nat) + text.skip(end)),
        None => None,
    }
}

/// Replaces the port of the first address of this machine at or after the
/// anchor, so that the change stays within one provider's block.
pub fn set_port_in_block(text: &str, port: u16, block_anchor: &str, require_anchor: bool) -> (r:
    Option<String>)
    ensures
        opt_text(r) == repointed(text@, port, block_anchor@, require_anchor),
{
    let v = to_chars(text);
    let from: usize = if require_anchor {
        let a = to_chars(block_anchor);
        match chars_find_from(&v, &a, 0) {
            Some(i) => i,
            None => {
                return None;
            },
        }
    } else {
        0
    };
    let m = to_chars("http://127.0.0.1:");
    let at = match chars_find_from(&v, &m, from) {
        Some(i) => i,
        None => {
            return None;
        },
    };
    proof {
        lemma_find_from(v@, m@, from as int);
        assert(occurs_at(v@, m@, at as int));
    }
    let total = v.len();
    assert(at + m@.len() <= total);
    let start = at + m.len();
    let slash = to_chars("/");
    let end = match chars_find_from(&v, &slash, start) {
        Some(i) => i,
        None => {
            return None;
        },
    };
    proof {
        lemma_find_from(v@, slash@, start as int);
    }
    if start == end {
        return None;
    }
    let mut r = slice_string(&v, 0, start);
    assert(r@ =~= text@.take(start as int));
    r.append(decimal_of(port as u64).as_str());
    let rest = slice_string(&v, end, v.len());
    assert(rest@ =~= text@.skip(end as int));
    r.append(rest.as_str());
    Some(r)
}

/// Nothing but the port changes: what stands before it and after it stays.
pub proof fn law_only_the_port_changes(
    text: Seq<char>,
    port: u16,
    anchor: Seq<char>,
    require_anchor: bool,
)
    requires
        repointed(text, port, anchor, require_anchor) is Some,
    ensures
        ({
            let (start, end) = port_span(text, anchor, require_anchor)->0;
            let out = repointed(text, port, anchor, require_anchor)->0;
            let n = decimal(port as nat).len();
            &&& 0 <= start < end <= text.len()
            &&& out.take(start) == text.take(start)
            &&& out.subrange(start, start + n) == decimal(port as nat)
            &&& out.skip(start + n) == text.skip(end)
        }),
{
    lemma_span(text, anchor, require_anchor);
    let (start, end) = port_span(text, anchor, require_anchor)->0;
    let out = repointed(text, port, anchor, require_anchor)->0;
    let d = decimal(port as nat);
    assert(out.take(start) =~= text.take(start));
    assert(out.subrange(start, (start + d.len()) as int) =~= d);
    assert(out.skip((start + d.len()) as int) =~= text.skip(end));
}

proof fn lemma_span(text: Seq<char>, anchor: Seq<char>, require_anchor: bool)
    requires
        port_span(text, anchor, require_anchor) is Some,
    ensures
        ({
            let (start, end) = port_span(text, anchor, require_anchor)->0;
            let from = if require_anchor {
                find(text, anchor)->0
            } else {
                0
            };
            let m = start - marker().len();
            &&& 0 <= from <= m
            &&& find_from(text, marker(), from) == Some(m)
            &&& occurs_at(text, marker(), m)
            &&& 0 <= start < end < text.len()
            &&& find_from(text, "/"@, start) == Some(end)
            &&& require_anchor ==> find(text, anchor) is Some
        }),
{
    if require_anchor {
        lemma_find_from(text, anchor, 0);
    }
    let from = if require_anchor {
        find(text, anchor)->0
    } else {
        0
    };
    lemma_find_from(text, marker(), from);
    let start = find_from(text, marker(), from)->0 + marker().len();
    lemma_find_from(text, "/"@, start as int);
    reveal_strlit("/");
}

/// Two texts that agree on a stretch agree on what occurs within it.
proof fn lemma_occurs_same(a: Seq<char>, b: Seq<char>, p: Seq<char>, i: int, n: int)
    requires
        0 <= i,
        i + p.len() <= n <= a.len(),
        n <= b.len(),
        a.take(n) == b.take(n),
    ensures
        occurs_at(a, p, i) == occurs_at(b, p, i),
{
    assert(a.subrange(i, (i + p.len()) as int) =~= a.take(n).subrange(i, (i + p.len()) as int));
    assert(b.subrange(i, (i + p.len()) as int) =~= b.take(n).subrange(i, (i + p.len()) as int));
}

/// An occurrence that covers a stretch holds what stands there.
proof fn lemma_covering(t: Seq<char>, p: Seq<char>, q: Seq<char>, i: int, m: int)
    requires
        occurs_at(t, p, i),
        occurs_at(t, q, m),
        i <= m,
        m + q.len() <= i + p.len(),
    ensures
        contains(p, q),
{
    assert(p.subrange(m - i, (m - i + q.len()) as int) =~= t.subrange(m, (m + q.len()) as int)) by {
        assert(t.subrange(i, (i + p.len()) as int) == p);
    }
    assert(occurs_at(p, q, m - i));
}

/// The first occurrence stays the first where the text before its end stays,
/// and nothing new can begin before it.
proof fn lemma_find_stays(a: Seq<char>, b: Seq<char>, p: Seq<char>, from: int, at: int, n: int)
    requires
        0 <= from <= at,
        find_from(a, p, from) == Some(at),
        at + p.len() <= n <= a.len(),
        n <= b.len(),
        a.take(n) == b.take(n),
        forall|i: int| from <= i < at && i + p.len() > n ==> !occurs_at(b, p, i),
    ensures
        find_from(b, p, from) == Some(at),
{
    lemma_find_from(a, p, from);
    lemma_find_from(b, p, from);
    lemma_occurs_same(a, b, p, at, n);
    assert(occurs_at(b, p, at));
    let j = find_from(b, p, from)->0;
    if j < at {
        if j + p.len() <= n {
            lemma_occurs_same(a, b, p, j, n);
            assert(!occurs_at(a, p, j));
        }
    }
}

/// Repointing a text that was repointed to the same port changes nothing: the
/// report on it says that it is already correct. The anchor must not hold an
/// address itself.
pub proof fn law_rewire_is_idempotent(
    text: Seq<char>,
    port: u16,
    anchor: Seq<char>,
    require_anchor: bool,
)
    requires
        repointed(text, port, anchor, require_anchor) is Some,
        !contains(anchor, marker()),
    ensures
        ({
            let out = repointed(text, port, anchor, require_anchor)->0;
            repointed(out, port, anchor, require_anchor) == Some(out)
        }),
{
    law_only_the_port_changes(text, port, anchor, require_anchor);
    lemma_span(text, anchor, require_anchor);
    let (start, end) = port_span(text, anchor, require_anchor)->0;
    let out = repointed(text, port, anchor, require_anchor)->0;
    let d = decimal(port as nat);
    let m = start - marker().len();
    let from = if require_anchor {
        find(text, anchor)->0
    } else {
        0
    };
    let e = (start + d.len()) as int;
    lemma_decimal_denotes(port as nat);
    if require_anchor {
        lemma_anchor_stays(text, out, anchor, from, m, start);
    }
    lemma_find_stays(text, out, marker(), from, m, start);
    lemma_next_slash(text, out, start, end, e);
    assert(port_span(out, anchor, require_anchor) == Some((start, e)));
    assert(out.take(start) + d + out.skip(e) =~= out);
}

/// The anchor stays where it is when the text after the marker changes: one
/// that begins earlier would have to cover the marker.
proof fn lemma_anchor_stays(
    text: Seq<char>,
    out: Seq<char>,
    anchor: Seq<char>,
    from: int,
    m: int,
    start: int,
)
    requires
        find(text, anchor) == Some(from),
        0 <= from <= m,
        start == m + marker().len(),
        start <= text.len(),
        start <= out.len(),
        text.take(start) == out.take(start),
        occurs_at(text, marker(), m),
        !contains(anchor, marker()),
    ensures
        find(out, anchor) == Some(from),
{
    lemma_occurs_same(text, out, marker(), m, start);
    lemma_find_from(text, anchor, 0);
    assert forall|i: int| 0 <= i < from && i + anchor.len() > start implies !occurs_at(
        out,
        anchor,
        i,
    ) by {
        if occurs_at(out, anchor, i) {
            lemma_covering(out, anchor, marker(), i, m);
        }
    }
    if from + anchor.len() <= start {
        lemma_find_stays(text, out, anchor, 0, from, start);
    } else {
        lemma_covering(text, anchor, marker(), from, m);
    }
}

/// The next slash follows the digits.
proof fn lemma_next_slash(text: Seq<char>, out: Seq<char>, start: int, end: int, e: int)
    requires
        0 <= start < e <= out.len(),
        start <= end < text.len(),
        find_from(text, "/"@, start) == Some(end),
        out.skip(e) == text.skip(end),
        forall|i: int| 0 <= i < e - start ==> is_digit(#[trigger] out.subrange(start, e)[i]),
    ensures
        find_from(out, "/"@, start) == Some(e),
{
    reveal_strlit("/");
    lemma_find_from(text, "/"@, start);
    assert(text.subrange(end, end + 1)[0] == "/"@[0]);
    let tail = out.skip(e);
    assert(tail.len() == text.len() - end);
    assert(tail.len() == out.len() - e);
    assert(tail[0] == text[end]);
    assert(tail[0] == out[e]);
    assert(text.subrange(end, end + 1)[0] == text[end]);
    assert(out[e] == '/');
    assert(out.subrange(e, e + 1) =~= "/"@);
    assert(occurs_at(out, "/"@, e));
    assert forall|i: int| start <= i < e implies !occurs_at(out, "/"@, i) by {
        if occurs_at(out, "/"@, i) {
            assert(out.subrange(i, i + 1)[0] == '/');
            assert(is_digit(out.subrange(start, e)[i - start]));
        }
    }
    lemma_find_from(out, "/"@, start);
}

/// What became of reading a client's file.
#[derive(Debug, Clone, PartialEq)]
pub enum ClientFile {
    Missing,
    Unreadable(String),
    Text(String),
}

/// What to do about a client's file.
#[derive(Debug, Clone, PartialEq)]
pub enum Rewire {
    /// Leave it; the report says why.
    Leave(RewireReport),
    /// Take these steps: back it up, and write it.
    Write(Vec<FileStep>),
}

pub open spec fn is_report(r: RewireReport, client: Seq<char>, path: Seq<char>, status: Seq<char>) -> bool {
    r.client@ == client && r.path@ == path && r.status@ == status
}

/// What to do about a client's file.
pub open spec fn rewires(
    r: Rewire,
    client: Seq<char>,
    path: Seq<char>,
    port: u16,
    anchor: Seq<char>,
    file: ClientFile,
    ts: Seq<char>,
) -> bool {
    match file {
        ClientFile::Missing => r is Leave && is_report(
            r->Leave_0,
            client,
            path,
            "not found — skipped"@,
        ),
        ClientFile::Unreadable(e) => r is Leave && is_report(
            r->Leave_0,
            client,
            path,
            "read error: "@ + e@,
        ),
        ClientFile::Text(t) => match repointed(t@, port, anchor, true) {
            None => r is Leave && is_report(
                r->Leave_0,
                client,
                path,
                "no matching provider baseURL — skipped"@,
            ),
            Some(out) => if out == t@ {
                r is Leave && is_report(r->Leave_0, client, path, "already correct"@)
            } else {
                r is Write && file_steps(r->Write_0@) == write_steps(path, out, true, ts)
            },
        },
    }
}

fn report(client: &str, path: &str, status: &str) -> (r: RewireReport)
    ensures
        is_report(r, client@, path@, status@),
{
    RewireReport { client: owned(client), path: owned(path), status: owned(status) }
}

/// Decides what to do about a client's file. A backup carries the time `ts` in
/// its name.
pub fn rewire_file(
    client: &str,
    path: &str,
    port: u16,
    anchor: &str,
    file: ClientFile,
    ts: &str,
) -> (r: Rewire)
    ensures
        rewires(r, client@, path@, port, anchor@, file, ts@),
{
    match file {
        ClientFile::Missing => Rewire::Leave(report(client, path, "not found — skipped")),
        ClientFile::Unreadable(e) => {
            let mut s = owned("read error: ");
            s.append(e.as_str());
            Rewire::Leave(report(client, path, s.as_str()))
        },
        ClientFile::Text(t) => match set_port_in_block(t.as_str(), port, anchor, true) {
            None => Rewire::Leave(report(client, path, "no matching provider baseURL — skipped")),
            Some(out) => {
                if same(out.as_str(), t.as_str()) {
                    Rewire::Leave(report(client, path, "already correct"))
                } else {
                    let mut steps: Vec<FileStep> = Vec::new();
                    let ghost written = write_steps(path@, out@, true, ts@);
                    add_write(&mut steps, owned(path), out, true, ts);
                    assert(file_steps(steps@) =~= written);
                    Rewire::Write(steps)
                }
            },
        },
    }
}

/// The report on a file that was written, or could not be.
pub fn rewire_written(client: &str, path: &str, port: u16, error: &Option<String>) -> (r:
    RewireReport)
    ensures
        is_report(
            r,
            client@,
            path@,
            match opt_text(*error) {
                None => "rewired → :"@ + decimal(port as nat),
                Some(e) => "write error: "@ + e,
            },
        ),
{
    let status = match error {
        None => {
            let mut s = owned("rewired → :");
            s.append(decimal_of(port as u64).as_str());
            s
        },
        Some(e) => {
            let mut s = owned("write error: ");
            s.append(e.as_str());
            s
        },
    };
    report(client, path, status.as_str())
}

/// A client that can be rewired: its file, and where its block begins.
#[derive(Debug, Clone, PartialEq)]
pub struct RewireTarget {
    pub client: String,
    pub path: String,
    pub anchor: String,
}

/// The clients that can be rewired, in a home directory.
pub fn rewire_clients(home: &str) -> (r: Vec<RewireTarget>)
    ensures
        r@.len() == 2,
        r@[0].client@ == "dsh"@,
        r@[0].path@ == path_in(home@, ".dsh/settings.yaml"@),
        r@[0].anchor@ == "llamacpp:"@,
        r@[1].client@ == "opencode"@,
        r@[1].path@ == path_in(home@, ".config/opencode/opencode.json"@),
        r@[1].anchor@ == "\"llamacpp\":"@,
{
    let mut r: Vec<RewireTarget> = Vec::new();
    r.push(
        RewireTarget {
            client: owned("dsh"),
            path: path_join(home, ".dsh/settings.yaml"),
            anchor: owned("llamacpp:"),
        },
    );
    r.push(
        RewireTarget {
            client: owned("opencode"),
            path: path_join(home, ".config/opencode/opencode.json"),
            anchor: owned("\"llamacpp\":"),
        },
    );
    r
}

} // verus!
