//! Services of the user that run llama-server but are not the deck's own. The
//! deck can start and stop them; it does not own their unit files.
use vstd::prelude::*;
use vstd::string::{StrSliceExecFns, StringExecFns};

use crate::engines::grid::{is_sorted_texts, sorted_texts};
use crate::paths::{file_stem, path_file_stem};
use crate::profile::{engine_unit, Engine};
use crate::text::{
    contains, find, has_prefix, has_suffix, lines, opt_text, owned, parse_number, parse_number_of,
    replace, same, slice_string, str_contains, str_find, str_has_prefix, str_has_suffix, str_lines,
    str_replace, str_trim, str_words, texts, to_chars, trim, words,
};

verus! {

/// A service that runs llama-server.
#[derive(Debug, Clone, PartialEq)]
pub struct ExternalService {
    pub unit: String,
    pub description: String,
    pub model: Option<String>,
    pub display: String,
    pub port: Option<u16>,
    pub active: bool,
    pub exec_start: String,
}

/// The unit is one of the deck's own.
pub open spec fn is_deck_unit(unit: Seq<char>) -> bool {
    unit == engine_unit(Engine::LlamaCpp) || unit == engine_unit(Engine::FreeToken) || unit
        == engine_unit(Engine::Ollama) || unit == engine_unit(Engine::UncensoredLlamaCpp)
}

/// Whether a unit is one of the deck's own.
pub fn is_cyberdeck_unit(unit: &str) -> (r: bool)
    ensures
        r == is_deck_unit(unit@),
{
    same(unit, Engine::LlamaCpp.systemd_unit()) || same(unit, Engine::FreeToken.systemd_unit())
        || same(unit, Engine::Ollama.systemd_unit()) || same(
        unit,
        Engine::UncensoredLlamaCpp.systemd_unit(),
    )
}

/// The units of the deck.
pub fn cyberdeck_units() -> (r: Vec<&'static str>)
    ensures
        r@.len() == 4,
        r@[0]@ == engine_unit(Engine::LlamaCpp),
        r@[1]@ == engine_unit(Engine::FreeToken),
        r@[2]@ == engine_unit(Engine::Ollama),
        r@[3]@ == engine_unit(Engine::UncensoredLlamaCpp),
{
    vec![
        Engine::LlamaCpp.systemd_unit(),
        Engine::FreeToken.systemd_unit(),
        Engine::Ollama.systemd_unit(),
        Engine::UncensoredLlamaCpp.systemd_unit(),
    ]
}

/// The value in the first word, from `i` on, that is the flag, an equals sign
/// and a value.
pub open spec fn equals_value(ws: Seq<Seq<char>>, flag: Seq<char>, i: int) -> Option<Seq<char>>
    decreases ws.len() - i,
{
    let eq = flag + "="@;
    if i < 0 || i >= ws.len() {
        None
    } else if has_prefix(ws[i], eq) && ws[i].len() > eq.len() {
        Some(ws[i].skip(eq.len() as int))
    } else {
        equals_value(ws, flag, i + 1)
    }
}

/// The word behind the first word, from `i` on, that is the flag, unless that
/// is a flag itself.
pub open spec fn next_value(ws: Seq<Seq<char>>, flag: Seq<char>, i: int) -> Option<Seq<char>>
    decreases ws.len() - i,
{
    if i < 0 || i >= ws.len() {
        None
    } else if ws[i] == flag {
        if i + 1 < ws.len() && !(ws[i + 1].len() > 0 && ws[i + 1][0] == '-') {
            Some(ws[i + 1])
        } else {
            None
        }
    } else {
        next_value(ws, flag, i + 1)
    }
}

/// The value that a command line gives a flag, which is a word of its own:
/// after an equals sign, else the next word, unless that is a flag itself.
pub open spec fn arg_value(cmd: Seq<char>, flag: Seq<char>) -> Option<Seq<char>> {
    match equals_value(words(cmd), flag, 0) {
        Some(v) => Some(v),
        None => next_value(words(cmd), flag, 0),
    }
}

/// The value that a command line gives a flag.
pub fn extract_arg(cmd: &str, flag: &str) -> (r: Option<String>)
    ensures
        opt_text(r) == arg_value(cmd@, flag@),
{
    let ws = str_words(cmd);
    let ghost all = words(cmd@);
    let mut eq = owned(flag);
    eq.append("=");
    let n = eq.as_str().unicode_len();
    let mut i: usize = 0;
    while i < ws.len()
        invariant
            all == words(cmd@),
            all == texts(ws@),
            i <= ws@.len(),
            eq@ == flag@ + "="@,
            n == eq@.len(),
            equals_value(all, flag@, 0) == equals_value(all, flag@, i as int),
        decreases ws@.len() - i,
    {
        let w = ws[i].as_str();
        assert(all[i as int] == w@);
        let len = w.unicode_len();
        if str_has_prefix(w, eq.as_str()) && len > n {
            let rest = w.substring_char(n, len);
            assert(rest@ =~= w@.skip(n as int));
            return Some(owned(rest));
        }
        i = i + 1;
    }
    i = 0;
    while i < ws.len()
        invariant
            all == words(cmd@),
            all == texts(ws@),
            i <= ws@.len(),
            equals_value(all, flag@, 0) is None,
            next_value(all, flag@, 0) == next_value(all, flag@, i as int),
        decreases ws@.len() - i,
    {
        assert(all[i as int] == ws@[i as int]@);
        if same(ws[i].as_str(), flag) {
            if ws.len() - i > 1 {
                assert(all[i + 1] == ws@[i + 1]@);
                if !crate::runtime::begins_with(ws[i + 1].as_str(), '-') {
                    return Some(owned(ws[i + 1].as_str()));
                }
            }
            return None;
        }
        i = i + 1;
    }
    None
}

/// The unit that a line of the listing names.
pub open spec fn listed_unit(line: Seq<char>) -> Option<Seq<char>> {
    let w = words(trim(line));
    if w.len() > 0 && has_suffix(w[0], ".service"@) && !is_deck_unit(w[0]) {
        Some(w[0])
    } else {
        None
    }
}

/// The units that the first `n` lines of the listing name.
pub open spec fn units_upto(ls: Seq<Seq<char>>, n: int) -> Seq<Seq<char>>
    decreases n,
{
    if n <= 0 {
        Seq::empty()
    } else {
        let rest = units_upto(ls, n - 1);
        match listed_unit(ls[n - 1]) {
            Some(u) => rest.push(u),
            None => rest,
        }
    }
}

/// The services of a listing that are not the deck's own, in order.
pub fn external_units(listing: &str) -> (r: Vec<String>)
    ensures
        is_sorted_texts(
            texts(r@),
            units_upto(lines(listing@), lines(listing@).len() as int),
        ),
{
    let ls = str_lines(listing);
    let ghost all = texts(ls@);
    let mut found: Vec<String> = Vec::new();
    let mut i: usize = 0;
    assert(texts(found@) =~= Seq::<Seq<char>>::empty());
    while i < ls.len()
        invariant
            all == texts(ls@),
            i <= ls@.len(),
            texts(found@) == units_upto(all, i as int),
        decreases ls@.len() - i,
    {
        let ghost before = texts(found@);
        assert(all[i as int] == ls@[i as int]@);
        let w = str_words(str_trim(ls[i].as_str()).as_str());
        assert(texts(w@).len() == w@.len());
        if w.len() > 0 {
            assert(texts(w@)[0] == w@[0]@);
            if str_has_suffix(w[0].as_str(), ".service") && !is_cyberdeck_unit(w[0].as_str()) {
                found.push(owned(w[0].as_str()));
                assert(texts(found@) =~= before.push(w@[0]@));
            }
        }
        i = i + 1;
    }
    sorted_texts(found)
}

/// The command in systemd's structured form of a start command: what follows
/// `argv[]=`, up to a semicolon, or else a closing brace.
pub open spec fn structured_command(raw: Seq<char>) -> Option<Seq<char>> {
    match find(raw, "argv[]="@) {
        Some(i) => {
            let rest = raw.skip(i + "argv[]="@.len());
            let end = match find(rest, ";"@) {
                Some(e) => e,
                None => match find(rest, "}"@) {
                    Some(e) => e,
                    None => rest.len() as int,
                },
            };
            let cmd = trim(rest.take(end));
            if cmd.len() > 0 {
                Some(cmd)
            } else {
                None
            }
        },
        None => None,
    }
}

/// The start command in what systemd shows of a unit.
pub open spec fn start_command(shown: Seq<char>) -> Seq<char> {
    let raw = trim(shown);
    match structured_command(raw) {
        Some(cmd) => cmd,
        None => if raw.len() > 1 && raw[0] == '"' && raw.last() == '"' {
            raw.subrange(1, raw.len() - 1)
        } else {
            raw
        },
    }
}

fn command_in(raw: &str) -> (r: Option<String>)
    ensures
        opt_text(r) == structured_command(raw@),
{
    match str_find(raw, "argv[]=") {
        Some(i) => {
            let len = raw.unicode_len();
            let rest = raw.substring_char(i + "argv[]=".unicode_len(), len);
            assert(rest@ =~= raw@.skip(i + "argv[]="@.len()));
            let end = match str_find(rest, ";") {
                Some(e) => e,
                None => match str_find(rest, "}") {
                    Some(e) => e,
                    None => rest.unicode_len(),
                },
            };
            let part = rest.substring_char(0, end);
            assert(part@ =~= rest@.take(end as int));
            let cmd = str_trim(part);
            if cmd.as_str().is_empty() {
                None
            } else {
                Some(cmd)
            }
        },
        None => None,
    }
}

/// The start command in what systemd shows of a unit. A lone quotation mark is
/// no command.
pub fn get_exec_start(shown: &str) -> (r: String)
    requires
        trim(shown@) != seq!['"'],
    ensures
        r@ == start_command(shown@),
{
    let raw = str_trim(shown);
    match command_in(raw.as_str()) {
        Some(cmd) => {
            return cmd;
        },
        None => {},
    }
    let v = to_chars(raw.as_str());
    let n = v.len();
    if n > 1 && v[0] == '"' && v[n - 1] == '"' {
        slice_string(&v, 1, n - 1)
    } else {
        raw
    }
}

/// The description in what systemd shows of a unit.
pub fn get_unit_description(shown: &str) -> (r: Option<String>)
    ensures
        opt_text(r) == if trim(shown@).len() == 0 {
            None
        } else {
            Some(trim(shown@))
        },
{
    let d = str_trim(shown);
    if d.as_str().is_empty() {
        None
    } else {
        Some(d)
    }
}

/// The model that a command line names.
pub open spec fn model_arg(cmd: Seq<char>) -> Option<Seq<char>> {
    match arg_value(cmd, "-m"@) {
        Some(m) => Some(m),
        None => arg_value(cmd, "--model"@),
    }
}

/// The port that a command line names.
pub open spec fn port_arg(cmd: Seq<char>) -> Option<u16> {
    match arg_value(cmd, "--port"@) {
        Some(s) => match parse_number(s, u16::MAX as nat) {
            Some(n) => Some(n as u16),
            None => None,
        },
        None => None,
    }
}

/// The stem of the model's file.
pub open spec fn model_stem(model: Option<Seq<char>>) -> Option<Seq<char>> {
    match model {
        Some(m) => file_stem(m),
        None => None,
    }
}

/// The model that a command line names.
pub fn model_in(cmd: &str) -> (r: Option<String>)
    ensures
        opt_text(r) == model_arg(cmd@),
{
    match extract_arg(cmd, "-m") {
        Some(m) => Some(m),
        None => extract_arg(cmd, "--model"),
    }
}

/// The port that a command line names.
pub fn port_in(cmd: &str) -> (r: Option<u16>)
    ensures
        r == port_arg(cmd@),
{
    match extract_arg(cmd, "--port") {
        Some(s) => match parse_number_of(s.as_str(), 0xffff) {
            Some(n) => Some(n as u16),
            None => None,
        },
        None => None,
    }
}

/// The stem of the model's file.
pub fn stem_in(model: &Option<String>) -> (r: Option<String>)
    ensures
        opt_text(r) == model_stem(opt_text(*model)),
{
    match model {
        Some(m) => path_file_stem(m.as_str()),
        None => None,
    }
}

/// The service is that of a unit with a start command.
pub open spec fn is_service(
    s: ExternalService,
    unit: Seq<char>,
    cmd: Seq<char>,
    active: bool,
    description: Option<Seq<char>>,
) -> bool {
    let display = match model_stem(model_arg(cmd)) {
        Some(d) => d,
        None => replace(unit, ".service"@, Seq::empty()),
    };
    &&& s.unit@ == unit
    &&& s.exec_start@ == cmd
    &&& opt_text(s.model) == model_arg(cmd)
    &&& s.port == port_arg(cmd)
    &&& s.active == active
    &&& s.display@ == display
    &&& s.description@ == match description {
        Some(d) => d,
        None => display,
    }
}

/// The record of a unit, where it runs llama-server.
pub fn external_service(
    unit: &str,
    exec_start: &str,
    active: bool,
    description: Option<String>,
) -> (r: Option<ExternalService>)
    ensures
        match r {
            Some(s) => contains(exec_start@, "llama-server"@) && is_service(
                s,
                unit@,
                exec_start@,
                active,
                opt_text(description),
            ),
            None => !contains(exec_start@, "llama-server"@),
        },
{
    if !str_contains(exec_start, "llama-server") {
        return None;
    }
    let model = model_in(exec_start);
    proof {
        reveal_strlit(".service");
        reveal_strlit("");
        assert(""@ =~= Seq::<char>::empty());
    }
    let display = match stem_in(&model) {
        Some(d) => d,
        None => str_replace(unit, ".service", ""),
    };
    let description = match description {
        Some(d) => d,
        None => owned(display.as_str()),
    };
    Some(
        ExternalService {
            unit: owned(unit),
            description,
            model,
            display,
            port: port_in(exec_start),
            active,
            exec_start: owned(exec_start),
        },
    )
}

} // verus!
