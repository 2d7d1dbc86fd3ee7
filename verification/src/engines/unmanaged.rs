//! Processes of llama-server that were started by hand. The deck shows them,
//! and can stop them.
use vstd::prelude::*;
use vstd::string::StringExecFns;

use crate::engines::external::{
    is_cyberdeck_unit, is_deck_unit, model_arg, model_in, model_stem, port_arg, port_in, stem_in,
};
use crate::paths::{chars_last_pos, last_pos};
use crate::text::{
    chars_until, contains, decimal, decimal_of, has_suffix, lines, opt_str, opt_text, owned,
    parse_number, parse_number_of, slice_string, split, str_contains, str_has_suffix, str_lines,
    str_split, str_trim, texts, to_chars, trim, until,
};

verus! {

/// A process of llama-server that no unit of the deck owns.
#[derive(Debug, Clone, PartialEq)]
pub struct UnmanagedProcess {
    pub pid: u32,
    pub port: Option<u16>,
    pub model: Option<String>,
    pub display: String,
    pub cmd: String,
    /// The user's unit in which it lives, if any.
    pub systemd_unit: Option<String>,
}

/// The process id and the command line on a line of the process list.
pub open spec fn listed_process(line: Seq<char>) -> Option<(u32, Seq<char>)> {
    let l = trim(line);
    let n = until(l, ' ') as int;
    if n < l.len() {
        match parse_number(l.take(n), u32::MAX as nat) {
            Some(pid) => Some((pid as u32, l.skip(n + 1))),
            None => None,
        }
    } else {
        None
    }
}

/// The process id and the command line on a line of the process list.
pub fn process_on_line(line: &str) -> (r: Option<(u32, String)>)
    ensures
        match r {
            Some((pid, cmd)) => listed_process(line@) == Some((pid, cmd@)),
            None => listed_process(line@) is None,
        },
{
    let l = str_trim(line);
    let v = to_chars(l.as_str());
    let n = chars_until(&v, ' ', 0);
    assert(v@.skip(0) =~= v@);
    if n == v.len() {
        return None;
    }
    let pid = slice_string(&v, 0, n);
    assert(pid@ =~= l@.take(n as int));
    let cmd = slice_string(&v, n + 1, v.len());
    assert(cmd@ =~= l@.skip(n + 1));
    match parse_number_of(pid.as_str(), 0xffff_ffff) {
        Some(p) => Some((p as u32, cmd)),
        None => None,
    }
}

/// A line of a control group has a step on its path that is a unit of the deck.
pub open spec fn line_names_deck(line: Seq<char>) -> bool {
    exists|j: int|
        0 <= j < split(line, '/').len() && is_deck_unit(#[trigger] split(line, '/')[j])
}

/// A control group names a unit of the deck.
pub open spec fn names_deck_unit(cgroup: Seq<char>) -> bool {
    exists|i: int| 0 <= i < lines(cgroup).len() && line_names_deck(#[trigger] lines(cgroup)[i])
}

fn deck_on_line(line: &str) -> (r: bool)
    ensures
        r == line_names_deck(line@),
{
    let steps = str_split(line, '/');
    let ghost all = split(line@, '/');
    let mut i: usize = 0;
    while i < steps.len()
        invariant
            all == split(line@, '/'),
            all == texts(steps@),
            i <= steps@.len(),
            forall|j: int| 0 <= j < i ==> !is_deck_unit(#[trigger] all[j]),
        decreases steps@.len() - i,
    {
        assert(all[i as int] == steps@[i as int]@);
        if is_cyberdeck_unit(steps[i].as_str()) {
            return true;
        }
        i = i + 1;
    }
    false
}

/// Whether a process belongs to a unit of the deck, by its control group; one
/// whose group cannot be read does not.
pub fn is_systemd_managed(cgroup: Option<&str>) -> (r: bool)
    ensures
        r == match cgroup {
            Some(c) => names_deck_unit(c@),
            None => false,
        },
{
    let c = match cgroup {
        Some(c) => c,
        None => {
            return false;
        },
    };
    let ls = str_lines(c);
    let ghost all = lines(c@);
    let mut i: usize = 0;
    while i < ls.len()
        invariant
            cgroup == Some(c),
            all == lines(c@),
            all == texts(ls@),
            i <= ls@.len(),
            forall|j: int| 0 <= j < i ==> !line_names_deck(#[trigger] all[j]),
        decreases ls@.len() - i,
    {
        assert(all[i as int] == ls@[i as int]@);
        if deck_on_line(ls[i].as_str()) {
            return true;
        }
        i = i + 1;
    }
    false
}

/// The unit that a line of a control group names: the last step of its path,
/// where that is a service in a slice of the user's.
pub open spec fn unit_on_line(line: Seq<char>) -> Option<Seq<char>> {
    match last_pos(line, '/') {
        Some(i) => {
            let u = trim(line.skip(i + 1));
            if has_suffix(u, ".service"@) && contains(line, "/user.slice/"@) {
                Some(u)
            } else {
                None
            }
        },
        None => None,
    }
}

/// The unit that the first line at or after `i` names.
pub open spec fn unit_from(ls: Seq<Seq<char>>, i: int) -> Option<Seq<char>>
    decreases ls.len() - i,
{
    if i < 0 || i >= ls.len() {
        None
    } else {
        match unit_on_line(ls[i]) {
            Some(u) => Some(u),
            None => unit_from(ls, i + 1),
        }
    }
}

/// The unit in which a process lives, by its control group.
pub fn extract_systemd_unit(cgroup: &str) -> (r: Option<String>)
    ensures
        opt_text(r) == unit_from(lines(cgroup@), 0),
{
    let ls = str_lines(cgroup);
    let ghost all = texts(ls@);
    let mut i: usize = 0;
    while i < ls.len()
        invariant
            all == texts(ls@),
            all == lines(cgroup@),
            i <= ls@.len(),
            unit_from(all, 0) == unit_from(all, i as int),
        decreases ls@.len() - i,
    {
        assert(all[i as int] == ls@[i as int]@);
        let v = to_chars(ls[i].as_str());
        let n = v.len();
        assert(v@.take(n as int) =~= v@);
        match chars_last_pos(&v, '/', n) {
            Some(k) => {
                let last = slice_string(&v, k + 1, n);
                assert(last@ =~= all[i as int].skip(k + 1));
                let u = str_trim(last.as_str());
                if str_has_suffix(u.as_str(), ".service") && str_contains(
                    ls[i].as_str(),
                    "/user.slice/",
                ) {
                    return Some(u);
                }
            },
            None => {},
        }
        i = i + 1;
    }
    None
}

/// The process is that of a command line in a control group.
pub open spec fn is_process(
    p: UnmanagedProcess,
    pid: u32,
    cmd: Seq<char>,
    cgroup: Option<Seq<char>>,
) -> bool {
    &&& p.pid == pid
    &&& p.cmd@ == cmd
    &&& p.port == port_arg(cmd)
    &&& opt_text(p.model) == model_arg(cmd)
    &&& p.display@ == match model_stem(model_arg(cmd)) {
        Some(d) => d,
        None => "pid:"@ + decimal(pid as nat),
    }
    &&& opt_text(p.systemd_unit) == match cgroup {
        Some(c) => unit_from(lines(c), 0),
        None => None,
    }
}

/// The record of a process, unless it belongs to a unit of the deck.
pub fn unmanaged_process(pid: u32, cmd: &str, cgroup: Option<&str>) -> (r: Option<UnmanagedProcess>)
    ensures
        match r {
            Some(p) => !(cgroup is Some && names_deck_unit(cgroup->0@)) && is_process(
                p,
                pid,
                cmd@,
                opt_str(cgroup),
            ),
            None => cgroup is Some && names_deck_unit(cgroup->0@),
        },
{
    if is_systemd_managed(cgroup) {
        return None;
    }
    let model = model_in(cmd);
    let display = match stem_in(&model) {
        Some(d) => d,
        None => {
            let mut d = owned("pid:");
            d.append(decimal_of(pid as u64).as_str());
            d
        },
    };
    let systemd_unit = match cgroup {
        Some(c) => extract_systemd_unit(c),
        None => None,
    };
    Some(
        UnmanagedProcess { pid, port: port_in(cmd), model, display, cmd: owned(cmd), systemd_unit },
    )
}

/// Checks that a process may be stopped: it is there, and it is a
/// llama-server. `args` is its command line, where it was found.
pub fn check_stoppable(pid: u32, args: Option<&str>) -> (r: Result<(), String>)
    ensures
        match args {
            None => r is Err && r->Err_0@ == "process "@ + decimal(pid as nat) + " not found"@,
            Some(a) => if contains(a@, "llama-server"@) {
                r is Ok
            } else {
                r is Err && r->Err_0@ == "process "@ + decimal(pid as nat)
                    + " is not a llama-server (got: "@ + a@ + ")"@
            },
        },
{
    let mut e = owned("process ");
    e.append(decimal_of(pid as u64).as_str());
    match args {
        None => {
            e.append(" not found");
            Err(e)
        },
        Some(a) => {
            if str_contains(a, "llama-server") {
                Ok(())
            } else {
                e.append(" is not a llama-server (got: ");
                e.append(a);
                e.append(")");
                Err(e)
            }
        },
    }
}

/// How a process is stopped.
#[derive(Debug, Clone, PartialEq)]
pub enum StopBy {
    /// By its unit, so that it is not started again.
    Unit(String),
    /// By a signal.
    Signal,
}

/// How a process in a control group is stopped. `unit_failed` says that its
/// unit could not be stopped.
pub fn stop_by(cgroup: Option<&str>, unit_failed: bool) -> (r: StopBy)
    ensures
        match r {
            StopBy::Unit(u) => !unit_failed && cgroup is Some && unit_from(lines(cgroup->0@), 0)
                == Some(u@),
            StopBy::Signal => unit_failed || cgroup is None || unit_from(
                lines(cgroup->0@),
                0,
            ) is None,
        },
{
    if unit_failed {
        return StopBy::Signal;
    }
    match cgroup {
        Some(c) => match extract_systemd_unit(c) {
            Some(u) => StopBy::Unit(u),
            None => StopBy::Signal,
        },
        None => StopBy::Signal,
    }
}

} // verus!
