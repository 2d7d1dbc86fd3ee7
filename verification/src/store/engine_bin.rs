//! The executables of the engines, as configured on this machine.
use vstd::prelude::*;

use crate::profile::{same_but_bin, Profile};
use crate::text::{contains, opt_str, opt_text, owned, str_contains};

verus! {

/// A configured executable. The version is known where a recipe installed it.
#[derive(Debug, Clone, PartialEq, Eq)]
pub struct EngineBin {
    pub engine_id: String,
    pub bin: String,
    pub version: Option<String>,
}

/// The record of a recipe's install.
pub fn record_runtime_install(engine_id: &str, bin: &str, version: &str) -> (r: EngineBin)
    ensures
        r.engine_id@ == engine_id@,
        r.bin@ == bin@,
        opt_text(r.version) == Some(version@),
{
    EngineBin { engine_id: owned(engine_id), bin: owned(bin), version: Some(owned(version)) }
}

/// The record of an executable that was registered by hand: its version is
/// unknown.
pub fn set_engine_bin(engine_id: &str, bin: &str) -> (r: EngineBin)
    ensures
        r.engine_id@ == engine_id@,
        r.bin@ == bin@,
        r.version is None,
{
    EngineBin { engine_id: owned(engine_id), bin: owned(bin), version: None }
}

/// The version of an installed runtime.
pub fn installed_version(row: Option<&EngineBin>) -> (r: Option<String>)
    ensures
        opt_text(r) == match row {
            Some(b) => opt_text(b.version),
            None => None,
        },
{
    match row {
        Some(b) => match &b.version {
            Some(v) => Some(owned(v.as_str())),
            None => None,
        },
        None => None,
    }
}

/// The executable will run: a bare name is found on the search path, anything
/// else must be a file.
pub open spec fn is_resolvable(bin: Seq<char>, is_file: bool) -> bool {
    !(contains(bin, "/"@) || contains(bin, "\\"@)) || is_file
}

/// Whether an executable will run.
pub fn bin_looks_resolvable(bin: &str, is_file: bool) -> (r: bool)
    ensures
        r == is_resolvable(bin@, is_file),
{
    !(str_contains(bin, "/") || str_contains(bin, "\\")) || is_file
}

/// The executable that a profile launches: its own where that will run, else
/// the configured one, else its own after all.
pub open spec fn resolved_bin(bin: Seq<char>, configured: Option<Seq<char>>, is_file: bool) -> Seq<
    char,
> {
    match configured {
        Some(b) => if is_resolvable(bin, is_file) {
            bin
        } else {
            b
        },
        None => bin,
    }
}

/// Puts the configured executable into a profile whose own will not run.
/// `is_file` says whether the profile's own is a file.
pub fn resolve_engine_bin(p: Profile, configured: Option<&str>, is_file: bool) -> (r: Profile)
    ensures
        r.bin@ == resolved_bin(p.bin@, opt_str(configured), is_file),
        same_but_bin(r, p),
{
    match configured {
        Some(b) => {
            if bin_looks_resolvable(p.bin.as_str(), is_file) {
                p
            } else {
                Profile { bin: owned(b), ..p }
            }
        },
        None => p,
    }
}

} // verus!
