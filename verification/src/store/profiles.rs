//! Loadouts in the store: where their values come from, how they are copied,
//! and which of them a model runs as.
use vstd::prelude::*;
use vstd::string::StringExecFns;

use crate::library::{diff_fields, field_marks, marked_upto, ConfigOrigin, Provenance};
use crate::model::{format_tag, ModelFormat};
use crate::paths::{file_name, path_file_name};
use crate::profile::{same_but_name, same_profile, Profile};
use crate::store::residents::Resident;
use crate::text::{has_prefix, owned, same, str_has_prefix, str_trim, texts, trim};

verus! {

/// The origin of a configuration in which these fields were changed.
pub open spec fn origin_of(changed: Seq<Seq<char>>) -> ConfigOrigin {
    if changed.len() == 0 {
        ConfigOrigin::Auto
    } else {
        ConfigOrigin::Override
    }
}

/// The origin of a configuration: automatic until a field was changed.
pub fn origin_for(p: &Provenance) -> (r: ConfigOrigin)
    ensures
        r == origin_of(texts(p.overridden_fields@)),
{
    if p.overridden_fields.len() == 0 {
        ConfigOrigin::Auto
    } else {
        ConfigOrigin::Override
    }
}

/// The origin that a loadout is stored with: that of old rows is automatic.
pub fn profile_origin(stored: Option<&str>) -> (r: String)
    ensures
        r@ == match stored {
            Some(o) => o@,
            None => "auto"@,
        },
{
    match stored {
        Some(o) => owned(o),
        None => owned("auto"),
    }
}

/// The provenance of a loadout that was edited: the baseline stays, and the
/// fields that differ from it are marked. A loadout without a baseline has none
/// to deviate from.
pub fn save_profile_edited(provenance: Option<Provenance>, edited: &Profile) -> (r: Option<
    (Provenance, ConfigOrigin),
>)
    ensures
        match provenance {
            Some(p) => {
                let changed = marked_upto(field_marks(p.baseline, *edited), 32);
                &&& r is Some
                &&& (r->0).0.runtime_id@ == p.runtime_id@
                &&& (r->0).0.artifact_path@ == p.artifact_path@
                &&& (r->0).0.vram_mb == p.vram_mb
                &&& (r->0).0.why@ == p.why@
                &&& same_profile((r->0).0.baseline, p.baseline)
                &&& texts((r->0).0.overridden_fields@) == changed
                &&& (r->0).1 == origin_of(changed)
            },
            None => r is None,
        },
{
    match provenance {
        Some(p) => {
            let overridden_fields = diff_fields(&p.baseline, edited);
            let q = Provenance { overridden_fields, ..p };
            let origin = origin_for(&q);
            Some((q, origin))
        },
        None => None,
    }
}

/// Copies a loadout under a new name. The name must be free and the source must
/// exist.
pub fn duplicate_profile(
    source: Option<&Profile>,
    target_exists: bool,
    source_name: &str,
    new_name: &str,
) -> (r: Result<Profile, String>)
    ensures
        target_exists ==> r is Err && r->Err_0@ == "a loadout named '"@ + new_name@
            + "' already exists"@,
        !target_exists && source is None ==> r is Err && r->Err_0@ == "no loadout named '"@
            + source_name@ + "'"@,
        !target_exists && source is Some ==> r is Ok && r->Ok_0.name@ == new_name@
            && same_but_name(r->Ok_0, *source->0),
{
    if target_exists {
        let mut e = owned("a loadout named '");
        e.append(new_name);
        e.append("' already exists");
        return Err(e);
    }
    match source {
        Some(p) => {
            let q = p.copy();
            Ok(Profile { name: owned(new_name), ..q })
        },
        None => {
            let mut e = owned("no loadout named '");
            e.append(source_name);
            e.append("'");
            Err(e)
        },
    }
}

/// The model is a local file or directory, which the index can have a row of.
pub open spec fn is_local(model: Seq<char>, exists_on_disk: bool) -> bool {
    has_prefix(model, "/"@) && exists_on_disk
}

/// A minimal row of the index: format and name of a local model.
#[derive(Debug, Clone, PartialEq, Eq)]
pub struct IndexRow {
    pub path: String,
    pub format: String,
    pub name: String,
}

/// The row that the index needs so that a loadout can be linked to its model;
/// none for a model that is not local.
pub fn ensure_model_indexed(model: &str, exists_on_disk: bool, is_dir: bool) -> (r: Option<IndexRow>)
    ensures
        is_local(model@, exists_on_disk) ==> r is Some && r->0.path@ == model@ && r->0.format@
            == format_tag(
            if is_dir {
                ModelFormat::SafetensorsDir
            } else {
                ModelFormat::Gguf
            },
        ) && r->0.name@ == match file_name(model@) {
            Some(n) => n,
            None => ""@,
        },
        !is_local(model@, exists_on_disk) ==> r is None,
{
    if !str_has_prefix(model, "/") || !exists_on_disk {
        return None;
    }
    let format = if is_dir {
        ModelFormat::SafetensorsDir.tag()
    } else {
        ModelFormat::Gguf.tag()
    };
    let name = match path_file_name(model) {
        Some(n) => n,
        None => owned(""),
    };
    Some(IndexRow { path: owned(model), format: owned(format), name })
}

/// Whether a loadout can be linked to a row at all: a draft without a model
/// cannot.
pub fn names_model(p: &Profile) -> (r: bool)
    ensures
        r == (trim(p.model@).len() > 0),
{
    !str_trim(p.model.as_str()).as_str().is_empty()
}

/// The first loadout of a model from the `i`-th on; of that name, where one is
/// asked for.
pub open spec fn loadout_from(
    profiles: Seq<Profile>,
    model: Seq<char>,
    name: Option<Seq<char>>,
    i: int,
) -> Option<int>
    decreases profiles.len() - i,
{
    if i < 0 || i >= profiles.len() {
        None
    } else if profiles[i].model@ == model && (name is None || profiles[i].name@ == name->0) {
        Some(i)
    } else {
        loadout_from(profiles, model, name, i + 1)
    }
}

/// The loadout of a model that the first of the residents from the `k`-th on is
/// bound to.
pub open spec fn bound_from(
    profiles: Seq<Profile>,
    residents: Seq<Resident>,
    model: Seq<char>,
    k: int,
) -> Option<int>
    decreases residents.len() - k,
{
    if k < 0 || k >= residents.len() {
        None
    } else {
        match loadout_from(profiles, model, Some(residents[k].profile@), 0) {
            Some(i) => Some(i),
            None => bound_from(profiles, residents, model, k + 1),
        }
    }
}

/// The loadout that a model runs as: the one that a slot is bound to, else the
/// first.
pub open spec fn current_of(profiles: Seq<Profile>, residents: Seq<Resident>, model: Seq<char>) -> Option<
    int,
> {
    match bound_from(profiles, residents, model, 0) {
        Some(i) => Some(i),
        None => loadout_from(profiles, model, None, 0),
    }
}

fn find_loadout(profiles: &Vec<Profile>, model: &str, name: Option<&str>) -> (r: Option<usize>)
    ensures
        match r {
            Some(i) => loadout_from(profiles@, model@, crate::text::opt_str(name), 0) == Some(
                i as int,
            ),
            None => loadout_from(profiles@, model@, crate::text::opt_str(name), 0) is None,
        },
{
    let ghost want = crate::text::opt_str(name);
    let mut i: usize = 0;
    while i < profiles.len()
        invariant
            want == crate::text::opt_str(name),
            i <= profiles@.len(),
            loadout_from(profiles@, model@, want, 0) == loadout_from(
                profiles@,
                model@,
                want,
                i as int,
            ),
        decreases profiles@.len() - i,
    {
        let fits = same(profiles[i].model.as_str(), model) && match name {
            Some(n) => same(profiles[i].name.as_str(), n),
            None => true,
        };
        if fits {
            return Some(i);
        }
        i = i + 1;
    }
    None
}

/// The position of the loadout that a model runs as.
pub fn current_profile_for_model(
    profiles: &Vec<Profile>,
    residents: &Vec<Resident>,
    model: &str,
) -> (r: Option<usize>)
    ensures
        match r {
            Some(i) => current_of(profiles@, residents@, model@) == Some(i as int),
            None => current_of(profiles@, residents@, model@) is None,
        },
{
    let mut k: usize = 0;
    while k < residents.len()
        invariant
            k <= residents@.len(),
            bound_from(profiles@, residents@, model@, 0) == bound_from(
                profiles@,
                residents@,
                model@,
                k as int,
            ),
        decreases residents@.len() - k,
    {
        match find_loadout(profiles, model, Some(residents[k].profile.as_str())) {
            Some(i) => {
                return Some(i);
            },
            None => {},
        }
        k = k + 1;
    }
    find_loadout(profiles, model, None)
}

/// An edit that changes nothing leaves a loadout automatic, and any other makes
/// it an override.
pub proof fn law_override_means_changed(baseline: Profile, edited: Profile)
    ensures
        origin_of(marked_upto(field_marks(baseline, edited), 32)) == ConfigOrigin::Auto
            <==> same_profile(baseline, edited),
{
    crate::library::law_no_diff_means_same(baseline, edited);
}

} // verus!
