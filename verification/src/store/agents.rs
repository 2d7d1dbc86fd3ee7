//! Settings of the agent fleet: bindings of harnesses and quotas of providers.
//! Both live in the settings, and so does their history.
use vstd::prelude::*;
use vstd::string::StringExecFns;

use crate::json::json_reading;
use crate::store::settings::{set_change, settings_set, SettingChange};
use crate::text::{has_prefix, opt_str, owned, str_has_prefix};

verus! {

/// The key of a provider's quota.
pub open spec fn quota_key_of(provider: Seq<char>) -> Seq<char> {
    "agents.quota."@ + provider
}

/// The key of a provider's quota.
pub fn quota_key(provider_id: &str) -> (r: String)
    ensures
        r@ == quota_key_of(provider_id@),
{
    let mut r = owned("agents.quota.");
    r.append(provider_id);
    r
}

/// Binds a harness to a provider and a model.
pub fn set_harness_binding(harness_key: &str, binding_json: &str, old: Option<&str>, now: i64) -> (r:
    Result<SettingChange, String>)
    ensures
        json_reading(binding_json@) is Ok ==> r is Ok && r->Ok_0@ == set_change(
            harness_key@,
            binding_json@,
            "deck-agents"@,
            "harness binding"@,
            opt_str(old),
            now,
        ),
        json_reading(binding_json@) is Err ==> r is Err && r->Err_0@
            == "value must be valid JSON"@,
{
    settings_set(harness_key, binding_json, "deck-agents", "harness binding", old, now)
}

/// Sets the quota of a provider.
pub fn set_quota(provider_id: &str, quota_json: &str, old: Option<&str>, now: i64) -> (r: Result<
    SettingChange,
    String,
>)
    ensures
        json_reading(quota_json@) is Ok ==> r is Ok && r->Ok_0@ == set_change(
            quota_key_of(provider_id@),
            quota_json@,
            "deck-agents"@,
            "quota update"@,
            opt_str(old),
            now,
        ),
        json_reading(quota_json@) is Err ==> r is Err && r->Err_0@ == "value must be valid JSON"@,
{
    let key = quota_key(provider_id);
    settings_set(key.as_str(), quota_json, "deck-agents", "quota update", old, now)
}

/// A setting: its key, its value and when it was set.
pub type Setting = (String, String, i64);

/// The quotas among the first `n` settings.
pub open spec fn quotas_upto(all: Seq<Setting>, n: int) -> Seq<(Seq<char>, Seq<char>)>
    decreases n,
{
    if n <= 0 {
        Seq::empty()
    } else if has_prefix(all[n - 1].0@, "agents.quota."@) {
        quotas_upto(all, n - 1).push((all[n - 1].0@, all[n - 1].1@))
    } else {
        quotas_upto(all, n - 1)
    }
}

/// The quotas among the settings.
pub fn list_quota(all: &Vec<Setting>) -> (r: Vec<(String, String)>)
    ensures
        crate::params::pair_texts(r@) == quotas_upto(all@, all@.len() as int),
{
    let mut r: Vec<(String, String)> = Vec::new();
    let mut i: usize = 0;
    assert(crate::params::pair_texts(r@) =~= quotas_upto(all@, 0));
    while i < all.len()
        invariant
            i <= all@.len(),
            crate::params::pair_texts(r@) == quotas_upto(all@, i as int),
        decreases all@.len() - i,
    {
        let ghost before = crate::params::pair_texts(r@);
        if str_has_prefix(all[i].0.as_str(), "agents.quota.") {
            r.push((owned(all[i].0.as_str()), owned(all[i].1.as_str())));
            assert(crate::params::pair_texts(r@) =~= before.push(
                (all@[i as int].0@, all@[i as int].1@),
            ));
        }
        i = i + 1;
    }
    r
}

} // verus!
