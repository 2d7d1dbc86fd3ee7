//! Mirrors the deck's canonical model into the configuration of opencode.
//!
//! The deck's profiles are the inventory; the configuration is a view of it.
//! Its model, its small model and the model of its generalist agent follow the
//! profile that the deck considers resident.
use vstd::prelude::*;
use vstd::string::StringExecFns;

use crate::engines::backup::{add_write, file_steps, write_steps, FileStep};
use crate::json::{
    find_member, find_text, json_reading, json_view, lemma_members, member, member_views, opt_get,
    opt_json_text, opt_view, parse_json, pretty_json, pretty_text, Json, JsonView,
};
use crate::profile::{engine_id, Profile};
use crate::text::{
    join, join_texts, lex_below, opt_str, opt_text, owned, same, str_lex_below, texts,
};

verus! {

/// The name under which a profile's model is known to opencode.
pub open spec fn model_id_of(p: Profile) -> Seq<char> {
    engine_id(p.engine) + "/"@ + p.alias@
}

/// The canonical model: that of the active profile, else of the first, else a
/// fallback.
pub open spec fn canonical_model(active: Option<&Profile>, profiles: Seq<Profile>) -> Seq<char> {
    match active {
        Some(p) => model_id_of(*p),
        None => if profiles.len() > 0 {
            model_id_of(profiles[0])
        } else {
            "ollama/qwen3.8:27b"@
        },
    }
}

fn model_id(p: &Profile) -> (r: String)
    ensures
        r@ == model_id_of(*p),
{
    let mut r = owned(p.engine.store_id());
    r.append("/");
    r.append(p.alias.as_str());
    r
}

/// The canonical model of the deck.
pub fn deck_canonical_model(active: Option<&Profile>, profiles: &Vec<Profile>) -> (r: String)
    ensures
        r@ == canonical_model(active, profiles@),
{
    match active {
        Some(p) => model_id(p),
        None => {
            if profiles.len() > 0 {
                model_id(&profiles[0])
            } else {
                owned("ollama/qwen3.8:27b")
            }
        },
    }
}

/// The members of an object.
pub type Members = Seq<(Seq<char>, JsonView)>;

/// The members with the value of the first one of a name replaced.
pub open spec fn replaced(m: Members, key: Seq<char>, v: JsonView) -> Members
    decreases m.len(),
{
    if m.len() == 0 {
        m
    } else if m[0].0 == key {
        seq![(key, v)] + m.drop_first()
    } else {
        seq![m[0]] + replaced(m.drop_first(), key, v)
    }
}

/// The members with a new one before the first whose name stands behind it.
pub open spec fn inserted(m: Members, key: Seq<char>, v: JsonView) -> Members
    decreases m.len(),
{
    if m.len() == 0 {
        seq![(key, v)]
    } else if lex_below(key, m[0].0) {
        seq![(key, v)] + m
    } else {
        seq![m[0]] + inserted(m.drop_first(), key, v)
    }
}

/// The members with one of them set.
pub open spec fn with_member(m: Members, key: Seq<char>, v: JsonView) -> Members {
    if member(m, key) is Some {
        replaced(m, key, v)
    } else {
        inserted(m, key, v)
    }
}

/// The position of the first member of a name.
pub open spec fn member_at(m: Members, key: Seq<char>, i: int) -> bool {
    0 <= i < m.len() && m[i].0 == key && forall|j: int| 0 <= j < i ==> (#[trigger] m[j]).0 != key
}

proof fn lemma_replaced(m: Members, key: Seq<char>, v: JsonView, i: int)
    requires
        member_at(m, key, i),
    ensures
        member(m, key) == Some(m[i].1),
        replaced(m, key, v) == m.update(i, (key, v)),
    decreases m.len(),
{
    if i > 0 {
        assert(m[0].0 != key);
        let rest = m.drop_first();
        assert forall|j: int| 0 <= j < i - 1 implies (#[trigger] rest[j]).0 != key by {
            assert(m[j + 1].0 != key);
        }
        lemma_replaced(rest, key, v, i - 1);
        assert(replaced(m, key, v) =~= m.update(i, (key, v)));
    } else {
        assert(replaced(m, key, v) =~= m.update(i, (key, v)));
    }
}

proof fn lemma_no_member(m: Members, key: Seq<char>)
    requires
        forall|j: int| 0 <= j < m.len() ==> (#[trigger] m[j]).0 != key,
    ensures
        member(m, key) is None,
    decreases m.len(),
{
    if m.len() > 0 {
        assert(m[0].0 != key);
        assert forall|j: int| 0 <= j < m.drop_first().len() implies (
        #[trigger] m.drop_first()[j]).0 != key by {
            assert(m[j + 1].0 != key);
        }
        lemma_no_member(m.drop_first(), key);
    }
}

proof fn lemma_inserted(m: Members, key: Seq<char>, v: JsonView, i: int)
    requires
        0 <= i <= m.len(),
        forall|j: int| 0 <= j < i ==> !lex_below(key, (#[trigger] m[j]).0),
        i < m.len() ==> lex_below(key, m[i].0),
    ensures
        inserted(m, key, v) == m.insert(i, (key, v)),
    decreases m.len(),
{
    if m.len() == 0 {
        assert(inserted(m, key, v) =~= m.insert(i, (key, v)));
    } else if i > 0 {
        assert(!lex_below(key, m[0].0));
        let rest = m.drop_first();
        assert forall|j: int| 0 <= j < i - 1 implies !lex_below(key, (#[trigger] rest[j]).0) by {
            assert(!lex_below(key, m[j + 1].0));
        }
        lemma_inserted(rest, key, v, i - 1);
        assert(inserted(m, key, v) =~= m.insert(i, (key, v)));
    } else {
        assert(inserted(m, key, v) =~= m.insert(i, (key, v)));
    }
}

/// A member that was set has its value, and the others keep theirs.
pub proof fn law_set_member_is_there(m: Members, key: Seq<char>, v: JsonView, other: Seq<char>)
    ensures
        member(with_member(m, key, v), key) == Some(v),
        other != key ==> member(with_member(m, key, v), other) == member(m, other),
{
    if member(m, key) is Some {
        lemma_set_replaced(m, key, v, other);
    } else {
        lemma_set_inserted(m, key, v, other);
    }
}

proof fn lemma_set_replaced(m: Members, key: Seq<char>, v: JsonView, other: Seq<char>)
    requires
        member(m, key) is Some,
    ensures
        member(replaced(m, key, v), key) == Some(v),
        other != key ==> member(replaced(m, key, v), other) == member(m, other),
        member(m, key) == Some(v) ==> replaced(m, key, v) == m,
    decreases m.len(),
{
    if m[0].0 != key {
        lemma_set_replaced(m.drop_first(), key, v, other);
        assert(replaced(m, key, v).drop_first() =~= replaced(m.drop_first(), key, v));
        if member(m, key) == Some(v) {
            assert(replaced(m, key, v) =~= m);
        }
    } else {
        assert(replaced(m, key, v).drop_first() =~= m.drop_first());
        if member(m, key) == Some(v) {
            assert(replaced(m, key, v) =~= m);
        }
    }
}

proof fn lemma_set_inserted(m: Members, key: Seq<char>, v: JsonView, other: Seq<char>)
    requires
        member(m, key) is None,
    ensures
        member(inserted(m, key, v), key) == Some(v),
        other != key ==> member(inserted(m, key, v), other) == member(m, other),
    decreases m.len(),
{
    if m.len() > 0 && !lex_below(key, m[0].0) {
        lemma_set_inserted(m.drop_first(), key, v, other);
        assert(inserted(m, key, v).drop_first() =~= inserted(m.drop_first(), key, v));
    } else {
        assert(inserted(m, key, v).drop_first() =~= m);
    }
}

/// Setting a member to the value that it has changes nothing, and setting it
/// to another changes something.
proof fn lemma_set_same(m: Members, key: Seq<char>, v: JsonView)
    ensures
        with_member(m, key, v) == m <==> member(m, key) == Some(v),
{
    law_set_member_is_there(m, key, v, key);
    if member(m, key) is Some {
        lemma_set_replaced(m, key, v, key);
    }
}

/// The members of the generalist agent, where it is an object.
pub open spec fn generalist(m: Members) -> Option<(Members, Members)> {
    match member(m, "agent"@) {
        Some(JsonView::Object(a)) => match member(a, "generalist"@) {
            Some(JsonView::Object(g)) => Some((a, g)),
            _ => None,
        },
        _ => None,
    }
}

/// The configuration's members with every model set to the canonical one.
pub open spec fn mirrored(m: Members, model: Seq<char>) -> Members {
    let v = JsonView::Str(model);
    let top = with_member(with_member(m, "model"@, v), "small_model"@, v);
    match generalist(top) {
        Some((a, g)) => with_member(
            top,
            "agent"@,
            JsonView::Object(
                with_member(a, "generalist"@, JsonView::Object(with_member(g, "model"@, v))),
            ),
        ),
        None => top,
    }
}

fn find_at(m: &Vec<(String, Json)>, key: &str) -> (r: Option<usize>)
    ensures
        match r {
            Some(i) => member_at(member_views(m@), key@, i as int) && i < m@.len(),
            None => member(member_views(m@), key@) is None,
        },
{
    let ghost all = member_views(m@);
    proof {
        lemma_members(m@);
    }
    let mut i: usize = 0;
    while i < m.len()
        invariant
            all == member_views(m@),
            all.len() == m@.len(),
            forall|k: int|
                0 <= k < m@.len() ==> #[trigger] all[k] == (m@[k].0@, json_view(m@[k].1)),
            i <= m@.len(),
            forall|j: int| 0 <= j < i ==> (#[trigger] all[j]).0 != key@,
        decreases m@.len() - i,
    {
        assert(all[i as int] == (m@[i as int].0@, json_view(m@[i as int].1)));
        if same(m[i].0.as_str(), key) {
            return Some(i);
        }
        i = i + 1;
    }
    proof {
        lemma_no_member(all, key@);
    }
    None
}

/// Sets a member of an object.
pub fn set_member(m: &mut Vec<(String, Json)>, key: &str, v: Json)
    ensures
        member_views(final(m)@) == with_member(member_views(old(m)@), key@, v@),
{
    let ghost before = member_views(m@);
    let ghost old_m = m@;
    proof {
        lemma_members(old_m);
    }
    match find_at(m, key) {
        Some(i) => {
            proof {
                lemma_replaced(before, key@, v@, i as int);
            }
            m.set(i, (owned(key), v));
            proof {
                lemma_members(m@);
                assert(member_views(m@) =~= before.update(i as int, (key@, v@)));
            }
        },
        None => {
            let mut i: usize = 0;
            while i < m.len() && !str_lex_below(key, m[i].0.as_str())
                invariant
                    m@ == old_m,
                    before == member_views(m@),
                    before.len() == m@.len(),
                    forall|k: int|
                        0 <= k < m@.len() ==> #[trigger] before[k] == (
                            m@[k].0@,
                            json_view(m@[k].1),
                        ),
                    i <= m@.len(),
                    forall|j: int| 0 <= j < i ==> !lex_below(key@, (#[trigger] before[j]).0),
                decreases m@.len() - i,
            {
                assert(before[i as int] == (m@[i as int].0@, json_view(m@[i as int].1)));
                i = i + 1;
            }
            proof {
                if i < m@.len() {
                    assert(before[i as int] == (m@[i as int].0@, json_view(m@[i as int].1)));
                }
                lemma_inserted(before, key@, v@, i as int);
            }
            m.insert(i, (owned(key), v));
            proof {
                lemma_members(m@);
                assert(member_views(m@) =~= before.insert(i as int, (key@, v@)));
            }
        },
    }
}

/// What a member's value becomes: the generalist's model is set in it.
pub open spec fn agent_set(agent: JsonView, model: Seq<char>) -> JsonView {
    match agent {
        JsonView::Object(a) => match member(a, "generalist"@) {
            Some(JsonView::Object(g)) => JsonView::Object(
                with_member(
                    a,
                    "generalist"@,
                    JsonView::Object(with_member(g, "model"@, JsonView::Str(model))),
                ),
            ),
            _ => agent,
        },
        _ => agent,
    }
}

fn set_generalist(agent: Json, model: &str) -> (r: Json)
    ensures
        r@ == agent_set(agent@, model@),
{
    match agent {
        Json::Object(mut a) => {
            let ghost before = member_views(a@);
            match find_at(&a, "generalist") {
                Some(i) => {
                    proof {
                        lemma_members(a@);
                    }
                    let ghost old_a = a@;
                    let (k, g) = a.remove(i);
                    match g {
                        Json::Object(mut g) => {
                            set_member(&mut g, "model", Json::Str(owned(model)));
                            let ghost v = JsonView::Object(member_views(g@));
                            a.insert(i, (k, Json::Object(g)));
                            proof {
                                lemma_members(a@);
                                lemma_replaced(before, "generalist"@, v, i as int);
                                assert(member_views(a@) =~= before.update(
                                    i as int,
                                    ("generalist"@, v),
                                ));
                            }
                            Json::Object(a)
                        },
                        other => {
                            a.insert(i, (k, other));
                            proof {
                                lemma_replaced(before, "generalist"@, JsonView::Null, i as int);
                                assert(a@ =~= old_a);
                            }
                            Json::Object(a)
                        },
                    }
                },
                None => Json::Object(a),
            }
        },
        other => other,
    }
}

/// Mirrors the canonical model into the members of a configuration.
pub fn mirror(m: &mut Vec<(String, Json)>, model: &str)
    ensures
        member_views(final(m)@) == mirrored(member_views(old(m)@), model@),
{
    set_member(m, "model", Json::Str(owned(model)));
    set_member(m, "small_model", Json::Str(owned(model)));
    let ghost top = member_views(m@);
    proof {
        lemma_members(m@);
    }
    match find_at(m, "agent") {
        Some(i) => {
            let ghost before = m@;
            let (k, agent) = m.remove(i);
            let ghost was = agent@;
            let set = set_generalist(agent, model);
            let ghost now = set@;
            m.insert(i, (k, set));
            proof {
                lemma_members(m@);
                lemma_replaced(top, "agent"@, now, i as int);
                assert(member_views(m@) =~= top.update(i as int, ("agent"@, now)));
                assert(member(top, "agent"@) == Some(was));
                if generalist(top) is None {
                    assert(now == was);
                    lemma_set_replaced(top, "agent"@, was, "agent"@);
                }
            }
        },
        None => {},
    }
}

/// The configuration already mirrors the canonical model.
pub open spec fn is_mirrored(m: Members, model: Seq<char>) -> bool {
    &&& member(m, "model"@) == Some(JsonView::Str(model))
    &&& member(m, "small_model"@) == Some(JsonView::Str(model))
    &&& match generalist(m) {
        Some((_, g)) => member(g, "model"@) == Some(JsonView::Str(model)),
        None => true,
    }
}

/// Mirroring changes nothing exactly where the configuration mirrors the model
/// already; in particular mirroring twice is mirroring once.
pub proof fn law_mirror_changes_only_what_differs(m: Members, model: Seq<char>)
    ensures
        mirrored(m, model) == m <==> is_mirrored(m, model),
        is_mirrored(mirrored(m, model), model),
        mirrored(mirrored(m, model), model) == mirrored(m, model),
{
    lemma_mirrored(m, model);
    let r = mirrored(m, model);
    lemma_already(r, model);
    if is_mirrored(m, model) {
        lemma_already(m, model);
    }
}

proof fn lemma_already(m: Members, model: Seq<char>)
    requires
        is_mirrored(m, model),
    ensures
        mirrored(m, model) == m,
{
    let v = JsonView::Str(model);
    lemma_set_same(m, "model"@, v);
    lemma_set_same(m, "small_model"@, v);
    match generalist(m) {
        Some((a, g)) => {
            lemma_set_same(g, "model"@, v);
            lemma_set_same(a, "generalist"@, JsonView::Object(g));
            lemma_set_same(m, "agent"@, JsonView::Object(a));
        },
        None => {},
    }
}

proof fn lemma_mirrored(m: Members, model: Seq<char>)
    ensures
        is_mirrored(mirrored(m, model), model),
{
    let v = JsonView::Str(model);
    let one = with_member(m, "model"@, v);
    let top = with_member(one, "small_model"@, v);
    reveal_strlit("model");
    reveal_strlit("small_model");
    reveal_strlit("agent");
    assert("model"@.len() == 5 && "agent"@.len() == 5 && "small_model"@.len() == 11);
    assert("model"@[0] == 'm' && "agent"@[0] == 'a');
    law_set_member_is_there(m, "model"@, v, "model"@);
    law_set_member_is_there(one, "small_model"@, v, "model"@);
    match generalist(top) {
        Some((a, g)) => {
            let g2 = with_member(g, "model"@, v);
            let a2 = with_member(a, "generalist"@, JsonView::Object(g2));
            law_set_member_is_there(g, "model"@, v, "model"@);
            law_set_member_is_there(a, "generalist"@, JsonView::Object(g2), "generalist"@);
            law_set_member_is_there(top, "agent"@, JsonView::Object(a2), "model"@);
            law_set_member_is_there(top, "agent"@, JsonView::Object(a2), "small_model"@);
        },
        None => {},
    }
}

/// A text, or what is shown where there is none.
pub open spec fn or_missing(s: Option<Seq<char>>) -> Seq<char> {
    match s {
        Some(t) => t,
        None => "(missing)"@,
    }
}

/// The generalist's model in a configuration.
pub open spec fn generalist_model(j: JsonView) -> Option<Seq<char>> {
    opt_json_text(opt_get(opt_get(j.get("agent"@), "generalist"@), "model"@))
}

/// What a sync reports of the change.
pub open spec fn change_report(m: Members, model: Seq<char>) -> Seq<char> {
    if is_mirrored(m, model) {
        "opencode.json already mirrors deck → "@ + model + " (no change)"@
    } else {
        let before = or_missing(opt_json_text(member(m, "model"@)));
        let before_agent = or_missing(generalist_model(JsonView::Object(m)));
        let after_agent = match generalist_model(JsonView::Object(mirrored(m, model))) {
            Some(t) => t,
            None => ""@,
        };
        let first = seq!["deck canonical → "@ + model];
        let second = if before != model {
            first.push("model: "@ + before + " → "@ + model)
        } else {
            first
        };
        let third = if before_agent != after_agent {
            second.push("agent.generalist.model: "@ + before_agent + " → "@ + after_agent)
        } else {
            second
        };
        join(third, "\n"@)
    }
}

/// What a sync says, and what it writes, in order.
#[derive(Debug, PartialEq)]
pub struct SyncPlan {
    pub message: String,
    pub steps: Vec<FileStep>,
}

/// The content of a configuration file.
pub open spec fn config_text(config: JsonView) -> Seq<char> {
    pretty_text(config) + "\n"@
}

/// What a sync says.
pub open spec fn sync_message(m: Members, model: Seq<char>, write: bool, path: Seq<char>) -> Seq<
    char,
> {
    if write && !is_mirrored(m, model) {
        change_report(m, model) + "\nwrote "@ + path
    } else if write {
        change_report(m, model)
    } else {
        change_report(m, model) + "\n(dry-run: add --write to write "@ + path + ")"@
    }
}

fn is_text(j: Option<&Json>, s: &str) -> (r: bool)
    ensures
        r == (opt_view(j) == Some(JsonView::Str(s@))),
{
    match j {
        Some(Json::Str(t)) => same(t.as_str(), s),
        _ => false,
    }
}

fn already(config: &Json, model: &str) -> (r: bool)
    requires
        config@ is Object,
    ensures
        r == is_mirrored(config@->Object_0, model@),
{
    let general = find_member(config.get("agent"), "generalist");
    let agent_ok = match general {
        Some(g) => match g {
            Json::Object(_) => is_text(g.get("model"), model),
            _ => true,
        },
        None => true,
    };
    is_text(config.get("model"), model) && is_text(config.get("small_model"), model) && agent_ok
}

fn text_or_missing(s: Option<String>) -> (r: String)
    ensures
        r@ == or_missing(opt_text(s)),
{
    match s {
        Some(t) => t,
        None => owned("(missing)"),
    }
}

fn agent_model(config: &Json) -> (r: Option<String>)
    ensures
        opt_text(r) == generalist_model(config@),
{
    find_text(find_member(find_member(config.get("agent"), "generalist"), "model"))
}

fn report_change(before: &Json, after: &Json, model: &str) -> (r: String)
    requires
        before@ is Object,
        after@ == JsonView::Object(mirrored(before@->Object_0, model@)),
    ensures
        r@ == change_report(before@->Object_0, model@),
{
    if already(before, model) {
        let mut r = owned("opencode.json already mirrors deck → ");
        r.append(model);
        r.append(" (no change)");
        return r;
    }
    let mut lines: Vec<String> = Vec::new();
    let mut l = owned("deck canonical → ");
    l.append(model);
    lines.push(l);
    let ghost first = seq!["deck canonical → "@ + model@];
    assert(texts(lines@) =~= first);
    let was = text_or_missing(find_text(before.get("model")));
    if !same(was.as_str(), model) {
        let mut l = owned("model: ");
        l.append(was.as_str());
        l.append(" → ");
        l.append(model);
        lines.push(l);
        assert(texts(lines@) =~= first.push(l@));
    }
    let ghost second = texts(lines@);
    let was_agent = text_or_missing(agent_model(before));
    let is_agent = match agent_model(after) {
        Some(t) => t,
        None => owned(""),
    };
    if !same(was_agent.as_str(), is_agent.as_str()) {
        let mut l = owned("agent.generalist.model: ");
        l.append(was_agent.as_str());
        l.append(" → ");
        l.append(is_agent.as_str());
        lines.push(l);
        assert(texts(lines@) =~= second.push(l@));
    }
    join_texts(&lines, "\n")
}

/// The text of the configuration; an empty object where there is none.
pub open spec fn config_reading(text: Option<Seq<char>>) -> Result<JsonView, Seq<char>> {
    match text {
        Some(t) => json_reading(t),
        None => Ok(JsonView::Object(Seq::empty())),
    }
}

fn read_config(text: Option<&str>) -> (r: Result<Json, String>)
    ensures
        match config_reading(opt_str(text)) {
            Ok(j) => r is Ok && r->Ok_0@ == j,
            Err(e) => r is Err && r->Err_0@ == e,
        },
{
    match text {
        Some(t) => parse_json(t),
        None => {
            let empty = Json::Object(Vec::new());
            assert(empty@ == JsonView::Object(member_views(Seq::empty())));
            assert(member_views(Seq::<(String, Json)>::empty()) =~= Seq::<
                (Seq<char>, JsonView),
            >::empty());
            Ok(empty)
        },
    }
}

/// Plans a sync of the configuration at `path`, of which `text` is the content
/// where it exists. A backup carries the time `ts` in its name.
pub fn sync_opencode(
    text: Option<&str>,
    model: &str,
    write: bool,
    path: &str,
    ts: &str,
) -> (r: Result<SyncPlan, String>)
    ensures
        match config_reading(opt_str(text)) {
            Ok(JsonView::Object(m)) => r is Ok && r->Ok_0.message@ == sync_message(
                m,
                model@,
                write,
                path@,
            ) && if write && !is_mirrored(m, model@) {
                file_steps(r->Ok_0.steps@) == write_steps(
                    path@,
                    config_text(JsonView::Object(mirrored(m, model@))),
                    text is Some,
                    ts@,
                )
            } else {
                r->Ok_0.steps@.len() == 0
            },
            Ok(_) => r is Err && r->Err_0@ == "opencode.json is not an object"@,
            Err(_) => r is Err && r->Err_0@ == "parse "@ + path@,
        },
{
    let before = match read_config(text) {
        Ok(j) => j,
        Err(_) => {
            let mut e = owned("parse ");
            e.append(path);
            return Err(e);
        },
    };
    let after = match read_config(text) {
        Ok(Json::Object(mut m)) => {
            mirror(&mut m, model);
            Json::Object(m)
        },
        _ => {
            return Err(owned("opencode.json is not an object"));
        },
    };
    let mut message = report_change(&before, &after, model);
    let mut steps: Vec<FileStep> = Vec::new();
    if write {
        if !already(&before, model) {
            message.append("\nwrote ");
            message.append(path);
            let mut content = pretty_json(&after);
            content.append("\n");
            let ghost written = write_steps(path@, content@, text is Some, ts@);
            add_write(&mut steps, owned(path), content, text.is_some(), ts);
            assert(file_steps(steps@) =~= written);
        }
    } else {
        message.append("\n(dry-run: add --write to write ");
        message.append(path);
        message.append(")");
    }
    Ok(SyncPlan { message, steps })
}

} // verus!
