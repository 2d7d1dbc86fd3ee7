//! JSON documents: a tree that the deck can read, the reading of a text into
//! it, and the writing of strings.
use vstd::prelude::*;
use vstd::string::StringExecFns;

use crate::gguf::hex_digit;
use crate::text::{join, opt_text, owned, same, texts};

verus! {

/// A JSON number: what it is as an unsigned and a signed integer, where it is
/// one, and as a double by its bit pattern.
#[derive(Debug, Clone, Copy, PartialEq, Eq, Structural)]
pub struct JsonNumber {
    pub unsigned: Option<u64>,
    pub signed: Option<i64>,
    pub double: Option<u64>,
}

/// A number of a document, and `serde_json`'s own form of it, by which it is
/// written again. One comes about only by reading.
#[derive(Debug, PartialEq)]
pub struct JsonNumeral {
    value: JsonNumber,
    raw: serde_json::Number,
}

impl JsonNumeral {
    /// What the number is.
    pub closed spec fn says(self) -> JsonNumber {
        self.value
    }
}

/// A JSON value.
#[derive(Debug, PartialEq)]
pub enum Json {
    Null,
    Bool(bool),
    Number(JsonNumeral),
    Str(String),
    Array(Vec<Json>),
    Object(Vec<(String, Json)>),
}

/// What a JSON value says.
pub enum JsonView {
    Null,
    Bool(bool),
    Number(JsonNumber),
    Str(Seq<char>),
    Array(Seq<JsonView>),
    Object(Seq<(Seq<char>, JsonView)>),
}

/// What a JSON value says.
pub open spec fn json_view(j: Json) -> JsonView
    decreases j,
{
    match j {
        Json::Null => JsonView::Null,
        Json::Bool(b) => JsonView::Bool(b),
        Json::Number(n) => JsonView::Number(n.says()),
        Json::Str(s) => JsonView::Str(s@),
        Json::Array(v) => JsonView::Array(item_views(v@)),
        Json::Object(v) => JsonView::Object(member_views(v@)),
    }
}

/// What the items of an array say.
pub open spec fn item_views(v: Seq<Json>) -> Seq<JsonView>
    decreases v,
{
    if v.len() == 0 {
        Seq::empty()
    } else {
        item_views(v.drop_last()).push(json_view(v.last()))
    }
}

/// What the members of an object say.
pub open spec fn member_views(v: Seq<(String, Json)>) -> Seq<(Seq<char>, JsonView)>
    decreases v,
{
    if v.len() == 0 {
        Seq::empty()
    } else {
        member_views(v.drop_last()).push((v.last().0@, json_view(v.last().1)))
    }
}

impl View for Json {
    type V = JsonView;

    open spec fn view(&self) -> JsonView {
        json_view(*self)
    }
}

pub proof fn lemma_items(v: Seq<Json>)
    ensures
        item_views(v).len() == v.len(),
        forall|i: int| 0 <= i < v.len() ==> #[trigger] item_views(v)[i] == json_view(v[i]),
    decreases v.len(),
{
    if v.len() > 0 {
        lemma_items(v.drop_last());
    }
}

pub proof fn lemma_members(v: Seq<(String, Json)>)
    ensures
        member_views(v).len() == v.len(),
        forall|i: int|
            0 <= i < v.len() ==> #[trigger] member_views(v)[i] == (v[i].0@, json_view(v[i].1)),
    decreases v.len(),
{
    if v.len() > 0 {
        lemma_members(v.drop_last());
    }
}

/// The value of the first member with a name.
pub open spec fn member(m: Seq<(Seq<char>, JsonView)>, key: Seq<char>) -> Option<JsonView>
    decreases m.len(),
{
    if m.len() == 0 {
        None
    } else if m[0].0 == key {
        Some(m[0].1)
    } else {
        member(m.drop_first(), key)
    }
}

impl JsonView {
    /// The member of an object.
    pub open spec fn get(self, key: Seq<char>) -> Option<JsonView> {
        match self {
            JsonView::Object(m) => member(m, key),
            _ => None,
        }
    }

    /// The item of an array.
    pub open spec fn at(self, i: int) -> Option<JsonView> {
        match self {
            JsonView::Array(v) => if 0 <= i < v.len() {
                Some(v[i])
            } else {
                None
            },
            _ => None,
        }
    }

    pub open spec fn text(self) -> Option<Seq<char>> {
        match self {
            JsonView::Str(s) => Some(s),
            _ => None,
        }
    }

    pub open spec fn unsigned(self) -> Option<u64> {
        match self {
            JsonView::Number(n) => n.unsigned,
            _ => None,
        }
    }

    pub open spec fn double(self) -> Option<u64> {
        match self {
            JsonView::Number(n) => n.double,
            _ => None,
        }
    }
}

/// A member of an optional value.
pub open spec fn opt_get(j: Option<JsonView>, key: Seq<char>) -> Option<JsonView> {
    match j {
        Some(v) => v.get(key),
        None => None,
    }
}

/// An item of an optional value.
pub open spec fn opt_at(j: Option<JsonView>, i: int) -> Option<JsonView> {
    match j {
        Some(v) => v.at(i),
        None => None,
    }
}

pub open spec fn opt_json_text(j: Option<JsonView>) -> Option<Seq<char>> {
    match j {
        Some(v) => v.text(),
        None => None,
    }
}

pub open spec fn opt_unsigned(j: Option<JsonView>) -> Option<u64> {
    match j {
        Some(v) => v.unsigned(),
        None => None,
    }
}

pub open spec fn opt_double(j: Option<JsonView>) -> Option<u64> {
    match j {
        Some(v) => v.double(),
        None => None,
    }
}

/// What an optional reference to a value says.
pub open spec fn opt_view(j: Option<&Json>) -> Option<JsonView> {
    match j {
        Some(v) => Some(json_view(*v)),
        None => None,
    }
}

impl Json {
    /// The member of an object.
    pub fn get(&self, key: &str) -> (r: Option<&Json>)
        ensures
            opt_view(r) == self@.get(key@),
    {
        match self {
            Json::Object(m) => {
                let ghost all = member_views(m@);
                proof {
                    lemma_members(m@);
                    assert(all.skip(0) =~= all);
                }
                let mut i: usize = 0;
                while i < m.len()
                    invariant
                        all == member_views(m@),
                        self@ == JsonView::Object(all),
                        all.len() == m@.len(),
                        forall|k: int|
                            0 <= k < m@.len() ==> #[trigger] all[k] == (
                                m@[k].0@,
                                json_view(m@[k].1),
                            ),
                        i <= m@.len(),
                        member(all, key@) == member(all.skip(i as int), key@),
                    decreases m@.len() - i,
                {
                    assert(all.skip(i as int)[0] == all[i as int]);
                    assert(all.skip(i as int).drop_first() =~= all.skip(i + 1));
                    if same(m[i].0.as_str(), key) {
                        return Some(&m[i].1);
                    }
                    i = i + 1;
                }
                None
            },
            _ => None,
        }
    }

    /// The item of an array.
    pub fn at(&self, i: usize) -> (r: Option<&Json>)
        ensures
            opt_view(r) == self@.at(i as int),
    {
        match self {
            Json::Array(v) => {
                proof {
                    lemma_items(v@);
                }
                if i < v.len() {
                    Some(&v[i])
                } else {
                    None
                }
            },
            _ => None,
        }
    }

    pub fn as_text(&self) -> (r: Option<&str>)
        ensures
            crate::text::opt_str(r) == self@.text(),
    {
        match self {
            Json::Str(s) => Some(s.as_str()),
            _ => None,
        }
    }

    pub fn as_u64(&self) -> (r: Option<u64>)
        ensures
            r == self@.unsigned(),
    {
        match self {
            Json::Number(n) => n.value.unsigned,
            _ => None,
        }
    }

    /// The double, by its bit pattern.
    pub fn as_double(&self) -> (r: Option<u64>)
        ensures
            r == self@.double(),
    {
        match self {
            Json::Number(n) => n.value.double,
            _ => None,
        }
    }
}

/// A member of an optional value.
pub fn find_member<'a>(j: Option<&'a Json>, key: &str) -> (r: Option<&'a Json>)
    ensures
        opt_view(r) == opt_get(opt_view(j), key@),
{
    match j {
        Some(v) => v.get(key),
        None => None,
    }
}

/// An item of an optional value.
pub fn find_item<'a>(j: Option<&'a Json>, i: usize) -> (r: Option<&'a Json>)
    ensures
        opt_view(r) == opt_at(opt_view(j), i as int),
{
    match j {
        Some(v) => v.at(i),
        None => None,
    }
}

/// The text of an optional value.
pub fn find_text(j: Option<&Json>) -> (r: Option<String>)
    ensures
        opt_text(r) == opt_json_text(opt_view(j)),
{
    match j {
        Some(v) => match v.as_text() {
            Some(s) => Some(owned(s)),
            None => None,
        },
        None => None,
    }
}

/// The unsigned integer of an optional value.
pub fn find_u64(j: Option<&Json>) -> (r: Option<u64>)
    ensures
        r == opt_unsigned(opt_view(j)),
{
    match j {
        Some(v) => v.as_u64(),
        None => None,
    }
}

/// The double of an optional value, by its bit pattern.
pub fn find_double(j: Option<&Json>) -> (r: Option<u64>)
    ensures
        r == opt_double(opt_view(j)),
{
    match j {
        Some(v) => v.as_double(),
        None => None,
    }
}

/// A number of `serde_json` as a number of the deck. Nothing is claimed of it by
/// itself.
#[verifier::external_body]
fn json_numeral(n: &serde_json::Number) -> (r: JsonNumeral) {
    let double = n.as_f64().map(|d| d.to_bits());
    let value = JsonNumber { unsigned: n.as_u64(), signed: n.as_i64(), double };
    JsonNumeral { value, raw: n.clone() }
}

/// A document of `serde_json` as a tree of the deck, value for value. Nothing
/// is claimed of it by itself.
#[verifier::external_body]
fn json_tree(v: &serde_json::Value) -> (r: Json) {
    match v {
        serde_json::Value::Null => Json::Null,
        serde_json::Value::Bool(b) => Json::Bool(*b),
        serde_json::Value::Number(n) => Json::Number(json_numeral(n)),
        serde_json::Value::String(s) => Json::Str(s.clone()),
        serde_json::Value::Array(a) => Json::Array(a.iter().map(json_tree).collect()),
        serde_json::Value::Object(m) => Json::Object(
            m.iter().map(|(k, v)| (k.clone(), json_tree(v))).collect(),
        ),
    }
}

/// A document of `serde_json`.
#[verifier::external_type_specification]
#[verifier::external_body]
pub struct ExValue(serde_json::Value);

/// A number of `serde_json`.
#[verifier::external_type_specification]
#[verifier::external_body]
pub struct ExNumber(serde_json::Number);

/// A tree of the deck as a document of `serde_json`, value for value. Nothing
/// is claimed of it by itself.
#[verifier::external_body]
fn json_value(j: &Json) -> (r: serde_json::Value) {
    match j {
        Json::Null => serde_json::Value::Null,
        Json::Bool(b) => serde_json::Value::Bool(*b),
        Json::Number(n) => serde_json::Value::Number(n.raw.clone()),
        Json::Str(s) => serde_json::Value::String(s.clone()),
        Json::Array(v) => serde_json::Value::Array(v.iter().map(json_value).collect()),
        Json::Object(m) => serde_json::Value::Object(
            m.iter().map(|(k, v)| (k.clone(), json_value(v))).collect(),
        ),
    }
}

/// A document as `serde_json` writes it for people.
pub uninterp spec fn pretty_text(j: JsonView) -> Seq<char>;

/// `serde_json::to_string_pretty` for a document: the document on many lines,
/// as the name says.
#[verifier::external_body]
pub(crate) fn pretty_json(j: &Json) -> (r: String)
    ensures
        r@ == pretty_text(j@),
{
    serde_json::to_string_pretty(&json_value(j)).unwrap_or_default()
}

/// What `serde_json::from_str` reads from a text, as a tree, or what it says of
/// a text that is no JSON document.
pub uninterp spec fn json_reading(text: Seq<char>) -> Result<JsonView, Seq<char>>;

/// The document that a text is.
pub open spec fn parsed_json(text: Seq<char>) -> Option<JsonView> {
    match json_reading(text) {
        Ok(j) => Some(j),
        Err(_) => None,
    }
}

/// `serde_json::from_str` for `serde_json::Value`: the document that a text is,
/// or a message where it is none, both as the name says.
#[verifier::external_body]
pub(crate) fn parse_json(text: &str) -> (r: Result<Json, String>)
    ensures
        match r {
            Ok(j) => json_reading(text@) == Ok::<JsonView, Seq<char>>(j@),
            Err(e) => json_reading(text@) == Err::<JsonView, Seq<char>>(e@),
        },
{
    match serde_json::from_str::<serde_json::Value>(text) {
        Ok(v) => Ok(json_tree(&v)),
        Err(e) => Err(e.to_string()),
    }
}

/// A character as it stands in a JSON string: quotation marks, backslashes and
/// control characters are escaped, others stand for themselves.
pub open spec fn json_char(c: char) -> Seq<char> {
    let u = c as u32 as nat;
    if c == '"' {
        seq!['\\', '"']
    } else if c == '\\' {
        seq!['\\', '\\']
    } else if u == 8 {
        seq!['\\', 'b']
    } else if u == 9 {
        seq!['\\', 't']
    } else if u == 10 {
        seq!['\\', 'n']
    } else if u == 12 {
        seq!['\\', 'f']
    } else if u == 13 {
        seq!['\\', 'r']
    } else if u < 32 {
        seq!['\\', 'u', '0', '0', hex_digit(u / 16), hex_digit(u % 16)]
    } else {
        seq![c]
    }
}

/// The characters of a text as they stand in a JSON string.
pub open spec fn json_chars(s: Seq<char>) -> Seq<char>
    decreases s.len(),
{
    if s.len() == 0 {
        Seq::empty()
    } else {
        json_chars(s.drop_last()) + json_char(s.last())
    }
}

/// A text as a JSON string: in quotation marks, with escapes.
pub open spec fn json_string(s: Seq<char>) -> Seq<char> {
    seq!['"'] + json_chars(s) + seq!['"']
}

/// `Display` of `serde_json::Value` for a string: the text in quotation marks,
/// with the escapes of `json_char`.
#[verifier::external_body]
pub(crate) fn json_quote(s: &str) -> (r: String)
    ensures
        r@ == json_string(s@),
{
    serde_json::Value::from(s).to_string()
}

/// A document as `serde_json` writes it again; none where the text is no
/// document.
pub uninterp spec fn rewritten_json(text: Seq<char>) -> Option<Seq<char>>;

/// `serde_json::from_str` and `Display` of `serde_json::Value`: the document
/// that a text is, in compact form. A text is rewritten exactly where it can be
/// read.
#[verifier::external_body]
pub(crate) fn rewrite_json(text: &str) -> (r: Option<String>)
    ensures
        opt_text(r) == rewritten_json(text@),
        r is Some <==> json_reading(text@) is Ok,
{
    serde_json::from_str::<serde_json::Value>(text).ok().map(|v| v.to_string())
}

/// A list of strings as a JSON document in compact form.
pub open spec fn json_list(v: Seq<Seq<char>>) -> Seq<char> {
    seq!['['] + join(Seq::new(v.len(), |i: int| json_string(v[i])), seq![',']) + seq![']']
}

/// The tree of a list of strings.
pub open spec fn list_view(v: Seq<Seq<char>>) -> JsonView {
    JsonView::Array(Seq::new(v.len(), |i: int| JsonView::Str(v[i])))
}

/// `Display` of `serde_json::Value` for a list of strings: the list as a JSON
/// document in compact form. Read again, the document is the list of these
/// strings.
#[verifier::external_body]
pub(crate) fn write_list(v: &Vec<String>) -> (r: String)
    ensures
        r@ == json_list(texts(v@)),
        json_reading(r@) is Ok && json_reading(r@)->Ok_0 == list_view(texts(v@)),
{
    serde_json::Value::from(v.clone()).to_string()
}

/// The items of an array of strings; none where another value stands in it.
pub open spec fn strings_upto(v: Seq<JsonView>, n: int) -> Option<Seq<Seq<char>>>
    decreases n,
{
    if n <= 0 {
        Some(Seq::empty())
    } else {
        match (strings_upto(v, n - 1), v[n - 1].text()) {
            (Some(rest), Some(s)) => Some(rest.push(s)),
            _ => None,
        }
    }
}

/// The list of strings that a document is; empty where it is none.
pub open spec fn strings_of(j: Option<JsonView>) -> Seq<Seq<char>> {
    match j {
        Some(JsonView::Array(v)) => match strings_upto(v, v.len() as int) {
            Some(s) => s,
            None => Seq::empty(),
        },
        _ => Seq::empty(),
    }
}

proof fn lemma_strings_none(v: Seq<JsonView>, i: int, n: int)
    requires
        0 <= i < n,
        v[i].text() is None,
    ensures
        strings_upto(v, n) is None,
    decreases n,
{
    if i < n - 1 {
        lemma_strings_none(v, i, n - 1);
    }
}

/// The list of strings that a tree is; empty where it is none.
pub fn list_of(j: &Json) -> (r: Vec<String>)
    ensures
        texts(r@) == strings_of(Some(j@)),
{
    let mut r: Vec<String> = Vec::new();
    assert(texts(r@) =~= Seq::<Seq<char>>::empty());
    match j {
        Json::Array(v) => {
            let ghost all = item_views(v@);
            proof {
                lemma_items(v@);
            }
            let mut i: usize = 0;
            while i < v.len()
                invariant
                    all == item_views(v@),
                    all.len() == v@.len(),
                    j@ == JsonView::Array(all),
                    forall|k: int| 0 <= k < v@.len() ==> #[trigger] all[k] == json_view(v@[k]),
                    i <= v@.len(),
                    strings_upto(all, i as int) == Some(texts(r@)),
                decreases v@.len() - i,
            {
                let ghost before = texts(r@);
                assert(all[i as int] == json_view(v@[i as int]));
                match v[i].as_text() {
                    Some(s) => {
                        r.push(owned(s));
                        assert(texts(r@) =~= before.push(s@));
                    },
                    None => {
                        proof {
                            lemma_strings_none(all, i as int, all.len() as int);
                        }
                        let empty: Vec<String> = Vec::new();
                        assert(texts(empty@) =~= Seq::<Seq<char>>::empty());
                        return empty;
                    },
                }
                i = i + 1;
            }
            r
        },
        _ => r,
    }
}

proof fn lemma_list_upto(v: Seq<Seq<char>>, n: int)
    requires
        0 <= n <= v.len(),
    ensures
        strings_upto(Seq::new(v.len(), |i: int| JsonView::Str(v[i])), n) == Some(v.take(n)),
    decreases n,
{
    if n > 0 {
        lemma_list_upto(v, n - 1);
        assert(v.take(n) =~= v.take(n - 1).push(v[n - 1]));
    } else {
        assert(v.take(0) =~= Seq::<Seq<char>>::empty());
    }
}

/// A list of strings that was written reads as itself.
pub proof fn law_list_round_trip(v: Seq<Seq<char>>)
    ensures
        strings_of(Some(list_view(v))) == v,
{
    lemma_list_upto(v, v.len() as int);
    assert(v.take(v.len() as int) =~= v);
}

/// Reads a list of strings; a text that is none reads as the empty list.
pub fn read_list(text: &str) -> (r: Vec<String>)
    ensures
        texts(r@) == strings_of(parsed_json(text@)),
{
    match parse_json(text) {
        Ok(j) => list_of(&j),
        Err(_) => {
            let empty: Vec<String> = Vec::new();
            assert(texts(empty@) =~= Seq::<Seq<char>>::empty());
            empty
        },
    }
}

} // verus!
