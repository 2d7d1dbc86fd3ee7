//! Named text values, kept in the order of their names.
use vstd::prelude::*;

use crate::text::{lemma_lex, lemma_lex_total, lex_below, owned, same, str_lex_below};

verus! {

/// The names are strictly ascending.
pub open spec fn ascending(s: Seq<(Seq<char>, Seq<char>)>) -> bool {
    forall|i: int, j: int| 0 <= i < j < s.len() ==> lex_below((#[trigger] s[i]).0, (#[trigger] s[j]).0)
}

/// The value of a name.
pub open spec fn value_of(s: Seq<(Seq<char>, Seq<char>)>, key: Seq<char>) -> Option<Seq<char>>
    decreases s.len(),
{
    if s.len() == 0 {
        None
    } else if s[0].0 == key {
        Some(s[0].1)
    } else {
        value_of(s.drop_first(), key)
    }
}

/// The ascending list with `key` set to `value`.
pub open spec fn with_value(
    s: Seq<(Seq<char>, Seq<char>)>,
    key: Seq<char>,
    value: Seq<char>,
) -> Seq<(Seq<char>, Seq<char>)>
    decreases s.len(),
{
    if s.len() == 0 {
        seq![(key, value)]
    } else if s[0].0 == key {
        seq![(key, value)] + s.drop_first()
    } else if lex_below(key, s[0].0) {
        seq![(key, value)] + s
    } else {
        seq![s[0]] + with_value(s.drop_first(), key, value)
    }
}

/// The views of a list of pairs.
pub open spec fn pair_texts(v: Seq<(String, String)>) -> Seq<(Seq<char>, Seq<char>)> {
    Seq::new(v.len(), |i: int| (v[i].0@, v[i].1@))
}

/// The list `base` with the pairs of `more` set in turn.
pub open spec fn with_values(
    base: Seq<(Seq<char>, Seq<char>)>,
    more: Seq<(Seq<char>, Seq<char>)>,
) -> Seq<(Seq<char>, Seq<char>)>
    decreases more.len(),
{
    if more.len() == 0 {
        base
    } else {
        with_value(with_values(base, more.drop_last()), more.last().0, more.last().1)
    }
}

/// Named text values.
#[derive(Debug, PartialEq)]
pub struct Params {
    entries: Vec<(String, String)>,
}

impl View for Params {
    type V = Seq<(Seq<char>, Seq<char>)>;

    closed spec fn view(&self) -> Seq<(Seq<char>, Seq<char>)> {
        pair_texts(self.entries@)
    }
}

/// Setting a name keeps the rest before and after it.
pub proof fn lemma_with_value_at(
    s: Seq<(Seq<char>, Seq<char>)>,
    key: Seq<char>,
    value: Seq<char>,
    at: int,
)
    requires
        0 <= at <= s.len(),
        forall|i: int| 0 <= i < at ==> lex_below((#[trigger] s[i]).0, key),
        at < s.len() ==> s[at].0 == key || lex_below(key, s[at].0),
    ensures
        at < s.len() && s[at].0 == key ==> with_value(s, key, value) == s.update(at, (key, value)),
        at == s.len() || s[at].0 != key ==> with_value(s, key, value) == s.insert(at, (key, value)),
    decreases s.len(),
{
    if s.len() == 0 {
        assert(s.insert(at, (key, value)) =~= seq![(key, value)]);
    } else if at == 0 {
        assert(s.update(0, (key, value)) =~= seq![(key, value)] + s.drop_first());
        assert(s.insert(0, (key, value)) =~= seq![(key, value)] + s);
    } else {
        let t = s.drop_first();
        assert(lex_below(s[0].0, key));
        lemma_lex_total(s[0].0, key);
        lemma_lex_total(key, key);
        assert forall|i: int| 0 <= i < at - 1 implies lex_below((#[trigger] t[i]).0, key) by {
            assert(t[i] == s[i + 1]);
        }
        lemma_with_value_at(t, key, value, at - 1);
        if at < s.len() {
            assert(seq![s[0]] + t.update(at - 1, (key, value)) =~= s.update(at, (key, value)));
        }
        assert(seq![s[0]] + t.insert(at - 1, (key, value)) =~= s.insert(at, (key, value)));
    }
}

proof fn lemma_ascending_tail(s: Seq<(Seq<char>, Seq<char>)>)
    requires
        ascending(s),
        s.len() > 0,
    ensures
        ascending(s.drop_first()),
{
    let t = s.drop_first();
    assert forall|i: int, j: int| 0 <= i < j < t.len() implies lex_below(
        (#[trigger] t[i]).0,
        (#[trigger] t[j]).0,
    ) by {
        assert(t[i] == s[i + 1]);
        assert(t[j] == s[j + 1]);
    }
}

/// Setting a name keeps the list ascending.
pub proof fn law_with_value_ascending(
    s: Seq<(Seq<char>, Seq<char>)>,
    key: Seq<char>,
    value: Seq<char>,
)
    requires
        ascending(s),
    ensures
        ascending(with_value(s, key, value)),
        forall|i: int|
            0 <= i < with_value(s, key, value).len() ==> (#[trigger] with_value(
                s,
                key,
                value,
            )[i]).0 == key || exists|j: int| 0 <= j < s.len() && s[j].0 == with_value(
                s,
                key,
                value,
            )[i].0,
    decreases s.len(),
{
    let w = with_value(s, key, value);
    if s.len() > 0 {
        lemma_ascending_tail(s);
        let t = s.drop_first();
        law_with_value_ascending(t, key, value);
        lemma_lex_total(s[0].0, key);
        let u = with_value(t, key, value);
        assert forall|i: int, j: int| 0 <= i < j < w.len() implies lex_below(
            (#[trigger] w[i]).0,
            (#[trigger] w[j]).0,
        ) by {
            if s[0].0 == key {
                if i == 0 {
                    assert(w[j] == s[j]);
                    assert(lex_below(s[0].0, s[j].0));
                } else {
                    assert(w[i] == s[i] && w[j] == s[j]);
                }
            } else if lex_below(key, s[0].0) {
                assert(w[j] == s[j - 1]);
                if i == 0 {
                    if j > 1 {
                        assert(lex_below(s[0].0, s[j - 1].0));
                        lemma_lex(key, s[0].0, s[j - 1].0);
                    }
                } else {
                    assert(w[i] == s[i - 1]);
                }
            } else {
                assert(w[j] == u[j - 1]);
                if i == 0 {
                    assert(w[0] == s[0]);
                    if u[j - 1].0 != key {
                        let k = choose|k: int| 0 <= k < t.len() && t[k].0 == u[j - 1].0;
                        assert(t[k] == s[k + 1]);
                        assert(lex_below(s[0].0, s[k + 1].0));
                    }
                } else {
                    assert(w[i] == u[i - 1]);
                }
            }
        }
        assert forall|i: int| 0 <= i < w.len() implies (#[trigger] w[i]).0 == key || exists|j: int|
            0 <= j < s.len() && s[j].0 == w[i].0 by {
            if s[0].0 == key {
                if i > 0 {
                    assert(s[i].0 == w[i].0);
                }
            } else if lex_below(key, s[0].0) {
                if i > 0 {
                    assert(s[i - 1].0 == w[i].0);
                }
            } else if i == 0 {
                assert(s[0].0 == w[0].0);
            } else {
                assert(w[i] == u[i - 1]);
                if u[i - 1].0 != key {
                    let k = choose|k: int| 0 <= k < t.len() && t[k].0 == u[i - 1].0;
                    assert(s[k + 1].0 == w[i].0);
                }
            }
        }
    }
}

/// A name that was set has the value that it was set to, and the others keep
/// theirs.
pub proof fn law_value_after_set(
    s: Seq<(Seq<char>, Seq<char>)>,
    key: Seq<char>,
    value: Seq<char>,
    other: Seq<char>,
)
    ensures
        value_of(with_value(s, key, value), key) == Some(value),
        other != key ==> value_of(with_value(s, key, value), other) == value_of(s, other),
    decreases s.len(),
{
    let w = with_value(s, key, value);
    if s.len() == 0 {
        assert(w.drop_first() =~= s);
    } else if s[0].0 == key {
        assert(w.drop_first() =~= s.drop_first());
    } else if lex_below(key, s[0].0) {
        assert(w.drop_first() =~= s);
    } else {
        law_value_after_set(s.drop_first(), key, value, other);
        assert(w.drop_first() =~= with_value(s.drop_first(), key, value));
    }
}

/// Setting names keeps the list ascending.
pub proof fn law_with_values_ascending(
    base: Seq<(Seq<char>, Seq<char>)>,
    more: Seq<(Seq<char>, Seq<char>)>,
)
    requires
        ascending(base),
    ensures
        ascending(with_values(base, more)),
    decreases more.len(),
{
    if more.len() > 0 {
        law_with_values_ascending(base, more.drop_last());
        law_with_value_ascending(
            with_values(base, more.drop_last()),
            more.last().0,
            more.last().1,
        );
    }
}

/// A value is found where its name stands; without repeats nowhere else.
proof fn lemma_value_of_last(s: Seq<(Seq<char>, Seq<char>)>, key: Seq<char>)
    requires
        ascending(s),
        s.len() > 0,
    ensures
        s.last().0 == key ==> value_of(s, key) == Some(s.last().1) && value_of(
            s.drop_last(),
            key,
        ) is None,
        s.last().0 != key ==> value_of(s, key) == value_of(s.drop_last(), key),
    decreases s.len(),
{
    if s.len() == 1 {
        assert(s.drop_last() =~= Seq::<(Seq<char>, Seq<char>)>::empty());
        assert(s.drop_first() =~= Seq::<(Seq<char>, Seq<char>)>::empty());
    } else {
        let t = s.drop_first();
        lemma_ascending_tail(s);
        lemma_value_of_last(t, key);
        assert(t.drop_last() =~= s.drop_last().drop_first());
        assert(lex_below(s[0].0, s[s.len() - 1].0));
        lemma_lex_total(s[0].0, s[0].0);
    }
}

/// Names that are set win; the others keep their values.
pub proof fn law_values_layered(
    base: Seq<(Seq<char>, Seq<char>)>,
    more: Seq<(Seq<char>, Seq<char>)>,
    key: Seq<char>,
)
    requires
        ascending(more),
    ensures
        value_of(with_values(base, more), key) == match value_of(more, key) {
            Some(v) => Some(v),
            None => value_of(base, key),
        },
    decreases more.len(),
{
    if more.len() > 0 {
        let m = more.drop_last();
        assert(ascending(m)) by {
            assert forall|i: int, j: int| 0 <= i < j < m.len() implies lex_below(
                (#[trigger] m[i]).0,
                (#[trigger] m[j]).0,
            ) by {
                assert(m[i] == more[i] && m[j] == more[j]);
            }
        }
        law_values_layered(base, m, key);
        law_value_after_set(with_values(base, m), more.last().0, more.last().1, key);
        lemma_value_of_last(more, key);
    }
}

impl Params {
    /// The names are strictly ascending.
    #[verifier::type_invariant]
    spec fn well_formed(self) -> bool {
        ascending(pair_texts(self.entries@))
    }

    /// No values.
    pub fn new() -> (r: Params)
        ensures
            r@ == Seq::<(Seq<char>, Seq<char>)>::empty(),
    {
        let r = Params { entries: Vec::new() };
        assert(r@ =~= Seq::<(Seq<char>, Seq<char>)>::empty());
        r
    }

    /// How many values there are. Their names are strictly ascending.
    pub fn len(&self) -> (r: usize)
        ensures
            r == self@.len(),
            ascending(self@),
    {
        proof {
            use_type_invariant(self);
        }
        self.entries.len()
    }

    /// The name and value at a position.
    pub fn entry(&self, i: usize) -> (r: (&str, &str))
        requires
            i < self@.len(),
        ensures
            self@[i as int] == (r.0@, r.1@),
    {
        (self.entries[i].0.as_str(), self.entries[i].1.as_str())
    }

    /// The value of a name.
    pub fn get(&self, key: &str) -> (r: Option<&str>)
        ensures
            match r {
                Some(v) => value_of(self@, key@) == Some(v@),
                None => value_of(self@, key@) is None,
            },
            ascending(self@),
    {
        proof {
            use_type_invariant(self);
        }
        let mut i: usize = 0;
        assert(self@.skip(0) =~= self@);
        while i < self.entries.len()
            invariant
                i <= self@.len(),
                self@ == pair_texts(self.entries@),
                ascending(self@),
                value_of(self@, key@) == value_of(self@.skip(i as int), key@),
            decreases self@.len() - i,
        {
            assert(self@.skip(i as int)[0] == self@[i as int]);
            assert(self@.skip(i as int).drop_first() =~= self@.skip(i + 1));
            if same(self.entries[i].0.as_str(), key) {
                return Some(self.entries[i].1.as_str());
            }
            i = i + 1;
        }
        None
    }

    /// Sets a name to a value.
    pub fn set(&mut self, key: &str, value: &str)
        ensures
            final(self)@ == with_value(old(self)@, key@, value@),
            ascending(old(self)@),
            ascending(final(self)@),
    {
        proof {
            use_type_invariant(&*self);
        }
        let ghost before = self@;
        let n = self.entries.len();
        let mut at: usize = 0;
        while at < n && str_lex_below(self.entries[at].0.as_str(), key)
            invariant
                n == self.entries@.len(),
                at <= n,
                before == pair_texts(self.entries@),
                forall|i: int| 0 <= i < at ==> lex_below((#[trigger] before[i]).0, key@),
            decreases n - at,
        {
            at = at + 1;
        }
        proof {
            if at < n {
                lemma_lex_total(before[at as int].0, key@);
            }
            lemma_with_value_at(before, key@, value@, at as int);
            law_with_value_ascending(before, key@, value@);
        }
        let mut entries: Vec<(String, String)> = Vec::new();
        let mut i: usize = 0;
        while i < at
            invariant
                n == self.entries@.len(),
                i <= at <= n,
                before == pair_texts(self.entries@),
                pair_texts(entries@) == before.take(i as int),
            decreases at - i,
        {
            let ghost done = entries@;
            entries.push((owned(self.entries[i].0.as_str()), owned(self.entries[i].1.as_str())));
            assert(pair_texts(entries@) =~= pair_texts(done).push(before[i as int]));
            assert(before.take(i + 1) =~= before.take(i as int).push(before[i as int]));
            i = i + 1;
        }
        entries.push((owned(key), owned(value)));
        assert(pair_texts(entries@) =~= before.take(at as int).push((key@, value@)));
        let from = if at < n && same(self.entries[at].0.as_str(), key) {
            at + 1
        } else {
            at
        };
        let mut j: usize = from;
        while j < n
            invariant
                n == self.entries@.len(),
                at <= from <= j <= n,
                before == pair_texts(self.entries@),
                pair_texts(entries@) == before.take(at as int).push((key@, value@))
                    + before.subrange(from as int, j as int),
            decreases n - j,
        {
            let ghost done = entries@;
            entries.push((owned(self.entries[j].0.as_str()), owned(self.entries[j].1.as_str())));
            assert(pair_texts(entries@) =~= pair_texts(done).push(before[j as int]));
            assert(before.subrange(from as int, j + 1) =~= before.subrange(
                from as int,
                j as int,
            ).push(before[j as int]));
            j = j + 1;
        }
        proof {
            let w = with_value(before, key@, value@);
            if from == at {
                assert(pair_texts(entries@) =~= before.insert(at as int, (key@, value@)));
            } else {
                assert(pair_texts(entries@) =~= before.update(at as int, (key@, value@)));
            }
            assert(pair_texts(entries@) == w);
        }
        *self = Params { entries };
    }

    /// A copy.
    pub fn copy(&self) -> (r: Params)
        ensures
            r@ == self@,
    {
        proof {
            use_type_invariant(self);
        }
        let mut entries: Vec<(String, String)> = Vec::new();
        let mut i: usize = 0;
        while i < self.entries.len()
            invariant
                i <= self.entries@.len(),
                pair_texts(entries@) == self@.take(i as int),
                self@ == pair_texts(self.entries@),
            decreases self.entries@.len() - i,
        {
            let ghost done = entries@;
            entries.push((owned(self.entries[i].0.as_str()), owned(self.entries[i].1.as_str())));
            assert(pair_texts(entries@) =~= pair_texts(done).push(self@[i as int]));
            assert(self@.take(i + 1) =~= self@.take(i as int).push(self@[i as int]));
            i = i + 1;
        }
        assert(self@.take(i as int) =~= self@);
        Params { entries }
    }

    /// Sets the values of another list in turn.
    pub fn set_all(&mut self, more: &Params)
        ensures
            final(self)@ == with_values(old(self)@, more@),
    {
        let ghost before = self@;
        let mut i: usize = 0;
        assert(more@.take(0) =~= Seq::<(Seq<char>, Seq<char>)>::empty());
        while i < more.len()
            invariant
                i <= more@.len(),
                self@ == with_values(before, more@.take(i as int)),
            decreases more@.len() - i,
        {
            let (k, v) = more.entry(i);
            assert(more@.take(i + 1).drop_last() =~= more@.take(i as int));
            self.set(k, v);
            i = i + 1;
        }
        assert(more@.take(i as int) =~= more@);
    }

    /// The values of a list of pairs; of a repeated name the last one counts.
    pub fn from_pairs(pairs: &Vec<(String, String)>) -> (r: Params)
        ensures
            r@ == with_values(Seq::empty(), pair_texts(pairs@)),
    {
        let mut r = Params::new();
        let mut i: usize = 0;
        assert(pair_texts(pairs@).take(0) =~= Seq::<(Seq<char>, Seq<char>)>::empty());
        while i < pairs.len()
            invariant
                i <= pairs@.len(),
                r@ == with_values(Seq::empty(), pair_texts(pairs@).take(i as int)),
            decreases pairs@.len() - i,
        {
            assert(pair_texts(pairs@).take(i + 1).drop_last() =~= pair_texts(pairs@).take(
                i as int,
            ));
            r.set(pairs[i].0.as_str(), pairs[i].1.as_str());
            i = i + 1;
        }
        assert(pair_texts(pairs@).take(i as int) =~= pair_texts(pairs@));
        r
    }
}

impl Clone for Params {
    fn clone(&self) -> (r: Self)
        ensures
            r@ == self@,
    {
        self.copy()
    }
}

impl Default for Params {
    fn default() -> (r: Self)
        ensures
            r@ == Seq::<(Seq<char>, Seq<char>)>::empty(),
    {
        Params::new()
    }
}

} // verus!
