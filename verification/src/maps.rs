//! An insertion-ordered map from string keys to string values, with exact
//! key matching, used for query parameters, cookies and form fields; and
//! the serialization of a cookie map into a single `Cookie` header value.

use vstd::prelude::*;

use crate::headers::pairs_view;

verus! {

/// One pair per entry, in insertion order; keys are unique.
pub struct StringMap {
    entries: Vec<(String, String)>,
}

/// First value stored under exactly `key`, scanning in order.
pub open spec fn lookup_exact(entries: Seq<(Seq<char>, Seq<char>)>, key: Seq<char>) -> Option<
    Seq<char>,
>
    decreases entries.len(),
{
    if entries.len() == 0 {
        None
    } else if entries[0].0 == key {
        Some(entries[0].1)
    } else {
        lookup_exact(entries.drop_first(), key)
    }
}

/// The map after `insert(key, value)`: the first entry with the same key
/// has its value replaced in place; with no such entry the pair is
/// appended.
pub open spec fn spec_insert_exact(
    entries: Seq<(Seq<char>, Seq<char>)>,
    key: Seq<char>,
    value: Seq<char>,
) -> Seq<(Seq<char>, Seq<char>)>
    decreases entries.len(),
{
    if entries.len() == 0 {
        seq![(key, value)]
    } else if entries[0].0 == key {
        seq![(key, value)] + entries.drop_first()
    } else {
        seq![entries[0]] + spec_insert_exact(entries.drop_first(), key, value)
    }
}

/// No two entries share a key.
pub open spec fn distinct_keys(entries: Seq<(Seq<char>, Seq<char>)>) -> bool {
    forall|i: int, j: int| 0 <= i < j < entries.len() ==> entries[i].0 != entries[j].0
}

impl StringMap {
    /// The entries as character sequences, in insertion order.
    pub closed spec fn model(self) -> Seq<(Seq<char>, Seq<char>)> {
        pairs_view(self.entries@)
    }

    /// Invariant: every key occurs at most once.
    pub open spec fn wf(self) -> bool {
        distinct_keys(self.model())
    }

    pub open spec fn spec_get(self, key: Seq<char>) -> Option<Seq<char>> {
        lookup_exact(self.model(), key)
    }

    pub fn new() -> (r: Self)
        ensures
            r.model() == Seq::<(Seq<char>, Seq<char>)>::empty(),
            r.wf(),
    {
        let r = StringMap { entries: Vec::new() };
        proof {
            assert(r.model() =~= Seq::<(Seq<char>, Seq<char>)>::empty());
        }
        r
    }

    pub fn len(&self) -> (r: usize)
        ensures
            r == self.model().len(),
    {
        self.entries.len()
    }

    pub fn is_empty(&self) -> (r: bool)
        ensures
            r == (self.model().len() == 0),
    {
        self.entries.len() == 0
    }

    /// Inserts a pair, overwriting the value of an existing key in place.
    pub fn insert(&mut self, key: String, value: String)
        requires
            old(self).wf(),
        ensures
            final(self).model() == spec_insert_exact(old(self).model(), key@, value@),
            final(self).wf(),
    {
        let ghost m0 = self.model();
        let n = self.entries.len();
        let mut i: usize = 0;
        while i < n
            invariant
                i <= n,
                n == self.entries@.len(),
                self == old(self),
                m0 == self.model(),
                old(self).wf(),
                forall|j: int| 0 <= j < i ==> (#[trigger] m0[j].0) != key@,
            decreases n - i,
        {
            if crate::text::str_eq(self.entries[i].0.as_str(), key.as_str()) {
                self.entries.set(i, (key, value));
                proof {
                    lemma_insert_exact_at_match(m0, key@, value@, i as int);
                    assert(self.model() =~= m0.update(i as int, (key@, value@)));
                    lemma_insert_exact_distinct(m0, key@, value@);
                }
                return ;
            }
            i = i + 1;
        }
        self.entries.push((key, value));
        proof {
            lemma_insert_exact_no_match(m0, key@, value@);
            assert(self.model() =~= m0.push((key@, value@)));
            lemma_insert_exact_distinct(m0, key@, value@);
        }
    }

    /// The value stored under exactly `key`, or `None`.
    pub fn get(&self, key: &str) -> (r: Option<String>)
        ensures
            r matches Some(v) ==> self.spec_get(key@) == Some(v@),
            r is None ==> self.spec_get(key@) is None,
    {
        let n = self.entries.len();
        let mut i: usize = 0;
        while i < n
            invariant
                i <= n,
                n == self.entries@.len(),
                forall|j: int| 0 <= j < i ==> (#[trigger] self.model()[j].0) != key@,
            decreases n - i,
        {
            if crate::text::str_eq(self.entries[i].0.as_str(), key) {
                let v = self.entries[i].1.clone();
                proof {
                    lemma_lookup_exact_first_match(self.model(), key@, i as int);
                }
                return Some(v);
            }
            i = i + 1;
        }
        proof {
            lemma_lookup_exact_no_match(self.model(), key@);
        }
        None
    }

    pub fn contains_key(&self, key: &str) -> (r: bool)
        ensures
            r == (self.spec_get(key@) is Some),
    {
        self.get(key).is_some()
    }

    /// The `(key, value)` pairs in insertion order.
    pub fn items(&self) -> (r: Vec<(String, String)>)
        ensures
            pairs_view(r@) == self.model(),
    {
        let n = self.entries.len();
        let mut r: Vec<(String, String)> = Vec::new();
        let mut i: usize = 0;
        while i < n
            invariant
                i <= n,
                n == self.entries@.len(),
                r@.len() == i,
                forall|j: int| 0 <= j < i ==> (#[trigger] r@[j]).0@ == self.model()[j].0
                    && r@[j].1@ == self.model()[j].1,
            decreases n - i,
        {
            let k = self.entries[i].0.clone();
            let v = self.entries[i].1.clone();
            r.push((k, v));
            i = i + 1;
        }
        proof {
            assert(pairs_view(r@) =~= self.model());
        }
        r
    }

    /// Builds a map from ordered pairs, inserting in order.
    pub fn from_pairs(pairs: Vec<(String, String)>) -> (r: Self)
        ensures
            r.wf(),
            r.model() == spec_insert_exact_all(
                Seq::<(Seq<char>, Seq<char>)>::empty(),
                pairs_view(pairs@),
            ),
    {
        let mut r = Self::new();
        let n = pairs.len();
        let mut i: usize = 0;
        while i < n
            invariant
                i <= n,
                n == pairs@.len(),
                r.wf(),
                r.model() == spec_insert_exact_all(
                    Seq::<(Seq<char>, Seq<char>)>::empty(),
                    pairs_view(pairs@).take(i as int),
                ),
            decreases n - i,
        {
            let k = pairs[i].0.clone();
            let v = pairs[i].1.clone();
            r.insert(k, v);
            proof {
                let pv = pairs_view(pairs@);
                assert(pv.take(i + 1).drop_last() =~= pv.take(i as int));
                assert(pv.take(i + 1).last() == pv[i as int]);
            }
            i = i + 1;
        }
        proof {
            assert(pairs_view(pairs@).take(n as int) =~= pairs_view(pairs@));
        }
        r
    }
}

/// The map that results from inserting each pair of `pairs` in order.
pub open spec fn spec_insert_exact_all(
    base: Seq<(Seq<char>, Seq<char>)>,
    pairs: Seq<(Seq<char>, Seq<char>)>,
) -> Seq<(Seq<char>, Seq<char>)>
    decreases pairs.len(),
{
    if pairs.len() == 0 {
        base
    } else {
        spec_insert_exact(
            spec_insert_exact_all(base, pairs.drop_last()),
            pairs.last().0,
            pairs.last().1,
        )
    }
}

/// The single-header serialization of cookies: `k1=v1; k2=v2; ...` in
/// insertion order, with no trailing separator.
pub open spec fn cookie_pair_str(p: (Seq<char>, Seq<char>)) -> Seq<char> {
    p.0 + seq!['='] + p.1
}

pub open spec fn cookie_string(entries: Seq<(Seq<char>, Seq<char>)>) -> Seq<char>
    decreases entries.len(),
{
    if entries.len() == 0 {
        Seq::<char>::empty()
    } else if entries.len() == 1 {
        cookie_pair_str(entries[0])
    } else {
        cookie_string(entries.drop_last()) + seq![';', ' '] + cookie_pair_str(entries.last())
    }
}

/// Serialization of a map into one `Cookie` header value.
pub trait CookiesTraits {
    fn to_string(&self) -> String;
}

impl CookiesTraits for StringMap {
    /// `k1=v1; k2=v2` in insertion order.
    fn to_string(&self) -> (r: String)
        ensures
            r@ == cookie_string(self.model()),
    {
        let items = self.items();
        let n = items.len();
        let mut r = String::new();
        let mut i: usize = 0;
        while i < n
            invariant
                i <= n,
                n == items@.len(),
                pairs_view(items@) == self.model(),
                r@ == cookie_string(self.model().take(i as int)),
            decreases n - i,
        {
            if i > 0 {
                crate::text::push_char(&mut r, ';');
                crate::text::push_char(&mut r, ' ');
            }
            r.append(items[i].0.as_str());
            crate::text::push_char(&mut r, '=');
            r.append(items[i].1.as_str());
            proof {
                let m = self.model();
                assert(m.take(i + 1).drop_last() =~= m.take(i as int));
                assert(m.take(i + 1).last() == m[i as int]);
                if i == 0 {
                    assert(cookie_string(m.take(1)) == cookie_pair_str(m[0]));
                }
                assert(r@ =~= cookie_string(m.take(i + 1)));
            }
            i = i + 1;
        }
        proof {
            assert(self.model().take(n as int) =~= self.model());
        }
        r
    }
}

proof fn lemma_lookup_exact_first_match(
    entries: Seq<(Seq<char>, Seq<char>)>,
    key: Seq<char>,
    i: int,
)
    requires
        0 <= i < entries.len(),
        entries[i].0 == key,
        forall|j: int| 0 <= j < i ==> (#[trigger] entries[j].0) != key,
    ensures
        lookup_exact(entries, key) == Some(entries[i].1),
    decreases i,
{
    if i > 0 {
        lemma_lookup_exact_first_match(entries.drop_first(), key, i - 1);
    }
}

proof fn lemma_lookup_exact_no_match(entries: Seq<(Seq<char>, Seq<char>)>, key: Seq<char>)
    requires
        forall|j: int| 0 <= j < entries.len() ==> (#[trigger] entries[j].0) != key,
    ensures
        lookup_exact(entries, key) is None,
    decreases entries.len(),
{
    if entries.len() > 0 {
        lemma_lookup_exact_no_match(entries.drop_first(), key);
    }
}

proof fn lemma_insert_exact_at_match(
    entries: Seq<(Seq<char>, Seq<char>)>,
    key: Seq<char>,
    value: Seq<char>,
    i: int,
)
    requires
        0 <= i < entries.len(),
        entries[i].0 == key,
        forall|j: int| 0 <= j < i ==> (#[trigger] entries[j].0) != key,
    ensures
        spec_insert_exact(entries, key, value) == entries.update(i, (key, value)),
    decreases i,
{
    if i == 0 {
        assert(spec_insert_exact(entries, key, value) =~= entries.update(0, (key, value)));
    } else {
        lemma_insert_exact_at_match(entries.drop_first(), key, value, i - 1);
        assert(entries.update(i, (key, value)).drop_first() =~= entries.drop_first().update(
            i - 1,
            (key, value),
        ));
        assert(seq![entries[0]] + entries.drop_first().update(i - 1, (key, value))
            =~= entries.update(i, (key, value)));
    }
}

proof fn lemma_insert_exact_no_match(
    entries: Seq<(Seq<char>, Seq<char>)>,
    key: Seq<char>,
    value: Seq<char>,
)
    requires
        forall|j: int| 0 <= j < entries.len() ==> (#[trigger] entries[j].0) != key,
    ensures
        spec_insert_exact(entries, key, value) == entries.push((key, value)),
    decreases entries.len(),
{
    if entries.len() == 0 {
        assert(spec_insert_exact(entries, key, value) =~= entries.push((key, value)));
    } else {
        lemma_insert_exact_no_match(entries.drop_first(), key, value);
        assert(entries.push((key, value)).drop_first() =~= entries.drop_first().push(
            (key, value),
        ));
        assert(spec_insert_exact(entries, key, value) =~= entries.push((key, value)));
    }
}

proof fn lemma_insert_exact_distinct(
    entries: Seq<(Seq<char>, Seq<char>)>,
    key: Seq<char>,
    value: Seq<char>,
)
    requires
        distinct_keys(entries),
    ensures
        distinct_keys(spec_insert_exact(entries, key, value)),
    decreases entries.len(),
{
    if entries.len() == 0 {
    } else if entries[0].0 == key {
        let r = seq![(key, value)] + entries.drop_first();
        assert forall|i: int, j: int| 0 <= i < j < r.len() implies r[i].0 != r[j].0 by {
            assert(entries.drop_first()[j - 1] == entries[j]);
            if i > 0 {
                assert(entries.drop_first()[i - 1] == entries[i]);
            }
        }
    } else {
        lemma_insert_exact_distinct(entries.drop_first(), key, value);
        let rest = spec_insert_exact(entries.drop_first(), key, value);
        let r = seq![entries[0]] + rest;
        assert forall|i: int, j: int| 0 <= i < j < r.len() implies r[i].0 != r[j].0 by {
            if i == 0 {
                lemma_insert_exact_keys(entries.drop_first(), key, value, j - 1);
            }
        }
    }
}

/// Every key in the inserted map is either an old key or the new one.
proof fn lemma_insert_exact_keys(
    entries: Seq<(Seq<char>, Seq<char>)>,
    key: Seq<char>,
    value: Seq<char>,
    k: int,
)
    requires
        0 <= k < spec_insert_exact(entries, key, value).len(),
    ensures
        spec_insert_exact(entries, key, value)[k].0 == key || exists|i: int|
            0 <= i < entries.len() && (#[trigger] entries[i].0) == spec_insert_exact(
                entries,
                key,
                value,
            )[k].0,
    decreases entries.len(),
{
    if entries.len() == 0 {
    } else if entries[0].0 == key {
        let r = seq![(key, value)] + entries.drop_first();
        if k > 0 {
            assert(r[k] == entries.drop_first()[k - 1]);
            assert(entries.drop_first()[k - 1] == entries[k]);
            assert(entries[k].0 == r[k].0);
        }
    } else {
        if k > 0 {
            lemma_insert_exact_keys(entries.drop_first(), key, value, k - 1);
            let r = seq![entries[0]] + spec_insert_exact(entries.drop_first(), key, value);
            assert(r[k] == spec_insert_exact(entries.drop_first(), key, value)[k - 1]);
            if spec_insert_exact(entries.drop_first(), key, value)[k - 1].0 != key {
                let i = choose|i: int|
                    0 <= i < entries.drop_first().len() && (#[trigger] entries.drop_first()[i].0)
                        == spec_insert_exact(entries.drop_first(), key, value)[k - 1].0;
                assert(entries.drop_first()[i] == entries[i + 1]);
                assert(entries[i + 1].0 == r[k].0);
            }
        }
    }
}

} // verus!
