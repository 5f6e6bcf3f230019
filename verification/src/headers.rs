//! An ordered, case-insensitive header map.
//!
//! Iteration and serialization follow insertion order; lookups resolve the
//! name case-insensitively.  The invariant is that no two entries share the
//! same lower-cased name, so every name has at most one canonical-case entry.

use vstd::prelude::*;

use crate::text::{lower_seq, lower_str, push_char, str_eq};

verus! {

/// One header per entry, in insertion order: `(canonical-case name, value)`.
pub struct CaseInsensitiveHeaderMap {
    entries: Vec<(String, String)>,
}

/// The mathematical content of a header map: the name and value character
/// sequences of each entry, in order.
pub open spec fn pairs_view(entries: Seq<(String, String)>) -> Seq<(Seq<char>, Seq<char>)> {
    entries.map_values(|p: (String, String)| (p.0@, p.1@))
}

/// First value whose lower-cased name equals `lname`, scanning in order.
pub open spec fn lookup(entries: Seq<(Seq<char>, Seq<char>)>, lname: Seq<char>) -> Option<
    Seq<char>,
>
    decreases entries.len(),
{
    if entries.len() == 0 {
        None
    } else if lower_seq(entries[0].0) == lname {
        Some(entries[0].1)
    } else {
        lookup(entries.drop_first(), lname)
    }
}

/// The map after `insert(name, value)`: the first entry with the same
/// lower-cased name is replaced in place (the new spelling becomes the
/// canonical one); with no such entry the pair is appended.
pub open spec fn spec_insert(
    entries: Seq<(Seq<char>, Seq<char>)>,
    name: Seq<char>,
    value: Seq<char>,
) -> Seq<(Seq<char>, Seq<char>)>
    decreases entries.len(),
{
    if entries.len() == 0 {
        seq![(name, value)]
    } else if lower_seq(entries[0].0) == lower_seq(name) {
        seq![(name, value)] + entries.drop_first()
    } else {
        seq![entries[0]] + spec_insert(entries.drop_first(), name, value)
    }
}

/// No two entries share a lower-cased name.
pub open spec fn distinct_names(entries: Seq<(Seq<char>, Seq<char>)>) -> bool {
    forall|i: int, j: int|
        0 <= i < j < entries.len() ==> lower_seq(entries[i].0) != lower_seq(entries[j].0)
}

impl CaseInsensitiveHeaderMap {
    /// The entries as character sequences, in insertion order.
    pub closed spec fn model(self) -> Seq<(Seq<char>, Seq<char>)> {
        pairs_view(self.entries@)
    }

    /// Invariant: every lower-cased name occurs at most once.
    pub open spec fn wf(self) -> bool {
        distinct_names(self.model())
    }

    /// Case-insensitive lookup, the map's defining operation.
    pub open spec fn spec_get(self, name: Seq<char>) -> Option<Seq<char>> {
        lookup(self.model(), lower_seq(name))
    }

    pub fn new() -> (r: Self)
        ensures
            r.model() == Seq::<(Seq<char>, Seq<char>)>::empty(),
            r.wf(),
    {
        let r = CaseInsensitiveHeaderMap { entries: Vec::new() };
        proof {
            assert(r.model() =~= Seq::<(Seq<char>, Seq<char>)>::empty());
        }
        r
    }

    /// Same as `new`; kept as the constructor used by engine code.
    pub fn create() -> (r: Self)
        ensures
            r.model() == Seq::<(Seq<char>, Seq<char>)>::empty(),
            r.wf(),
    {
        Self::new()
    }

    pub fn len(&self) -> (r: usize)
        ensures
            r == self.model().len(),
    {
        self.entries.len()
    }

    /// Inserts a header, overwriting any entry of the same case-insensitive
    /// name in place.
    pub fn insert(&mut self, key: String, value: String)
        requires
            old(self).wf(),
        ensures
            final(self).model() == spec_insert(old(self).model(), key@, value@),
            final(self).wf(),
    {
        let ghost m0 = self.model();
        let lkey = lower_str(key.as_str());
        let n = self.entries.len();
        let mut i: usize = 0;
        while i < n
            invariant
                i <= n,
                n == self.entries@.len(),
                self == old(self),
                m0 == self.model(),
                old(self).wf(),
                lkey@ == lower_seq(key@),
                forall|j: int| 0 <= j < i ==> lower_seq(#[trigger] m0[j].0) != lower_seq(key@),
            decreases n - i,
        {
            let lname = lower_str(self.entries[i].0.as_str());
            if str_eq(lname.as_str(), lkey.as_str()) {
                self.entries.set(i, (key, value));
                proof {
                    lemma_insert_at_match(m0, key@, value@, i as int);
                    assert(self.model() =~= m0.update(i as int, (key@, value@)));
                    lemma_insert_distinct(m0, key@, value@);
                }
                return ;
            }
            i = i + 1;
        }
        self.entries.push((key, value));
        proof {
            lemma_insert_no_match(m0, key@, value@);
            assert(self.model() =~= m0.push((key@, value@)));
            lemma_insert_distinct(m0, key@, value@);
        }
    }

    /// Case-insensitive lookup: the value stored under any spelling of
    /// `key`, or `None`.
    pub fn get_value(&self, key: &str) -> (r: Option<String>)
        ensures
            r matches Some(v) ==> self.spec_get(key@) == Some(v@),
            r is None ==> self.spec_get(key@) is None,
    {
        let lkey = lower_str(key);
        let n = self.entries.len();
        let mut i: usize = 0;
        while i < n
            invariant
                i <= n,
                n == self.entries@.len(),
                lkey@ == lower_seq(key@),
                forall|j: int| 0 <= j < i ==> lower_seq(#[trigger] pairs_view(self.entries@)[j].0)
                    != lower_seq(key@),
            decreases n - i,
        {
            let lname = lower_str(self.entries[i].0.as_str());
            if str_eq(lname.as_str(), lkey.as_str()) {
                let v = self.entries[i].1.clone();
                proof {
                    lemma_lookup_first_match(self.model(), lower_seq(key@), i as int);
                }
                return Some(v);
            }
            i = i + 1;
        }
        proof {
            lemma_lookup_no_match(self.model(), lower_seq(key@));
        }
        None
    }

    /// Whether any spelling of `key` is present.
    pub fn contains_key(&self, key: &str) -> (r: bool)
        ensures
            r == (self.spec_get(key@) is Some),
    {
        let v = self.get_value(key);
        v.is_some()
    }

    /// The stored value under any spelling of `key`, or the caller's
    /// default, or the empty string.
    pub fn get(&self, key: &str, default: Option<String>) -> (r: String)
        ensures
            self.spec_get(key@) matches Some(v) ==> r@ == v,
            (self.spec_get(key@) is None && default is Some) ==> r@ == default.unwrap()@,
            self.spec_get(key@) is None && default is None ==> r@ == Seq::<char>::empty(),
    {
        match self.get_value(key) {
            Some(v) => v,
            None => match default {
                Some(d) => d,
                None => String::new(),
            },
        }
    }

    /// The header names in insertion order.
    pub fn keys(&self) -> (r: Vec<String>)
        ensures
            r@.len() == self.model().len(),
            forall|i: int| 0 <= i < r@.len() ==> r@[i]@ == self.model()[i].0,
    {
        let n = self.entries.len();
        let mut r: Vec<String> = Vec::new();
        let mut i: usize = 0;
        while i < n
            invariant
                i <= n,
                n == self.entries@.len(),
                r@.len() == i,
                forall|j: int| 0 <= j < i ==> r@[j]@ == pairs_view(self.entries@)[j].0,
            decreases n - i,
        {
            r.push(self.entries[i].0.clone());
            i = i + 1;
        }
        r
    }

    /// The header values in insertion order.
    pub fn values(&self) -> (r: Vec<String>)
        ensures
            r@.len() == self.model().len(),
            forall|i: int| 0 <= i < r@.len() ==> r@[i]@ == self.model()[i].1,
    {
        let n = self.entries.len();
        let mut r: Vec<String> = Vec::new();
        let mut i: usize = 0;
        while i < n
            invariant
                i <= n,
                n == self.entries@.len(),
                r@.len() == i,
                forall|j: int| 0 <= j < i ==> r@[j]@ == pairs_view(self.entries@)[j].1,
            decreases n - i,
        {
            r.push(self.entries[i].1.clone());
            i = i + 1;
        }
        r
    }

    /// The `(name, value)` pairs in insertion order.
    pub fn items(&self) -> (r: Vec<(String, String)>)
        ensures
            pairs_view(r@) == self.model(),
    {
        let n = self.entries.len();
        let mut r: Vec<(String, String)> = Vec::new();
        let mut i: usize = 0;
        while i < n
            invariant
                i <= n,
                n == self.entries@.len(),
                r@.len() == i,
                forall|j: int| 0 <= j < i ==> #[trigger] r@[j].0@ == self.model()[j].0 && r@[j].1@
                    == self.model()[j].1,
            decreases n - i,
        {
            let k = self.entries[i].0.clone();
            let v = self.entries[i].1.clone();
            r.push((k, v));
            i = i + 1;
        }
        proof {
            assert(pairs_view(r@) =~= self.model());
        }
        r
    }

    /// A copy with the same entries.
    pub fn duplicate(&self) -> (r: Self)
        ensures
            r.model() == self.model(),
    {
        let r = CaseInsensitiveHeaderMap { entries: self.items() };
        r
    }

    /// Merges `other`'s entries into `self` in order, each overwriting
    /// any entry of the same case-insensitive name.
    pub fn merge_from(&mut self, other: &CaseInsensitiveHeaderMap)
        requires
            old(self).wf(),
        ensures
            final(self).model() == spec_insert_all(old(self).model(), other.model()),
            final(self).wf(),
    {
        let items = other.items();
        let n = items.len();
        let mut i: usize = 0;
        while i < n
            invariant
                i <= n,
                n == items@.len(),
                pairs_view(items@) == other.model(),
                self.wf(),
                self.model() == spec_insert_all(old(self).model(), other.model().take(i as int)),
            decreases n - i,
        {
            let k = items[i].0.clone();
            let v = items[i].1.clone();
            self.insert(k, v);
            proof {
                let m = other.model();
                assert(m.take(i + 1).drop_last() =~= m.take(i as int));
                assert(m.take(i + 1).last() == m[i as int]);
            }
            i = i + 1;
        }
        proof {
            assert(other.model().take(n as int) =~= other.model());
        }
    }

    /// Builds a map from ordered `(name, value)` pairs, inserting in order.
    pub fn from_indexmap(pairs: Vec<(String, String)>) -> (r: Self)
        ensures
            r.wf(),
            r.model() == spec_insert_all(
                Seq::<(Seq<char>, Seq<char>)>::empty(),
                pairs_view(pairs@),
            ),
    {
        let mut r = Self::create();
        let n = pairs.len();
        let mut i: usize = 0;
        while i < n
            invariant
                i <= n,
                n == pairs@.len(),
                r.wf(),
                r.model() == spec_insert_all(
                    Seq::<(Seq<char>, Seq<char>)>::empty(),
                    pairs_view(pairs@).take(i as int),
                ),
            decreases n - i,
        {
            let k = pairs[i].0.clone();
            let v = pairs[i].1.clone();
            r.insert(k, v);
            proof {
                let pv = pairs_view(pairs@);
                assert(pv.take(i + 1).drop_last() =~= pv.take(i as int));
                assert(pv.take(i + 1).last() == pv[i as int]);
            }
            i = i + 1;
        }
        proof {
            assert(pairs_view(pairs@).take(n as int) =~= pairs_view(pairs@));
        }
        r
    }
}

/// The map that results from inserting each pair of `pairs` in order.
pub open spec fn spec_insert_all(
    base: Seq<(Seq<char>, Seq<char>)>,
    pairs: Seq<(Seq<char>, Seq<char>)>,
) -> Seq<(Seq<char>, Seq<char>)>
    decreases pairs.len(),
{
    if pairs.len() == 0 {
        base
    } else {
        spec_insert(spec_insert_all(base, pairs.drop_last()), pairs.last().0, pairs.last().1)
    }
}

/// Lookups are case-insensitive: two spellings of one name always see the
/// same value.
pub proof fn lemma_get_case_insensitive(
    m: CaseInsensitiveHeaderMap,
    name1: Seq<char>,
    name2: Seq<char>,
)
    requires
        lower_seq(name1) == lower_seq(name2),
    ensures
        m.spec_get(name1) == m.spec_get(name2),
{
}

/// After `insert(name, value)` on a map, a lookup of any spelling of
/// `name` sees `value`, and every other name sees what it saw before.
pub proof fn lemma_insert_then_get(
    before: CaseInsensitiveHeaderMap,
    after: CaseInsensitiveHeaderMap,
    name: Seq<char>,
    value: Seq<char>,
    probe: Seq<char>,
)
    requires
        after.model() == spec_insert(before.model(), name, value),
    ensures
        after.spec_get(probe) == if lower_seq(probe) == lower_seq(name) {
            Some(value)
        } else {
            before.spec_get(probe)
        },
{
    lemma_lookup_after_insert(before.model(), name, value, probe);
}

/// After `insert(name, value)`, a lookup of any spelling of `name` sees
/// `value`, and every other name sees what it saw before.
pub proof fn lemma_lookup_after_insert(
    entries: Seq<(Seq<char>, Seq<char>)>,
    name: Seq<char>,
    value: Seq<char>,
    probe: Seq<char>,
)
    ensures
        lookup(spec_insert(entries, name, value), lower_seq(probe)) == if lower_seq(probe)
            == lower_seq(name) {
            Some(value)
        } else {
            lookup(entries, lower_seq(probe))
        },
    decreases entries.len(),
{
    let ln = lower_seq(probe);
    let s = spec_insert(entries, name, value);
    if entries.len() == 0 {
        assert(s == seq![(name, value)]);
        assert(s[0] == (name, value));
        assert(s.drop_first() =~= Seq::<(Seq<char>, Seq<char>)>::empty());
        if ln == lower_seq(name) {
            assert(lookup(s, ln) == Some(value));
        } else {
            assert(lookup(s, ln) == lookup(s.drop_first(), ln));
        }
    } else if lower_seq(entries[0].0) == lower_seq(name) {
        assert(s == seq![(name, value)] + entries.drop_first());
        assert(s[0] == (name, value));
        assert(s.drop_first() =~= entries.drop_first());
        if ln == lower_seq(name) {
            assert(lookup(s, ln) == Some(value));
        } else {
            assert(lookup(s, ln) == lookup(entries.drop_first(), ln));
            assert(lookup(entries, ln) == lookup(entries.drop_first(), ln));
        }
    } else {
        assert(s == seq![entries[0]] + spec_insert(entries.drop_first(), name, value));
        assert(s[0] == entries[0]);
        assert(s.drop_first() =~= spec_insert(entries.drop_first(), name, value));
        lemma_lookup_after_insert(entries.drop_first(), name, value, probe);
        if lower_seq(entries[0].0) == ln {
            assert(lookup(s, ln) == Some(entries[0].1));
            assert(lookup(entries, ln) == Some(entries[0].1));
        } else {
            assert(lookup(s, ln) == lookup(spec_insert(entries.drop_first(), name, value), ln));
            assert(lookup(entries, ln) == lookup(entries.drop_first(), ln));
        }
    }
}

proof fn lemma_lookup_first_match(entries: Seq<(Seq<char>, Seq<char>)>, lname: Seq<char>, i: int)
    requires
        0 <= i < entries.len(),
        lower_seq(entries[i].0) == lname,
        forall|j: int| 0 <= j < i ==> lower_seq(#[trigger] entries[j].0) != lname,
    ensures
        lookup(entries, lname) == Some(entries[i].1),
    decreases i,
{
    if i > 0 {
        lemma_lookup_first_match(entries.drop_first(), lname, i - 1);
    }
}

proof fn lemma_lookup_no_match(entries: Seq<(Seq<char>, Seq<char>)>, lname: Seq<char>)
    requires
        forall|j: int| 0 <= j < entries.len() ==> lower_seq(#[trigger] entries[j].0) != lname,
    ensures
        lookup(entries, lname) is None,
    decreases entries.len(),
{
    if entries.len() > 0 {
        lemma_lookup_no_match(entries.drop_first(), lname);
    }
}

proof fn lemma_insert_at_match(
    entries: Seq<(Seq<char>, Seq<char>)>,
    name: Seq<char>,
    value: Seq<char>,
    i: int,
)
    requires
        0 <= i < entries.len(),
        lower_seq(entries[i].0) == lower_seq(name),
        forall|j: int| 0 <= j < i ==> lower_seq(#[trigger] entries[j].0) != lower_seq(name),
    ensures
        spec_insert(entries, name, value) == entries.update(i, (name, value)),
    decreases i,
{
    if i == 0 {
        assert(spec_insert(entries, name, value) =~= entries.update(0, (name, value)));
    } else {
        lemma_insert_at_match(entries.drop_first(), name, value, i - 1);
        assert(entries.update(i, (name, value)).drop_first() =~= entries.drop_first().update(
            i - 1,
            (name, value),
        ));
        assert(spec_insert(entries, name, value) =~= seq![entries[0]] + spec_insert(
            entries.drop_first(),
            name,
            value,
        ));
        assert(seq![entries[0]] + entries.drop_first().update(i - 1, (name, value))
            =~= entries.update(i, (name, value)));
    }
}

proof fn lemma_insert_no_match(
    entries: Seq<(Seq<char>, Seq<char>)>,
    name: Seq<char>,
    value: Seq<char>,
)
    requires
        forall|j: int| 0 <= j < entries.len() ==> lower_seq(#[trigger] entries[j].0) != lower_seq(
            name,
        ),
    ensures
        spec_insert(entries, name, value) == entries.push((name, value)),
    decreases entries.len(),
{
    if entries.len() == 0 {
        assert(spec_insert(entries, name, value) =~= entries.push((name, value)));
    } else {
        lemma_insert_no_match(entries.drop_first(), name, value);
        assert(entries.push((name, value)).drop_first() =~= entries.drop_first().push(
            (name, value),
        ));
        assert(spec_insert(entries, name, value) =~= entries.push((name, value)));
    }
}

/// Inserting preserves the one-entry-per-name invariant.
proof fn lemma_insert_distinct(
    entries: Seq<(Seq<char>, Seq<char>)>,
    name: Seq<char>,
    value: Seq<char>,
)
    requires
        distinct_names(entries),
    ensures
        distinct_names(spec_insert(entries, name, value)),
    decreases entries.len(),
{
    if entries.len() == 0 {
    } else if lower_seq(entries[0].0) == lower_seq(name) {
        let r = seq![(name, value)] + entries.drop_first();
        assert forall|i: int, j: int| 0 <= i < j < r.len() implies lower_seq(r[i].0) != lower_seq(
            r[j].0,
        ) by {
            assert(entries.drop_first()[j - 1] == entries[j]);
            if i > 0 {
                assert(entries.drop_first()[i - 1] == entries[i]);
            }
        }
    } else {
        lemma_insert_distinct(entries.drop_first(), name, value);
        let rest = spec_insert(entries.drop_first(), name, value);
        let r = seq![entries[0]] + rest;
        assert forall|i: int, j: int| 0 <= i < j < r.len() implies lower_seq(r[i].0) != lower_seq(
            r[j].0,
        ) by {
            if i == 0 {
                lemma_insert_names(entries.drop_first(), name, value, j - 1);
            }
        }
    }
}

/// Every name in the inserted map is either an old name or the new one.
proof fn lemma_insert_names(
    entries: Seq<(Seq<char>, Seq<char>)>,
    name: Seq<char>,
    value: Seq<char>,
    k: int,
)
    requires
        0 <= k < spec_insert(entries, name, value).len(),
    ensures
        lower_seq(spec_insert(entries, name, value)[k].0) == lower_seq(name) || exists|i: int|
            0 <= i < entries.len() && lower_seq(#[trigger] entries[i].0) == lower_seq(
                spec_insert(entries, name, value)[k].0,
            ),
    decreases entries.len(),
{
    if entries.len() == 0 {
    } else if lower_seq(entries[0].0) == lower_seq(name) {
        let r = seq![(name, value)] + entries.drop_first();
        if k > 0 {
            assert(r[k] == entries.drop_first()[k - 1]);
            assert(entries.drop_first()[k - 1] == entries[k]);
            assert(lower_seq(entries[k].0) == lower_seq(r[k].0));
        }
    } else {
        if k > 0 {
            lemma_insert_names(entries.drop_first(), name, value, k - 1);
            let r = seq![entries[0]] + spec_insert(entries.drop_first(), name, value);
            assert(r[k] == spec_insert(entries.drop_first(), name, value)[k - 1]);
            if lower_seq(spec_insert(entries.drop_first(), name, value)[k - 1].0) != lower_seq(
                name,
            ) {
                let i = choose|i: int|
                    0 <= i < entries.drop_first().len() && lower_seq(
                        #[trigger] entries.drop_first()[i].0,
                    ) == lower_seq(spec_insert(entries.drop_first(), name, value)[k - 1].0);
                assert(entries.drop_first()[i] == entries[i + 1]);
                assert(lower_seq(entries[i + 1].0) == lower_seq(r[k].0));
            }
        }
    }
}

} // verus!
