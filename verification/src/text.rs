//! Character and string utilities: ASCII lower-casing, equality, search.
//!
//! Header names, charset labels and media types are compared
//! case-insensitively over ASCII; these helpers carry the spec-level
//! definitions that the rest of the crate states its contracts with.

use vstd::prelude::*;

verus! {

/// The ASCII lower-case image of one character: `'A'..'Z'` map to
/// `'a'..'z'`, every other character is unchanged.
pub open spec fn lower_char(c: char) -> char {
    if 'A' <= c && c <= 'Z' {
        ((c as u8) + 32) as char
    } else {
        c
    }
}

/// The ASCII lower-case image of a character sequence.
pub open spec fn lower_seq(s: Seq<char>) -> Seq<char> {
    s.map_values(|c: char| lower_char(c))
}

/// Relies on `char::to_ascii_lowercase`: ASCII letters 'A' to 'Z' are
/// mapped to 'a' to 'z', all other characters are unchanged.
pub assume_specification[ char::to_ascii_lowercase ](c: &char) -> (r: char)
    ensures
        r == lower_char(*c),
;

/// Relies on `String::push`: appends the given character to the end of
/// the string.
#[verifier::external_body]
pub(crate) fn push_char(s: &mut String, c: char)
    ensures
        final(s)@ == old(s)@.push(c),
{
    s.push(c);
}

/// ASCII lower-case of a string slice.
pub fn lower_str(s: &str) -> (r: String)
    ensures
        r@ == lower_seq(s@),
{
    let n = s.unicode_len();
    let mut r = String::new();
    let mut i: usize = 0;
    while i < n
        invariant
            i <= n,
            n == s@.len(),
            r@ == lower_seq(s@.take(i as int)),
        decreases n - i,
    {
        let c = s.get_char(i);
        push_char(&mut r, c.to_ascii_lowercase());
        proof {
            assert(lower_seq(s@.take(i + 1)) =~= lower_seq(s@.take(i as int)).push(
                lower_char(s@[i as int]),
            ));
        }
        i = i + 1;
    }
    proof {
        assert(s@.take(n as int) =~= s@);
    }
    r
}

/// Blank characters that surround tokens in header values.
pub open spec fn is_space(c: char) -> bool {
    c == ' ' || c == '\t'
}

/// `s` without its leading blanks.
pub open spec fn trim_front(s: Seq<char>) -> Seq<char>
    decreases s.len(),
{
    if s.len() > 0 && is_space(s[0]) {
        trim_front(s.drop_first())
    } else {
        s
    }
}

/// `s` without its trailing blanks.
pub open spec fn trim_back(s: Seq<char>) -> Seq<char>
    decreases s.len(),
{
    if s.len() > 0 && is_space(s.last()) {
        trim_back(s.drop_last())
    } else {
        s
    }
}

/// `s` without leading and trailing blanks.
pub open spec fn trim_spaces(s: Seq<char>) -> Seq<char> {
    trim_back(trim_front(s))
}

/// `s` without leading double quotes.
pub open spec fn unquote_front(s: Seq<char>) -> Seq<char>
    decreases s.len(),
{
    if s.len() > 0 && s[0] == '"' {
        unquote_front(s.drop_first())
    } else {
        s
    }
}

/// `s` without trailing double quotes.
pub open spec fn unquote_back(s: Seq<char>) -> Seq<char>
    decreases s.len(),
{
    if s.len() > 0 && s.last() == '"' {
        unquote_back(s.drop_last())
    } else {
        s
    }
}

/// `s` without surrounding double quotes.
pub open spec fn unquote(s: Seq<char>) -> Seq<char> {
    unquote_back(unquote_front(s))
}

proof fn lemma_trim_front_skip(s: Seq<char>, a: int)
    requires
        0 <= a <= s.len(),
        forall|j: int| 0 <= j < a ==> is_space(s[j]),
        a == s.len() || !is_space(s[a]),
    ensures
        trim_front(s) == s.skip(a),
    decreases a,
{
    if a == 0 {
        assert(s.skip(0) =~= s);
    } else {
        assert(s.drop_first() =~= s.skip(1));
        lemma_trim_front_skip(s.skip(1), a - 1);
        assert(s.skip(1).skip(a - 1) =~= s.skip(a));
    }
}

proof fn lemma_trim_back_take(s: Seq<char>, b: int)
    requires
        0 <= b <= s.len(),
        forall|j: int| b <= j < s.len() ==> is_space(s[j]),
        b == 0 || !is_space(s[b - 1]),
    ensures
        trim_back(s) == s.take(b),
    decreases s.len() - b,
{
    if b == s.len() {
        assert(s.take(b) =~= s);
    } else {
        assert(s.drop_last() =~= s.take(s.len() - 1));
        lemma_trim_back_take(s.take(s.len() - 1), b);
        assert(s.take(s.len() - 1).take(b) =~= s.take(b));
    }
}

proof fn lemma_unquote_front_skip(s: Seq<char>, a: int)
    requires
        0 <= a <= s.len(),
        forall|j: int| 0 <= j < a ==> s[j] == '"',
        a == s.len() || s[a] != '"',
    ensures
        unquote_front(s) == s.skip(a),
    decreases a,
{
    if a == 0 {
        assert(s.skip(0) =~= s);
    } else {
        assert(s.drop_first() =~= s.skip(1));
        lemma_unquote_front_skip(s.skip(1), a - 1);
        assert(s.skip(1).skip(a - 1) =~= s.skip(a));
    }
}

proof fn lemma_unquote_back_take(s: Seq<char>, b: int)
    requires
        0 <= b <= s.len(),
        forall|j: int| b <= j < s.len() ==> s[j] == '"',
        b == 0 || s[b - 1] != '"',
    ensures
        unquote_back(s) == s.take(b),
    decreases s.len() - b,
{
    if b == s.len() {
        assert(s.take(b) =~= s);
    } else {
        assert(s.drop_last() =~= s.take(s.len() - 1));
        lemma_unquote_back_take(s.take(s.len() - 1), b);
        assert(s.take(s.len() - 1).take(b) =~= s.take(b));
    }
}

/// The slice of `s` between its surrounding blanks.
pub fn trim_spaces_str<'a>(s: &'a str) -> (r: &'a str)
    ensures
        r@ == trim_spaces(s@),
{
    let n = s.unicode_len();
    let mut a: usize = 0;
    while a < n && (s.get_char(a) == ' ' || s.get_char(a) == '\t')
        invariant
            a <= n,
            n == s@.len(),
            forall|j: int| 0 <= j < a ==> is_space(s@[j]),
        decreases n - a,
    {
        a = a + 1;
    }
    let mut b: usize = n;
    while b > a && (s.get_char(b - 1) == ' ' || s.get_char(b - 1) == '\t')
        invariant
            a <= b <= n,
            n == s@.len(),
            forall|j: int| 0 <= j < a ==> is_space(s@[j]),
            a == n || !is_space(s@[a as int]),
            forall|j: int| b <= j < n ==> is_space(s@[j]),
        decreases b,
    {
        b = b - 1;
    }
    proof {
        lemma_trim_front_skip(s@, a as int);
        if b == a {
            lemma_trim_back_take(s@.skip(a as int), 0);
        } else {
            lemma_trim_back_take(s@.skip(a as int), b - a);
        }
        assert(s@.skip(a as int).take(b - a) =~= s@.subrange(a as int, b as int));
    }
    s.substring_char(a, b)
}

/// The slice of `s` between its surrounding double quotes.
pub fn unquote_str<'a>(s: &'a str) -> (r: &'a str)
    ensures
        r@ == unquote(s@),
{
    let n = s.unicode_len();
    let mut a: usize = 0;
    while a < n && s.get_char(a) == '"'
        invariant
            a <= n,
            n == s@.len(),
            forall|j: int| 0 <= j < a ==> s@[j] == '"',
        decreases n - a,
    {
        a = a + 1;
    }
    let mut b: usize = n;
    while b > a && s.get_char(b - 1) == '"'
        invariant
            a <= b <= n,
            n == s@.len(),
            forall|j: int| 0 <= j < a ==> s@[j] == '"',
            a == n || s@[a as int] != '"',
            forall|j: int| b <= j < n ==> s@[j] == '"',
        decreases b,
    {
        b = b - 1;
    }
    proof {
        lemma_unquote_front_skip(s@, a as int);
        if b == a {
            lemma_unquote_back_take(s@.skip(a as int), 0);
        } else {
            lemma_unquote_back_take(s@.skip(a as int), b - a);
        }
        assert(s@.skip(a as int).take(b - a) =~= s@.subrange(a as int, b as int));
    }
    s.substring_char(a, b)
}

/// First position of `c` in `s` at or after `from`.
pub fn find_char(s: &str, c: char, from: usize) -> (r: Option<usize>)
    requires
        from <= s@.len(),
    ensures
        r matches Some(i) ==> from <= i < s@.len() && s@[i as int] == c && forall|j: int|
            from <= j < i ==> s@[j] != c,
        r is None ==> forall|j: int| from <= j < s@.len() ==> s@[j] != c,
{
    let n = s.unicode_len();
    let mut i: usize = from;
    while i < n
        invariant
            from <= i <= n,
            n == s@.len(),
            forall|j: int| from <= j < i ==> s@[j] != c,
        decreases n - i,
    {
        if s.get_char(i) == c {
            return Some(i);
        }
        i = i + 1;
    }
    None
}

/// Whether `p` is a prefix of `s`.
pub fn has_prefix(s: &str, p: &str) -> (r: bool)
    ensures
        r == (s@.len() >= p@.len() && s@.take(p@.len() as int) == p@),
{
    let np = p.unicode_len();
    let ns = s.unicode_len();
    if np > ns {
        return false;
    }
    let mut i: usize = 0;
    while i < np
        invariant
            i <= np,
            np == p@.len(),
            ns == s@.len(),
            np <= ns,
            forall|j: int| 0 <= j < i ==> s@[j] == p@[j],
        decreases np - i,
    {
        if s.get_char(i) != p.get_char(i) {
            return false;
        }
        i = i + 1;
    }
    proof {
        assert(s@.take(np as int) =~= p@);
    }
    true
}

/// Whether `needle` occurs as a contiguous subsequence of `hay`.
pub open spec fn contains_seq(hay: Seq<char>, needle: Seq<char>) -> bool {
    exists|i: int|
        0 <= i <= hay.len() - needle.len() && #[trigger] hay.subrange(i, i + needle.len())
            == needle
}

/// Substring search.
pub fn str_contains(hay: &str, needle: &str) -> (r: bool)
    ensures
        r == contains_seq(hay@, needle@),
{
    let nn = needle.unicode_len();
    let nh = hay.unicode_len();
    if nn > nh {
        proof {
            assert(!contains_seq(hay@, needle@));
        }
        return false;
    }
    if nn == 0 {
        proof {
            assert(hay@.subrange(0, 0 + needle@.len() as int) =~= needle@);
            assert(contains_seq(hay@, needle@));
        }
        return true;
    }
    let mut i: usize = 0;
    while i <= nh - nn
        invariant
            nn == needle@.len(),
            nh == hay@.len(),
            1 <= nn <= nh,
            i <= nh - nn + 1,
            forall|k: int| 0 <= k < i ==> #[trigger] hay@.subrange(k, k + nn) != needle@,
        decreases nh + 1 - nn - i,
    {
        let mut j: usize = 0;
        let mut matched = true;
        while j < nn && matched
            invariant
                j <= nn,
                i + nn <= nh,
                nn == needle@.len(),
                nh == hay@.len(),
                matched ==> forall|t: int| 0 <= t < j ==> hay@[i + t] == needle@[t],
                !matched ==> hay@.subrange(i as int, i + nn) != needle@,
            decreases nn - j + if matched { 1int } else { 0int },
        {
            if hay.get_char(i + j) != needle.get_char(j) {
                proof {
                    assert(hay@.subrange(i as int, i + nn)[j as int] != needle@[j as int]);
                }
                matched = false;
            } else {
                j = j + 1;
            }
        }
        if matched {
            proof {
                assert(hay@.subrange(i as int, i + nn) =~= needle@);
            }
            return true;
        }
        i = i + 1;
    }
    false
}

/// The views of a sequence of owned strings.
pub open spec fn strs_view(v: Seq<String>) -> Seq<Seq<char>> {
    v.map_values(|t: String| t@)
}

/// The pieces of `s` between occurrences of `c`, in order.  There is
/// always at least one piece; empty pieces are kept.
pub open spec fn split_seq(s: Seq<char>, c: char) -> Seq<Seq<char>>
    decreases s.len(),
{
    if s.len() == 0 {
        seq![Seq::<char>::empty()]
    } else if s[0] == c {
        seq![Seq::<char>::empty()] + split_seq(s.drop_first(), c)
    } else {
        let r = split_seq(s.drop_first(), c);
        seq![seq![s[0]] + r[0]] + r.drop_first()
    }
}

pub proof fn lemma_split_seq_nonempty(s: Seq<char>, c: char)
    ensures
        split_seq(s, c).len() >= 1,
    decreases s.len(),
{
    if s.len() > 0 {
        lemma_split_seq_nonempty(s.drop_first(), c);
    }
}

/// Splitting at the first occurrence of `c` decomposes the pieces: the
/// head piece is what precedes it, the rest are the pieces of what
/// follows it.
pub proof fn lemma_split_first(s: Seq<char>, c: char, k: int)
    requires
        0 <= k <= s.len(),
        forall|j: int| 0 <= j < k ==> s[j] != c,
        k == s.len() || s[k] == c,
    ensures
        k == s.len() ==> split_seq(s, c) == seq![s],
        k < s.len() ==> split_seq(s, c) == seq![s.take(k)] + split_seq(s.skip(k + 1), c),
    decreases s.len(),
{
    lemma_split_seq_nonempty(s, c);
    if s.len() == 0 {
        assert(s =~= Seq::<char>::empty());
        assert(split_seq(s, c) == seq![s]);
    } else if s[0] == c {
        assert(k == 0);
        assert(s.take(0) =~= Seq::<char>::empty());
        assert(s.skip(1) =~= s.drop_first());
        assert(split_seq(s, c) =~= seq![s.take(0)] + split_seq(s.skip(1), c));
    } else {
        let d = s.drop_first();
        lemma_split_first(d, c, k - 1);
        let r = split_seq(d, c);
        lemma_split_seq_nonempty(d, c);
        if k == s.len() {
            assert(r == seq![d]);
            assert(r[0] == d);
            assert(seq![s[0]] + r[0] =~= s);
            assert(r.drop_first() =~= Seq::<Seq<char>>::empty());
            assert(split_seq(s, c) =~= seq![s]);
        } else {
            assert(r == seq![d.take(k - 1)] + split_seq(d.skip(k), c));
            assert(r[0] == d.take(k - 1));
            assert(seq![s[0]] + d.take(k - 1) =~= s.take(k));
            assert(r.drop_first() =~= split_seq(d.skip(k), c));
            assert(d.skip(k) =~= s.skip(k + 1));
            assert(split_seq(s, c) =~= seq![s.take(k)] + split_seq(s.skip(k + 1), c));
        }
    }
}

/// The pieces of `s` between occurrences of `c`, as owned strings.
pub fn split_str(s: &str, c: char) -> (r: Vec<String>)
    ensures
        strs_view(r@) == split_seq(s@, c),
{
    let n = s.unicode_len();
    let mut r: Vec<String> = Vec::new();
    let mut pos: usize = 0;
    proof {
        assert(s@.skip(0) =~= s@);
        assert(strs_view(r@) + split_seq(s@, c) =~= split_seq(s@, c));
    }
    loop
        invariant_except_break
            pos <= n,
            n == s@.len(),
            split_seq(s@, c) == strs_view(r@) + split_seq(s@.skip(pos as int), c),
        ensures
            strs_view(r@) == split_seq(s@, c),
        decreases n - pos,
    {
        let next = find_char(s, c, pos);
        match next {
            Some(k) => {
                let piece = s.substring_char(pos, k);
                r.push(piece.to_owned());
                proof {
                    let rem = s@.skip(pos as int);
                    lemma_split_first(rem, c, k - pos);
                    assert(rem.take(k - pos) =~= s@.subrange(pos as int, k as int));
                    assert(rem.skip(k - pos + 1) =~= s@.skip(k + 1));
                    assert(strs_view(r@) =~= strs_view(r@.drop_last()).push(piece@));
                    assert(strs_view(r@.drop_last()).push(rem.take(k - pos)) + split_seq(
                        s@.skip(k + 1),
                        c,
                    ) =~= strs_view(r@.drop_last()) + split_seq(rem, c));
                }
                pos = k + 1;
            },
            None => {
                let piece = s.substring_char(pos, n);
                r.push(piece.to_owned());
                proof {
                    let rem = s@.skip(pos as int);
                    lemma_split_first(rem, c, n - pos);
                    assert(rem =~= s@.subrange(pos as int, n as int));
                    assert(strs_view(r@) =~= strs_view(r@.drop_last()).push(piece@));
                    assert(strs_view(r@.drop_last()).push(rem) =~= strs_view(r@.drop_last())
                        + split_seq(rem, c));
                }
                break ;
            },
        }
    }
    r
}

/// Character-wise equality of two string slices.
pub fn str_eq(a: &str, b: &str) -> (r: bool)
    ensures
        r == (a@ == b@),
{
    let na = a.unicode_len();
    let nb = b.unicode_len();
    if na != nb {
        return false;
    }
    let mut i: usize = 0;
    while i < na
        invariant
            i <= na,
            na == a@.len(),
            na == b@.len(),
            forall|j: int| 0 <= j < i ==> a@[j] == b@[j],
        decreases na - i,
    {
        if a.get_char(i) != b.get_char(i) {
            return false;
        }
        i = i + 1;
    }
    proof {
        assert(a@ =~= b@);
    }
    true
}

} // verus!
