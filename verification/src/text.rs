use vstd::prelude::*;

verus! {

/// Strict lexicographic order on character sequences, comparing code points;
/// this is the order in which sorted maps keyed by strings walk their keys.
pub open spec fn lex_lt(a: Seq<char>, b: Seq<char>) -> bool
    decreases a.len(),
{
    if a.len() == 0 {
        b.len() > 0
    } else if b.len() == 0 {
        false
    } else if (a[0] as int) < (b[0] as int) {
        true
    } else if a[0] == b[0] {
        lex_lt(a.drop_first(), b.drop_first())
    } else {
        false
    }
}

/// No sequence comes before itself.
pub proof fn lemma_lex_lt_irreflexive(a: Seq<char>)
    ensures
        !lex_lt(a, a),
    decreases a.len(),
{
    if a.len() > 0 {
        lemma_lex_lt_irreflexive(a.drop_first());
    }
}

/// The order is transitive.
pub proof fn lemma_lex_lt_transitive(a: Seq<char>, b: Seq<char>, c: Seq<char>)
    requires
        lex_lt(a, b),
        lex_lt(b, c),
    ensures
        lex_lt(a, c),
    decreases a.len(),
{
    if a.len() > 0 && b.len() > 0 && c.len() > 0 {
        if a[0] == b[0] && b[0] == c[0] {
            lemma_lex_lt_transitive(a.drop_first(), b.drop_first(), c.drop_first());
        }
    }
}

/// Of two different sequences one comes before the other.
pub proof fn lemma_lex_lt_total(a: Seq<char>, b: Seq<char>)
    ensures
        lex_lt(a, b) || a == b || lex_lt(b, a),
    decreases a.len(),
{
    if a.len() > 0 && b.len() > 0 {
        if a[0] == b[0] {
            lemma_lex_lt_total(a.drop_first(), b.drop_first());
            if a.drop_first() == b.drop_first() {
                assert(a =~= seq![a[0]] + a.drop_first());
                assert(b =~= seq![b[0]] + b.drop_first());
            }
        } else {
            assert((a[0] as int) != (b[0] as int));
        }
    } else if a.len() == 0 && b.len() == 0 {
        assert(a =~= b);
    }
}

/// Of two sequences at most one comes before the other, and a sequence
/// before another differs from it.
pub proof fn lemma_lex_lt_asymmetric(a: Seq<char>, b: Seq<char>)
    requires
        lex_lt(a, b),
    ensures
        !lex_lt(b, a),
        a != b,
{
    lemma_lex_lt_irreflexive(a);
    if lex_lt(b, a) {
        lemma_lex_lt_transitive(a, b, a);
    }
}

/// Whether two strings hold the same characters.
pub fn str_eq(a: &str, b: &str) -> (r: bool)
    ensures
        r == (a@ == b@),
{
    let n = a.unicode_len();
    let m = b.unicode_len();
    if n != m {
        return false;
    }
    let mut i: usize = 0;
    while i < n
        invariant
            n == a@.len(),
            m == b@.len(),
            n == m,
            i <= n,
            forall|k: int| 0 <= k < i ==> a@[k] == b@[k],
        decreases n - i,
    {
        if a.get_char(i) != b.get_char(i) {
            return false;
        }
        i = i + 1;
    }
    assert(a@ =~= b@);
    true
}

/// Lexicographic comparison of two strings by code points.
pub fn str_lt(a: &str, b: &str) -> (r: bool)
    ensures
        r == lex_lt(a@, b@),
{
    let n = a.unicode_len();
    let m = b.unicode_len();
    let mut i: usize = 0;
    assert(a@.skip(0) =~= a@);
    assert(b@.skip(0) =~= b@);
    while i < n && i < m
        invariant
            n == a@.len(),
            m == b@.len(),
            i <= n,
            i <= m,
            forall|k: int| 0 <= k < i ==> a@[k] == b@[k],
            lex_lt(a@, b@) == lex_lt(a@.skip(i as int), b@.skip(i as int)),
        decreases n - i,
    {
        let ca = a.get_char(i);
        let cb = b.get_char(i);
        assert(a@.skip(i as int)[0] == ca);
        assert(b@.skip(i as int)[0] == cb);
        if ca < cb {
            return true;
        }
        if ca != cb {
            return false;
        }
        assert(a@.skip(i as int).drop_first() =~= a@.skip(i + 1));
        assert(b@.skip(i as int).drop_first() =~= b@.skip(i + 1));
        i = i + 1;
    }
    i < m && i == n
}

/// Whether `s` begins with the characters of `prefix`.
pub fn str_starts_with(s: &str, prefix: &str) -> (r: bool)
    ensures
        r == prefix@.is_prefix_of(s@),
{
    let n = s.unicode_len();
    let m = prefix.unicode_len();
    if m > n {
        return false;
    }
    let mut i: usize = 0;
    while i < m
        invariant
            n == s@.len(),
            m == prefix@.len(),
            m <= n,
            i <= m,
            forall|k: int| 0 <= k < i ==> prefix@[k] == s@[k],
        decreases m - i,
    {
        if s.get_char(i) != prefix.get_char(i) {
            return false;
        }
        i = i + 1;
    }
    true
}


/// Whether `needle` occurs in `s` as a run of consecutive characters.
pub open spec fn occurs_in(s: Seq<char>, needle: Seq<char>) -> bool {
    exists|k: int| 0 <= k <= s.len() - needle.len() && #[trigger] s.subrange(k, k + needle.len()) == needle
}

/// Whether `needle` occurs in `s`; the empty text occurs in every text.
pub fn str_contains(s: &str, needle: &str) -> (r: bool)
    ensures
        r == occurs_in(s@, needle@),
{
    let n = s.unicode_len();
    let m = needle.unicode_len();
    if m > n {
        return false;
    }
    let mut k: usize = 0;
    while k <= n - m
        invariant
            n == s@.len(),
            m == needle@.len(),
            m <= n,
            k <= n - m + 1,
            forall|q: int| 0 <= q < k ==> #[trigger] s@.subrange(q, q + m) != needle@,
        decreases n - m + 1 - k,
    {
        let mut i: usize = 0;
        let mut same = true;
        while i < m
            invariant
                n == s@.len(),
                m == needle@.len(),
                k + m <= n,
                i <= m,
                same == forall|j: int| 0 <= j < i ==> s@[k + j] == needle@[j],
            decreases m - i,
        {
            if s.get_char(k + i) != needle.get_char(i) {
                same = false;
            }
            i = i + 1;
        }
        if same {
            assert(s@.subrange(k as int, k + m) =~= needle@);
            return true;
        }
        assert(s@.subrange(k as int, k + m) != needle@) by {
            let j = choose|j: int| 0 <= j < m && s@[k + j] != needle@[j];
            assert(s@.subrange(k as int, k + m)[j] == s@[k + j]);
        }
        k = k + 1;
    }
    false
}

/// Whether `p` is the position of the first '/' in `s`.
pub open spec fn is_first_slash(s: Seq<char>, p: int) -> bool {
    &&& 0 <= p < s.len()
    &&& s[p] == '/'
    &&& forall|j: int| 0 <= j < p ==> s[j] != '/'
}

/// A name split at its first '/' into a group and a member name; a name
/// without '/' is both its own group and its own member name.
pub open spec fn split_group_name(s: Seq<char>) -> (Seq<char>, Seq<char>) {
    if exists|p: int| is_first_slash(s, p) {
        let p = choose|p: int| is_first_slash(s, p);
        (s.take(p), s.skip(p + 1))
    } else {
        (s, s)
    }
}

/// Where the first '/' of `s` stands at `p`, the name splits there.
pub proof fn lemma_first_slash_unique(s: Seq<char>, p: int)
    requires
        is_first_slash(s, p),
    ensures
        split_group_name(s) == (s.take(p), s.skip(p + 1)),
{
    let q = choose|q: int| is_first_slash(s, q);
    assert(is_first_slash(s, q));
    if q < p {
        assert(s[q] != '/');
    }
    if p < q {
        assert(s[p] != '/');
    }
}

/// A name holding a '/' is its group, a '/', and its member name, and the
/// group holds no '/'; a name without '/' is both its group and its member
/// name.
pub proof fn lemma_split_rejoins(s: Seq<char>)
    ensures
        s.contains('/') ==> split_group_name(s).0 + seq!['/'] + split_group_name(s).1 == s
            && !split_group_name(s).0.contains('/'),
        !s.contains('/') ==> split_group_name(s) == (s, s),
{
    if s.contains('/') {
        let k = choose|k: int| 0 <= k < s.len() && s[k] == '/';
        assert(exists|p: int| is_first_slash(s, p)) by {
            lemma_first_slash_exists(s, k);
        }
        let p = choose|p: int| is_first_slash(s, p);
        lemma_first_slash_unique(s, p);
        assert(s.take(p) + seq!['/'] + s.skip(p + 1) =~= s);
        if s.take(p).contains('/') {
            let j = choose|j: int| 0 <= j < s.take(p).len() && s.take(p)[j] == '/';
            assert(s[j] == '/');
        }
    } else {
        if exists|p: int| is_first_slash(s, p) {
            let p = choose|p: int| is_first_slash(s, p);
            assert(s[p] == '/');
        }
    }
}

/// Where `s` holds a '/' at `k`, some '/' is its first.
proof fn lemma_first_slash_exists(s: Seq<char>, k: int)
    requires
        0 <= k < s.len(),
        s[k] == '/',
    ensures
        exists|p: int| is_first_slash(s, p),
    decreases k,
{
    if forall|j: int| 0 <= j < k ==> s[j] != '/' {
        assert(is_first_slash(s, k));
    } else {
        let j = choose|j: int| 0 <= j < k && s[j] == '/';
        lemma_first_slash_exists(s, j);
    }
}

/// Splits a bag name into its group and its name within the group.
pub fn split_group(s: &str) -> (r: (String, String))
    ensures
        (r.0@, r.1@) == split_group_name(s@),
{
    let n = s.unicode_len();
    let mut p: usize = 0;
    while p < n
        invariant
            n == s@.len(),
            p <= n,
            forall|j: int| 0 <= j < p ==> s@[j] != '/',
        decreases n - p,
    {
        if s.get_char(p) == '/' {
            proof {
                lemma_first_slash_unique(s@, p as int);
            }
            let group = String::from_str(s.substring_char(0, p));
            let member = String::from_str(s.substring_char(p + 1, n));
            assert(s@.subrange(0, p as int) =~= s@.take(p as int));
            assert(s@.subrange(p + 1, n as int) =~= s@.skip(p + 1));
            return (group, member);
        }
        p = p + 1;
    }
    (String::from_str(s), String::from_str(s))
}

} // verus!
