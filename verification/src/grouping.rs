use vstd::prelude::*;

use crate::text::{lex_lt, lemma_lex_lt_total, lemma_lex_lt_transitive, lemma_lex_lt_asymmetric, str_eq, str_lt};

verus! {

/// Whether position `a` comes before position `b` when ordered by rank and,
/// among equal ranks, by position.
pub open spec fn rank_before(ranks: Seq<i128>, a: int, b: int) -> bool {
    ranks[a] < ranks[b] || (ranks[a] == ranks[b] && a < b)
}

/// Whether position `i` is held by one of the groups.
pub open spec fn is_placed(groups: Seq<(String, Vec<usize>)>, i: int) -> bool {
    exists|g: int, x: int|
        0 <= g < groups.len() && 0 <= x < groups[g].1@.len() && groups[g].1@[x] == i
}

/// Whether `groups` gathers the positions `0..names.len()` by name: the
/// groups are in increasing name order, each holds exactly the positions of
/// its name, ordered by rank and then position, and no group is empty.
pub open spec fn is_grouping(
    names: Seq<Seq<char>>,
    ranks: Seq<i128>,
    groups: Seq<(String, Vec<usize>)>,
) -> bool {
    &&& forall|a: int, b: int| 0 <= a < b < groups.len() ==> lex_lt(groups[a].0@, groups[b].0@)
    &&& forall|g: int| 0 <= g < groups.len() ==> groups[g].1@.len() > 0
    &&& forall|g: int, x: int|
        0 <= g < groups.len() && 0 <= x < groups[g].1@.len() ==> {
            &&& (groups[g].1@[x] as int) < names.len()
            &&& names[groups[g].1@[x] as int] == groups[g].0@
        }
    &&& forall|g: int, x: int, y: int|
        0 <= g < groups.len() && 0 <= x < y < groups[g].1@.len() ==> rank_before(
            ranks,
            groups[g].1@[x] as int,
            groups[g].1@[y] as int,
        )
    &&& forall|i: int| 0 <= i < names.len() ==> #[trigger] is_placed(groups, i)
}

/// Where `i` goes among `members`: after every member of rank at most that of `i`.
fn rank_position(members: &Vec<usize>, ranks: &Vec<i128>, i: usize) -> (q: usize)
    requires
        forall|x: int| 0 <= x < members@.len() ==> (members@[x] as int) < ranks@.len(),
        (i as int) < ranks@.len(),
        forall|x: int, y: int|
            0 <= x < y < members@.len() ==> rank_before(ranks@, members@[x] as int, members@[y] as int),
    ensures
        q <= members@.len(),
        forall|x: int| 0 <= x < q ==> ranks@[members@[x] as int] <= ranks@[i as int],
        forall|x: int| q <= x < members@.len() ==> ranks@[members@[x] as int] > ranks@[i as int],
{
    let mut q: usize = 0;
    while q < members.len() && ranks[members[q]] <= ranks[i]
        invariant
            q <= members@.len(),
            forall|x: int| 0 <= x < members@.len() ==> (members@[x] as int) < ranks@.len(),
            (i as int) < ranks@.len(),
            forall|x: int| 0 <= x < q ==> ranks@[members@[x] as int] <= ranks@[i as int],
        decreases members@.len() - q,
    {
        q = q + 1;
    }
    assert forall|x: int| q <= x < members@.len() implies ranks@[members@[x] as int] > ranks@[i as int] by {
        if x > q {
            assert(rank_before(ranks@, members@[q as int] as int, members@[x] as int));
        }
    }
    q
}

/// Gathers the positions of `names` into groups of equal name, in increasing
/// name order, each ordered by rank and then position.
pub fn group_by_name(names: &Vec<String>, ranks: &Vec<i128>) -> (r: Vec<(String, Vec<usize>)>)
    requires
        names@.len() == ranks@.len(),
    ensures
        is_grouping(names@.map_values(|s: String| s@), ranks@, r@),
{
    let ghost nv = names@.map_values(|s: String| s@);
    let mut groups: Vec<(String, Vec<usize>)> = Vec::new();
    let n = names.len();
    let mut i: usize = 0;
    while i < n
        invariant
            n == names@.len(),
            n == ranks@.len(),
            nv == names@.map_values(|s: String| s@),
            i <= n,
            is_grouping(nv.take(i as int), ranks@, groups@),
        decreases n - i,
    {
        let ghost pre = nv.take(i as int);
        let ghost post = nv.take(i + 1);
        assert(post =~= pre.push(names@[i as int]@));
        let name = &names[i];
        let mut p: usize = 0;
        while p < groups.len() && str_lt(groups[p].0.as_str(), name.as_str())
            invariant
                p <= groups@.len(),
                forall|a: int| 0 <= a < p ==> lex_lt(groups@[a].0@, name@),
            decreases groups@.len() - p,
        {
            p = p + 1;
        }
        let ghost old_groups = groups@;
        if p < groups.len() && str_eq(groups[p].0.as_str(), name.as_str()) {
            let (key, mut members) = groups.remove(p);
            let q = rank_position(&members, ranks, i);
            let ghost old_members = members@;
            members.insert(q, i);
            groups.insert(p, (key, members));
            proof {
                assert(groups@ =~= old_groups.update(p as int, (key, members)));
                let m2 = members@;
                assert(m2 =~= old_members.insert(q as int, i));
                assert forall|x: int, y: int| 0 <= x < y < m2.len() implies rank_before(
                    ranks@,
                    m2[x] as int,
                    m2[y] as int,
                ) by {
                    if y < q {
                    } else if y == q {
                        assert(ranks@[m2[x] as int] <= ranks@[i as int]);
                        assert((m2[x] as int) < i);
                    } else if x < q {
                    } else if x == q {
                        assert(ranks@[m2[y] as int] > ranks@[i as int]);
                    } else {
                        assert(m2[x] == old_members[x - 1]);
                        assert(m2[y] == old_members[y - 1]);
                    }
                }
                assert forall|j: int| 0 <= j < post.len() implies #[trigger] is_placed(groups@, j) by {
                    if j == i {
                        assert(groups@[p as int].1@[q as int] == j);
                    } else {
                        assert(is_placed(old_groups, j));
                        let (g, x) = choose|g: int, x: int|
                            0 <= g < old_groups.len() && 0 <= x < old_groups[g].1@.len()
                                && old_groups[g].1@[x] == j;
                        if g == p {
                            if x < q {
                                assert(groups@[g].1@[x] == j);
                            } else {
                                assert(groups@[g].1@[x + 1] == j);
                            }
                        } else {
                            assert(groups@[g].1@[x] == j);
                        }
                    }
                }
                assert forall|g: int, x: int|
                    0 <= g < groups@.len() && 0 <= x < groups@[g].1@.len() implies {
                        &&& (groups@[g].1@[x] as int) < post.len()
                        &&& post[groups@[g].1@[x] as int] == groups@[g].0@
                    } by {
                    if g == p {
                        if x < q {
                            assert(groups@[g].1@[x] == old_groups[g].1@[x]);
                        } else if x > q {
                            assert(groups@[g].1@[x] == old_groups[g].1@[x - 1]);
                        }
                    }
                }
            }
        } else {
            let ghost key = name@;
            proof {
                if p < groups@.len() {
                    lemma_lex_lt_total(groups@[p as int].0@, name@);
                }
            }
            let mut members: Vec<usize> = Vec::new();
            members.push(i);
            groups.insert(p, (name.clone(), members));
            proof {
                let g2 = groups@;
                assert(g2 =~= old_groups.insert(p as int, (names@[i as int], members)));
                assert forall|a: int, b: int| 0 <= a < b < g2.len() implies lex_lt(g2[a].0@, g2[b].0@) by {
                    if b == p {
                    } else if a == p {
                        if b > p + 1 {
                            lemma_lex_lt_transitive(name@, old_groups[p as int].0@, old_groups[b - 1].0@);
                        }
                    } else if a < p && b > p {
                        assert(lex_lt(old_groups[a].0@, name@));
                        assert(lex_lt(name@, old_groups[b - 1].0@)) by {
                            if b - 1 > p {
                                lemma_lex_lt_transitive(name@, old_groups[p as int].0@, old_groups[b - 1].0@);
                            }
                        }
                        lemma_lex_lt_transitive(old_groups[a].0@, name@, old_groups[b - 1].0@);
                    } else if a > p {
                        assert(g2[a] == old_groups[a - 1]);
                        assert(g2[b] == old_groups[b - 1]);
                    }
                }
                assert forall|j: int| 0 <= j < post.len() implies #[trigger] is_placed(g2, j) by {
                    if j == i {
                        assert(g2[p as int].1@[0] == j);
                    } else {
                        assert(is_placed(old_groups, j));
                        let (g, x) = choose|g: int, x: int|
                            0 <= g < old_groups.len() && 0 <= x < old_groups[g].1@.len()
                                && old_groups[g].1@[x] == j;
                        if g < p {
                            assert(g2[g].1@[x] == j);
                        } else {
                            assert(g2[g + 1].1@[x] == j);
                        }
                    }
                }
                assert forall|g: int, x: int|
                    0 <= g < g2.len() && 0 <= x < g2[g].1@.len() implies {
                        &&& (g2[g].1@[x] as int) < post.len()
                        &&& post[g2[g].1@[x] as int] == g2[g].0@
                    } by {
                    if g > p {
                        assert(g2[g] == old_groups[g - 1]);
                    }
                }
                assert forall|g: int, x: int, y: int|
                    0 <= g < g2.len() && 0 <= x < y < g2[g].1@.len() implies rank_before(
                        ranks@,
                        g2[g].1@[x] as int,
                        g2[g].1@[y] as int,
                    ) by {
                    if g > p {
                        assert(g2[g] == old_groups[g - 1]);
                    }
                }
                assert forall|g: int| 0 <= g < g2.len() implies g2[g].1@.len() > 0 by {
                    if g > p {
                        assert(g2[g] == old_groups[g - 1]);
                    }
                }
            }
        }
        i = i + 1;
    }
    assert(nv.take(n as int) =~= nv);
    groups
}


/// Whether the keys of `s` strictly increase.
pub open spec fn keys_sorted<V>(s: Seq<(String, V)>) -> bool {
    forall|a: int, b: int| 0 <= a < b < s.len() ==> lex_lt(s[a].0@, s[b].0@)
}

/// Where `key` stands among the sorted keys of `s`: the position of the first
/// key not below it, and whether that key is `key` itself.
pub fn key_position<V>(s: &Vec<(String, V)>, key: &str) -> (r: (usize, bool))
    requires
        keys_sorted(s@),
    ensures
        r.0 <= s@.len(),
        forall|a: int| 0 <= a < r.0 ==> lex_lt(s@[a].0@, key@),
        r.1 ==> r.0 < s@.len() && s@[r.0 as int].0@ == key@,
        !r.1 ==> r.0 == s@.len() || lex_lt(key@, s@[r.0 as int].0@),
        r.1 == exists|a: int| 0 <= a < s@.len() && s@[a].0@ == key@,
{
    let mut p: usize = 0;
    while p < s.len() && str_lt(s[p].0.as_str(), key)
        invariant
            p <= s@.len(),
            forall|a: int| 0 <= a < p ==> lex_lt(s@[a].0@, key@),
        decreases s@.len() - p,
    {
        p = p + 1;
    }
    let found = p < s.len() && str_eq(s[p].0.as_str(), key);
    proof {
        if p < s@.len() && !found {
            lemma_lex_lt_total(s@[p as int].0@, key@);
        }
        if !found {
            assert forall|a: int| 0 <= a < s@.len() implies s@[a].0@ != key@ by {
                if a < p {
                    lemma_lex_lt_asymmetric(s@[a].0@, key@);
                } else {
                    if a > p {
                        lemma_lex_lt_transitive(key@, s@[p as int].0@, s@[a].0@);
                    }
                    lemma_lex_lt_asymmetric(key@, s@[a].0@);
                }
            }
        }
    }
    (p, found)
}

/// Inserting a key at the place `key_position` found keeps the keys sorted.
pub proof fn lemma_insert_keeps_sorted<V>(s: Seq<(String, V)>, p: int, key: String, v: V)
    requires
        keys_sorted(s),
        0 <= p <= s.len(),
        forall|a: int| 0 <= a < p ==> lex_lt(s[a].0@, key@),
        p == s.len() || lex_lt(key@, s[p].0@),
    ensures
        keys_sorted(s.insert(p, (key, v))),
{
    let s2 = s.insert(p, (key, v));
    assert forall|a: int, b: int| 0 <= a < b < s2.len() implies lex_lt(s2[a].0@, s2[b].0@) by {
        if b == p {
        } else if a == p {
            if b > p + 1 {
                lemma_lex_lt_transitive(key@, s[p].0@, s[b - 1].0@);
            }
        } else if a < p && b > p {
            if b - 1 > p {
                lemma_lex_lt_transitive(key@, s[p].0@, s[b - 1].0@);
            }
            lemma_lex_lt_transitive(s[a].0@, key@, s[b - 1].0@);
        } else if a > p {
            assert(s2[a] == s[a - 1]);
            assert(s2[b] == s[b - 1]);
        }
    }
}

/// In sorted keys, a key occurs at one position only.
pub proof fn lemma_sorted_key_unique<V>(s: Seq<(String, V)>, a: int, b: int)
    requires
        keys_sorted(s),
        0 <= a < s.len(),
        0 <= b < s.len(),
        s[a].0@ == s[b].0@,
    ensures
        a == b,
{
    if a < b {
        lemma_lex_lt_asymmetric(s[a].0@, s[b].0@);
    }
    if b < a {
        lemma_lex_lt_asymmetric(s[b].0@, s[a].0@);
    }
}

} // verus!
