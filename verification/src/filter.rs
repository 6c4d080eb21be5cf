use vstd::prelude::*;

use crate::text::{occurs_in, str_contains};
use crate::view::{contains_str, includes};

verus! {

/// What a column holds, as far as the choice of its filter goes.
#[derive(Debug, Clone, Copy, PartialEq, Eq, Structural)]
pub enum ColumnKind {
    Numeric,
    Boolean,
    Utf8,
    Categorical,
    Other,
}

/// The kind of filter a table column offers.
#[derive(Debug, Clone, Copy, PartialEq, Eq, Structural)]
pub enum FilterKind {
    /// Rows whose value lies between two bounds.
    Range,
    /// Rows whose value is one of the chosen categories.
    Categorical,
    /// Rows whose text matches a search pattern.
    Search,
}

/// The filter a column starts with: numbers get a range, booleans and
/// categorical columns a choice of categories, text a search, and other
/// columns none.
pub fn filter_kind(kind: ColumnKind) -> (r: Option<FilterKind>)
    ensures
        r == match kind {
            ColumnKind::Numeric => Some(FilterKind::Range),
            ColumnKind::Boolean => Some(FilterKind::Categorical),
            ColumnKind::Utf8 => Some(FilterKind::Search),
            ColumnKind::Categorical => Some(FilterKind::Categorical),
            ColumnKind::Other => None::<FilterKind>,
        },
{
    match kind {
        ColumnKind::Numeric => Some(FilterKind::Range),
        ColumnKind::Boolean => Some(FilterKind::Categorical),
        ColumnKind::Utf8 => Some(FilterKind::Search),
        ColumnKind::Categorical => Some(FilterKind::Categorical),
        ColumnKind::Other => None,
    }
}

/// What a text search makes of a cell: null stays null, and a text passes
/// when the searched text occurs in it.
pub open spec fn search_hit(value: Option<String>, needle: Seq<char>) -> Option<bool> {
    match value {
        Some(v) => Some(occurs_in(v@, needle)),
        None => None,
    }
}

/// A text search lets a cell through exactly when the searched text stands
/// somewhere in it, as a run of consecutive characters (at its start, its
/// end or anywhere between); a null cell stays null.
pub proof fn lemma_search_hit(v: String, needle: Seq<char>, k: int)
    ensures
        search_hit(None, needle) is None,
        search_hit(Some(v), needle) is Some,
        0 <= k && k + needle.len() <= v@.len() && v@.subrange(k, k + needle.len()) == needle
            ==> search_hit(Some(v), needle) == Some(true),
        search_hit(Some(v), needle) == Some(true) ==> exists|q: int|
            0 <= q && q + needle.len() <= v@.len() && #[trigger] v@.subrange(q, q + needle.len())
                == needle,
{
}

/// A cell that a search lets through is also let through by a search for
/// any part of the searched text.
pub proof fn lemma_search_part(v: String, needle: Seq<char>, a: int, b: int)
    requires
        0 <= a <= b <= needle.len(),
        search_hit(Some(v), needle) == Some(true),
    ensures
        search_hit(Some(v), needle.subrange(a, b)) == Some(true),
{
    let q = choose|q: int|
        0 <= q && q + needle.len() <= v@.len() && #[trigger] v@.subrange(q, q + needle.len())
            == needle;
    let part = needle.subrange(a, b);
    assert(v@.subrange(q + a, q + a + part.len()) =~= part) by {
        assert forall|x: int| 0 <= x < part.len() implies v@.subrange(q + a, q + a + part.len())[x]
            == part[x] by {
            assert(v@.subrange(q, q + needle.len())[a + x] == needle[a + x]);
        }
    }
    lemma_search_hit(v, part, q + a);
}

/// The rows of a column, given by the text of each cell, that a search for
/// `needle` lets through; null cells are left to the filter's choice for
/// null values.
pub fn search_mask(values: &Vec<Option<String>>, needle: &str) -> (r: Vec<Option<bool>>)
    ensures
        r@.len() == values@.len(),
        forall|i: int| 0 <= i < values@.len() ==> r@[i] == search_hit(values@[i], needle@),
{
    let mut r: Vec<Option<bool>> = Vec::new();
    let mut i: usize = 0;
    while i < values.len()
        invariant
            i <= values@.len(),
            r@.len() == i,
            forall|j: int| 0 <= j < i ==> r@[j] == search_hit(values@[j], needle@),
        decreases values@.len() - i,
    {
        let hit = match &values[i] {
            Some(v) => Some(str_contains(v.as_str(), needle)),
            None => None,
        };
        r.push(hit);
        i = i + 1;
    }
    r
}

/// Whether a cell holding `value` passes a choice of `categories`; a null
/// cell never does.
pub open spec fn category_selected(categories: Seq<String>, value: Option<String>) -> bool {
    match value {
        Some(v) => contains_str(categories, v@),
        None => false,
    }
}

/// A text cell passes a choice of categories exactly when its text is one
/// of them; a null cell never passes.
pub proof fn lemma_category_selected(categories: Seq<String>, v: String, k: int)
    ensures
        !category_selected(categories, None),
        0 <= k < categories.len() && categories[k]@ == v@ ==> category_selected(
            categories,
            Some(v),
        ),
        (forall|j: int| 0 <= j < categories.len() ==> categories[j]@ != v@) ==> !category_selected(
            categories,
            Some(v),
        ),
{
}

/// The rows of a column, given by the text of each cell, that a choice of
/// categories lets through.
pub fn categorical_mask(values: &Vec<Option<String>>, categories: &Vec<String>) -> (r: Vec<bool>)
    ensures
        r@.len() == values@.len(),
        forall|i: int|
            0 <= i < values@.len() ==> r@[i] == category_selected(categories@, values@[i]),
{
    let mut r: Vec<bool> = Vec::new();
    let mut i: usize = 0;
    while i < values.len()
        invariant
            i <= values@.len(),
            r@.len() == i,
            forall|j: int| 0 <= j < i ==> r@[j] == category_selected(categories@, values@[j]),
        decreases values@.len() - i,
    {
        let selected = match &values[i] {
            Some(v) => includes(categories, v.as_str()),
            None => false,
        };
        r.push(selected);
        i = i + 1;
    }
    r
}

/// Whether the cell `c` holds the text `s`.
pub open spec fn holds_text(c: Option<String>, s: Seq<char>) -> bool {
    match c {
        Some(v) => v@ == s,
        None => false,
    }
}

/// Whether the text `s` occurs among the first `n` cells of `values`.
pub open spec fn occurs_before(values: Seq<Option<String>>, s: Seq<char>, n: int) -> bool {
    exists|j: int| 0 <= j < n && #[trigger] holds_text(values[j], s)
}

/// The texts of the non-null cells of `values`, each once, in the order of
/// their first occurrence.
pub open spec fn distinct_values(values: Seq<Option<String>>) -> Seq<Seq<char>>
    decreases values.len(),
{
    if values.len() == 0 {
        Seq::empty()
    } else {
        let prefix = distinct_values(values.drop_last());
        match values.last() {
            Some(v) => if occurs_before(values, v@, values.len() - 1) {
                prefix
            } else {
                prefix.push(v@)
            },
            None => prefix,
        }
    }
}

/// The texts kept by `distinct_values` are exactly the texts of the
/// non-null cells, each once.
pub proof fn lemma_distinct_values(values: Seq<Option<String>>)
    ensures
        forall|s: Seq<char>|
            #![trigger occurs_before(values, s, values.len() as int)]
            distinct_values(values).contains(s) == occurs_before(values, s, values.len() as int),
        forall|a: int, b: int|
            0 <= a < b < distinct_values(values).len() ==> distinct_values(values)[a]
                != distinct_values(values)[b],
    decreases values.len(),
{
    if values.len() > 0 {
        let t = values.drop_last();
        let u = distinct_values(t);
        let n = values.len() - 1;
        lemma_distinct_values(t);
        assert forall|s: Seq<char>| #[trigger] occurs_before(t, s, t.len() as int)
            == occurs_before(values, s, n) by {
            if occurs_before(t, s, t.len() as int) {
                let j = choose|j: int| 0 <= j < t.len() && #[trigger] holds_text(t[j], s);
                assert(holds_text(values[j], s));
            }
            if occurs_before(values, s, n) {
                let j = choose|j: int| 0 <= j < n && #[trigger] holds_text(values[j], s);
                assert(holds_text(t[j], s));
            }
        }
        assert forall|s: Seq<char>|
            #![trigger occurs_before(values, s, values.len() as int)]
            distinct_values(values).contains(s) == occurs_before(values, s, values.len() as int) by {
            let r = distinct_values(values);
            assert(u.contains(s) == occurs_before(t, s, t.len() as int));
            if occurs_before(values, s, values.len() as int) && !occurs_before(values, s, n) {
                let j = choose|j: int| 0 <= j < values.len() && #[trigger] holds_text(values[j], s);
                assert(j == n);
            }
            if occurs_before(values, s, n) {
                let j = choose|j: int| 0 <= j < n && #[trigger] holds_text(values[j], s);
                assert(holds_text(values[j], s));
            }
            if r.contains(s) {
                let j = choose|j: int| 0 <= j < r.len() && r[j] == s;
                if j < u.len() {
                    assert(u[j] == s);
                } else {
                    assert(holds_text(values[n], s));
                }
            }
            if u.contains(s) {
                let j = choose|j: int| 0 <= j < u.len() && u[j] == s;
                assert(r[j] == s);
            }
            if holds_text(values[n], s) && !occurs_before(values, s, n) {
                assert(r[r.len() - 1] == s);
            }
        }
        match values.last() {
            Some(v) => {
                if !occurs_before(values, v@, n) {
                    let r = distinct_values(values);
                    assert forall|a: int, b: int| 0 <= a < b < r.len() implies r[a] != r[b] by {
                        if b == r.len() - 1 && r[a] == v@ {
                            assert(u[a] == v@);
                            assert(u.contains(v@));
                            assert(occurs_before(t, v@, t.len() as int));
                        }
                    }
                }
            },
            None => {},
        }
    }
}

/// The distinct texts of a column, the choices its category filter offers.
pub fn unique_values(values: &Vec<Option<String>>) -> (r: Vec<String>)
    ensures
        r@.map_values(|s: String| s@) == distinct_values(values@),
{
    let mut r: Vec<String> = Vec::new();
    let mut i: usize = 0;
    while i < values.len()
        invariant
            i <= values@.len(),
            r@.map_values(|s: String| s@) == distinct_values(values@.take(i as int)),
            forall|s: Seq<char>|
                #![trigger contains_str(r@, s)]
                contains_str(r@, s) == occurs_before(values@, s, i as int),
        decreases values@.len() - i,
    {
        let ghost prev = r@;
        let ghost head = values@.take(i + 1);
        assert(head.drop_last() =~= values@.take(i as int));
        assert(head.last() == values@[i as int]);
        assert forall|s: Seq<char>| occurs_before(head, s, i as int) == occurs_before(values@, s, i as int) by {
            if occurs_before(head, s, i as int) {
                let j = choose|j: int| 0 <= j < i && #[trigger] holds_text(head[j], s);
                assert(values@[j] == head[j]);
            }
            if occurs_before(values@, s, i as int) {
                let j = choose|j: int| 0 <= j < i && #[trigger] holds_text(values@[j], s);
                assert(values@[j] == head[j]);
            }
        }
        match &values[i] {
            Some(v) => {
                if !includes(&r, v.as_str()) {
                    r.push(v.clone());
                    assert(r@.map_values(|s: String| s@) =~= prev.map_values(|s: String| s@).push(v@));
                    assert forall|s: Seq<char>| #![trigger contains_str(r@, s)]
                        contains_str(r@, s) == occurs_before(values@, s, i + 1) by {
                        if contains_str(r@, s) && s != v@ {
                            let k = choose|k: int| 0 <= k < r@.len() && r@[k]@ == s;
                            assert(prev[k]@ == s);
                            assert(contains_str(prev, s));
                        }
                        if contains_str(prev, s) {
                            let k = choose|k: int| 0 <= k < prev.len() && prev[k]@ == s;
                            assert(r@[k]@ == s);
                        }
                        if s == v@ {
                            assert(r@[r@.len() - 1]@ == s);
                            assert(holds_text(values@[i as int], s));
                        }
                        if occurs_before(values@, s, i + 1) && !occurs_before(values@, s, i as int) {
                            let j = choose|j: int| 0 <= j < i + 1 && #[trigger] holds_text(values@[j], s);
                            assert(j == i);
                        }
                    }
                } else {
                    assert forall|s: Seq<char>| #![trigger contains_str(r@, s)]
                        contains_str(r@, s) == occurs_before(values@, s, i + 1) by {
                        if occurs_before(values@, s, i + 1) && !occurs_before(values@, s, i as int) {
                            let j = choose|j: int| 0 <= j < i + 1 && #[trigger] holds_text(values@[j], s);
                            assert(j == i);
                        }
                    }
                }
            },
            None => {
                assert forall|s: Seq<char>| #![trigger contains_str(r@, s)]
                    contains_str(r@, s) == occurs_before(values@, s, i + 1) by {
                    if occurs_before(values@, s, i + 1) && !occurs_before(values@, s, i as int) {
                        let j = choose|j: int| 0 <= j < i + 1 && #[trigger] holds_text(values@[j], s);
                        assert(j == i);
                    }
                }
            },
        }
        i = i + 1;
    }
    assert(values@.take(values@.len() as int) =~= values@);
    r
}

/// Whether the filter mask `mask` lets row `i` through: a null entry counts
/// as the mask's choice for null values.
pub open spec fn mask_allows(mask: (Vec<Option<bool>>, bool), i: int) -> bool {
    match mask.0@[i] {
        Some(b) => b,
        None => mask.1,
    }
}

/// A filter lets a row through when its entry is true, drops it when its
/// entry is false, and decides a null entry by its choice for null values.
pub proof fn lemma_mask_allows(mask: (Vec<Option<bool>>, bool), i: int)
    ensures
        mask.0@[i] == Some(true) ==> mask_allows(mask, i),
        mask.0@[i] == Some(false) ==> !mask_allows(mask, i),
        mask.0@[i] is None ==> mask_allows(mask, i) == mask.1,
{
}

/// The rows of a table of `height` rows that every column filter lets
/// through. Each filter is given by its mask over the rows and whether it
/// lets null values through.
pub fn combined_mask(height: usize, masks: &Vec<(Vec<Option<bool>>, bool)>) -> (r: Vec<bool>)
    requires
        forall|k: int| 0 <= k < masks@.len() ==> masks@[k].0@.len() == height,
    ensures
        r@.len() == height,
        forall|i: int|
            0 <= i < height ==> r@[i] == (forall|k: int|
                0 <= k < masks@.len() ==> #[trigger] mask_allows(masks@[k], i)),
{
    let mut r: Vec<bool> = Vec::new();
    let mut i: usize = 0;
    while i < height
        invariant
            i <= height,
            r@.len() == i,
            forall|k: int| 0 <= k < masks@.len() ==> masks@[k].0@.len() == height,
            forall|j: int|
                0 <= j < i ==> r@[j] == (forall|k: int|
                    0 <= k < masks@.len() ==> #[trigger] mask_allows(masks@[k], j)),
        decreases height - i,
    {
        let mut keep = true;
        let mut k: usize = 0;
        while k < masks.len()
            invariant
                i < height,
                k <= masks@.len(),
                forall|q: int| 0 <= q < masks@.len() ==> masks@[q].0@.len() == height,
                keep == (forall|q: int| 0 <= q < k ==> #[trigger] mask_allows(masks@[q], i as int)),
            decreases masks@.len() - k,
        {
            let allowed = match masks[k].0[i] {
                Some(b) => b,
                None => masks[k].1,
            };
            assert(allowed == mask_allows(masks@[k as int], i as int));
            keep = keep && allowed;
            k = k + 1;
        }
        r.push(keep);
        i = i + 1;
    }
    r
}

} // verus!
