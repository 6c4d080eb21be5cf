use vstd::prelude::*;

use crate::data_type::{random_u64, FlDataFrameSpecialColumn, FlDataReference, Id};
use crate::storage::{Bag, selects};
use crate::table::FlTableError;
use crate::table::{FlTable, FlTableDrawContext, ShowColumns as TableShowColumns};
use crate::text::str_eq;

verus! {

/// Whether some string of `v` holds the characters `s`.
pub open spec fn contains_str(v: Seq<String>, s: Seq<char>) -> bool {
    exists|k: int| 0 <= k < v.len() && v[k]@ == s
}

/// Whether `name` is among `names`.
pub fn includes(names: &Vec<String>, name: &str) -> (r: bool)
    ensures
        r == contains_str(names@, name@),
{
    let mut k: usize = 0;
    while k < names.len()
        invariant
            k <= names@.len(),
            forall|j: int| 0 <= j < k ==> names@[j]@ != name@,
        decreases names@.len() - k,
    {
        if str_eq(names[k].as_str(), name) {
            return true;
        }
        k = k + 1;
    }
    false
}

/// Which columns a data-frame view shows: all, or the shown ones among the
/// listed order.
#[derive(Debug)]
pub enum ShowColumns {
    All,
    Only(Vec<String>, Vec<String>),
}

/// How a data-frame view is configured.
#[derive(Debug)]
pub struct FlDataFrameViewContext {
    pub show_columns: ShowColumns,
}

/// The listed columns that are shown, in their listed order.
pub open spec fn shown_columns(shown: Seq<String>, order: Seq<String>) -> Seq<Seq<char>> {
    order.filter(|c: String| contains_str(shown, c@)).map_values(|c: String| c@)
}

/// `s` with the entries at `a` and `b` exchanged.
pub open spec fn seq_swap<T>(s: Seq<T>, a: int, b: int) -> Seq<T> {
    s.update(a, s[b]).update(b, s[a])
}

/// Moving a column one place and back restores the order.
pub proof fn lemma_swap_back<T>(s: Seq<T>, a: int, b: int)
    requires
        0 <= a < s.len(),
        0 <= b < s.len(),
    ensures
        seq_swap(seq_swap(s, a, b), b, a) == s,
        seq_swap(s, a, b).len() == s.len(),
{
    assert(seq_swap(seq_swap(s, a, b), b, a) =~= s);
}

/// Whether `after` is the configuration once the checkbox of `name` was set
/// to `checked`.
pub open spec fn checked_set(before: ShowColumns, after: ShowColumns, frame_columns: Seq<String>, name: Seq<char>, checked: bool) -> bool {
    match before {
        ShowColumns::All => if checked {
            after is All
        } else {
            after matches ShowColumns::Only(shown, order) && order@ == frame_columns && forall|
                c: Seq<char>,
            |
                #![trigger contains_str(shown@, c)]
                contains_str(shown@, c) == (contains_str(frame_columns, c) && c != name)
        },
        ShowColumns::Only(shown, order) => after matches ShowColumns::Only(shown2, order2)
            && order2@ == order@ && forall|c: Seq<char>|
            #![trigger contains_str(shown2@, c)]
            contains_str(shown2@, c) == if c == name {
                checked
            } else {
                contains_str(shown@, c)
            },
    }
}

/// After its checkbox is set, a column reads as checked exactly when it was
/// set so; every other column keeps its state, except that unchecking one
/// while all were shown leaves checked just the columns of the frame.
pub proof fn lemma_checked_after_set(
    before: ShowColumns,
    after: ShowColumns,
    frame_columns: Seq<String>,
    name: Seq<char>,
    checked: bool,
    other: Seq<char>,
)
    requires
        checked_set(before, after, frame_columns, name, checked),
    ensures
        after.spec_checked(name) == checked,
        other != name && !(before is All && !checked) ==> after.spec_checked(other)
            == before.spec_checked(other),
        other != name && before is All && !checked ==> after.spec_checked(other)
            == contains_str(frame_columns, other),
{
}

/// Whether `after` is the configuration once the listed column at `i` was
/// moved one place up (`up`) or down: when all columns were shown, they
/// become listed in the frame's order with the first column of that name
/// moved; otherwise the listed order has the entries at `i` and its
/// neighbour exchanged.
pub open spec fn column_moved(
    before: ShowColumns,
    after: ShowColumns,
    frame_columns: Seq<String>,
    i: int,
    up: bool,
) -> bool {
    match before {
        ShowColumns::All => after matches ShowColumns::Only(shown, order) && shown@
            == frame_columns && exists|p: int|
            is_first_position(frame_columns, frame_columns[i]@, p) && order@ == seq_swap(
                frame_columns,
                p,
                if up {
                    p - 1
                } else {
                    p + 1
                },
            ),
        ShowColumns::Only(shown, order) => after matches ShowColumns::Only(shown2, order2)
            && shown2@ == shown@ && order2@ == seq_swap(
            order@,
            i,
            if up {
                i - 1
            } else {
                i + 1
            },
        ),
    }
}

/// Whether a configuration fits a frame of columns `frame_columns`: when it
/// lists columns, the listed order is a rearrangement of the frame's columns
/// and only listed columns are shown.
pub open spec fn fits_frame(show: ShowColumns, frame_columns: Seq<String>) -> bool {
    match show {
        ShowColumns::All => true,
        ShowColumns::Only(shown, order) => {
            &&& order@.to_multiset() == frame_columns.to_multiset()
            &&& forall|c: Seq<char>|
                #![trigger contains_str(shown@, c)]
                contains_str(shown@, c) ==> contains_str(order@, c)
        },
    }
}

/// Exchanging two entries keeps the entries of a sequence, as a multiset
/// and by the names they hold.
pub proof fn lemma_swap_keeps_entries(s: Seq<String>, a: int, b: int)
    requires
        0 <= a < s.len(),
        0 <= b < s.len(),
    ensures
        seq_swap(s, a, b).to_multiset() == s.to_multiset(),
        forall|c: Seq<char>|
            #![trigger contains_str(seq_swap(s, a, b), c)]
            contains_str(seq_swap(s, a, b), c) == contains_str(s, c),
{
    broadcast use vstd::seq_lib::to_multiset_update;
    broadcast use vstd::multiset::group_multiset_axioms;

    let t = s.update(a, s[b]);
    let u = seq_swap(s, a, b);
    assert(t.to_multiset() == s.to_multiset().insert(s[b]).remove(s[a]));
    assert(u.to_multiset() == t.to_multiset().insert(s[a]).remove(t[b]));
    assert(t[b] == s[b]);
    let m = s.to_multiset();
    assert(s.contains(s[a]) && s.contains(s[b]));
    vstd::seq_lib::to_multiset_contains(s, s[a]);
    vstd::seq_lib::to_multiset_contains(s, s[b]);
    assert forall|v: String| #[trigger] u.to_multiset().count(v) == m.count(v) by {
        let m1 = m.insert(s[b]);
        let m2 = m1.remove(s[a]);
        let m3 = m2.insert(s[a]);
        assert(m1.count(s[a]) > 0);
        assert(m3.count(s[b]) > 0);
    }
    assert(u.to_multiset() =~= s.to_multiset());
    assert forall|c: Seq<char>| #![trigger contains_str(seq_swap(s, a, b), c)]
        contains_str(seq_swap(s, a, b), c) == contains_str(s, c) by {
        if contains_str(u, c) {
            let k = choose|k: int| 0 <= k < u.len() && u[k]@ == c;
            if k == a {
                assert(s[b]@ == c);
            } else if k == b {
                assert(s[a]@ == c);
            } else {
                assert(s[k]@ == c);
            }
        }
        if contains_str(s, c) {
            let k = choose|k: int| 0 <= k < s.len() && s[k]@ == c;
            if k == a {
                assert(u[b]@ == c);
            } else if k == b {
                assert(u[a]@ == c);
            } else {
                assert(u[k]@ == c);
            }
        }
    }
}

/// Moving a column keeps a configuration that fits the frame fitting it:
/// the listed order stays a rearrangement of the frame's columns and the
/// shown columns stay among the listed ones. It holds for every frame on
/// which the move can be made: the conditions are those of `move_column`,
/// whose last one (a column moved up does not first occur at the top)
/// excludes only the move on which the panel would step before the first
/// column, and holds by itself where no name occurs twice
/// (`lemma_distinct_first_position`).
pub proof fn lemma_move_keeps_fit(
    before: ShowColumns,
    after: ShowColumns,
    frame_columns: Seq<String>,
    i: int,
    up: bool,
)
    requires
        fits_frame(before, frame_columns),
        0 <= i < before.spec_listed(frame_columns).len(),
        up ==> i > 0,
        !up ==> i + 1 < before.spec_listed(frame_columns).len(),
        before is All && up ==> forall|p: int|
            is_first_position(frame_columns, frame_columns[i]@, p) ==> p > 0,
        column_moved(before, after, frame_columns, i, up),
    ensures
        fits_frame(after, frame_columns),
{
    match before {
        ShowColumns::All => {
            let p = choose|p: int|
                is_first_position(frame_columns, frame_columns[i]@, p) && (after->Only_1)@
                    == seq_swap(frame_columns, p, if up { p - 1 } else { p + 1 });
            assert(p <= i) by {
                if p > i {
                    assert(frame_columns[i]@ != frame_columns[i]@);
                }
            }
            lemma_swap_keeps_entries(frame_columns, p, if up { p - 1 } else { p + 1 });
            assert forall|c: Seq<char>|
                #![trigger contains_str((after->Only_0)@, c)]
                contains_str((after->Only_0)@, c) implies contains_str((after->Only_1)@, c) by {
                assert(contains_str(
                    seq_swap(frame_columns, p, if up { p - 1 } else { p + 1 }),
                    c,
                ));
            }
        },
        ShowColumns::Only(shown, order) => {
            lemma_swap_keeps_entries(order@, i, if up { i - 1 } else { i + 1 });
            assert forall|c: Seq<char>|
                #![trigger contains_str((after->Only_0)@, c)]
                contains_str((after->Only_0)@, c) implies contains_str((after->Only_1)@, c) by {
                assert(contains_str(shown@, c));
                assert(contains_str(seq_swap(order@, i, if up { i - 1 } else { i + 1 }), c));
            }
        },
    }
}

/// Where no name occurs twice, a column first occurs where it stands.
pub proof fn lemma_distinct_first_position(names: Seq<String>, i: int)
    requires
        0 <= i < names.len(),
        forall|a: int, b: int| 0 <= a < b < names.len() ==> names[a]@ != names[b]@,
    ensures
        is_first_position(names, names[i]@, i),
        forall|p: int| is_first_position(names, names[i]@, p) ==> p == i,
{
    assert forall|p: int| is_first_position(names, names[i]@, p) implies p == i by {
        if p < i {
            assert(names[p]@ == names[i]@);
        } else if p > i {
            assert(names[i]@ != names[i]@);
        }
    }
}

/// Moving a column down while all columns are shown lists the frame's
/// columns in their order except that the column, at the first position `p`
/// of its name, and the column after it are exchanged; the shown columns
/// are all of the frame's.
pub proof fn lemma_move_down_from_all(after: ShowColumns, frame_columns: Seq<String>, i: int)
    requires
        0 <= i,
        i + 1 < frame_columns.len(),
        column_moved(ShowColumns::All, after, frame_columns, i, false),
    ensures
        after matches ShowColumns::Only(shown, order) && shown@ == frame_columns
            && order@.len() == frame_columns.len() && exists|p: int|
            #![trigger is_first_position(frame_columns, frame_columns[i]@, p)]
            is_first_position(frame_columns, frame_columns[i]@, p) && p <= i
                && order@[p + 1] == frame_columns[p] && order@[p] == frame_columns[p + 1]
                && order@[p + 1]@ == frame_columns[i]@ && forall|k: int|
                0 <= k < frame_columns.len() && k != p && k != p + 1 ==> order@[k]
                    == frame_columns[k],
{
    let p = choose|p: int|
        is_first_position(frame_columns, frame_columns[i]@, p) && (after->Only_1)@ == seq_swap(
            frame_columns,
            p,
            p + 1,
        );
    assert(p <= i) by {
        if p > i {
            assert(frame_columns[i]@ != frame_columns[i]@);
        }
    }
}

/// Moving a column up while all columns are shown lists the frame's columns
/// in their order except that the column, at the first position `p` of its
/// name, and the column before it are exchanged.
pub proof fn lemma_move_up_from_all(after: ShowColumns, frame_columns: Seq<String>, i: int)
    requires
        0 < i < frame_columns.len(),
        forall|p: int| is_first_position(frame_columns, frame_columns[i]@, p) ==> p > 0,
        column_moved(ShowColumns::All, after, frame_columns, i, true),
    ensures
        after matches ShowColumns::Only(shown, order) && shown@ == frame_columns
            && order@.len() == frame_columns.len() && exists|p: int|
            #![trigger is_first_position(frame_columns, frame_columns[i]@, p)]
            is_first_position(frame_columns, frame_columns[i]@, p) && 0 < p <= i
                && order@[p - 1] == frame_columns[p] && order@[p] == frame_columns[p - 1]
                && order@[p - 1]@ == frame_columns[i]@ && forall|k: int|
                0 <= k < frame_columns.len() && k != p && k != p - 1 ==> order@[k]
                    == frame_columns[k],
{
    let p = choose|p: int|
        is_first_position(frame_columns, frame_columns[i]@, p) && (after->Only_1)@ == seq_swap(
            frame_columns,
            p,
            p - 1,
        );
    assert(p <= i) by {
        if p > i {
            assert(frame_columns[i]@ != frame_columns[i]@);
        }
    }
}

/// Moving a listed column down exchanges it with the column after it and
/// keeps every other column, and the shown columns, as they were.
pub proof fn lemma_move_down_listed(
    shown: Vec<String>,
    order: Vec<String>,
    after: ShowColumns,
    frame_columns: Seq<String>,
    i: int,
)
    requires
        0 <= i,
        i + 1 < order@.len(),
        column_moved(ShowColumns::Only(shown, order), after, frame_columns, i, false),
    ensures
        after matches ShowColumns::Only(shown2, order2) && shown2@ == shown@ && order2@.len()
            == order@.len() && order2@[i + 1] == order@[i] && order2@[i] == order@[i + 1]
            && forall|k: int|
            0 <= k < order@.len() && k != i && k != i + 1 ==> order2@[k] == order@[k],
{
}

/// Moving a column down while all columns are shown and then moving it back
/// up from where it went lists the frame's columns in their own order.
pub proof fn lemma_move_down_then_up_from_all(
    mid: ShowColumns,
    after: ShowColumns,
    frame_columns: Seq<String>,
    i: int,
    p: int,
)
    requires
        0 <= i,
        i + 1 < frame_columns.len(),
        is_first_position(frame_columns, frame_columns[i]@, p),
        column_moved(ShowColumns::All, mid, frame_columns, i, false),
        column_moved(mid, after, frame_columns, p + 1, true),
    ensures
        after matches ShowColumns::Only(shown, order) && shown@ == frame_columns && order@
            == frame_columns,
{
    let q = choose|q: int|
        is_first_position(frame_columns, frame_columns[i]@, q) && (mid->Only_1)@ == seq_swap(
            frame_columns,
            q,
            q + 1,
        );
    assert(q == p) by {
        if q < p {
            assert(frame_columns[q]@ != frame_columns[i]@);
        }
        if p < q {
            assert(frame_columns[p]@ != frame_columns[i]@);
        }
    }
    assert(p <= i) by {
        if p > i {
            assert(frame_columns[i]@ != frame_columns[i]@);
        }
    }
    lemma_swap_back(frame_columns, p, p + 1);
    assert((after->Only_1)@ =~= frame_columns);
}

/// Moving a listed column down and then moving it back up restores the
/// listed order.
pub proof fn lemma_move_down_then_up_listed(
    shown: Vec<String>,
    order: Vec<String>,
    mid: ShowColumns,
    after: ShowColumns,
    frame_columns: Seq<String>,
    i: int,
)
    requires
        0 <= i,
        i + 1 < order@.len(),
        column_moved(ShowColumns::Only(shown, order), mid, frame_columns, i, false),
        column_moved(mid, after, frame_columns, i + 1, true),
    ensures
        after matches ShowColumns::Only(shown2, order2) && shown2@ == shown@ && order2@
            == order@,
{
    lemma_swap_back(order@, i, i + 1);
    assert((after->Only_1)@ =~= order@);
}

/// Setting the checkbox of a listed column keeps a configuration that fits
/// the frame fitting it.
pub proof fn lemma_set_checked_keeps_fit(
    before: ShowColumns,
    after: ShowColumns,
    frame_columns: Seq<String>,
    name: Seq<char>,
    checked: bool,
)
    requires
        fits_frame(before, frame_columns),
        contains_str(before.spec_listed(frame_columns), name),
        checked_set(before, after, frame_columns, name, checked),
    ensures
        fits_frame(after, frame_columns),
{
    match before {
        ShowColumns::All => {
            if !checked {
                assert forall|c: Seq<char>|
                    #![trigger contains_str((after->Only_0)@, c)]
                    contains_str((after->Only_0)@, c) implies contains_str((after->Only_1)@, c) by {
                    assert(contains_str(frame_columns, c));
                }
            }
        },
        ShowColumns::Only(shown, order) => {
            assert forall|c: Seq<char>|
                #![trigger contains_str((after->Only_0)@, c)]
                contains_str((after->Only_0)@, c) implies contains_str((after->Only_1)@, c) by {
                if c != name {
                    assert(contains_str(shown@, c));
                }
            }
        },
    }
}

/// One more name filtered: the names that pass among the first `i + 1`
/// are those among the first `i`, followed by entry `i` when it passes.
pub proof fn lemma_filter_names_step(names: Seq<String>, pred: spec_fn(String) -> bool, i: int)
    requires
        0 <= i < names.len(),
    ensures
        names.take(i + 1).filter(pred).map_values(|c: String| c@) == if pred(names[i]) {
            names.take(i).filter(pred).map_values(|c: String| c@).push(names[i]@)
        } else {
            names.take(i).filter(pred).map_values(|c: String| c@)
        },
{
    reveal(Seq::filter);
    assert(names.take(i + 1).drop_last() =~= names.take(i));
    assert(names.take(i + 1).last() == names[i]);
    if pred(names[i]) {
        assert(names.take(i + 1).filter(pred) == names.take(i).filter(pred).push(names[i]));
        assert(names.take(i + 1).filter(pred).map_values(|c: String| c@) =~= names.take(i).filter(
            pred,
        ).map_values(|c: String| c@).push(names[i]@));
    } else {
        assert(names.take(i + 1).filter(pred) == names.take(i).filter(pred));
    }
}

/// Whether `p` is the first position of `name` in `names`.
pub open spec fn is_first_position(names: Seq<String>, name: Seq<char>, p: int) -> bool {
    &&& 0 <= p < names.len()
    &&& names[p]@ == name
    &&& forall|j: int| 0 <= j < p ==> names[j]@ != name
}

/// The first position of `name` in `names`.
fn first_position(names: &Vec<String>, name: &str) -> (r: Option<usize>)
    ensures
        match r {
            Some(p) => is_first_position(names@, name@, p as int),
            None => !contains_str(names@, name@),
        },
{
    let mut k: usize = 0;
    while k < names.len()
        invariant
            k <= names@.len(),
            forall|j: int| 0 <= j < k ==> names@[j]@ != name@,
        decreases names@.len() - k,
    {
        if str_eq(names[k].as_str(), name) {
            return Some(k);
        }
        k = k + 1;
    }
    None
}

/// Exchanges two entries of a list of names.
fn swap_names(v: &mut Vec<String>, a: usize, b: usize)
    requires
        a < old(v)@.len(),
        b < old(v)@.len(),
    ensures
        final(v)@ == seq_swap(old(v)@, a as int, b as int),
{
    let x = v[a].clone();
    let y = v[b].clone();
    v.set(a, y);
    v.set(b, x);
}

/// Clones a list of names.
pub(crate) fn clone_names(v: &Vec<String>) -> (r: Vec<String>)
    ensures
        r@ == v@,
{
    let mut r: Vec<String> = Vec::new();
    let mut i: usize = 0;
    while i < v.len()
        invariant
            i <= v@.len(),
            r@ == v@.take(i as int),
        decreases v@.len() - i,
    {
        r.push(v[i].clone());
        assert(v@.take(i + 1) =~= v@.take(i as int).push(v@[i as int]));
        i = i + 1;
    }
    assert(v@.take(v@.len() as int) =~= v@);
    r
}

impl ShowColumns {
    /// The columns listed in the configuration panel: those of the frame
    /// when all are shown, else the listed order.
    pub open spec fn spec_listed(&self, frame_columns: Seq<String>) -> Seq<String> {
        match self {
            ShowColumns::All => frame_columns,
            ShowColumns::Only(_, order) => order@,
        }
    }

    /// Whether the configuration panel shows `name` as checked.
    pub open spec fn spec_checked(&self, name: Seq<char>) -> bool {
        match self {
            ShowColumns::All => true,
            ShowColumns::Only(shown, _) => contains_str(shown@, name),
        }
    }

    /// The columns listed in the configuration panel.
    pub fn listed(&self, frame_columns: &Vec<String>) -> (r: Vec<String>)
        ensures
            r@ == self.spec_listed(frame_columns@),
    {
        match self {
            ShowColumns::All => clone_names(frame_columns),
            ShowColumns::Only(_, order) => clone_names(order),
        }
    }

    /// Whether the configuration panel shows `name` as checked.
    pub fn is_checked(&self, name: &str) -> (r: bool)
        ensures
            r == self.spec_checked(name@),
    {
        match self {
            ShowColumns::All => true,
            ShowColumns::Only(shown, _) => includes(shown, name),
        }
    }

    /// The listed column at `i` moves one place up (`up`) or down. When all
    /// columns were shown, they become explicitly listed first, and the move
    /// applies to the first column of that name.
    pub fn move_column(&mut self, frame_columns: &Vec<String>, i: usize, up: bool)
        requires
            i < old(self).spec_listed(frame_columns@).len(),
            up ==> i > 0,
            !up ==> i + 1 < old(self).spec_listed(frame_columns@).len(),
            *old(self) is All && up ==> forall|p: int|
                is_first_position(frame_columns@, frame_columns@[i as int]@, p) ==> p > 0,
        ensures
            column_moved(*old(self), *final(self), frame_columns@, i as int, up),
    {
        let delta_up = up;
        let ghost listed = old(self).spec_listed(frame_columns@);
        assert(i < listed.len());
        assert(!up ==> i + 1 < listed.len());
        match self {
            ShowColumns::All => {
                assert(listed == frame_columns@);
                let shown = clone_names(frame_columns);
                let mut order = clone_names(frame_columns);
                let p = match first_position(&order, frame_columns[i].as_str()) {
                    Some(p) => p,
                    None => {
                        assert(order@[i as int]@ == frame_columns@[i as int]@);
                        return;
                    },
                };
                assert(order@[i as int]@ == frame_columns@[i as int]@);
                assert(p <= i) by {
                    if p > i {
                        assert(order@[i as int]@ != frame_columns@[i as int]@);
                    }
                }
                let n = frame_columns.len();
                assert(p < n);
                let q = if delta_up { p - 1 } else { p + 1 };
                swap_names(&mut order, p, q);
                *self = ShowColumns::Only(shown, order);
            },
            ShowColumns::Only(_, order) => {
                let n = order.len();
                assert(i < n);
                let q = if delta_up { i - 1 } else { i + 1 };
                swap_names(order, i, q);
            },
        }
    }

    /// The checkbox of `name` was set to `checked`. Checking a column adds it
    /// to the shown ones; unchecking removes it, and when all columns were
    /// shown, they become explicitly listed without it.
    pub fn set_checked(&mut self, frame_columns: &Vec<String>, name: &str, checked: bool)
        ensures
            checked_set(*old(self), *final(self), frame_columns@, name@, checked),
    {
        match self {
            ShowColumns::All => {
                if !checked {
                    let shown = without(frame_columns, name);
                    let order = clone_names(frame_columns);
                    *self = ShowColumns::Only(shown, order);
                }
            },
            ShowColumns::Only(shown, _) => {
                if checked {
                    if !includes(shown, name) {
                        let ghost prev = shown@;
                        shown.push(String::from_str(name));
                        assert forall|c: Seq<char>| #![trigger contains_str(shown@, c)]
                            contains_str(shown@, c) == (c == name@ || contains_str(prev, c)) by {
                            if contains_str(shown@, c) && c != name@ {
                                let k = choose|k: int| 0 <= k < shown@.len() && shown@[k]@ == c;
                                assert(prev[k]@ == c);
                            }
                            if contains_str(prev, c) {
                                let k = choose|k: int| 0 <= k < prev.len() && prev[k]@ == c;
                                assert(shown@[k]@ == c);
                            }
                            if c == name@ {
                                assert(shown@[shown@.len() - 1]@ == c);
                            }
                        }
                    }
                } else {
                    let rest = without(shown, name);
                    *shown = rest;
                }
            },
        }
    }
}

/// The names of `v` other than `name`, in order.
fn without(v: &Vec<String>, name: &str) -> (r: Vec<String>)
    ensures
        forall|c: Seq<char>|
            #![trigger contains_str(r@, c)]
            contains_str(r@, c) == (contains_str(v@, c) && c != name@),
{
    let mut r: Vec<String> = Vec::new();
    let mut i: usize = 0;
    while i < v.len()
        invariant
            i <= v@.len(),
            forall|c: Seq<char>|
                #![trigger contains_str(r@, c)]
                contains_str(r@, c) == (contains_str(v@.take(i as int), c) && c != name@),
        decreases v@.len() - i,
    {
        let ghost before = r@;
        if !str_eq(v[i].as_str(), name) {
            r.push(v[i].clone());
        }
        assert(r@.len() >= before.len() && forall|m: int| 0 <= m < before.len() ==> r@[m] == before[m]);
        proof {
            let t = v@.take(i + 1);
            assert(t =~= v@.take(i as int).push(v@[i as int]));
            assert forall|c: Seq<char>| #![trigger contains_str(r@, c)]
                contains_str(r@, c) == (contains_str(t, c) && c != name@) by {
                if contains_str(t, c) {
                    let k = choose|k: int| 0 <= k < t.len() && t[k]@ == c;
                    if k < i {
                        assert(v@.take(i as int)[k]@ == c);
                        assert(contains_str(v@.take(i as int), c));
                        if c != name@ {
                            assert(contains_str(before, c));
                            let m = choose|m: int| 0 <= m < before.len() && before[m]@ == c;
                            assert(r@[m]@ == c);
                        }
                    } else if c != name@ {
                        assert(r@[r@.len() - 1]@ == c);
                    }
                }
                if contains_str(r@, c) {
                    let m = choose|m: int| 0 <= m < r@.len() && r@[m]@ == c;
                    if m < before.len() {
                        assert(before[m]@ == c);
                        assert(contains_str(before, c));
                        let k = choose|k: int| 0 <= k < v@.take(i as int).len() && v@.take(i as int)[k]@ == c;
                        assert(t[k]@ == c);
                    } else {
                        assert(t[i as int]@ == c);
                    }
                }
            }
        }
        i = i + 1;
    }
    assert(v@.take(v@.len() as int) =~= v@);
    r
}

impl FlDataFrameViewContext {
    /// The draw configuration of the table: every column, or the shown
    /// columns in their listed order.
    pub fn to_draw_context(self) -> (r: FlTableDrawContext)
        ensures
            match self.show_columns {
                ShowColumns::All => r.show_columns is All,
                ShowColumns::Only(shown, order) => r.show_columns matches TableShowColumns::Only(c)
                    && c@.map_values(|s: String| s@) == shown_columns(shown@, order@),
            },
    {
        let draw_columns = match self.show_columns {
            ShowColumns::All => TableShowColumns::All,
            ShowColumns::Only(shown, order) => {
                let mut columns: Vec<String> = Vec::new();
                let mut i: usize = 0;
                while i < order.len()
                    invariant
                        i <= order@.len(),
                        columns@.map_values(|s: String| s@) == order@.take(i as int).filter(
                            |c: String| contains_str(shown@, c@),
                        ).map_values(|c: String| c@),
                    decreases order@.len() - i,
                {
                    let ghost pred = |c: String| contains_str(shown@, c@);
                    let ghost before = columns@;
                    proof {
                        lemma_filter_names_step(order@, pred, i as int);
                    }
                    if includes(&shown, order[i].as_str()) {
                        columns.push(order[i].clone());
                        assert(columns@.map_values(|s: String| s@) =~= before.map_values(|s: String| s@).push(order@[i as int]@));
                    }
                    i = i + 1;
                }
                assert(order@.take(order@.len() as int) =~= order@);
                TableShowColumns::Only(columns)
            },
        };
        FlTableDrawContext { show_columns: draw_columns }
    }
}


impl Clone for ShowColumns {
    fn clone(&self) -> (r: Self)
        ensures
            match *self {
                ShowColumns::All => r is All,
                ShowColumns::Only(shown, order) => r matches ShowColumns::Only(s2, o2) && s2@
                    == shown@ && o2@ == order@,
            },
    {
        match self {
            ShowColumns::All => ShowColumns::All,
            ShowColumns::Only(shown, order) => ShowColumns::Only(clone_names(shown), clone_names(order)),
        }
    }
}

/// A table view of a data frame of the bag, with its column configuration.
#[derive(Debug)]
pub struct FlDataFrameView {
    pub id: Id,
    pub table: FlTable,
    pub view_context: FlDataFrameViewContext,
}

impl FlDataFrameView {
    /// A view that shows every column, under a fresh random identifier.
    pub fn new(data_reference: FlDataReference) -> (r: Self)
        ensures
            r.table.data_reference == data_reference,
            r.view_context.show_columns is All,
    {
        Self {
            id: random_u64(),
            table: FlTable::new(data_reference),
            view_context: FlDataFrameViewContext { show_columns: ShowColumns::All },
        }
    }

}

impl Clone for FlDataFrameView {
    fn clone(&self) -> (r: Self)
        ensures
            r.id == self.id,
            r.table == self.table,
            match self.view_context.show_columns {
                ShowColumns::All => r.view_context.show_columns is All,
                ShowColumns::Only(shown, order) => r.view_context.show_columns matches ShowColumns::Only(
                    s2,
                    o2,
                ) && s2@ == shown@ && o2@ == order@,
            },
    {
        Self {
            id: self.id,
            table: self.table.clone(),
            view_context: FlDataFrameViewContext { show_columns: self.view_context.show_columns.clone() },
        }
    }
}

/// A view of a stored object.
#[derive(Debug)]
pub struct FlObjectView {
    pub id: Id,
    pub content: FlDataReference,
}

impl FlObjectView {
    /// A view under a fresh random identifier.
    pub fn new(content: FlDataReference) -> (r: Self)
        ensures
            r.content == content,
    {
        Self { id: random_u64(), content }
    }
}

/// Whether `name` is a special column of `special`.
pub open spec fn is_special(special: Seq<(String, FlDataFrameSpecialColumn)>, name: Seq<char>) -> bool {
    exists|k: int| 0 <= k < special.len() && special[k].0@ == name
}

/// The fields of a frame, in order, that can be drawn as shapes: those named
/// as special columns.
pub fn special_attribute_columns(
    special: &Vec<(String, FlDataFrameSpecialColumn)>,
    field_names: &Vec<String>,
) -> (r: Vec<String>)
    ensures
        r@.map_values(|s: String| s@) == field_names@.filter(
            |c: String| is_special(special@, c@),
        ).map_values(|c: String| c@),
{
    let ghost pred = |c: String| is_special(special@, c@);
    let mut out: Vec<String> = Vec::new();
    let mut i: usize = 0;
    while i < field_names.len()
        invariant
            i <= field_names@.len(),
            pred == (|c: String| is_special(special@, c@)),
            out@.map_values(|s: String| s@) == field_names@.take(i as int).filter(pred).map_values(
                |c: String| c@,
            ),
        decreases field_names@.len() - i,
    {
        let ghost before = out@;
        proof {
            lemma_filter_names_step(field_names@, pred, i as int);
        }
        let mut k: usize = 0;
        let mut found = false;
        while k < special.len()
            invariant
                k <= special@.len(),
                i < field_names@.len(),
                found == exists|j: int| 0 <= j < k && special@[j].0@ == field_names@[i as int]@,
            decreases special@.len() - k,
        {
            if str_eq(special[k].0.as_str(), field_names[i].as_str()) {
                found = true;
            }
            k = k + 1;
        }
        if found {
            out.push(field_names[i].clone());
            assert(out@.map_values(|s: String| s@) =~= before.map_values(|s: String| s@).push(field_names@[i as int]@));
        }
        i = i + 1;
    }
    assert(field_names@.take(field_names@.len() as int) =~= field_names@);
    out
}

} // verus!
