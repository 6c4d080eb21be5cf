use vstd::prelude::*;

use crate::data_type::{FlDataReference, FlDataType, GenerationSelector};
use crate::storage::{Bag, ManagedData, selects};
use crate::text::str_eq;
use crate::view::{contains_str, includes};
use crate::view::FlDataFrameView;
use crate::visualize::{DataRender, DataView, FlImageRender, FlTensor2DRender};

verus! {

/// What a pane of the layout shows.
#[derive(Debug)]
pub enum PaneContent {
    Visualize(DataRender),
    DataView(DataView),
}

impl PaneContent {
    pub open spec fn spec_reference(&self) -> FlDataReference {
        match self {
            PaneContent::Visualize(render) => render.spec_reference(),
            PaneContent::DataView(view) => view.spec_reference(),
        }
    }

    /// The datum the pane shows.
    pub fn reference(&self) -> (r: FlDataReference)
        ensures
            r == self.spec_reference(),
    {
        match self {
            PaneContent::Visualize(render) => render.reference(),
            PaneContent::DataView(view) => view.reference(),
        }
    }
}

/// A titled pane of the layout.
#[derive(Debug)]
pub struct Pane {
    pub name: String,
    pub content: PaneContent,
}

impl Pane {
    pub fn new(name: String, content: PaneContent) -> (r: Self)
        ensures
            r.name == name,
            r.content == content,
    {
        Self { name, content }
    }
}

/// The pane content that opens a datum: images and tensors are drawn, data
/// frames are opened in a table view.
pub fn into_pane_content(fl_data_reference: FlDataReference) -> (r: PaneContent)
    ensures
        r.spec_reference() == fl_data_reference,
        match fl_data_reference.data_type {
            FlDataType::Image => r matches PaneContent::Visualize(DataRender::Image(_)),
            FlDataType::Tensor => r matches PaneContent::Visualize(DataRender::Tensor2D(_)),
            FlDataType::DataFrame => r matches PaneContent::DataView(DataView::FlDataFrameView(v))
                && v.view_context.show_columns is All,
        },
{
    match fl_data_reference.data_type {
        FlDataType::Image => PaneContent::Visualize(FlImageRender::new(fl_data_reference).into()),
        FlDataType::Tensor => PaneContent::Visualize(FlTensor2DRender::new(fl_data_reference).into()),
        FlDataType::DataFrame => PaneContent::DataView(
            DataView::FlDataFrameView(FlDataFrameView::new(fl_data_reference)),
        ),
    }
}

/// A named arrangement of panes.
#[derive(Debug)]
pub struct FlLayout {
    pub name: String,
    pub panes: Vec<Pane>,
}

impl FlLayout {
    pub fn new(name: String, panes: Vec<Pane>) -> (r: Self)
        ensures
            r.name == name,
            r.panes@ == panes@,
    {
        Self { name, panes }
    }
}

/// Whether the layout `l` is named `name`.
pub open spec fn named(l: FlLayout, name: Seq<char>) -> bool {
    l.name@ == name
}

/// Whether a layout named `name` is among the first `n` of `s`.
pub open spec fn name_occurs_before(s: Seq<FlLayout>, name: Seq<char>, n: int) -> bool {
    exists|j: int| 0 <= j < n && #[trigger] named(s[j], name)
}

/// The layouts of `s` that come first under their name, in order.
pub open spec fn unique_by_name(s: Seq<FlLayout>) -> Seq<FlLayout>
    decreases s.len(),
{
    if s.len() == 0 {
        Seq::empty()
    } else {
        let prefix = unique_by_name(s.drop_last());
        if name_occurs_before(s, s.last().name@, s.len() - 1) {
            prefix
        } else {
            prefix.push(s.last())
        }
    }
}

/// The names kept by `unique_by_name` are exactly the names of `s`, and no
/// two kept layouts share a name.
pub proof fn lemma_unique_by_name(s: Seq<FlLayout>)
    ensures
        forall|name: Seq<char>|
            #![trigger name_occurs_before(s, name, s.len() as int)]
            name_occurs_before(unique_by_name(s), name, unique_by_name(s).len() as int)
                == name_occurs_before(s, name, s.len() as int),
        forall|a: int, b: int|
            0 <= a < b < unique_by_name(s).len() ==> unique_by_name(s)[a].name@
                != unique_by_name(s)[b].name@,
    decreases s.len(),
{
    if s.len() > 0 {
        let t = s.drop_last();
        let u = unique_by_name(t);
        let last = s.last();
        lemma_unique_by_name(t);
        assert forall|name: Seq<char>| #[trigger] name_occurs_before(t, name, t.len() as int)
            == name_occurs_before(s, name, s.len() - 1) by {
            if name_occurs_before(t, name, t.len() as int) {
                let j = choose|j: int| 0 <= j < t.len() && #[trigger] named(t[j], name);
                assert(named(s[j], name));
            }
            if name_occurs_before(s, name, s.len() - 1) {
                let j = choose|j: int| 0 <= j < s.len() - 1 && #[trigger] named(s[j], name);
                assert(named(t[j], name));
            }
        }
        assert forall|name: Seq<char>|
            #![trigger name_occurs_before(s, name, s.len() as int)]
            name_occurs_before(unique_by_name(s), name, unique_by_name(s).len() as int)
                == name_occurs_before(s, name, s.len() as int) by {
            let r = unique_by_name(s);
            assert(name_occurs_before(t, name, t.len() as int) == name_occurs_before(
                u,
                name,
                u.len() as int,
            ));
            if name_occurs_before(s, name, s.len() as int) && !name_occurs_before(
                s,
                name,
                s.len() - 1,
            ) {
                let j = choose|j: int| 0 <= j < s.len() && #[trigger] named(s[j], name);
                assert(j == s.len() - 1);
            }
            if name_occurs_before(s, name, s.len() - 1) {
                let j = choose|j: int| 0 <= j < s.len() - 1 && #[trigger] named(s[j], name);
                assert(named(s[j], name));
            }
            if name_occurs_before(r, name, r.len() as int) {
                let j = choose|j: int| 0 <= j < r.len() && #[trigger] named(r[j], name);
                if j < u.len() {
                    assert(named(u[j], name));
                } else {
                    assert(named(s[s.len() - 1], name));
                }
            }
            if name_occurs_before(u, name, u.len() as int) {
                let j = choose|j: int| 0 <= j < u.len() && #[trigger] named(u[j], name);
                assert(named(r[j], name));
            }
            if name == last.name@ {
                assert(named(s[s.len() - 1], name));
                if !name_occurs_before(s, name, s.len() - 1) {
                    assert(named(r[r.len() - 1], name));
                }
            }
        }
        if !name_occurs_before(s, last.name@, s.len() - 1) {
            let r = unique_by_name(s);
            assert forall|a: int, b: int| 0 <= a < b < r.len() implies r[a].name@ != r[b].name@ by {
                if b == r.len() - 1 {
                    if r[a].name@ == last.name@ {
                        assert(named(u[a], last.name@));
                        assert(name_occurs_before(u, last.name@, u.len() as int));
                        assert(name_occurs_before(t, last.name@, t.len() as int));
                    }
                }
            }
        }
    }
}

/// The layouts after `added` were loaded beside `layouts`: of layouts that
/// share a name only the first is kept, the loaded ones coming after those
/// already there.
pub fn merge_layouts(layouts: Vec<FlLayout>, added: Vec<FlLayout>) -> (r: Vec<FlLayout>)
    ensures
        r@ == unique_by_name(layouts@ + added@),
{
    let mut rest = layouts;
    let mut added = added;
    rest.append(&mut added);
    let ghost input = rest@;
    let ghost mut i: int = 0;
    let mut out: Vec<FlLayout> = Vec::new();
    let mut names: Vec<String> = Vec::new();
    while rest.len() > 0
        invariant
            0 <= i <= input.len(),
            rest@ == input.skip(i),
            out@ == unique_by_name(input.take(i)),
            forall|s: Seq<char>|
                #![trigger contains_str(names@, s)]
                contains_str(names@, s) == name_occurs_before(input, s, i),
        decreases rest@.len(),
    {
        let ghost prev_names = names@;
        let ghost head = input.take(i + 1);
        assert(input.skip(i)[0] == input[i]);
        let l = rest.remove(0);
        assert(rest@ =~= input.skip(i + 1));
        assert(head.drop_last() =~= input.take(i));
        assert(head.last() == l);
        assert forall|s: Seq<char>| name_occurs_before(head, s, i) == name_occurs_before(input, s, i) by {
            if name_occurs_before(head, s, i) {
                let j = choose|j: int| 0 <= j < i && #[trigger] named(head[j], s);
                assert(input[j] == head[j]);
            }
            if name_occurs_before(input, s, i) {
                let j = choose|j: int| 0 <= j < i && #[trigger] named(input[j], s);
                assert(input[j] == head[j]);
            }
        }
        let ghost name = l.name@;
        if !includes(&names, l.name.as_str()) {
            names.push(l.name.clone());
            out.push(l);
            assert forall|s: Seq<char>| #![trigger contains_str(names@, s)]
                contains_str(names@, s) == name_occurs_before(input, s, i + 1) by {
                if contains_str(names@, s) && s != name {
                    let k = choose|k: int| 0 <= k < names@.len() && names@[k]@ == s;
                    assert(prev_names[k]@ == s);
                    assert(contains_str(prev_names, s));
                }
                if contains_str(prev_names, s) {
                    let k = choose|k: int| 0 <= k < prev_names.len() && prev_names[k]@ == s;
                    assert(names@[k]@ == s);
                }
                if s == name {
                    assert(names@[names@.len() - 1]@ == s);
                    assert(named(input[i], s));
                }
                if name_occurs_before(input, s, i + 1) && !name_occurs_before(input, s, i) {
                    let j = choose|j: int| 0 <= j < i + 1 && #[trigger] named(input[j], s);
                    assert(j == i);
                }
            }
        } else {
            assert forall|s: Seq<char>| #![trigger contains_str(names@, s)]
                contains_str(names@, s) == name_occurs_before(input, s, i + 1) by {
                if name_occurs_before(input, s, i + 1) && !name_occurs_before(input, s, i) {
                    let j = choose|j: int| 0 <= j < i + 1 && #[trigger] named(input[j], s);
                    assert(j == i);
                }
            }
        }
        proof {
            i = i + 1;
        }
    }
    assert(input.take(i) =~= input);
    out
}

/// Whether the bag can serve `reference` when a layout is applied to it. The
/// generations a name can serve are those of its data after the first one
/// stored under that name; any datum of the name serves the latest.
pub open spec fn serves(bag: Bag, reference: FlDataReference) -> bool {
    let l = bag.data_list@;
    match reference.generation {
        GenerationSelector::Latest => exists|i: int|
            0 <= i < l.len() && l[i].name@ == reference.name@,
        GenerationSelector::Generation(g) => exists|i: int, j: int|
            0 <= i < j < l.len() && l[i].name@ == reference.name@ && l[j].name@
                == reference.name@ && l[j].generation == g,
    }
}

/// A reference to a fixed generation of a name is served exactly when some
/// datum of that name with that generation is not the first datum of the
/// name, wherever the two stand in the list.
pub proof fn lemma_generation_served(bag: Bag, reference: FlDataReference, g: u64, a: int, b: int)
    requires
        reference.generation == GenerationSelector::Generation(g),
    ensures
        0 <= a < b < bag.data_list@.len() && bag.data_list@[a].name@ == reference.name@
            && bag.data_list@[b].name@ == reference.name@ && bag.data_list@[b].generation == g
            ==> serves(bag, reference),
        serves(bag, reference) ==> exists|j: int|
            0 <= j < bag.data_list@.len() && bag.data_list@[j].name@ == reference.name@
                && bag.data_list@[j].generation == g && exists|i: int|
                0 <= i < j && bag.data_list@[i].name@ == reference.name@,
{
    let l = bag.data_list@;
    if serves(bag, reference) {
        let (i, j) = choose|i: int, j: int|
            0 <= i < j < l.len() && l[i].name@ == reference.name@ && l[j].name@
                == reference.name@ && l[j].generation == g;
        assert(exists|i2: int| 0 <= i2 < j && l[i2].name@ == reference.name@);
    }
}

/// Data of other names, stored anywhere, do not change whether a bag
/// serves a reference.
pub proof fn lemma_serves_ignores_other_names(
    bag: Bag,
    bag2: Bag,
    reference: FlDataReference,
    k: int,
    d: ManagedData,
)
    requires
        0 <= k <= bag.data_list@.len(),
        bag2.data_list@ == bag.data_list@.insert(k, d),
        d.name@ != reference.name@,
    ensures
        serves(bag2, reference) == serves(bag, reference),
{
    let l = bag.data_list@;
    let l2 = bag2.data_list@;
    assert(l2.len() == l.len() + 1);
    assert forall|x: int| 0 <= x < l.len() implies #[trigger] l[x] == l2[if x < k { x } else { x + 1 }] by {}
    match reference.generation {
        GenerationSelector::Latest => {
            if serves(bag, reference) {
                let i = choose|i: int| 0 <= i < l.len() && l[i].name@ == reference.name@;
                let i2 = if i < k { i } else { i + 1 };
                assert(l[i] == l2[i2]);
            }
            if serves(bag2, reference) {
                let i2 = choose|i: int| 0 <= i < l2.len() && l2[i].name@ == reference.name@;
                assert(i2 != k);
                let i = if i2 < k { i2 } else { i2 - 1 };
                assert(l[i] == l2[i2]);
            }
        },
        GenerationSelector::Generation(g) => {
            if serves(bag, reference) {
                let (i, j) = choose|i: int, j: int|
                    0 <= i < j < l.len() && l[i].name@ == reference.name@ && l[j].name@
                        == reference.name@ && l[j].generation == g;
                let i2 = if i < k { i } else { i + 1 };
                let j2 = if j < k { j } else { j + 1 };
                assert(l[i] == l2[i2]);
                assert(l[j] == l2[j2]);
            }
            if serves(bag2, reference) {
                let (i2, j2) = choose|i: int, j: int|
                    0 <= i < j < l2.len() && l2[i].name@ == reference.name@ && l2[j].name@
                        == reference.name@ && l2[j].generation == g;
                assert(i2 != k && j2 != k);
                let i = if i2 < k { i2 } else { i2 - 1 };
                let j = if j2 < k { j2 } else { j2 - 1 };
                assert(l[i] == l2[i2]);
                assert(l[j] == l2[j2]);
            }
        },
    }
}

/// Whether the bag can serve every pane of the layout.
pub open spec fn applicable(bag: Bag, layout: FlLayout) -> bool {
    forall|k: int|
        0 <= k < layout.panes@.len() ==> #[trigger] serves(bag, layout.panes@[k].content.spec_reference())
}

/// Whether the bag can serve one reference.
fn check_reference(bag: &Bag, reference: &FlDataReference) -> (r: bool)
    ensures
        r == serves(*bag, *reference),
{
    let l = &bag.data_list;
    let mut seen = false;
    let mut i: usize = 0;
    while i < l.len()
        invariant
            l@ == bag.data_list@,
            i <= l@.len(),
            reference.generation is Latest ==> !seen,
            seen == exists|k: int| 0 <= k < i && l@[k].name@ == reference.name@,
            match reference.generation {
                GenerationSelector::Latest => true,
                GenerationSelector::Generation(g) => !exists|a: int, b: int|
                    0 <= a < b < i && l@[a].name@ == reference.name@ && l@[b].name@
                        == reference.name@ && l@[b].generation == g,
            },
        decreases l@.len() - i,
    {
        if str_eq(l[i].name.as_str(), reference.name.as_str()) {
            match reference.generation {
                GenerationSelector::Latest => {
                    assert(l@[i as int].name@ == reference.name@);
                    return true;
                },
                GenerationSelector::Generation(g) => {
                    if seen && l[i].generation == g {
                        let ghost a = choose|k: int| 0 <= k < i && l@[k].name@ == reference.name@;
                        assert(0 <= a < i && l@[a].name@ == reference.name@ && l@[i as int].name@ == reference.name@ && l@[i as int].generation == g);
                        return true;
                    }
                },
            }
            seen = true;
        }
        i = i + 1;
    }
    proof {
        match reference.generation {
            GenerationSelector::Latest => {
                assert(!exists|k: int| 0 <= k < l@.len() && l@[k].name@ == reference.name@) by {
                    if exists|k: int| 0 <= k < l@.len() && l@[k].name@ == reference.name@ {
                        assert(seen);
                    }
                }
            },
            _ => {},
        }
    }
    false
}

/// Whether the layout can be applied to the bag: every pane's reference is
/// served in the sense of `serves`. A reference to the latest datum of a
/// name needs some datum of that name; a reference to a fixed generation
/// needs a datum of that name and generation other than the first datum
/// stored under the name, so a layout naming the generation of a name's
/// first datum is refused although the datum is there.
pub fn check_applicable(bag: &Bag, layout: &FlLayout) -> (r: bool)
    ensures
        r == applicable(*bag, *layout),
{
    let mut k: usize = 0;
    while k < layout.panes.len()
        invariant
            k <= layout.panes@.len(),
            forall|j: int| 0 <= j < k ==> #[trigger] serves(*bag, layout.panes@[j].content.spec_reference()),
        decreases layout.panes@.len() - k,
    {
        let reference = layout.panes[k].content.reference();
        if !check_reference(bag, &reference) {
            return false;
        }
        k = k + 1;
    }
    true
}


proof fn lemma_latest_in_prefix(l: Seq<ManagedData>, reference: FlDataReference, n: int)
    requires
        0 <= n <= l.len(),
        exists|k: int| 0 <= k < n && l[k].name@ == reference.name@,
    ensures
        exists|i: int|
            0 <= i < n && l[i].name@ == reference.name@ && forall|j: int|
                0 <= j < n && l[j].name@ == reference.name@ ==> (l[j].generation <= l[i].generation
                    && (i < j ==> l[j].generation < l[i].generation)),
    decreases n,
{
    let last = n - 1;
    if exists|k: int| 0 <= k < last && l[k].name@ == reference.name@ {
        lemma_latest_in_prefix(l, reference, last);
        let i0 = choose|i: int|
            0 <= i < last && l[i].name@ == reference.name@ && forall|j: int|
                0 <= j < last && l[j].name@ == reference.name@ ==> (l[j].generation
                    <= l[i].generation && (i < j ==> l[j].generation < l[i].generation));
        if l[last].name@ == reference.name@ && l[last].generation >= l[i0].generation {
            assert forall|j: int| 0 <= j < n && l[j].name@ == reference.name@ implies (
            l[j].generation <= l[last].generation && (last < j ==> l[j].generation
                < l[last].generation)) by {
                if j < last {
                    assert(l[j].generation <= l[i0].generation);
                }
            }
        } else {
            assert forall|j: int| 0 <= j < n && l[j].name@ == reference.name@ implies (
            l[j].generation <= l[i0].generation && (i0 < j ==> l[j].generation
                < l[i0].generation)) by {
                if j < last {
                }
            }
        }
    } else {
        assert(l[last].name@ == reference.name@);
        assert forall|j: int| 0 <= j < n && l[j].name@ == reference.name@ implies (
        l[j].generation <= l[last].generation && (last < j ==> l[j].generation
            < l[last].generation)) by {
            if j < last {
                assert(false);
            }
        }
    }
}

proof fn lemma_first_generation(l: Seq<ManagedData>, reference: FlDataReference, g: u64, j: int)
    requires
        0 <= j < l.len(),
        l[j].name@ == reference.name@,
        l[j].generation == g,
    ensures
        exists|i: int|
            0 <= i <= j && l[i].name@ == reference.name@ && l[i].generation == g && forall|k: int|
                0 <= k < i ==> !(l[k].name@ == reference.name@ && l[k].generation == g),
    decreases j,
{
    if exists|k: int| 0 <= k < j && l[k].name@ == reference.name@ && l[k].generation == g {
        let k = choose|k: int| 0 <= k < j && l[k].name@ == reference.name@ && l[k].generation == g;
        lemma_first_generation(l, reference, g, k);
    }
}

/// Every pane of an applicable layout finds the datum it refers to.
pub proof fn lemma_applicable_layout_resolves(bag: Bag, layout: FlLayout, k: int)
    requires
        applicable(bag, layout),
        0 <= k < layout.panes@.len(),
    ensures
        exists|i: int| selects(bag.data_list@, layout.panes@[k].content.spec_reference(), i),
{
    let reference = layout.panes@[k].content.spec_reference();
    let l = bag.data_list@;
    assert(serves(bag, reference));
    match reference.generation {
        GenerationSelector::Latest => {
            lemma_latest_in_prefix(l, reference, l.len() as int);
            let i = choose|i: int|
                0 <= i < l.len() && l[i].name@ == reference.name@ && forall|j: int|
                    0 <= j < l.len() && l[j].name@ == reference.name@ ==> (l[j].generation
                        <= l[i].generation && (i < j ==> l[j].generation < l[i].generation));
            assert(selects(l, reference, i));
        },
        GenerationSelector::Generation(g) => {
            let (a, b) = choose|a: int, b: int|
                0 <= a < b < l.len() && l[a].name@ == reference.name@ && l[b].name@
                    == reference.name@ && l[b].generation == g;
            lemma_first_generation(l, reference, g, b);
            let i = choose|i: int|
                0 <= i <= b && l[i].name@ == reference.name@ && l[i].generation == g && forall|
                    k: int,
                | 0 <= k < i ==> !(l[k].name@ == reference.name@ && l[k].generation == g);
            assert(selects(l, reference, i));
        },
    }
}

} // verus!
