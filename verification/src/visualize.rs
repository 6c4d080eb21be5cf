use vstd::prelude::*;

use crate::data_type::{FlData, FlDataReference, FlImage, Id};
use crate::storage::{Bag, selects};
use crate::view::{
    FlDataFrameView, FlObjectView, is_special, lemma_filter_names_step, special_attribute_columns,
};
use crate::text::str_eq;
use std::collections::{HashMap, HashSet};

verus! {

/// How the end of a segment is drawn.
#[derive(Debug, Clone, Copy, PartialEq, Eq, Structural)]
pub enum EdgeAccent {
    NoAccent,
    Arrow,
}

impl Default for EdgeAccent {
    fn default() -> (r: Self)
        ensures
            r == EdgeAccent::NoAccent,
    {
        EdgeAccent::NoAccent
    }
}

impl EdgeAccent {
    /// Every accent, in declaration order.
    pub fn all() -> (r: Vec<EdgeAccent>)
        ensures
            r@ == seq![EdgeAccent::NoAccent, EdgeAccent::Arrow],
    {
        let mut r = Vec::new();
        r.push(EdgeAccent::NoAccent);
        r.push(EdgeAccent::Arrow);
        assert(r@ =~= seq![EdgeAccent::NoAccent, EdgeAccent::Arrow]);
        r
    }

    /// The name shown for the accent.
    pub fn to_string(&self) -> (r: String)
        ensures
            r@ == match self {
                EdgeAccent::NoAccent => "None"@,
                EdgeAccent::Arrow => "Arrow"@,
            },
    {
        match self {
            EdgeAccent::NoAccent => String::from_str("None"),
            EdgeAccent::Arrow => String::from_str("Arrow"),
        }
    }
}

/// Where the vertical axis starts.
#[derive(Debug, Clone, Copy, PartialEq, Eq, Structural)]
pub enum Origin {
    TopLeft,
    BottomLeft,
}

impl Default for Origin {
    fn default() -> (r: Self)
        ensures
            r == Origin::TopLeft,
    {
        Origin::TopLeft
    }
}

impl Origin {
    /// The other origin, which the header button switches to.
    pub fn toggled(self) -> (r: Self)
        ensures
            r != self,
    {
        match self {
            Origin::TopLeft => Origin::BottomLeft,
            Origin::BottomLeft => Origin::TopLeft,
        }
    }

    /// The sign the vertical scale takes: downwards from the top left,
    /// upwards from the bottom left.
    pub fn vertical_sign(self) -> (r: i8)
        ensures
            r == (if self == Origin::TopLeft {
                1i8
            } else {
                -1i8
            }),
    {
        match self {
            Origin::TopLeft => 1,
            Origin::BottomLeft => -1,
        }
    }
}

/// A value that may still be computing.
#[derive(Debug)]
pub enum Poll<T> {
    Ready(T),
    Pending,
}

/// Images rendered from tensors, by tensor identifier.
pub struct VisualizedImageCache {
    cached_images: HashMap<usize, Poll<FlImage>>,
}

impl View for VisualizedImageCache {
    type V = Map<usize, Poll<FlImage>>;

    closed spec fn view(&self) -> Map<usize, Poll<FlImage>> {
        self.cached_images@
    }
}

impl Default for VisualizedImageCache {
    fn default() -> (r: Self)
        ensures
            r@ == Map::<usize, Poll<FlImage>>::empty(),
    {
        Self { cached_images: HashMap::new() }
    }
}

impl VisualizedImageCache {
    /// Stores the finished image of `id`.
    pub fn insert(&mut self, id: usize, image: FlImage)
        ensures
            final(self)@ == old(self)@.insert(id, Poll::Ready(image)),
    {
        broadcast use vstd::std_specs::hash::group_hash_axioms;

        self.cached_images.insert(id, Poll::Ready(image));
    }

    /// Marks the image of `id` as being rendered.
    pub fn insert_pending(&mut self, id: usize)
        ensures
            final(self)@ == old(self)@.insert(id, Poll::<FlImage>::Pending),
    {
        broadcast use vstd::std_specs::hash::group_hash_axioms;

        self.cached_images.insert(id, Poll::Pending);
    }

    /// What is stored for `id`.
    pub fn get(&self, id: usize) -> (r: Option<&Poll<FlImage>>)
        ensures
            match r {
                Some(p) => self@.contains_key(id) && *p == self@[id],
                None => !self@.contains_key(id),
            },
    {
        broadcast use vstd::std_specs::hash::group_hash_axioms;

        self.cached_images.get(&id)
    }

    /// Marks the image of `id` as being rendered where nothing is stored for
    /// it yet, and says whether it did so: only then is a rendering started.
    pub fn start_if_absent(&mut self, id: usize) -> (started: bool)
        ensures
            started == !old(self)@.contains_key(id),
            started ==> final(self)@ == old(self)@.insert(id, Poll::<FlImage>::Pending),
            !started ==> final(self)@ == old(self)@,
    {
        broadcast use vstd::std_specs::hash::group_hash_axioms;

        if self.cached_images.contains_key(&id) {
            false
        } else {
            self.cached_images.insert(id, Poll::Pending);
            true
        }
    }

    /// Number of identifiers with an entry.
    pub fn len(&self) -> (r: usize)
        ensures
            self@.dom().finite(),
            r == self@.len(),
    {
        broadcast use vstd::std_specs::hash::group_hash_axioms;

        self.cached_images.len()
    }
}

/// Which data can be drawn on a canvas.
pub trait DataVisualizable {
    spec fn spec_is_visualizable(&self) -> bool;

    fn is_visualizable(&self) -> (r: bool)
        ensures
            r == self.spec_is_visualizable(),
    ;
}

impl DataVisualizable for FlData {
    open spec fn spec_is_visualizable(&self) -> bool {
        self is Image || self is Tensor
    }

    fn is_visualizable(&self) -> (r: bool) {
        match self {
            FlData::Image(_) => true,
            FlData::Tensor(_) => true,
            FlData::DataFrame(_) => false,
        }
    }
}

/// Which data can be opened in a data view.
pub trait DataViewCreatable {
    spec fn spec_data_view_creatable(&self) -> bool;

    fn data_view_creatable(&self) -> (r: bool)
        ensures
            r == self.spec_data_view_creatable(),
    ;
}

impl DataViewCreatable for FlData {
    open spec fn spec_data_view_creatable(&self) -> bool {
        self is DataFrame
    }

    fn data_view_creatable(&self) -> (r: bool) {
        matches!(self, FlData::DataFrame(_))
    }
}

/// Draws an image of the bag.
#[derive(Debug)]
pub struct FlImageRender {
    pub content: FlDataReference,
}

impl FlImageRender {
    pub fn new(content: FlDataReference) -> (r: Self)
        ensures
            r.content == content,
    {
        Self { content }
    }
}

/// Draws a tensor of the bag as a heat map.
#[derive(Debug)]
pub struct FlTensor2DRender {
    pub content: FlDataReference,
}

impl FlTensor2DRender {
    pub fn new(content: FlDataReference) -> (r: Self)
        ensures
            r.content == content,
    {
        Self { content }
    }
}

/// Draws the shapes of one special column of a data-frame view.
#[derive(Debug)]
pub struct FlDataFrameViewRender {
    pub dataframe_view: FlDataFrameView,
    pub column: String,
}

impl FlDataFrameViewRender {
    pub fn new(dataframe_view: FlDataFrameView, column: String) -> (r: Self)
        ensures
            r.dataframe_view == dataframe_view,
            r.column == column,
    {
        Self { dataframe_view, column }
    }
}

/// Something drawn on a canvas.
#[derive(Debug)]
pub enum DataRender {
    Image(FlImageRender),
    Tensor2D(FlTensor2DRender),
    DataFrameView(Box<FlDataFrameViewRender>),
}

impl DataRender {
    pub open spec fn spec_reference(&self) -> FlDataReference {
        match self {
            DataRender::Image(render) => render.content,
            DataRender::Tensor2D(render) => render.content,
            DataRender::DataFrameView(render) => render.dataframe_view.table.data_reference,
        }
    }

    /// The datum this render draws.
    pub fn reference(&self) -> (r: FlDataReference)
        ensures
            r == self.spec_reference(),
    {
        match self {
            DataRender::Image(render) => render.content.clone(),
            DataRender::Tensor2D(render) => render.content.clone(),
            DataRender::DataFrameView(render) => render.dataframe_view.table.data_reference.clone(),
        }
    }
}

impl From<FlImageRender> for DataRender {
    fn from(render: FlImageRender) -> (r: Self) {
        DataRender::Image(render)
    }
}

impl vstd::std_specs::convert::FromSpecImpl<FlImageRender> for DataRender {
    open spec fn obeys_from_spec() -> bool {
        true
    }

    open spec fn from_spec(render: FlImageRender) -> Self {
        DataRender::Image(render)
    }
}

impl From<FlTensor2DRender> for DataRender {
    fn from(render: FlTensor2DRender) -> (r: Self) {
        DataRender::Tensor2D(render)
    }
}

impl vstd::std_specs::convert::FromSpecImpl<FlTensor2DRender> for DataRender {
    open spec fn obeys_from_spec() -> bool {
        true
    }

    open spec fn from_spec(render: FlTensor2DRender) -> Self {
        DataRender::Tensor2D(render)
    }
}

impl From<FlDataFrameViewRender> for DataRender {
    fn from(render: FlDataFrameViewRender) -> (r: Self) {
        DataRender::DataFrameView(Box::new(render))
    }
}

impl vstd::std_specs::convert::FromSpecImpl<FlDataFrameViewRender> for DataRender {
    open spec fn obeys_from_spec() -> bool {
        true
    }

    open spec fn from_spec(render: FlDataFrameViewRender) -> Self {
        DataRender::DataFrameView(Box::new(render))
    }
}

/// A view of a datum of the bag.
#[derive(Debug)]
pub enum DataView {
    FlDataFrameView(FlDataFrameView),
    FlObjectView(FlObjectView),
}

impl DataView {
    pub open spec fn spec_reference(&self) -> FlDataReference {
        match self {
            DataView::FlDataFrameView(v) => v.table.data_reference,
            DataView::FlObjectView(v) => v.content,
        }
    }

    pub fn id(&self) -> (r: Id)
        ensures
            r == match self {
                DataView::FlDataFrameView(v) => v.id,
                DataView::FlObjectView(v) => v.id,
            },
    {
        match self {
            DataView::FlDataFrameView(v) => v.id,
            DataView::FlObjectView(v) => v.id,
        }
    }

    /// The datum this view shows.
    pub fn reference(&self) -> (r: FlDataReference)
        ensures
            r == self.spec_reference(),
    {
        match self {
            DataView::FlDataFrameView(v) => v.table.data_reference.clone(),
            DataView::FlObjectView(v) => v.content.clone(),
        }
    }

    /// The columns of the viewed frame that can be drawn as shapes, given the
    /// frame's field names in order; an object view has none.
    pub fn visualizeable_attributes(&self, bag: &Bag, field_names: &Vec<String>) -> (r: Vec<String>)
        requires
            self matches DataView::FlDataFrameView(v) ==> exists|i: int|
                selects(bag.data_list@, v.table.data_reference, i) && bag.data_list@[i].data is DataFrame,
        ensures
            match self {
                DataView::FlObjectView(_) => r@.len() == 0,
                DataView::FlDataFrameView(v) => exists|i: int|
                    selects(bag.data_list@, v.table.data_reference, i) && (
                    bag.data_list@[i].data matches FlData::DataFrame(df) && r@.map_values(
                        |s: String| s@,
                    ) == field_names@.filter(|c: String| is_special(df.special_columns@, c@)).map_values(
                        |c: String| c@,
                    )),
            },
    {
        match self {
            DataView::FlDataFrameView(v) => {
                let df = match v.table.dataframe(bag) {
                    Ok(df) => df,
                    Err(_) => {
                        proof {
                            let i = choose|i: int|
                                selects(bag.data_list@, v.table.data_reference, i)
                                    && bag.data_list@[i].data is DataFrame;
                            let k = choose|k: int|
                                selects(bag.data_list@, v.table.data_reference, k)
                                    && !(bag.data_list@[k].data is DataFrame);
                            crate::storage::lemma_selects_unique(bag.data_list@, v.table.data_reference, i, k);
                        }
                        return Vec::new();
                    },
                };
                special_attribute_columns(&df.special_columns, field_names)
            },
            DataView::FlObjectView(_) => Vec::new(),
        }
    }

    /// A render of `attribute` of the viewed frame.
    pub fn create_visualize(&self, attribute: String) -> (r: DataRender)
        requires
            self is FlDataFrameView,
        ensures
            r matches DataRender::DataFrameView(render) && (self matches DataView::FlDataFrameView(v)
                && render.column == attribute && render.dataframe_view.id == v.id
                && render.dataframe_view.table == v.table),
    {
        match self {
            DataView::FlDataFrameView(v) => FlDataFrameViewRender::new(v.clone(), attribute).into(),
            DataView::FlObjectView(_) => {
                assert(false);
                DataRender::Image(FlImageRender::new(self.reference()))
            },
        }
    }
}


/// A column chosen for colours or labels stays chosen only while the frame
/// still has it.
pub fn verified_column(choice: Option<String>, columns: &Vec<String>) -> (r: Option<String>)
    ensures
        r == match choice {
            Some(c) => if crate::view::contains_str(columns@, c@) {
                Some(c)
            } else {
                None
            },
            None => None,
        },
{
    match choice {
        Some(c) => {
            if crate::view::includes(columns, c.as_str()) {
                Some(c)
            } else {
                None
            }
        },
        None => None,
    }
}

/// Whether a column choice is valid among `columns`: none, or one of them.
pub open spec fn choice_valid(choice: Option<String>, columns: Seq<String>) -> bool {
    match choice {
        Some(c) => crate::view::contains_str(columns, c@),
        None => true,
    }
}

/// The columns a shape render takes its stroke colours, fill colours and
/// labels from.
#[derive(Debug)]
pub struct ColumnChoices {
    pub color_scatter_column: Option<String>,
    pub fill_color_scatter_column: Option<String>,
    pub label_column: Option<String>,
}

impl ColumnChoices {
    /// Drops each chosen column that is not among `columns`, so that every
    /// choice is valid afterwards; a valid choice is kept.
    pub fn verification(&mut self, columns: &Vec<String>)
        ensures
            choice_valid(final(self).color_scatter_column, columns@),
            choice_valid(final(self).fill_color_scatter_column, columns@),
            choice_valid(final(self).label_column, columns@),
            choice_valid(old(self).color_scatter_column, columns@)
                ==> final(self).color_scatter_column == old(self).color_scatter_column,
            choice_valid(old(self).fill_color_scatter_column, columns@)
                ==> final(self).fill_color_scatter_column == old(self).fill_color_scatter_column,
            choice_valid(old(self).label_column, columns@) ==> final(self).label_column == old(
                self,
            ).label_column,
            !choice_valid(old(self).color_scatter_column, columns@)
                ==> final(self).color_scatter_column is None,
            !choice_valid(old(self).fill_color_scatter_column, columns@)
                ==> final(self).fill_color_scatter_column is None,
            !choice_valid(old(self).label_column, columns@) ==> final(self).label_column is None,
    {
        let color = self.color_scatter_column.take();
        self.color_scatter_column = verified_column(color, columns);
        let fill = self.fill_color_scatter_column.take();
        self.fill_color_scatter_column = verified_column(fill, columns);
        let label = self.label_column.take();
        self.label_column = verified_column(label, columns);
    }
}

/// Choosing nothing, or one of the offered columns, is a valid choice.
pub proof fn lemma_offered_choice_valid(columns: Seq<String>, k: int)
    requires
        0 <= k < columns.len(),
    ensures
        choice_valid(Some(columns[k]), columns),
        choice_valid(None, columns),
{
}

/// The columns that a render of the column `column` offers for colours and
/// labels: those of the frame other than the drawn one, in order.
pub fn option_columns(frame_columns: &Vec<String>, column: &str) -> (r: Vec<String>)
    ensures
        r@.map_values(|s: String| s@) == frame_columns@.filter(|c: String| c@ != column@).map_values(
            |c: String| c@,
        ),
{
    let ghost pred = |c: String| c@ != column@;
    let mut out: Vec<String> = Vec::new();
    let mut i: usize = 0;
    while i < frame_columns.len()
        invariant
            i <= frame_columns@.len(),
            pred == (|c: String| c@ != column@),
            out@.map_values(|s: String| s@) == frame_columns@.take(i as int).filter(pred).map_values(
                |c: String| c@,
            ),
        decreases frame_columns@.len() - i,
    {
        let ghost before = out@;
        proof {
            lemma_filter_names_step(frame_columns@, pred, i as int);
        }
        if !str_eq(frame_columns[i].as_str(), column) {
            out.push(frame_columns[i].clone());
            assert(out@.map_values(|s: String| s@) =~= before.map_values(|s: String| s@).push(frame_columns@[i as int]@));
        }
        i = i + 1;
    }
    assert(frame_columns@.take(frame_columns@.len() as int) =~= frame_columns@);
    out
}

/// For each drawn row, given by its row identifier, whether it is
/// highlighted.
pub fn row_highlights(highlight: &HashSet<u64>, row_ids: &Vec<u64>) -> (r: Vec<bool>)
    ensures
        r@.len() == row_ids@.len(),
        forall|i: int| 0 <= i < row_ids@.len() ==> r@[i] == highlight@.contains(row_ids@[i]),
{
    let mut r: Vec<bool> = Vec::new();
    let mut i: usize = 0;
    while i < row_ids.len()
        invariant
            i <= row_ids@.len(),
            r@.len() == i,
            forall|j: int| 0 <= j < i ==> r@[j] == highlight@.contains(row_ids@[j]),
        decreases row_ids@.len() - i,
    {
        r.push(highlight.contains(&row_ids[i]));
        i = i + 1;
    }
    r
}

/// The row under the pointer once a column's shapes were drawn: the row
/// identifier of the last hovered shape, or none when no shape is hovered.
pub fn selected_row(hovered: &Vec<bool>, row_ids: &Vec<u64>) -> (r: Option<u64>)
    requires
        hovered@.len() <= row_ids@.len(),
    ensures
        match r {
            Some(id) => exists|i: int|
                0 <= i < hovered@.len() && hovered@[i] && row_ids@[i] == id && forall|j: int|
                    i < j < hovered@.len() ==> !hovered@[j],
            None => forall|i: int| 0 <= i < hovered@.len() ==> !hovered@[i],
        },
{
    let mut r: Option<u64> = None;
    let ghost mut at: int = -1;
    let mut i: usize = 0;
    while i < hovered.len()
        invariant
            i <= hovered@.len(),
            hovered@.len() <= row_ids@.len(),
            match r {
                Some(id) => 0 <= at < i && hovered@[at] && row_ids@[at] == id && forall|j: int|
                    at < j < i ==> !hovered@[j],
                None => forall|j: int| 0 <= j < i ==> !hovered@[j],
            },
        decreases hovered@.len() - i,
    {
        if hovered[i] {
            r = Some(row_ids[i]);
            proof {
                at = i as int;
            }
        }
        i = i + 1;
    }
    r
}

} // verus!
