use vstd::prelude::*;

verus! {

/// Identifier of a piece of data.
pub type Id = u64;

/// The polars frame type, carried through the library without being read.
#[verifier::external_type_specification]
#[verifier::external_body]
pub struct ExDataFrame(polars::frame::DataFrame);

/// A polars column. Nothing here reads one, but Verus refuses the frame type
/// without it: the frame's `Index` impls give columns.
#[verifier::external_type_specification]
#[verifier::external_body]
pub struct ExColumn(polars::prelude::Column);

/// The error type of polars.
#[verifier::external_type_specification]
#[verifier::external_body]
pub struct ExPolarsError(polars::prelude::PolarsError);

/// `rand::random::<u64>()`: an identifier drawn uniformly from all 64-bit
/// values. Nothing is stated of the value, which rests on chance.
#[verifier::external_body]
pub(crate) fn random_u64() -> (r: u64) {
    rand::random::<u64>()
}

/// The kind of a stored datum.
#[derive(Debug, Clone, Copy, PartialEq, Eq, Hash, Structural)]
pub enum FlDataType {
    Image,
    Tensor,
    DataFrame,
}

/// Common behaviour of every datum: it has an identifier.
pub trait FlDataTrait {
    spec fn spec_id(&self) -> Id;

    fn id(&self) -> (r: Id)
        ensures
            r == self.spec_id(),
    ;
}

/// An encoded image together with its pixel size.
#[derive(Debug)]
pub struct FlImage {
    pub id: Id,
    pub value: Vec<u8>,
    pub width: usize,
    pub height: usize,
}

impl FlImage {
    /// A new image under a fresh random identifier.
    pub fn new(value: Vec<u8>, width: usize, height: usize) -> (r: Self)
        ensures
            r.value@ == value@,
            r.width == width,
            r.height == height,
    {
        Self { id: random_u64(), value, width, height }
    }
}

impl FlDataTrait for FlImage {
    open spec fn spec_id(&self) -> Id {
        self.id
    }

    fn id(&self) -> (r: Id) {
        self.id
    }
}


/// Width and height that a PNG decoder reads from the header of `bytes`,
/// or `None` when no decoder can be set up on them.
pub uninterp spec fn png_header_dimensions(bytes: Seq<u8>) -> Option<(u32, u32)>;

/// `image::codecs::png::PngDecoder::new` followed by `ImageDecoder::dimensions`:
/// the result is the pixel size the decoder reads from the PNG header, and
/// depends on the bytes alone.
#[verifier::external_body]
fn png_dimensions(bytes: &[u8]) -> (r: Option<(u32, u32)>)
    ensures
        r == png_header_dimensions(bytes@),
{
    match image::codecs::png::PngDecoder::new(bytes) {
        Ok(decoder) => Some(image::ImageDecoder::dimensions(&decoder)),
        Err(_) => None,
    }
}

/// Why a datum could not be built.
#[derive(Debug, Clone, Copy, PartialEq, Eq, Structural)]
pub enum FlDataError {
    /// The bytes are not a PNG image.
    PngDecode,
}

impl FlImage {
    /// An image from PNG bytes and the pixel size a decoder read from their
    /// header, `None` where no decoder could be set up on them.
    pub fn from_png_header(value: Vec<u8>, dimensions: Option<(u32, u32)>) -> (r: Result<
        Self,
        FlDataError,
    >)
        ensures
            match dimensions {
                Some((w, h)) => r matches Ok(img) && img.value@ == value@ && img.width == w
                    && img.height == h,
                None => r == Err::<Self, FlDataError>(FlDataError::PngDecode),
            },
    {
        match dimensions {
            Some((width, height)) => Ok(
                Self { id: random_u64(), value, width: width as usize, height: height as usize },
            ),
            None => Err(FlDataError::PngDecode),
        }
    }

    /// An image from PNG bytes; its size is read from the PNG header.
    pub fn try_from_bytes(value: Vec<u8>) -> (r: Result<Self, FlDataError>)
        ensures
            match png_header_dimensions(value@) {
                Some((w, h)) => r matches Ok(img) && img.value@ == value@ && img.width == w
                    && img.height == h,
                None => r == Err::<Self, FlDataError>(FlDataError::PngDecode),
            },
    {
        let dimensions = png_dimensions(value.as_slice());
        Self::from_png_header(value, dimensions)
    }
}

/// A two-dimensional tensor of 64-bit floating point numbers, kept as their
/// IEEE-754 bit patterns in row-major order.
#[derive(Debug)]
pub struct FlTensor2D {
    pub id: Id,
    pub rows: usize,
    pub cols: usize,
    pub value: Vec<u64>,
}

impl FlTensor2D {
    /// Well-formed when the entries fill exactly `rows` by `cols`.
    pub open spec fn wf(&self) -> bool {
        self.value@.len() == self.rows * self.cols
    }

    /// A new tensor under a fresh random identifier.
    pub fn new(rows: usize, cols: usize, value: Vec<u64>) -> (r: Self)
        requires
            value@.len() == rows * cols,
        ensures
            r.wf(),
            r.rows == rows,
            r.cols == cols,
            r.value@ == value@,
    {
        Self { id: random_u64(), rows, cols, value }
    }
}

impl FlDataTrait for FlTensor2D {
    open spec fn spec_id(&self) -> Id {
        self.id
    }

    fn id(&self) -> (r: Id) {
        self.id
    }
}

/// How a data-frame column is to be drawn.
#[derive(Debug, Clone, Copy, PartialEq, Eq, Hash, Structural)]
pub enum FlDataFrameSpecialColumn {
    Rectangle,
    Segment,
}

/// Whether no column name occurs twice.
pub open spec fn distinct_keys<V>(s: Seq<(String, V)>) -> bool {
    forall|i: int, j: int| 0 <= i < j < s.len() ==> s[i].0@ != s[j].0@
}

/// A polars data frame together with the columns to be drawn as shapes.
#[derive(Debug)]
pub struct FlDataFrame {
    pub id: Id,
    pub value: polars::frame::DataFrame,
    pub special_columns: Vec<(String, FlDataFrameSpecialColumn)>,
}

impl FlDataFrame {
    /// A new data frame under a fresh random identifier.
    pub fn new(
        value: polars::frame::DataFrame,
        special_columns: Vec<(String, FlDataFrameSpecialColumn)>,
    ) -> (r: Self)
        requires
            distinct_keys(special_columns@),
        ensures
            r.value == value,
            r.special_columns@ == special_columns@,
    {
        Self { id: random_u64(), value, special_columns }
    }
}

impl FlDataTrait for FlDataFrame {
    open spec fn spec_id(&self) -> Id {
        self.id
    }

    fn id(&self) -> (r: Id) {
        self.id
    }
}

/// A stored datum.
#[derive(Debug)]
pub enum FlData {
    Image(FlImage),
    Tensor(FlTensor2D),
    DataFrame(FlDataFrame),
}

impl FlData {
    pub open spec fn spec_id(&self) -> Id {
        match self {
            FlData::Image(v) => v.id,
            FlData::Tensor(v) => v.id,
            FlData::DataFrame(v) => v.id,
        }
    }

    pub open spec fn spec_data_type(&self) -> FlDataType {
        match self {
            FlData::Image(_) => FlDataType::Image,
            FlData::Tensor(_) => FlDataType::Tensor,
            FlData::DataFrame(_) => FlDataType::DataFrame,
        }
    }

    pub fn id(&self) -> (r: Id)
        ensures
            r == self.spec_id(),
    {
        match self {
            FlData::Image(v) => v.id(),
            FlData::Tensor(v) => v.id(),
            FlData::DataFrame(v) => v.id(),
        }
    }

    pub fn data_type(&self) -> (r: FlDataType)
        ensures
            r == self.spec_data_type(),
    {
        match self {
            FlData::Image(_) => FlDataType::Image,
            FlData::Tensor(_) => FlDataType::Tensor,
            FlData::DataFrame(_) => FlDataType::DataFrame,
        }
    }

    pub fn as_image(&self) -> (r: Option<&FlImage>)
        ensures
            match self {
                FlData::Image(v) => r == Some(v),
                _ => r is None,
            },
    {
        match self {
            FlData::Image(v) => Some(v),
            _ => None,
        }
    }

    pub fn as_tensor(&self) -> (r: Option<&FlTensor2D>)
        ensures
            match self {
                FlData::Tensor(v) => r == Some(v),
                _ => r is None,
            },
    {
        match self {
            FlData::Tensor(v) => Some(v),
            _ => None,
        }
    }

    pub fn as_data_frame(&self) -> (r: Option<&FlDataFrame>)
        ensures
            match self {
                FlData::DataFrame(v) => r == Some(v),
                _ => r is None,
            },
    {
        match self {
            FlData::DataFrame(v) => Some(v),
            _ => None,
        }
    }
}

impl From<FlImage> for FlData {
    fn from(value: FlImage) -> (r: Self) {
        FlData::Image(value)
    }
}

impl vstd::std_specs::convert::FromSpecImpl<FlImage> for FlData {
    open spec fn obeys_from_spec() -> bool {
        true
    }

    open spec fn from_spec(value: FlImage) -> Self {
        FlData::Image(value)
    }
}

impl From<FlTensor2D> for FlData {
    fn from(value: FlTensor2D) -> (r: Self) {
        FlData::Tensor(value)
    }
}

impl vstd::std_specs::convert::FromSpecImpl<FlTensor2D> for FlData {
    open spec fn obeys_from_spec() -> bool {
        true
    }

    open spec fn from_spec(value: FlTensor2D) -> Self {
        FlData::Tensor(value)
    }
}

impl From<FlDataFrame> for FlData {
    fn from(value: FlDataFrame) -> (r: Self) {
        FlData::DataFrame(value)
    }
}

impl vstd::std_specs::convert::FromSpecImpl<FlDataFrame> for FlData {
    open spec fn obeys_from_spec() -> bool {
        true
    }

    open spec fn from_spec(value: FlDataFrame) -> Self {
        FlData::DataFrame(value)
    }
}

/// Which generation of a named datum is meant.
#[derive(Debug, Clone, Copy, PartialEq, Eq, Hash, Structural)]
pub enum GenerationSelector {
    Latest,
    Generation(u64),
}

/// A reference to a datum of a bag, by name and generation.
#[derive(Debug)]
pub struct FlDataReference {
    pub name: String,
    pub generation: GenerationSelector,
    pub data_type: FlDataType,
}

impl FlDataReference {
    pub fn new(name: String, generation: GenerationSelector, data_type: FlDataType) -> (r: Self)
        ensures
            r.name == name,
            r.generation == generation,
            r.data_type == data_type,
    {
        Self { name, generation, data_type }
    }
}

impl Clone for FlDataReference {
    fn clone(&self) -> (r: Self)
        ensures
            r == *self,
    {
        Self { name: self.name.clone(), generation: self.generation, data_type: self.data_type }
    }
}

} // verus!
