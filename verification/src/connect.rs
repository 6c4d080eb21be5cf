use vstd::prelude::*;

use crate::data_type::{distinct_keys, FlDataFrame, FlDataFrameSpecialColumn};

verus! {

/// How a client marks a column to be drawn as a shape.
#[derive(Debug, Clone, Copy, PartialEq, Eq, Structural)]
pub enum WireSpecialColumn {
    Rectangle,
    Segment,
    Color,
}

/// How a client marks a column of rows it sends.
#[derive(Debug, Clone, Copy, PartialEq, Eq, Structural)]
pub enum SpecialColumn {
    Rectangle,
    Segment,
    Color,
}

impl From<SpecialColumn> for WireSpecialColumn {
    fn from(column: SpecialColumn) -> (r: Self) {
        match column {
            SpecialColumn::Rectangle => WireSpecialColumn::Rectangle,
            SpecialColumn::Segment => WireSpecialColumn::Segment,
            SpecialColumn::Color => WireSpecialColumn::Color,
        }
    }
}

impl vstd::std_specs::convert::FromSpecImpl<SpecialColumn> for WireSpecialColumn {
    open spec fn obeys_from_spec() -> bool {
        true
    }

    open spec fn from_spec(column: SpecialColumn) -> Self {
        match column {
            SpecialColumn::Rectangle => WireSpecialColumn::Rectangle,
            SpecialColumn::Segment => WireSpecialColumn::Segment,
            SpecialColumn::Color => WireSpecialColumn::Color,
        }
    }
}

/// Why data sent by a client could not be stored.
#[derive(Debug, Clone, Copy, PartialEq, Eq, Structural)]
pub enum ConnectError {
    /// A special column of a kind this engine does not draw.
    UnknownSpecialColumn,
    /// The bytes are not an Arrow IPC data frame.
    IpcRead,
    /// The stream ended without its description.
    MetaNotFound,
}

/// The drawn kind of a special column sent by a client.
pub fn special_column_convert(special_column: WireSpecialColumn) -> (r: Result<
    FlDataFrameSpecialColumn,
    ConnectError,
>)
    ensures
        r == match special_column {
            WireSpecialColumn::Rectangle => Ok::<FlDataFrameSpecialColumn, ConnectError>(
                FlDataFrameSpecialColumn::Rectangle,
            ),
            WireSpecialColumn::Segment => Ok(FlDataFrameSpecialColumn::Segment),
            WireSpecialColumn::Color => Err(ConnectError::UnknownSpecialColumn),
        },
{
    match special_column {
        WireSpecialColumn::Rectangle => Ok(FlDataFrameSpecialColumn::Rectangle),
        WireSpecialColumn::Segment => Ok(FlDataFrameSpecialColumn::Segment),
        WireSpecialColumn::Color => Err(ConnectError::UnknownSpecialColumn),
    }
}

/// The drawn kind of a special column sent by a client.
pub open spec fn spec_convert(c: WireSpecialColumn) -> FlDataFrameSpecialColumn {
    match c {
        WireSpecialColumn::Segment => FlDataFrameSpecialColumn::Segment,
        _ => FlDataFrameSpecialColumn::Rectangle,
    }
}

/// Whether `r` is what a read frame `frame` and the special columns
/// `special_columns` named by a client make: no frame is a read error, a
/// special column of an undrawn kind is refused, and otherwise the frame is
/// kept with each special column converted, in order.
pub open spec fn frame_outcome(
    special_columns: Seq<(String, WireSpecialColumn)>,
    frame: Option<polars::frame::DataFrame>,
    r: Result<FlDataFrame, ConnectError>,
) -> bool {
    match frame {
        None => r == Err::<FlDataFrame, ConnectError>(ConnectError::IpcRead),
        Some(df) => if exists|k: int|
            0 <= k < special_columns.len() && special_columns[k].1 == WireSpecialColumn::Color {
            r == Err::<FlDataFrame, ConnectError>(ConnectError::UnknownSpecialColumn)
        } else {
            r matches Ok(out) && out.value == df && out.special_columns@.len()
                == special_columns.len() && forall|k: int|
                0 <= k < special_columns.len() ==> out.special_columns@[k].0
                    == special_columns[k].0 && out.special_columns@[k].1 == spec_convert(
                    special_columns[k].1,
                )
        },
    }
}

/// The data frame of a client from the frame its Arrow IPC bytes were read
/// into (`None` where the reader refused them) and the special columns it
/// named. Reading the bytes is left to the program: polars' IPC reader
/// panics on some schemas instead of refusing them, and only the program can
/// catch that.
pub fn dataframe_from_frame(
    special_columns: Vec<(String, WireSpecialColumn)>,
    frame: Option<polars::frame::DataFrame>,
) -> (r: Result<FlDataFrame, ConnectError>)
    requires
        distinct_keys(special_columns@),
    ensures
        frame_outcome(special_columns@, frame, r),
{
    let ghost read = frame;
    let df = match frame {
        Some(df) => df,
        None => return Err(ConnectError::IpcRead),
    };
    let ghost input = special_columns@;
    let mut converted: Vec<(String, FlDataFrameSpecialColumn)> = Vec::new();
    let mut i: usize = 0;
    while i < special_columns.len()
        invariant
            input == special_columns@,
            read == Some(df),
            read == frame,
            distinct_keys(input),
            i <= input.len(),
            converted@.len() == i,
            forall|k: int|
                0 <= k < i ==> converted@[k].0 == input[k].0 && converted@[k].1 == spec_convert(
                    input[k].1,
                ) && input[k].1 != WireSpecialColumn::Color,
        decreases input.len() - i,
    {
        let kind = match special_column_convert(special_columns[i].1) {
            Ok(kind) => kind,
            Err(e) => {
                assert(input[i as int].1 == WireSpecialColumn::Color);
                assert(exists|k: int| 0 <= k < input.len() && input[k].1 == WireSpecialColumn::Color);
                assert(e == ConnectError::UnknownSpecialColumn);
                return Err(e);
            },
        };
        converted.push((special_columns[i].0.clone(), kind));
        i = i + 1;
    }
    assert forall|a: int, b: int| 0 <= a < b < converted@.len() implies converted@[a].0@ != converted@[b].0@ by {
        assert(input[a].0@ != input[b].0@);
    }
    Ok(FlDataFrame::new(df, converted))
}

/// The description that opens an upload.
#[derive(Debug)]
pub struct DataMeta {
    pub bag_id: u64,
    pub name: String,
    pub data_type: i32,
    pub special_columns: Vec<(String, i32)>,
}

/// One message of an upload stream.
#[derive(Debug)]
pub enum AppendMessage {
    Meta(DataMeta),
    DataBytes(Vec<u8>),
    Empty,
}

/// Gathers an upload stream: the last description sent and all data bytes
/// in the order they came.
#[derive(Debug)]
pub struct AppendAssembler {
    pub meta: Option<DataMeta>,
    pub buffer: Vec<u8>,
}

impl AppendAssembler {
    pub fn new() -> (r: Self)
        ensures
            r.meta is None,
            r.buffer@.len() == 0,
    {
        Self { meta: None, buffer: Vec::new() }
    }

    /// Takes in one message; a message without content is not allowed.
    pub fn push(&mut self, message: AppendMessage)
        requires
            !(message is Empty),
        ensures
            match message {
                AppendMessage::Meta(m) => final(self).meta == Some(m) && final(self).buffer@
                    == old(self).buffer@,
                AppendMessage::DataBytes(d) => final(self).meta == old(self).meta
                    && final(self).buffer@ == old(self).buffer@ + d@,
                AppendMessage::Empty => false,
            },
    {
        match message {
            AppendMessage::Meta(m) => {
                self.meta = Some(m);
            },
            AppendMessage::DataBytes(d) => {
                let mut d = d;
                self.buffer.append(&mut d);
            },
            AppendMessage::Empty => {},
        }
    }

    /// The description and the bytes of the finished upload.
    pub fn finish(self) -> (r: Result<(DataMeta, Vec<u8>), ConnectError>)
        ensures
            match self.meta {
                Some(m) => r matches Ok((m2, b)) && m2 == m && b@ == self.buffer@,
                None => r == Err::<(DataMeta, Vec<u8>), ConnectError>(ConnectError::MetaNotFound),
            },
    {
        match self.meta {
            Some(m) => Ok((m, self.buffer)),
            None => Err(ConnectError::MetaNotFound),
        }
    }
}

} // verus!
