use vstd::prelude::*;

use crate::data_type::{random_u64, FlDataFrame, FlDataReference, FlData};
use crate::storage::{Bag, selects};
use crate::view::clone_names;
use std::collections::{HashMap, HashSet};

verus! {

/// Which columns a table shows, in order.
#[derive(Debug)]
pub enum ShowColumns {
    All,
    Only(Vec<String>),
}

/// How a table is to be drawn.
#[derive(Debug)]
pub struct FlTableDrawContext {
    pub show_columns: ShowColumns,
}

/// Why a table could not reach its data frame.
#[derive(Debug, Clone, Copy, PartialEq, Eq, Structural)]
pub enum FlTableError {
    /// The bag holds no datum for the table's reference.
    DataNotFound,
    /// The referenced datum is not a data frame.
    MismatchedDataType,
}

impl FlTableDrawContext {
    /// The columns the table draws, in order: all of the frame's, or those
    /// listed.
    pub fn columns(&self, frame_columns: &Vec<String>) -> (r: Vec<String>)
        ensures
            r@ == match self.show_columns {
                ShowColumns::All => frame_columns@,
                ShowColumns::Only(c) => c@,
            },
    {
        match &self.show_columns {
            ShowColumns::All => clone_names(frame_columns),
            ShowColumns::Only(c) => clone_names(c),
        }
    }
}

/// A table over the data frame that a reference designates.
#[derive(Debug)]
pub struct FlTable {
    pub id: u64,
    pub data_reference: FlDataReference,
}

impl FlTable {
    /// A table under a fresh random identifier.
    pub fn new(data_reference: FlDataReference) -> (r: Self)
        ensures
            r.data_reference == data_reference,
    {
        Self { id: random_u64(), data_reference }
    }

    /// The data frame of `bag` that this table shows.
    pub fn dataframe<'a>(&self, bag: &'a Bag) -> (r: Result<&'a FlDataFrame, FlTableError>)
        ensures
            match r {
                Ok(df) => exists|i: int|
                    selects(bag.data_list@, self.data_reference, i)
                        && bag.data_list@[i].data == FlData::DataFrame(*df),
                Err(FlTableError::DataNotFound) => forall|i: int|
                    !selects(bag.data_list@, self.data_reference, i),
                Err(FlTableError::MismatchedDataType) => exists|i: int|
                    selects(bag.data_list@, self.data_reference, i)
                        && !(bag.data_list@[i].data is DataFrame),
            },
    {
        match bag.data_by_reference(&self.data_reference) {
            Ok(data) => match data.as_data_frame() {
                Some(df) => Ok(df),
                None => Err(FlTableError::MismatchedDataType),
            },
            Err(_) => Err(FlTableError::DataNotFound),
        }
    }
}

impl Clone for FlTable {
    fn clone(&self) -> (r: Self)
        ensures
            r == *self,
    {
        Self { id: self.id, data_reference: self.data_reference.clone() }
    }
}


/// What a click or a key does to the rows of a table.
#[derive(Debug, Clone, Copy, PartialEq, Eq, Structural)]
pub enum ModifyMode {
    Normal,
    Command,
    Select,
}

impl ModifyMode {
    /// The mode that the held modifier keys select: the command key alone
    /// copies, shift selects text, anything else is normal.
    pub fn from_modifiers(command_only: bool, shift: bool) -> (r: Self)
        ensures
            r == (if command_only {
                ModifyMode::Command
            } else if shift {
                ModifyMode::Select
            } else {
                ModifyMode::Normal
            }),
    {
        if command_only {
            ModifyMode::Command
        } else if shift {
            ModifyMode::Select
        } else {
            ModifyMode::Normal
        }
    }

    pub fn is_command(&self) -> (r: bool)
        ensures
            r == (*self == ModifyMode::Command),
    {
        matches!(self, ModifyMode::Command)
    }

    pub fn is_select(&self) -> (r: bool)
        ensures
            r == (*self == ModifyMode::Select),
    {
        matches!(self, ModifyMode::Select)
    }

    pub fn is_normal(&self) -> (r: bool)
        ensures
            r == (*self == ModifyMode::Normal),
    {
        matches!(self, ModifyMode::Normal)
    }
}

/// The highlighted rows after row `index` was toggled.
pub open spec fn toggled(s: Set<u64>, index: u64) -> Set<u64> {
    if s.contains(index) {
        s.remove(index)
    } else {
        s.insert(index)
    }
}

/// Toggling a row twice leaves the highlight as it was, and toggling one row
/// leaves every other row as it was.
pub proof fn lemma_toggle_twice(s: Set<u64>, index: u64, other: u64)
    ensures
        toggled(toggled(s, index), index) == s,
        toggled(s, index).contains(index) == !s.contains(index),
        other != index ==> toggled(s, index).contains(other) == s.contains(other),
{
    assert(toggled(toggled(s, index), index) =~= s);
}

/// Adds `index` to the highlighted rows, or removes it if it was there.
pub fn toggle_highlight(highlight: &mut HashSet<u64>, index: u64)
    ensures
        final(highlight)@ == toggled(old(highlight)@, index),
{
    broadcast use vstd::std_specs::hash::group_hash_axioms;

    if highlight.contains(&index) {
        highlight.remove(&index);
    } else {
        highlight.insert(index);
    }
}

/// A click on a cell of row `index`: in command mode the cell is to be
/// copied (the result is `true`) and the highlight stays; otherwise the row's
/// highlight is toggled.
pub fn on_cell_clicked(mode: ModifyMode, highlight: &mut HashSet<u64>, index: u64) -> (copy: bool)
    ensures
        copy == (mode == ModifyMode::Command),
        copy ==> final(highlight)@ == old(highlight)@,
        !copy ==> final(highlight)@ == toggled(old(highlight)@, index),
{
    if mode.is_command() {
        true
    } else {
        toggle_highlight(highlight, index);
        false
    }
}

/// Whether row `index` is drawn selected: it is highlighted or it is the row
/// under the pointer.
pub fn row_is_selected(highlight: &HashSet<u64>, selected: Option<u64>, index: u64) -> (r: bool)
    ensures
        r == (highlight@.contains(index) || selected == Some(index)),
{
    broadcast use vstd::std_specs::hash::group_hash_axioms;

    if highlight.contains(&index) {
        return true;
    }
    match selected {
        Some(s) => s == index,
        None => false,
    }
}

/// A result that may still be computing.
#[derive(Debug)]
pub enum DataFramePoll<T> {
    Ready(T),
    Pending,
}

/// A filtering run in progress, with the last result kept for display.
#[derive(Debug)]
pub struct Calculating {
    pub generation: u64,
    pub previous: Option<polars::frame::DataFrame>,
    pub previous_generation: Option<u64>,
}

/// What the cache holds for one table.
#[derive(Debug)]
pub enum CacheState {
    Ready { generation: u64, dataframe: polars::frame::DataFrame },
    Calculating(Calculating),
}

/// The state after a filtering run of `generation` delivered `dataframe`.
pub open spec fn state_after_computed(
    state: Option<CacheState>,
    generation: u64,
    dataframe: polars::frame::DataFrame,
) -> CacheState {
    match state {
        None => CacheState::Ready { generation, dataframe },
        Some(CacheState::Ready { generation: g, dataframe: d }) => if g == generation {
            CacheState::Ready { generation, dataframe }
        } else {
            CacheState::Ready { generation: g, dataframe: d }
        },
        Some(CacheState::Calculating(calc)) => if calc.generation == generation {
            CacheState::Ready { generation, dataframe }
        } else if (match calc.previous_generation {
            Some(p) => p,
            None => 0,
        }) < generation {
            CacheState::Calculating(
                Calculating {
                    generation: calc.generation,
                    previous: Some(dataframe),
                    previous_generation: Some(generation),
                },
            )
        } else {
            CacheState::Calculating(calc)
        },
    }
}

/// The state after a new filtering run was started.
pub open spec fn state_after_calculating(state: Option<CacheState>) -> CacheState {
    match state {
        None => CacheState::Calculating(
            Calculating { generation: 0, previous: None, previous_generation: None },
        ),
        Some(CacheState::Ready { generation, dataframe }) => CacheState::Calculating(
            Calculating {
                generation: if generation == u64::MAX {
                    0
                } else {
                    (generation + 1) as u64
                },
                previous: Some(dataframe),
                previous_generation: Some(generation),
            },
        ),
        Some(CacheState::Calculating(calc)) => CacheState::Calculating(
            Calculating {
                generation: if calc.generation == u64::MAX {
                    0
                } else {
                    (calc.generation + 1) as u64
                },
                previous: calc.previous,
                previous_generation: Some(calc.generation),
            },
        ),
    }
}

/// The generation a state is computing or holds.
pub open spec fn state_generation(state: CacheState) -> u64 {
    match state {
        CacheState::Ready { generation, .. } => generation,
        CacheState::Calculating(calc) => calc.generation,
    }
}

/// What a lookup shows of a state: the ready frame, else the last frame kept
/// while computing, else nothing yet.
pub open spec fn state_poll(state: CacheState) -> Option<polars::frame::DataFrame> {
    match state {
        CacheState::Ready { dataframe, .. } => Some(dataframe),
        CacheState::Calculating(calc) => calc.previous,
    }
}

/// Filtered data frames of the tables, with the generation of the filtering
/// run that produced them.
pub struct FilteredDataFrameCache {
    cached_dataframes: HashMap<u64, CacheState>,
}

impl View for FilteredDataFrameCache {
    type V = Map<u64, CacheState>;

    closed spec fn view(&self) -> Map<u64, CacheState> {
        self.cached_dataframes@
    }
}

impl Default for FilteredDataFrameCache {
    fn default() -> (r: Self)
        ensures
            r@ == Map::<u64, CacheState>::empty(),
    {
        Self { cached_dataframes: HashMap::new() }
    }
}

impl FilteredDataFrameCache {
    /// Records the result of the filtering run `generation` of table `id`.
    pub fn insert_computed(&mut self, id: u64, generation: u64, dataframe: polars::frame::DataFrame)
        ensures
            final(self)@ == old(self)@.insert(
                id,
                state_after_computed(
                    if old(self)@.contains_key(id) {
                        Some(old(self)@[id])
                    } else {
                        None
                    },
                    generation,
                    dataframe,
                ),
            ),
    {
        broadcast use vstd::std_specs::hash::group_hash_axioms;

        let previous = self.cached_dataframes.remove(&id);
        let next = match previous {
            None => CacheState::Ready { generation, dataframe },
            Some(CacheState::Ready { generation: g, dataframe: d }) => {
                if g == generation {
                    CacheState::Ready { generation, dataframe }
                } else {
                    CacheState::Ready { generation: g, dataframe: d }
                }
            },
            Some(CacheState::Calculating(calc)) => {
                let previous_generation = match calc.previous_generation {
                    Some(p) => p,
                    None => 0,
                };
                if calc.generation == generation {
                    CacheState::Ready { generation, dataframe }
                } else if previous_generation < generation {
                    CacheState::Calculating(
                        Calculating {
                            generation: calc.generation,
                            previous: Some(dataframe),
                            previous_generation: Some(generation),
                        },
                    )
                } else {
                    CacheState::Calculating(calc)
                }
            },
        };
        self.cached_dataframes.insert(id, next);
    }

    /// Starts a new filtering run of table `id` and returns its generation.
    pub fn insert_calculating(&mut self, id: u64) -> (r: u64)
        ensures
            final(self)@ == old(self)@.insert(
                id,
                state_after_calculating(
                    if old(self)@.contains_key(id) {
                        Some(old(self)@[id])
                    } else {
                        None
                    },
                ),
            ),
            r == state_generation(final(self)@[id]),
    {
        broadcast use vstd::std_specs::hash::group_hash_axioms;

        let previous = self.cached_dataframes.remove(&id);
        let calc = match previous {
            Some(CacheState::Ready { generation, dataframe }) => Calculating {
                generation: generation.wrapping_add(1),
                previous: Some(dataframe),
                previous_generation: Some(generation),
            },
            Some(CacheState::Calculating(calc)) => Calculating {
                generation: calc.generation.wrapping_add(1),
                previous: calc.previous,
                previous_generation: Some(calc.generation),
            },
            None => Calculating { generation: 0, previous: None, previous_generation: None },
        };
        let generation = calc.generation;
        self.cached_dataframes.insert(id, CacheState::Calculating(calc));
        generation
    }

    /// What table `id` can show: `None` when it has no entry.
    pub fn get(&self, id: u64) -> (r: Option<DataFramePoll<&polars::frame::DataFrame>>)
        ensures
            !self@.contains_key(id) ==> r is None,
            self@.contains_key(id) ==> match state_poll(self@[id]) {
                Some(d) => r == Some(DataFramePoll::Ready(&d)),
                None => r == Some(DataFramePoll::<&polars::frame::DataFrame>::Pending),
            },
    {
        broadcast use vstd::std_specs::hash::group_hash_axioms;

        match self.cached_dataframes.get(&id) {
            None => None,
            Some(CacheState::Ready { dataframe, .. }) => Some(DataFramePoll::Ready(dataframe)),
            Some(CacheState::Calculating(calc)) => match &calc.previous {
                Some(prev) => Some(DataFramePoll::Ready(prev)),
                None => Some(DataFramePoll::Pending),
            },
        }
    }

    /// Number of tables with an entry.
    pub fn len(&self) -> (r: usize)
        ensures
            self@.dom().finite(),
            r == self@.len(),
    {
        broadcast use vstd::std_specs::hash::group_hash_axioms;

        self.cached_dataframes.len()
    }
}


/// A run that is started and then delivers its result makes that result the
/// ready state, and it is what the table shows.
pub proof fn lemma_current_run_is_served(state: Option<CacheState>, dataframe: polars::frame::DataFrame)
    ensures
        ({
            let started = state_after_calculating(state);
            let done = state_after_computed(Some(started), state_generation(started), dataframe);
            &&& done == CacheState::Ready { generation: state_generation(started), dataframe }
            &&& state_poll(done) == Some(dataframe)
        }),
{
}

/// Starting a run keeps showing the frame that was shown before it.
pub proof fn lemma_starting_keeps_shown_frame(state: CacheState)
    ensures
        state_poll(state_after_calculating(Some(state))) == state_poll(state),
{
}

/// A result for a generation other than the ready one is dropped.
pub proof fn lemma_stale_result_dropped(
    generation: u64,
    dataframe: polars::frame::DataFrame,
    other: u64,
    late: polars::frame::DataFrame,
)
    requires
        other != generation,
    ensures
        state_after_computed(Some((CacheState::Ready { generation, dataframe })), other, late)
            == (CacheState::Ready { generation, dataframe }),
{
}

} // verus!
