use vstd::prelude::*;

use crate::text::str_eq;

verus! {

/// A field of a struct column: its name and whether its type is a float.
#[derive(Debug)]
pub struct Field {
    pub name: String,
    pub is_float: bool,
}

/// What a struct value holds in one field.
#[derive(Debug, Clone, Copy, PartialEq, Eq, Structural)]
pub enum FieldValue {
    /// A null value.
    Null,
    /// A value that reads as a float.
    Float,
    /// A value that does not read as a float.
    NotFloat,
}

/// A field of a struct value together with what the value holds in it.
#[derive(Debug)]
pub struct ShapeField {
    pub field: Field,
    pub value: FieldValue,
}

/// A cell of a shape column: a struct with its fields, or anything else.
#[derive(Debug)]
pub enum ShapeValue {
    Struct(Vec<ShapeField>),
    Other,
}

/// Which shape a cell is read as; the two differ in the order of their checks.
#[derive(Debug, Clone, Copy, PartialEq, Eq, Structural)]
pub enum ShapeKind {
    Rectangle,
    Segment,
}

/// Why a cell could not be read as a shape, other than a null coordinate.
#[derive(Debug, Clone, Copy, PartialEq, Eq, Structural)]
pub enum ShapeError {
    NotStruct,
    NotFloatField,
    NotExtractable,
    UnknownField,
    MissingField,
}

/// Why a cell could not be read as a shape.
#[derive(Debug, Clone, Copy, PartialEq, Eq, Structural)]
pub enum FlShapeConvertError {
    /// A coordinate is null.
    NullValue,
    UnhandledError(ShapeError),
}

/// Whether `name` is one of the coordinates `x1`, `y1`, `x2`, `y2`.
pub open spec fn is_coordinate(name: Seq<char>) -> bool {
    name == "x1"@ || name == "y1"@ || name == "x2"@ || name == "y2"@
}

/// The error a single field raises, if any.
pub open spec fn field_error(f: ShapeField, kind: ShapeKind) -> Option<ShapeError> {
    if !f.field.is_float {
        Some(ShapeError::NotFloatField)
    } else if kind == ShapeKind::Rectangle {
        if !is_coordinate(f.field.name@) {
            Some(ShapeError::UnknownField)
        } else if f.value == FieldValue::NotFloat {
            Some(ShapeError::NotExtractable)
        } else {
            None
        }
    } else {
        if f.value == FieldValue::NotFloat {
            Some(ShapeError::NotExtractable)
        } else if !is_coordinate(f.field.name@) {
            Some(ShapeError::UnknownField)
        } else {
            None
        }
    }
}

/// Whether `p` is the last position of a field named `key`.
pub open spec fn is_last_named(fs: Seq<ShapeField>, key: Seq<char>, p: int) -> bool {
    &&& 0 <= p < fs.len()
    &&& fs[p].field.name@ == key
    &&& forall|q: int| p < q < fs.len() ==> fs[q].field.name@ != key
}

/// The last position of a field named `key`, or -1.
pub open spec fn slot(fs: Seq<ShapeField>, key: Seq<char>) -> int {
    if exists|p: int| is_last_named(fs, key, p) {
        choose|p: int| is_last_named(fs, key, p)
    } else {
        -1
    }
}

/// Where the last field named `key` stands at `p`, that is its slot.
pub proof fn lemma_slot_unique(fs: Seq<ShapeField>, key: Seq<char>, p: int)
    requires
        is_last_named(fs, key, p),
    ensures
        slot(fs, key) == p,
{
    let q = choose|q: int| is_last_named(fs, key, q);
    assert(is_last_named(fs, key, q));
    if q < p {
        assert(fs[p].field.name@ != key);
    }
    if p < q {
        assert(fs[q].field.name@ != key);
    }
}

/// The outcome for one coordinate: missing, null, or fine.
pub open spec fn coordinate_error(fs: Seq<ShapeField>, key: Seq<char>) -> Option<FlShapeConvertError> {
    let p = slot(fs, key);
    if p < 0 {
        Some(FlShapeConvertError::UnhandledError(ShapeError::MissingField))
    } else if fs[p].value == FieldValue::Null {
        Some(FlShapeConvertError::NullValue)
    } else {
        None
    }
}

/// What reading the fields `fs` as a shape gives: the first field error,
/// else the first coordinate (in the order x1, y1, x2, y2) that is missing or
/// null, else the position of each coordinate's last field.
pub open spec fn shape_outcome(fs: Seq<ShapeField>, kind: ShapeKind) -> Result<
    (usize, usize, usize, usize),
    FlShapeConvertError,
> {
    if exists|j: int| 0 <= j < fs.len() && field_error(fs[j], kind) is Some {
        let j = choose|j: int|
            0 <= j < fs.len() && field_error(fs[j], kind) is Some && forall|i: int|
                0 <= i < j ==> field_error(fs[i], kind) is None;
        Err(FlShapeConvertError::UnhandledError(field_error(fs[j], kind).unwrap()))
    } else if coordinate_error(fs, "x1"@) is Some {
        Err(coordinate_error(fs, "x1"@).unwrap())
    } else if coordinate_error(fs, "y1"@) is Some {
        Err(coordinate_error(fs, "y1"@).unwrap())
    } else if coordinate_error(fs, "x2"@) is Some {
        Err(coordinate_error(fs, "x2"@).unwrap())
    } else if coordinate_error(fs, "y2"@) is Some {
        Err(coordinate_error(fs, "y2"@).unwrap())
    } else {
        Ok(
            (
                slot(fs, "x1"@) as usize,
                slot(fs, "y1"@) as usize,
                slot(fs, "x2"@) as usize,
                slot(fs, "y2"@) as usize,
            ),
        )
    }
}

/// A float field named after a coordinate raises no field error when its
/// value is null or reads as a float, for either shape kind: a null
/// coordinate is left to mean that the cell holds no shape.
pub proof fn lemma_coordinate_field_no_error(f: ShapeField, kind: ShapeKind)
    requires
        f.field.is_float,
        is_coordinate(f.field.name@),
        f.value != FieldValue::NotFloat,
    ensures
        field_error(f, kind) is None,
{
}

/// A cell whose fields are exactly the float coordinates `x1`, `y1`, `x2`,
/// `y2`, in this order, reads as a shape at those positions when no value
/// is null, and as `NullValue` (no shape in this row) when some value is
/// null, for rectangles and segments alike.
pub proof fn lemma_plain_cell_outcome(fs: Seq<ShapeField>, kind: ShapeKind)
    requires
        fs.len() == 4,
        fs[0].field.name@ == "x1"@,
        fs[1].field.name@ == "y1"@,
        fs[2].field.name@ == "x2"@,
        fs[3].field.name@ == "y2"@,
        forall|k: int| 0 <= k < 4 ==> #[trigger] fs[k].field.is_float && fs[k].value
            != FieldValue::NotFloat,
    ensures
        (exists|k: int| 0 <= k < 4 && #[trigger] fs[k].value == FieldValue::Null) ==> shape_outcome(
            fs,
            kind,
        ) == Err::<(usize, usize, usize, usize), FlShapeConvertError>(
            FlShapeConvertError::NullValue,
        ),
        (forall|k: int| 0 <= k < 4 ==> #[trigger] fs[k].value == FieldValue::Float)
            ==> shape_outcome(fs, kind) == Ok::<
            (usize, usize, usize, usize),
            FlShapeConvertError,
        >((0, 1, 2, 3)),
{
    reveal_strlit("x1");
    reveal_strlit("y1");
    reveal_strlit("x2");
    reveal_strlit("y2");
    assert forall|j: int| 0 <= j < fs.len() implies field_error(fs[j], kind) is None by {
        assert(fs[j].field.is_float && fs[j].value != FieldValue::NotFloat);
        assert(is_coordinate(fs[j].field.name@));
        lemma_coordinate_field_no_error(fs[j], kind);
    }
    assert("x1"@ != "y1"@) by { assert("x1"@[0] != "y1"@[0]); }
    assert("x1"@ != "x2"@) by { assert("x1"@[1] != "x2"@[1]); }
    assert("x1"@ != "y2"@) by { assert("x1"@[0] != "y2"@[0]); }
    assert("y1"@ != "x2"@) by { assert("y1"@[0] != "x2"@[0]); }
    assert("y1"@ != "y2"@) by { assert("y1"@[1] != "y2"@[1]); }
    assert("x2"@ != "y2"@) by { assert("x2"@[0] != "y2"@[0]); }
    assert(is_last_named(fs, "x1"@, 0));
    assert(is_last_named(fs, "y1"@, 1));
    assert(is_last_named(fs, "x2"@, 2));
    assert(is_last_named(fs, "y2"@, 3));
    lemma_slot_unique(fs, "x1"@, 0);
    lemma_slot_unique(fs, "y1"@, 1);
    lemma_slot_unique(fs, "x2"@, 2);
    lemma_slot_unique(fs, "y2"@, 3);
    if exists|k: int| 0 <= k < 4 && #[trigger] fs[k].value == FieldValue::Null {
        let k = choose|k: int| 0 <= k < 4 && #[trigger] fs[k].value == FieldValue::Null;
        assert(coordinate_error(fs, "x1"@) is Some || coordinate_error(fs, "y1"@) is Some
            || coordinate_error(fs, "x2"@) is Some || coordinate_error(fs, "y2"@) is Some);
    }
}

/// The error one field raises, if any.
fn check_field(f: &ShapeField, kind: ShapeKind) -> (r: Option<ShapeError>)
    ensures
        r == field_error(*f, kind),
{
    let name = f.field.name.as_str();
    let known = str_eq(name, "x1") || str_eq(name, "y1") || str_eq(name, "x2") || str_eq(name, "y2");
    if !f.field.is_float {
        Some(ShapeError::NotFloatField)
    } else if kind == ShapeKind::Rectangle {
        if !known {
            Some(ShapeError::UnknownField)
        } else if f.value == FieldValue::NotFloat {
            Some(ShapeError::NotExtractable)
        } else {
            None
        }
    } else {
        if f.value == FieldValue::NotFloat {
            Some(ShapeError::NotExtractable)
        } else if !known {
            Some(ShapeError::UnknownField)
        } else {
            None
        }
    }
}

/// The last position of a field named `key`.
fn last_named(fs: &Vec<ShapeField>, key: &str) -> (r: Option<usize>)
    ensures
        match r {
            Some(p) => is_last_named(fs@, key@, p as int) && slot(fs@, key@) == p,
            None => slot(fs@, key@) == -1,
        },
{
    let mut found: Option<usize> = None;
    let mut i: usize = 0;
    while i < fs.len()
        invariant
            i <= fs@.len(),
            match found {
                Some(p) => p < i && fs@[p as int].field.name@ == key@ && forall|q: int|
                    p < q < i ==> fs@[q].field.name@ != key@,
                None => forall|q: int| 0 <= q < i ==> fs@[q].field.name@ != key@,
            },
        decreases fs@.len() - i,
    {
        if str_eq(fs[i].field.name.as_str(), key) {
            found = Some(i);
        }
        i = i + 1;
    }
    match found {
        Some(p) => {
            proof {
                lemma_slot_unique(fs@, key@, p as int);
            }
        },
        None => {
            assert(!exists|p: int| is_last_named(fs@, key@, p));
        },
    }
    found
}

/// The outcome for one coordinate together with its position.
fn coordinate(fs: &Vec<ShapeField>, key: &str) -> (r: Result<usize, FlShapeConvertError>)
    ensures
        match coordinate_error(fs@, key@) {
            Some(e) => r == Err::<usize, FlShapeConvertError>(e),
            None => r == Ok::<usize, FlShapeConvertError>(slot(fs@, key@) as usize),
        },
{
    match last_named(fs, key) {
        None => Err(FlShapeConvertError::UnhandledError(ShapeError::MissingField)),
        Some(p) => {
            if fs[p].value == FieldValue::Null {
                Err(FlShapeConvertError::NullValue)
            } else {
                Ok(p)
            }
        },
    }
}

/// The error of the first field that raises one.
fn first_field_error(fs: &Vec<ShapeField>, kind: ShapeKind) -> (r: Option<ShapeError>)
    ensures
        (exists|j: int| 0 <= j < fs@.len() && field_error(fs@[j], kind) is Some) == r is Some,
        r is Some ==> r == field_error(
            fs@[choose|j: int|
                0 <= j < fs@.len() && field_error(fs@[j], kind) is Some && forall|i: int|
                    0 <= i < j ==> field_error(fs@[i], kind) is None],
            kind,
        ),
{
    let mut i: usize = 0;
    while i < fs.len()
        invariant
            i <= fs@.len(),
            forall|q: int| 0 <= q < i ==> field_error(fs@[q], kind) is None,
        decreases fs@.len() - i,
    {
        let e = check_field(&fs[i], kind);
        if e.is_some() {
            proof {
                assert(0 <= i < fs@.len() && field_error(fs@[i as int], kind) is Some && forall|k: int|
                        0 <= k < i ==> field_error(fs@[k], kind) is None);
                let j = choose|j: int|
                    0 <= j < fs@.len() && field_error(fs@[j], kind) is Some && forall|k: int|
                        0 <= k < j ==> field_error(fs@[k], kind) is None;
                if j < i {
                    assert(field_error(fs@[j], kind) is None);
                }
                if i < j {
                    assert(field_error(fs@[i as int], kind) is None);
                }
            }
            return e;
        }
        i = i + 1;
    }
    None
}

/// Reads a cell as a shape of the given kind: the positions of its `x1`,
/// `y1`, `x2` and `y2` fields, or why it cannot be read.
pub fn resolve_shape_fields(value: &ShapeValue, kind: ShapeKind) -> (r: Result<
    (usize, usize, usize, usize),
    FlShapeConvertError,
>)
    ensures
        match value {
            ShapeValue::Other => r == Err::<(usize, usize, usize, usize), FlShapeConvertError>(
                FlShapeConvertError::UnhandledError(ShapeError::NotStruct),
            ),
            ShapeValue::Struct(fs) => r == shape_outcome(fs@, kind),
        },
{
    let fs = match value {
        ShapeValue::Other => return Err(FlShapeConvertError::UnhandledError(ShapeError::NotStruct)),
        ShapeValue::Struct(fs) => fs,
    };
    match first_field_error(fs, kind) {
        Some(e) => {
            return Err(FlShapeConvertError::UnhandledError(e));
        },
        None => {},
    }
    let x1 = coordinate(fs, "x1")?;
    let y1 = coordinate(fs, "y1")?;
    let x2 = coordinate(fs, "x2")?;
    let y2 = coordinate(fs, "y2")?;
    Ok((x1, y1, x2, y2))
}

/// Whether `p` is the last position of a field named `key` among `fields`.
pub open spec fn is_last_field(fields: Seq<Field>, key: Seq<char>, p: int) -> bool {
    &&& 0 <= p < fields.len()
    &&& fields[p].name@ == key
    &&& forall|q: int| p < q < fields.len() ==> fields[q].name@ != key
}

/// Whether the last field named `key` has a float type.
pub open spec fn float_field(fields: Seq<Field>, key: Seq<char>) -> bool {
    exists|p: int| is_last_field(fields, key, p) && fields[p].is_float
}

/// Whether the last field named `key` has a float type.
fn check_float_field(fields: &Vec<Field>, key: &str) -> (r: bool)
    ensures
        r == float_field(fields@, key@),
{
    let mut found: Option<usize> = None;
    let mut i: usize = 0;
    while i < fields.len()
        invariant
            i <= fields@.len(),
            match found {
                Some(p) => p < i && fields@[p as int].name@ == key@ && forall|q: int|
                    p < q < i ==> fields@[q].name@ != key@,
                None => forall|q: int| 0 <= q < i ==> fields@[q].name@ != key@,
            },
        decreases fields@.len() - i,
    {
        if str_eq(fields[i].name.as_str(), key) {
            found = Some(i);
        }
        i = i + 1;
    }
    match found {
        Some(p) => {
            proof {
                assert(is_last_field(fields@, key@, p as int));
                if float_field(fields@, key@) {
                    let p2 = choose|p2: int| is_last_field(fields@, key@, p2) && fields@[p2].is_float;
                    if p2 < p {
                        assert(fields@[p as int].name@ != key@);
                    }
                    if p < p2 {
                        assert(fields@[p2].name@ != key@);
                    }
                }
            }
            fields[p].is_float
        },
        None => false,
    }
}

/// Whether the fields of a struct column describe a shape: each of `x1`,
/// `y1`, `x2` and `y2` is there, and its last field is a float.
pub fn validate_shape_fields(fields: &Vec<Field>) -> (r: bool)
    ensures
        r == (float_field(fields@, "x1"@) && float_field(fields@, "y1"@) && float_field(
            fields@,
            "x2"@,
        ) && float_field(fields@, "y2"@)),
{
    check_float_field(fields, "x1") && check_float_field(fields, "y1") && check_float_field(
        fields,
        "x2",
    ) && check_float_field(fields, "y2")
}

/// Whether a cell's outcome is an error other than a null coordinate.
pub open spec fn is_hard_error(o: Result<(usize, usize, usize, usize), FlShapeConvertError>) -> bool {
    match o {
        Ok(_) => false,
        Err(e) => e != FlShapeConvertError::NullValue,
    }
}

/// The shapes of a column from the outcomes of its cells: a cell with a null
/// coordinate has no shape, and any other error fails the whole column with
/// the first such error.
pub fn collect_shapes(outcomes: &Vec<Result<(usize, usize, usize, usize), FlShapeConvertError>>) -> (r:
    Result<Vec<Option<(usize, usize, usize, usize)>>, FlShapeConvertError>)
    ensures
        match r {
            Ok(shapes) => {
                &&& forall|i: int| 0 <= i < outcomes@.len() ==> !is_hard_error(outcomes@[i])
                &&& shapes@.len() == outcomes@.len()
                &&& forall|i: int|
                    0 <= i < outcomes@.len() ==> shapes@[i] == match outcomes@[i] {
                        Ok(p) => Some(p),
                        Err(_) => None,
                    }
            },
            Err(e) => exists|k: int|
                0 <= k < outcomes@.len() && outcomes@[k] == Err::<
                    (usize, usize, usize, usize),
                    FlShapeConvertError,
                >(e) && is_hard_error(outcomes@[k]) && forall|j: int|
                    0 <= j < k ==> !is_hard_error(outcomes@[j]),
        },
{
    let mut shapes: Vec<Option<(usize, usize, usize, usize)>> = Vec::new();
    let mut i: usize = 0;
    while i < outcomes.len()
        invariant
            i <= outcomes@.len(),
            shapes@.len() == i,
            forall|j: int| 0 <= j < i ==> !is_hard_error(outcomes@[j]),
            forall|j: int|
                0 <= j < i ==> shapes@[j] == match outcomes@[j] {
                    Ok(p) => Some(p),
                    Err(_) => None,
                },
        decreases outcomes@.len() - i,
    {
        match outcomes[i] {
            Ok(p) => shapes.push(Some(p)),
            Err(e) => {
                if e != FlShapeConvertError::NullValue {
                    return Err(e);
                }
                shapes.push(None);
            },
        }
        i = i + 1;
    }
    Ok(shapes)
}

} // verus!
