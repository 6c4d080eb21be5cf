use flexim::config::ConfigWindow;
use flexim::connect::{
    dataframe_from_frame, special_column_convert, AppendAssembler, AppendMessage, ConnectError,
    DataMeta, SpecialColumn, WireSpecialColumn,
};
use flexim::data_type::{
    FlData, FlDataError, FlDataFrame, FlDataFrameSpecialColumn, FlDataReference, FlDataType,
    FlImage, FlTensor2D, GenerationSelector,
};
use flexim::grouping::group_by_name;
use flexim::image_loader::is_supported_uri;
use flexim::shape::{
    resolve_shape_fields, validate_shape_fields, Field, FieldValue, FlShapeConvertError,
    ShapeError, ShapeField, ShapeKind, ShapeValue,
};
use flexim::table::{
    on_cell_clicked, row_is_selected, toggle_highlight, CacheState, DataFramePoll,
    FilteredDataFrameCache, FlTable, FlTableError, ModifyMode, ShowColumns as TableShowColumns,
};
use flexim::text::{split_group, str_eq, str_lt, str_starts_with};
use flexim::view::{
    special_attribute_columns, FlDataFrameView, FlDataFrameViewContext, FlObjectView, ShowColumns,
};
use flexim::visualize::{
    verified_column, DataRender, DataView, DataViewCreatable, DataVisualizable, EdgeAccent,
    FlImageRender, Origin, Poll, VisualizedImageCache,
};
use flexim::storage::{Bag, BagId, ManagedData, Timestamp};
use polars::prelude::{Column, DataFrame, IpcReader, IpcWriter, NamedFrom, SerReader, SerWriter};
use std::collections::HashSet;

fn names(v: &[&str]) -> Vec<String> {
    v.iter().map(|s| s.to_string()).collect()
}

fn field(name: &str, is_float: bool, value: FieldValue) -> ShapeField {
    ShapeField { field: Field { name: name.to_string(), is_float }, value }
}

fn rect_fields() -> Vec<ShapeField> {
    vec![
        field("x1", true, FieldValue::Float),
        field("y1", true, FieldValue::Float),
        field("x2", true, FieldValue::Float),
        field("y2", true, FieldValue::Float),
    ]
}

#[test]
fn text_order_and_split() {
    assert!(str_lt("a", "b"));
    assert!(str_lt("a", "ab"));
    assert!(!str_lt("ab", "a"));
    assert!(!str_lt("same", "same"));
    assert!(str_lt("", "x"));
    assert!(str_lt("B", "a"));
    assert!(str_eq("abc", "abc"));
    assert!(!str_eq("abc", "abd"));
    assert!(str_starts_with("raw-bytes://1", "raw-bytes"));
    assert!(!str_starts_with("raw", "raw-bytes"));
    assert_eq!(split_group("group/bag1"), ("group".to_string(), "bag1".to_string()));
    assert_eq!(split_group("a/b/c"), ("a".to_string(), "b/c".to_string()));
    assert_eq!(split_group("plain"), ("plain".to_string(), "plain".to_string()));
    assert_eq!(split_group("/x"), ("".to_string(), "x".to_string()));
}

#[test]
fn supported_uri() {
    assert!(is_supported_uri("raw-bytes://image"));
    assert!(is_supported_uri("raw-bytes://"));
    assert!(!is_supported_uri("raw-bytes"));
    assert!(!is_supported_uri("raw-bytes-x:a"));
    assert!(!is_supported_uri("bytes://image.png"));
    assert!(!is_supported_uri(""));
}

#[test]
fn grouping_by_name_and_rank() {
    let groups = group_by_name(&names(&["z", "a", "z", "a", "m"]), &vec![5, 2, -1, 2, 0]);
    assert_eq!(
        groups,
        vec![
            ("a".to_string(), vec![1, 3]),
            ("m".to_string(), vec![4]),
            ("z".to_string(), vec![2, 0]),
        ]
    );
}

#[test]
fn rectangle_fields_resolve() {
    let fs = vec![
        field("y2", true, FieldValue::Float),
        field("x1", true, FieldValue::Float),
        field("y1", true, FieldValue::Float),
        field("x2", true, FieldValue::Float),
        field("x1", true, FieldValue::Float),
    ];
    assert_eq!(
        resolve_shape_fields(&ShapeValue::Struct(fs), ShapeKind::Rectangle),
        Ok((4, 2, 3, 0))
    );
    assert_eq!(
        resolve_shape_fields(&ShapeValue::Struct(rect_fields()), ShapeKind::Segment),
        Ok((0, 1, 2, 3))
    );
}

#[test]
fn shape_errors() {
    assert_eq!(
        resolve_shape_fields(&ShapeValue::Other, ShapeKind::Rectangle),
        Err(FlShapeConvertError::UnhandledError(ShapeError::NotStruct))
    );
    let mut fs = rect_fields();
    fs[1] = field("y1", true, FieldValue::Null);
    assert_eq!(
        resolve_shape_fields(&ShapeValue::Struct(fs), ShapeKind::Rectangle),
        Err(FlShapeConvertError::NullValue)
    );
    let fs = vec![field("x1", true, FieldValue::Float)];
    assert_eq!(
        resolve_shape_fields(&ShapeValue::Struct(fs), ShapeKind::Segment),
        Err(FlShapeConvertError::UnhandledError(ShapeError::MissingField))
    );
    // a missing x1 is reported before a null y1
    let fs = vec![field("y1", true, FieldValue::Null)];
    assert_eq!(
        resolve_shape_fields(&ShapeValue::Struct(fs), ShapeKind::Rectangle),
        Err(FlShapeConvertError::UnhandledError(ShapeError::MissingField))
    );
    let mut fs = rect_fields();
    fs.push(field("x1", false, FieldValue::Float));
    assert_eq!(
        resolve_shape_fields(&ShapeValue::Struct(fs), ShapeKind::Rectangle),
        Err(FlShapeConvertError::UnhandledError(ShapeError::NotFloatField))
    );
    // an unknown field that does not read as a float: the rectangle reports
    // the unknown name, the segment the failed read
    let mut fs = rect_fields();
    fs.insert(0, field("w", true, FieldValue::NotFloat));
    assert_eq!(
        resolve_shape_fields(&ShapeValue::Struct(fs), ShapeKind::Rectangle),
        Err(FlShapeConvertError::UnhandledError(ShapeError::UnknownField))
    );
    let mut fs = rect_fields();
    fs.insert(0, field("w", true, FieldValue::NotFloat));
    assert_eq!(
        resolve_shape_fields(&ShapeValue::Struct(fs), ShapeKind::Segment),
        Err(FlShapeConvertError::UnhandledError(ShapeError::NotExtractable))
    );
    let mut fs = rect_fields();
    fs[2] = field("x2", true, FieldValue::NotFloat);
    assert_eq!(
        resolve_shape_fields(&ShapeValue::Struct(fs), ShapeKind::Rectangle),
        Err(FlShapeConvertError::UnhandledError(ShapeError::NotExtractable))
    );
    // a null unknown field is still unknown
    let mut fs = rect_fields();
    fs.push(field("z", true, FieldValue::Null));
    assert_eq!(
        resolve_shape_fields(&ShapeValue::Struct(fs), ShapeKind::Segment),
        Err(FlShapeConvertError::UnhandledError(ShapeError::UnknownField))
    );
}

#[test]
fn shape_field_validation() {
    let f = |n: &str, float: bool| Field { name: n.to_string(), is_float: float };
    assert!(validate_shape_fields(&vec![f("x1", true), f("y1", true), f("x2", true), f("y2", true)]));
    assert!(!validate_shape_fields(&vec![f("x1", true), f("y1", true), f("x2", true)]));
    assert!(!validate_shape_fields(&vec![f("x1", true), f("y1", false), f("x2", true), f("y2", true)]));
    // the last field of a name decides
    assert!(validate_shape_fields(&vec![
        f("x1", false),
        f("y1", true),
        f("x2", true),
        f("y2", true),
        f("x1", true)
    ]));
    assert!(!validate_shape_fields(&vec![
        f("x1", true),
        f("y1", true),
        f("x2", true),
        f("y2", true),
        f("x1", false)
    ]));
}

fn ipc_bytes() -> Vec<u8> {
    let mut df = DataFrame::new(vec![Column::new("a".into(), &[1i64, 2, 3])]).unwrap();
    let mut buf = Vec::new();
    IpcWriter::new(&mut buf).finish(&mut df).unwrap();
    buf
}

#[test]
fn special_columns_from_wire() {
    assert_eq!(
        special_column_convert(WireSpecialColumn::Rectangle),
        Ok(FlDataFrameSpecialColumn::Rectangle)
    );
    assert_eq!(
        special_column_convert(WireSpecialColumn::Segment),
        Ok(FlDataFrameSpecialColumn::Segment)
    );
    assert_eq!(
        special_column_convert(WireSpecialColumn::Color),
        Err(ConnectError::UnknownSpecialColumn)
    );
    assert_eq!(WireSpecialColumn::from(SpecialColumn::Color), WireSpecialColumn::Color);
    assert_eq!(WireSpecialColumn::from(SpecialColumn::Segment), WireSpecialColumn::Segment);
}

fn read_ipc(bytes: Vec<u8>) -> Option<DataFrame> {
    IpcReader::new(std::io::Cursor::new(bytes)).finish().ok()
}

#[test]
fn dataframe_bytes() {
    let df = dataframe_from_frame(
        vec![("Face".to_string(), WireSpecialColumn::Rectangle), ("Line".to_string(), WireSpecialColumn::Segment)],
        read_ipc(ipc_bytes()),
    )
    .unwrap();
    assert_eq!(df.value.height(), 3);
    assert_eq!(
        df.special_columns,
        vec![
            ("Face".to_string(), FlDataFrameSpecialColumn::Rectangle),
            ("Line".to_string(), FlDataFrameSpecialColumn::Segment)
        ]
    );
    assert_eq!(
        dataframe_from_frame(vec![], read_ipc(vec![1, 2, 3])).unwrap_err(),
        ConnectError::IpcRead
    );
    assert_eq!(
        dataframe_from_frame(vec![("C".to_string(), WireSpecialColumn::Color)], read_ipc(ipc_bytes()))
            .unwrap_err(),
        ConnectError::UnknownSpecialColumn
    );
}

#[test]
fn dataframe_from_read_frame() {
    let frame = DataFrame::new(vec![Column::new("a".into(), &[1i64, 2])]).unwrap();
    let df = dataframe_from_frame(
        vec![("a".to_string(), WireSpecialColumn::Segment)],
        Some(frame.clone()),
    )
    .unwrap();
    assert!(df.value.equals(&frame));
    assert_eq!(df.special_columns, vec![("a".to_string(), FlDataFrameSpecialColumn::Segment)]);
    assert_eq!(dataframe_from_frame(vec![], None).unwrap_err(), ConnectError::IpcRead);
    assert_eq!(
        dataframe_from_frame(vec![("a".to_string(), WireSpecialColumn::Color)], Some(frame))
            .unwrap_err(),
        ConnectError::UnknownSpecialColumn
    );
}

#[test]
fn upload_assembly() {
    let mut a = AppendAssembler::new();
    a.push(AppendMessage::DataBytes(vec![1, 2]));
    a.push(AppendMessage::Meta(DataMeta {
        bag_id: 3,
        name: "first".to_string(),
        data_type: 0,
        special_columns: vec![],
    }));
    a.push(AppendMessage::DataBytes(vec![3]));
    a.push(AppendMessage::Meta(DataMeta {
        bag_id: 4,
        name: "second".to_string(),
        data_type: 1,
        special_columns: vec![("c".to_string(), 2)],
    }));
    let (meta, bytes) = a.finish().unwrap();
    assert_eq!(meta.bag_id, 4);
    assert_eq!(meta.name, "second");
    assert_eq!(bytes, vec![1, 2, 3]);
    let mut b = AppendAssembler::new();
    b.push(AppendMessage::DataBytes(vec![9]));
    assert_eq!(b.finish().unwrap_err(), ConnectError::MetaNotFound);
}

fn png_bytes(width: u32, height: u32) -> Vec<u8> {
    let img = image::RgbImage::new(width, height);
    let mut buf = std::io::Cursor::new(Vec::new());
    img.write_to(&mut buf, image::ImageOutputFormat::Png).unwrap();
    buf.into_inner()
}

#[test]
fn image_from_png_bytes() {
    let bytes = png_bytes(3, 2);
    let img = FlImage::try_from_bytes(bytes.clone()).unwrap();
    assert_eq!((img.width, img.height), (3, 2));
    assert_eq!(img.value, bytes);
    assert_eq!(FlImage::try_from_bytes(vec![0, 1, 2]).unwrap_err(), FlDataError::PngDecode);
}

#[test]
fn image_from_header_size() {
    let img = FlImage::from_png_header(vec![7, 8], Some((640, 480))).unwrap();
    assert_eq!((img.width, img.height), (640, 480));
    assert_eq!(img.value, vec![7, 8]);
    assert_eq!(FlImage::from_png_header(vec![7, 8], None).unwrap_err(), FlDataError::PngDecode);
}

#[test]
fn table_modes_and_highlight() {
    assert_eq!(ModifyMode::from_modifiers(true, true), ModifyMode::Command);
    assert_eq!(ModifyMode::from_modifiers(false, true), ModifyMode::Select);
    assert_eq!(ModifyMode::from_modifiers(false, false), ModifyMode::Normal);
    assert!(ModifyMode::Select.is_select());
    assert!(!ModifyMode::Select.is_command());
    assert!(ModifyMode::Normal.is_normal());
    let mut h = HashSet::new();
    toggle_highlight(&mut h, 3);
    assert!(h.contains(&3));
    toggle_highlight(&mut h, 3);
    assert!(h.is_empty());
    assert!(!on_cell_clicked(ModifyMode::Normal, &mut h, 5));
    assert!(h.contains(&5));
    assert!(on_cell_clicked(ModifyMode::Command, &mut h, 7));
    assert!(!h.contains(&7));
    assert!(!on_cell_clicked(ModifyMode::Select, &mut h, 5));
    assert!(!h.contains(&5));
    h.insert(1);
    assert!(row_is_selected(&h, None, 1));
    assert!(row_is_selected(&h, Some(2), 2));
    assert!(!row_is_selected(&h, Some(2), 3));
}

fn frame() -> DataFrame {
    DataFrame::new(vec![Column::new("a".into(), &[1i64, 2])]).unwrap()
}

fn poll_height(p: Option<DataFramePoll<&DataFrame>>) -> Option<Option<usize>> {
    p.map(|p| match p {
        DataFramePoll::Ready(df) => Some(df.height()),
        DataFramePoll::Pending => None,
    })
}

#[test]
fn filtered_frame_cache() {
    let mut cache = FilteredDataFrameCache::default();
    assert_eq!(cache.len(), 0);
    assert_eq!(poll_height(cache.get(1)), None);
    assert_eq!(cache.insert_calculating(1), 0);
    assert_eq!(poll_height(cache.get(1)), Some(None));
    cache.insert_computed(1, 0, frame());
    assert_eq!(poll_height(cache.get(1)), Some(Some(2)));
    assert_eq!(cache.insert_calculating(1), 1);
    // the previous frame stays visible while the new run computes
    assert_eq!(poll_height(cache.get(1)), Some(Some(2)));
    assert_eq!(cache.insert_calculating(1), 2);
    // a late result of run 1 is not newer than the kept frame's successor and is dropped
    cache.insert_computed(1, 1, DataFrame::empty());
    assert_eq!(poll_height(cache.get(1)), Some(Some(2)));
    // a result of a run after the kept one replaces the kept frame, run 2 still computing
    assert_eq!(cache.insert_calculating(5), 0);
    cache.insert_computed(5, 0, frame());
    assert_eq!(cache.insert_calculating(5), 1);
    assert_eq!(cache.insert_calculating(5), 2);
    cache.insert_computed(5, 3, DataFrame::empty());
    assert_eq!(poll_height(cache.get(5)), Some(Some(0)));
    cache.insert_computed(1, 2, frame());
    assert_eq!(poll_height(cache.get(1)), Some(Some(2)));
    // a stale result after the ready one is dropped
    cache.insert_computed(1, 1, DataFrame::empty());
    assert_eq!(poll_height(cache.get(1)), Some(Some(2)));
    // a computation for an unknown table becomes its ready state
    cache.insert_computed(9, 5, frame());
    assert_eq!(cache.len(), 3);
    let _ = CacheState::Ready { generation: 0, dataframe: frame() };
}

#[test]
fn table_reaches_its_frame() {
    let bag = Bag {
        id: BagId::new(1),
        name: "b".to_string(),
        created_at: Timestamp { secs: 0, nanos: 0 },
        data_list: vec![
            ManagedData {
                generation: 0,
                name: "img".to_string(),
                data: FlImage::new(vec![], 0, 0).into(),
            },
            ManagedData {
                generation: 0,
                name: "df".to_string(),
                data: FlDataFrame::new(frame(), vec![("a".to_string(), FlDataFrameSpecialColumn::Segment)]).into(),
            },
        ],
        generation_counter: vec![],
    };
    let r = |n: &str| FlDataReference::new(n.to_string(), GenerationSelector::Latest, FlDataType::DataFrame);
    assert_eq!(FlTable::new(r("df")).dataframe(&bag).unwrap().value.height(), 2);
    assert_eq!(FlTable::new(r("img")).dataframe(&bag).unwrap_err(), FlTableError::MismatchedDataType);
    assert_eq!(FlTable::new(r("none")).dataframe(&bag).unwrap_err(), FlTableError::DataNotFound);
    let view = DataView::FlDataFrameView(FlDataFrameView::new(r("df")));
    assert_eq!(view.visualizeable_attributes(&bag, &names(&["x", "a"])), names(&["a"]));
    let object = DataView::FlObjectView(FlObjectView::new(r("img")));
    assert!(object.visualizeable_attributes(&bag, &names(&["a"])).is_empty());
    assert_eq!(object.reference().name, "img");
}

#[test]
fn show_columns_configuration() {
    let frame_columns = names(&["a", "b", "c"]);
    let mut s = ShowColumns::All;
    assert_eq!(s.listed(&frame_columns), frame_columns);
    assert!(s.is_checked("zzz"));
    s.move_column(&frame_columns, 1, true);
    match &s {
        ShowColumns::Only(shown, order) => {
            assert_eq!(shown, &frame_columns);
            assert_eq!(order, &names(&["b", "a", "c"]));
        }
        _ => panic!("listed"),
    }
    s.move_column(&frame_columns, 1, false);
    assert_eq!(s.listed(&frame_columns), names(&["b", "c", "a"]));
    s.set_checked(&frame_columns, "c", false);
    assert!(!s.is_checked("c"));
    assert!(s.is_checked("a"));
    s.set_checked(&frame_columns, "c", true);
    assert!(s.is_checked("c"));
    let mut all = ShowColumns::All;
    all.set_checked(&frame_columns, "b", true);
    assert!(matches!(all, ShowColumns::All));
    all.set_checked(&frame_columns, "b", false);
    assert!(!all.is_checked("b"));
    assert_eq!(all.listed(&frame_columns), frame_columns);
    let draw = FlDataFrameViewContext { show_columns: all }.to_draw_context();
    match draw.show_columns {
        TableShowColumns::Only(c) => assert_eq!(c, names(&["a", "c"])),
        _ => panic!("only"),
    }
    let draw = FlDataFrameViewContext { show_columns: ShowColumns::All }.to_draw_context();
    assert!(matches!(draw.show_columns, TableShowColumns::All));
}

#[test]
fn special_attributes_and_column_choice() {
    let special = vec![
        ("Face".to_string(), FlDataFrameSpecialColumn::Rectangle),
        ("Seg".to_string(), FlDataFrameSpecialColumn::Segment),
    ];
    assert_eq!(
        special_attribute_columns(&special, &names(&["Seg", "Name", "Face"])),
        names(&["Seg", "Face"])
    );
    assert_eq!(verified_column(Some("a".to_string()), &names(&["a", "b"])), Some("a".to_string()));
    assert_eq!(verified_column(Some("z".to_string()), &names(&["a", "b"])), None);
    assert_eq!(verified_column(None, &names(&["a"])), None);
}

#[test]
fn visual_enums_and_renders() {
    assert_eq!(EdgeAccent::all(), vec![EdgeAccent::NoAccent, EdgeAccent::Arrow]);
    assert_eq!(EdgeAccent::NoAccent.to_string(), "None");
    assert_eq!(EdgeAccent::Arrow.to_string(), "Arrow");
    assert_eq!(EdgeAccent::default(), EdgeAccent::NoAccent);
    assert_eq!(Origin::default().toggled(), Origin::BottomLeft);
    assert_eq!(Origin::BottomLeft.toggled(), Origin::TopLeft);
    assert_eq!(Origin::TopLeft.vertical_sign(), 1);
    assert_eq!(Origin::BottomLeft.vertical_sign(), -1);
    let r = FlDataReference::new("x".to_string(), GenerationSelector::Latest, FlDataType::DataFrame);
    let view = DataView::FlDataFrameView(FlDataFrameView::new(r.clone()));
    match view.create_visualize("Face".to_string()) {
        DataRender::DataFrameView(render) => {
            assert_eq!(render.column, "Face");
            assert_eq!(render.dataframe_view.id, view.id());
        }
        _ => panic!("frame render"),
    }
    let render: DataRender = FlImageRender::new(r.clone()).into();
    assert_eq!(render.reference().name, "x");
    let img: FlData = FlImage::new(vec![], 1, 1).into();
    let tensor: FlData = FlTensor2D::new(0, 0, vec![]).into();
    let df: FlData = FlDataFrame::new(DataFrame::empty(), vec![]).into();
    assert!(img.is_visualizable() && tensor.is_visualizable() && !df.is_visualizable());
    assert!(!img.data_view_creatable() && !tensor.data_view_creatable() && df.data_view_creatable());
    let _ = ConfigWindow::default();
}

#[test]
fn visualized_image_cache() {
    let mut cache = VisualizedImageCache::default();
    assert!(cache.get(1).is_none());
    cache.insert_pending(1);
    assert!(matches!(cache.get(1), Some(Poll::Pending)));
    cache.insert(1, FlImage::new(vec![7], 1, 1));
    match cache.get(1) {
        Some(Poll::Ready(img)) => assert_eq!(img.value, vec![7]),
        _ => panic!("ready"),
    }
    assert_eq!(cache.len(), 1);
}

#[test]
fn visualize_it_works() {
    assert_eq!(EdgeAccent::default(), EdgeAccent::NoAccent);
}

#[test]
fn configuration_stays_a_rearrangement_of_the_frame() {
    let frame_columns = names(&["a", "b", "c", "d"]);
    let mut s = ShowColumns::All;
    s.move_column(&frame_columns, 2, true);
    s.set_checked(&frame_columns, "d", false);
    s.move_column(&frame_columns, 0, false);
    s.set_checked(&frame_columns, "d", true);
    s.move_column(&frame_columns, 3, true);
    match &s {
        ShowColumns::Only(shown, order) => {
            let mut sorted = order.clone();
            sorted.sort();
            assert_eq!(sorted, frame_columns);
            assert!(shown.iter().all(|c| order.contains(c)));
        }
        ShowColumns::All => panic!("columns are listed after a move"),
    }
}
