use flexim::data_type::{
    FlData, FlDataFrame, FlDataFrameSpecialColumn, FlDataReference, FlDataType, FlImage,
    FlTensor2D, GenerationSelector,
};
use flexim::layout::{check_applicable, into_pane_content, FlLayout, Pane, PaneContent};
use flexim::storage::{Bag, BagId, ManagedData, Storage, StorageError, StorageQuery, Timestamp};
use flexim::visualize::{DataRender, DataView};

fn image(byte: u8) -> FlData {
    FlImage::new(vec![byte], 1, 1).into()
}

fn image_byte(data: &FlData) -> u8 {
    data.as_image().expect("image").value[0]
}

fn reference(name: &str, generation: GenerationSelector, data_type: FlDataType) -> FlDataReference {
    FlDataReference::new(name.to_string(), generation, data_type)
}

fn bag_with(names: &[(&str, u64)]) -> Bag {
    Bag {
        id: BagId::new(1),
        name: "bag".to_string(),
        created_at: Timestamp { secs: 0, nanos: 0 },
        data_list: names
            .iter()
            .enumerate()
            .map(|(i, (name, generation))| ManagedData {
                generation: *generation,
                name: name.to_string(),
                data: image(i as u8),
            })
            .collect(),
        generation_counter: vec![],
    }
}

#[test]
fn lib_it_works() {
    let id = BagId::new(42);
    assert_eq!(id.into_inner(), 42);
    let mut storage = Storage::default();
    assert_eq!(storage.list_bags().unwrap().len(), 0);
    let bag = storage.create_bag("test".to_string());
    assert_ne!(bag.into_inner(), 0);
    assert_eq!(storage.get_bag(bag).unwrap().name, "test");
}

#[test]
fn simple_case() {
    // "a" stored twice, "t" once.
    let bag = bag_with(&[("a", 0), ("a", 1), ("t", 0)]);
    let pane = |name: &str, generation| {
        Pane::new(
            name.to_string(),
            into_pane_content(reference(name, generation, FlDataType::Image)),
        )
    };
    let layout = FlLayout::new(
        "layout".to_string(),
        vec![pane("a", GenerationSelector::Latest), pane("t", GenerationSelector::Latest)],
    );
    assert!(check_applicable(&bag, &layout));
    let layout = FlLayout::new("layout".to_string(), vec![pane("a", GenerationSelector::Generation(1))]);
    assert!(check_applicable(&bag, &layout));
    // the first datum stored under a name does not count for fixed generations
    let layout = FlLayout::new("layout".to_string(), vec![pane("a", GenerationSelector::Generation(0))]);
    assert!(!check_applicable(&bag, &layout));
    let layout = FlLayout::new("layout".to_string(), vec![pane("missing", GenerationSelector::Latest)]);
    assert!(!check_applicable(&bag, &layout));
    let layout = FlLayout::new("empty".to_string(), vec![]);
    assert!(check_applicable(&bag, &layout));
}

#[test]
fn insert_then_read_back() {
    let mut storage = Storage::default();
    let id = storage.create_bag("test".to_string());
    storage.insert_data(id, "logo".to_string(), image(10)).unwrap();
    storage.insert_data(id, "tall".to_string(), image(11)).unwrap();
    storage.insert_data(id, "tall".to_string(), image(12)).unwrap();
    let bag = storage.get_bag(id).unwrap();
    let generations: Vec<(String, u64)> =
        bag.data_list.iter().map(|d| (d.name.clone(), d.generation)).collect();
    assert_eq!(
        generations,
        vec![("logo".to_string(), 0), ("tall".to_string(), 0), ("tall".to_string(), 1)]
    );
    assert_eq!(bag.next_generation("tall"), 2);
    assert_eq!(bag.next_generation("logo"), 1);
    assert_eq!(bag.next_generation("other"), 0);
    let latest = bag
        .data_by_reference(&reference("tall", GenerationSelector::Latest, FlDataType::Image))
        .unwrap();
    assert_eq!(image_byte(latest), 12);
    let first = bag
        .data_by_reference(&reference("tall", GenerationSelector::Generation(0), FlDataType::Image))
        .unwrap();
    assert_eq!(image_byte(first), 11);
    assert_eq!(
        bag.data_by_reference(&reference("tall", GenerationSelector::Generation(2), FlDataType::Image))
            .unwrap_err(),
        StorageError::DataNotFound
    );
    assert_eq!(
        bag.data_by_reference(&reference("none", GenerationSelector::Latest, FlDataType::Image))
            .unwrap_err(),
        StorageError::DataNotFound
    );
}

#[test]
fn latest_prefers_last_of_equal_generations() {
    let bag = bag_with(&[("a", 3), ("a", 5), ("a", 5), ("a", 1)]);
    let d = bag
        .data_by_reference(&reference("a", GenerationSelector::Latest, FlDataType::Image))
        .unwrap();
    assert_eq!(image_byte(d), 2);
    let d = bag
        .data_by_reference(&reference("a", GenerationSelector::Generation(5), FlDataType::Image))
        .unwrap();
    assert_eq!(image_byte(d), 1);
}

#[test]
fn insert_into_unknown_bag() {
    let mut storage = Storage::default();
    let _ = storage.create_bag("test".to_string());
    let err = storage.insert_data(BagId::new(0), "x".to_string(), image(0)).unwrap_err();
    assert_eq!(err, StorageError::BagNotFound);
    assert_eq!(storage.get_bag(BagId::new(0)).unwrap_err(), StorageError::BagNotFound);
}

#[test]
fn load_bag_refuses_duplicates_and_clear_empties() {
    let mut storage = Storage::default();
    assert!(storage.load_bag(bag_with(&[("a", 0)])));
    assert!(!storage.load_bag(bag_with(&[])));
    assert_eq!(storage.list_bags().unwrap().len(), 1);
    assert_eq!(storage.list_bags().unwrap()[0].data_list.len(), 1);
    storage.clear_bags();
    assert!(storage.list_bags().unwrap().is_empty());
}

#[test]
fn data_groups_sorted_by_name_then_generation() {
    let bag = bag_with(&[("b", 1), ("a", 0), ("b", 0), ("b", 1)]);
    let groups = bag.data_groups();
    assert_eq!(
        groups,
        vec![("a".to_string(), vec![1]), ("b".to_string(), vec![2, 0, 3])]
    );
    assert!(bag_with(&[]).data_groups().is_empty());
}

fn bag_at(id: u64, name: &str, secs: i64, nanos: u32) -> Bag {
    Bag {
        id: BagId::new(id),
        name: name.to_string(),
        created_at: Timestamp { secs, nanos },
        data_list: vec![],
        generation_counter: vec![],
    }
}

#[test]
fn bag_groups_split_names_and_order_versions() {
    let mut storage = Storage::default();
    assert!(storage.load_bag(bag_at(1, "test", 5, 0)));
    assert!(storage.load_bag(bag_at(2, "group/bag2", 9, 0)));
    assert!(storage.load_bag(bag_at(3, "group/bag1", 1, 0)));
    assert!(storage.load_bag(bag_at(4, "group/bag2", 3, 7)));
    assert!(storage.load_bag(bag_at(5, "group/bag2", 3, 2)));
    assert!(storage.load_bag(bag_at(6, "deep/a/b", 0, 0)));
    let groups = storage.bag_groups();
    assert_eq!(
        groups,
        vec![
            ("deep".to_string(), vec![("a/b".to_string(), vec![5])]),
            (
                "group".to_string(),
                vec![("bag1".to_string(), vec![2]), ("bag2".to_string(), vec![4, 3, 1])]
            ),
            ("test".to_string(), vec![("test".to_string(), vec![0])]),
        ]
    );
}

#[test]
fn bag_groups_later_name_wins_on_collision() {
    let mut storage = Storage::default();
    assert!(storage.load_bag(bag_at(1, "a/a", 0, 0)));
    assert!(storage.load_bag(bag_at(2, "a", 0, 0)));
    let groups = storage.bag_groups();
    assert_eq!(groups, vec![("a".to_string(), vec![("a".to_string(), vec![0])])]);
}

#[test]
fn bag_groups_equal_times_keep_storage_order() {
    let mut storage = Storage::default();
    assert!(storage.load_bag(bag_at(7, "x", 2, 2)));
    assert!(storage.load_bag(bag_at(8, "x", 2, 2)));
    assert!(storage.load_bag(bag_at(9, "x", -1, 999)));
    let groups = storage.bag_groups();
    assert_eq!(groups, vec![("x".to_string(), vec![("x".to_string(), vec![2, 0, 1])])]);
}

#[test]
fn managed_data_reference() {
    let d = ManagedData { generation: 4, name: "n".to_string(), data: image(0) };
    let r = d.reference();
    assert_eq!(r.name, "n");
    assert_eq!(r.generation, GenerationSelector::Generation(4));
    assert_eq!(r.data_type, FlDataType::Image);
    let r2: FlDataReference = d.into();
    assert_eq!(r2.generation, GenerationSelector::Generation(4));
}

#[test]
fn pane_content_for_each_data_type() {
    match into_pane_content(reference("i", GenerationSelector::Latest, FlDataType::Image)) {
        PaneContent::Visualize(DataRender::Image(r)) => assert_eq!(r.content.name, "i"),
        _ => panic!("image pane"),
    }
    match into_pane_content(reference("t", GenerationSelector::Latest, FlDataType::Tensor)) {
        PaneContent::Visualize(DataRender::Tensor2D(r)) => assert_eq!(r.content.name, "t"),
        _ => panic!("tensor pane"),
    }
    let content = into_pane_content(reference("d", GenerationSelector::Generation(2), FlDataType::DataFrame));
    assert_eq!(content.reference().name, "d");
    assert_eq!(content.reference().generation, GenerationSelector::Generation(2));
    match content {
        PaneContent::DataView(DataView::FlDataFrameView(v)) => {
            assert_eq!(v.table.data_reference.name, "d")
        }
        _ => panic!("data frame pane"),
    }
}

#[test]
fn data_accessors() {
    let img = image(3);
    assert_eq!(img.data_type(), FlDataType::Image);
    assert!(img.as_tensor().is_none());
    assert!(img.as_data_frame().is_none());
    let tensor: FlData = FlTensor2D::new(1, 2, vec![0, 1]).into();
    assert_eq!(tensor.data_type(), FlDataType::Tensor);
    assert_eq!(tensor.as_tensor().unwrap().cols, 2);
    assert_eq!(tensor.id(), tensor.as_tensor().unwrap().id);
    let frame: FlData = FlDataFrame::new(
        polars::frame::DataFrame::empty(),
        vec![("Face".to_string(), FlDataFrameSpecialColumn::Rectangle)],
    )
    .into();
    assert_eq!(frame.data_type(), FlDataType::DataFrame);
    assert_eq!(frame.as_data_frame().unwrap().special_columns.len(), 1);
}

#[test]
fn created_bag_keeps_its_creation_time() {
    let mut storage = Storage::default();
    let now = Timestamp { secs: 1_700_000_000, nanos: 5 };
    let id = storage.create_bag_at("timed".to_string(), now);
    let bag = storage.get_bag(id).unwrap();
    assert_eq!(bag.created_at, now);
    assert_eq!(bag.name, "timed");
    assert!(bag.data_list.is_empty());
    let later = storage.create_bag("later".to_string());
    assert!(storage.get_bag(later).unwrap().created_at.nanos < 1_000_000_000);
}
