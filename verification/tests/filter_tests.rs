use flexim::filter::{
    categorical_mask, combined_mask, filter_kind, unique_values, ColumnKind, FilterKind,
};
use flexim::layout::{merge_layouts, FlLayout};
use flexim::shape::{collect_shapes, FlShapeConvertError, ShapeError};
use flexim::table::{FlTableDrawContext, ShowColumns};
use flexim::visualize::{ColumnChoices, option_columns, row_highlights, selected_row, Poll, VisualizedImageCache};
use flexim::data_type::FlImage;
use flexim::table::FilteredDataFrameCache;
use std::collections::HashSet;

fn strings(v: &[&str]) -> Vec<String> {
    v.iter().map(|s| s.to_string()).collect()
}

fn cells(v: &[Option<&str>]) -> Vec<Option<String>> {
    v.iter().map(|c| c.map(|s| s.to_string())).collect()
}

#[test]
fn filter_kind_follows_column_kind() {
    assert_eq!(filter_kind(ColumnKind::Numeric), Some(FilterKind::Range));
    assert_eq!(filter_kind(ColumnKind::Boolean), Some(FilterKind::Categorical));
    assert_eq!(filter_kind(ColumnKind::Utf8), Some(FilterKind::Search));
    assert_eq!(filter_kind(ColumnKind::Categorical), Some(FilterKind::Categorical));
    assert_eq!(filter_kind(ColumnKind::Other), None);
}

#[test]
fn categorical_mask_keeps_chosen_categories() {
    let values = cells(&[Some("cat"), None, Some("dog"), Some("cow"), Some("cat")]);
    let mask = categorical_mask(&values, &strings(&["cat", "cow"]));
    assert_eq!(mask, vec![true, false, false, true, true]);
}

#[test]
fn categorical_mask_with_no_category_keeps_nothing() {
    let values = cells(&[Some("a"), Some("b")]);
    assert_eq!(categorical_mask(&values, &vec![]), vec![false, false]);
}

#[test]
fn unique_values_in_first_occurrence_order() {
    let values = cells(&[Some("b"), None, Some("a"), Some("b"), Some("c"), Some("a"), None]);
    assert_eq!(unique_values(&values), strings(&["b", "a", "c"]));
}

#[test]
fn unique_values_of_nulls_is_empty() {
    assert!(unique_values(&cells(&[None, None])).is_empty());
}

#[test]
fn combined_mask_ands_filters_with_null_choice() {
    let masks = vec![
        (vec![Some(true), None, Some(true), None], true),
        (vec![Some(true), Some(true), Some(false), None], false),
    ];
    assert_eq!(combined_mask(4, &masks), vec![true, true, false, false]);
}

#[test]
fn combined_mask_without_filters_keeps_all_rows() {
    assert_eq!(combined_mask(3, &vec![]), vec![true, true, true]);
}

#[test]
fn option_columns_leave_out_the_drawn_column() {
    let columns = strings(&["Name", "Face", "Score", "Face"]);
    assert_eq!(option_columns(&columns, "Face"), strings(&["Name", "Score"]));
    assert_eq!(option_columns(&columns, "Other"), columns);
}

#[test]
fn row_highlights_follow_the_highlight_set() {
    let mut highlight = HashSet::new();
    highlight.insert(3u64);
    highlight.insert(7u64);
    assert_eq!(row_highlights(&highlight, &vec![7, 1, 3, 4]), vec![true, false, true, false]);
}

#[test]
fn start_if_absent_starts_once() {
    let mut cache = VisualizedImageCache::default();
    assert!(cache.start_if_absent(5));
    assert!(matches!(cache.get(5), Some(Poll::Pending)));
    assert!(!cache.start_if_absent(5));
    assert_eq!(cache.len(), 1);
}

#[test]
fn collect_shapes_skips_null_shapes() {
    let outcomes = vec![Ok((0, 1, 2, 3)), Err(FlShapeConvertError::NullValue), Ok((3, 2, 1, 0))];
    assert_eq!(
        collect_shapes(&outcomes),
        Ok(vec![Some((0, 1, 2, 3)), None, Some((3, 2, 1, 0))])
    );
}

#[test]
fn collect_shapes_fails_on_first_hard_error() {
    let outcomes = vec![
        Ok((0, 1, 2, 3)),
        Err(FlShapeConvertError::NullValue),
        Err(FlShapeConvertError::UnhandledError(ShapeError::MissingField)),
        Err(FlShapeConvertError::UnhandledError(ShapeError::NotStruct)),
    ];
    assert_eq!(
        collect_shapes(&outcomes),
        Err(FlShapeConvertError::UnhandledError(ShapeError::MissingField))
    );
}

#[test]
fn merge_layouts_keeps_first_of_each_name() {
    let layouts = vec![FlLayout::new("a".to_string(), vec![]), FlLayout::new("b".to_string(), vec![])];
    let added = vec![
        FlLayout::new("b".to_string(), vec![]),
        FlLayout::new("c".to_string(), vec![]),
        FlLayout::new("c".to_string(), vec![]),
    ];
    let merged = merge_layouts(layouts, added);
    let names: Vec<&str> = merged.iter().map(|l| l.name.as_str()).collect();
    assert_eq!(names, vec!["a", "b", "c"]);
}

#[test]
fn draw_context_columns() {
    let frame = strings(&["x", "y", "z"]);
    let all = FlTableDrawContext { show_columns: ShowColumns::All };
    assert_eq!(all.columns(&frame), frame);
    let some = FlTableDrawContext { show_columns: ShowColumns::Only(strings(&["z", "x"])) };
    assert_eq!(some.columns(&frame), strings(&["z", "x"]));
}

#[test]
fn selected_row_is_last_hovered() {
    assert_eq!(selected_row(&vec![false, true, false, true, false], &vec![10, 11, 12, 13, 14]), Some(13));
    assert_eq!(selected_row(&vec![false, false], &vec![1, 2]), None);
    assert_eq!(selected_row(&vec![], &vec![]), None);
}

#[test]
fn image_cache_length_counts_ids() {
    let mut cache = VisualizedImageCache::default();
    cache.insert_pending(1);
    cache.insert(1, FlImage::new(vec![1], 1, 1));
    assert_eq!(cache.len(), 1);
    cache.insert(2, FlImage::new(vec![2], 2, 2));
    assert_eq!(cache.len(), 2);
    assert!(matches!(cache.get(1), Some(Poll::Ready(img)) if img.value == vec![1]));
}

#[test]
fn table_cache_holds_started_run() {
    let mut cache = FilteredDataFrameCache::default();
    let generation = cache.insert_calculating(9);
    assert_eq!(generation, 0);
    assert_eq!(cache.len(), 1);
    assert!(cache.get(9).is_some());
}

#[test]
fn search_mask_finds_text_and_keeps_nulls() {
    let values = cells(&[Some("apple pie"), None, Some("banana"), Some("pie"), Some("")]);
    assert_eq!(
        flexim::filter::search_mask(&values, "pie"),
        vec![Some(true), None, Some(false), Some(true), Some(false)]
    );
    assert_eq!(flexim::filter::search_mask(&values, ""), vec![Some(true), None, Some(true), Some(true), Some(true)]);
}

#[test]
fn column_choices_drop_missing_columns() {
    let mut choices = ColumnChoices {
        color_scatter_column: Some("Score".to_string()),
        fill_color_scatter_column: Some("Gone".to_string()),
        label_column: None,
    };
    choices.verification(&strings(&["Name", "Score"]));
    assert_eq!(choices.color_scatter_column, Some("Score".to_string()));
    assert_eq!(choices.fill_color_scatter_column, None);
    assert_eq!(choices.label_column, None);
}
