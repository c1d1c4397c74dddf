use text_geometry::rows::{end_row_for, ContiguousRowRanges, DisplaySnapshot, TextPoint};
use text_geometry::selection::{merge_selections, MergedOverlappingSelections, Selection};

fn sel(start: u32, end: u32) -> Selection<u32> {
    Selection { start, end }
}

fn psel(sr: u32, sc: u32, er: u32, ec: u32) -> Selection<TextPoint> {
    Selection { start: TextPoint::new(sr, sc), end: TextPoint::new(er, ec) }
}

#[test]
fn merge_integer_ranges() {
    let merged = merge_selections(vec![sel(0, 5), sel(3, 8), sel(10, 12)]);
    assert_eq!(merged, vec![sel(0, 8), sel(10, 12)]);
}

#[test]
fn merge_treats_abutting_as_overlapping() {
    let merged = merge_selections(vec![sel(0, 5), sel(5, 9)]);
    assert_eq!(merged, vec![sel(0, 9)]);
}

#[test]
fn merge_keeps_separated_selections() {
    let merged = merge_selections(vec![sel(0, 2), sel(4, 6), sel(8, 9)]);
    assert_eq!(merged, vec![sel(0, 2), sel(4, 6), sel(8, 9)]);
}

#[test]
fn merge_empty_input() {
    let merged = merge_selections(Vec::<Selection<u32>>::new());
    assert!(merged.is_empty());
}

#[test]
fn merge_cursors_at_same_point() {
    let merged = merge_selections(vec![sel(3, 3), sel(3, 3), sel(7, 7)]);
    assert_eq!(merged, vec![sel(3, 3), sel(7, 7)]);
}

#[test]
fn merge_is_idempotent_on_concrete_input() {
    let once = merge_selections(vec![sel(0, 4), sel(2, 6), sel(6, 7), sel(9, 11)]);
    let twice = merge_selections(once.clone());
    assert_eq!(once, twice);
    assert_eq!(once, vec![sel(0, 7), sel(9, 11)]);
}

#[test]
fn merge_whole_chain_collapses() {
    let merged = merge_selections(vec![sel(0, 1), sel(1, 2), sel(2, 3), sel(3, 4)]);
    assert_eq!(merged, vec![sel(0, 4)]);
}

#[test]
fn merger_is_forward_only() {
    let mut merger = MergedOverlappingSelections::new(vec![sel(0, 5), sel(3, 8), sel(10, 12)]);
    assert_eq!(merger.next(), Some(sel(0, 8)));
    assert_eq!(merger.next(), Some(sel(10, 12)));
    assert_eq!(merger.next(), None);
    assert_eq!(merger.next(), None);
}

#[test]
fn merge_clamps_start_defensively_on_unsorted_touching_input() {
    let merged = merge_selections(vec![sel(5, 9), sel(0, 7)]);
    assert_eq!(merged, vec![sel(0, 9)]);
}

#[test]
fn merge_point_selections() {
    let merged = merge_selections(vec![psel(0, 0, 1, 0), psel(1, 0, 2, 5)]);
    assert_eq!(merged, vec![psel(0, 0, 2, 5)]);
}

#[test]
fn end_row_for_cursor_covers_through_next_boundary() {
    let snapshot = DisplaySnapshot::new(vec![10]).unwrap();
    let cursor = psel(0, 3, 0, 3);
    assert_eq!(end_row_for(&cursor, &snapshot), 1);
}

#[test]
fn end_row_for_mid_line_end_covers_end_row() {
    let snapshot = DisplaySnapshot::new(vec![10, 8, 6]).unwrap();
    let selection = psel(0, 0, 1, 4);
    assert_eq!(end_row_for(&selection, &snapshot), 2);
}

#[test]
fn end_row_for_column_zero_end_excludes_end_row() {
    let snapshot = DisplaySnapshot::new(vec![10, 8, 6]).unwrap();
    let selection = psel(0, 0, 2, 0);
    assert_eq!(end_row_for(&selection, &snapshot), 2);
}

#[test]
fn snapshot_rejects_empty_row_list() {
    assert!(DisplaySnapshot::new(Vec::new()).is_none());
}

#[test]
fn grouper_merges_cursor_at_boundary_into_cluster() {
    let snapshot = DisplaySnapshot::new(vec![5, 5, 5]).unwrap();
    let selections = vec![psel(0, 0, 2, 0), psel(2, 0, 2, 0)];
    let mut grouper = ContiguousRowRanges::new(selections.clone(), &snapshot);
    let (range, cluster) = grouper.next().unwrap();
    assert_eq!((range.start, range.end), (0, 3));
    assert_eq!(cluster, selections);
    assert!(grouper.next().is_none());
}

#[test]
fn grouper_splits_clusters_at_row_gaps() {
    let snapshot = DisplaySnapshot::new(vec![4, 4, 4, 4, 4, 4]).unwrap();
    let selections = vec![psel(0, 1, 0, 3), psel(1, 0, 1, 2), psel(4, 0, 4, 1)];
    let mut grouper = ContiguousRowRanges::new(selections, &snapshot);
    let (first_range, first_cluster) = grouper.next().unwrap();
    assert_eq!((first_range.start, first_range.end), (0, 2));
    assert_eq!(first_cluster, vec![psel(0, 1, 0, 3), psel(1, 0, 1, 2)]);
    let (second_range, second_cluster) = grouper.next().unwrap();
    assert_eq!((second_range.start, second_range.end), (4, 5));
    assert_eq!(second_cluster, vec![psel(4, 0, 4, 1)]);
    assert!(grouper.next().is_none());
}

#[test]
fn grouper_replaces_end_row_with_last_consumed_selection() {
    let snapshot = DisplaySnapshot::new(vec![4; 12]).unwrap();
    let selections = vec![psel(0, 0, 10, 0), psel(1, 0, 1, 0)];
    let mut grouper = ContiguousRowRanges::new(selections.clone(), &snapshot);
    let (range, cluster) = grouper.next().unwrap();
    assert_eq!((range.start, range.end), (0, 2));
    assert_eq!(cluster, selections);
    assert!(grouper.next().is_none());
}

#[test]
fn grouper_single_selection_yields_singleton_cluster() {
    let snapshot = DisplaySnapshot::new(vec![7, 7]).unwrap();
    let selections = vec![psel(1, 2, 1, 5)];
    let mut grouper = ContiguousRowRanges::new(selections.clone(), &snapshot);
    let (range, cluster) = grouper.next().unwrap();
    assert_eq!((range.start, range.end), (1, 2));
    assert_eq!(cluster, selections);
    assert!(grouper.next().is_none());
}
