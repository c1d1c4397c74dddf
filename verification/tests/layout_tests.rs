use text_geometry::geometry::{Bounds, Point, Size};
use text_geometry::style::{AvailableSpace, TextStyle, Truncate, WhiteSpace};
use text_geometry::shaping::split_text_lines;
use text_geometry::text_layout::{LayoutPlan, TextLayout};
use text_geometry::wrapped_line::WrappedLine;

fn monospace_line(text: &str, advance: i64) -> WrappedLine {
    let chars: Vec<char> = text.chars().collect();
    let mut xs = Vec::new();
    for i in 0..chars.len() + 1 {
        xs.push(i as i64 * advance);
    }
    WrappedLine::new(String::from(text), xs, Vec::new()).unwrap()
}

fn base_style() -> TextStyle {
    TextStyle {
        color: 0xffffff,
        font_weight: 400,
        underline: false,
        font_size: 14,
        line_height: 10,
        white_space: WhiteSpace::Normal,
        truncate: None,
    }
}

fn hello_world_layout() -> TextLayout {
    let mut layout = TextLayout::new();
    let lines = vec![monospace_line("hello", 8), monospace_line("world", 8)];
    layout.commit_layout(Some(lines), 10, None);
    layout.prepaint(Bounds {
        origin: Point { x: 0, y: 0 },
        size: Size { width: 40, height: 20 },
    });
    layout
}

#[test]
fn line_rejects_mismatched_extents() {
    assert!(WrappedLine::new(String::from("ab"), vec![0, 4], Vec::new()).is_none());
}

#[test]
fn line_rejects_decreasing_extents() {
    assert!(WrappedLine::new(String::from("ab"), vec![0, 8, 4], Vec::new()).is_none());
}

#[test]
fn line_rejects_boundary_at_zero() {
    assert!(WrappedLine::new(String::from("ab"), vec![0, 4, 8], vec![0]).is_none());
}

#[test]
fn index_for_position_hits_second_line() {
    let layout = hello_world_layout();
    let hit = layout.index_for_position(Point { x: 12, y: 15 });
    assert_eq!(hit, Ok(7));
}

#[test]
fn index_for_position_above_bounds_misses_at_zero() {
    let layout = hello_world_layout();
    assert_eq!(layout.index_for_position(Point { x: 3, y: -1 }), Err(0));
}

#[test]
fn index_for_position_below_all_lines_misses_at_text_end() {
    let layout = hello_world_layout();
    assert_eq!(layout.index_for_position(Point { x: 3, y: 99 }), Err(11));
}

#[test]
fn index_for_position_right_of_line_misses_at_line_end() {
    let layout = hello_world_layout();
    assert_eq!(layout.index_for_position(Point { x: 300, y: 5 }), Err(5));
}

#[test]
fn position_for_index_first_line() {
    let layout = hello_world_layout();
    assert_eq!(layout.position_for_index(2), Some(Point { x: 16, y: 0 }));
}

#[test]
fn position_for_index_second_line() {
    let layout = hello_world_layout();
    assert_eq!(layout.position_for_index(7), Some(Point { x: 8, y: 10 }));
}

#[test]
fn position_for_index_at_text_end() {
    let layout = hello_world_layout();
    assert_eq!(layout.position_for_index(11), Some(Point { x: 40, y: 10 }));
}

#[test]
fn position_for_index_past_text_is_none() {
    let layout = hello_world_layout();
    assert_eq!(layout.position_for_index(12), None);
}

#[test]
fn geometry_round_trip_stays_within_glyph() {
    let layout = hello_world_layout();
    let p = Point { x: 12, y: 15 };
    let ix = layout.index_for_position(p).unwrap();
    let q = layout.position_for_index(ix).unwrap();
    assert!(q.y <= p.y && p.y < q.y + layout.line_height());
    assert!(q.x <= p.x && p.x < q.x + 8);
}

#[test]
fn text_round_trips_through_split_and_join() {
    let source = "hello\nworld";
    let segments = split_text_lines(&String::from(source));
    assert_eq!(segments, vec![String::from("hello"), String::from("world")]);
    let mut layout = TextLayout::new();
    let lines: Vec<WrappedLine> = segments.iter().map(|s| monospace_line(s, 8)).collect();
    layout.commit_layout(Some(lines), 10, None);
    assert_eq!(layout.text(), String::from(source));
}

#[test]
fn split_keeps_empty_segments() {
    let segments = split_text_lines(&String::from("a\n\nb"));
    assert_eq!(segments, vec![String::from("a"), String::from(""), String::from("b")]);
}

#[test]
fn split_of_empty_text_is_one_empty_segment() {
    let segments = split_text_lines(&String::from(""));
    assert_eq!(segments, vec![String::from("")]);
}

#[test]
fn commit_layout_sums_heights_and_takes_max_width() {
    let mut layout = TextLayout::new();
    let wrapped = WrappedLine::new(
        String::from("abcd"),
        vec![0, 4, 8, 12, 16],
        vec![2],
    )
    .unwrap();
    let size = layout.commit_layout(Some(vec![monospace_line("xy", 9), wrapped]), 10, None);
    assert_eq!(size, Size { width: 18, height: 30 });
}

#[test]
fn shaper_failure_degrades_to_empty_layout() {
    let mut layout = TextLayout::new();
    let size = layout.commit_layout(None, 10, Some(100));
    assert_eq!(size, Size { width: 0, height: 0 });
    assert_eq!(layout.text(), String::from(""));
    assert_eq!(layout.line_height(), 10);
}

#[test]
fn cached_size_reused_when_no_wrap_width_requested() {
    let mut layout = TextLayout::new();
    let size = layout.commit_layout(Some(vec![monospace_line("hi", 8)]), 10, None);
    let mut style = base_style();
    style.white_space = WhiteSpace::NoWrap;
    let plan = layout.prepare_layout(&style, None, AvailableSpace::Definite(50));
    assert_eq!(plan, LayoutPlan::Reuse(size));
}

#[test]
fn cached_size_reused_when_wrap_width_matches() {
    let mut layout = TextLayout::new();
    let size = layout.commit_layout(Some(vec![monospace_line("hi", 8)]), 10, Some(50));
    let plan = layout.prepare_layout(&base_style(), Some(50), AvailableSpace::MaxContent);
    assert_eq!(plan, LayoutPlan::Reuse(size));
}

#[test]
fn changed_wrap_width_forces_reshaping() {
    let mut layout = TextLayout::new();
    layout.commit_layout(Some(vec![monospace_line("hi", 8)]), 10, Some(50));
    let plan = layout.prepare_layout(&base_style(), Some(60), AvailableSpace::MaxContent);
    match plan {
        LayoutPlan::Shape(request) => {
            assert_eq!(request.wrap_width, Some(60));
            assert_eq!(request.truncate_width, None);
            assert!(!request.ellipsis);
        }
        LayoutPlan::Reuse(_) => panic!("expected a shaping request"),
    }
}

#[test]
fn first_layout_resolves_widths_from_available_space() {
    let layout = TextLayout::new();
    let mut style = base_style();
    style.truncate = Some(Truncate::Ellipsis);
    let plan = layout.prepare_layout(&style, None, AvailableSpace::Definite(80));
    match plan {
        LayoutPlan::Shape(request) => {
            assert_eq!(request.wrap_width, Some(80));
            assert_eq!(request.truncate_width, Some(80));
            assert!(request.ellipsis);
        }
        LayoutPlan::Reuse(_) => panic!("expected a shaping request"),
    }
}

#[test]
fn hard_truncation_requests_no_ellipsis() {
    let layout = TextLayout::new();
    let mut style = base_style();
    style.truncate = Some(Truncate::Truncate);
    style.white_space = WhiteSpace::NoWrap;
    let plan = layout.prepare_layout(&style, Some(30), AvailableSpace::MinContent);
    match plan {
        LayoutPlan::Shape(request) => {
            assert_eq!(request.wrap_width, None);
            assert_eq!(request.truncate_width, Some(30));
            assert!(!request.ellipsis);
        }
        LayoutPlan::Reuse(_) => panic!("expected a shaping request"),
    }
}

#[test]
fn line_origins_accumulate_heights() {
    let mut layout = TextLayout::new();
    let wrapped = WrappedLine::new(String::from("ab"), vec![0, 4, 8], vec![1]).unwrap();
    layout.commit_layout(Some(vec![wrapped, monospace_line("c", 4)]), 10, None);
    layout.prepaint(Bounds {
        origin: Point { x: 3, y: 4 },
        size: Size { width: 8, height: 30 },
    });
    let origins = layout.line_origins();
    assert_eq!(origins, vec![Point { x: 3, y: 4 }, Point { x: 3, y: 24 }]);
}

#[test]
fn bounds_and_line_height_report_bound_values() {
    let layout = hello_world_layout();
    let bounds = layout.bounds();
    assert_eq!(bounds.origin, Point { x: 0, y: 0 });
    assert_eq!(layout.line_height(), 10);
}

#[test]
fn wrapped_line_hit_tests_multi_row_line() {
    let line = WrappedLine::new(String::from("abcd"), vec![0, 4, 8, 12, 16], vec![2]).unwrap();
    assert_eq!(line.size(10), Size { width: 16, height: 20 });
    assert_eq!(line.index_for_position(Point { x: 5, y: 12 }, 10), Ok(3));
    let q = line.position_for_index(3, 10).unwrap();
    assert_eq!(q, Point { x: 4, y: 10 });
}
