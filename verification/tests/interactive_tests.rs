use text_geometry::error_view::ErrorView;
use text_geometry::interactive::{InteractiveText, InteractiveTextState};
use text_geometry::style::{HighlightStyle, IndexRange, TextStyle, WhiteSpace, FONT_WEIGHT_BOLD};
use text_geometry::styled_text::StyledText;

fn base_style() -> TextStyle {
    TextStyle {
        color: 0xcccccc,
        font_weight: 400,
        underline: false,
        font_size: 14,
        line_height: 16,
        white_space: WhiteSpace::Normal,
        truncate: None,
    }
}

#[test]
fn with_highlights_splices_runs_around_override() {
    let style = base_style();
    let highlight = HighlightStyle {
        color: Some(0xff0000),
        font_weight: None,
        underline: Some(true),
    };
    let mut styled = StyledText::new(String::from("abcdef"))
        .with_highlights(&style, vec![(IndexRange::new(2, 4), highlight)]);
    let runs = styled.take_runs().unwrap();
    assert_eq!(runs.len(), 3);
    assert_eq!((runs[0].len, runs[0].color, runs[0].underline), (2, 0xcccccc, false));
    assert_eq!((runs[1].len, runs[1].color, runs[1].underline), (2, 0xff0000, true));
    assert_eq!((runs[2].len, runs[2].color, runs[2].underline), (2, 0xcccccc, false));
    assert_eq!(runs[1].font_weight, 400);
}

#[test]
fn with_highlights_covering_whole_text_has_no_gap_runs() {
    let style = base_style();
    let highlight = HighlightStyle { color: None, font_weight: Some(700), underline: None };
    let mut styled = StyledText::new(String::from("abc"))
        .with_highlights(&style, vec![(IndexRange::new(0, 3), highlight)]);
    let runs = styled.take_runs().unwrap();
    assert_eq!(runs.len(), 1);
    assert_eq!((runs[0].len, runs[0].font_weight), (3, 700));
}

#[test]
fn with_runs_sets_explicit_runs() {
    let style = base_style();
    let mut styled = StyledText::new(String::from("xyz")).with_runs(vec![style.to_run(3)]);
    let runs = styled.take_runs().unwrap();
    assert_eq!(runs.len(), 1);
    assert_eq!(runs[0].len, 3);
}

#[test]
fn click_targets_need_both_ends_inside_a_range() {
    let element = InteractiveText::new(1, StyledText::new(String::from("hello world")))
        .on_click(vec![IndexRange::new(0, 5), IndexRange::new(3, 9), IndexRange::new(10, 11)]);
    assert_eq!(element.click_targets(4, 4), vec![0, 1]);
    assert_eq!(element.click_targets(4, 8), vec![1]);
    assert_eq!(element.click_targets(4, 10), Vec::<usize>::new());
}

#[test]
fn mouse_state_reports_click_between_down_and_up() {
    let mut state = InteractiveTextState::new();
    state.on_mouse_down(Some(4));
    assert_eq!(state.mouse_down_index, Some(4));
    let click = state.on_mouse_up(Some(6));
    assert_eq!(click, Some((4, 6)));
    assert_eq!(state.mouse_down_index, None);
}

#[test]
fn mouse_up_without_pending_press_does_nothing() {
    let mut state = InteractiveTextState::new();
    assert_eq!(state.on_mouse_up(Some(6)), None);
    assert_eq!(state.mouse_down_index, None);
}

#[test]
fn mouse_up_missing_clears_press_without_click() {
    let mut state = InteractiveTextState::new();
    state.on_mouse_down(Some(2));
    assert_eq!(state.on_mouse_up(None), None);
    assert_eq!(state.mouse_down_index, None);
}

#[test]
fn hover_updates_report_changes_only() {
    let mut state = InteractiveTextState::new();
    assert!(state.update_hover(Some(3)));
    assert!(!state.update_hover(Some(3)));
    assert!(state.update_hover(Some(5)));
    assert!(state.update_hover(None));
    assert!(!state.update_hover(None));
    assert_eq!(state.hovered_index, None);
}

#[test]
fn error_view_renders_bold_header_runs() {
    let view = ErrorView {
        ename: String::from("ValueError"),
        evalue: String::from("bad input"),
        traceback: String::from("line 1"),
    };
    let style = base_style();
    let mut header = view.render(&style, 0xdd0000).unwrap();
    assert_eq!(header.text().as_str(), "ValueError: bad input");
    let runs = header.take_runs().unwrap();
    assert_eq!(runs.len(), 2);
    assert_eq!((runs[0].len, runs[0].color, runs[0].font_weight), (12, 0xdd0000, FONT_WEIGHT_BOLD));
    assert_eq!((runs[1].len, runs[1].color, runs[1].font_weight), (9, 0xcccccc, FONT_WEIGHT_BOLD));
}

#[test]
fn error_view_padding_is_half_line_height() {
    assert_eq!(ErrorView::render_padding(16), 8);
    assert_eq!(ErrorView::render_padding(15), 7);
}
