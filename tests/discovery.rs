use jump_labels::locations::{
    char_is_word, find_all_char_occurrences, find_all_identifiers_in_view,
    find_word_targets_by_class, find_word_targets_in, word_classes, Range,
};
use jump_labels::viewport::{
    cursor_at, is_within_view_x, line_start_of, screen_coords_at, view_boundary, Position,
    Viewport,
};

fn chars(s: &str) -> Vec<char> {
    s.chars().collect()
}

fn full_view(height: usize) -> Viewport {
    Viewport { anchor: 0, height, horizontal_offset: 0, width: 80 }
}

fn heads(targets: &[Range]) -> Vec<usize> {
    targets.iter().map(|r| r.head).collect()
}

#[test]
fn word_discovery_on_short_line() {
    let text = chars("a bb ccc");
    let targets = find_all_identifiers_in_view(&text, &full_view(1));
    assert_eq!(heads(&targets), vec![0, 2, 5]);
    assert_eq!(targets[1], Range { anchor: 3, head: 2 });
    assert_eq!(targets[2], Range { anchor: 7, head: 5 });
}

#[test]
fn word_discovery_skips_truncated_fragment() {
    let text = chars("abc def");
    let targets = find_word_targets_in(&text, &full_view(1), 1, 7);
    assert_eq!(heads(&targets), vec![4]);
}

#[test]
fn word_discovery_single_char_word_at_start() {
    let text = chars("x");
    let targets = find_all_identifiers_in_view(&text, &full_view(1));
    assert_eq!(targets, vec![Range { anchor: 0, head: 0 }]);
}

#[test]
fn word_discovery_skips_punctuation_and_keeps_underscore() {
    let text = chars("foo.bar _x -- 9");
    let targets = find_all_identifiers_in_view(&text, &full_view(1));
    assert_eq!(heads(&targets), vec![0, 4, 8, 14]);
}

#[test]
fn word_discovery_drops_columns_outside_window() {
    let text = chars("aa bb cc dd");
    let view = Viewport { anchor: 0, height: 1, horizontal_offset: 3, width: 4 };
    let targets = find_all_identifiers_in_view(&text, &view);
    assert_eq!(heads(&targets), vec![3, 6]);
}

#[test]
fn word_discovery_stops_at_visible_end() {
    let text = chars("one two\nthree four\nfive");
    let targets = find_all_identifiers_in_view(&text, &full_view(2));
    assert_eq!(heads(&targets), vec![0, 4, 8, 14]);
    let view = Viewport { anchor: 10, height: 1, horizontal_offset: 0, width: 80 };
    let targets = find_all_identifiers_in_view(&text, &view);
    assert_eq!(heads(&targets), vec![8, 14]);
    assert_eq!(targets[0], Range::point(8));
    assert_eq!(targets[1], Range { anchor: 17, head: 14 });
}

#[test]
fn first_visible_word_gets_point_target() {
    let text = chars("__ ab");
    let targets = find_all_identifiers_in_view(&text, &full_view(1));
    assert_eq!(targets, vec![Range::point(0), Range { anchor: 4, head: 3 }]);
    let text = chars("__");
    let targets = find_all_identifiers_in_view(&text, &full_view(1));
    assert_eq!(targets, vec![Range::point(0)]);
}

#[test]
fn word_classes_of_text() {
    let text = chars("a-b 9_\n");
    assert_eq!(word_classes(&text), vec![true, false, true, false, true, true, false]);
}

#[test]
fn word_targets_from_given_classes() {
    let text = chars("abcdefg");
    let classes = vec![true, true, false, true, false, true, true];
    let targets = find_word_targets_by_class(&text, &classes, &full_view(1), 0, 7);
    assert_eq!(
        targets,
        vec![Range::point(0), Range { anchor: 3, head: 3 }, Range { anchor: 6, head: 5 }]
    );
    let targets = find_word_targets_by_class(&text, &classes, &full_view(1), 1, 7);
    assert_eq!(heads(&targets), vec![3, 5]);
}

#[test]
fn word_cut_by_range_end_is_no_target() {
    let text = chars("ab cdef");
    let targets = find_word_targets_in(&text, &full_view(1), 0, 5);
    assert_eq!(heads(&targets), vec![0]);
}

#[test]
fn word_discovery_on_empty_text() {
    let text: Vec<char> = Vec::new();
    assert!(find_all_identifiers_in_view(&text, &full_view(3)).is_empty());
}

#[test]
fn word_chars_include_unicode_letters() {
    assert!(char_is_word('é'));
    assert!(char_is_word('_'));
    assert!(char_is_word('7'));
    assert!(!char_is_word('-'));
    assert!(!char_is_word(' '));
    let text = chars("-é");
    let targets = find_all_identifiers_in_view(&text, &full_view(1));
    assert_eq!(heads(&targets), vec![1]);
}

#[test]
fn char_discovery_finds_every_occurrence() {
    let text = chars("xaxbx");
    let targets = find_all_char_occurrences(&text, &full_view(1), 'x');
    assert_eq!(targets, vec![Range::point(0), Range::point(2), Range::point(4)]);
}

#[test]
fn char_discovery_is_case_sensitive() {
    let text = chars("xXx");
    let targets = find_all_char_occurrences(&text, &full_view(1), 'X');
    assert_eq!(heads(&targets), vec![1]);
}

#[test]
fn char_discovery_stays_in_visible_lines() {
    let text = chars("x\nx\nx");
    let view = Viewport { anchor: 2, height: 1, horizontal_offset: 0, width: 80 };
    let targets = find_all_char_occurrences(&text, &view, 'x');
    assert_eq!(heads(&targets), vec![2]);
}

#[test]
fn boundary_covers_whole_lines() {
    let text = chars("ab\ncd\nef\ngh");
    let view = Viewport { anchor: 4, height: 2, horizontal_offset: 0, width: 10 };
    assert_eq!(view_boundary(&text, &view), (3, 9));
    let view = Viewport { anchor: 10, height: 5, horizontal_offset: 0, width: 10 };
    assert_eq!(view_boundary(&text, &view), (9, 11));
    assert_eq!(line_start_of(&text, 5), 3);
    assert_eq!(line_start_of(&text, 3), 3);
    assert_eq!(line_start_of(&text, 2), 0);
}

#[test]
fn screen_coords_count_rows_from_view_start() {
    let text = chars("ab\ncd\nef");
    let view = Viewport { anchor: 3, height: 2, horizontal_offset: 0, width: 10 };
    assert_eq!(screen_coords_at(&text, &view, 7), Some(Position { row: 1, col: 1 }));
    assert_eq!(screen_coords_at(&text, &view, 3), Some(Position { row: 0, col: 0 }));
    assert_eq!(screen_coords_at(&text, &view, 1), None);
    assert_eq!(screen_coords_at(&text, &view, 9), None);
    assert_eq!(cursor_at(&text, &view, 4), Position { row: 0, col: 1 });
    assert_eq!(cursor_at(&text, &view, 0), Position { row: 0, col: 0 });
}

#[test]
fn horizontal_window_bounds() {
    let view = Viewport { anchor: 0, height: 1, horizontal_offset: 5, width: 3 };
    assert!(!is_within_view_x(4, &view));
    assert!(is_within_view_x(5, &view));
    assert!(is_within_view_x(7, &view));
    assert!(!is_within_view_x(8, &view));
    let wide = Viewport { anchor: 0, height: 1, horizontal_offset: usize::MAX, width: 10 };
    assert!(is_within_view_x(usize::MAX, &wide));
}
