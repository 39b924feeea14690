use jump_labels::annotate::{
    apply_dimming, apply_style, clear_dimming, JumpView, LabelKind, Overlay, Rgb, Style,
};
use jump_labels::labels::{assign_labels, jump_keys, JumpAnnotation, Label};
use jump_labels::locations::Range;
use jump_labels::score::{manhattan_distance, sort_jump_targets};
use jump_labels::session::{
    begin_jump, show_key_annotations_with_callback, JumpMode, SessionState,
};
use jump_labels::viewport::{Position, Viewport};

fn chars(s: &str) -> Vec<char> {
    s.chars().collect()
}

fn points(n: usize) -> Vec<Range> {
    (0..n).map(Range::point).collect()
}

fn empty_view(cursor: usize) -> JumpView {
    JumpView {
        cursor,
        dimmed: false,
        single: Vec::new(),
        multi_first: Vec::new(),
        multi_rest: Vec::new(),
    }
}

fn key_seq(l: &Label) -> Vec<char> {
    match *l {
        Label::Single(a) => vec![a],
        Label::Double(a, b) => vec![a, b],
    }
}

fn assert_prefix_free(anns: &[JumpAnnotation]) {
    for (i, a) in anns.iter().enumerate() {
        for (j, b) in anns.iter().enumerate() {
            if i != j {
                let (ka, kb) = (key_seq(&a.keys), key_seq(&b.keys));
                assert!(!kb.starts_with(&ka), "{:?} is a prefix of {:?}", ka, kb);
            }
        }
    }
}

#[test]
fn jump_keys_are_distinct() {
    let keys = jump_keys();
    assert_eq!(keys.iter().collect::<String>(), "etovxqpdygfblzhckisuran");
    for i in 0..keys.len() {
        for j in 0..i {
            assert_ne!(keys[i], keys[j]);
        }
    }
}

#[test]
fn few_targets_get_single_keys_in_priority_order() {
    let targets = vec![Range { anchor: 9, head: 7 }, Range::point(3), Range::point(12)];
    let anns = assign_labels(&targets, &jump_keys());
    assert_eq!(
        anns,
        vec![
            JumpAnnotation { loc: 7, keys: Label::Single('e') },
            JumpAnnotation { loc: 3, keys: Label::Single('t') },
            JumpAnnotation { loc: 12, keys: Label::Single('o') },
        ]
    );
}

#[test]
fn as_many_targets_as_keys_get_single_keys() {
    let keys = jump_keys();
    let anns = assign_labels(&points(keys.len()), &keys);
    assert_eq!(anns.len(), keys.len());
    for (i, a) in anns.iter().enumerate() {
        assert_eq!(a.keys, Label::Single(keys[i]));
        assert_eq!(a.loc, i);
    }
    assert_prefix_free(&anns);
}

#[test]
fn many_targets_get_two_keys() {
    let keys = jump_keys();
    let anns = assign_labels(&points(keys.len() + 1), &keys);
    assert_eq!(anns.len(), 24);
    assert_eq!(anns[0].keys, Label::Double('e', 'e'));
    assert_eq!(anns[1].keys, Label::Double('e', 't'));
    assert_eq!(anns[23].keys, Label::Double('t', 'e'));
    assert_prefix_free(&anns);
}

#[test]
fn targets_past_capacity_stay_unlabelled() {
    let keys = vec!['a', 'b'];
    let anns = assign_labels(&points(7), &keys);
    assert_eq!(anns.len(), 4);
    let labels: Vec<Label> = anns.iter().map(|a| a.keys).collect();
    assert_eq!(
        labels,
        vec![
            Label::Double('a', 'a'),
            Label::Double('a', 'b'),
            Label::Double('b', 'a'),
            Label::Double('b', 'b'),
        ]
    );
    assert_prefix_free(&anns);
    let full = assign_labels(&points(600), &jump_keys());
    assert_eq!(full.len(), 529);
    assert_prefix_free(&full);
}

#[test]
fn no_targets_no_labels() {
    assert!(assign_labels(&Vec::new(), &jump_keys()).is_empty());
    assert!(assign_labels(&points(3), &Vec::new()).is_empty());
}

#[test]
fn distance_weighs_rows() {
    let a = Position { row: 2, col: 10 };
    let b = Position { row: 5, col: 4 };
    assert_eq!(manhattan_distance(&a, &b, 100), 306);
    assert_eq!(manhattan_distance(&b, &a, 100), 306);
    assert_eq!(manhattan_distance(&a, &b, 10), 36);
    assert_eq!(manhattan_distance(&a, &a, 100), 0);
    let far = Position { row: usize::MAX, col: 0 };
    assert_eq!(manhattan_distance(&a, &far, 100), usize::MAX);
    let wide = Position { row: 2, col: usize::MAX };
    let low = Position { row: 3, col: 0 };
    assert_eq!(manhattan_distance(&wide, &low, 1), usize::MAX);
}

#[test]
fn sort_is_stable_for_equal_distances() {
    // Cursor at column 2 of "abcde": targets at columns 0 and 4 are equally far.
    let text = chars("abcde");
    let view = Viewport { anchor: 0, height: 1, horizontal_offset: 0, width: 80 };
    let targets = vec![Range::point(4), Range::point(0), Range::point(3), Range::point(1)];
    let sorted = sort_jump_targets(&text, &view, 2, targets);
    let heads: Vec<usize> = sorted.iter().map(|r| r.head).collect();
    assert_eq!(heads, vec![3, 1, 4, 0]);
}

#[test]
fn same_row_targets_come_first() {
    let mut line = "x".repeat(100);
    line.push('\n');
    line.push_str("yy");
    let text = chars(&line);
    let view = Viewport { anchor: 0, height: 2, horizontal_offset: 0, width: 80 };
    // Cursor at offset 0; offset 99 is far along the row, offset 101 one row down.
    let sorted = sort_jump_targets(&text, &view, 0, vec![Range::point(101), Range::point(99)]);
    let heads: Vec<usize> = sorted.iter().map(|r| r.head).collect();
    assert_eq!(heads, vec![99, 101]);
}

#[test]
fn offscreen_targets_sort_last() {
    let text = chars("ab\ncd");
    let view = Viewport { anchor: 3, height: 1, horizontal_offset: 0, width: 80 };
    let sorted = sort_jump_targets(&text, &view, 4, vec![Range::point(0), Range::point(3)]);
    let heads: Vec<usize> = sorted.iter().map(|r| r.head).collect();
    assert_eq!(heads, vec![3, 0]);
}

#[test]
fn overlays_are_partitioned_and_sorted() {
    let mut view = empty_view(0);
    let anns = vec![
        JumpAnnotation { loc: 9, keys: Label::Double('a', 'b') },
        JumpAnnotation { loc: 2, keys: Label::Double('a', 'c') },
        JumpAnnotation { loc: 5, keys: Label::Double('b', 'a') },
    ];
    let mut pending = None;
    show_key_annotations_with_callback(&mut view, &mut pending, anns.clone());
    let session = pending.unwrap();
    assert_eq!(session.state, SessionState::AwaitingFirstKey);
    assert_eq!(session.annotations, anns);
    assert!(view.single.is_empty());
    assert_eq!(
        view.multi_first,
        vec![
            Overlay { char_idx: 2, grapheme: 'a' },
            Overlay { char_idx: 5, grapheme: 'b' },
            Overlay { char_idx: 9, grapheme: 'a' },
        ]
    );
    assert_eq!(
        view.multi_rest,
        vec![
            Overlay { char_idx: 3, grapheme: 'c' },
            Overlay { char_idx: 6, grapheme: 'a' },
            Overlay { char_idx: 10, grapheme: 'b' },
        ]
    );
}

#[test]
fn showing_replaces_earlier_overlays() {
    let mut view = empty_view(0);
    view.multi_first.push(Overlay { char_idx: 1, grapheme: 'z' });
    let anns = vec![
        JumpAnnotation { loc: 8, keys: Label::Single('e') },
        JumpAnnotation { loc: 4, keys: Label::Single('t') },
    ];
    let mut pending = None;
    show_key_annotations_with_callback(&mut view, &mut pending, anns);
    assert_eq!(
        view.single,
        vec![Overlay { char_idx: 4, grapheme: 't' }, Overlay { char_idx: 8, grapheme: 'e' }]
    );
    assert!(view.multi_first.is_empty());
    assert!(view.multi_rest.is_empty());
}

#[test]
fn dimming_is_applied_and_cleared() {
    let mut view = empty_view(3);
    apply_dimming(&mut view);
    assert!(view.dimmed);
    view.single.push(Overlay { char_idx: 0, grapheme: 'e' });
    view.multi_rest.push(Overlay { char_idx: 1, grapheme: 'e' });
    clear_dimming(&mut view);
    assert!(!view.dimmed);
    assert!(view.single.is_empty() && view.multi_first.is_empty() && view.multi_rest.is_empty());
    assert_eq!(view.cursor, 3);
}

#[test]
fn styles_fall_back_when_theme_sets_none() {
    let single = apply_style(LabelKind::Single, None);
    assert_eq!(single, Style { fg: Rgb { r: 0xff, g: 0x00, b: 0x7c }, bold: true });
    let first = apply_style(LabelKind::MultiFirst, None);
    assert_eq!(first, Style { fg: Rgb { r: 0x00, g: 0xdf, b: 0xff }, bold: true });
    let rest = apply_style(LabelKind::MultiRest, None);
    assert_eq!(rest, Style { fg: Rgb { r: 0x2b, g: 0x8d, b: 0xb3 }, bold: false });
    let themed = Style { fg: Rgb { r: 1, g: 2, b: 3 }, bold: false };
    assert_eq!(apply_style(LabelKind::Single, Some(themed)), themed);
}

#[test]
fn begin_jump_labels_nearest_first() {
    let text = chars("a bb ccc");
    let vp = Viewport { anchor: 0, height: 1, horizontal_offset: 0, width: 80 };
    let mut view = empty_view(5);
    let mut pending = None;
    begin_jump(&text, &vp, &mut view, &mut pending, JumpMode::Word, &jump_keys());
    let session = pending.unwrap();
    assert_eq!(
        session.annotations,
        vec![
            JumpAnnotation { loc: 5, keys: Label::Single('e') },
            JumpAnnotation { loc: 2, keys: Label::Single('t') },
            JumpAnnotation { loc: 0, keys: Label::Single('o') },
        ]
    );
    assert_eq!(view.single.len(), 3);
    assert_eq!(view.single[0], Overlay { char_idx: 0, grapheme: 'o' });
    assert_eq!(view.cursor, 5);
}

#[test]
fn new_session_replaces_pending_one() {
    let mut view = empty_view(4);
    let mut pending = None;
    let first = vec![JumpAnnotation { loc: 9, keys: Label::Single('e') }];
    show_key_annotations_with_callback(&mut view, &mut pending, first);
    let second = vec![JumpAnnotation { loc: 2, keys: Label::Single('t') }];
    show_key_annotations_with_callback(&mut view, &mut pending, second.clone());
    let session = pending.as_mut().unwrap();
    assert_eq!(session.annotations, second);
    assert_eq!(session.state, SessionState::AwaitingFirstKey);
    assert_eq!(view.single, vec![Overlay { char_idx: 2, grapheme: 't' }]);
    session.on_key_press(&mut view, 'e');
    assert_eq!(session.state, SessionState::Cancelled);
    assert_eq!(view.cursor, 4);
}
