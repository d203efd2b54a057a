use tan::app::{Color, Label, Line, Tag};
use tan::span::{
    assign_labels, calculate_tag_bounds, has_interval_overlap, import_spans, parse_labels,
    span_has_place, Ent,
};
use tan::wrap::wrap;

fn ent(start: usize, end: usize, label: &str) -> Ent {
    Ent { start, end, label: label.to_owned() }
}

fn label(name: &str) -> Label {
    Label { name: name.to_owned(), color: Color::Red, is_active: false, is_visible: true }
}

fn tags_of(lines: &[Line]) -> Vec<Vec<Tag>> {
    lines.iter().map(|l| l.tags.clone()).collect()
}

#[test]
fn test_has_interval_overlap() {
    assert!(has_interval_overlap((11, 13), (10, 14)) == true);
    assert!(has_interval_overlap((10, 14), (11, 13)) == true);
    assert!(has_interval_overlap((10, 12), (11, 14)) == true);
    assert!(has_interval_overlap((11, 13), (10, 12)) == true);
    assert!(has_interval_overlap((13, 15), (10, 12)) == false);
    assert!(has_interval_overlap((10, 12), (13, 15)) == false);
}

#[test]
fn test_calculate_tag_bounds() {
    assert!(calculate_tag_bounds((100, 120), (80, 80)) == (20, 40));
    assert!(calculate_tag_bounds((60, 180), (80, 80)) == (0, 80));
    assert!(calculate_tag_bounds((60, 120), (80, 80)) == (0, 40));
    assert!(calculate_tag_bounds((100, 180), (80, 80)) == (20, 80));
}

#[test]
fn tag_bounds_of_a_span_that_misses_the_line() {
    assert_eq!(calculate_tag_bounds((0, 5), (10, 8)), (0, 0));
    assert_eq!(calculate_tag_bounds((30, 40), (10, 8)), (20, 8));
}

#[test]
fn interval_overlap_counts_a_span_that_starts_where_the_line_ends() {
    assert!(has_interval_overlap((12, 15), (10, 12)));
    assert!(!has_interval_overlap((5, 10), (10, 12)));
}

#[test]
fn span_across_two_rows_leaves_two_linked_tags() {
    let lines = wrap(&vec!["aaaa bbbb".to_owned()], 5);
    assert_eq!((lines[0].absolute_offset, lines[0].width), (0, 5));
    assert_eq!((lines[1].absolute_offset, lines[1].width), (5, 4));
    let labels = vec![label("X")];
    let lines = assign_labels(lines, &vec![ent(3, 9, "X")], &labels);
    assert_eq!(
        tags_of(&lines),
        vec![
            vec![Tag { start: 3, end: 5, label: 0, has_line_prev: false, has_line_next: true }],
            vec![Tag { start: 0, end: 4, label: 0, has_line_prev: true, has_line_next: false }],
        ]
    );
}

#[test]
fn span_within_one_row_leaves_one_tag() {
    let lines = wrap(&vec!["aaaa bbbb".to_owned()], 5);
    let labels = vec![label("X"), label("Y")];
    let lines = assign_labels(lines, &vec![ent(1, 3, "Y")], &labels);
    assert_eq!(
        tags_of(&lines),
        vec![
            vec![Tag { start: 1, end: 3, label: 1, has_line_prev: false, has_line_next: false }],
            vec![],
        ]
    );
}

#[test]
fn span_that_starts_at_a_row_start_leaves_nothing_on_the_row_before() {
    let lines = wrap(&vec!["aaaa bbbb".to_owned()], 5);
    let labels = vec![label("X")];
    let lines = assign_labels(lines, &vec![ent(5, 7, "X")], &labels);
    assert_eq!(
        tags_of(&lines),
        vec![
            vec![],
            vec![Tag { start: 0, end: 2, label: 0, has_line_prev: false, has_line_next: false }],
        ]
    );
}

#[test]
fn span_over_three_rows_is_one_chain() {
    let lines = wrap(&vec!["aa bb cc".to_owned()], 3);
    assert_eq!(lines.len(), 3);
    let labels = vec![label("X")];
    let lines = assign_labels(lines, &vec![ent(1, 8, "X")], &labels);
    assert_eq!(
        tags_of(&lines),
        vec![
            vec![Tag { start: 1, end: 3, label: 0, has_line_prev: false, has_line_next: true }],
            vec![Tag { start: 0, end: 3, label: 0, has_line_prev: true, has_line_next: true }],
            vec![Tag { start: 0, end: 2, label: 0, has_line_prev: true, has_line_next: false }],
        ]
    );
}

#[test]
fn later_spans_go_behind_the_tags_that_are_there() {
    let lines = wrap(&vec!["aaaa bbbb".to_owned()], 5);
    let labels = vec![label("X"), label("Y")];
    let lines = assign_labels(lines, &vec![ent(3, 9, "X"), ent(0, 2, "Y"), ent(7, 9, "Y")], &labels);
    assert_eq!(
        tags_of(&lines),
        vec![
            vec![
                Tag { start: 3, end: 5, label: 0, has_line_prev: false, has_line_next: true },
                Tag { start: 0, end: 2, label: 1, has_line_prev: false, has_line_next: false },
            ],
            vec![
                Tag { start: 0, end: 4, label: 0, has_line_prev: true, has_line_next: false },
                Tag { start: 2, end: 4, label: 1, has_line_prev: false, has_line_next: false },
            ],
        ]
    );
}

#[test]
fn a_continued_tag_goes_first() {
    let lines = wrap(&vec!["aaaa bbbb".to_owned()], 5);
    let labels = vec![label("X"), label("Y")];
    let lines = assign_labels(lines, &vec![ent(7, 9, "Y"), ent(3, 9, "X")], &labels);
    assert_eq!(
        tags_of(&lines),
        vec![
            vec![Tag { start: 3, end: 5, label: 0, has_line_prev: false, has_line_next: true }],
            vec![
                Tag { start: 0, end: 4, label: 0, has_line_prev: true, has_line_next: false },
                Tag { start: 2, end: 4, label: 1, has_line_prev: false, has_line_next: false },
            ],
        ]
    );
}

#[test]
fn second_span_across_the_same_break_is_left_out() {
    let lines = wrap(&vec!["aaaa bbbb".to_owned()], 5);
    let labels = vec![label("X"), label("Y")];
    let lines = assign_labels(lines, &vec![ent(3, 9, "X"), ent(4, 6, "Y")], &labels);
    assert_eq!(
        tags_of(&lines),
        vec![
            vec![Tag { start: 3, end: 5, label: 0, has_line_prev: false, has_line_next: true }],
            vec![Tag { start: 0, end: 4, label: 0, has_line_prev: true, has_line_next: false }],
        ]
    );
}

#[test]
fn whether_a_span_has_a_place() {
    let lines = wrap(&vec!["aaaa bbbb".to_owned()], 5);
    assert!(span_has_place(&lines, (3, 9)));
    let labels = vec![label("X")];
    let lines = assign_labels(lines, &vec![ent(3, 9, "X")], &labels);
    assert!(!span_has_place(&lines, (4, 6)));
    assert!(span_has_place(&lines, (0, 5)));
    assert!(span_has_place(&lines, (5, 9)));
    assert!(span_has_place(&lines, (40, 60)));
}

#[test]
fn span_with_an_unknown_label_is_left_out() {
    let lines = wrap(&vec!["aaaa bbbb".to_owned()], 5);
    let labels = vec![label("X")];
    let lines = assign_labels(lines, &vec![ent(0, 2, "Z")], &labels);
    assert_eq!(tags_of(&lines), vec![vec![], vec![]]);
}

#[test]
fn import_says_which_spans_it_left_out() {
    let lines = wrap(&vec!["aaaa bbbb".to_owned()], 5);
    let ents = vec![ent(3, 9, "X"), ent(4, 6, "Y"), ent(0, 2, "Y"), ent(2, 7, "X")];
    let (lines, labels, left_out) = import_spans(lines, &ents);
    assert_eq!(labels.len(), 2);
    assert_eq!(left_out, vec![1, 3]);
    assert_eq!(lines[0].tags.len(), 2);
    assert_eq!(lines[1].tags.len(), 1);
}

#[test]
fn parse_labels_takes_each_name_once() {
    let ents = vec![ent(0, 1, "PER"), ent(2, 3, "ORG"), ent(4, 5, "PER"), ent(6, 7, "LOC")];
    let labels = parse_labels(&ents);
    let names: Vec<&str> = labels.iter().map(|l| l.name.as_str()).collect();
    assert_eq!(names, vec!["PER", "ORG", "LOC"]);
    assert_eq!(labels[0].color, Color::AnsiValue(98));
    assert_eq!(labels[1].color, Color::AnsiValue(176));
    assert_eq!(labels[2].color, Color::AnsiValue(206));
    assert_eq!(labels.iter().map(|l| l.is_active).collect::<Vec<_>>(), vec![true, false, false]);
    assert!(labels.iter().all(|l| l.is_visible));
}

#[test]
fn parse_labels_of_no_spans_is_empty() {
    assert!(parse_labels(&Vec::new()).is_empty());
}

#[test]
fn parse_labels_cuts_long_names_and_goes_round_the_palette() {
    let mut ents = Vec::new();
    for i in 0..20 {
        ents.push(ent(0, 1, &format!("name-that-is-much-too-long-{}", i)));
        ents.push(ent(0, 1, &format!("n{}", i)));
    }
    let labels = parse_labels(&ents);
    assert_eq!(labels.len(), 21);
    assert_eq!(labels[0].name, "name-that-is-much-to");
    assert_eq!(labels[0].name.chars().count(), 20);
    assert_eq!(labels[1].name, "n0");
    assert_eq!(labels[18].color, labels[0].color);
    assert_eq!(labels[19].color, labels[1].color);
    assert_eq!(labels[17].color, Color::AnsiValue(104));
}

#[test]
fn import_spans_gives_labels_and_tags() {
    let lines = wrap(&vec!["Ann met Bob".to_owned()], 20);
    let ents = vec![ent(0, 3, "PER"), ent(8, 11, "PER")];
    let (lines, labels, left_out) = import_spans(lines, &ents);
    assert!(left_out.is_empty());
    assert_eq!(labels.len(), 1);
    assert_eq!(labels[0].name, "PER");
    assert!(labels[0].is_active);
    assert_eq!(
        tags_of(&lines),
        vec![vec![
            Tag { start: 0, end: 3, label: 0, has_line_prev: false, has_line_next: false },
            Tag { start: 8, end: 11, label: 0, has_line_prev: false, has_line_next: false },
        ]]
    );
}
