use tan::app::{App, Color, Label, Mode, Tag, Visual};
use tan::common::{
    word_back, word_forward,
    handle_1b, handle_E, handle_H, handle_L, handle_M, handle_S, handle_b, handle_colon, handle_e,
    handle_h, handle_j, handle_k, handle_l, handle_m, handle_pg_down, handle_pg_up, handle_s,
    handle_t, handle_w,
};
use tan::session::{open_plain, open_spacy};
use tan::span::Ent;

fn plain(lines: &[&str], rows: u16, columns: u16) -> App {
    let source: Vec<String> = lines.iter().map(|l| l.to_string()).collect();
    open_plain("doc.txt", &source, rows, columns).unwrap()
}

fn place(app: &mut App, row: usize, column: usize) {
    app.cursor_row = row;
    app.cursor_column = column;
    assert!(app.is_valid());
}

fn where_is(app: &App) -> (usize, usize, usize) {
    (app.offset_row, app.cursor_row, app.cursor_column)
}

fn tag(start: usize, end: usize, label: usize) -> Tag {
    Tag { start, end, label, has_line_prev: false, has_line_next: false }
}

#[test]
fn new_editor_starts_at_the_origin() {
    let app = plain(&["one", "two"], 24, 80);
    assert!(app.is_valid());
    assert_eq!(app.mode, Mode::Normal);
    assert_eq!(where_is(&app), (0, 0, 0));
    assert_eq!(app.nlines, 2);
    assert_eq!(app.window_height, 24);
    assert_eq!(app.window_width, 80);
    assert_eq!(app.modal_start_column, 20);
    assert_eq!(app.modal_start_row, 0);
    assert_eq!(app.labels.len(), 1);
    assert_eq!(app.labels[0].name, "label1");
    assert_eq!(app.labels[0].color, Color::Red);
    assert!(app.labels[0].is_active);
    assert_eq!(app.filename, "doc.txt");
    assert_eq!(app.change, 0);
}

#[test]
fn new_editor_in_a_small_window() {
    let app = App::new("f", Vec::new(), Vec::new(), 10, 30);
    assert_eq!(app.modal_start_column, 0);
    assert_eq!(app.modal_start_row, 0);
    assert!(app.is_valid());
    let app = App::new("f", Vec::new(), Vec::new(), 40, 100);
    assert_eq!(app.modal_start_column, 30);
    assert_eq!(app.modal_start_row, 8);
}

#[test]
fn left_and_right_stay_on_the_line_or_change_it() {
    let mut app = plain(&["abc", "de"], 24, 80);
    handle_h(&mut app);
    assert_eq!(where_is(&app), (0, 0, 0));
    handle_l(&mut app);
    handle_l(&mut app);
    assert_eq!(where_is(&app), (0, 0, 2));
    handle_l(&mut app);
    assert_eq!(where_is(&app), (0, 1, 0));
    handle_l(&mut app);
    assert_eq!(where_is(&app), (0, 1, 1));
    handle_l(&mut app);
    assert_eq!(where_is(&app), (0, 1, 1));
    handle_h(&mut app);
    handle_h(&mut app);
    assert_eq!(where_is(&app), (0, 0, 2));
    assert!(app.is_valid());
}

#[test]
fn right_does_not_leave_a_short_document() {
    let mut app = plain(&["ab"], 24, 80);
    handle_l(&mut app);
    handle_l(&mut app);
    handle_l(&mut app);
    assert_eq!(where_is(&app), (0, 0, 1));
    assert!(app.is_valid());
}

#[test]
fn down_and_up_pull_the_cursor_onto_a_shorter_line() {
    let mut app = plain(&["abcdefg", "hi", ""], 24, 80);
    place(&mut app, 0, 5);
    handle_j(&mut app);
    assert_eq!(where_is(&app), (0, 1, 1));
    handle_j(&mut app);
    assert_eq!(where_is(&app), (0, 2, 0));
    handle_j(&mut app);
    assert_eq!(where_is(&app), (0, 2, 0));
    handle_k(&mut app);
    handle_k(&mut app);
    assert_eq!(where_is(&app), (0, 0, 0));
    handle_k(&mut app);
    assert_eq!(where_is(&app), (0, 0, 0));
    assert!(app.is_valid());
}

#[test]
fn down_scrolls_at_the_lowest_row() {
    let mut app = plain(&["a", "b", "c", "d", "e"], 4, 80);
    handle_j(&mut app);
    handle_j(&mut app);
    assert_eq!(where_is(&app), (0, 2, 0));
    handle_j(&mut app);
    assert_eq!(where_is(&app), (1, 2, 0));
    handle_j(&mut app);
    assert_eq!(where_is(&app), (2, 2, 0));
    handle_j(&mut app);
    assert_eq!(where_is(&app), (2, 2, 0));
    handle_k(&mut app);
    handle_k(&mut app);
    handle_k(&mut app);
    assert_eq!(where_is(&app), (1, 0, 0));
    handle_k(&mut app);
    assert_eq!(where_is(&app), (0, 0, 0));
    assert!(app.is_valid());
}

#[test]
fn down_keeps_the_place_on_the_screen_across_a_continuation() {
    let mut app = plain(&["aaaa bbbbbbbb"], 24, 12);
    assert_eq!(app.lines.len(), 2);
    assert_eq!(app.lines[0].text, "aaaa ");
    assert_eq!(app.lines[1].text, "bbbbbbbb");
    place(&mut app, 0, 4);
    handle_j(&mut app);
    assert_eq!(where_is(&app), (0, 1, 3));
    handle_k(&mut app);
    assert_eq!(where_is(&app), (0, 0, 4));
    place(&mut app, 0, 0);
    handle_j(&mut app);
    assert_eq!(where_is(&app), (0, 1, 0));
    handle_k(&mut app);
    assert_eq!(where_is(&app), (0, 0, 1));
    place(&mut app, 1, 7);
    handle_k(&mut app);
    assert_eq!(where_is(&app), (0, 0, 4));
}

#[test]
fn word_motions() {
    let mut app = plain(&["ab  cde f", "gh"], 24, 80);
    handle_w(&mut app);
    assert_eq!(where_is(&app), (0, 0, 1));
    handle_w(&mut app);
    assert_eq!(where_is(&app), (0, 0, 4));
    handle_w(&mut app);
    assert_eq!(where_is(&app), (0, 0, 6));
    handle_w(&mut app);
    assert_eq!(where_is(&app), (0, 0, 8));
    handle_w(&mut app);
    assert_eq!(where_is(&app), (0, 1, 0));
    handle_w(&mut app);
    assert_eq!(where_is(&app), (0, 1, 1));
    handle_w(&mut app);
    assert_eq!(where_is(&app), (0, 1, 1));
    handle_b(&mut app);
    assert_eq!(where_is(&app), (0, 1, 0));
    handle_b(&mut app);
    assert_eq!(where_is(&app), (0, 0, 8));
    handle_b(&mut app);
    assert_eq!(where_is(&app), (0, 0, 6));
    handle_b(&mut app);
    assert_eq!(where_is(&app), (0, 0, 4));
    handle_b(&mut app);
    assert_eq!(where_is(&app), (0, 0, 1));
    handle_b(&mut app);
    assert_eq!(where_is(&app), (0, 0, 0));
    handle_b(&mut app);
    assert_eq!(where_is(&app), (0, 0, 0));
    assert!(app.is_valid());
}

#[test]
fn word_back_over_leading_white_space_stops_at_the_line_start() {
    let mut app = plain(&["  abc"], 24, 80);
    place(&mut app, 0, 2);
    handle_b(&mut app);
    assert_eq!(where_is(&app), (0, 0, 0));
}

#[test]
fn line_start_and_end() {
    let mut app = plain(&["abcdef", ""], 24, 80);
    handle_e(&mut app);
    assert_eq!(where_is(&app), (0, 0, 5));
    handle_s(&mut app);
    assert_eq!(where_is(&app), (0, 0, 0));
    place(&mut app, 1, 0);
    handle_e(&mut app);
    assert_eq!(where_is(&app), (0, 1, 0));
}

#[test]
fn document_start_and_end() {
    let lines: Vec<String> = (0..30).map(|i| format!("line {}", i)).collect();
    let refs: Vec<&str> = lines.iter().map(|l| l.as_str()).collect();
    let mut app = plain(&refs, 10, 80);
    handle_E(&mut app);
    assert_eq!(where_is(&app), (21, 8, 6));
    assert!(app.is_valid());
    handle_S(&mut app);
    assert_eq!(where_is(&app), (0, 0, 0));
    let mut app = plain(&["only"], 10, 80);
    handle_E(&mut app);
    assert_eq!(where_is(&app), (0, 0, 3));
}

#[test]
fn window_top_middle_bottom() {
    let lines: Vec<String> = (0..30).map(|i| format!("line {}", i)).collect();
    let refs: Vec<&str> = lines.iter().map(|l| l.as_str()).collect();
    let mut app = plain(&refs, 10, 80);
    handle_L(&mut app);
    assert_eq!(where_is(&app), (0, 8, 0));
    handle_M(&mut app);
    assert_eq!(where_is(&app), (0, 5, 0));
    handle_H(&mut app);
    assert_eq!(where_is(&app), (0, 0, 0));
    let mut app = plain(&["a", "b", "c"], 10, 80);
    handle_L(&mut app);
    assert_eq!(where_is(&app), (0, 1, 0));
    handle_M(&mut app);
    assert_eq!(where_is(&app), (0, 1, 0));
    app.offset_row = 2;
    app.cursor_row = 0;
    assert!(app.is_valid());
    handle_M(&mut app);
    assert_eq!(where_is(&app), (2, 0, 0));
    handle_L(&mut app);
    assert_eq!(where_is(&app), (2, 0, 0));
    assert!(app.is_valid());
}

#[test]
fn page_down_and_up() {
    let lines: Vec<String> = (0..30).map(|i| format!("line {}", i)).collect();
    let refs: Vec<&str> = lines.iter().map(|l| l.as_str()).collect();
    let mut app = plain(&refs, 10, 80);
    place(&mut app, 3, 2);
    handle_pg_down(&mut app);
    assert_eq!(where_is(&app), (3, 8, 2));
    handle_pg_down(&mut app);
    assert_eq!(where_is(&app), (11, 8, 2));
    handle_pg_down(&mut app);
    assert_eq!(where_is(&app), (19, 8, 2));
    handle_pg_down(&mut app);
    assert_eq!(where_is(&app), (19, 8, 2));
    assert!(app.is_valid());
    handle_pg_up(&mut app);
    assert_eq!(where_is(&app), (19, 0, 2));
    handle_pg_up(&mut app);
    assert_eq!(where_is(&app), (11, 0, 2));
    handle_pg_up(&mut app);
    handle_pg_up(&mut app);
    assert_eq!(where_is(&app), (0, 0, 2));
    assert!(app.is_valid());
}

#[test]
fn motions_on_an_empty_document_do_nothing() {
    let mut app = plain(&[], 24, 80);
    assert_eq!(app.lines.len(), 0);
    let motions: Vec<fn(&mut App)> = vec![
        handle_h, handle_j, handle_k, handle_l, handle_w, handle_b, handle_s, handle_e, handle_H,
        handle_M, handle_L, handle_S, handle_E, handle_pg_down, handle_pg_up,
    ];
    for motion in motions {
        motion(&mut app);
        assert_eq!(where_is(&app), (0, 0, 0));
        assert!(app.is_valid());
    }
}

#[test]
fn any_run_of_motions_keeps_the_cursor_on_a_cell() {
    let mut app = plain(&["alpha beta gamma delta", "", "x", "a much longer line than the rest"], 5, 14);
    let motions: Vec<fn(&mut App)> = vec![
        handle_h, handle_j, handle_k, handle_l, handle_w, handle_b, handle_s, handle_e, handle_H,
        handle_M, handle_L, handle_S, handle_E, handle_pg_down, handle_pg_up,
    ];
    let mut seed: usize = 7;
    for _ in 0..2000 {
        seed = (seed * 1103515245 + 12345) % 2147483648;
        motions[(seed / 65536) % motions.len()](&mut app);
        let row = app.cursor_row + app.offset_row;
        assert!(row < app.lines.len());
        assert!(app.cursor_column < std::cmp::max(1, app.lines[row].width));
        assert!(app.is_valid());
    }
}

#[test]
fn selection_follows_the_cursor_down_and_back() {
    let mut app = plain(&["x", "y", "abcdefg", "hi"], 24, 80);
    place(&mut app, 2, 4);
    app.normal_v();
    assert_eq!(app.mode, Mode::Visual);
    assert_eq!(app.visual, vec![Visual { row: 2, start: 4, end: 4 }]);
    app.visual_j();
    assert_eq!(where_is(&app), (0, 3, 1));
    assert_eq!(
        app.visual,
        vec![Visual { row: 2, start: 4, end: 6 }, Visual { row: 3, start: 0, end: 1 }]
    );
    assert_eq!(app.get_visual_bounds(2), (4, 7));
    assert_eq!(app.get_visual_bounds(3), (0, 2));
    assert_eq!(app.get_visual_bounds(1), (0, 0));
    app.visual_k();
    assert_eq!(where_is(&app), (0, 2, 1));
    assert_eq!(app.visual, vec![Visual { row: 2, start: 4, end: 1 }]);
    assert_eq!(app.get_visual_bounds(2), (1, 5));
    assert!(app.is_valid());
}

#[test]
fn selection_follows_the_cursor_up() {
    let mut app = plain(&["abcdefg", "hijk"], 24, 80);
    place(&mut app, 1, 2);
    app.normal_v();
    app.visual_k();
    assert_eq!(where_is(&app), (0, 0, 2));
    assert_eq!(
        app.visual,
        vec![Visual { row: 0, start: 6, end: 2 }, Visual { row: 1, start: 2, end: 0 }]
    );
    assert_eq!(app.get_visual_bounds(0), (2, 7));
    assert_eq!(app.get_visual_bounds(1), (0, 3));
    app.visual_j();
    assert_eq!(app.visual, vec![Visual { row: 1, start: 2, end: 2 }]);
}

#[test]
fn selection_follows_the_cursor_along_the_line() {
    let mut app = plain(&["ab cd ef"], 24, 80);
    place(&mut app, 0, 3);
    app.normal_v();
    app.visual_l();
    assert_eq!(app.visual, vec![Visual { row: 0, start: 3, end: 4 }]);
    app.visual_e();
    assert_eq!(app.visual, vec![Visual { row: 0, start: 3, end: 7 }]);
    app.visual_b();
    assert_eq!(app.visual, vec![Visual { row: 0, start: 3, end: 6 }]);
    app.visual_s();
    assert_eq!(app.visual, vec![Visual { row: 0, start: 3, end: 0 }]);
    app.visual_w();
    assert_eq!(app.visual, vec![Visual { row: 0, start: 3, end: 1 }]);
    app.visual_h();
    assert_eq!(app.visual, vec![Visual { row: 0, start: 3, end: 0 }]);
    assert_eq!(app.get_visual_bounds(0), (0, 4));
    app.visual_v();
    assert_eq!(app.mode, Mode::Normal);
    assert_eq!(app.visual, vec![Visual { row: 0, start: 3, end: 0 }]);
}

#[test]
fn tagging_a_selection() {
    let mut app = plain(&["ab cd ef"], 24, 80);
    place(&mut app, 0, 3);
    app.normal_v();
    app.visual_l();
    handle_t(&mut app);
    assert_eq!(app.mode, Mode::Normal);
    assert!(app.visual.is_empty());
    assert_eq!(app.lines[0].tags, vec![tag(3, 5, 0)]);
    assert_eq!(app.change, 0b0011);
    app.normal_v();
    handle_t(&mut app);
    assert_eq!(app.lines[0].tags, vec![tag(3, 5, 0), tag(4, 5, 0)]);
    handle_t(&mut app);
    assert_eq!(app.lines[0].tags.len(), 2);
    assert!(app.is_valid());
}

#[test]
fn tagging_nothing_on_an_empty_line() {
    let mut app = plain(&[""], 24, 80);
    app.normal_v();
    handle_t(&mut app);
    assert!(app.lines[0].tags.is_empty());
    assert!(app.visual.is_empty());
}

#[test]
fn new_tag_goes_behind_a_continuing_tag() {
    let ents = vec![Ent { start: 3, end: 9, label: "X".to_owned() }];
    let (mut app, left_out) = open_spacy("doc.json", "aaaa bbbb", &ents, 24, 7).unwrap();
    assert!(left_out.is_empty());
    assert_eq!(app.lines.len(), 2);
    place(&mut app, 0, 0);
    app.normal_v();
    app.visual_l();
    handle_t(&mut app);
    assert_eq!(
        app.lines[0].tags,
        vec![
            Tag { start: 3, end: 5, label: 0, has_line_prev: false, has_line_next: true },
            tag(0, 2, 0),
        ]
    );
    assert!(app.is_valid());
    place(&mut app, 1, 3);
    app.untag();
    assert_eq!(app.lines[0].tags, vec![tag(0, 2, 0)]);
    assert!(app.lines[1].tags.is_empty());
    assert!(app.is_valid());
}

#[test]
fn tagging_on_the_middle_row_of_a_chain() {
    let ents = vec![Ent { start: 2, end: 10, label: "X".to_owned() }];
    let (mut app, _) = open_spacy("doc.json", "aaaa bbb cc", &ents, 24, 6).unwrap();
    assert_eq!(app.lines.iter().map(|l| l.width).collect::<Vec<_>>(), vec![5, 4, 2]);
    let middle = Tag { start: 0, end: 4, label: 0, has_line_prev: true, has_line_next: true };
    assert_eq!(app.lines[1].tags, vec![middle]);
    place(&mut app, 1, 1);
    app.normal_v();
    app.visual_l();
    app.change = 0;
    handle_t(&mut app);
    assert_eq!(app.lines[1].tags, vec![middle, tag(1, 3, 0)]);
    assert_eq!(app.change, 0b0011);
    assert!(app.visual.is_empty());
    assert!(app.is_valid());
    place(&mut app, 2, 0);
    app.untag();
    assert!(app.lines[0].tags.is_empty());
    assert_eq!(app.lines[1].tags, vec![tag(1, 3, 0)]);
    assert!(app.lines[2].tags.is_empty());
    assert!(app.is_valid());
}

#[test]
fn untag_takes_the_first_tag_under_the_cursor() {
    let mut app = plain(&["ab cd ef"], 24, 80);
    app.lines[0].tags = vec![tag(0, 5, 0), tag(3, 8, 0)];
    place(&mut app, 0, 4);
    app.untag();
    assert_eq!(app.lines[0].tags, vec![tag(3, 8, 0)]);
    assert_eq!(app.change, 0b0011);
    place(&mut app, 0, 1);
    app.change = 0;
    app.normal_u();
    assert_eq!(app.lines[0].tags, vec![tag(3, 8, 0)]);
    assert_eq!(app.change, 0);
}

#[test]
fn untag_removes_the_whole_chain_from_any_of_its_tags() {
    let ents = vec![
        Ent { start: 1, end: 8, label: "X".to_owned() },
        Ent { start: 0, end: 1, label: "Y".to_owned() },
    ];
    for (row, column) in [(0, 1), (1, 0), (1, 2), (2, 1)] {
        let (mut app, left_out) = open_spacy("doc.json", "aa bb cc", &ents, 24, 5).unwrap();
        assert!(left_out.is_empty());
        assert_eq!(app.lines.len(), 3);
        assert_eq!(app.lines[0].tags.len(), 2);
        assert_eq!(app.lines[1].tags.len(), 1);
        assert_eq!(app.lines[2].tags.len(), 1);
        place(&mut app, row, column);
        app.untag();
        assert_eq!(app.lines[0].tags, vec![tag(0, 1, 1)]);
        assert!(app.lines[1].tags.is_empty());
        assert!(app.lines[2].tags.is_empty());
        assert!(app.is_valid());
    }
}

#[test]
fn mode_keys_of_the_common_handlers() {
    let mut app = plain(&["abc"], 24, 80);
    handle_colon(&mut app);
    assert_eq!(app.mode, Mode::Command);
    handle_1b(&mut app);
    assert_eq!(app.mode, Mode::Normal);
    handle_m(&mut app);
    assert_eq!(app.mode, Mode::Modal);
    handle_1b(&mut app);
    assert_eq!(app.mode, Mode::Normal);
    app.normal_v();
    assert_eq!(app.visual.len(), 1);
    handle_1b(&mut app);
    assert_eq!(app.mode, Mode::Normal);
    assert!(app.visual.is_empty());
    app.mode = Mode::Name;
    handle_1b(&mut app);
    assert_eq!(app.mode, Mode::Modal);
    app.mode = Mode::Color;
    handle_1b(&mut app);
    assert_eq!(app.mode, Mode::Modal);
}

#[test]
fn is_valid_refuses_broken_states() {
    let good = plain(&["abc", "de"], 24, 80);
    assert!(good.is_valid());
    let mut app = good.clone();
    app.cursor_column = 3;
    assert!(!app.is_valid());
    let mut app = good.clone();
    app.cursor_row = 2;
    assert!(!app.is_valid());
    let mut app = good.clone();
    app.nlines = 3;
    assert!(!app.is_valid());
    let mut app = good.clone();
    app.lines[0].tags.push(tag(1, 1, 0));
    assert!(!app.is_valid());
    let mut app = good.clone();
    app.lines[0].tags.push(tag(1, 4, 0));
    assert!(!app.is_valid());
    let mut app = good.clone();
    app.lines[0].tags.push(tag(1, 2, 1));
    assert!(!app.is_valid());
    let mut app = good.clone();
    app.lines[0].tags.push(Tag { start: 0, end: 3, label: 0, has_line_prev: false, has_line_next: true });
    assert!(!app.is_valid());
    let mut app = good.clone();
    app.lines[1].tags.push(Tag { start: 0, end: 1, label: 0, has_line_prev: true, has_line_next: false });
    assert!(!app.is_valid());
    let mut app = good.clone();
    app.lines[0].tags.push(Tag { start: 0, end: 3, label: 0, has_line_prev: false, has_line_next: true });
    app.lines[1].tags.push(Tag { start: 0, end: 1, label: 0, has_line_prev: true, has_line_next: false });
    assert!(app.is_valid());
    app.lines[0].tags.push(tag(0, 1, 0));
    assert!(app.is_valid());
    app.lines[1].tags.insert(0, tag(0, 1, 0));
    assert!(!app.is_valid());
    let mut app = good.clone();
    app.lines[0].tags.push(Tag { start: 0, end: 3, label: 0, has_line_prev: false, has_line_next: true });
    app.lines[0].tags.push(Tag { start: 1, end: 3, label: 0, has_line_prev: false, has_line_next: true });
    app.lines[1].tags.push(Tag { start: 0, end: 1, label: 0, has_line_prev: true, has_line_next: false });
    assert!(!app.is_valid());
    let mut app = good.clone();
    app.labels[0].is_active = false;
    assert!(!app.is_valid());
    let mut app = good.clone();
    app.labels.push(Label { name: "second".to_owned(), color: Color::Blue, is_active: true, is_visible: true });
    assert!(!app.is_valid());
    let mut app = good.clone();
    app.labels[0].name = "a-name-of-twenty-one-".to_owned();
    assert!(!app.is_valid());
    let mut app = good.clone();
    app.visual.push(Visual { row: 1, start: 0, end: 2 });
    assert!(!app.is_valid());
    let mut app = good.clone();
    app.lines[1].virtual_row = 0;
    assert!(!app.is_valid());
    let mut app = good.clone();
    app.lines[1].width = 3;
    assert!(!app.is_valid());
    let mut app = good.clone();
    app.rng = 18;
    assert!(!app.is_valid());
    let mut app = good.clone();
    app.lines[0].text = "a\nc".to_owned();
    assert!(!app.is_valid());
}

#[test]
fn adding_and_removing_spans() {
    let mut app = plain(&["abcdef", "gh"], 24, 80);
    assert!(app.add_span(0, 1, 3, 0));
    assert!(!app.add_span(0, 3, 3, 0));
    assert!(!app.add_span(0, 4, 7, 0));
    assert!(!app.add_span(0, 0, 1, 1));
    assert!(!app.add_span(2, 0, 1, 0));
    assert_eq!(app.lines[0].tags, vec![tag(1, 3, 0)]);
    assert_eq!(app.change, 0);
    assert!(!app.remove_span_at(0, 3));
    assert!(!app.remove_span_at(5, 0));
    assert!(app.remove_span_at(0, 2));
    assert!(app.lines[0].tags.is_empty());
    assert!(app.is_valid());
}

#[test]
fn a_line_in_the_middle_of_a_span_takes_other_tags() {
    let ents = vec![Ent { start: 1, end: 8, label: "X".to_owned() }];
    let (mut app, _) = open_spacy("doc.json", "aa bb cc", &ents, 24, 5).unwrap();
    assert!(app.add_span(1, 0, 1, 0));
    assert!(app.add_span(0, 0, 1, 0));
    assert!(app.add_span(2, 1, 2, 0));
    assert_eq!(app.lines[0].tags.len(), 2);
    assert!(app.lines[0].tags[0].has_line_next);
    assert_eq!(app.lines[0].tags[1], tag(0, 1, 0));
    assert!(app.lines[1].tags[0].has_line_prev && app.lines[1].tags[0].has_line_next);
    assert_eq!(app.lines[1].tags[1], tag(0, 1, 0));
    assert!(app.lines[2].tags[0].has_line_prev);
    assert!(app.is_valid());
    assert!(app.remove_span_at(1, 1));
    assert_eq!(app.lines[0].tags, vec![tag(0, 1, 0)]);
    assert_eq!(app.lines[1].tags, vec![tag(0, 1, 0)]);
    assert_eq!(app.lines[2].tags, vec![tag(1, 2, 0)]);
    assert!(app.is_valid());
}

#[test]
fn word_steps_from_the_blanks_of_a_line() {
    let blank: Vec<bool> = "ab  cde f".chars().map(|c| c.is_whitespace()).collect();
    assert_eq!(word_forward(&blank, 0), Some(1));
    assert_eq!(word_forward(&blank, 1), Some(4));
    assert_eq!(word_forward(&blank, 4), Some(6));
    assert_eq!(word_forward(&blank, 6), Some(8));
    assert_eq!(word_forward(&blank, 8), None);
    assert_eq!(word_forward(&blank, 20), None);
    assert_eq!(word_back(&blank, 8), Some(6));
    assert_eq!(word_back(&blank, 6), Some(4));
    assert_eq!(word_back(&blank, 4), Some(1));
    assert_eq!(word_back(&blank, 1), Some(0));
    assert_eq!(word_back(&blank, 0), None);
    assert_eq!(word_back(&blank, 10), None);
    assert_eq!(word_back(&vec![true, true, false], 2), Some(0));
    assert_eq!(word_forward(&vec![false, true, true], 0), Some(2));
    assert_eq!(word_forward(&Vec::new(), 0), None);
}
