use tan::app::{App, Color, Mode, Tag, Visual};
use tan::render::{
    chunk_label, chunk_line, chunk_modal_lines, clear_status, get_change_flags, modal_foreground,
    move_to, move_to_column, render_command, render_cursor, render_event, render_offset,
    render_status, Change, OffsetChunk,
};
use tan::session::open_plain;

fn plain(lines: &[&str], rows: u16, columns: u16) -> App {
    let source: Vec<String> = lines.iter().map(|l| l.to_string()).collect();
    open_plain("doc.txt", &source, rows, columns).unwrap()
}

fn tag(start: usize, end: usize, label: usize) -> Tag {
    Tag { start, end, label, has_line_prev: false, has_line_next: false }
}

fn chunk(start: usize, end: usize, color: Color) -> OffsetChunk {
    OffsetChunk { start, end, color }
}

const SELECTED: Color = Color::AnsiValue(172);
const OVERLAP: Color = Color::AnsiValue(160);

#[test]
fn chunks_of_a_bare_line() {
    let app = plain(&["abcdef", ""], 24, 80);
    assert_eq!(chunk_line(&app.lines[0], &app), vec![chunk(0, 6, Color::Reset)]);
    assert_eq!(chunk_line(&app.lines[1], &app), vec![]);
}

#[test]
fn chunks_take_the_color_of_their_tag() {
    let mut app = plain(&["abcdefghij"], 24, 80);
    app.modal_a();
    app.lines[0].tags = vec![tag(2, 5, 0), tag(7, 10, 1)];
    assert_eq!(
        chunk_line(&app.lines[0], &app),
        vec![
            chunk(0, 2, Color::Reset),
            chunk(2, 5, Color::Red),
            chunk(5, 7, Color::Reset),
            chunk(7, 10, Color::AnsiValue(98)),
        ]
    );
}

#[test]
fn chunks_mark_tags_that_lie_over_one_another() {
    let mut app = plain(&["abcdefghij"], 24, 80);
    app.modal_a();
    app.lines[0].tags = vec![tag(0, 6, 0), tag(4, 8, 1)];
    assert_eq!(
        chunk_line(&app.lines[0], &app),
        vec![
            chunk(0, 4, Color::Red),
            chunk(4, 6, OVERLAP),
            chunk(6, 8, Color::AnsiValue(98)),
            chunk(8, 10, Color::Reset),
        ]
    );
}

#[test]
fn chunks_show_the_selection_before_all_else() {
    let mut app = plain(&["abcdefghij"], 24, 80);
    app.modal_a();
    app.lines[0].tags = vec![tag(0, 6, 0), tag(4, 8, 1)];
    app.visual = vec![Visual { row: 0, start: 7, end: 5 }];
    assert_eq!(
        chunk_line(&app.lines[0], &app),
        vec![
            chunk(0, 4, Color::Red),
            chunk(4, 5, OVERLAP),
            chunk(5, 6, SELECTED),
            chunk(6, 8, SELECTED),
            chunk(8, 10, Color::Reset),
        ]
    );
}

#[test]
fn chunks_leave_hidden_labels_out() {
    let mut app = plain(&["abcdefghij"], 24, 80);
    app.modal_a();
    app.lines[0].tags = vec![tag(0, 6, 0), tag(4, 8, 1)];
    app.labels[0].is_visible = false;
    assert_eq!(
        chunk_line(&app.lines[0], &app),
        vec![chunk(0, 4, Color::Reset), chunk(4, 8, Color::AnsiValue(98)), chunk(8, 10, Color::Reset)]
    );
}

#[test]
fn chunks_cover_the_line_exactly() {
    let mut app = plain(&["abcdefghijklmnop", "qrstuv"], 24, 80);
    app.modal_a();
    app.modal_a();
    app.lines[0].tags =
        vec![tag(3, 9, 0), tag(0, 16, 1), tag(5, 6, 2), tag(9, 12, 0), tag(15, 16, 2)];
    app.labels[2].is_visible = false;
    for selection in [None, Some((0, 0)), Some((4, 10)), Some((15, 2)), Some((7, 7))] {
        app.visual = match selection {
            Some((start, end)) => vec![Visual { row: 0, start, end }],
            None => Vec::new(),
        };
        let chunks = chunk_line(&app.lines[0], &app);
        assert_eq!(chunks[0].start, 0);
        assert_eq!(chunks[chunks.len() - 1].end, 16);
        for pair in chunks.windows(2) {
            assert_eq!(pair[0].end, pair[1].start);
        }
        assert!(chunks.iter().all(|c| c.start < c.end));
    }
}

#[test]
fn selection_of_an_empty_line_draws_nothing() {
    let mut app = plain(&[""], 24, 80);
    app.normal_v();
    assert_eq!(app.get_visual_bounds(0), (0, 1));
    assert_eq!(chunk_line(&app.lines[0], &app), vec![]);
}

#[test]
fn change_flags_in_drawing_order() {
    let mut app = plain(&["abc"], 24, 80);
    assert_eq!(get_change_flags(&app), vec![]);
    app.change = 0b0011_1111;
    assert_eq!(
        get_change_flags(&app),
        vec![Change::Offset, Change::Modal, Change::Status, Change::Command, Change::Cursor]
    );
    app.change = 0b0000_0100;
    assert_eq!(get_change_flags(&app), vec![Change::Cursor]);
    app.change = 0b0000_1001;
    assert_eq!(render_event(&mut app), vec![Change::Status, Change::Cursor]);
    assert_eq!(app.change, 0);
    assert_eq!(render_event(&mut app), vec![]);
}

#[test]
fn the_cursor_on_the_screen() {
    let mut app = plain(&["aaaa bbbbbbbb"], 24, 12);
    app.cursor_column = 3;
    assert_eq!(render_cursor(&app), (3, 0));
    app.cursor_row = 1;
    assert_eq!(render_cursor(&app), (4, 1));
    app.modal_i();
    assert_eq!(app.mode, Mode::Name);
    assert_eq!(render_cursor(&app), (0 + 6 + 19, 0 + 0 + 1));
}

#[test]
fn the_rows_of_the_window() {
    let mut app = plain(&["a", "bb ccc", "d", "e", "f"], 4, 6);
    assert_eq!(app.lines.len(), 6);
    let rows = render_offset(&app);
    assert_eq!(rows.len(), 3);
    assert_eq!(rows.iter().map(|r| r.row).collect::<Vec<_>>(), vec![0, 1, 2]);
    assert_eq!(rows.iter().map(|r| r.shift).collect::<Vec<_>>(), vec![0, 0, 1]);
    assert_eq!(rows[1].chunks, vec![chunk(0, 3, Color::Reset)]);
    app.offset_row = 4;
    let rows = render_offset(&app);
    assert_eq!(rows.len(), 2);
    assert_eq!(rows[1].chunks, vec![chunk(0, 1, Color::Reset)]);
}

#[test]
fn the_status_line() {
    let mut app = plain(&["abcdefghij", "k", "l", "m"], 24, 80);
    app.modal_a();
    app.labels[1].name = "second".to_owned();
    app.lines[0].tags = vec![tag(0, 6, 0), tag(4, 8, 1)];
    let status = render_status(&app);
    assert_eq!(status.block, Some(Color::Red));
    assert_eq!(status.label, Some(0));
    assert_eq!((status.percent, status.row, status.column), (0, 0, 0));
    app.cursor_column = 5;
    let status = render_status(&app);
    assert_eq!(status.block, Some(OVERLAP));
    assert_eq!(status.label, None);
    app.cursor_column = 7;
    let status = render_status(&app);
    assert_eq!(status.block, Some(Color::AnsiValue(98)));
    assert_eq!(status.label, Some(1));
    app.labels[1].is_visible = false;
    let status = render_status(&app);
    assert_eq!(status.block, None);
    assert_eq!(status.label, None);
    app.mode = Mode::Visual;
    assert_eq!(render_status(&app).block, Some(SELECTED));
    app.mode = Mode::Normal;
    app.cursor_column = 0;
    app.cursor_row = 3;
    let status = render_status(&app);
    assert_eq!((status.percent, status.row, status.column), (75, 3, 0));
    app.cursor_row = 1;
    assert_eq!(render_status(&app).percent, 25);
    let empty = plain(&[], 24, 80);
    assert_eq!(render_status(&empty).percent, 0);
}

#[test]
fn the_row_of_a_label() {
    let mut app = plain(&["abc"], 24, 80);
    app.labels[0].name = "näme".to_owned();
    let cells: Vec<(String, Color, bool)> =
        chunk_label(&app.labels[0]).into_iter().map(|c| (c.text, c.color, c.is_name)).collect();
    assert_eq!(
        cells,
        vec![
            (" │ ".to_owned(), Color::Reset, false),
            ("A".to_owned(), Color::Reset, false),
            (" ".to_owned(), Color::Reset, false),
            ("  ".to_owned(), Color::Reset, false),
            ("        ".to_owned(), Color::Red, false),
            ("    ".to_owned(), Color::Reset, false),
            ("näme                ".to_owned(), Color::Reset, true),
            (" │ ".to_owned(), Color::Reset, false),
        ]
    );
    app.labels[0].is_active = false;
    app.labels[0].is_visible = false;
    let chunks = chunk_label(&app.labels[0]);
    assert_eq!(chunks[1].text, " ");
    assert_eq!(chunks[2].text, "H");
}

#[test]
fn the_rows_of_the_palette() {
    let mut app = plain(&["abc"], 24, 80);
    app.modal_a();
    let rows = chunk_modal_lines(&app);
    assert_eq!(rows.len(), 27);
    assert_eq!(rows[0].len(), 1);
    assert_eq!(rows[0][0].text, format!(" ┌{}┐ ", "─".repeat(38)));
    assert_eq!(rows[1].len(), 8);
    assert_eq!(rows[2][6].text, format!("{:20}", "new_label"));
    assert_eq!(rows[3][0].text, format!(" │{}│ ", " ".repeat(38)));
    assert_eq!(rows[24][0].text, format!(" │{}│ ", " ".repeat(38)));
    assert_eq!(rows[25].len(), 20);
    assert_eq!(rows[25][0].text, " │ ");
    assert_eq!(rows[25][1].color, Color::AnsiValue(98));
    assert_eq!(rows[25][1].text, "  ");
    assert_eq!(rows[25][19].text, " │ ");
    assert_eq!(rows[26][0].text, format!(" └{}┘ ", "─".repeat(38)));
    app.modal_row = 1;
    let rows = chunk_modal_lines(&app);
    assert_eq!(rows[25][1].text, "◄►");
    assert_eq!(rows[25][2].text, "  ");
    assert_eq!(modal_foreground(&app, 2, &rows[2][6]), Color::Yellow);
    assert_eq!(modal_foreground(&app, 2, &rows[2][5]), Color::White);
    assert_eq!(modal_foreground(&app, 1, &rows[1][6]), Color::White);
    for _ in 0..30 {
        app.modal_a();
    }
    assert_eq!(chunk_modal_lines(&app).len(), 27);
}

#[test]
fn the_command_line_as_shown() {
    let mut app = plain(&["abc"], 24, 10);
    assert_eq!(render_command(&app), ":");
    app.command_char('w');
    assert_eq!(render_command(&app), ":w");
    assert_eq!(clear_status(&app), "         ");
    app.window_width = 0;
    assert_eq!(clear_status(&app), "");
}

#[test]
fn terminal_positions_have_sixteen_bits() {
    assert_eq!(move_to(3, 4), (3, 4));
    assert_eq!(move_to(65535, 65536), (65535, 0));
    assert_eq!(move_to_column(65537), 1);
}
