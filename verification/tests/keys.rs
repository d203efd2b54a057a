use tan::app::{App, FType, Mode, Tag};
use tan::command::Command;
use tan::keys::{
    extract_keycode, handle_key, Key, KEY_BACKSPACE, KEY_ENTER, KEY_ESCAPE, KEY_PAGE_DOWN, KEY_PAGE_UP,
};
use tan::session::{
    begin_save, default_labels, detect_format, end_save, offsets_in_range, open_plain, open_spacy,
    split_lines,
};
use tan::span::Ent;

fn plain(lines: &[&str]) -> App {
    let source: Vec<String> = lines.iter().map(|l| l.to_string()).collect();
    open_plain("doc.txt", &source, 24, 80).unwrap()
}

fn type_keys(app: &mut App, keys: &str) -> Command {
    let mut request = Command::Nothing;
    for key in keys.chars() {
        request = handle_key(app, key);
        assert!(app.is_valid());
    }
    request
}

#[test]
fn keys_select_and_tag() {
    let mut app = plain(&["ab cd ef", "gh"]);
    type_keys(&mut app, "lllvlt");
    assert_eq!(app.mode, Mode::Normal);
    assert_eq!(
        app.lines[0].tags,
        vec![Tag { start: 3, end: 5, label: 0, has_line_prev: false, has_line_next: false }]
    );
    type_keys(&mut app, "u");
    assert!(app.lines[0].tags.is_empty());
}

#[test]
fn keys_walk_through_the_modes() {
    let mut app = plain(&["ab cd ef", "gh"]);
    type_keys(&mut app, "v");
    assert_eq!(app.mode, Mode::Visual);
    type_keys(&mut app, "m");
    assert_eq!(app.mode, Mode::Modal);
    type_keys(&mut app, "i");
    assert_eq!(app.mode, Mode::Name);
    type_keys(&mut app, "XY");
    assert_eq!(app.labels[0].name, "label1XY");
    handle_key(&mut app, KEY_BACKSPACE);
    assert_eq!(app.labels[0].name, "label1X");
    handle_key(&mut app, ' ');
    assert_eq!(app.labels[0].name, "label1X");
    handle_key(&mut app, KEY_ENTER);
    assert_eq!(app.mode, Mode::Modal);
    type_keys(&mut app, "c");
    assert_eq!(app.mode, Mode::Color);
    handle_key(&mut app, KEY_ESCAPE);
    assert_eq!(app.mode, Mode::Modal);
    type_keys(&mut app, "aajd");
    assert_eq!(app.labels.len(), 2);
    handle_key(&mut app, KEY_ESCAPE);
    assert_eq!(app.mode, Mode::Normal);
    assert_eq!(type_keys(&mut app, ":x"), Command::Nothing);
    assert_eq!(app.mode, Mode::Command);
    assert_eq!(handle_key(&mut app, KEY_ENTER), Command::Nothing);
    assert_eq!(app.command, "x");
    handle_key(&mut app, KEY_BACKSPACE);
    assert_eq!(type_keys(&mut app, "w"), Command::Nothing);
    assert_eq!(handle_key(&mut app, KEY_ENTER), Command::Write);
    assert_eq!(app.mode, Mode::Normal);
    assert_eq!(type_keys(&mut app, ":quit\n"), Command::Quit);
}

#[test]
fn keys_of_the_palette() {
    let mut app = plain(&["ab cd ef", "gh"]);
    type_keys(&mut app, "maa");
    assert_eq!(app.labels.len(), 3);
    type_keys(&mut app, "jh");
    assert_eq!(app.labels.iter().map(|l| l.is_visible).collect::<Vec<_>>(), vec![true, false, true]);
    type_keys(&mut app, "H");
    assert_eq!(app.labels.iter().map(|l| l.is_visible).collect::<Vec<_>>(), vec![false, true, false]);
    type_keys(&mut app, "vV");
    assert_eq!(app.labels.iter().map(|l| l.is_visible).collect::<Vec<_>>(), vec![true, true, true]);
    type_keys(&mut app, "k");
    assert_eq!(app.modal_row, 0);
    type_keys(&mut app, "l");
    assert_eq!(app.labels[0].color, tan::app::Color::AnsiValue(98));
    type_keys(&mut app, "jj");
    handle_key(&mut app, KEY_ENTER);
    assert_eq!(app.modal_active, 2);
    assert_eq!(app.mode, Mode::Modal);
    type_keys(&mut app, "kcll");
    handle_key(&mut app, KEY_ENTER);
    assert_eq!(app.mode, Mode::Modal);
    assert_eq!(app.labels[1].color, tan::app::Color::AnsiValue(102));
    type_keys(&mut app, "m");
    assert_eq!(app.mode, Mode::Normal);
    assert_eq!(app.modal_active, 1);
}

#[test]
fn keys_without_a_meaning_change_nothing() {
    let mut app = plain(&["ab cd ef", "gh"]);
    type_keys(&mut app, "l");
    app.change = 0;
    type_keys(&mut app, "xyzQ?0 ");
    assert_eq!((app.cursor_row, app.cursor_column, app.change), (0, 1, 0));
    assert_eq!(app.mode, Mode::Normal);
    type_keys(&mut app, "v");
    app.change = 0;
    type_keys(&mut app, "HMLSEu");
    handle_key(&mut app, KEY_PAGE_DOWN);
    assert_eq!((app.cursor_row, app.cursor_column, app.change), (0, 1, 0));
    assert_eq!(app.mode, Mode::Visual);
}

#[test]
fn keys_move_the_cursor() {
    let lines: Vec<String> = (0..40).map(|i| format!("line {}", i)).collect();
    let refs: Vec<&str> = lines.iter().map(|l| l.as_str()).collect();
    let mut app = plain(&refs);
    type_keys(&mut app, "jjle");
    assert_eq!((app.offset_row, app.cursor_row, app.cursor_column), (0, 2, 5));
    handle_key(&mut app, KEY_PAGE_DOWN);
    assert_eq!((app.offset_row, app.cursor_row, app.cursor_column), (2, 22, 5));
    handle_key(&mut app, KEY_PAGE_UP);
    assert_eq!((app.offset_row, app.cursor_row, app.cursor_column), (2, 0, 5));
    type_keys(&mut app, "E");
    assert_eq!((app.offset_row, app.cursor_row, app.cursor_column), (17, 22, 6));
    type_keys(&mut app, "SwbskhM");
    assert_eq!((app.offset_row, app.cursor_row, app.cursor_column), (0, 12, 0));
    type_keys(&mut app, "HL");
    assert_eq!((app.offset_row, app.cursor_row, app.cursor_column), (0, 22, 0));
}

#[test]
fn the_kind_of_a_file() {
    assert_eq!(detect_format("notes.txt", None), FType::Plain);
    assert_eq!(detect_format("notes.tan", None), FType::Tan);
    assert_eq!(detect_format("notes.json", None), FType::Spacy);
    assert_eq!(detect_format("notes.json.tan", None), FType::Tan);
    assert_eq!(detect_format("tan", None), FType::Plain);
    assert_eq!(detect_format(".tan", None), FType::Tan);
    assert_eq!(detect_format("notes.tan", Some(FType::Plain)), FType::Plain);
    assert_eq!(detect_format("notes.txt", Some(FType::Spacy)), FType::Spacy);
}

#[test]
fn a_snapshot_is_taken_in_normal_mode_under_the_session_name() {
    let mut app = plain(&["abc"]);
    app.mode = Mode::Visual;
    let before = begin_save(&mut app);
    assert_eq!(before, (Mode::Visual, "doc.txt".to_owned()));
    assert_eq!(app.mode, Mode::Normal);
    assert_eq!(app.filename, "doc.txt.tan");
    end_save(&mut app, before, true);
    assert_eq!(app.mode, Mode::Visual);
    assert_eq!(app.filename, "doc.txt.tan");
    let before = begin_save(&mut app);
    assert_eq!(app.filename, "doc.txt.tan");
    end_save(&mut app, before, true);
    assert_eq!(app.filename, "doc.txt.tan");
}

#[test]
fn a_failed_save_leaves_the_state_as_it_was() {
    let mut app = plain(&["abc"]);
    app.mode = Mode::Modal;
    app.cursor_column = 2;
    let before = begin_save(&mut app);
    assert_eq!(app.filename, "doc.txt.tan");
    end_save(&mut app, before, false);
    assert_eq!(app.mode, Mode::Modal);
    assert_eq!(app.filename, "doc.txt");
    assert_eq!(app.cursor_column, 2);
    assert!(app.is_valid());
}

#[test]
fn the_lines_of_a_text() {
    assert_eq!(split_lines(""), vec![""]);
    assert_eq!(split_lines("a"), vec!["a"]);
    assert_eq!(split_lines("a\nbc\n\nd"), vec!["a", "bc", "", "d"]);
    assert_eq!(split_lines("a\n"), vec!["a", ""]);
    assert_eq!(split_lines("\n"), vec!["", ""]);
    assert!(offsets_in_range(&split_lines("a\nbc")));
}

#[test]
fn opening_a_text_with_spans() {
    let ents = vec![
        Ent { start: 0, end: 3, label: "PER".to_owned() },
        Ent { start: 12, end: 18, label: "LOC".to_owned() },
        Ent { start: 19, end: 22, label: "PER".to_owned() },
    ];
    let (app, left_out) =
        open_spacy("doc.json", "Ann lives\nin Berlin\nBob too", &ents, 24, 80).unwrap();
    assert!(left_out.is_empty());
    assert!(app.is_valid());
    assert_eq!(app.lines.len(), 3);
    assert_eq!(app.lines[1].absolute_offset, 10);
    assert_eq!(app.lines[2].absolute_offset, 20);
    assert_eq!(app.labels.iter().map(|l| l.name.as_str()).collect::<Vec<_>>(), vec!["PER", "LOC"]);
    assert_eq!(
        app.lines[0].tags,
        vec![Tag { start: 0, end: 3, label: 0, has_line_prev: false, has_line_next: false }]
    );
    assert_eq!(
        app.lines[1].tags,
        vec![Tag { start: 2, end: 8, label: 1, has_line_prev: false, has_line_next: false }]
    );
    assert_eq!(
        app.lines[2].tags,
        vec![Tag { start: 0, end: 2, label: 0, has_line_prev: false, has_line_next: false }]
    );
}

#[test]
fn opening_in_a_narrow_window() {
    let source = vec!["abc".to_owned()];
    let app = open_plain("f", &source, 2, 1).unwrap();
    assert_eq!(app.lines.len(), 3);
    assert!(app.lines.iter().all(|l| l.width == 1));
    let app = open_plain("f", &source, 2, 3).unwrap();
    assert_eq!(app.lines.len(), 2);
    let app = open_plain("f", &source, 2, 4).unwrap();
    assert_eq!(app.lines.len(), 1);
    assert!(app.is_valid());
    assert!(open_plain("f", &vec!["a\nb".to_owned()], 24, 80).is_none());
    let labels = default_labels();
    assert_eq!(labels.len(), 1);
    assert_eq!(labels[0].name, "label1");
}

#[test]
fn keys_as_the_terminal_reports_them() {
    assert_eq!(extract_keycode(Key::Char('h')), 'h');
    assert_eq!(extract_keycode(Key::Char('H')), 'H');
    assert_eq!(extract_keycode(Key::Control('h')), KEY_BACKSPACE);
    assert_eq!(extract_keycode(Key::Control('n')), KEY_PAGE_DOWN);
    assert_eq!(extract_keycode(Key::Control('p')), KEY_PAGE_UP);
    assert_eq!(extract_keycode(Key::Control('x')), 'x');
    assert_eq!(extract_keycode(Key::Backspace), '\x08');
    assert_eq!(extract_keycode(Key::Enter), '\x0a');
    assert_eq!(extract_keycode(Key::Escape), '\x1b');
    assert_eq!(extract_keycode(Key::Other), '\x00');
    assert_eq!((KEY_PAGE_DOWN, KEY_PAGE_UP), ('\x11', '\x12'));
}
