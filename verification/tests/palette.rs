use tan::app::{App, Color, Label, Mode, Tag};
use tan::color;
use tan::command::Command;
use tan::modal::reindex_on_label_delete;
use tan::session::open_plain;

fn plain(lines: &[&str]) -> App {
    let source: Vec<String> = lines.iter().map(|l| l.to_string()).collect();
    open_plain("doc.txt", &source, 24, 80).unwrap()
}

fn tag(start: usize, end: usize, label: usize) -> Tag {
    Tag { start, end, label, has_line_prev: false, has_line_next: false }
}

fn names(app: &App) -> Vec<&str> {
    app.labels.iter().map(|l| l.name.as_str()).collect()
}

fn three_labels() -> App {
    let mut app = plain(&["abcdefgh", "ijkl"]);
    app.modal_a();
    app.modal_a();
    app.labels[0].name = "zero".to_owned();
    app.labels[1].name = "one".to_owned();
    app.labels[2].name = "two".to_owned();
    app.lines[0].tags = vec![tag(0, 1, 0), tag(1, 2, 1), tag(2, 3, 2), tag(3, 4, 1)];
    app.lines[1].tags = vec![tag(0, 2, 2), tag(1, 3, 0)];
    app.change = 0;
    assert!(app.is_valid());
    app
}

#[test]
fn palette_row_goes_round() {
    let mut app = three_labels();
    assert_eq!(app.modal_row, 0);
    app.modal_k();
    assert_eq!(app.modal_row, 2);
    app.modal_j();
    assert_eq!(app.modal_row, 0);
    app.modal_j();
    app.modal_j();
    assert_eq!(app.modal_row, 2);
    assert_eq!(app.change, 0b0001_1000);
}

#[test]
fn adding_a_label_behind_the_palette_row() {
    let mut app = plain(&["abcd"]);
    app.lines[0].tags = vec![tag(0, 1, 0)];
    app.modal_a();
    assert_eq!(names(&app), vec!["label1", "new_label"]);
    assert_eq!(app.labels[1].color, Color::AnsiValue(98));
    assert!(!app.labels[1].is_active);
    assert!(app.labels[1].is_visible);
    assert_eq!(app.rng, 1);
    assert_eq!(app.modal_active, 0);
    assert_eq!(app.lines[0].tags, vec![tag(0, 1, 0)]);
    app.labels[1].name = "second".to_owned();
    app.lines[0].tags.push(tag(1, 2, 1));
    app.modal_a();
    assert_eq!(names(&app), vec!["label1", "new_label", "second"]);
    assert_eq!(app.labels[1].color, Color::AnsiValue(176));
    assert_eq!(app.lines[0].tags, vec![tag(0, 1, 0), tag(1, 2, 2)]);
    assert_eq!(app.change, 0b0001_0011);
    assert!(app.is_valid());
}

#[test]
fn adding_a_label_keeps_the_active_one() {
    let mut app = three_labels();
    app.modal_row = 2;
    app.modal_return();
    assert_eq!(app.modal_active, 2);
    app.modal_row = 0;
    app.modal_a();
    assert_eq!(names(&app), vec!["zero", "new_label", "one", "two"]);
    assert_eq!(app.modal_active, 3);
    assert!(app.labels[3].is_active);
    assert_eq!(app.lines[0].tags, vec![tag(0, 1, 0), tag(1, 2, 2), tag(2, 3, 3), tag(3, 4, 2)]);
    assert!(app.is_valid());
}

#[test]
fn the_palette_takes_no_more_than_its_rows() {
    let mut app = plain(&["abcd"]);
    for _ in 0..40 {
        app.modal_a();
    }
    assert_eq!(app.labels.len(), 24);
    assert_eq!(app.rng, (23 % 18));
    assert!(app.is_valid());
}

#[test]
fn adding_the_first_label_makes_it_active() {
    let mut app = App::new("f", Vec::new(), Vec::new(), 24, 80);
    assert!(app.is_valid());
    app.modal_j();
    app.modal_k();
    app.modal_d();
    app.modal_v();
    app.modal_h();
    app.modal_l();
    app.modal_i();
    app.modal_return();
    assert_eq!(app.mode, Mode::Normal);
    assert!(app.labels.is_empty());
    app.modal_a();
    assert_eq!(app.labels.len(), 1);
    assert!(app.labels[0].is_active);
    assert!(app.is_valid());
}

#[test]
fn deleting_a_label_renumbers_the_tags() {
    let mut app = three_labels();
    app.modal_row = 1;
    app.modal_d();
    assert_eq!(names(&app), vec!["zero", "two"]);
    assert_eq!(app.lines[0].tags, vec![tag(0, 1, 0), tag(2, 3, 1)]);
    assert_eq!(app.lines[1].tags, vec![tag(0, 2, 1), tag(1, 3, 0)]);
    assert_eq!(app.modal_row, 0);
    assert_eq!(app.modal_active, 0);
    assert_eq!(app.change, 0b0001_0011);
    assert!(app.is_valid());
}

#[test]
fn deleting_the_active_label_promotes_the_next() {
    let mut app = three_labels();
    app.modal_d();
    assert_eq!(names(&app), vec!["one", "two"]);
    assert_eq!(app.modal_active, 0);
    assert!(app.labels[0].is_active);
    assert!(!app.labels[1].is_active);
    assert_eq!(app.lines[0].tags, vec![tag(1, 2, 0), tag(2, 3, 1), tag(3, 4, 0)]);
    assert_eq!(app.lines[1].tags, vec![tag(0, 2, 1)]);
    let mut app = three_labels();
    app.modal_row = 2;
    app.modal_return();
    app.modal_d();
    assert_eq!(names(&app), vec!["zero", "one"]);
    assert_eq!(app.modal_active, 0);
    assert_eq!(app.modal_row, 1);
    assert!(app.labels[0].is_active);
    assert!(app.is_valid());
}

#[test]
fn deleting_a_label_before_the_active_one() {
    let mut app = three_labels();
    app.modal_row = 2;
    app.modal_return();
    app.modal_row = 0;
    app.modal_d();
    assert_eq!(names(&app), vec!["one", "two"]);
    assert_eq!(app.modal_active, 1);
    assert!(app.labels[1].is_active);
    assert!(app.is_valid());
}

#[test]
fn the_last_label_is_never_deleted() {
    let mut app = plain(&["abcd"]);
    app.lines[0].tags = vec![tag(0, 1, 0)];
    app.modal_d();
    assert_eq!(app.labels.len(), 1);
    assert_eq!(app.lines[0].tags, vec![tag(0, 1, 0)]);
    assert_eq!(app.change, 0);
}

#[test]
fn reindex_drops_and_lowers() {
    let mut app = three_labels();
    reindex_on_label_delete(&mut app.lines, 0);
    assert_eq!(app.lines[0].tags, vec![tag(1, 2, 0), tag(2, 3, 1), tag(3, 4, 0)]);
    assert_eq!(app.lines[1].tags, vec![tag(0, 2, 1)]);
    reindex_on_label_delete(&mut app.lines, 5);
    assert_eq!(app.lines[1].tags, vec![tag(0, 2, 1)]);
}

#[test]
fn choosing_the_active_label() {
    let mut app = three_labels();
    app.modal_row = 1;
    app.modal_return();
    assert_eq!(app.mode, Mode::Normal);
    assert_eq!(app.modal_active, 1);
    assert_eq!(app.labels.iter().map(|l| l.is_active).collect::<Vec<_>>(), vec![false, true, false]);
    assert_eq!(app.change, 0b0001_1000);
    app.mode = Mode::Modal;
    app.modal_row = 2;
    app.change = 0;
    app.modal_m();
    assert_eq!(app.mode, Mode::Normal);
    assert_eq!(app.modal_active, 2);
    assert_eq!(app.labels.iter().map(|l| l.is_active).collect::<Vec<_>>(), vec![false, false, true]);
    assert_eq!(app.change, 0b0000_0011);
}

#[test]
fn hiding_labels() {
    let mut app = three_labels();
    app.modal_row = 1;
    app.modal_v();
    assert_eq!(app.labels.iter().map(|l| l.is_visible).collect::<Vec<_>>(), vec![true, false, true]);
    app.modal_V();
    assert_eq!(app.labels.iter().map(|l| l.is_visible).collect::<Vec<_>>(), vec![false, true, false]);
    app.modal_v();
    assert_eq!(app.labels.iter().map(|l| l.is_visible).collect::<Vec<_>>(), vec![false, false, false]);
    assert!(app.is_valid());
}

#[test]
fn stepping_the_color_of_a_label() {
    let mut app = three_labels();
    assert_eq!(app.labels[0].color, Color::Red);
    app.modal_l();
    assert_eq!(app.labels[0].color, Color::AnsiValue(98));
    app.modal_l();
    assert_eq!(app.labels[0].color, Color::AnsiValue(176));
    app.modal_h();
    app.modal_h();
    assert_eq!(app.labels[0].color, Color::AnsiValue(104));
    app.modal_l();
    assert_eq!(app.labels[0].color, Color::AnsiValue(98));
    app.labels[0].color = Color::Red;
    app.modal_h();
    assert_eq!(app.labels[0].color, Color::AnsiValue(104));
}

#[test]
fn picking_a_color() {
    let mut app = three_labels();
    app.modal_row = 1;
    assert_eq!(app.labels[1].color, Color::AnsiValue(176));
    assert_eq!(app.labels[2].color, Color::AnsiValue(98));
    app.mode = Mode::Modal;
    app.modal_c();
    assert_eq!(app.mode, Mode::Color);
    assert_eq!(app.color_column, 1);
    color::handle_h(&mut app);
    color::handle_h(&mut app);
    assert_eq!(app.color_column, 17);
    color::handle_l(&mut app);
    color::handle_l(&mut app);
    color::handle_l(&mut app);
    assert_eq!(app.color_column, 2);
    let cells = color::render_color(&app);
    assert_eq!(cells.len(), 18);
    assert_eq!(cells[2], (Color::AnsiValue(206), true));
    assert_eq!(cells[3], (Color::AnsiValue(102), false));
    color::handle_0a(&mut app);
    assert_eq!(app.mode, Mode::Modal);
    assert_eq!(app.labels[1].color, Color::AnsiValue(206));
    app.modal_row = 0;
    app.modal_c();
    assert_eq!(app.color_column, 0);
    assert!(app.is_valid());
}

#[test]
fn editing_a_name() {
    let mut app = three_labels();
    app.modal_row = 1;
    app.modal_i();
    assert_eq!(app.mode, Mode::Name);
    assert_eq!(app.modal_column, 20 + 3 + 19);
    app.name_backspace();
    assert_eq!(app.labels[1].name, "on");
    assert_eq!(app.modal_column, 20 + 2 + 19);
    app.name_char('x');
    app.name_char('y');
    assert_eq!(app.labels[1].name, "onxy");
    assert_eq!(app.modal_column, 20 + 4 + 19);
    for _ in 0..30 {
        app.name_char('z');
    }
    assert_eq!(app.labels[1].name, format!("onxy{}", "z".repeat(16)));
    assert_eq!(app.labels[1].name.len(), 20);
    for _ in 0..30 {
        app.name_backspace();
    }
    assert_eq!(app.labels[1].name, "");
    assert_eq!(app.modal_column, 20 + 19);
    app.name_char('ä');
    assert_eq!(app.labels[1].name, "ä");
    app.name_esc();
    assert_eq!(app.mode, Mode::Modal);
    assert_eq!(names(&app), vec!["zero", "ä", "two"]);
    assert!(app.is_valid());
}

#[test]
fn the_command_line() {
    let mut app = plain(&["abcd"]);
    app.set_command_mode();
    assert!(app.is_command_mode());
    app.command_char('w');
    app.command_char('x');
    assert_eq!(app.command, "wx");
    assert_eq!(app.change, 0b0010_0000);
    assert_eq!(app.command_return(), Command::Nothing);
    assert_eq!(app.command, "wx");
    assert_eq!(app.mode, Mode::Command);
    app.command_backspace();
    assert_eq!(app.command, "w");
    assert_eq!(app.command_return(), Command::Write);
    assert_eq!(app.command, "");
    assert_eq!(app.mode, Mode::Normal);
    app.command_backspace();
    assert_eq!(app.command, "");
    for (text, request, mode) in [
        ("q", Command::Quit, Mode::Normal),
        ("quit", Command::Quit, Mode::Normal),
        ("write", Command::Write, Mode::Normal),
        ("d", Command::Debug, Mode::Normal),
        ("debug", Command::Debug, Mode::Normal),
        ("", Command::Nothing, Mode::Command),
        ("qq", Command::Nothing, Mode::Command),
    ] {
        app.set_command_mode();
        app.command = text.to_owned();
        assert_eq!(app.command_return(), request);
        assert_eq!(app.mode, mode);
    }
    app.set_command_mode();
    app.command = "half".to_owned();
    app.command_esc();
    assert_eq!(app.command, "");
    assert_eq!(app.mode, Mode::Normal);
}

#[test]
fn mode_tests_and_setters() {
    let mut app = plain(&["abcd"]);
    assert!(app.is_normal_mode());
    app.set_visual_mode();
    assert!(app.is_visual_mode() && !app.is_normal_mode());
    app.set_modal_mode();
    assert!(app.is_modal_mode());
    app.set_name_mode();
    assert!(app.is_name_mode());
    assert_eq!(app.modal_column, 20 + 6 + 19);
    app.set_command_mode();
    assert!(app.is_command_mode());
    app.set_normal_mode();
    assert!(app.is_normal_mode());
    app.normal_m();
    assert!(app.is_modal_mode());
    assert_eq!(app.change, 0b0001_1000);
    app.set_visual_mode();
    app.visual_m();
    assert!(app.is_modal_mode());
    assert_eq!(app.change, 0b0001_0000);
}

#[test]
fn label_type_is_plain_data() {
    let label = Label { name: "n".to_owned(), color: Color::Rgb { r: 1, g: 2, b: 3 }, is_active: true, is_visible: false };
    let copy = label.clone();
    assert_eq!(copy.name, "n");
    assert_eq!(copy.color, Color::Rgb { r: 1, g: 2, b: 3 });
}
