use tan::app::Line;
use tan::text::{chars_of, classify};
use tan::wrap::{cut_rows, virtualize_line, wrap};

fn rows_of(text: &str, width: usize) -> Vec<Line> {
    virtualize_line((Vec::new(), 0, width), (0, text.to_owned())).0
}

fn texts(lines: &[Line]) -> Vec<String> {
    lines.iter().map(|l| l.text.clone()).collect()
}

#[test]
fn wrap_breaks_at_white_space() {
    let lines = rows_of("hello brave new world", 8);
    assert_eq!(texts(&lines), vec!["hello ", "brave ", "new ", "world"]);
    assert_eq!(lines[0].width, 6);
    assert_eq!(lines[1].width, 6);
    assert_eq!(lines[2].width, 4);
    assert_eq!(lines[3].width, 5);
    let lines = rows_of("hello brave new world", 11);
    assert_eq!(texts(&lines), vec!["hello brave", " new world"]);
}

#[test]
fn wrap_cuts_a_token_wider_than_the_viewport() {
    let lines = rows_of("a bb ccccccccccc dd", 10);
    assert_eq!(texts(&lines), vec!["a bb ", "cccccccccc", "c dd"]);
    assert_eq!(lines[0].is_virtual, false);
    assert_eq!(lines[1].is_virtual, true);
    assert_eq!(lines[2].is_virtual, true);
    for line in &lines {
        assert!(line.width <= 10);
    }
}

#[test]
fn wrap_keeps_the_content() {
    let sources = ["a bb ccccccccccc dd", "", "x", "   lead and trail   ", "no-space-at-all-in-here"];
    for source in sources {
        for width in 1..12 {
            let lines = rows_of(source, width);
            let joined: String = lines.iter().map(|l| l.text.as_str()).collect();
            assert_eq!(joined, source);
            assert!(lines.iter().all(|l| l.width <= width));
        }
    }
}

#[test]
fn wrap_splits_no_word_that_fits() {
    let source = "alpha beta gamma delta epsilon";
    for width in 7..20 {
        let lines = rows_of(source, width);
        for line in &lines {
            let ends_in_word = line.text.chars().last().map(|c| !c.is_whitespace()).unwrap_or(false);
            let end = line.virtual_offset + line.width;
            let next_in_word = source.chars().nth(end).map(|c| !c.is_whitespace()).unwrap_or(false);
            assert!(!(ends_in_word && next_in_word), "width {} row {:?}", width, line.text);
        }
    }
}

#[test]
fn wrap_keeps_a_row_that_ends_with_its_word() {
    let lines = rows_of("aaa bbb ccc", 7);
    assert_eq!(texts(&lines), vec!["aaa bbb", " ccc"]);
}

#[test]
fn wrap_gives_an_empty_line_one_row() {
    let lines = rows_of("", 10);
    assert_eq!(lines.len(), 1);
    assert_eq!(lines[0].width, 0);
    assert_eq!(lines[0].text, "");
    assert_eq!(lines[0].is_virtual, false);
    assert!(lines[0].tags.is_empty());
}

#[test]
fn wrap_counts_characters_not_bytes() {
    let lines = rows_of("äöü ßßß", 4);
    assert_eq!(texts(&lines), vec!["äöü ", "ßßß"]);
    assert_eq!(lines[0].width, 4);
    assert_eq!(lines[1].width, 3);
    assert_eq!(lines[1].virtual_offset, 4);
}

#[test]
fn virtualize_line_accumulates_offsets() {
    let acc = virtualize_line((Vec::new(), 0, 5), (0, "aaaa bbbb".to_owned()));
    assert_eq!(acc.1, 10);
    assert_eq!(acc.2, 5);
    let acc = virtualize_line(acc, (1, "cc".to_owned()));
    assert_eq!(acc.1, 13);
    let lines = acc.0;
    assert_eq!(lines.len(), 3);
    assert_eq!((lines[0].absolute_offset, lines[0].width), (0, 5));
    assert_eq!((lines[1].absolute_offset, lines[1].width), (5, 4));
    assert_eq!((lines[2].absolute_offset, lines[2].width), (10, 2));
    assert_eq!(lines[1].virtual_offset, 5);
    assert_eq!(lines[2].virtual_offset, 0);
    assert_eq!(lines[0].absolute_row, 0);
    assert_eq!(lines[1].absolute_row, 0);
    assert_eq!(lines[2].absolute_row, 1);
    assert_eq!(lines[0].virtual_row, 0);
    assert_eq!(lines[1].virtual_row, 1);
    assert_eq!(lines[2].virtual_row, 2);
    assert_eq!(lines[2].is_virtual, false);
}

#[test]
fn wrap_takes_a_whole_document() {
    let source = vec!["one two".to_owned(), String::new(), "three".to_owned()];
    let lines = wrap(&source, 4);
    let got: Vec<(String, usize, bool)> =
        lines.iter().map(|l| (l.text.clone(), l.absolute_offset, l.is_virtual)).collect();
    assert_eq!(
        got,
        vec![
            ("one ".to_owned(), 0, false),
            ("two".to_owned(), 4, true),
            (String::new(), 8, false),
            ("thre".to_owned(), 9, false),
            ("e".to_owned(), 13, true),
        ]
    );
    for (i, line) in lines.iter().enumerate() {
        assert_eq!(line.virtual_row, i);
    }
}

fn flags(text: &str) -> Vec<bool> {
    text.chars().map(|c| c.is_whitespace()).collect()
}

#[test]
fn cut_rows_from_the_blanks_of_a_line() {
    assert_eq!(cut_rows(&flags("a bb ccccccccccc dd"), 10), vec![(0, 5), (5, 15), (15, 19)]);
    assert_eq!(cut_rows(&flags("hello brave new world"), 8), vec![(0, 6), (6, 12), (12, 16), (16, 21)]);
    assert_eq!(cut_rows(&flags("aaa bbb ccc"), 7), vec![(0, 7), (7, 11)]);
    assert_eq!(cut_rows(&flags(""), 3), vec![(0, 0)]);
    assert_eq!(cut_rows(&vec![false, false, false], 1), vec![(0, 1), (1, 2), (2, 3)]);
    assert_eq!(cut_rows(&vec![true, true, true, true], 3), vec![(0, 3), (3, 4)]);
}

#[test]
fn classify_says_which_characters_are_white_space() {
    let chars: Vec<char> = "a b\tc\u{a0}d".chars().collect();
    assert_eq!(classify(&chars), vec![false, true, false, true, false, true, false]);
    assert_eq!(chars_of("a b"), vec!['a', ' ', 'b']);
}

#[test]
fn offsets_stop_at_the_largest_number() {
    let acc = virtualize_line((Vec::new(), usize::MAX - 1, 5), (0, "abcdefgh".to_owned()));
    assert_eq!(acc.1, usize::MAX);
    let lines = acc.0;
    assert_eq!(texts(&lines), vec!["abcde", "fgh"]);
    assert_eq!(lines[0].absolute_offset, usize::MAX - 1);
    assert_eq!(lines[1].absolute_offset, usize::MAX);
    assert_eq!(lines[1].virtual_offset, 5);
}
