use text_panel::cursor::{Cursor, CursorPosition};
use text_panel::document::{Document, LogicalLine, TextError};
use text_panel::panel::Panel;
use text_panel::measure::{AdvanceMeasurer, TextMeasurer, UniformMeasurer};
use text_panel::wrap::{wrap, Span};

fn unmeasurable() -> AdvanceMeasurer {
    AdvanceMeasurer { size: 75, advances: Vec::new() }
}

fn spans(pairs: &[(usize, usize)]) -> Vec<Span> {
    pairs.iter().map(|&(start, end)| Span { start, end }).collect()
}

fn panel_with_line(text: &str) -> Panel {
    let mut panel = Panel::new();
    panel.add_text(text).unwrap();
    panel
}

#[test]
fn fresh_document_has_one_empty_line() {
    let doc = Document::new();
    assert_eq!(doc.lines.len(), 1);
    assert_eq!(doc.lines[0].text, "");
    assert_eq!(doc.path, "test.txt");
}

#[test]
fn fresh_panel_has_one_empty_line_and_cursor_at_origin() {
    let panel = Panel::new();
    assert_eq!(panel.document.lines.len(), 1);
    assert_eq!(panel.document.lines[0].text, "");
    assert_eq!(panel.cursor.position, CursorPosition { line_num: 0, col_num: 0 });
    assert_eq!(panel.size, (500, 500));
    assert_eq!(panel.position, (0, 0));
}

#[test]
fn cursor_starts_at_origin() {
    let cursor = Cursor::new();
    assert_eq!(cursor.position.line_num, 0);
    assert_eq!(cursor.position.col_num, 0);
    assert_eq!(CursorPosition::new(), CursorPosition { line_num: 0, col_num: 0 });
}

#[test]
fn logical_line_starts_empty() {
    assert_eq!(LogicalLine::new().text, "");
}

#[test]
fn line_at_in_and_out_of_range() {
    let doc = Document::new();
    assert_eq!(doc.line_at(0).unwrap().text, "");
    assert_eq!(doc.line_at(1).err(), Some(TextError::OutOfRange));
}

#[test]
fn uniform_measurer_counts_chars() {
    let m = UniformMeasurer { char_width: 7 };
    assert_eq!(m.measure("héllo", 75), Some(35));
    assert_eq!(m.measure("", 75), Some(0));
    let wide = UniformMeasurer { char_width: u64::MAX };
    assert_eq!(wide.measure("a", 75), Some(u64::MAX));
    assert_eq!(wide.measure("ab", 75), None);
}

#[test]
fn wrap_keeps_overflowing_char_on_its_line() {
    let m = UniformMeasurer { char_width: 1 };
    assert_eq!(wrap("abcde", 3, 75, &m), spans(&[(0, 4), (4, 5)]));
}

#[test]
fn wrap_empty_line_gives_one_empty_span() {
    let m = UniformMeasurer { char_width: 1 };
    assert_eq!(wrap("", 3, 75, &m), spans(&[(0, 0)]));
    assert_eq!(wrap("", 0, 75, &unmeasurable()), spans(&[(0, 0)]));
}

#[test]
fn wrap_spans_rejoin_to_text() {
    let m = UniformMeasurer { char_width: 2 };
    let text = "the quick brown fox jumps";
    let chars: Vec<char> = text.chars().collect();
    let result = wrap(text, 9, 75, &m);
    assert!(result.len() > 1);
    let mut joined = String::new();
    let mut expected_start = 0;
    for span in &result {
        assert_eq!(span.start, expected_start);
        assert!(span.start < span.end);
        joined.extend(&chars[span.start..span.end]);
        expected_start = span.end;
    }
    assert_eq!(expected_start, chars.len());
    assert_eq!(joined, text);
}

#[test]
fn wrap_twice_gives_same_spans() {
    let m = UniformMeasurer { char_width: 3 };
    let text = "lorem ipsum dolor sit amet";
    assert_eq!(wrap(text, 20, 75, &m), wrap(text, 20, 75, &m));
}

#[test]
fn wrap_without_measurements_keeps_one_line() {
    assert_eq!(wrap("abcdef", 0, 75, &unmeasurable()), spans(&[(0, 6)]));
}

#[test]
fn wrap_takes_one_char_when_first_is_too_wide() {
    let m = UniformMeasurer { char_width: 10 };
    assert_eq!(wrap("abc", 5, 75, &m), spans(&[(0, 1), (1, 2), (2, 3)]));
    let huge = UniformMeasurer { char_width: u64::MAX };
    assert_eq!(wrap("abc", 5, 75, &huge), spans(&[(0, 1), (1, 2), (2, 3)]));
}

#[test]
fn wrap_exact_fit_does_not_break() {
    let m = UniformMeasurer { char_width: 1 };
    assert_eq!(wrap("abc", 3, 75, &m), spans(&[(0, 3)]));
    assert_eq!(wrap("abcdefghij", 3, 75, &m), spans(&[(0, 4), (4, 8), (8, 10)]));
}

#[test]
fn wrap_offsets_count_chars_not_bytes() {
    let m = UniformMeasurer { char_width: 1 };
    assert_eq!(wrap("héllo", 1, 75, &m), spans(&[(0, 2), (2, 4), (4, 5)]));
    let line = LogicalLine { text: String::from("héllo") };
    assert_eq!(line.get_physical_lines(&m, 75, 1), vec!["hé", "ll", "o"]);
}

#[test]
fn remove_more_than_available_empties_line() {
    let mut panel = panel_with_line("ab");
    assert_eq!(panel.remove_text(5), Ok(()));
    assert_eq!(panel.document.lines[0].text, "");
    assert_eq!(panel.remove_text(1), Ok(()));
    assert_eq!(panel.document.lines[0].text, "");
}

#[test]
fn remove_drops_trailing_chars() {
    let mut panel = panel_with_line("añb");
    assert_eq!(panel.remove_text(1), Ok(()));
    assert_eq!(panel.document.lines[0].text, "añ");
    assert_eq!(panel.remove_text(0), Ok(()));
    assert_eq!(panel.document.lines[0].text, "añ");
    assert_eq!(panel.remove_text(1), Ok(()));
    assert_eq!(panel.document.lines[0].text, "a");
}

#[test]
fn add_text_appends_at_cursor_line() {
    let mut panel = Panel::new();
    panel.document.lines.push(LogicalLine { text: String::from("second") });
    assert_eq!(panel.add_text("hi"), Ok(()));
    assert_eq!(panel.add_text("!"), Ok(()));
    assert_eq!(panel.document.lines[0].text, "hi!");
    assert_eq!(panel.document.lines[1].text, "second");
    panel.cursor.position.line_num = 1;
    assert_eq!(panel.add_text("?"), Ok(()));
    assert_eq!(panel.document.lines[0].text, "hi!");
    assert_eq!(panel.document.lines[1].text, "second?");
}

#[test]
fn out_of_range_cursor_is_refused() {
    let mut panel = panel_with_line("keep");
    panel.cursor.position.line_num = 1;
    assert_eq!(panel.add_text("x"), Err(TextError::OutOfRange));
    assert_eq!(panel.remove_text(1), Err(TextError::OutOfRange));
    assert_eq!(panel.document.lines.len(), 1);
    assert_eq!(panel.document.lines[0].text, "keep");
}

#[test]
fn render_lists_physical_lines_in_order() {
    let mut panel = panel_with_line("abcde");
    panel.document.lines.push(LogicalLine::new());
    panel.document.lines.push(LogicalLine { text: String::from("xy") });
    let m = UniformMeasurer { char_width: 1 };
    assert_eq!(
        panel.get_physical_lines_for_render(&m, 3, 75),
        vec!["abcd", "e", "", "xy"]
    );
}

#[test]
fn advance_measurer_adds_advances() {
    let m = AdvanceMeasurer { size: 75, advances: vec![('a', 3), ('b', 5), ('a', 100)] };
    assert_eq!(m.advance('a'), Some(3));
    assert_eq!(m.advance('c'), None);
    assert_eq!(m.measure("abba", 75), Some(16));
    assert_eq!(m.measure("", 75), Some(0));
    assert_eq!(m.measure("abc", 75), None);
    assert_eq!(m.measure("ab", 12), None);
    let huge = AdvanceMeasurer { size: 75, advances: vec![('x', u64::MAX)] };
    assert_eq!(huge.measure("x", 75), Some(u64::MAX));
    assert_eq!(huge.measure("xx", 75), None);
}

#[test]
fn wrap_with_advances_breaks_after_overflow() {
    let m = AdvanceMeasurer { size: 75, advances: vec![('i', 1), ('m', 4), (' ', 2)] };
    // "mi" = 5, "mi m" = 11 > 8 keeps the second 'm'; "iii" = 3 fits.
    assert_eq!(wrap("mi miii", 8, 75, &m), spans(&[(0, 4), (4, 7)]));
    // A character without an advance never breaks the line.
    assert_eq!(wrap("mmzmm", 4, 75, &m), spans(&[(0, 2), (2, 5)]));
}
