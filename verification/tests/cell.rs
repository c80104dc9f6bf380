use dupfind::cell::{fits_in_cell, hidden_in, is_hidden, next_scan, plain_text, shown_text, Scan};

const UNMEASURED: &str = "\u{1b}[\u{644}\u{627}\u{644}\u{627}";

#[test]
fn next_scan_follows_a_control_sequence() {
    assert_eq!(next_scan(Scan::Plain, 'a'), Scan::Plain);
    assert_eq!(next_scan(Scan::Plain, '['), Scan::Plain);
    assert_eq!(next_scan(Scan::Plain, '\u{1b}'), Scan::Escape);
    assert_eq!(next_scan(Scan::Escape, '['), Scan::Sequence);
    assert_eq!(next_scan(Scan::Escape, 'a'), Scan::Plain);
    assert_eq!(next_scan(Scan::Escape, '\u{1b}'), Scan::Plain);
    assert_eq!(next_scan(Scan::Sequence, '3'), Scan::Sequence);
    assert_eq!(next_scan(Scan::Sequence, '\u{1b}'), Scan::Sequence);
    assert_eq!(next_scan(Scan::Sequence, 'm'), Scan::Plain);
}

#[test]
fn is_hidden_counts_wide_characters_of_a_sequence() {
    assert!(is_hidden(Scan::Escape, '[', Some(1)));
    assert!(is_hidden(Scan::Sequence, '3', Some(1)));
    assert!(is_hidden(Scan::Sequence, 'm', Some(1)));
    assert!(is_hidden(Scan::Sequence, '\u{4e2d}', Some(2)));
    assert!(!is_hidden(Scan::Sequence, '\u{301}', Some(0)));
    assert!(!is_hidden(Scan::Sequence, '\u{7}', None));
    assert!(!is_hidden(Scan::Escape, 'a', Some(1)));
    assert!(!is_hidden(Scan::Plain, '[', Some(1)));
    assert!(!is_hidden(Scan::Plain, 'm', Some(1)));
}

#[test]
fn hidden_in_a_line_without_control_sequences_is_nothing() {
    assert_eq!(hidden_in(""), 0);
    assert_eq!(hidden_in("dir/a.txt"), 0);
    assert_eq!(hidden_in("[31m"), 0);
    assert_eq!(hidden_in("\u{1b}"), 0);
    assert_eq!(hidden_in("\u{1b}x[31m"), 0);
    assert_eq!(hidden_in("\u{1b}\u{1b}[31m"), 0);
}

#[test]
fn hidden_in_counts_the_characters_of_control_sequences() {
    assert_eq!(hidden_in("\u{1b}["), 1);
    assert_eq!(hidden_in("\u{1b}[m"), 2);
    assert_eq!(hidden_in("\u{1b}[31mred"), 4);
    assert_eq!(hidden_in("\u{1b}[31mred\u{1b}[0m"), 7);
    assert_eq!(hidden_in("\u{1b}[3\u{7}1"), 3);
    assert_eq!(hidden_in(UNMEASURED), 5);
}

#[test]
fn fits_in_cell_holds_of_plain_text_and_of_colour_sequences() {
    assert!(fits_in_cell(""));
    assert!(fits_in_cell("dir/a.txt"));
    assert!(fits_in_cell("two\nlines"));
    assert!(fits_in_cell("\u{1b}[31mred\u{1b}[0m"));
    assert!(fits_in_cell("\u{1b}[1m\u{e9}t\u{e9}\u{1b}[0m"));
    assert!(fits_in_cell("\u{644}\u{627}\u{644}\u{627}"));
}

#[test]
fn fits_in_cell_fails_where_a_line_hides_more_than_its_width() {
    assert!(!fits_in_cell(UNMEASURED));
    assert!(!fits_in_cell(&format!("first\n{UNMEASURED}\nlast")));
    assert!(!fits_in_cell(&format!("{UNMEASURED}\r\n")));
}

#[test]
fn plain_text_keeps_a_text_without_escape_characters() {
    assert_eq!(plain_text(""), "");
    assert_eq!(plain_text("dir/a.txt"), "dir/a.txt");
    assert_eq!(plain_text("two\nlines\t\u{e9}\u{1f600}"), "two\nlines\t\u{e9}\u{1f600}");
}

#[test]
fn plain_text_replaces_every_escape_character() {
    assert_eq!(plain_text("\u{1b}"), "\u{fffd}");
    assert_eq!(plain_text("\u{1b}[31mred\u{1b}[0m"), "\u{fffd}[31mred\u{fffd}[0m");
    assert_eq!(plain_text("a\u{1b}\u{1b}b\u{1b}"), "a\u{fffd}\u{fffd}b\u{fffd}");
    assert_eq!(plain_text("\u{e9}\u{1b}\u{20ac}"), "\u{e9}\u{fffd}\u{20ac}");
}

#[test]
fn shown_text_is_the_text_where_it_can_be_measured() {
    for text in ["", "dir/a.txt", "two\nlines", "\u{1b}", "\u{1b}[31mred\u{1b}[0m", "\u{1b}[1m\u{e9}\u{1b}[0m"] {
        assert_eq!(shown_text(text), text);
    }
}

#[test]
fn shown_text_is_without_escape_characters_where_it_cannot_be_measured() {
    assert_eq!(shown_text(UNMEASURED), "\u{fffd}[\u{644}\u{627}\u{644}\u{627}");
    assert_eq!(
        shown_text(&format!("\u{1b}[1mfirst\u{1b}[0m\n{UNMEASURED}")),
        "\u{fffd}[1mfirst\u{fffd}[0m\n\u{fffd}[\u{644}\u{627}\u{644}\u{627}"
    );
}
