//! What a cell of the table shows of a text. The table printer measures every
//! line of a cell, and gives up on a line in which it counts more hidden
//! characters than the line is wide; such a text is shown without its escape
//! characters, and every other text as it is.

use unicode_width::{UnicodeWidthChar, UnicodeWidthStr};
use vstd::prelude::*;
use vstd::string::*;

verus! {

/// The width of a line in columns, as `unicode-width` gives it for a string.
pub uninterp spec fn line_width(line: Seq<char>) -> nat;

/// The width of a character in columns, as `unicode-width` gives it for a
/// character: none for a control character.
pub uninterp spec fn char_width(c: char) -> Option<nat>;

/// The lines of a text, as `str::lines` gives them.
pub uninterp spec fn text_lines(text: Seq<char>) -> Seq<Seq<char>>;

/// Measures a line with `UnicodeWidthStr::width`. The contract only names the
/// width; it is the same for the same line.
#[verifier::external_body]
fn width_of_line(line: &str) -> (width: usize)
    ensures
        width == line_width(line@),
{
    UnicodeWidthStr::width(line)
}

/// Measures a character with `UnicodeWidthChar::width`. The contract only
/// names the width; it is the same for the same character.
#[verifier::external_body]
fn width_of_char(c: char) -> (width: Option<usize>)
    ensures
        width matches Some(columns) ==> char_width(c) == Some(columns as nat),
        width is None ==> char_width(c) is None,
{
    UnicodeWidthChar::width(c)
}

/// Splits a text with `str::lines` and hands out each line as a string of
/// its own. The contract names the lines, and claims of them what the
/// documentation says of a line: it is a slice of the text, so that it holds
/// no character that the text does not hold.
#[verifier::external_body]
fn lines_of(text: &str) -> (lines: Vec<String>)
    ensures
        lines.deep_view() == text_lines(text@),
        forall|i: int, k: int|
            0 <= i < lines@.len() && 0 <= k < lines@[i]@.len() ==> text@.contains(
                #[trigger] lines@[i]@[k],
            ),
{
    text.lines().map(|line| line.to_string()).collect()
}

/// Where the measuring of a line stands behind a character: outside of any
/// control sequence, just behind an escape character, or within the control
/// sequence that an escape character and an opening bracket began.
#[derive(Clone, Copy, Debug, PartialEq, Eq, Structural)]
pub enum Scan {
    Plain,
    Escape,
    Sequence,
}

/// Where the measuring stands behind `c`, when it stood at `state` before it.
/// A control sequence begins with an opening bracket just behind an escape
/// character, and ends with the first `m`.
pub open spec fn scan_step(state: Scan, c: char) -> Scan {
    match state {
        Scan::Plain => if c == '\u{1b}' {
            Scan::Escape
        } else {
            Scan::Plain
        },
        Scan::Escape => if c == '[' {
            Scan::Sequence
        } else {
            Scan::Plain
        },
        Scan::Sequence => if c == 'm' {
            Scan::Plain
        } else {
            Scan::Sequence
        },
    }
}

/// Whether `c` belongs to a control sequence, when the measuring stood at
/// `state` before it: the opening bracket and all that follows it, up to and
/// with the closing `m`.
pub open spec fn in_sequence(state: Scan, c: char) -> bool {
    state == Scan::Sequence || (state == Scan::Escape && c == '[')
}

/// Whether a width is one or more columns.
pub open spec fn is_wide(width: Option<nat>) -> bool {
    width matches Some(columns) && columns > 0
}

/// Where the measuring stands at the end of a line.
pub open spec fn scan_of(line: Seq<char>) -> Scan
    decreases line.len(),
{
    if line.len() == 0 {
        Scan::Plain
    } else {
        scan_step(scan_of(line.drop_last()), line.last())
    }
}

/// The number of hidden characters of a line: those of its control sequences
/// that a width of their own is given to.
pub open spec fn hidden(line: Seq<char>) -> nat
    decreases line.len(),
{
    if line.len() == 0 {
        0
    } else if in_sequence(scan_of(line.drop_last()), line.last()) && is_wide(
        char_width(line.last()),
    ) {
        hidden(line.drop_last()) + 1
    } else {
        hidden(line.drop_last())
    }
}

/// Whether a line can be measured: it is at least as wide as it has hidden
/// characters.
pub open spec fn line_fits(line: Seq<char>) -> bool {
    line_width(line) >= hidden(line)
}

/// Whether a text can stand in a cell as it is: each of its lines can be
/// measured.
pub open spec fn fits_cell(text: Seq<char>) -> bool {
    forall|i: int| 0 <= i < text_lines(text).len() ==> line_fits(#[trigger] text_lines(text)[i])
}

/// Whether a text holds no escape character.
pub open spec fn is_plain(text: Seq<char>) -> bool {
    forall|i: int| 0 <= i < text.len() ==> text[i] != '\u{1b}'
}

/// The character that stands for `c` in a text without escape characters:
/// the replacement character for the escape character, and `c` itself for
/// every other.
pub open spec fn plain_char(c: char) -> char {
    if c == '\u{1b}' {
        '\u{fffd}'
    } else {
        c
    }
}

/// A text without its escape characters: character by character, with the
/// replacement character in place of every escape character.
pub open spec fn plain(text: Seq<char>) -> Seq<char> {
    text.map_values(|c: char| plain_char(c))
}

/// What a cell shows of a text: the text as it is, where it can stand in a
/// cell, and else the text without its escape characters.
pub open spec fn shown(text: Seq<char>) -> Seq<char> {
    if fits_cell(text) {
        text
    } else {
        plain(text)
    }
}

/// A line without escape characters has no hidden characters.
pub proof fn lemma_plain_line_hides_nothing(line: Seq<char>)
    requires
        is_plain(line),
    ensures
        scan_of(line) == Scan::Plain,
        hidden(line) == 0,
    decreases line.len(),
{
    if line.len() > 0 {
        lemma_plain_line_hides_nothing(line.drop_last());
    }
}

/// A text without escape characters is shown as it is.
pub proof fn lemma_plain_text_is_shown(text: Seq<char>)
    requires
        is_plain(text),
    ensures
        shown(text) == text,
{
    assert(plain(text) =~= text);
}

/// Where the measuring stands behind `c`.
pub fn next_scan(state: Scan, c: char) -> (next: Scan)
    ensures
        next == scan_step(state, c),
{
    match state {
        Scan::Plain => if c == '\u{1b}' {
            Scan::Escape
        } else {
            Scan::Plain
        },
        Scan::Escape => if c == '[' {
            Scan::Sequence
        } else {
            Scan::Plain
        },
        Scan::Sequence => if c == 'm' {
            Scan::Plain
        } else {
            Scan::Sequence
        },
    }
}

/// Whether `c`, of the width given, counts as a hidden character when the
/// measuring stood at `state` before it.
pub fn is_hidden(state: Scan, c: char, width: Option<usize>) -> (counts: bool)
    ensures
        counts == (in_sequence(state, c) && match width {
            Some(columns) => columns > 0,
            None => false,
        }),
{
    let within = match state {
        Scan::Plain => false,
        Scan::Escape => c == '[',
        Scan::Sequence => true,
    };
    within && match width {
        Some(columns) => columns > 0,
        None => false,
    }
}

/// Counts the hidden characters of a line.
pub fn hidden_in(line: &str) -> (count: usize)
    ensures
        count == hidden(line@),
{
    broadcast use vstd::string::group_string_axioms;

    let length: usize = line.unicode_len();
    let mut state = Scan::Plain;
    let mut count: usize = 0;
    let mut at: usize = 0;
    let chars = line.chars();
    for c in walk: chars
        invariant
            walk.seq() == line@,
            length == line@.len(),
            at == walk.index(),
            count <= at <= length,
            state == scan_of(line@.take(at as int)),
            count == hidden(line@.take(at as int)),
    {
        proof {
            assert(line@.take(at + 1).drop_last() =~= line@.take(at as int));
        }
        if is_hidden(state, c, width_of_char(c)) {
            count += 1;
        }
        state = next_scan(state, c);
        at += 1;
    }
    proof {
        assert(line@.take(at as int) =~= line@);
    }
    count
}

/// Whether a text can stand in a cell as it is.
pub fn fits_in_cell(text: &str) -> (fits: bool)
    ensures
        fits == fits_cell(text@),
{
    let lines = lines_of(text);
    let mut i: usize = 0;
    while i < lines.len()
        invariant
            i <= lines@.len(),
            lines.deep_view() == text_lines(text@),
            forall|k: int| 0 <= k < i ==> line_fits(#[trigger] text_lines(text@)[k]),
        decreases lines@.len() - i,
    {
        let line = lines[i].as_str();
        proof {
            assert(line@ == lines.deep_view()[i as int]);
        }
        if width_of_line(line) < hidden_in(line) {
            return false;
        }
        i += 1;
    }
    true
}

/// A text without its escape characters.
pub fn plain_text(text: &str) -> (cell: String)
    ensures
        cell@ == plain(text@),
        is_plain(cell@),
{
    broadcast use vstd::string::group_string_axioms;

    let length: usize = text.unicode_len();
    let mut cell = String::new();
    let mut start: usize = 0;
    let mut at: usize = 0;
    let chars = text.chars();
    for c in walk: chars
        invariant
            walk.seq() == text@,
            length == text@.len(),
            at == walk.index(),
            start <= at <= length,
            cell@ == plain(text@.take(start as int)),
            forall|k: int| start <= k < at ==> text@[k] != '\u{1b}',
    {
        if c == '\u{1b}' {
            cell.append(text.substring_char(start, at));
            cell.append("\u{fffd}");
            proof {
                reveal_strlit("\u{fffd}");
                assert(cell@ =~= plain(text@.take(at + 1)));
            }
            start = at + 1;
        }
        at += 1;
    }
    cell.append(text.substring_char(start, at));
    proof {
        assert(cell@ =~= plain(text@));
    }
    cell
}

/// What a cell shows of a text: the text as it is, where the table printer
/// can measure it, and else the text without its escape characters, which it
/// can always measure.
pub fn shown_text(text: &str) -> (cell: String)
    ensures
        cell@ == shown(text@),
        fits_cell(cell@),
{
    if fits_in_cell(text) {
        text.to_owned()
    } else {
        let cell = plain_text(text);
        // The lines of a text are made of its characters: none of them
        // holds an escape character, and so none hides anything.
        let lines = lines_of(cell.as_str());
        proof {
            assert forall|i: int| 0 <= i < text_lines(cell@).len() implies line_fits(
                #[trigger] text_lines(cell@)[i],
            ) by {
                let line = text_lines(cell@)[i];
                assert(line == lines.deep_view()[i]);
                assert forall|k: int| 0 <= k < line.len() implies line[k] != '\u{1b}' by {
                    assert(line[k] == lines@[i]@[k]);
                    assert(cell@.contains(lines@[i]@[k]));
                }
                lemma_plain_line_hides_nothing(line);
            }
        }
        cell
    }
}

} // verus!
