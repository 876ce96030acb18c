//! The text of the report: decimal numbers, centred cells, the judge table
//! of an instance and the headers between the parts. The same blocks always
//! give the same text.

use crate::report::RoundRow;
use vstd::prelude::*;

verus! {

/// The width of a header.
pub const HEADER_WIDTH: usize = 40;

/// The numeral of one decimal digit.
pub open spec fn digit(d: int) -> Seq<char> {
    if d == 0 {
        "0"@
    } else if d == 1 {
        "1"@
    } else if d == 2 {
        "2"@
    } else if d == 3 {
        "3"@
    } else if d == 4 {
        "4"@
    } else if d == 5 {
        "5"@
    } else if d == 6 {
        "6"@
    } else if d == 7 {
        "7"@
    } else if d == 8 {
        "8"@
    } else {
        "9"@
    }
}

/// The decimal numeral of `n`, without leading zeros.
pub open spec fn decimal(n: nat) -> Seq<char>
    decreases n,
{
    if n < 10 {
        digit(n as int)
    } else {
        decimal(n / 10) + digit((n % 10) as int)
    }
}

/// `n` spaces.
pub open spec fn spaces(n: nat) -> Seq<char> {
    Seq::new(n, |i: int| ' ')
}

/// `text` centred in a field of `width` characters: the padding is split in
/// two, the odd space goes to the right, and a text that fills the field or
/// is wider stays as it is.
pub open spec fn centered(text: Seq<char>, width: nat) -> Seq<char> {
    if text.len() >= width {
        text
    } else {
        let pad = (width - text.len()) as nat;
        spaces(pad / 2) + text + spaces((pad - pad / 2) as nat)
    }
}

/// What a cell shows for a score: its numeral, or that it is not available.
pub open spec fn cell(score: Option<u32>) -> Seq<char> {
    match score {
        Some(s) => decimal(s as nat),
        None => "N/A"@,
    }
}

/// The line of one judge round: the round number, the diff score and the
/// thread score, each centred in its column.
pub open spec fn row_line(row: RoundRow) -> Seq<char> {
    "|"@ + centered(decimal(row.round as nat), 7) + "│"@ + centered(cell(row.diff), 6) + "│"@
        + centered(cell(row.thread), 8) + "│"@
}

/// Line `i` of an instance's judge table: three lines of heading, one line
/// per round, and the closing line.
pub open spec fn table_line(rows: Seq<RoundRow>, i: int) -> Seq<char> {
    if i == 0 {
        "┌───────┬──────┬────────┐"@
    } else if i == 1 {
        "│ Judge │ Diff │ Thread │"@
    } else if i == 2 {
        "├───────┼──────┼────────┤"@
    } else if i < rows.len() + 3 {
        row_line(rows[i - 3])
    } else {
        "└───────┴──────┴────────┘"@
    }
}

/// A header: a rule, the title centred, a rule, with an empty line before
/// and after.
pub open spec fn header(title: Seq<char>) -> Seq<char> {
    "\n========================================\n"@ + centered(title, HEADER_WIDTH as nat)
        + "\n========================================\n\n"@
}

fn digit_text(d: u64) -> (text: &'static str)
    requires
        d < 10,
    ensures
        text@ == digit(d as int),
{
    if d == 0 {
        "0"
    } else if d == 1 {
        "1"
    } else if d == 2 {
        "2"
    } else if d == 3 {
        "3"
    } else if d == 4 {
        "4"
    } else if d == 5 {
        "5"
    } else if d == 6 {
        "6"
    } else if d == 7 {
        "7"
    } else if d == 8 {
        "8"
    } else {
        "9"
    }
}

/// The decimal numeral of `n`.
pub fn decimal_text(n: u64) -> (text: String)
    ensures
        text@ == decimal(n as nat),
    decreases n,
{
    if n < 10 {
        let mut text = String::new();
        text.append(digit_text(n));
        assert(text@ =~= digit(n as int));
        text
    } else {
        let mut text = decimal_text(n / 10);
        text.append(digit_text(n % 10));
        text
    }
}

/// A text of `n` spaces.
pub fn spaces_text(n: usize) -> (text: String)
    ensures
        text@ == spaces(n as nat),
{
    let mut text = String::new();
    let mut i: usize = 0;
    assert(text@ =~= spaces(0));
    while i < n
        invariant
            i <= n,
            text@ == spaces(i as nat),
        decreases n - i,
    {
        text.append(" ");
        proof {
            reveal_strlit(" ");
            assert(text@ =~= spaces((i + 1) as nat));
        }
        i += 1;
    }
    text
}

/// Centres `text` in a field of `width` characters.
pub fn centered_text(text: &str, width: usize) -> (out: String)
    ensures
        out@ == centered(text@, width as nat),
{
    let len = text.unicode_len();
    if len >= width {
        let mut out = String::new();
        out.append(text);
        assert(out@ =~= text@);
        out
    } else {
        let pad = width - len;
        let left = pad / 2;
        let mut out = spaces_text(left);
        out.append(text);
        let right = spaces_text(pad - left);
        out.append(right.as_str());
        out
    }
}

/// The text of a score cell.
pub fn cell_text(score: Option<u32>) -> (text: String)
    ensures
        text@ == cell(score),
{
    match score {
        Some(s) => decimal_text(s as u64),
        None => {
            let mut text = String::new();
            text.append("N/A");
            assert(text@ =~= "N/A"@);
            text
        },
    }
}

/// The line of one judge round.
pub fn row_text(row: &RoundRow) -> (line: String)
    ensures
        line@ == row_line(*row),
{
    let round = decimal_text(row.round as u64);
    let diff = cell_text(row.diff);
    let thread = cell_text(row.thread);
    let round_cell = centered_text(round.as_str(), 7);
    let diff_cell = centered_text(diff.as_str(), 6);
    let thread_cell = centered_text(thread.as_str(), 8);
    let mut line = String::new();
    line.append("|");
    assert(line@ =~= "|"@);
    line.append(round_cell.as_str());
    line.append("│");
    line.append(diff_cell.as_str());
    line.append("│");
    line.append(thread_cell.as_str());
    line.append("│");
    line
}

/// The judge table of an instance, line by line.
pub fn table_lines(rows: &Vec<RoundRow>) -> (lines: Vec<String>)
    ensures
        lines@.len() == rows@.len() + 4,
        forall|i: int| 0 <= i < lines@.len() ==> (#[trigger] lines@[i])@ == table_line(rows@, i),
{
    let mut lines: Vec<String> = Vec::new();
    lines.push("┌───────┬──────┬────────┐".to_owned());
    lines.push("│ Judge │ Diff │ Thread │".to_owned());
    lines.push("├───────┼──────┼────────┤".to_owned());
    let mut k: usize = 0;
    while k < rows.len()
        invariant
            k <= rows.len(),
            lines@.len() == k + 3,
            forall|i: int| 0 <= i < lines@.len() ==> (#[trigger] lines@[i])@ == table_line(rows@, i),
        decreases rows.len() - k,
    {
        let line = row_text(&rows[k]);
        lines.push(line);
        k += 1;
    }
    lines.push("└───────┴──────┴────────┘".to_owned());
    lines
}

/// The header above a part of the report.
pub fn header_text(title: &str) -> (text: String)
    ensures
        text@ == header(title@),
{
    let middle = centered_text(title, HEADER_WIDTH);
    let mut text = String::new();
    text.append("\n========================================\n");
    assert(text@ =~= "\n========================================\n"@);
    text.append(middle.as_str());
    text.append("\n========================================\n\n");
    text
}

/// The line that counts the failed runs.
pub open spec fn failures_line(error_count: nat) -> Seq<char> {
    "\n"@ + decimal(error_count) + " examples failed to run!"@
}

/// The line that counts the failed runs; none when no run failed.
pub fn failures_text(error_count: usize) -> (text: Option<String>)
    ensures
        match text {
            Some(line) => error_count > 0 && line@ == failures_line(error_count as nat),
            None => error_count == 0,
        },
{
    if error_count == 0 {
        None
    } else {
        let count = decimal_text(error_count as u64);
        let mut line = String::new();
        line.append("\n");
        assert(line@ =~= "\n"@);
        line.append(count.as_str());
        line.append(" examples failed to run!");
        Some(line)
    }
}

} // verus!
