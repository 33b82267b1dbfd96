//! The text of a frame: numbers in decimal, cells of fixed width, and the
//! lines of the status panel and of the table.
use vstd::prelude::*;
use vstd::string::*;
use crate::control::SortBy;
use crate::request::views;
use crate::screen::Frame;
use crate::table::{Row, RowView, StatusCount};
use crate::text::{all_digits, decimal_of, digit_value, digits_value, is_digit};

verus! {

/// Width of the count column.
pub const COUNT_WIDTH: usize = 7;

/// Width of the address column.
pub const IP_WIDTH: usize = 16;

/// Width of the status column.
pub const STATUS_WIDTH: usize = 9;

/// Width of the path column, and the longest path shown in full.
pub const PATH_WIDTH: usize = 36;

/// How much of a longer path is shown before the ellipsis.
pub const PATH_KEPT: usize = 33;

/// Width of the user-agent column.
pub const USER_AGENT_WIDTH: usize = 64;

/// The longest user agent shown in full.
pub const USER_AGENT_LIMIT: usize = 65;

/// How much of a longer user agent is shown before the ellipsis.
pub const USER_AGENT_KEPT: usize = 64;

/// The character of a digit.
pub open spec fn digit_char(d: nat) -> char {
    seq!['0', '1', '2', '3', '4', '5', '6', '7', '8', '9'][d as int]
}

/// A number in decimal, without sign or leading zeros.
pub open spec fn decimal_text(n: nat) -> Seq<char>
    decreases n,
{
    if n < 10 {
        seq![digit_char(n)]
    } else {
        decimal_text(n / 10).push(digit_char(n % 10))
    }
}

/// A run of `n` spaces.
pub open spec fn spaces(n: nat) -> Seq<char> {
    Seq::new(n, |i: int| ' ')
}

/// The text filled up with spaces on the right to `width` characters; a
/// text that is as long or longer stays as it is.
pub open spec fn padded(text: Seq<char>, width: nat) -> Seq<char> {
    if text.len() < width {
        text + spaces((width - text.len()) as nat)
    } else {
        text
    }
}

/// The text as it is if it has no more than `limit` characters; else its
/// first `kept` characters and an ellipsis of three dots.
pub open spec fn clipped(text: Seq<char>, limit: nat, kept: nat) -> Seq<char> {
    if text.len() > limit {
        text.take(kept as int) + seq!['.', '.', '.']
    } else {
        text
    }
}

/// The name under which the heading shows a sort column.
pub open spec fn label_of(by: SortBy) -> Seq<char> {
    match by {
        SortBy::Count => "Count"@,
        SortBy::Path => "Path"@,
        SortBy::StatusCode => "Status Code"@,
        SortBy::IP => "IP Address"@,
        SortBy::UserAgent => "User Agent"@,
    }
}

/// The line above the table, which names the sort column and the keys.
pub open spec fn heading_of(by: SortBy) -> Seq<char> {
    "Top Requests (Sort: "@ + label_of(by)
        + ", Press s/p/c/i/u to change, +/- to adjust count, q to quit):"@
}

/// The line of a status code in the status panel.
pub open spec fn status_line_of(entry: (u16, nat)) -> Seq<char> {
    seq![' ', ' '] + decimal_text(entry.0 as nat) + seq![':', ' '] + decimal_text(entry.1)
}

/// The line of a row in the table: the count, the address, the status, the
/// path and the user agent, each in its column, two spaces between columns.
pub open spec fn row_line_of(row: RowView) -> Seq<char> {
    seq![' '] + padded(decimal_text(row.count), COUNT_WIDTH as nat) + spaces(2) + padded(
        row.ip,
        IP_WIDTH as nat,
    ) + spaces(2) + padded(decimal_text(row.status_code as nat), STATUS_WIDTH as nat) + spaces(2)
        + padded(clipped(row.path, PATH_WIDTH as nat, PATH_KEPT as nat), PATH_WIDTH as nat)
        + spaces(2) + padded(
        clipped(row.user_agent, USER_AGENT_LIMIT as nat, USER_AGENT_KEPT as nat),
        USER_AGENT_WIDTH as nat,
    )
}

/// The decimal text of a number holds digits only and spells the number.
pub proof fn lemma_decimal_text_digits(n: nat)
    ensures
        decimal_text(n).len() >= 1,
        all_digits(decimal_text(n)),
        digits_value(decimal_text(n)) == n,
    decreases n,
{
    let text = decimal_text(n);
    if n < 10 {
        assert(digits_value(text) == digits_value(text.drop_last()) * 10 + digit_value(
            text.last(),
        ));
    } else {
        lemma_decimal_text_digits(n / 10);
        assert(text.drop_last() =~= decimal_text(n / 10));
        assert(digits_value(text) == digits_value(text.drop_last()) * 10 + digit_value(
            text.last(),
        ));
        assert forall|i: int| 0 <= i < text.len() implies is_digit(#[trigger] text[i]) by {}
    }
}

/// Reading the decimal text of a number gives the number back.
pub proof fn lemma_decimal_round_trip(n: nat, max: nat)
    requires
        n <= max,
    ensures
        decimal_of(decimal_text(n), max) == Some(n),
{
    lemma_decimal_text_digits(n);
}

/// The text of one digit.
fn digit_str(d: u64) -> (text: &'static str)
    requires
        d < 10,
    ensures
        text@ == seq![digit_char(d as nat)],
{
    proof {
        reveal_strlit("0");
        reveal_strlit("1");
        reveal_strlit("2");
        reveal_strlit("3");
        reveal_strlit("4");
        reveal_strlit("5");
        reveal_strlit("6");
        reveal_strlit("7");
        reveal_strlit("8");
        reveal_strlit("9");
    }
    let text = if d == 0 {
        "0"
    } else if d == 1 {
        "1"
    } else if d == 2 {
        "2"
    } else if d == 3 {
        "3"
    } else if d == 4 {
        "4"
    } else if d == 5 {
        "5"
    } else if d == 6 {
        "6"
    } else if d == 7 {
        "7"
    } else if d == 8 {
        "8"
    } else {
        "9"
    };
    text
}

/// Writes a number in decimal.
pub fn decimal_string(n: u64) -> (text: String)
    ensures
        text@ == decimal_text(n as nat),
    decreases n,
{
    if n < 10 {
        digit_str(n).to_owned()
    } else {
        let mut text = decimal_string(n / 10);
        text.append(digit_str(n % 10));
        text
    }
}

/// Fills a text up with spaces on the right to `width` characters.
pub fn pad(text: String, width: usize) -> (cell: String)
    ensures
        cell@ == padded(text@, width as nat),
{
    let ghost given = text@;
    let mut cell = text;
    let mut n = cell.as_str().unicode_len();
    proof {
        reveal_strlit(" ");
    }
    if n >= width {
        return cell;
    }
    while n < width
        invariant
            " "@ == seq![' '],
            given.len() <= n <= width,
            cell@ == given + spaces((n - given.len()) as nat),
        decreases width - n,
    {
        cell.append(" ");
        n += 1;
    }
    cell
}

/// Cuts a text of more than `limit` characters down to its first `kept`
/// and an ellipsis.
pub fn clip(text: &str, limit: usize, kept: usize) -> (cell: String)
    requires
        kept <= limit,
    ensures
        cell@ == clipped(text@, limit as nat, kept as nat),
{
    if text.unicode_len() > limit {
        let mut cell = text.substring_char(0, kept).to_owned();
        proof {
            reveal_strlit("...");
        }
        cell.append("...");
        cell
    } else {
        text.to_owned()
    }
}

impl SortBy {
    /// The name under which the heading shows this column.
    pub fn label(&self) -> (name: &'static str)
        ensures
            name@ == label_of(*self),
    {
        match self {
            SortBy::Count => "Count",
            SortBy::Path => "Path",
            SortBy::StatusCode => "Status Code",
            SortBy::IP => "IP Address",
            SortBy::UserAgent => "User Agent",
        }
    }

    /// The line above the table.
    pub fn heading(&self) -> (line: String)
        ensures
            line@ == heading_of(*self),
    {
        let mut line = "Top Requests (Sort: ".to_owned();
        line.append(self.label());
        line.append(", Press s/p/c/i/u to change, +/- to adjust count, q to quit):");
        line
    }
}

impl StatusCount {
    /// The line of this status code in the status panel.
    pub fn line(&self) -> (line: String)
        ensures
            line@ == status_line_of(self@),
    {
        proof {
            reveal_strlit("  ");
            reveal_strlit(": ");
        }
        let mut line = "  ".to_owned();
        line.append(decimal_string(self.status_code as u64).as_str());
        line.append(": ");
        line.append(decimal_string(self.count).as_str());
        line
    }
}

impl Row {
    /// The line of this row in the table.
    pub fn line(&self) -> (line: String)
        ensures
            line@ == row_line_of(self@),
    {
        proof {
            reveal_strlit(" ");
            reveal_strlit("  ");
        }
        let count = pad(decimal_string(self.count), COUNT_WIDTH);
        let ip = pad(self.ip.clone(), IP_WIDTH);
        let status = pad(decimal_string(self.status_code as u64), STATUS_WIDTH);
        let path = pad(clip(self.path.as_str(), PATH_WIDTH, PATH_KEPT), PATH_WIDTH);
        let user_agent = pad(
            clip(self.user_agent.as_str(), USER_AGENT_LIMIT, USER_AGENT_KEPT),
            USER_AGENT_WIDTH,
        );
        let mut line = " ".to_owned();
        line.append(count.as_str());
        line.append("  ");
        line.append(ip.as_str());
        line.append("  ");
        line.append(status.as_str());
        line.append("  ");
        line.append(path.as_str());
        line.append("  ");
        line.append(user_agent.as_str());
        line
    }
}

/// The lines of a run of rows.
pub open spec fn row_lines_of(rows: Seq<RowView>) -> Seq<Seq<char>> {
    rows.map_values(|row: RowView| row_line_of(row))
}

/// The lines of a run of status counts.
pub open spec fn status_lines_of(entries: Seq<(u16, nat)>) -> Seq<Seq<char>> {
    entries.map_values(|entry: (u16, nat)| status_line_of(entry))
}

impl Frame {
    /// The lines of the status panel, one for each status code shown.
    pub fn status_lines(&self) -> (lines: Vec<String>)
        ensures
            views(lines@) == status_lines_of(self@.status_codes),
    {
        let mut lines: Vec<String> = Vec::new();
        let mut i: usize = 0;
        while i < self.status_codes.len()
            invariant
                i <= self.status_codes@.len(),
                lines@.len() == i,
                forall|j: int|
                    0 <= j < i ==> (#[trigger] lines@[j])@ == status_line_of(
                        self.status_codes@[j]@,
                    ),
            decreases self.status_codes@.len() - i,
        {
            lines.push(self.status_codes[i].line());
            i += 1;
        }
        lines
    }

    /// The lines of the table, one for each row shown.
    pub fn row_lines(&self) -> (lines: Vec<String>)
        ensures
            views(lines@) == row_lines_of(self@.rows),
    {
        let mut lines: Vec<String> = Vec::new();
        let mut i: usize = 0;
        while i < self.rows.len()
            invariant
                i <= self.rows@.len(),
                lines@.len() == i,
                forall|j: int| 0 <= j < i ==> (#[trigger] lines@[j])@ == row_line_of(self.rows@[j]@),
            decreases self.rows@.len() - i,
        {
            lines.push(self.rows[i].line());
            i += 1;
        }
        lines
    }
}

} // verus!
