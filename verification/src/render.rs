//! The report as text: a header and one line for every row, in columns of
//! fixed width.

use vstd::prelude::*;
use crate::report::{ReportRow, RowView};
use crate::share::{
    megabyte_hundredths, percent_hundredths, to_megabyte_hundredths, SystemMemoryTotal,
};

verus! {

/// The ten digits, each at the place of its value.
pub open spec fn digits() -> Seq<char> {
    seq!['0', '1', '2', '3', '4', '5', '6', '7', '8', '9']
}

/// A number in base ten, without leading zeros.
pub open spec fn decimal_text(n: nat) -> Seq<char>
    decreases n,
{
    if n < 10 {
        seq![digits()[n as int]]
    } else {
        decimal_text(n / 10).push(digits()[(n % 10) as int])
    }
}

/// Hundredths as a number with two decimals.
pub open spec fn two_decimals_text(hundredths: nat) -> Seq<char> {
    decimal_text(hundredths / 100) + seq![
        '.',
        digits()[(hundredths / 10 % 10) as int],
        digits()[(hundredths % 10) as int],
    ]
}

/// `n` blanks.
pub open spec fn blanks(n: int) -> Seq<char> {
    Seq::new(
        if n > 0 {
            n as nat
        } else {
            0
        },
        |i: int| ' ',
    )
}

/// `text` at the left of a column `width` characters wide. A text that is
/// wider than the column is left as it is.
pub open spec fn at_left(text: Seq<char>, width: nat) -> Seq<char> {
    text + blanks(width - text.len())
}

/// `text` at the right of a column `width` characters wide. A text that is
/// wider than the column is left as it is.
pub open spec fn at_right(text: Seq<char>, width: nat) -> Seq<char> {
    blanks(width - text.len()) + text
}

/// The line above the rows.
pub open spec fn header_text() -> Seq<char> {
    at_left("Application"@, 35) + blanks(1) + at_right("Num"@, 4) + blanks(1) + at_right(
        "Memory(MB)"@,
        12,
    ) + blanks(1) + at_right("%"@, 8) + blanks(1) + at_right("Cum.%"@, 8)
}

/// The line of one row: its key, the number of its processes, its memory in
/// megabytes, its share of `total_kb` in percent, and the share of the rows
/// down to it.
pub open spec fn row_text(row: RowView, total_kb: nat) -> Seq<char> {
    at_left(row.key, 35) + blanks(1) + at_right(decimal_text(row.count), 4) + blanks(1) + at_right(
        two_decimals_text(megabyte_hundredths(row.memory_kb)),
        12,
    ) + blanks(1) + at_right(two_decimals_text(percent_hundredths(row.memory_kb, total_kb)), 7)
        + seq!['%'] + blanks(1) + at_right(
        two_decimals_text(percent_hundredths(row.cumulative_kb, total_kb)),
        7,
    ) + seq!['%']
}

/// The report as lines of text: the header, then the rows in their order.
pub open spec fn report_text(rows: Seq<RowView>, total_kb: nat) -> Seq<Seq<char>> {
    seq![header_text()] + Seq::new(rows.len(), |i: int| row_text(rows[i], total_kb))
}

/// The text of one digit.
fn digit_text(d: u8) -> (text: &'static str)
    requires
        d < 10,
    ensures
        text@ == seq![digits()[d as int]],
{
    proof {
        reveal_strlit("0");
        reveal_strlit("1");
        reveal_strlit("2");
        reveal_strlit("3");
        reveal_strlit("4");
        reveal_strlit("5");
        reveal_strlit("6");
        reveal_strlit("7");
        reveal_strlit("8");
        reveal_strlit("9");
    }
    match d {
        0 => "0",
        1 => "1",
        2 => "2",
        3 => "3",
        4 => "4",
        5 => "5",
        6 => "6",
        7 => "7",
        8 => "8",
        _ => "9",
    }
}

/// Writes a number in base ten.
pub fn write_decimal(n: u128) -> (text: String)
    ensures
        text@ == decimal_text(n as nat),
    decreases n,
{
    if n < 10 {
        String::from_str(digit_text(n as u8))
    } else {
        write_decimal(n / 10).concat(digit_text((n % 10) as u8))
    }
}

/// Writes hundredths as a number with two decimals.
pub fn write_two_decimals(hundredths: u128) -> (text: String)
    ensures
        text@ == two_decimals_text(hundredths as nat),
{
    proof {
        reveal_strlit(".");
    }
    write_decimal(hundredths / 100).concat(".").concat(
        digit_text((hundredths / 10 % 10) as u8),
    ).concat(digit_text((hundredths % 10) as u8))
}

/// Adds `n` blanks to `text`.
fn add_blanks(text: String, n: usize) -> (padded: String)
    ensures
        padded@ == text@ + blanks(n as int),
{
    proof {
        reveal_strlit(" ");
    }
    let mut padded = text;
    let mut i: usize = 0;
    while i < n
        invariant
            i <= n,
            padded@ == text@ + blanks(i as int),
            " "@ == seq![' '],
        decreases n - i,
    {
        padded = padded.concat(" ");
        i += 1;
    }
    padded
}

/// Puts `text` at the left of a column.
pub fn align_left(text: &str, width: usize) -> (cell: String)
    ensures
        cell@ == at_left(text@, width as nat),
{
    let len = text.unicode_len();
    let missing = if len < width {
        width - len
    } else {
        0
    };
    add_blanks(text.to_owned(), missing)
}

/// Puts `text` at the right of a column.
pub fn align_right(text: &str, width: usize) -> (cell: String)
    ensures
        cell@ == at_right(text@, width as nat),
{
    let len = text.unicode_len();
    let missing = if len < width {
        width - len
    } else {
        0
    };
    add_blanks(String::new(), missing).concat(text)
}

/// Writes the line above the rows.
pub fn render_header() -> (line: String)
    ensures
        line@ == header_text(),
{
    proof {
        reveal_strlit(" ");
    }
    align_left("Application", 35).concat(" ").concat(align_right("Num", 4).as_str()).concat(
        " ",
    ).concat(align_right("Memory(MB)", 12).as_str()).concat(" ").concat(
        align_right("%", 8).as_str(),
    ).concat(" ").concat(align_right("Cum.%", 8).as_str())
}

/// Writes the line of one row.
pub fn render_row(row: &ReportRow, total: &SystemMemoryTotal) -> (line: String)
    ensures
        line@ == row_text(row@, total@ as nat),
{
    proof {
        reveal_strlit(" ");
        reveal_strlit("%");
    }
    let count = write_decimal(row.count as u128);
    let megabytes = write_two_decimals(to_megabyte_hundredths(row.memory_kb) as u128);
    let share = write_two_decimals(total.percent_hundredths_of(row.memory_kb));
    let cumulative = write_two_decimals(total.percent_hundredths_of(row.cumulative_kb));
    align_left(row.key.as_str(), 35).concat(" ").concat(
        align_right(count.as_str(), 4).as_str(),
    ).concat(" ").concat(align_right(megabytes.as_str(), 12).as_str()).concat(" ").concat(
        align_right(share.as_str(), 7).as_str(),
    ).concat("%").concat(" ").concat(align_right(cumulative.as_str(), 7).as_str()).concat("%")
}

/// Writes the report: the header and a line for every row.
pub fn render(rows: &[ReportRow], total: &SystemMemoryTotal) -> (lines: Vec<String>)
    ensures
        lines.deep_view() == report_text(rows.deep_view(), total@ as nat),
{
    let mut lines: Vec<String> = Vec::new();
    lines.push(render_header());
    let mut i: usize = 0;
    while i < rows.len()
        invariant
            i <= rows.len(),
            lines.len() == i + 1,
            lines[0]@ == header_text(),
            forall|j: int| 0 <= j < i ==> (#[trigger] lines[j + 1])@ == row_text(
                rows[j]@,
                total@ as nat,
            ),
        decreases rows.len() - i,
    {
        lines.push(render_row(&rows[i], total));
        i += 1;
    }
    proof {
        let written = lines.deep_view();
        let wanted = report_text(rows.deep_view(), total@ as nat);
        assert forall|k: int| 0 <= k < written.len() implies written[k] == wanted[k] by {
            if k > 0 {
                assert(written[k] == lines[k - 1 + 1]@);
            }
        }
    }
    lines
}

} // verus!
