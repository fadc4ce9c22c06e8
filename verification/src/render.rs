//! A word box as text.

use crate::word_box::{WordBox, WordBoxView};
use vstd::prelude::*;

verus! {

/// `String::push` of the standard library: the string afterwards is the
/// string before with the one character added at its end.
pub assume_specification[ String::push ](text: &mut String, ch: char)
    ensures
        final(text)@ == old(text)@.push(ch),
;

/// The character for a digit.
pub open spec fn digit(d: nat) -> char {
    seq!['0', '1', '2', '3', '4', '5', '6', '7', '8', '9'][d as int]
}

/// A number in decimal, without leading zeros.
pub open spec fn decimal(n: nat) -> Seq<char>
    decreases n,
{
    if n < 10 {
        seq![digit(n)]
    } else {
        decimal(n / 10).push(digit(n % 10))
    }
}

/// A row as text: each character behind a tab.
pub open spec fn tabbed(row: Seq<char>) -> Seq<char> {
    Seq::new(
        2 * row.len(),
        |i: int|
            if i % 2 == 0 {
                '\t'
            } else {
                row[i / 2]
            },
    )
}

/// The rows as text: each row tabbed and closed by a line feed.
pub open spec fn lines(rows: Seq<Seq<char>>) -> Seq<char> {
    rows.map_values(|row: Seq<char>| tabbed(row).push('\n')).flatten()
}

/// A word box as text: the anchor on a line of its own, as two numbers with
/// a comma and a space between them, and then the rows.
pub open spec fn rendered(word_box: WordBoxView) -> Seq<char> {
    decimal(word_box.start.0) + seq![',', ' '] + decimal(word_box.start.1) + seq!['\n'] + lines(
        word_box.rows,
    )
}

/// The character for a digit.
fn digit_char(d: u64) -> (c: char)
    requires
        d < 10,
    ensures
        c == digit(d as nat),
{
    if d == 0 {
        '0'
    } else if d == 1 {
        '1'
    } else if d == 2 {
        '2'
    } else if d == 3 {
        '3'
    } else if d == 4 {
        '4'
    } else if d == 5 {
        '5'
    } else if d == 6 {
        '6'
    } else if d == 7 {
        '7'
    } else if d == 8 {
        '8'
    } else {
        '9'
    }
}

/// Writes `n` in decimal at the end of `text`.
pub fn push_decimal(text: &mut String, n: u64)
    ensures
        final(text)@ == old(text)@ + decimal(n as nat),
    decreases n,
{
    if n >= 10 {
        push_decimal(text, n / 10);
    }
    text.push(digit_char(n % 10));
}

impl WordBox {
    /// The box as text.
    pub fn render(&self) -> (text: String)
        ensures
            text@ == rendered(self@),
    {
        let mut text = String::new();
        let start = self.start();
        push_decimal(&mut text, start.0);
        text.push(',');
        text.push(' ');
        push_decimal(&mut text, start.1);
        text.push('\n');
        let rows = self.container();
        let ghost head = text@;
        let ghost line = |row: Seq<char>| tabbed(row).push('\n');
        let mut r: usize = 0;
        while r < rows.len()
            invariant
                r <= rows.len(),
                rows.deep_view() == self@.rows,
                line == |row: Seq<char>| tabbed(row).push('\n'),
                text@ == head + self@.rows.take(r as int).map_values(line).flatten(),
            decreases rows.len() - r,
        {
            let row = &rows[r];
            let ghost before = text@;
            let mut col: usize = 0;
            while col < row.len()
                invariant
                    col <= row.len(),
                    text@ == before + tabbed(row@.take(col as int)),
                decreases row.len() - col,
            {
                text.push('\t');
                text.push(row[col]);
                assert(tabbed(row@.take(col + 1)) =~= tabbed(row@.take(col as int)) + seq![
                    '\t',
                    row@[col as int],
                ]);
                col += 1;
            }
            text.push('\n');
            proof {
                assert(row@.take(col as int) =~= row@);
                assert(self@.rows[r as int] =~= row@);
                assert(self@.rows.take(r + 1).map_values(line) =~= self@.rows.take(
                    r as int,
                ).map_values(line).push(line(row@)));
                self@.rows.take(r as int).map_values(line).lemma_flatten_push(line(row@));
            }
            r += 1;
        }
        assert(self@.rows.take(r as int) =~= self@.rows);
        text
    }
}

} // verus!
