//! The plain-text image encoder.
//!
//! The text opens with three header lines: the tag of the format, the width
//! and height, and the largest channel value. One row of bytes follows for each
//! row of the canvas, top to bottom, three bytes for each pixel, left to
//! right. Within a row the bytes are separated by single spaces, and a line
//! is broken before the byte that would carry it past seventy characters.
//! Each row starts a line of its own.

use crate::canvas::{extent, Canvas};
use crate::channel::{byte_clamp, byte_of};
use crate::color::Color;
use vstd::prelude::*;

verus! {

/// The longest line of the text, its newline not counted.
pub const MAX_LINE: usize = 70;

/// `String::push` appends one character to the end of the string.
pub assume_specification[ String::push ](s: &mut String, ch: char)
    ensures
        final(s)@ == old(s)@.push(ch),
;

/// The character of a decimal digit.
pub open spec fn digit(d: int) -> char
    recommends
        0 <= d < 10,
{
    (d + 48) as char
}

/// A natural number in decimal notation, without leading zeros.
pub open spec fn decimal(n: nat) -> Seq<char>
    decreases n,
{
    if n < 10 {
        seq![digit(n as int)]
    } else {
        decimal(n / 10).push(digit((n % 10) as int))
    }
}

/// An integer in decimal notation, with a minus sign where it is negative.
pub open spec fn signed_decimal(i: int) -> Seq<char> {
    if i < 0 {
        seq!['-'] + decimal((-i) as nat)
    } else {
        decimal(i as nat)
    }
}

/// What goes between the text of a row so far and its next token: nothing at
/// the start of the row, a newline where the token would not fit, else a
/// space. `used` is the length of the current line.
pub open spec fn separator(used: int, token_len: int) -> Seq<char> {
    if used == 0 {
        seq![]
    } else if used + 1 + token_len > MAX_LINE {
        seq!['\n']
    } else {
        seq![' ']
    }
}

/// The length of the current line once a token has been placed.
pub open spec fn used_after(used: int, token_len: int) -> int {
    if used == 0 || used + 1 + token_len > MAX_LINE {
        token_len
    } else {
        used + 1 + token_len
    }
}

/// The text of the values from index `i` on, when the current line holds
/// `used` characters already. It ends with the newline that closes the row.
pub open spec fn wrap_from(values: Seq<int>, i: int, used: int) -> Seq<char>
    decreases values.len() - i,
{
    if 0 <= i < values.len() {
        let token = decimal(values[i] as nat);
        separator(used, token.len() as int) + token + wrap_from(
            values,
            i + 1,
            used_after(used, token.len() as int),
        )
    } else {
        seq!['\n']
    }
}

/// The text of one row of values.
pub open spec fn row_text(values: Seq<int>) -> Seq<char> {
    wrap_from(values, 0, 0)
}

/// One of the three bytes of a colour: red, green, blue in this order.
pub open spec fn channel_byte(c: Color, k: int) -> int {
    if k == 0 {
        byte_of(c.red)
    } else if k == 1 {
        byte_of(c.green)
    } else {
        byte_of(c.blue)
    }
}

/// The bytes of row `y`, three for each pixel from left to right.
pub open spec fn row_values(c: &Canvas, y: int) -> Seq<int> {
    Seq::new(3 * extent(c.width), |i: int| channel_byte(c.at(i / 3, y), i % 3))
}

/// The text of the rows from `y` down to the last.
pub open spec fn rows_from(c: &Canvas, y: int) -> Seq<char>
    decreases c.height - y,
{
    if 0 <= y < c.height {
        row_text(row_values(c, y)) + rows_from(c, y + 1)
    } else {
        seq![]
    }
}

/// The three header lines.
pub open spec fn header(width: int, height: int) -> Seq<char> {
    seq!['P', '3', '\n'] + signed_decimal(width) + seq![' '] + signed_decimal(height) + seq![
        '\n',
        '2',
        '5',
        '5',
        '\n',
    ]
}

/// The whole text of a canvas.
pub open spec fn ppm_text(c: &Canvas) -> Seq<char> {
    header(c.width as int, c.height as int) + rows_from(c, 0)
}

/// A byte has one to three digits.
pub proof fn lemma_byte_digits(v: nat)
    requires
        v <= 255,
    ensures
        decimal(v).len() == if v < 10 {
            1nat
        } else if v < 100 {
            2nat
        } else {
            3nat
        },
{
    reveal_with_fuel(decimal, 3);
}

/// The number of characters between a position in a text and the newline
/// before it, or the start of the text.
pub open spec fn line_length(text: Seq<char>, at: int) -> int
    decreases at,
{
    if at <= 0 {
        0
    } else if text[at - 1] == '\n' {
        0
    } else {
        line_length(text, at - 1) + 1
    }
}

/// No line of the text is longer than `limit`, newlines not counted.
pub open spec fn lines_within(text: Seq<char>, limit: int) -> bool {
    forall|at: int| 0 <= at <= text.len() ==> #[trigger] line_length(text, at) <= limit
}

/// The length of the last line of a text, which may still grow.
pub open spec fn open_line(text: Seq<char>) -> int {
    line_length(text, text.len() as int)
}

/// Ten to the power `k`.
pub open spec fn power_of_ten(k: nat) -> nat
    decreases k,
{
    if k == 0 {
        1
    } else {
        10 * power_of_ten((k - 1) as nat)
    }
}

/// A number below ten to the power `k` has at most `k` digits.
pub proof fn lemma_digit_count(n: nat, k: nat)
    requires
        k >= 1,
        n < power_of_ten(k),
    ensures
        1 <= decimal(n).len() <= k,
    decreases k,
{
    if n >= 10 {
        assert(power_of_ten(1) == 10) by {
            reveal_with_fuel(power_of_ten, 2);
        }
        lemma_digit_count(n / 10, (k - 1) as nat);
    }
}

/// A 64-bit integer has at most twenty characters, its sign counted.
pub proof fn lemma_signed_width(i: int)
    requires
        i64::MIN <= i <= i64::MAX,
    ensures
        1 <= signed_decimal(i).len() <= 20,
{
    assert(power_of_ten(19) == 10_000_000_000_000_000_000) by {
        reveal_with_fuel(power_of_ten, 20);
    }
    if i < 0 {
        lemma_digit_count((-i) as nat, 19);
    } else {
        lemma_digit_count(i as nat, 19);
    }
}

/// What lies before a position decides the length of its line.
proof fn lemma_line_of_prefix(text: Seq<char>, ch: char, at: int)
    requires
        0 <= at <= text.len(),
    ensures
        line_length(text.push(ch), at) == line_length(text, at),
    decreases at,
{
    if at > 0 {
        lemma_line_of_prefix(text, ch, at - 1);
    }
}

/// A newline closes the last line; another character makes it longer by
/// one.
proof fn lemma_line_after_push(text: Seq<char>, ch: char, limit: int)
    requires
        lines_within(text, limit),
        limit >= 0,
        ch == '\n' || open_line(text) < limit,
    ensures
        lines_within(text.push(ch), limit),
        open_line(text.push(ch)) == if ch == '\n' {
            0
        } else {
            open_line(text) + 1
        },
{
    let longer = text.push(ch);
    lemma_line_of_prefix(text, ch, text.len() as int);
    assert forall|at: int| 0 <= at <= longer.len() implies #[trigger] line_length(longer, at)
        <= limit by {
        if at <= text.len() {
            lemma_line_of_prefix(text, ch, at);
        }
    }
}

/// Appends a character to a text whose lines are within the limit.
fn put(out: &mut String, ch: char)
    requires
        lines_within(old(out)@, MAX_LINE as int),
        ch == '\n' || open_line(old(out)@) < MAX_LINE,
    ensures
        final(out)@ == old(out)@.push(ch),
        lines_within(final(out)@, MAX_LINE as int),
        open_line(final(out)@) == if ch == '\n' {
            0
        } else {
            open_line(old(out)@) + 1
        },
{
    proof {
        lemma_line_after_push(out@, ch, MAX_LINE as int);
    }
    out.push(ch);
}

fn push_decimal(out: &mut String, n: u64)
    requires
        lines_within(old(out)@, MAX_LINE as int),
        open_line(old(out)@) + decimal(n as nat).len() <= MAX_LINE,
    ensures
        final(out)@ == old(out)@ + decimal(n as nat),
        lines_within(final(out)@, MAX_LINE as int),
        open_line(final(out)@) == open_line(old(out)@) + decimal(n as nat).len(),
    decreases n,
{
    if n >= 10 {
        push_decimal(out, n / 10);
    }
    let d: u8 = (n % 10) as u8;
    put(out, (d + 48) as char);
    assert(out@ =~= old(out)@ + decimal(n as nat));
}

fn push_signed(out: &mut String, i: i64)
    requires
        lines_within(old(out)@, MAX_LINE as int),
        open_line(old(out)@) + 20 <= MAX_LINE,
    ensures
        final(out)@ == old(out)@ + signed_decimal(i as int),
        lines_within(final(out)@, MAX_LINE as int),
        open_line(final(out)@) <= open_line(old(out)@) + 20,
{
    proof {
        lemma_signed_width(i as int);
    }
    if i < 0 {
        put(out, '-');
        let magnitude: u64 = if i == i64::MIN {
            0x8000_0000_0000_0000
        } else {
            (-i) as u64
        };
        push_decimal(out, magnitude);
        assert(out@ =~= old(out)@ + signed_decimal(i as int));
    } else {
        push_decimal(out, i as u64);
    }
}

/// Places the byte at index `i` of a row on the current line or on a fresh
/// one, and returns the length of the line that it now ends.
fn push_value(
    out: &mut String,
    value: i64,
    used: usize,
    Ghost(values): Ghost<Seq<int>>,
    Ghost(i): Ghost<int>,
) -> (now: usize)
    requires
        0 <= value <= 255,
        used <= MAX_LINE,
        0 <= i < values.len(),
        values[i] == value,
        lines_within(old(out)@, MAX_LINE as int),
        open_line(old(out)@) == used,
    ensures
        final(out)@ + wrap_from(values, i + 1, now as int) == old(out)@ + wrap_from(
            values,
            i,
            used as int,
        ),
        0 < now <= MAX_LINE,
        lines_within(final(out)@, MAX_LINE as int),
        open_line(final(out)@) == now,
{
    proof {
        lemma_byte_digits(value as nat);
    }
    let token_len: usize = if value < 10 {
        1
    } else if value < 100 {
        2
    } else {
        3
    };
    let mut now: usize = token_len;
    if used != 0 {
        if used + 1 + token_len > MAX_LINE {
            put(out, '\n');
        } else {
            put(out, ' ');
            now = used + 1 + token_len;
        }
    }
    let ghost placed = out@;
    push_decimal(out, value as u64);
    proof {
        let token = decimal(value as nat);
        let rest = wrap_from(values, i + 1, now as int);
        assert(placed =~= old(out)@ + separator(used as int, token_len as int));
        assert(wrap_from(values, i, used as int) == separator(used as int, token_len as int)
            + token + rest);
        assert(out@ + rest =~= old(out)@ + (separator(used as int, token_len as int) + token
            + rest));
    }
    now
}

/// Appends the text of row `y`.
fn push_row(out: &mut String, c: &Canvas, y: i64)
    requires
        c.wf(),
        0 <= y < c.height,
        lines_within(old(out)@, MAX_LINE as int),
        open_line(old(out)@) == 0,
    ensures
        final(out)@ == old(out)@ + row_text(row_values(c, y as int)),
        lines_within(final(out)@, MAX_LINE as int),
        open_line(final(out)@) == 0,
{
    let ghost values = row_values(c, y as int);
    let mut used: usize = 0;
    let mut x: i64 = 0;
    while x < c.width
        invariant
            c.wf(),
            0 <= y < c.height,
            0 <= x <= extent(c.width),
            used <= MAX_LINE,
            values == row_values(c, y as int),
            out@ + wrap_from(values, 3 * x, used as int) == old(out)@ + row_text(values),
            lines_within(out@, MAX_LINE as int),
            open_line(out@) == used,
        decreases c.width - x,
    {
        assert(x < c.pixels.len() && y < c.pixels[x as int].len());
        let pixel: Color = c.pixels[x as usize][y as usize];
        let ghost i = 3 * x;
        assert(values[i] == byte_of(pixel.red));
        assert(values[i + 1] == byte_of(pixel.green));
        assert(values[i + 2] == byte_of(pixel.blue));
        used = push_value(out, byte_clamp(pixel.red), used, Ghost(values), Ghost(i));
        used = push_value(out, byte_clamp(pixel.green), used, Ghost(values), Ghost(i + 1));
        used = push_value(out, byte_clamp(pixel.blue), used, Ghost(values), Ghost(i + 2));
        x = x + 1;
    }
    put(out, '\n');
    assert(out@ =~= old(out)@ + row_text(values));
}

/// Encodes a canvas as the text of a plain pixmap. No line of the text is
/// longer than seventy characters.
pub fn canvas_to_ppm(c: Canvas) -> (text: String)
    requires
        c.wf(),
    ensures
        text@ == ppm_text(&c),
        lines_within(text@, MAX_LINE as int),
{
    let mut text = String::new();
    assert(lines_within(text@, MAX_LINE as int)) by {
        assert forall|at: int| 0 <= at <= text@.len() implies #[trigger] line_length(text@, at)
            <= MAX_LINE by {}
    }
    put(&mut text, 'P');
    put(&mut text, '3');
    put(&mut text, '\n');
    push_signed(&mut text, c.width);
    put(&mut text, ' ');
    push_signed(&mut text, c.height);
    put(&mut text, '\n');
    put(&mut text, '2');
    put(&mut text, '5');
    put(&mut text, '5');
    put(&mut text, '\n');
    assert(text@ =~= header(c.width as int, c.height as int));
    let mut y: i64 = 0;
    while y < c.height
        invariant
            c.wf(),
            0 <= y <= extent(c.height),
            text@ + rows_from(&c, y as int) == ppm_text(&c),
            lines_within(text@, MAX_LINE as int),
            open_line(text@) == 0,
        decreases c.height - y,
    {
        let ghost before = text@;
        push_row(&mut text, &c, y);
        assert(before + rows_from(&c, y as int) =~= text@ + rows_from(&c, y + 1));
        y = y + 1;
    }
    assert(text@ =~= ppm_text(&c));
    text
}

} // verus!
