//! The line of the source at which an error was found, marked where the
//! error stands.

use crate::compilation_error::CompilationError;
use crate::strings::{decimal_of, push_decimal};
use crate::token::Token;
use vstd::prelude::*;
use vstd::std_specs::iter::IteratorSpec;
use vstd::string::StringSliceAdditionalSpecFns;
use vstd::utf8::encode_utf8;

verus! {

/// The number of bytes that a character takes in UTF-8.
pub open spec fn utf8_width(c: char) -> nat {
    if (c as u32) < 0x80 {
        1
    } else if (c as u32) < 0x800 {
        2
    } else if (c as u32) < 0x10000 {
        3
    } else {
        4
    }
}

/// The number of columns that a character takes when it is shown: a tab
/// is shown as four spaces.
pub open spec fn shown_width(c: char) -> nat {
    if c == '\t' {
        4
    } else {
        1
    }
}

/// Where line `n` of a text stands, found from the place `i` on, which is
/// in line `line`, which begins at `start`: the places of its first
/// character and of what ends it. A line is ended by a newline or by the
/// end of the text, and a text does not end with an empty line.
pub open spec fn find_line(source: Seq<char>, n: nat, i: nat, line: nat, start: nat) -> Option<
    (nat, nat),
>
    decreases source.len() - i,
{
    if i >= source.len() {
        if line == n && start < source.len() {
            Some((start, source.len()))
        } else {
            None
        }
    } else if source[i as int] == '\n' {
        if line == n {
            Some((start, i))
        } else {
            find_line(source, n, i + 1, line + 1, i + 1)
        }
    } else {
        find_line(source, n, i + 1, line, start)
    }
}

/// Line `n` of a text, without what ends it: the newline, and a carriage
/// return before the newline.
pub open spec fn line_of(source: Seq<char>, n: nat) -> Option<Seq<char>> {
    match find_line(source, n, 0, 0, 0) {
        Some((start, end)) => if end < source.len() && start < end && source[end - 1] == '\r' {
            Some(source.subrange(start as int, end - 1))
        } else {
            Some(source.subrange(start as int, end as int))
        },
        None => None,
    }
}

/// The first `n` characters of a line as they are shown, each tab as four
/// spaces.
pub open spec fn expanded(line: Seq<char>, n: nat) -> Seq<char>
    decreases n,
{
    if n == 0 || n > line.len() {
        Seq::empty()
    } else if line[n - 1] == '\t' {
        expanded(line, (n - 1) as nat) + "    "@
    } else {
        expanded(line, (n - 1) as nat).push(line[n - 1])
    }
}

/// The byte at which the `n`-th character of a line begins.
pub open spec fn offset_of(line: Seq<char>, n: nat) -> nat
    decreases n,
{
    if n == 0 || n > line.len() {
        0
    } else {
        offset_of(line, (n - 1) as nat) + utf8_width(line[n - 1])
    }
}

/// The columns that those of the first `n` characters of a line take
/// which begin at a byte from `from` up to `to`.
pub open spec fn columns_within(line: Seq<char>, from: nat, to: nat, n: nat) -> nat
    decreases n,
{
    if n == 0 || n > line.len() {
        0
    } else {
        let at = offset_of(line, (n - 1) as nat);
        columns_within(line, from, to, (n - 1) as nat) + if from <= at < to {
            shown_width(line[n - 1])
        } else {
            0
        }
    }
}

/// The same character so many times.
pub open spec fn repeated(c: char, n: nat) -> Seq<char> {
    Seq::new(n, |i: int| c)
}

/// The width of what is marked for a token: its length, and one column
/// for a token without length.
pub open spec fn marked_width(token: Token) -> nat {
    if token.length == 0 {
        1
    } else {
        token.length as nat
    }
}

/// The line of the source that a token stands on, with its number in
/// front and, below it, carets under the token. Where the source has no
/// such line, an internal error is reported, unless the token stands at the
/// end of the source.
pub open spec fn context_of(token: Token, source: Seq<char>) -> Seq<char> {
    let number = decimal_of((token.line + 1) as nat);
    match line_of(source, token.line as nat) {
        Some(line) => {
            let margin = repeated(' ', number.len());
            let gap = columns_within(line, 0, token.column as nat, line.len());
            let mark = columns_within(
                line,
                token.column as nat,
                (token.column + marked_width(token)) as nat,
                line.len(),
            );
            margin + " |\n"@ + number + " | "@ + expanded(line, line.len()) + "\n"@ + margin
                + " | "@ + repeated(' ', gap) + repeated('^', mark)
        },
        None => if token.offset != encode_utf8(source).len() {
            "internal error: Error has invalid line number: "@ + number
        } else {
            Seq::empty()
        },
    }
}

fn push_repeated(out: &mut String, c: char, n: u128)
    ensures
        final(out)@ == old(out)@ + repeated(c, n as nat),
{
    let mut i: u128 = 0;
    assert(old(out)@ + repeated(c, 0) =~= old(out)@);
    while i < n
        invariant
            i <= n,
            out@ == old(out)@ + repeated(c, i as nat),
        decreases n - i,
    {
        out.push(c);
        assert(out@ =~= old(out)@ + repeated(c, (i + 1) as nat));
        i += 1;
    }
}

/// Finds where line `n` of a text stands.
fn locate(source: &str, n: usize) -> (r: Option<(usize, usize)>)
    ensures
        match r {
            Some((start, end)) => find_line(source@, n as nat, 0, 0, 0) == Some(
                (start as nat, end as nat),
            ) && start <= end <= source@.len(),
            None => find_line(source@, n as nat, 0, 0, 0) is None,
        },
{
    let length = source.unicode_len();
    let mut line: usize = 0;
    let mut start: usize = 0;
    let mut i: usize = 0;
    for c in it: source.chars()
        invariant
            i == it.index(),
            it.seq() == source@,
            length == source@.len(),
            line <= i,
            start <= i,
            find_line(source@, n as nat, 0, 0, 0) == find_line(
                source@,
                n as nat,
                i as nat,
                line as nat,
                start as nat,
            ),
    {
        if c == '\n' {
            if line == n {
                return Some((start, i));
            }
            line += 1;
            start = i + 1;
        }
        i += 1;
    }
    if line == n && start < length {
        Some((start, length))
    } else {
        None
    }
}

/// The number of bytes that a character takes in UTF-8.
fn width_of(c: char) -> (w: u128)
    ensures
        w == utf8_width(c),
{
    let v = c as u32;
    if v < 0x80 {
        1
    } else if v < 0x800 {
        2
    } else if v < 0x10000 {
        3
    } else {
        4
    }
}

impl Token {
    /// The line of the source that the token stands on, marked where the
    /// token stands.
    pub fn context(&self, source: &str) -> (out: String)
        ensures
            out@ == context_of(*self, source@),
    {
        let mut number = String::new();
        push_decimal(&mut number, self.line as u128 + 1);
        assert(number@ =~= decimal_of((self.line + 1) as nat));
        let bounds = locate(source, self.line);
        match bounds {
            None => {
                if self.offset != source.as_bytes().len() {
                    String::from_str("internal error: Error has invalid line number: ").concat(
                        number.as_str(),
                    )
                } else {
                    String::new()
                }
            },
            Some((start, end)) => {
                let end = if end < source.unicode_len() && start < end && source.get_char(end - 1)
                    == '\r' {
                    end - 1
                } else {
                    end
                };
                let line = source.substring_char(start, end);
                assert(Some(line@) == line_of(source@, self.line as nat));
                let margin = number.as_str().unicode_len();
                let from: u128 = self.column as u128;
                let to: u128 = from + if self.length == 0 {
                    1
                } else {
                    self.length as u128
                };
                let mut shown = String::new();
                let mut gap: u128 = 0;
                let mut mark: u128 = 0;
                let mut at: u128 = 0;
                let mut i: usize = 0;
                let count = line.unicode_len();
                for c in it: line.chars()
                    invariant
                        i == it.index(),
                        it.seq() == line@,
                        count == line@.len(),
                        from == self.column,
                        to == self.column + marked_width(*self),
                        shown@ == expanded(line@, i as nat),
                        at == offset_of(line@, i as nat),
                        at <= 4 * i,
                        gap == columns_within(line@, 0, from as nat, i as nat),
                        gap <= 4 * i,
                        mark == columns_within(line@, from as nat, to as nat, i as nat),
                        mark <= 4 * i,
                {
                    let columns: u128 = if c == '\t' {
                        shown.append("    ");
                        4
                    } else {
                        shown.push(c);
                        1
                    };
                    if at < from {
                        gap += columns;
                    }
                    if at >= from && at < to {
                        mark += columns;
                    }
                    at += width_of(c);
                    i += 1;
                }
                let mut out = String::new();
                push_repeated(&mut out, ' ', margin as u128);
                out.append(" |\n");
                out.append(number.as_str());
                out.append(" | ");
                out.append(shown.as_str());
                out.append("\n");
                push_repeated(&mut out, ' ', margin as u128);
                out.append(" | ");
                push_repeated(&mut out, ' ', gap);
                push_repeated(&mut out, '^', mark);
                assert(out@ =~= context_of(*self, source@));
                out
            },
        }
    }
}

impl CompilationError {
    /// The error as it is shown: what it says, then the line of the source
    /// at which it was found.
    pub fn render(&self, source: &str) -> (out: String)
        ensures
            out@ == self.message_of() + context_of(self.token, source@),
    {
        let context = self.token.context(source);
        self.message().concat(context.as_str())
    }
}

} // verus!
