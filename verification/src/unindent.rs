//! Taking the common indentation off the lines of a text.

use vstd::prelude::*;
use vstd::std_specs::iter::IteratorSpec;
use vstd::string::StringSliceAdditionalSpecFns;
use vstd::utf8::*;

verus! {

/// A space or a tab: the characters that indentation is made of.
pub open spec fn is_indent(c: char) -> bool {
    c == ' ' || c == '\t'
}

/// Whether a line holds nothing but spaces and tabs, with at most one
/// newline as its last character.
pub open spec fn is_blank(line: Seq<char>) -> bool {
    forall|i: int|
        0 <= i < line.len() ==> is_indent(#[trigger] line[i]) || (line[i] == '\n' && i == line.len()
            - 1)
}

/// The number of spaces and tabs that `line` starts with.
pub open spec fn indent_width(line: Seq<char>) -> nat
    decreases line.len(),
{
    if line.len() > 0 && is_indent(line[0]) {
        1 + indent_width(line.drop_first())
    } else {
        0
    }
}

pub proof fn lemma_indent_width(line: Seq<char>, k: int)
    requires
        0 <= k <= line.len(),
        forall|i: int| 0 <= i < k ==> is_indent(#[trigger] line[i]),
        k == line.len() || !is_indent(line[k]),
    ensures
        indent_width(line) == k,
    decreases k,
{
    if k > 0 {
        let rest = line.drop_first();
        assert forall|i: int| 0 <= i < k - 1 implies is_indent(#[trigger] rest[i]) by {
            assert(rest[i] == line[i + 1]);
        }
        lemma_indent_width(rest, k - 1);
    }
}

pub fn blank(line: &str) -> (b: bool)
    ensures
        b == is_blank(line@),
{
    let n = line.unicode_len();
    let mut i: usize = 0;
    for c in it: line.chars()
        invariant
            i == it.index(),
            it.seq() == line@,
            n == line@.len(),
            forall|j: int|
                0 <= j < i ==> is_indent(#[trigger] line@[j]) || (line@[j] == '\n' && j == n - 1),
    {
        if !(c == ' ' || c == '\t' || (c == '\n' && i == n - 1)) {
            assert(!is_blank(line@)) by {
                assert(line@[i as int] == c);
            }
            return false;
        }
        i += 1;
    }
    true
}

pub fn indentation(line: &str) -> (r: &str)
    ensures
        r@ == line@.take(indent_width(line@) as int),
{
    let n = line.unicode_len();
    let mut i: usize = 0;
    for c in it: line.chars()
        invariant
            i == it.index(),
            it.seq() == line@,
            n == line@.len(),
            forall|j: int| 0 <= j < i ==> is_indent(#[trigger] line@[j]),
    {
        if c != ' ' && c != '\t' {
            proof {
                lemma_indent_width(line@, i as int);
            }
            return line.substring_char(0, i);
        }
        i += 1;
    }
    proof {
        lemma_indent_width(line@, n as int);
        assert(line@.take(n as int) =~= line@);
    }
    line
}

/// One past the last of the first `n` positions at which `a` and `b` hold
/// the same character, or zero if they agree at none of them.
pub open spec fn agree_end(a: Seq<char>, b: Seq<char>, n: nat) -> nat
    decreases n,
{
    if n == 0 {
        0
    } else if a[n - 1] == b[n - 1] {
        n
    } else {
        agree_end(a, b, (n - 1) as nat)
    }
}

/// The length of the prefix of `a` that `common` keeps.
pub open spec fn common_width(a: Seq<char>, b: Seq<char>) -> nat {
    agree_end(a, b, if a.len() <= b.len() { a.len() } else { b.len() })
}

pub proof fn lemma_agree_end_bound(a: Seq<char>, b: Seq<char>, n: nat)
    ensures
        agree_end(a, b, n) <= n,
    decreases n,
{
    if n > 0 && a[n - 1] != b[n - 1] {
        lemma_agree_end_bound(a, b, (n - 1) as nat);
    }
}

pub fn common<'a>(a: &'a str, b: &str) -> (r: &'a str)
    ensures
        r@ == a@.take(common_width(a@, b@) as int),
{
    let mut end: usize = 0;
    let mut i: usize = 0;
    let n = a.unicode_len();
    let mut other = b.chars();
    for c in it: a.chars()
        invariant
            i == it.index(),
            it.seq() == a@,
            n == a@.len(),
            other.obeys_prophetic_iter_laws(),
            other.remaining() == (if i <= b@.len() { b@.skip(i as int) } else { Seq::<char>::empty() }),
            end == agree_end(a@, b@, if i <= b@.len() { i as nat } else { b@.len() }),
            end <= i,
    {
        match other.next() {
            Some(d) => {
                assert(d == b@[i as int]);
                assert(i < b@.len());
                assert(b@.skip(i as int).drop_first() =~= b@.skip(i + 1));
                if c == d {
                    end = i + 1;
                }
            },
            None => {
                assert(i >= b@.len());
            },
        }
        i += 1;
    }
    proof {
        lemma_agree_end_bound(a@, b@, if a@.len() <= b@.len() { a@.len() } else { b@.len() });
    }
    a.substring_char(0, end)
}

/// Whether a line ends with the byte at `i`: a newline ends one, and so does
/// the last byte of the text when it is a character of its own.
pub open spec fn is_break(bytes: Seq<u8>, i: int) -> bool {
    bytes[i] == 10u8 || (i == bytes.len() - 1 && bytes[i] < 128u8)
}

/// Where the line after those of `before` begins.
pub open spec fn next_start(before: Seq<(usize, usize)>) -> usize {
    if before.len() == 0 {
        0
    } else {
        before.last().1
    }
}

/// The lines that end within the first `n` bytes, each as the byte offsets
/// of its start and of its end.
pub open spec fn lines_within(bytes: Seq<u8>, n: nat) -> Seq<(usize, usize)>
    decreases n,
{
    if n == 0 {
        Seq::empty()
    } else {
        let before = lines_within(bytes, (n - 1) as nat);
        if is_break(bytes, n - 1) {
            before.push((next_start(before), n as usize))
        } else {
            before
        }
    }
}

/// The lines of a text, as byte offsets into its UTF-8 encoding.
pub open spec fn lines_of(text: Seq<char>) -> Seq<(usize, usize)> {
    lines_within(encode_utf8(text), encode_utf8(text).len())
}

pub fn lines(text: &str) -> (r: Vec<(usize, usize)>)
    ensures
        r@ == lines_of(text@),
{
    let bytes = text.as_bytes();
    let mut start: usize = 0;
    let mut found: Vec<(usize, usize)> = Vec::new();
    let mut i: usize = 0;
    while i < bytes.len()
        invariant
            i <= bytes.len(),
            found@ == lines_within(bytes@, i as nat),
            start == next_start(found@),
        decreases bytes.len() - i,
    {
        if bytes[i] == 10u8 || (i == bytes.len() - 1 && bytes[i] < 128u8) {
            let end = i + 1;
            found.push((start, end));
            start = end;
        }
        i += 1;
    }
    found
}

/// Every line found lies within the bytes scanned, is not empty, ends after
/// a single-byte character and begins at the start of the text or after one.
pub proof fn lemma_lines_within(bytes: Seq<u8>, n: nat)
    requires
        n <= bytes.len() <= usize::MAX,
    ensures
        forall|k: int|
            0 <= k < lines_within(bytes, n).len() ==> {
                let l = #[trigger] lines_within(bytes, n)[k];
                &&& l.0 < l.1 <= n
                &&& bytes[l.1 - 1] < 128u8
                &&& (l.0 == 0 || bytes[l.0 - 1] < 128u8)
            },
        next_start(lines_within(bytes, n)) <= n,
        next_start(lines_within(bytes, n)) == 0 || bytes[next_start(lines_within(bytes, n)) - 1]
            < 128u8,
    decreases n,
{
    if n > 0 {
        lemma_lines_within(bytes, (n - 1) as nat);
    }
}

/// In well-formed UTF-8 a character begins after every single-byte character.
pub proof fn lemma_boundary_after_single(bytes: Seq<u8>, i: int)
    requires
        valid_utf8(bytes),
        0 <= i < bytes.len(),
        bytes[i] < 128u8,
    ensures
        is_char_boundary(bytes, i + 1),
{
    is_char_boundary_iff_not_is_continuation_byte(bytes, i);
    if i + 1 == bytes.len() {
        is_char_boundary_start_end_of_seq(bytes);
    } else {
        valid_utf8_split(bytes, i);
        let s = bytes.subrange(i, bytes.len() as int);
        assert(s[0] == bytes[i]);
        let t = pop_first_scalar(s);
        assert(t.len() == s.len() - 1);
        assert(valid_utf8(t));
        assert(valid_first_scalar(t));
        assert(t[0] == bytes[i + 1]);
        is_char_boundary_iff_not_is_continuation_byte(bytes, i + 1);
    }
}

/// The part of `text` between two byte offsets at which characters begin.
fn between<'a>(text: &'a str, start: usize, end: usize) -> (r: &'a str)
    requires
        start <= end <= text.spec_bytes().len(),
        is_char_boundary(text.spec_bytes(), start as int),
        is_char_boundary(text.spec_bytes(), end as int),
    ensures
        r@ == decode_utf8(text.spec_bytes().subrange(start as int, end as int)),
{
    let ghost bytes = text.spec_bytes();
    proof {
        encode_utf8_valid_utf8(text@);
        valid_utf8_split(bytes, end as int);
    }
    let (head, _) = text.split_at(end);
    proof {
        let h = bytes.subrange(0, end as int);
        assert(head.spec_bytes() == h);
        if start == end {
            is_char_boundary_start_end_of_seq(h);
        } else if start > 0 {
            is_char_boundary_iff_not_is_continuation_byte(bytes, start as int);
            is_char_boundary_iff_not_is_continuation_byte(h, start as int);
        }
    }
    let (_, r) = head.split_at(start);
    proof {
        assert(r.spec_bytes() =~= bytes.subrange(start as int, end as int));
        encode_utf8_decode_utf8(r@);
    }
    r
}

/// The `k`-th line of a text.
pub open spec fn line_at(text: Seq<char>, k: int) -> Seq<char> {
    let l = lines_of(text)[k];
    decode_utf8(encode_utf8(text).subrange(l.0 as int, l.1 as int))
}

/// The indentation that a line starts with.
pub open spec fn indent_of(line: Seq<char>) -> Seq<char> {
    line.take(indent_width(line) as int)
}

/// The indentation shared by those of the first `n` lines that are not
/// blank, or `None` if all of them are.
pub open spec fn shared_indent(text: Seq<char>, n: nat) -> Option<Seq<char>>
    decreases n,
{
    if n == 0 {
        None
    } else {
        let before = shared_indent(text, (n - 1) as nat);
        let line = line_at(text, n - 1);
        if is_blank(line) {
            before
        } else {
            match before {
                Some(c) => Some(c.take(common_width(c, indent_of(line)) as int)),
                None => Some(indent_of(line)),
            }
        }
    }
}

/// What the first `n` lines contribute once `width` characters are taken
/// off the front of each line that is not blank. A blank line leaves a
/// newline, unless it is the first or the last line of the text.
pub open spec fn stripped(text: Seq<char>, width: nat, n: nat) -> Seq<char>
    decreases n,
{
    if n == 0 {
        Seq::empty()
    } else {
        let before = stripped(text, width, (n - 1) as nat);
        let line = line_at(text, n - 1);
        if is_blank(line) {
            if n - 1 != 0 && n - 1 != lines_of(text).len() - 1 {
                before + "\n"@
            } else {
                before
            }
        } else {
            before + line.skip(width as int)
        }
    }
}

/// The text without the indentation that its lines share; the text itself
/// where they share none.
pub open spec fn unindent_of(text: Seq<char>) -> Seq<char> {
    let n = lines_of(text).len();
    match shared_indent(text, n) {
        Some(c) => if c.len() != 0 {
            stripped(text, c.len(), n)
        } else {
            text
        },
        None => text,
    }
}

pub proof fn lemma_indent_width_bound(line: Seq<char>)
    ensures
        indent_width(line) <= line.len(),
    decreases line.len(),
{
    if line.len() > 0 && is_indent(line[0]) {
        lemma_indent_width_bound(line.drop_first());
    }
}

/// The shared indentation is no longer than the indentation of any line
/// that is not blank.
pub proof fn lemma_shared_indent_fits(text: Seq<char>, n: nat, k: int)
    requires
        0 <= k < n,
        !is_blank(line_at(text, k)),
    ensures
        shared_indent(text, n) is Some,
        shared_indent(text, n)->0.len() <= indent_width(line_at(text, k)),
    decreases n,
{
    let before = shared_indent(text, (n - 1) as nat);
    let line = line_at(text, n - 1);
    lemma_indent_width_bound(line);
    if k < n - 1 {
        lemma_shared_indent_fits(text, (n - 1) as nat, k);
    }
    if !is_blank(line) {
        if let Some(c) = before {
            let m = if c.len() <= indent_of(line).len() {
                c.len()
            } else {
                indent_of(line).len()
            };
            lemma_agree_end_bound(c, indent_of(line), m);
        }
    }
}

/// The line that the `k`-th pair of offsets marks.
fn line_of<'a>(text: &'a str, found: &Vec<(usize, usize)>, k: usize) -> (r: &'a str)
    requires
        found@ == lines_of(text@),
        k < found.len(),
    ensures
        r@ == line_at(text@, k as int),
{
    let (start, end) = found[k];
    let total = text.as_bytes().len();
    proof {
        let bytes = encode_utf8(text@);
        assert(bytes.len() == total);
        encode_utf8_valid_utf8(text@);
        lemma_lines_within(bytes, bytes.len());
        let l = lines_within(bytes, bytes.len())[k as int];
        lemma_boundary_after_single(bytes, end - 1);
        if start > 0 {
            lemma_boundary_after_single(bytes, start - 1);
        }
    }
    between(text, start, end)
}

pub fn unindent(text: &str) -> (r: String)
    ensures
        r@ == unindent_of(text@),
{
    let found = lines(text);
    let mut shared: Option<&str> = None;
    let mut i: usize = 0;
    while i < found.len()
        invariant
            i <= found.len(),
            found@ == lines_of(text@),
            shared is Some == shared_indent(text@, i as nat) is Some,
            shared matches Some(c) ==> shared_indent(text@, i as nat) == Some(c@),
        decreases found.len() - i,
    {
        let line = line_of(text, &found, i);
        if !blank(line) {
            let indent = indentation(line);
            shared = match shared {
                Some(c) => Some(common(c, indent)),
                None => Some(indent),
            };
        }
        i += 1;
    }
    if let Some(c) = shared {
        let width = c.unicode_len();
        if width != 0 {
            let mut output = String::new();
            let mut i: usize = 0;
            while i < found.len()
                invariant
                    i <= found.len(),
                    found@ == lines_of(text@),
                    shared_indent(text@, found@.len()) == Some(c@),
                    width == c@.len(),
                    output@ == stripped(text@, width as nat, i as nat),
                decreases found.len() - i,
            {
                let line = line_of(text, &found, i);
                if blank(line) {
                    if i != 0 && i != found.len() - 1 {
                        output.append("\n");
                    }
                } else {
                    proof {
                        lemma_shared_indent_fits(text@, found@.len(), i as int);
                        lemma_indent_width_bound(line@);
                    }
                    let rest = line.substring_char(width, line.unicode_len());
                    assert(rest@ == line@.skip(width as int));
                    output.append(rest);
                }
                i += 1;
            }
            return output;
        }
    }
    text.to_owned()
}

} // verus!
