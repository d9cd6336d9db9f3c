//! The error formatter: a failure of the tokenizer becomes a message with
//! the offending line of the source.

use vstd::prelude::*;
use vstd::slice::slice_subrange;
use vstd::string::{StringExecFns, StringSliceAdditionalSpecFns};
use vstd::utf8::{
    decode_utf8, encode_utf8_decode_utf8, encode_utf8_valid_utf8, is_char_boundary,
    is_char_boundary_start_end_of_seq, length_of_first_scalar, pop_first_scalar, valid_utf8,
    valid_utf8_split,
};
use crate::events::ScanFault;
use crate::text::{decimal_chars, decimal_string, push_repeated, repeat_char};

verus! {

/// The line feed.
pub const NEWLINE: u8 = 0x0a;

/// The carriage return.
pub const CARRIAGE_RETURN: u8 = 0x0d;

/// The index of the first newline at or after `from`; the length of the
/// text when there is none.
pub open spec fn next_newline(s: Seq<u8>, from: int) -> int
    decreases s.len() - from,
{
    if from >= s.len() {
        s.len() as int
    } else if s[from] == NEWLINE {
        from
    } else {
        next_newline(s, from + 1)
    }
}

/// Where line `n` starts, counting from zero: after the newline that ends
/// the line before. The length of the text when there is no such line.
pub open spec fn line_start(s: Seq<u8>, n: nat) -> int
    decreases n,
{
    if n == 0 {
        0
    } else {
        let before = line_start(s, (n - 1) as nat);
        if before >= s.len() || next_newline(s, before) >= s.len() {
            s.len() as int
        } else {
            next_newline(s, before) + 1
        }
    }
}

/// Where the line that starts at `start` ends: before its newline, and
/// before the carriage return in front of that, if there is one.
pub open spec fn line_end(s: Seq<u8>, start: int) -> int {
    let newline = next_newline(s, start);
    if start < newline < s.len() && s[newline - 1] == CARRIAGE_RETURN {
        newline - 1
    } else {
        newline
    }
}

/// The text has a line `n`, counting from zero.
pub open spec fn has_line(s: Seq<u8>, n: nat) -> bool {
    line_start(s, n) < s.len()
}

/// The bytes of line `n`, without its line ending.
pub open spec fn line_bytes(s: Seq<u8>, n: nat) -> Seq<u8> {
    s.subrange(line_start(s, n), line_end(s, line_start(s, n)))
}

/// `count` spaces.
pub open spec fn spaces(count: nat) -> Seq<char> {
    repeat_char(' ', count)
}

/// The first line of a report: where the failure is, the column counted
/// from one.
pub open spec fn header_text(line: nat, col: nat) -> Seq<char> {
    "YAML parse error at line "@ + decimal_chars(line) + ", column "@ + decimal_chars(col + 1)
        + "\n"@
}

/// The three lines that show the source: an empty gutter line, the
/// numbered line, and a caret under column `col`, counted from zero.
pub open spec fn context_text(text: Seq<char>, line: nat, col: nat) -> Seq<char> {
    let gutter = decimal_chars(line).len();
    spaces(gutter) + " |\n"@ + decimal_chars(line) + " | "@ + text + "\n"@ + spaces(gutter) + " |"@
        + spaces(col) + " ^\n"@
}

/// The report of a failure at line `line`, counted from one, and column
/// `col`, counted from zero: the header, the context where the source has
/// that line, and the tokenizer's own message.
pub open spec fn report_text(source: Seq<u8>, line: nat, col: nat, info: Seq<char>) -> Seq<char> {
    header_text(line, col) + (if line >= 1 && has_line(source, (line - 1) as nat) {
        context_text(decode_utf8(line_bytes(source, (line - 1) as nat)), line, col)
    } else {
        Seq::empty()
    }) + info
}

/// The first newline at or after `from` is at `p`.
pub proof fn lemma_next_newline(s: Seq<u8>, from: int, p: int)
    requires
        0 <= from <= p <= s.len(),
        forall|j: int| from <= j < p ==> #[trigger] s[j] != NEWLINE,
        p < s.len() ==> s[p] == NEWLINE,
    ensures
        next_newline(s, from) == p,
    decreases p - from,
{
    if from < p {
        lemma_next_newline(s, from + 1, p);
    }
}

/// In valid UTF-8 an ASCII byte stands on a character boundary, and so
/// does the byte after it.
pub proof fn lemma_boundary_after_ascii(bytes: Seq<u8>, p: int)
    requires
        valid_utf8(bytes),
        0 <= p < bytes.len(),
        bytes[p] <= 0x7f,
    ensures
        is_char_boundary(bytes, p),
        is_char_boundary(bytes, p + 1),
    decreases bytes.len(),
{
    reveal_with_fuel(is_char_boundary, 2);
    let first = length_of_first_scalar(bytes);
    let rest = pop_first_scalar(bytes);
    if p != 0 {
        assert(rest[p - first] == bytes[p]);
        lemma_boundary_after_ascii(rest, p - first);
    }
}

/// The index of the first newline at or after `from`.
pub fn find_newline(bytes: &[u8], from: usize) -> (r: usize)
    requires
        from <= bytes@.len(),
    ensures
        r == next_newline(bytes@, from as int),
        from <= r <= bytes@.len(),
{
    let total = bytes.len();
    let tail = slice_subrange(bytes, from, total);
    let found = match memchr::memchr(NEWLINE, tail) {
        Some(at) => at,
        None => tail.len(),
    };
    proof {
        assert forall|j: int| from <= j < from + found implies #[trigger] bytes@[j] != NEWLINE by {
            assert(tail@[j - from] == bytes@[j]);
        }
        if found < tail@.len() {
            assert(tail@[found as int] == bytes@[from + found]);
        }
        lemma_next_newline(bytes@, from as int, from + found);
    }
    from + found
}

/// Where line `n` of the text starts and ends, counting from zero; `None`
/// when the text has no such line.
pub fn find_line(bytes: &[u8], n: usize) -> (r: Option<(usize, usize)>)
    ensures
        match r {
            Some((start, end)) => has_line(bytes@, n as nat) && start == line_start(
                bytes@,
                n as nat,
            ) && end == line_end(bytes@, start as int) && start <= end <= bytes@.len(),
            None => !has_line(bytes@, n as nat),
        },
{
    let total = bytes.len();
    let mut start: usize = 0;
    let mut k: usize = 0;
    while k < n
        invariant
            k <= n,
            total == bytes@.len(),
            start == line_start(bytes@, k as nat),
            start <= total,
        decreases n - k,
    {
        if start >= total {
            proof {
                lemma_no_more_lines(bytes@, k as nat, n as nat);
            }
            return None;
        }
        let newline = find_newline(bytes, start);
        if newline >= total {
            proof {
                assert(line_start(bytes@, (k + 1) as nat) == total);
                lemma_no_more_lines(bytes@, (k + 1) as nat, n as nat);
            }
            return None;
        }
        start = newline + 1;
        k += 1;
    }
    if start >= total {
        return None;
    }
    let newline = find_newline(bytes, start);
    let end = if start < newline && newline < total && bytes[newline - 1] == CARRIAGE_RETURN {
        newline - 1
    } else {
        newline
    };
    Some((start, end))
}

/// After the last line there is no line.
pub proof fn lemma_no_more_lines(s: Seq<u8>, k: nat, n: nat)
    requires
        k <= n,
        line_start(s, k) >= s.len(),
    ensures
        line_start(s, n) >= s.len(),
    decreases n - k,
{
    if k < n {
        lemma_no_more_lines(s, k, (n - 1) as nat);
    }
}

/// Appends `count` spaces to `out`.
pub fn push_spaces(out: &mut String, count: usize)
    ensures
        final(out)@ == old(out)@ + spaces(count as nat),
{
    proof {
        reveal_strlit(" ");
    }
    push_repeated(out, " ", count);
}

/// The text of line `n` of the source, counting from zero, without its
/// line ending; `None` when the source has no such line.
pub fn source_line<'a>(source: &'a str, n: usize) -> (r: Option<&'a str>)
    ensures
        match r {
            Some(text) => has_line(source.spec_bytes(), n as nat) && text@ == decode_utf8(
                line_bytes(source.spec_bytes(), n as nat),
            ),
            None => !has_line(source.spec_bytes(), n as nat),
        },
{
    let bytes = source.as_bytes();
    let (start, end) = match find_line(bytes, n) {
        Some(bounds) => bounds,
        None => {
            return None;
        },
    };
    let ghost all = source.spec_bytes();
    proof {
        encode_utf8_valid_utf8(source@);
        if start > 0 {
            lemma_line_start_follows_newline(all, n as nat);
            lemma_boundary_after_ascii(all, start - 1);
        }
        valid_utf8_split(all, start as int);
    }
    let (_, rest) = source.split_at(start);
    proof {
        let tail = rest.spec_bytes();
        is_char_boundary_start_end_of_seq(tail);
        if end < all.len() {
            lemma_line_end_is_ascii(all, start as int);
            lemma_boundary_after_ascii(tail, end - start);
        }
    }
    let (text, _) = rest.split_at(end - start);
    proof {
        assert(text.spec_bytes() =~= line_bytes(all, n as nat));
        encode_utf8_decode_utf8(text@);
    }
    Some(text)
}

/// A line after the first starts right after a newline.
pub proof fn lemma_line_start_follows_newline(s: Seq<u8>, n: nat)
    requires
        0 < line_start(s, n) < s.len(),
    ensures
        s[line_start(s, n) - 1] == NEWLINE,
    decreases n,
{
    if n > 0 {
        let before = line_start(s, (n - 1) as nat);
        lemma_line_start_bounds(s, (n - 1) as nat);
        lemma_next_newline_is_newline(s, before);
    }
}

/// A line starts within the text or at its end.
pub proof fn lemma_line_start_bounds(s: Seq<u8>, n: nat)
    ensures
        0 <= line_start(s, n) <= s.len(),
    decreases n,
{
    if n > 0 {
        lemma_line_start_bounds(s, (n - 1) as nat);
        lemma_next_newline_is_newline(s, line_start(s, (n - 1) as nat));
    }
}

/// Where a newline is found, there is one.
pub proof fn lemma_next_newline_is_newline(s: Seq<u8>, from: int)
    requires
        0 <= from,
    ensures
        from <= next_newline(s, from) || from > s.len(),
        next_newline(s, from) < s.len() ==> s[next_newline(s, from)] == NEWLINE,
    decreases s.len() - from,
{
    if from < s.len() && s[from] != NEWLINE {
        lemma_next_newline_is_newline(s, from + 1);
    }
}

/// A line that ends before the end of the text ends at a newline or at a
/// carriage return.
pub proof fn lemma_line_end_is_ascii(s: Seq<u8>, start: int)
    requires
        0 <= start <= s.len(),
        line_end(s, start) < s.len(),
    ensures
        s[line_end(s, start)] <= 0x7f,
        start <= line_end(s, start),
{
    lemma_next_newline_is_newline(s, start);
}

/// Appends the first line of a report.
fn push_header(out: &mut String, line: usize, col: usize)
    requires
        col < usize::MAX,
    ensures
        final(out)@ == old(out)@ + header_text(line as nat, col as nat),
{
    out.append("YAML parse error at line ");
    out.append(decimal_string(line as u64).as_str());
    out.append(", column ");
    out.append(decimal_string((col + 1) as u64).as_str());
    out.append("\n");
}

/// Appends the three lines that show the source.
fn push_context(out: &mut String, text: &str, line: usize, col: usize)
    ensures
        final(out)@ == old(out)@ + context_text(text@, line as nat, col as nat),
{
    let number = decimal_string(line as u64);
    let gutter = number.as_str().unicode_len();
    push_spaces(out, gutter);
    out.append(" |\n");
    out.append(number.as_str());
    out.append(" | ");
    out.append(text);
    out.append("\n");
    push_spaces(out, gutter);
    out.append(" |");
    push_spaces(out, col);
    out.append(" ^\n");
}

/// Formats a failure of the tokenizer for a reader. The message starts
/// with `YAML parse error at line L, column C`, the column counted from
/// one. Where the source has line L, three lines of context follow: an
/// empty gutter, the numbered source line, and a caret under the column.
/// The tokenizer's own message ends the report.
pub fn format_error(source: &str, fault: &ScanFault) -> (r: String)
    requires
        fault.col < usize::MAX,
    ensures
        r@ == report_text(source.spec_bytes(), fault.line as nat, fault.col as nat, fault.info@),
{
    let line = fault.line;
    let mut out = String::new();
    push_header(&mut out, line, fault.col);
    let found = if line >= 1 {
        source_line(source, line - 1)
    } else {
        None
    };
    match found {
        Some(text) => {
            push_context(&mut out, text, line, fault.col);
        },
        None => {},
    }
    out.append(fault.info.as_str());
    out
}

} // verus!
