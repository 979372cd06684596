//! Formatting of diagnostics: a caret-underlined excerpt of the offending
//! source line, or the bare message for faults at end of input.

use crate::lexer::spec_comment_end;
use crate::lexer::Error;
use crate::lexer::push_char;
use crate::parser::spec_replicate;
use vstd::prelude::*;

verus! {

use vstd::string::StrSliceExecFns;
use vstd::string::StringExecFns;

/// The digit character for one decimal digit.
pub open spec fn spec_digit_char(d: int) -> char {
    (('0' as u8) + d) as char
}

/// The decimal numeral of a natural number.
pub open spec fn spec_fmt_nat(n: int) -> Seq<char>
    decreases n,
{
    if n < 10 {
        seq![spec_digit_char(if n < 0 {
            0
        } else {
            n % 10
        })]
    } else {
        spec_fmt_nat(n / 10).push(spec_digit_char(n % 10))
    }
}

/// The decimal numeral of `n`, as `spec_fmt_nat`.
pub fn fmt_usize(n: usize) -> (r: String)
    ensures
        r@ == spec_fmt_nat(n as int),
    decreases n,
{
    if n < 10 {
        let mut s = String::new();
        push_char(&mut s, (('0' as u8) + (n as u8)) as char);
        proof {
            assert(s@ =~= seq![spec_digit_char(n as int)]);
        }
        s
    } else {
        let mut s = fmt_usize(n / 10);
        push_char(&mut s, (('0' as u8) + ((n % 10) as u8)) as char);
        s
    }
}

/// The index where line `k` (0-based) starts in `p`: 0 for the first line,
/// one past the k-th newline otherwise, or the end of the text where there
/// are fewer lines.
pub open spec fn spec_line_start(p: Seq<char>, k: int) -> int
    decreases k,
{
    if k <= 0 {
        0
    } else {
        let prev = spec_line_start(p, k - 1);
        if 0 <= prev <= p.len() {
            let e = spec_comment_end(p, prev);
            if e < p.len() {
                e + 1
            } else {
                p.len() as int
            }
        } else {
            p.len() as int
        }
    }
}

/// Line starts stay inside the text.
pub proof fn lemma_line_start_bounds(p: Seq<char>, k: int)
    ensures
        0 <= spec_line_start(p, k) <= p.len(),
    decreases k,
{
    if k > 0 {
        lemma_line_start_bounds(p, k - 1);
        crate::lexer::lemma_run_end_bounds(p, spec_line_start(p, k - 1));
    }
}

/// The text of line `k` (0-based) of `p`, without its newline; empty where
/// there are fewer lines.
pub open spec fn spec_nth_line(p: Seq<char>, k: int) -> Seq<char> {
    let s = spec_line_start(p, k);
    if 0 <= s <= p.len() {
        p.subrange(s, spec_comment_end(p, s))
    } else {
        Seq::empty()
    }
}

/// The text of line `k` of `program`, as `spec_nth_line`.
pub fn nth_line(program: &str, k: usize) -> (r: Vec<char>)
    ensures
        r@ == spec_nth_line(program@, k as int),
{
    let ghost p = program@;
    let n = program.unicode_len();
    let mut start: usize = 0;
    let mut lines_seen: usize = 0;
    proof {
        lemma_line_start_bounds(p, k as int);
    }
    while lines_seen < k
        invariant
            lines_seen <= k,
            n == p.len(),
            program@ == p,
            start as int == spec_line_start(p, lines_seen as int),
            start <= n,
        decreases k - lines_seen,
    {
        // Walk to the end of the current line, then past its newline.
        let ghost ls = spec_line_start(p, lines_seen as int);
        let mut j = start;
        while j < n && program.get_char(j) != '\n'
            invariant
                start <= j <= n,
                n == p.len(),
                program@ == p,
                start as int == spec_line_start(p, lines_seen as int),
                spec_comment_end(p, start as int) == spec_comment_end(p, j as int),
            decreases n - j,
        {
            j = j + 1;
        }
        proof {
            assert(spec_comment_end(p, j as int) == j as int);
        }
        if j < n {
            start = j + 1;
        } else {
            start = n;
        }
        lines_seen = lines_seen + 1;
        proof {
            lemma_line_start_bounds(p, lines_seen as int);
        }
    }
    // Collect the line's characters.
    let mut out: Vec<char> = Vec::new();
    let mut j = start;
    proof {
        assert(out@ =~= p.subrange(start as int, start as int));
    }
    while j < n && program.get_char(j) != '\n'
        invariant
            start <= j <= n,
            n == p.len(),
            program@ == p,
            start as int == spec_line_start(p, k as int),
            spec_comment_end(p, start as int) == spec_comment_end(p, j as int),
            out@ == p.subrange(start as int, j as int),
        decreases n - j,
    {
        let c = program.get_char(j);
        out.push(c);
        proof {
            assert(out@ =~= p.subrange(start as int, j + 1));
        }
        j = j + 1;
    }
    proof {
        assert(spec_comment_end(p, j as int) == j as int);
    }
    out
}

/// A string of `n` copies of `c`.
pub fn repeat_char(c: char, n: usize) -> (r: String)
    ensures
        r@ == spec_replicate(c, n as nat),
{
    let mut s = String::new();
    let mut i: usize = 0;
    proof {
        assert(s@ =~= spec_replicate(c, 0nat));
    }
    while i < n
        invariant
            i <= n,
            s@ == spec_replicate(c, i as nat),
        decreases n - i,
    {
        push_char(&mut s, c);
        i = i + 1;
    }
    s
}

/// The full text of a formatted diagnostic for an error inside the text:
/// the message, the position, the offending source line, and a caret line
/// under the offending span.
pub open spec fn spec_build_error(
    p: Seq<char>,
    msg: Seq<char>,
    line: int,
    col: int,
    end_col: int,
) -> Seq<char> {
    let pad = if col >= 2 {
        col - 2
    } else {
        0
    };
    let carets = if end_col >= col {
        end_col - col + 1
    } else {
        1
    };
    "\n\u{1b}[91m\u{1b}[1mError:\u{1b}[m "@ + msg + ":\n-> main.cell:"@ + spec_fmt_nat(line)
        + ":"@ + spec_fmt_nat(col) + " \n| "@ + spec_nth_line(p, line - 1) + "\n| \u{1b}[92m\u{1b}[1m"@
        + spec_replicate(' ', pad as nat) + spec_replicate('^', carets as nat) + "\n    "@
}

/// Format a diagnostic against its source text: the bare message for a
/// fault at end of input, otherwise the message with the offending line
/// excerpted and caret-underlined, as `spec_build_error`.
pub fn build_error(program: &str, error: Error) -> (r: String)
    requires
        error.start.col >= 1,
    ensures
        error.start.end ==> r@ == error.msg@,
        !error.start.end ==> r@ == spec_build_error(
            program@,
            error.msg@,
            error.start.line as int,
            error.start.col as int,
            error.end.col as int,
        ),
{
    if error.start.end {
        return error.msg;
    }
    let pad: usize = if error.start.col >= 2 {
        error.start.col - 2
    } else {
        0
    };
    let carets: usize = if error.end.col >= error.start.col {
        error.end.col - error.start.col + 1
    } else {
        1
    };
    let line_chars = nth_line(
        program,
        if error.start.line >= 1 {
            error.start.line - 1
        } else {
            0
        },
    );
    let line_text = crate::lexer::string_from_chars(&line_chars);
    let out = String::from_str("\n\u{1b}[91m\u{1b}[1mError:\u{1b}[m ").concat(
        error.msg.as_str(),
    ).concat(":\n-> main.cell:").concat(fmt_usize(error.start.line).as_str()).concat(":").concat(
        fmt_usize(error.start.col).as_str(),
    ).concat(" \n| ").concat(line_text.as_str()).concat("\n| \u{1b}[92m\u{1b}[1m").concat(
        repeat_char(' ', pad).as_str(),
    ).concat(repeat_char('^', carets).as_str()).concat("\n    ");
    out
}

} // verus!
