//! The recursive-descent parser: a token sequence to positioned syntax
//! trees.
//!
//! Expressions are parsed right-recursively; a single tree rotation per step
//! reorders the result so that tighter-binding operators sit deeper.
//! Statements dispatch on their leading marker token; the first parse fault
//! aborts with its diagnostic.

use crate::ast::spec_pnode;
use crate::ast::Node;
use crate::ast::PNode;
use crate::ast::SpecNode;
use crate::ast::SpecPNode;
use crate::lexer::clone_ptoken;
use crate::lexer::spec_token_name;
use crate::lexer::Error;
use crate::lexer::PToken;
use crate::lexer::SpecError;
use crate::lexer::SpecToken;
use crate::lexer::Token;
use crate::positioned::pos_le;
use crate::positioned::Position;
use crate::positioned::Positioned;
use crate::positioned::Spanned;
use crate::value::SpecValue;
use crate::value::Value;
use vstd::prelude::*;

verus! {

/// The image of a token sequence.
pub type TokSeq = Seq<Spanned<SpecToken>>;

/// The end-of-input sentinel token the parser sees past the last real one.
pub open spec fn spec_eof_token() -> Spanned<SpecToken> {
    Spanned {
        inner: SpecToken::EOF,
        start: Position { line: 1, col: 1, end: true },
        end: Position { line: 1, col: 1, end: true },
    }
}

/// The token at position `i`, or the end-of-input sentinel beyond the end.
pub open spec fn spec_peek_at(toks: TokSeq, i: int) -> Spanned<SpecToken> {
    if 0 <= i < toks.len() {
        toks[i]
    } else {
        spec_eof_token()
    }
}

/// The position after consuming the token at `i`: one further inside the
/// sequence, unchanged at its end.
pub open spec fn spec_step_idx(toks: TokSeq, i: int) -> int {
    if 0 <= i < toks.len() {
        i + 1
    } else {
        i
    }
}

/// The binding rank of an operator token: comparisons and logical operators
/// bind loosest, sums next, products tightest; anything else is no operator.
pub open spec fn spec_op_order(t: SpecToken) -> int {
    match t {
        SpecToken::Lesser => 0,
        SpecToken::LesserThan => 0,
        SpecToken::Greater => 0,
        SpecToken::GreaterThan => 0,
        SpecToken::Or => 0,
        SpecToken::And => 0,
        SpecToken::NotEquals => 0,
        SpecToken::Equals => 0,
        SpecToken::Mod => 0,
        SpecToken::Plus => 1,
        SpecToken::Minus => 1,
        SpecToken::Asterisk => 2,
        SpecToken::Slash => 2,
        _ => 100,
    }
}

/// Whether a token is a binary operator.
pub open spec fn spec_is_op(t: SpecToken) -> bool {
    spec_op_order(t) < 50
}

/// The diagnostic for finding `found` where `expected` was required.
pub open spec fn spec_msg_expected(expected: SpecToken, found: SpecToken) -> Seq<char> {
    "Expected "@ + spec_token_name(expected) + " found "@ + spec_token_name(found)
}

/// The diagnostic for a token that cannot start an expression.
pub open spec fn spec_msg_expected_expression(found: SpecToken) -> Seq<char> {
    "Expected expression but got "@ + spec_token_name(found)
}

/// The diagnostic for a missing identifier.
pub open spec fn spec_msg_expected_ident(found: SpecToken) -> Seq<char> {
    "Expected identifier found "@ + spec_token_name(found)
}

/// The diagnostic for a missing number.
pub open spec fn spec_msg_expected_number(found: SpecToken) -> Seq<char> {
    "Expected number found "@ + spec_token_name(found)
}

/// The diagnostic for a parenthesized expression followed by neither a comma
/// nor a closing parenthesis.
pub open spec fn spec_msg_expected_comma_or_close(found: SpecToken) -> Seq<char> {
    "Expected , or ), found "@ + spec_token_name(found)
}

/// The diagnostic `e` pointing at token `t`.
pub open spec fn spec_err_at(t: Spanned<SpecToken>, msg: Seq<char>) -> SpecError {
    SpecError { msg: msg, start: t.start, end: t.end }
}

/// What parsing one expression (or statement) gives: the node or the
/// diagnostic, and the position after everything consumed.
pub ghost struct ParseOut {
    pub out: Result<SpecPNode, SpecError>,
    pub next: int,
}

/// What parsing a list of expressions gives.
pub ghost struct ParseListOut {
    pub out: Result<Seq<SpecPNode>, SpecError>,
    pub next: int,
}

/// What parsing a list of identifiers gives.
pub ghost struct ParseNamesOut {
    pub out: Result<Seq<Seq<char>>, SpecError>,
    pub next: int,
}

/// What parsing a whole program gives.
pub ghost struct ParseAllOut {
    pub out: Result<Seq<SpecPNode>, SpecError>,
    pub next: int,
}

/// A result that no parse ever produces; it marks recursion guards that
/// bound-monotonicity arguments show unreachable.
pub open spec fn spec_p_bail(i: int) -> ParseOut {
    ParseOut {
        out: Err(
            SpecError {
                msg: Seq::empty(),
                start: Position { line: 1, col: 1, end: true },
                end: Position { line: 1, col: 1, end: true },
            },
        ),
        next: i,
    }
}

/// A binary node over two parsed operands, spanned as `new_binary` builds
/// it.
pub open spec fn spec_binary(l: SpecPNode, op: SpecToken, r: SpecPNode) -> SpecPNode {
    Spanned {
        inner: SpecNode::Binary { left: Box::new(l), op: op, right: Box::new(r) },
        start: if pos_le(l.start, r.start) {
            l.start
        } else {
            r.start
        },
        end: if pos_le(l.end, r.end) {
            r.end
        } else {
            l.end
        },
    }
}

/// A primary expression: a literal, an array, a variable, a parenthesized
/// expression or tuple, a direction, the wildcard, or a neighbor sum;
/// anything else is a parse fault naming the unexpected token.
pub open spec fn spec_p_simple(toks: TokSeq, i: int) -> ParseOut
    decreases toks.len() - i, 0int,
        when 0 <= i <= toks.len()
{
    let t = spec_peek_at(toks, i);
    let j = spec_step_idx(toks, i);
    match t.inner {
        SpecToken::Literal(v) => ParseOut {
            out: Ok(Spanned { inner: SpecNode::Literal(v), start: t.start, end: t.end }),
            next: j,
        },
        SpecToken::OpenBracket => {
            let t2 = spec_peek_at(toks, j);
            if t2.inner is CloseBracket {
                ParseOut {
                    out: Ok(
                        Spanned {
                            inner: SpecNode::Array(Seq::empty()),
                            start: t.start,
                            end: t2.end,
                        },
                    ),
                    next: spec_step_idx(toks, j),
                }
            } else {
                let lst = spec_p_expr_list(toks, j);
                match lst.out {
                    Err(e) => ParseOut { out: Err(e), next: lst.next },
                    Ok(items) => {
                        let nt = spec_peek_at(toks, lst.next);
                        if nt.inner is CloseBracket {
                            ParseOut {
                                out: Ok(
                                    Spanned {
                                        inner: SpecNode::Array(items),
                                        start: t.start,
                                        end: nt.end,
                                    },
                                ),
                                next: spec_step_idx(toks, lst.next),
                            }
                        } else {
                            ParseOut {
                                out: Err(
                                    spec_err_at(
                                        nt,
                                        spec_msg_expected(SpecToken::CloseBracket, nt.inner),
                                    ),
                                ),
                                next: spec_step_idx(toks, lst.next),
                            }
                        }
                    },
                }
            }
        },
        SpecToken::Identifier(name) => ParseOut {
            out: Ok(Spanned { inner: SpecNode::Variable(name), start: t.start, end: t.end }),
            next: j,
        },
        SpecToken::OpenParen => {
            let inner = spec_p_expr(toks, j);
            match inner.out {
                Err(e) => ParseOut { out: Err(e), next: inner.next },
                Ok(e) => {
                    let nt = spec_peek_at(toks, inner.next);
                    if nt.inner is CloseParen {
                        ParseOut { out: Ok(e), next: spec_step_idx(toks, inner.next) }
                    } else if nt.inner is Comma {
                        if i < inner.next && inner.next <= toks.len() {
                            let more = spec_p_expr_list_more(toks, seq![e], inner.next);
                            match more.out {
                                Err(e2) => ParseOut { out: Err(e2), next: more.next },
                                Ok(items) => {
                                    let ct = spec_peek_at(toks, more.next);
                                    if ct.inner is CloseParen {
                                        ParseOut {
                                            out: Ok(
                                                Spanned {
                                                    inner: SpecNode::Tuple(items),
                                                    start: t.start,
                                                    end: ct.end,
                                                },
                                            ),
                                            next: spec_step_idx(toks, more.next),
                                        }
                                    } else {
                                        ParseOut {
                                            out: Err(
                                                spec_err_at(
                                                    ct,
                                                    spec_msg_expected(
                                                        SpecToken::CloseParen,
                                                        ct.inner,
                                                    ),
                                                ),
                                            ),
                                            next: spec_step_idx(toks, more.next),
                                        }
                                    }
                                },
                            }
                        } else {
                            spec_p_bail(i)
                        }
                    } else {
                        ParseOut {
                            out: Err(spec_err_at(t, spec_msg_expected_comma_or_close(t.inner))),
                            next: inner.next,
                        }
                    }
                },
            }
        },
        SpecToken::At => {
            let nt = spec_peek_at(toks, j);
            match nt.inner {
                SpecToken::Identifier(name) => ParseOut {
                    out: Ok(
                        Spanned { inner: SpecNode::Directional(name), start: t.start, end: nt.end },
                    ),
                    next: spec_step_idx(toks, j),
                },
                _ => ParseOut {
                    out: Err(spec_err_at(nt, spec_msg_expected_ident(nt.inner))),
                    next: spec_step_idx(toks, j),
                },
            }
        },
        SpecToken::Underscore => ParseOut {
            out: Ok(
                Spanned {
                    inner: SpecNode::Literal(SpecValue::Unknown),
                    start: t.start,
                    end: t.end,
                },
            ),
            next: j,
        },
        SpecToken::Hash => {
            let nt = spec_peek_at(toks, j);
            if nt.inner is OpenParen {
                let inner = spec_p_expr(toks, spec_step_idx(toks, j));
                match inner.out {
                    Err(e) => ParseOut { out: Err(e), next: inner.next },
                    Ok(e) => {
                        let ct = spec_peek_at(toks, inner.next);
                        if ct.inner is CloseParen {
                            ParseOut {
                                out: Ok(
                                    Spanned {
                                        inner: SpecNode::Sum(Box::new(e)),
                                        start: t.end,
                                        end: ct.end,
                                    },
                                ),
                                next: spec_step_idx(toks, inner.next),
                            }
                        } else {
                            ParseOut {
                                out: Err(
                                    spec_err_at(ct, spec_msg_expected(SpecToken::CloseParen, ct.inner)),
                                ),
                                next: spec_step_idx(toks, inner.next),
                            }
                        }
                    },
                }
            } else {
                ParseOut {
                    out: Err(spec_err_at(nt, spec_msg_expected(SpecToken::OpenParen, nt.inner))),
                    next: spec_step_idx(toks, j),
                }
            }
        },
        _ => ParseOut { out: Err(spec_err_at(t, spec_msg_expected_expression(t.inner))), next: j },
    }
}

/// Postfix applications: each trailing `(args)` wraps the expression parsed
/// so far in a call node, left-associating.
pub open spec fn spec_p_call_post(toks: TokSeq, e: SpecPNode, i: int) -> ParseOut
    decreases toks.len() - i, 1int,
        when 0 <= i <= toks.len()
{
    let t = spec_peek_at(toks, i);
    if t.inner is OpenParen {
        let j = i + 1;
        let t2 = spec_peek_at(toks, j);
        let lst = if t2.inner is CloseParen {
            ParseListOut { out: Ok(Seq::empty()), next: j }
        } else {
            spec_p_expr_list(toks, j)
        };
        match lst.out {
            Err(e2) => ParseOut { out: Err(e2), next: lst.next },
            Ok(args) => {
                let nt = spec_peek_at(toks, lst.next);
                if nt.inner is CloseParen {
                    let e2 = Spanned {
                        inner: SpecNode::Call { expr: Box::new(e), args: args },
                        start: e.start,
                        end: nt.end,
                    };
                    if i < lst.next + 1 && lst.next + 1 <= toks.len() {
                        spec_p_call_post(toks, e2, lst.next + 1)
                    } else {
                        spec_p_bail(i)
                    }
                } else {
                    ParseOut {
                        out: Err(spec_err_at(nt, spec_msg_expected(SpecToken::CloseParen, nt.inner))),
                        next: spec_step_idx(toks, lst.next),
                    }
                }
            },
        }
    } else {
        ParseOut { out: Ok(e), next: i }
    }
}

/// A call-level expression: a primary expression with its postfix
/// applications.
pub open spec fn spec_p_call(toks: TokSeq, i: int) -> ParseOut
    decreases toks.len() - i, 2int,
        when 0 <= i <= toks.len()
{
    let s = spec_p_simple(toks, i);
    match s.out {
        Err(_) => s,
        Ok(e) => {
            if i <= s.next && s.next <= toks.len() {
                spec_p_call_post(toks, e, s.next)
            } else {
                spec_p_bail(i)
            }
        },
    }
}

/// An expression: a call-level operand, and if an operator follows, the rest
/// of the expression parsed right-recursively.  When the operator binds
/// tighter than the top of the right-hand tree, one rotation reorders them.
pub open spec fn spec_p_expr(toks: TokSeq, i: int) -> ParseOut
    decreases toks.len() - i, 3int,
        when 0 <= i <= toks.len()
{
    let l = spec_p_call(toks, i);
    match l.out {
        Err(_) => l,
        Ok(left) => {
            let t = spec_peek_at(toks, l.next);
            if spec_is_op(t.inner) {
                if i <= l.next && l.next < toks.len() {
                    let r = spec_p_expr(toks, l.next + 1);
                    match r.out {
                        Err(_) => r,
                        Ok(right) => {
                            let combined = match right.inner {
                                SpecNode::Binary { left: rl, op: rop, right: rr } => {
                                    if spec_op_order(t.inner) > spec_op_order(rop) {
                                        spec_binary(spec_binary(left, t.inner, *rl), rop, *rr)
                                    } else {
                                        spec_binary(left, t.inner, right)
                                    }
                                },
                                _ => spec_binary(left, t.inner, right),
                            };
                            ParseOut { out: Ok(combined), next: r.next }
                        },
                    }
                } else {
                    spec_p_bail(i)
                }
            } else {
                l
            }
        },
    }
}

/// The rest of a comma-separated expression list, after `acc` has been
/// parsed.
pub open spec fn spec_p_expr_list_more(toks: TokSeq, acc: Seq<SpecPNode>, i: int) -> ParseListOut
    decreases toks.len() - i, 5int,
        when 0 <= i <= toks.len()
{
    let t = spec_peek_at(toks, i);
    if t.inner is Comma {
        let nxt = spec_p_expr(toks, i + 1);
        match nxt.out {
            Err(e) => ParseListOut { out: Err(e), next: nxt.next },
            Ok(e) => {
                if i < nxt.next && nxt.next <= toks.len() {
                    spec_p_expr_list_more(toks, acc.push(e), nxt.next)
                } else {
                    ParseListOut { out: Err(spec_p_bail(i).out->Err_0), next: i }
                }
            },
        }
    } else {
        ParseListOut { out: Ok(acc), next: i }
    }
}

/// A comma-separated list of one or more expressions.
pub open spec fn spec_p_expr_list(toks: TokSeq, i: int) -> ParseListOut
    decreases toks.len() - i, 6int,
        when 0 <= i <= toks.len()
{
    let first = spec_p_expr(toks, i);
    match first.out {
        Err(e) => ParseListOut { out: Err(e), next: first.next },
        Ok(e) => {
            if i <= first.next && first.next <= toks.len() {
                spec_p_expr_list_more(toks, seq![e], first.next)
            } else {
                ParseListOut { out: Err(spec_p_bail(i).out->Err_0), next: i }
            }
        },
    }
}

/// `n` copies of `x`, in a row.
pub open spec fn spec_replicate<T>(x: T, n: nat) -> Seq<T>
    decreases n,
{
    if n == 0 {
        Seq::empty()
    } else {
        spec_replicate(x, (n - 1) as nat).push(x)
    }
}

/// The rest of a comma-separated identifier list, after `acc`.
pub open spec fn spec_p_ident_more(toks: TokSeq, acc: Seq<Seq<char>>, i: int) -> ParseNamesOut
    decreases toks.len() - i, 5int,
        when 0 <= i <= toks.len()
{
    let t = spec_peek_at(toks, i);
    if t.inner is Comma {
        let nt = spec_peek_at(toks, i + 1);
        match nt.inner {
            SpecToken::Identifier(name) => {
                if i + 2 <= toks.len() {
                    spec_p_ident_more(toks, acc.push(name), spec_step_idx(toks, i + 1))
                } else {
                    ParseNamesOut { out: Err(spec_p_bail(i).out->Err_0), next: i }
                }
            },
            _ => ParseNamesOut {
                out: Err(spec_err_at(nt, spec_msg_expected_ident(nt.inner))),
                next: spec_step_idx(toks, i + 1),
            },
        }
    } else {
        ParseNamesOut { out: Ok(acc), next: i }
    }
}

/// A comma-separated list of one or more identifiers.
pub open spec fn spec_p_ident_list(toks: TokSeq, i: int) -> ParseNamesOut
    decreases toks.len() - i, 6int,
        when 0 <= i <= toks.len()
{
    let t = spec_peek_at(toks, i);
    match t.inner {
        SpecToken::Identifier(name) => {
            let j = spec_step_idx(toks, i);
            if i <= j && j <= toks.len() {
                spec_p_ident_more(toks, seq![name], j)
            } else {
                ParseNamesOut { out: Err(spec_p_bail(i).out->Err_0), next: i }
            }
        },
        _ => ParseNamesOut {
            out: Err(spec_err_at(t, spec_msg_expected_ident(t.inner))),
            next: spec_step_idx(toks, i),
        },
    }
}

/// What reading the items of a grid block gives: the rows of palette names,
/// or a diagnostic.
pub ghost struct MemRowsOut {
    pub out: Result<Seq<Seq<Seq<char>>>, SpecError>,
    pub next: int,
}

/// The items of a grid block, read until its closing tilde: `name ':' count`
/// appends `count` copies of `name` to the current row, a pipe starts a new
/// row, a bare semicolon with a count duplicates the just-completed row that
/// many times in total, and anything else is ignored.  Reaching end of input
/// first is a parse fault.
pub open spec fn spec_p_memory_items(toks: TokSeq, rows: Seq<Seq<Seq<char>>>, i: int) -> MemRowsOut
    decreases toks.len() - i, 6int,
        when 0 <= i <= toks.len() && rows.len() > 0
{
    let t = spec_peek_at(toks, i);
    if t.inner is Tilde {
        MemRowsOut { out: Ok(rows), next: i }
    } else if t.inner is EOF {
        MemRowsOut {
            out: Err(spec_err_at(t, spec_msg_expected(SpecToken::Tilde, t.inner))),
            next: i,
        }
    } else {
        let j = i + 1;
        match t.inner {
            SpecToken::Identifier(name) => {
                let t2 = spec_peek_at(toks, j);
                if t2.inner is Colon {
                    let t3 = spec_peek_at(toks, j + 1);
                    match t3.inner {
                        SpecToken::Literal(v) => match v {
                            SpecValue::Int(n) => {
                                let grown = rows.update(
                                    rows.len() - 1,
                                    rows.last() + spec_replicate(name, n as nat),
                                );
                                if j + 2 <= toks.len() {
                                    spec_p_memory_items(toks, grown, j + 2)
                                } else {
                                    MemRowsOut { out: Err(spec_p_bail(i).out->Err_0), next: i }
                                }
                            },
                            _ => MemRowsOut {
                                out: Err(spec_err_at(t3, spec_msg_expected_number(t3.inner))),
                                next: spec_step_idx(toks, j + 1),
                            },
                        },
                        _ => MemRowsOut {
                            out: Err(spec_err_at(t3, spec_msg_expected_number(t3.inner))),
                            next: spec_step_idx(toks, j + 1),
                        },
                    }
                } else {
                    spec_p_memory_items(toks, rows, j)
                }
            },
            SpecToken::Pipe => spec_p_memory_items(
                toks,
                rows.push(Seq::empty()),
                j,
            ),
            SpecToken::Semicolon => {
                let t2 = spec_peek_at(toks, j);
                match t2.inner {
                    SpecToken::Literal(v) => match v {
                        SpecValue::Int(n) => {
                            let copies = if n >= 1 {
                                (n - 1) as nat
                            } else {
                                0nat
                            };
                            let grown = rows + spec_replicate(rows.last(), copies);
                            if j + 1 <= toks.len() {
                                spec_p_memory_items(toks, grown, j + 1)
                            } else {
                                MemRowsOut { out: Err(spec_p_bail(i).out->Err_0), next: i }
                            }
                        },
                        _ => MemRowsOut {
                            out: Err(spec_err_at(t2, spec_msg_expected_number(t2.inner))),
                            next: spec_step_idx(toks, j),
                        },
                    },
                    _ => MemRowsOut {
                        out: Err(spec_err_at(t2, spec_msg_expected_number(t2.inner))),
                        next: spec_step_idx(toks, j),
                    },
                }
            },
            _ => spec_p_memory_items(toks, rows, j),
        }
    }
}

/// A grid block: its rows of palette names between two tildes, spanned from
/// the opening tilde at `start` to the closing one.
pub open spec fn spec_p_memory(toks: TokSeq, i: int, start: Position) -> ParseOut
    decreases toks.len() - i, 7int,
        when 0 <= i <= toks.len()
{
    let items = spec_p_memory_items(toks, seq![Seq::<Seq<char>>::empty()], i);
    match items.out {
        Err(e) => ParseOut { out: Err(e), next: items.next },
        Ok(rows) => {
            let nt = spec_peek_at(toks, items.next);
            if nt.inner is Tilde {
                ParseOut {
                    out: Ok(
                        Spanned { inner: SpecNode::Memory(rows), start: start, end: nt.end },
                    ),
                    next: spec_step_idx(toks, items.next),
                }
            } else {
                ParseOut {
                    out: Err(spec_err_at(nt, spec_msg_expected(SpecToken::Tilde, nt.inner))),
                    next: spec_step_idx(toks, items.next),
                }
            }
        },
    }
}

/// A constant definition: `name = expr ;`, spanned from its marker at
/// `start` to the end of the expression.
pub open spec fn spec_p_variable(toks: TokSeq, i: int, start: Position) -> ParseOut
    decreases toks.len() - i, 7int,
        when 0 <= i <= toks.len()
{
    let t = spec_peek_at(toks, i);
    match t.inner {
        SpecToken::Identifier(name) => {
            let j = spec_step_idx(toks, i);
            let dt = spec_peek_at(toks, j);
            if dt.inner is Define {
                let k = spec_step_idx(toks, j);
                if i <= k && k <= toks.len() {
                    let v = spec_p_expr(toks, k);
                    match v.out {
                        Err(e) => ParseOut { out: Err(e), next: v.next },
                        Ok(value) => {
                            let st = spec_peek_at(toks, v.next);
                            if st.inner is Semicolon {
                                ParseOut {
                                    out: Ok(
                                        Spanned {
                                            inner: SpecNode::Definition {
                                                name: name,
                                                value: Box::new(value),
                                            },
                                            start: start,
                                            end: value.end,
                                        },
                                    ),
                                    next: spec_step_idx(toks, v.next),
                                }
                            } else {
                                ParseOut {
                                    out: Err(
                                        spec_err_at(
                                            st,
                                            spec_msg_expected(SpecToken::Semicolon, st.inner),
                                        ),
                                    ),
                                    next: spec_step_idx(toks, v.next),
                                }
                            }
                        },
                    }
                } else {
                    spec_p_bail(i)
                }
            } else {
                ParseOut {
                    out: Err(spec_err_at(dt, spec_msg_expected(SpecToken::Define, dt.inner))),
                    next: spec_step_idx(toks, j),
                }
            }
        },
        _ => ParseOut {
            out: Err(spec_err_at(t, spec_msg_expected_ident(t.inner))),
            next: spec_step_idx(toks, i),
        },
    }
}

/// A function declaration: `name(params) = expr` with an optional parameter
/// list, spanned from its marker at `start` to the end of the body.
pub open spec fn spec_p_func(toks: TokSeq, i: int, start: Position) -> ParseOut
    decreases toks.len() - i, 7int,
        when 0 <= i <= toks.len()
{
    let t = spec_peek_at(toks, i);
    match t.inner {
        SpecToken::Identifier(name) => {
            let j = spec_step_idx(toks, i);
            let pt = spec_peek_at(toks, j);
            let params_out: ParseNamesOut = if pt.inner is OpenParen {
                let k = spec_step_idx(toks, j);
                if i <= k && k <= toks.len() {
                    let ps = spec_p_ident_list(toks, k);
                    match ps.out {
                        Err(e) => ParseNamesOut { out: Err(e), next: ps.next },
                        Ok(params) => {
                            let ct = spec_peek_at(toks, ps.next);
                            if ct.inner is CloseParen {
                                ParseNamesOut {
                                    out: Ok(params),
                                    next: spec_step_idx(toks, ps.next),
                                }
                            } else {
                                ParseNamesOut {
                                    out: Err(
                                        spec_err_at(
                                            ct,
                                            spec_msg_expected(SpecToken::CloseParen, ct.inner),
                                        ),
                                    ),
                                    next: spec_step_idx(toks, ps.next),
                                }
                            }
                        },
                    }
                } else {
                    ParseNamesOut { out: Err(spec_p_bail(i).out->Err_0), next: i }
                }
            } else {
                ParseNamesOut { out: Ok(Seq::empty()), next: j }
            };
            match params_out.out {
                Err(e) => ParseOut { out: Err(e), next: params_out.next },
                Ok(params) => {
                    let dt = spec_peek_at(toks, params_out.next);
                    if dt.inner is Define {
                        let k2 = spec_step_idx(toks, params_out.next);
                        if i <= k2 && k2 <= toks.len() {
                            let b = spec_p_expr(toks, k2);
                            match b.out {
                                Err(e) => ParseOut { out: Err(e), next: b.next },
                                Ok(body) => ParseOut {
                                    out: Ok(
                                        Spanned {
                                            inner: SpecNode::Function {
                                                name: name,
                                                params: params,
                                                body: Box::new(body),
                                            },
                                            start: start,
                                            end: body.end,
                                        },
                                    ),
                                    next: b.next,
                                },
                            }
                        } else {
                            spec_p_bail(i)
                        }
                    } else {
                        ParseOut {
                            out: Err(
                                spec_err_at(dt, spec_msg_expected(SpecToken::Define, dt.inner)),
                            ),
                            next: spec_step_idx(toks, params_out.next),
                        }
                    }
                },
            }
        },
        _ => ParseOut {
            out: Err(spec_err_at(t, spec_msg_expected_ident(t.inner))),
            next: spec_step_idx(toks, i),
        },
    }
}

/// A rule: `centre |> conditional => result`, spanned from its marker at
/// `start` to the end of the result expression.
pub open spec fn spec_p_main(toks: TokSeq, i: int, start: Position, is_render: bool) -> ParseOut
    decreases toks.len() - i, 7int,
        when 0 <= i <= toks.len()
{
    let c = spec_p_expr(toks, i);
    match c.out {
        Err(_) => c,
        Ok(centre) => {
            let pt = spec_peek_at(toks, c.next);
            if pt.inner is Pipeline {
                let j = spec_step_idx(toks, c.next);
                if i <= j && j <= toks.len() {
                    let b = spec_p_expr(toks, j);
                    match b.out {
                        Err(_) => b,
                        Ok(conditional) => {
                            let at = spec_peek_at(toks, b.next);
                            if at.inner is Arrow {
                                let k = spec_step_idx(toks, b.next);
                                if i <= k && k <= toks.len() {
                                    let r = spec_p_expr(toks, k);
                                    match r.out {
                                        Err(_) => r,
                                        Ok(result) => ParseOut {
                                            out: Ok(
                                                Spanned {
                                                    inner: SpecNode::Main {
                                                        centre: Box::new(centre),
                                                        conditional: Box::new(conditional),
                                                        result: Box::new(result),
                                                        is_render: is_render,
                                                    },
                                                    start: start,
                                                    end: result.end,
                                                },
                                            ),
                                            next: r.next,
                                        },
                                    }
                                } else {
                                    spec_p_bail(i)
                                }
                            } else {
                                ParseOut {
                                    out: Err(
                                        spec_err_at(at, spec_msg_expected(SpecToken::Arrow, at.inner)),
                                    ),
                                    next: spec_step_idx(toks, b.next),
                                }
                            }
                        },
                    }
                } else {
                    spec_p_bail(i)
                }
            } else {
                ParseOut {
                    out: Err(spec_err_at(pt, spec_msg_expected(SpecToken::Pipeline, pt.inner))),
                    next: spec_step_idx(toks, c.next),
                }
            }
        },
    }
}

/// A statement: a grid block after a tilde, a definition after a not marker,
/// a function declaration after a pipeline marker, a transition or render
/// rule after an at or sign marker, or a bare expression ended by a
/// semicolon.
pub open spec fn spec_p_statement(toks: TokSeq, i: int) -> ParseOut
    decreases toks.len() - i, 8int,
        when 0 <= i <= toks.len()
{
    let t = spec_peek_at(toks, i);
    let j = spec_step_idx(toks, i);
    match t.inner {
        SpecToken::Tilde => spec_p_memory(toks, j, t.start),
        SpecToken::Not => spec_p_variable(toks, j, t.start),
        SpecToken::Pipeline => spec_p_func(toks, j, t.start),
        SpecToken::At => spec_p_main(toks, j, t.start, false),
        SpecToken::Sign => spec_p_main(toks, j, t.start, true),
        _ => {
            let e = spec_p_expr(toks, i);
            match e.out {
                Err(_) => e,
                Ok(node) => {
                    let st = spec_peek_at(toks, e.next);
                    if st.inner is Semicolon {
                        ParseOut { out: Ok(node), next: spec_step_idx(toks, e.next) }
                    } else {
                        ParseOut {
                            out: Err(
                                spec_err_at(st, spec_msg_expected(SpecToken::Semicolon, st.inner)),
                            ),
                            next: spec_step_idx(toks, e.next),
                        }
                    }
                },
            }
        },
    }
}

/// A whole program: statements until end of input.
pub open spec fn spec_p_parse(toks: TokSeq, i: int) -> ParseAllOut
    decreases toks.len() - i, 9int,
        when 0 <= i <= toks.len()
{
    let t = spec_peek_at(toks, i);
    if t.inner is EOF {
        ParseAllOut { out: Ok(Seq::empty()), next: i }
    } else {
        let st = spec_p_statement(toks, i);
        match st.out {
            Err(e) => ParseAllOut { out: Err(e), next: st.next },
            Ok(node) => {
                if i < st.next && st.next <= toks.len() {
                    let rest = spec_p_parse(toks, st.next);
                    match rest.out {
                        Err(e) => ParseAllOut { out: Err(e), next: rest.next },
                        Ok(nodes) => ParseAllOut { out: Ok(seq![node] + nodes), next: rest.next },
                    }
                } else {
                    ParseAllOut { out: Err(spec_p_bail(i).out->Err_0), next: i }
                }
            },
        }
    }
}

/// Equality of two tokens' images.
pub fn token_eq(a: &Token, b: &Token) -> (r: bool)
    ensures
        r == (a@ == b@),
{
    match (a, b) {
        (Token::Comma, Token::Comma) => true,
        (Token::Colon, Token::Colon) => true,
        (Token::Semicolon, Token::Semicolon) => true,
        (Token::Period, Token::Period) => true,
        (Token::Tilde, Token::Tilde) => true,
        (Token::Minus, Token::Minus) => true,
        (Token::Plus, Token::Plus) => true,
        (Token::Asterisk, Token::Asterisk) => true,
        (Token::Slash, Token::Slash) => true,
        (Token::Carat, Token::Carat) => true,
        (Token::Mod, Token::Mod) => true,
        (Token::OpenBrace, Token::OpenBrace) => true,
        (Token::CloseBrace, Token::CloseBrace) => true,
        (Token::OpenBracket, Token::OpenBracket) => true,
        (Token::CloseBracket, Token::CloseBracket) => true,
        (Token::OpenParen, Token::OpenParen) => true,
        (Token::CloseParen, Token::CloseParen) => true,
        (Token::Define, Token::Define) => true,
        (Token::Arrow, Token::Arrow) => true,
        (Token::Or, Token::Or) => true,
        (Token::And, Token::And) => true,
        (Token::Not, Token::Not) => true,
        (Token::Equals, Token::Equals) => true,
        (Token::NotEquals, Token::NotEquals) => true,
        (Token::Greater, Token::Greater) => true,
        (Token::Lesser, Token::Lesser) => true,
        (Token::GreaterThan, Token::GreaterThan) => true,
        (Token::LesserThan, Token::LesserThan) => true,
        (Token::Pipe, Token::Pipe) => true,
        (Token::Pipeline, Token::Pipeline) => true,
        (Token::At, Token::At) => true,
        (Token::Sign, Token::Sign) => true,
        (Token::Hash, Token::Hash) => true,
        (Token::Underscore, Token::Underscore) => true,
        (Token::Literal(u), Token::Literal(v)) => u.equals(v),
        (Token::Keyword(j), Token::Keyword(k)) => j == k,
        (Token::Identifier(s), Token::Identifier(t)) => crate::value::str_eq(
            s.as_str(),
            t.as_str(),
        ),
        (Token::EOF, Token::EOF) => true,
        _ => false,
    }
}

/// The parser: the token sequence and how far it has read.
pub struct Parser {
    pub tokens: Vec<PToken>,
    pub index: usize,
}

impl Parser {
    /// The image of the token sequence.
    pub open spec fn toks(&self) -> TokSeq {
        crate::lexer::spec_ptoken_views(self.tokens@)
    }

    /// The read head stays inside the token sequence.
    pub open spec fn wf(&self) -> bool {
        self.index <= self.tokens@.len()
    }

    /// A parser at the start of `tokens`.
    pub fn new(tokens: Vec<PToken>) -> (r: Parser)
        ensures
            r.wf(),
            r.index == 0,
            r.tokens@ == tokens@,
    {
        Parser { tokens, index: 0 }
    }

    /// A parse fault pointing at `token`.
    pub fn error<T>(token: &PToken, msg: &str) -> (r: Result<T, Error>)
        ensures
            r matches Err(e) && e@ == spec_err_at(token@, msg@),
    {
        Err(Self::raw_error(token, msg))
    }

    /// The diagnostic for a parse fault pointing at `token`.
    pub fn raw_error(token: &PToken, msg: &str) -> (r: Error)
        ensures
            r@ == spec_err_at(token@, msg@),
    {
        Error { msg: String::from_str(msg), start: token.start, end: token.end }
    }

    /// The binding rank of an operator token, as `spec_op_order`.
    pub fn op_order(token: &Token) -> (r: usize)
        ensures
            r as int == spec_op_order(token@),
    {
        match token {
            Token::Lesser | Token::LesserThan | Token::Greater | Token::GreaterThan | Token::Or
                | Token::And | Token::NotEquals | Token::Equals | Token::Mod => 0,
            Token::Plus | Token::Minus => 1,
            Token::Asterisk | Token::Slash => 2,
            _ => 100,
        }
    }

    /// Whether a token is a binary operator, as `spec_is_op`.
    pub fn is_op(token: &Token) -> (r: bool)
        ensures
            r == spec_is_op(token@),
    {
        Self::op_order(token) < 50
    }

    /// The token under the read head, without consuming it; the end-of-input
    /// sentinel past the end.
    pub fn peek(&mut self) -> (r: PToken)
        requires
            old(self).wf(),
        ensures
            *final(self) == *old(self),
            r@ == spec_peek_at(old(self).toks(), old(self).index as int),
    {
        proof {
            crate::lexer::lemma_ptoken_views_len(self.tokens@);
        }
        if self.index < self.tokens.len() {
            proof {
                crate::lexer::lemma_ptoken_views_index(self.tokens@, self.index as int);
            }
            clone_ptoken(&self.tokens[self.index])
        } else {
            Positioned { inner: Token::EOF, start: Position::end(), end: Position::end() }
        }
    }

    /// Consume and return the token under the read head; the end-of-input
    /// sentinel, consuming nothing, past the end.
    pub fn next(&mut self) -> (r: PToken)
        requires
            old(self).wf(),
        ensures
            final(self).wf(),
            final(self).tokens@ == old(self).tokens@,
            r@ == spec_peek_at(old(self).toks(), old(self).index as int),
            final(self).index as int == spec_step_idx(old(self).toks(), old(self).index as int),
    {
        proof {
            crate::lexer::lemma_ptoken_views_len(self.tokens@);
        }
        if self.index < self.tokens.len() {
            proof {
                crate::lexer::lemma_ptoken_views_index(self.tokens@, self.index as int);
            }
            let t = clone_ptoken(&self.tokens[self.index]);
            self.index = self.index + 1;
            t
        } else {
            Positioned { inner: Token::EOF, start: Position::end(), end: Position::end() }
        }
    }

    /// The most recently consumed token.
    pub fn last(&mut self) -> (r: PToken)
        requires
            old(self).wf(),
            old(self).index >= 1,
        ensures
            *final(self) == *old(self),
            r@ == spec_peek_at(old(self).toks(), old(self).index - 1),
    {
        proof {
            crate::lexer::lemma_ptoken_views_len(self.tokens@);
            crate::lexer::lemma_ptoken_views_index(self.tokens@, self.index - 1);
        }
        clone_ptoken(&self.tokens[self.index - 1])
    }

    /// Step the read head back over the last consumed token.
    pub fn backtrack(&mut self)
        requires
            old(self).index >= 1,
        ensures
            final(self).tokens@ == old(self).tokens@,
            final(self).index == old(self).index - 1,
    {
        self.index = self.index - 1;
    }

    /// Consume the next token, requiring it to equal `token`; anything else
    /// is a parse fault naming both.
    pub fn next_ensure(&mut self, token: Token) -> (r: Result<PToken, Error>)
        requires
            old(self).wf(),
        ensures
            final(self).wf(),
            final(self).tokens@ == old(self).tokens@,
            final(self).index as int == spec_step_idx(old(self).toks(), old(self).index as int),
            ({
                let nt = spec_peek_at(old(self).toks(), old(self).index as int);
                match r {
                    Ok(pt) => nt.inner == token@ && pt@ == nt,
                    Err(e) => nt.inner != token@ && e@ == spec_err_at(
                        nt,
                        spec_msg_expected(token@, nt.inner),
                    ),
                }
            }),
    {
        let next = self.next();
        if token_eq(&next.inner, &token) {
            Ok(next)
        } else {
            let msg = String::from_str("Expected ").concat(token.name()).concat(" found ").concat(
                next.inner.name(),
            );
            Err(Error { msg, start: next.start, end: next.end })
        }
    }

    /// Consume the next token, requiring it to be an identifier, and return
    /// its name.
    pub fn next_ident(&mut self) -> (r: Result<String, Error>)
        requires
            old(self).wf(),
        ensures
            final(self).wf(),
            final(self).tokens@ == old(self).tokens@,
            final(self).index as int == spec_step_idx(old(self).toks(), old(self).index as int),
            ({
                let nt = spec_peek_at(old(self).toks(), old(self).index as int);
                match r {
                    Ok(name) => nt.inner == SpecToken::Identifier(name@),
                    Err(e) => !(nt.inner is Identifier) && e@ == spec_err_at(
                        nt,
                        spec_msg_expected_ident(nt.inner),
                    ),
                }
            }),
    {
        let next = self.next();
        match next.inner {
            Token::Identifier(name) => Ok(name),
            other => {
                let msg = String::from_str("Expected identifier found ").concat(other.name());
                Err(Error { msg, start: next.start, end: next.end })
            },
        }
    }

    /// A primary expression, as `spec_p_simple` states it.
    pub fn simple(&mut self) -> (r: Result<PNode, Error>)
        requires
            old(self).wf(),
        ensures
            final(self).wf(),
            final(self).tokens@ == old(self).tokens@,
            old(self).index <= final(self).index,
            r is Ok ==> old(self).index < final(self).index,
            ({
                let po = spec_p_simple(old(self).toks(), old(self).index as int);
                &&& final(self).index as int == po.next
                &&& match r {
                    Ok(n) => po.out == Ok::<SpecPNode, SpecError>(spec_pnode(n)),
                    Err(e) => po.out == Err::<SpecPNode, SpecError>(e@),
                }
            }),
        decreases self.tokens@.len() - self.index, 0int,
    {
        let ghost toks0 = old(self).toks();
        let ghost i0 = old(self).index as int;
        proof {
            crate::lexer::lemma_ptoken_views_len(self.tokens@);
        }
        let token = self.next();
        let start = token.start;
        let end = token.end;
        match token.inner {
            Token::Literal(literal) => Ok(
                Positioned { inner: Node::Literal(literal), start, end },
            ),
            Token::OpenBracket => {
                let pk = self.peek();
                if matches!(pk.inner, Token::CloseBracket) {
                    let endt = self.next();
                    let items: Vec<PNode> = Vec::new();
                    proof {
                        assert(items@ =~= Seq::<PNode>::empty());
                        assert(crate::ast::spec_pnode_views(items@) =~= Seq::<SpecPNode>::empty());
                    }
                    let node = Positioned { inner: Node::Array(items), start, end: endt.end };
                    Ok(node)
                } else {
                    let items = match self.expr_list() {
                        Ok(x) => x,
                        Err(e) => {
                            return Err(e);
                        },
                    };
                    match self.next_ensure(Token::CloseBracket) {
                        Ok(close) => Ok(
                            Positioned { inner: Node::Array(items), start, end: close.end },
                        ),
                        Err(e) => Err(e),
                    }
                }
            },
            Token::Identifier(ident) => Ok(
                Positioned { inner: Node::Variable(ident), start, end },
            ),
            Token::OpenParen => {
                let e = match self.expr() {
                    Ok(x) => x,
                    Err(e) => {
                        return Err(e);
                    },
                };
                let pk = self.peek();
                match pk.inner {
                    Token::CloseParen => {
                        let _ = self.next();
                        Ok(e)
                    },
                    Token::Comma => {
                        let mut first: Vec<PNode> = Vec::new();
                        proof {
                            crate::ast::lemma_pnode_views_push(first@, e);
                        }
                        first.push(e);
                        proof {
                            assert(crate::ast::spec_pnode_views(first@) =~= seq![
                                spec_pnode(first@[0]),
                            ]);
                        }
                        let items = match self.expr_list_more(first) {
                            Ok(x) => x,
                            Err(e2) => {
                                return Err(e2);
                            },
                        };
                        match self.next_ensure(Token::CloseParen) {
                            Ok(close) => Ok(
                                Positioned { inner: Node::Tuple(items), start, end: close.end },
                            ),
                            Err(e2) => Err(e2),
                        }
                    },
                    other => {
                        let msg = String::from_str("Expected , or ), found ").concat(
                            Token::OpenParen.name(),
                        );
                        Err(Error { msg, start, end })
                    },
                }
            },
            Token::At => {
                match self.next_ident() {
                    Ok(name) => {
                        let nt = self.last();
                        Ok(Positioned { inner: Node::Directional(name), start, end: nt.end })
                    },
                    Err(e) => Err(e),
                }
            },
            Token::Underscore => Ok(
                Positioned { inner: Node::Literal(Value::Unknown), start, end },
            ),
            Token::Hash => {
                match self.next_ensure(Token::OpenParen) {
                    Ok(_) => {
                        let e = match self.expr() {
                            Ok(x) => x,
                            Err(e2) => {
                                return Err(e2);
                            },
                        };
                        match self.next_ensure(Token::CloseParen) {
                            Ok(close) => Ok(
                                Positioned {
                                    inner: Node::Sum(Box::new(e)),
                                    start: end,
                                    end: close.end,
                                },
                            ),
                            Err(e2) => Err(e2),
                        }
                    },
                    Err(e2) => Err(e2),
                }
            },
            other => {
                let msg = String::from_str("Expected expression but got ").concat(other.name());
                Err(Error { msg, start, end })
            },
        }
    }

    /// The rest of a comma-separated expression list after `acc`, as
    /// `spec_p_expr_list_more` states it.
    fn expr_list_more(&mut self, acc: Vec<PNode>) -> (r: Result<Vec<PNode>, Error>)
        requires
            old(self).wf(),
        ensures
            final(self).wf(),
            final(self).tokens@ == old(self).tokens@,
            old(self).index <= final(self).index,
            ({
                let po = spec_p_expr_list_more(
                    old(self).toks(),
                    crate::ast::spec_pnode_views(acc@),
                    old(self).index as int,
                );
                &&& final(self).index as int == po.next
                &&& match r {
                    Ok(v) => po.out == Ok::<Seq<SpecPNode>, SpecError>(
                        crate::ast::spec_pnode_views(v@),
                    ),
                    Err(e) => po.out == Err::<Seq<SpecPNode>, SpecError>(e@),
                }
            }),
        decreases self.tokens@.len() - self.index, 5int,
    {
        let ghost toks0 = old(self).toks();
        let ghost i0 = old(self).index as int;
        let ghost acc0 = crate::ast::spec_pnode_views(acc@);
        let mut exprs = acc;
        proof {
            crate::lexer::lemma_ptoken_views_len(self.tokens@);
        }
        loop
            invariant
                self.wf(),
                self.tokens@ == old(self).tokens@,
                toks0 == old(self).toks(),
                toks0.len() == self.tokens@.len(),
                i0 == old(self).index as int,
                i0 <= self.index as int,
                acc0 == crate::ast::spec_pnode_views(acc@),
                spec_p_expr_list_more(toks0, acc0, i0) == spec_p_expr_list_more(
                    toks0,
                    crate::ast::spec_pnode_views(exprs@),
                    self.index as int,
                ),
            ensures
                self.wf(),
                self.tokens@ == old(self).tokens@,
                i0 <= self.index as int,
                acc0 == crate::ast::spec_pnode_views(acc@),
                spec_p_expr_list_more(toks0, acc0, i0) == (ParseListOut {
                    out: Ok(crate::ast::spec_pnode_views(exprs@)),
                    next: self.index as int,
                }),
            decreases self.tokens@.len() - self.index,
        {
            let pk = self.peek();
            if !matches!(pk.inner, Token::Comma) {
                break;
            }
            let _ = self.next();
            let e = match self.expr() {
                Ok(x) => x,
                Err(er) => {
                    return Err(er);
                },
            };
            proof {
                crate::ast::lemma_pnode_views_push(exprs@, e);
            }
            exprs.push(e);
        }
        Ok(exprs)
    }

    /// A comma-separated list of one or more expressions, as
    /// `spec_p_expr_list` states it.
    pub fn expr_list(&mut self) -> (r: Result<Vec<PNode>, Error>)
        requires
            old(self).wf(),
        ensures
            final(self).wf(),
            final(self).tokens@ == old(self).tokens@,
            old(self).index <= final(self).index,
            ({
                let po = spec_p_expr_list(old(self).toks(), old(self).index as int);
                &&& final(self).index as int == po.next
                &&& match r {
                    Ok(v) => po.out == Ok::<Seq<SpecPNode>, SpecError>(
                        crate::ast::spec_pnode_views(v@),
                    ),
                    Err(e) => po.out == Err::<Seq<SpecPNode>, SpecError>(e@),
                }
            }),
        decreases self.tokens@.len() - self.index, 6int,
    {
        proof {
            crate::lexer::lemma_ptoken_views_len(self.tokens@);
        }
        let first = match self.expr() {
            Ok(x) => x,
            Err(e) => {
                return Err(e);
            },
        };
        let mut v: Vec<PNode> = Vec::new();
        proof {
            crate::ast::lemma_pnode_views_push(v@, first);
        }
        v.push(first);
        proof {
            assert(crate::ast::spec_pnode_views(v@) =~= seq![spec_pnode(v@[0])]);
        }
        self.expr_list_more(v)
    }

    /// A call-level expression, as `spec_p_call` states it.
    pub fn call(&mut self) -> (r: Result<PNode, Error>)
        requires
            old(self).wf(),
        ensures
            final(self).wf(),
            final(self).tokens@ == old(self).tokens@,
            old(self).index <= final(self).index,
            r is Ok ==> old(self).index < final(self).index,
            ({
                let po = spec_p_call(old(self).toks(), old(self).index as int);
                &&& final(self).index as int == po.next
                &&& match r {
                    Ok(n) => po.out == Ok::<SpecPNode, SpecError>(spec_pnode(n)),
                    Err(e) => po.out == Err::<SpecPNode, SpecError>(e@),
                }
            }),
        decreases self.tokens@.len() - self.index, 2int,
    {
        let ghost toks0 = old(self).toks();
        let ghost i0 = old(self).index as int;
        proof {
            crate::lexer::lemma_ptoken_views_len(self.tokens@);
        }
        let mut cur = match self.simple() {
            Ok(x) => x,
            Err(e) => {
                return Err(e);
            },
        };
        loop
            invariant
                self.wf(),
                self.tokens@ == old(self).tokens@,
                toks0 == old(self).toks(),
                toks0.len() == self.tokens@.len(),
                i0 == old(self).index as int,
                i0 < self.index as int,
                spec_p_call(toks0, i0) == spec_p_call_post(
                    toks0,
                    spec_pnode(cur),
                    self.index as int,
                ),
            ensures
                self.wf(),
                self.tokens@ == old(self).tokens@,
                i0 < self.index as int,
                spec_p_call(toks0, i0) == (ParseOut {
                    out: Ok(spec_pnode(cur)),
                    next: self.index as int,
                }),
            decreases self.tokens@.len() - self.index,
        {
            let pk = self.peek();
            if !matches!(pk.inner, Token::OpenParen) {
                break;
            }
            let _ = self.next();
            let pk2 = self.peek();
            let args = if matches!(pk2.inner, Token::CloseParen) {
                Vec::new()
            } else {
                match self.expr_list() {
                    Ok(x) => x,
                    Err(e) => {
                        return Err(e);
                    },
                }
            };
            proof {
                if args@.len() == 0 {
                    assert(crate::ast::spec_pnode_views(args@) =~= Seq::<SpecPNode>::empty());
                }
            }
            match self.next_ensure(Token::CloseParen) {
                Ok(close) => {
                    let cstart = cur.start;
                    cur = Positioned {
                        inner: Node::Call { expr: Box::new(cur), args },
                        start: cstart,
                        end: close.end,
                    };
                },
                Err(e) => {
                    return Err(e);
                },
            }
        }
        Ok(cur)
    }

    /// An expression, as `spec_p_expr` states it: right-recursive with one
    /// precedence rotation per step.
    pub fn expr(&mut self) -> (r: Result<PNode, Error>)
        requires
            old(self).wf(),
        ensures
            final(self).wf(),
            final(self).tokens@ == old(self).tokens@,
            old(self).index <= final(self).index,
            r is Ok ==> old(self).index < final(self).index,
            ({
                let po = spec_p_expr(old(self).toks(), old(self).index as int);
                &&& final(self).index as int == po.next
                &&& match r {
                    Ok(n) => po.out == Ok::<SpecPNode, SpecError>(spec_pnode(n)),
                    Err(e) => po.out == Err::<SpecPNode, SpecError>(e@),
                }
            }),
        decreases self.tokens@.len() - self.index, 3int,
    {
        proof {
            crate::lexer::lemma_ptoken_views_len(self.tokens@);
        }
        let left = match self.call() {
            Ok(x) => x,
            Err(e) => {
                return Err(e);
            },
        };
        let pk = self.peek();
        if Self::is_op(&pk.inner) {
            let op = self.next();
            let right = match self.expr() {
                Ok(x) => x,
                Err(e) => {
                    return Err(e);
                },
            };
            let rstart = right.start;
            let rend = right.end;
            match right.inner {
                Node::Binary { left: rl, op: rop, right: rr } => {
                    if Self::op_order(&op.inner) > Self::op_order(&rop) {
                        Ok(
                            Positioned::<Node>::new_binary(
                                Positioned::<Node>::new_binary(left, op.inner, *rl),
                                rop,
                                *rr,
                            ),
                        )
                    } else {
                        let rebuilt = Positioned {
                            inner: Node::Binary { left: rl, op: rop, right: rr },
                            start: rstart,
                            end: rend,
                        };
                        Ok(Positioned::<Node>::new_binary(left, op.inner, rebuilt))
                    }
                },
                other => {
                    let rebuilt = Positioned { inner: other, start: rstart, end: rend };
                    Ok(Positioned::<Node>::new_binary(left, op.inner, rebuilt))
                },
            }
        } else {
            Ok(left)
        }
    }

    /// Consume the next token, requiring it to be an integer literal, and
    /// return its value.
    pub fn next_number(&mut self) -> (r: Result<u8, Error>)
        requires
            old(self).wf(),
        ensures
            final(self).wf(),
            final(self).tokens@ == old(self).tokens@,
            final(self).index as int == spec_step_idx(old(self).toks(), old(self).index as int),
            ({
                let nt = spec_peek_at(old(self).toks(), old(self).index as int);
                match r {
                    Ok(n) => nt.inner == SpecToken::Literal(SpecValue::Int(n)),
                    Err(e) => !(nt.inner matches SpecToken::Literal(SpecValue::Int(_)))
                        && e@ == spec_err_at(nt, spec_msg_expected_number(nt.inner)),
                }
            }),
    {
        let next = self.next();
        match &next.inner {
            Token::Literal(v) => match v {
                Value::Int(n) => Ok(*n),
                _ => {
                    let msg = String::from_str("Expected number found ").concat(next.inner.name());
                    Err(Error { msg, start: next.start, end: next.end })
                },
            },
            _ => {
                let msg = String::from_str("Expected number found ").concat(next.inner.name());
                Err(Error { msg, start: next.start, end: next.end })
            },
        }
    }

    /// The rest of a comma-separated identifier list after `acc`, as
    /// `spec_p_ident_more` states it.
    fn ident_more(&mut self, acc: Vec<String>) -> (r: Result<Vec<String>, Error>)
        requires
            old(self).wf(),
        ensures
            final(self).wf(),
            final(self).tokens@ == old(self).tokens@,
            old(self).index <= final(self).index,
            ({
                let po = spec_p_ident_more(
                    old(self).toks(),
                    crate::ast::spec_string_views(acc@),
                    old(self).index as int,
                );
                &&& final(self).index as int == po.next
                &&& match r {
                    Ok(v) => po.out == Ok::<Seq<Seq<char>>, SpecError>(
                        crate::ast::spec_string_views(v@),
                    ),
                    Err(e) => po.out == Err::<Seq<Seq<char>>, SpecError>(e@),
                }
            }),
    {
        let ghost toks0 = old(self).toks();
        let ghost i0 = old(self).index as int;
        let ghost acc0 = crate::ast::spec_string_views(acc@);
        let mut names = acc;
        proof {
            crate::lexer::lemma_ptoken_views_len(self.tokens@);
        }
        loop
            invariant
                self.wf(),
                self.tokens@ == old(self).tokens@,
                toks0 == old(self).toks(),
                toks0.len() == self.tokens@.len(),
                i0 == old(self).index as int,
                i0 <= self.index as int,
                acc0 == crate::ast::spec_string_views(acc@),
                spec_p_ident_more(toks0, acc0, i0) == spec_p_ident_more(
                    toks0,
                    crate::ast::spec_string_views(names@),
                    self.index as int,
                ),
            ensures
                self.wf(),
                self.tokens@ == old(self).tokens@,
                i0 <= self.index as int,
                acc0 == crate::ast::spec_string_views(acc@),
                spec_p_ident_more(toks0, acc0, i0) == (ParseNamesOut {
                    out: Ok(crate::ast::spec_string_views(names@)),
                    next: self.index as int,
                }),
            decreases self.tokens@.len() - self.index,
        {
            let pk = self.peek();
            if !matches!(pk.inner, Token::Comma) {
                break;
            }
            let _ = self.next();
            let name = match self.next_ident() {
                Ok(x) => x,
                Err(er) => {
                    return Err(er);
                },
            };
            proof {
                crate::ast::lemma_string_views_push(names@, name);
            }
            names.push(name);
        }
        Ok(names)
    }

    /// A comma-separated list of one or more identifiers, as
    /// `spec_p_ident_list` states it.
    pub fn identifier_list(&mut self) -> (r: Result<Vec<String>, Error>)
        requires
            old(self).wf(),
        ensures
            final(self).wf(),
            final(self).tokens@ == old(self).tokens@,
            old(self).index <= final(self).index,
            ({
                let po = spec_p_ident_list(old(self).toks(), old(self).index as int);
                &&& final(self).index as int == po.next
                &&& match r {
                    Ok(v) => po.out == Ok::<Seq<Seq<char>>, SpecError>(
                        crate::ast::spec_string_views(v@),
                    ),
                    Err(e) => po.out == Err::<Seq<Seq<char>>, SpecError>(e@),
                }
            }),
    {
        proof {
            crate::lexer::lemma_ptoken_views_len(self.tokens@);
        }
        let first = match self.next_ident() {
            Ok(x) => x,
            Err(e) => {
                return Err(e);
            },
        };
        let mut v: Vec<String> = Vec::new();
        proof {
            crate::ast::lemma_string_views_push(v@, first);
        }
        v.push(first);
        proof {
            assert(crate::ast::spec_string_views(v@) =~= seq![v@[0]@]);
        }
        self.ident_more(v)
    }

    /// A constant definition after its marker, as `spec_p_variable` states
    /// it.
    pub fn variable(&mut self) -> (r: Result<PNode, Error>)
        requires
            old(self).wf(),
            old(self).index >= 1,
        ensures
            final(self).wf(),
            final(self).tokens@ == old(self).tokens@,
            old(self).index <= final(self).index,
            ({
                let po = spec_p_variable(
                    old(self).toks(),
                    old(self).index as int,
                    spec_peek_at(old(self).toks(), old(self).index - 1).start,
                );
                &&& final(self).index as int == po.next
                &&& match r {
                    Ok(n) => po.out == Ok::<SpecPNode, SpecError>(spec_pnode(n)),
                    Err(e) => po.out == Err::<SpecPNode, SpecError>(e@),
                }
            }),
    {
        proof {
            crate::lexer::lemma_ptoken_views_len(self.tokens@);
        }
        let start = self.last().start;
        let name = match self.next_ident() {
            Ok(x) => x,
            Err(e) => {
                return Err(e);
            },
        };
        match self.next_ensure(Token::Define) {
            Ok(_) => {},
            Err(e) => {
                return Err(e);
            },
        }
        let value = match self.expr() {
            Ok(x) => x,
            Err(e) => {
                return Err(e);
            },
        };
        match self.next_ensure(Token::Semicolon) {
            Ok(_) => {},
            Err(e) => {
                return Err(e);
            },
        }
        let vend = value.end;
        Ok(
            Positioned {
                inner: Node::Definition { name, value: Box::new(value) },
                start,
                end: vend,
            },
        )
    }

    /// A function declaration after its marker, as `spec_p_func` states it.
    pub fn func_statement(&mut self) -> (r: Result<PNode, Error>)
        requires
            old(self).wf(),
            old(self).index >= 1,
        ensures
            final(self).wf(),
            final(self).tokens@ == old(self).tokens@,
            old(self).index <= final(self).index,
            ({
                let po = spec_p_func(
                    old(self).toks(),
                    old(self).index as int,
                    spec_peek_at(old(self).toks(), old(self).index - 1).start,
                );
                &&& final(self).index as int == po.next
                &&& match r {
                    Ok(n) => po.out == Ok::<SpecPNode, SpecError>(spec_pnode(n)),
                    Err(e) => po.out == Err::<SpecPNode, SpecError>(e@),
                }
            }),
    {
        proof {
            crate::lexer::lemma_ptoken_views_len(self.tokens@);
        }
        let start = self.last().start;
        let name = match self.next_ident() {
            Ok(x) => x,
            Err(e) => {
                return Err(e);
            },
        };
        let pk = self.peek();
        let params: Vec<String> = if matches!(pk.inner, Token::OpenParen) {
            let _ = self.next();
            let ps = match self.identifier_list() {
                Ok(x) => x,
                Err(e) => {
                    return Err(e);
                },
            };
            match self.next_ensure(Token::CloseParen) {
                Ok(_) => {},
                Err(e) => {
                    return Err(e);
                },
            }
            ps
        } else {
            let empty: Vec<String> = Vec::new();
            proof {
                assert(empty@ =~= Seq::<String>::empty());
                assert(crate::ast::spec_string_views(empty@) =~= Seq::<Seq<char>>::empty());
            }
            empty
        };
        match self.next_ensure(Token::Define) {
            Ok(_) => {},
            Err(e) => {
                return Err(e);
            },
        }
        let body = match self.expr() {
            Ok(x) => x,
            Err(e) => {
                return Err(e);
            },
        };
        let bend = body.end;
        Ok(
            Positioned {
                inner: Node::Function { name, params, body: Box::new(body) },
                start,
                end: bend,
            },
        )
    }

    /// A rule after its marker, as `spec_p_main` states it.
    pub fn main_statement(&mut self, is_render: bool) -> (r: Result<PNode, Error>)
        requires
            old(self).wf(),
            old(self).index >= 1,
        ensures
            final(self).wf(),
            final(self).tokens@ == old(self).tokens@,
            old(self).index <= final(self).index,
            ({
                let po = spec_p_main(
                    old(self).toks(),
                    old(self).index as int,
                    spec_peek_at(old(self).toks(), old(self).index - 1).start,
                    is_render,
                );
                &&& final(self).index as int == po.next
                &&& match r {
                    Ok(n) => po.out == Ok::<SpecPNode, SpecError>(spec_pnode(n)),
                    Err(e) => po.out == Err::<SpecPNode, SpecError>(e@),
                }
            }),
    {
        proof {
            crate::lexer::lemma_ptoken_views_len(self.tokens@);
        }
        let start = self.last().start;
        let centre = match self.expr() {
            Ok(x) => x,
            Err(e) => {
                return Err(e);
            },
        };
        match self.next_ensure(Token::Pipeline) {
            Ok(_) => {},
            Err(e) => {
                return Err(e);
            },
        }
        let conditional = match self.expr() {
            Ok(x) => x,
            Err(e) => {
                return Err(e);
            },
        };
        match self.next_ensure(Token::Arrow) {
            Ok(_) => {},
            Err(e) => {
                return Err(e);
            },
        }
        let result = match self.expr() {
            Ok(x) => x,
            Err(e) => {
                return Err(e);
            },
        };
        let rend = result.end;
        Ok(
            Positioned {
                inner: Node::Main {
                    centre: Box::new(centre),
                    conditional: Box::new(conditional),
                    result: Box::new(result),
                    is_render,
                },
                start,
                end: rend,
            },
        )
    }

    /// A grid block after its opening tilde, as `spec_p_memory` states it.
    pub fn memory_statement(&mut self) -> (r: Result<PNode, Error>)
        requires
            old(self).wf(),
            old(self).index >= 1,
        ensures
            final(self).wf(),
            final(self).tokens@ == old(self).tokens@,
            old(self).index <= final(self).index,
            ({
                let po = spec_p_memory(
                    old(self).toks(),
                    old(self).index as int,
                    spec_peek_at(old(self).toks(), old(self).index - 1).start,
                );
                &&& final(self).index as int == po.next
                &&& match r {
                    Ok(n) => po.out == Ok::<SpecPNode, SpecError>(spec_pnode(n)),
                    Err(e) => po.out == Err::<SpecPNode, SpecError>(e@),
                }
            }),
    {
        let ghost toks0 = old(self).toks();
        let ghost i0 = old(self).index as int;
        proof {
            crate::lexer::lemma_ptoken_views_len(self.tokens@);
        }
        let start = self.last().start;
        let mut rows_done: Vec<Vec<String>> = Vec::new();
        let mut current: Vec<String> = Vec::new();
        proof {
            assert(rows_done@ =~= Seq::<Vec<String>>::empty());
            assert(current@ =~= Seq::<String>::empty());
            assert(crate::ast::spec_row_views(rows_done@).push(
                crate::ast::spec_string_views(current@),
            ) =~= seq![Seq::<Seq<char>>::empty()]);
        }
        loop
            invariant
                self.wf(),
                self.tokens@ == old(self).tokens@,
                toks0 == old(self).toks(),
                toks0.len() == self.tokens@.len(),
                i0 == old(self).index as int,
                i0 <= self.index as int,
                spec_p_memory_items(toks0, seq![Seq::<Seq<char>>::empty()], i0)
                    == spec_p_memory_items(
                    toks0,
                    crate::ast::spec_row_views(rows_done@).push(
                        crate::ast::spec_string_views(current@),
                    ),
                    self.index as int,
                ),
            ensures
                self.wf(),
                self.tokens@ == old(self).tokens@,
                i0 <= self.index as int,
                spec_peek_at(toks0, self.index as int).inner is Tilde,
                spec_p_memory_items(toks0, seq![Seq::<Seq<char>>::empty()], i0) == (MemRowsOut {
                    out: Ok(
                        crate::ast::spec_row_views(rows_done@).push(
                            crate::ast::spec_string_views(current@),
                        ),
                    ),
                    next: self.index as int,
                }),
            decreases self.tokens@.len() - self.index,
        {
            let ghost repr = crate::ast::spec_row_views(rows_done@).push(
                crate::ast::spec_string_views(current@),
            );
            let ghost idx = self.index as int;
            let pk = self.peek();
            if matches!(pk.inner, Token::Tilde) {
                break;
            }
            if matches!(pk.inner, Token::EOF) {
                let msg = String::from_str("Expected ").concat(Token::Tilde.name()).concat(
                    " found ",
                ).concat(pk.inner.name());
                return Err(Error { msg, start: pk.start, end: pk.end });
            }
            let t = self.next();
            match t.inner {
                Token::Identifier(name) => {
                    let pk2 = self.peek();
                    if matches!(pk2.inner, Token::Colon) {
                        let _ = self.next();
                        let count = match self.next_number() {
                            Ok(n) => n,
                            Err(e) => {
                                return Err(e);
                            },
                        };
                        let ghost cur0 = crate::ast::spec_string_views(current@);
                        let mut k: u8 = 0;
                        while k < count
                            invariant
                                k <= count,
                                crate::ast::spec_string_views(current@) == cur0 + spec_replicate(
                                    name@,
                                    k as nat,
                                ),
                            decreases count - k,
                        {
                            proof {
                                crate::ast::lemma_string_views_push(current@, name);
                            }
                            current.push(name.clone());
                            proof {
                                assert(crate::ast::spec_string_views(current@) =~= cur0
                                    + spec_replicate(name@, (k + 1) as nat));
                            }
                            k = k + 1;
                        }
                        proof {
                            let grown = repr.update(
                                repr.len() - 1,
                                repr.last() + spec_replicate(name@, count as nat),
                            );
                            assert(crate::ast::spec_row_views(rows_done@).push(
                                crate::ast::spec_string_views(current@),
                            ) =~= grown);
                        }
                    }
                },
                Token::Pipe => {
                    proof {
                        crate::ast::lemma_row_views_push(rows_done@, current);
                    }
                    rows_done.push(current);
                    current = Vec::new();
                    proof {
                        assert(crate::ast::spec_string_views(current@)
                            =~= Seq::<Seq<char>>::empty());
                        assert(crate::ast::spec_row_views(rows_done@).push(
                            crate::ast::spec_string_views(current@),
                        ) =~= repr.push(Seq::<Seq<char>>::empty()));
                    }
                },
                Token::Semicolon => {
                    let count = match self.next_number() {
                        Ok(n) => n,
                        Err(e) => {
                            return Err(e);
                        },
                    };
                    let ghost done0 = crate::ast::spec_row_views(rows_done@);
                    let ghost cur_v = crate::ast::spec_string_views(current@);
                    let mut k: u8 = 1;
                    while k < count
                        invariant
                            1 <= k,
                            count >= 1 ==> k <= count,
                            count == 0 ==> k == 1,
                            cur_v == crate::ast::spec_string_views(current@),
                            crate::ast::spec_row_views(rows_done@) == done0 + spec_replicate(
                                cur_v,
                                (k - 1) as nat,
                            ),
                        decreases count - k,
                    {
                        let copy = crate::ast::clone_strings(&current);
                        proof {
                            crate::ast::lemma_row_views_push(rows_done@, copy);
                        }
                        rows_done.push(copy);
                        proof {
                            assert(crate::ast::spec_row_views(rows_done@) =~= done0
                                + spec_replicate(cur_v, k as nat));
                        }
                        k = k + 1;
                    }
                    proof {
                        let copies: nat = if count >= 1 {
                            (count - 1) as nat
                        } else {
                            0nat
                        };
                        let grown = repr + spec_replicate(repr.last(), copies);
                        lemma_replicate_index(cur_v, copies);
                        assert(crate::ast::spec_row_views(rows_done@).push(
                            crate::ast::spec_string_views(current@),
                        ) =~= grown);
                    }
                },
                _ => {},
            }
        }
        let tilde = match self.next_ensure(Token::Tilde) {
            Ok(x) => x,
            Err(e) => {
                proof {
                    assert(false);
                }
                return Err(e);
            },
        };
        proof {
            crate::ast::lemma_row_views_push(rows_done@, current);
        }
        let mut rows = rows_done;
        rows.push(current);
        let tend = tilde.end;
        Ok(Positioned { inner: Node::Memory(rows), start, end: tend })
    }

    /// A statement, as `spec_p_statement` states it: a grid block,
    /// definition, function declaration or rule after its marker, or a bare
    /// expression ended by a semicolon.
    pub fn statement(&mut self) -> (r: Result<PNode, Error>)
        requires
            old(self).wf(),
        ensures
            final(self).wf(),
            final(self).tokens@ == old(self).tokens@,
            old(self).index <= final(self).index,
            r is Ok ==> old(self).index < final(self).index,
            ({
                let po = spec_p_statement(old(self).toks(), old(self).index as int);
                &&& final(self).index as int == po.next
                &&& match r {
                    Ok(n) => po.out == Ok::<SpecPNode, SpecError>(spec_pnode(n)),
                    Err(e) => po.out == Err::<SpecPNode, SpecError>(e@),
                }
            }),
    {
        proof {
            crate::lexer::lemma_ptoken_views_len(self.tokens@);
        }
        let pk = self.peek();
        match pk.inner {
            Token::Tilde => {
                let _ = self.next();
                self.memory_statement()
            },
            Token::Not => {
                let _ = self.next();
                self.variable()
            },
            Token::Pipeline => {
                let _ = self.next();
                self.func_statement()
            },
            Token::At => {
                let _ = self.next();
                self.main_statement(false)
            },
            Token::Sign => {
                let _ = self.next();
                self.main_statement(true)
            },
            _ => {
                let e = match self.expr() {
                    Ok(x) => x,
                    Err(er) => {
                        return Err(er);
                    },
                };
                match self.next_ensure(Token::Semicolon) {
                    Ok(_) => Ok(e),
                    Err(er) => Err(er),
                }
            },
        }
    }

    /// A whole program, as `spec_p_parse` states it: statements until end of
    /// input; the first parse fault aborts with its diagnostic.
    pub fn parse(&mut self) -> (r: Result<Vec<PNode>, Error>)
        requires
            old(self).wf(),
        ensures
            final(self).wf(),
            final(self).tokens@ == old(self).tokens@,
            old(self).index <= final(self).index,
            ({
                let po = spec_p_parse(old(self).toks(), old(self).index as int);
                &&& final(self).index as int == po.next
                &&& match r {
                    Ok(v) => po.out == Ok::<Seq<SpecPNode>, SpecError>(
                        crate::ast::spec_pnode_views(v@),
                    ),
                    Err(e) => po.out == Err::<Seq<SpecPNode>, SpecError>(e@),
                }
            }),
    {
        let ghost toks0 = old(self).toks();
        let ghost i0 = old(self).index as int;
        let mut ast: Vec<PNode> = Vec::new();
        proof {
            crate::lexer::lemma_ptoken_views_len(self.tokens@);
            assert(crate::ast::spec_pnode_views(ast@) =~= Seq::<SpecPNode>::empty());
        }
        loop
            invariant
                self.wf(),
                self.tokens@ == old(self).tokens@,
                toks0 == old(self).toks(),
                toks0.len() == self.tokens@.len(),
                i0 == old(self).index as int,
                i0 <= self.index as int,
                spec_parse_join(crate::ast::spec_pnode_views(ast@), spec_p_parse(toks0, self.index as int))
                    == spec_p_parse(toks0, i0),
            ensures
                self.wf(),
                self.tokens@ == old(self).tokens@,
                i0 <= self.index as int,
                spec_parse_join(crate::ast::spec_pnode_views(ast@), spec_p_parse(toks0, self.index as int))
                    == spec_p_parse(toks0, i0),
                spec_peek_at(toks0, self.index as int).inner is EOF,
            decreases self.tokens@.len() - self.index,
        {
            let ghost idx = self.index as int;
            let ghost done = crate::ast::spec_pnode_views(ast@);
            let pk = self.peek();
            if matches!(pk.inner, Token::EOF) {
                break;
            }
            let node = match self.statement() {
                Ok(x) => x,
                Err(e) => {
                    return Err(e);
                },
            };
            proof {
                crate::ast::lemma_pnode_views_push(ast@, node);
                let st = spec_p_statement(toks0, idx);
                match spec_p_parse(toks0, st.next).out {
                    Ok(rest) => {
                        assert(done + (seq![spec_pnode(node)] + rest) =~= done.push(
                            spec_pnode(node),
                        ) + rest);
                    },
                    Err(_) => {},
                }
            }
            ast.push(node);
        }
        proof {
            assert(crate::ast::spec_pnode_views(ast@) + Seq::<SpecPNode>::empty()
                =~= crate::ast::spec_pnode_views(ast@));
        }
        Ok(ast)
    }
}

/// Operator precedence by rotation: when an expression parses as an operand,
/// an operator, and a right-hand tree, a tight-binding operator nests under
/// the loose one at the right-hand tree's top — the result is rebuilt
/// left-deep — while an operator of equal or looser rank keeps the
/// right-recursive shape unrotated.  Comparisons and logical operators share
/// one rank, so no rotation happens between them.
pub proof fn lemma_expr_rotation(toks: TokSeq, i: int, left: SpecPNode, right: SpecPNode)
    requires
        0 <= i <= toks.len(),
        spec_p_call(toks, i).out == Ok::<SpecPNode, SpecError>(left),
        i <= spec_p_call(toks, i).next < toks.len(),
        spec_is_op(spec_peek_at(toks, spec_p_call(toks, i).next).inner),
        spec_p_expr(toks, spec_p_call(toks, i).next + 1).out == Ok::<SpecPNode, SpecError>(right),
    ensures
        ({
            let op = spec_peek_at(toks, spec_p_call(toks, i).next).inner;
            match right.inner {
                SpecNode::Binary { left: rl, op: rop, right: rr } => {
                    if spec_op_order(op) > spec_op_order(rop) {
                        spec_p_expr(toks, i).out == Ok::<SpecPNode, SpecError>(
                            spec_binary(spec_binary(left, op, *rl), rop, *rr),
                        )
                    } else {
                        spec_p_expr(toks, i).out == Ok::<SpecPNode, SpecError>(
                            spec_binary(left, op, right),
                        )
                    }
                },
                _ => spec_p_expr(toks, i).out == Ok::<SpecPNode, SpecError>(
                    spec_binary(left, op, right),
                ),
            }
        }),
{
}

/// Statements already parsed, joined with what parsing the rest gives.
pub open spec fn spec_parse_join(done: Seq<SpecPNode>, rest: ParseAllOut) -> ParseAllOut {
    ParseAllOut {
        out: match rest.out {
            Ok(ns) => Ok(done + ns),
            Err(e) => Err(e),
        },
        next: rest.next,
    }
}

/// `spec_replicate` makes `n` copies, each equal to the original.
pub proof fn lemma_replicate_index(x: Seq<Seq<char>>, n: nat)
    ensures
        spec_replicate(x, n).len() == n,
        forall|i: int| 0 <= i < n ==> spec_replicate(x, n)[i] == x,
    decreases n,
{
    if n > 0 {
        lemma_replicate_index(x, (n - 1) as nat);
    }
}

} // verus!
