//! The expression parser: builds trees of complex tokens (values, standalone
//! operator markers, calls) from a token sequence, splitting call-argument
//! lists on top-level commas and validating operator placement at parse time.
//!
//! Unlike the scanner, the parser is fail-fast: the first syntactic error
//! aborts the enclosing parse and is returned as a hard failure.

#![allow(non_camel_case_types)]
#![allow(non_snake_case)]

use vstd::prelude::*;

use crate::text::dec_repr;
use crate::token::{Token, TokenType, SpecTok};
use crate::scanner::toks_view;
use crate::text::usize_to_string;

verus! {

/// A parser-level node prior to precedence resolution.
#[derive(Debug)]
pub enum ComplexToken {
    /// A literal or identifier leaf.
    VALUE { value: String, kind: TokenType, line: usize },
    /// A standalone operator marker between two values.
    CHAR { kind: TokenType, line: usize },
    /// A function invocation; the callee is itself an expression.
    CALL { name: Expression, args: Vec<Expression>, line: usize },
}

/// One flattened operand/operator run between two argument-separating commas
/// or parentheses, with the source line of its first token.
#[derive(Debug)]
pub struct Expression {
    pub tokens: Vec<ComplexToken>,
    pub line: usize,
}

/// Mathematical model of a [`ComplexToken`].
pub ghost enum SpecCtok {
    Value { value: Seq<char>, kind: TokenType, line: int },
    Char { kind: TokenType, line: int },
    Call { name: SpecExpr, args: Seq<SpecExpr>, line: int },
}

/// Mathematical model of an [`Expression`].
pub ghost struct SpecExpr {
    pub tokens: Seq<SpecCtok>,
    pub line: int,
}

/// The model of a complex token.
pub open spec fn ctok_view(t: ComplexToken) -> SpecCtok
    decreases t,
{
    match t {
        ComplexToken::VALUE { value, kind, line } => SpecCtok::Value {
            value: value@,
            kind,
            line: line as int,
        },
        ComplexToken::CHAR { kind, line } => SpecCtok::Char { kind, line: line as int },
        ComplexToken::CALL { name, args, line } => SpecCtok::Call {
            name: expr_view(name),
            args: exprs_view(args@),
            line: line as int,
        },
    }
}

/// The models of a sequence of complex tokens.
pub open spec fn ctoks_view(ts: Seq<ComplexToken>) -> Seq<SpecCtok>
    decreases ts,
{
    if ts.len() == 0 {
        Seq::empty()
    } else {
        seq![ctok_view(ts[0])] + ctoks_view(ts.subrange(1, ts.len() as int))
    }
}

/// The model of an expression.
pub open spec fn expr_view(e: Expression) -> SpecExpr
    decreases e,
{
    SpecExpr { tokens: ctoks_view(e.tokens@), line: e.line as int }
}

/// The models of a sequence of expressions.
pub open spec fn exprs_view(es: Seq<Expression>) -> Seq<SpecExpr>
    decreases es,
{
    if es.len() == 0 {
        Seq::empty()
    } else {
        seq![expr_view(es[0])] + exprs_view(es.subrange(1, es.len() as int))
    }
}

/// The token at `pos`, clamped into the sequence as the parser's accessor is.
pub open spec fn at_tok(toks: Seq<SpecTok>, pos: int) -> SpecTok {
    if 0 <= pos < toks.len() {
        toks[pos]
    } else {
        toks[toks.len() - 1]
    }
}

/// Whether the kind is an operator the expression parser accepts between
/// values: arithmetic or concatenation.
pub open spec fn is_op_kind(k: TokenType) -> bool {
    k == TokenType::PLUS || k == TokenType::MINUS || k == TokenType::STAR || k == TokenType::SLASH
        || k == TokenType::PERCENTUAL || k == TokenType::CARET || k == TokenType::TWODOTS
}

/// A valid left-hand neighbor of an operator: a value-shaped token.
pub open spec fn is_left_operand(k: TokenType) -> bool {
    k == TokenType::NUMBER || k == TokenType::IDENTIFIER || k == TokenType::STRING || k
        == TokenType::CURLY_BRACKET_CLOSED || k == TokenType::SQUARE_BRACKET_CLOSED
}

/// A valid right-hand neighbor of an operator: a value-shaped token or an
/// opening constructor bracket.
pub open spec fn is_right_operand(k: TokenType) -> bool {
    k == TokenType::NUMBER || k == TokenType::IDENTIFIER || k == TokenType::STRING || k
        == TokenType::CURLY_BRACKET_OPEN || k == TokenType::SQUARE_BRACKET_OPEN
}

/// A parse error: the header naming the file and line, then the message.
pub open spec fn perr(filename: Seq<char>, line: int, msg: Seq<char>) -> Seq<char> {
    "Error in file \""@ + filename + "\" at line ["@ + dec_repr(line as nat) + "]!\n"@ + msg
}

/// The "unexpected token" message.
pub open spec fn unexpected_msg(lexeme: Seq<char>) -> Seq<char> {
    "Unexpected token '"@ + lexeme + "'."@
}

/// The "expected token before" message.
pub open spec fn expected_before_tok_msg(expected: Seq<char>, before: Seq<char>) -> Seq<char> {
    "Expected token '"@ + expected + "' before '"@ + before + "'."@
}

/// The result of scanning ahead for the end of one call argument.
pub ghost enum CallScan {
    /// A top-level comma or the closing parenthesis was reached; `cur` is its
    /// index, `pscope` the depth after it, `ended` whether the parenthesis
    /// closed the whole list.
    Break { cur: int, pscope: int, ended: bool },
    /// End of input came before the list closed; `cur` is its clamped index.
    Eof { cur: int },
}

/// Scans forward from `cur` tracking parenthesis depth, to the comma or
/// closing parenthesis that ends the current argument.
pub open spec fn call_scan(toks: Seq<SpecTok>, cur: int, pscope: int) -> CallScan
    decreases toks.len() + 1 - cur,
{
    if cur > toks.len() || cur < 0 {
        CallScan::Eof { cur }
    } else {
        let t = at_tok(toks, cur);
        if t.kind == TokenType::ROUND_BRACKET_OPEN {
            call_scan(toks, cur + 1, pscope + 1)
        } else if t.kind == TokenType::ROUND_BRACKET_CLOSED {
            let p2: int = if pscope > 0 {
                pscope - 1
            } else {
                0
            };
            if p2 == 0 {
                CallScan::Break { cur, pscope: p2, ended: true }
            } else {
                call_scan(toks, cur + 1, p2)
            }
        } else if t.kind == TokenType::COMMA {
            if pscope > 1 {
                call_scan(toks, cur + 1, pscope)
            } else {
                CallScan::Break { cur, pscope, ended: false }
            }
        } else if t.kind == TokenType::EOF {
            CallScan::Eof { cur }
        } else {
            call_scan(toks, cur + 1, pscope)
        }
    }
}

/// The flat items of one expression over the token slice `[cur, end)`, and
/// the cursor after building them.
pub open spec fn expr_items(
    toks: Seq<SpecTok>,
    filename: Seq<char>,
    cur: int,
    end: int,
    start: int,
) -> Result<(Seq<SpecCtok>, int), Seq<char>>
    decreases 2 * toks.len() + 4 - cur, 1int,
{
    if cur > 2 * toks.len() + 3 || cur < 0 {
        Ok((seq![], cur))
    } else if cur >= end {
        Ok((seq![], cur))
    } else {
        let t = at_tok(toks, cur);
        let line = t.end.line;
        if t.kind == TokenType::IDENTIFIER {
            if cur + 1 < toks.len() && at_tok(toks, cur + 1).kind
                == TokenType::ROUND_BRACKET_OPEN {
                let name = SpecExpr {
                    tokens: seq![
                        SpecCtok::Value { value: t.lexeme, kind: TokenType::IDENTIFIER, line },
                    ],
                    line,
                };
                match build_call_spec(toks, filename, name, cur) {
                    Err(m) => Err(m),
                    Ok((ctok, ccur)) => {
                        let nxt = if ccur + 1 <= cur || ccur + 1 > 2 * toks.len() + 3 {
                            cur + 1
                        } else {
                            ccur + 1
                        };
                        match expr_items(toks, filename, nxt, end, start) {
                            Err(m) => Err(m),
                            Ok((rest, fcur)) => Ok((seq![ctok] + rest, fcur)),
                        }
                    },
                }
            } else if cur + 1 == end || is_op_kind(at_tok(toks, cur + 1).kind) {
                let v = SpecCtok::Value { value: t.lexeme, kind: TokenType::IDENTIFIER, line };
                match expr_items(toks, filename, cur + 1, end, start) {
                    Err(m) => Err(m),
                    Ok((rest, fcur)) => Ok((seq![v] + rest, fcur)),
                }
            } else {
                Err(perr(filename, line, unexpected_msg(t.lexeme)))
            }
        } else if is_op_kind(t.kind) {
            if cur == start {
                Err(
                    perr(
                        filename,
                        line,
                        "Operator '"@ + t.lexeme + "' not expected at the start of expression."@,
                    ),
                )
            } else if cur + 1 == end {
                Err(
                    perr(
                        filename,
                        line,
                        "Operator '"@ + t.lexeme + "' not expected at the end of expression."@,
                    ),
                )
            } else {
                let pt = at_tok(toks, cur - 1).kind;
                let nt = at_tok(toks, cur + 1).kind;
                if pt == TokenType::TRUE || nt == TokenType::TRUE || pt == TokenType::FALSE || nt
                    == TokenType::FALSE {
                    Err(
                        perr(
                            filename,
                            line,
                            "Operator '"@ + t.lexeme + "' cannot operate with booleans."@,
                        ),
                    )
                } else if !is_left_operand(pt) {
                    Err(
                        perr(
                            filename,
                            line,
                            "Operator '"@ + t.lexeme + "' has invalid left hand token."@,
                        ),
                    )
                } else if !is_right_operand(nt) {
                    Err(
                        perr(
                            filename,
                            line,
                            "Operator '"@ + t.lexeme + "' has invalid right hand token."@,
                        ),
                    )
                } else {
                    let v = SpecCtok::Char { kind: t.kind, line };
                    match expr_items(toks, filename, cur + 1, end, start) {
                        Err(m) => Err(m),
                        Ok((rest, fcur)) => Ok((seq![v] + rest, fcur)),
                    }
                }
            }
        } else if t.kind == TokenType::NUMBER || t.kind == TokenType::STRING || t.kind
            == TokenType::TRUE || t.kind == TokenType::FALSE {
            if cur + 1 == end || is_op_kind(at_tok(toks, cur + 1).kind) {
                let v = SpecCtok::Value { value: t.lexeme, kind: t.kind, line };
                match expr_items(toks, filename, cur + 1, end, start) {
                    Err(m) => Err(m),
                    Ok((rest, fcur)) => Ok((seq![v] + rest, fcur)),
                }
            } else {
                Err(perr(filename, line, unexpected_msg(t.lexeme)))
            }
        } else {
            Err(perr(filename, line, unexpected_msg(t.lexeme)))
        }
    }
}

/// One expression over the token slice `[start, end)`: its flat items and the
/// line of its first token, or the first syntactic error.
pub open spec fn build_expr_spec(
    toks: Seq<SpecTok>,
    filename: Seq<char>,
    start: int,
    end: int,
) -> Result<(SpecExpr, int), Seq<char>>
    decreases 2 * toks.len() + 4 - start, 2int,
{
    if start > 2 * toks.len() + 3 || start < 0 {
        Err(Seq::empty())
    } else {
        let line0 = at_tok(toks, start).end.line;
        match expr_items(toks, filename, start, end, start) {
            Err(m) => Err(m),
            Ok((items, fcur)) => {
                if items.len() == 0 {
                    Err(
                        perr(
                            filename,
                            at_tok(toks, fcur - 1).end.line,
                            unexpected_msg(at_tok(toks, end).lexeme),
                        ),
                    )
                } else {
                    Ok((SpecExpr { tokens: items, line: line0 }, fcur))
                }
            },
        }
    }
}

/// The argument list of a call: scans argument by argument from `cur`, with
/// `start` the start of the current argument and `args` those already built.
/// Returns the arguments, the final cursor and the call's line.
pub open spec fn call_args_spec(
    toks: Seq<SpecTok>,
    filename: Seq<char>,
    start: int,
    cur: int,
    pscope: int,
    args: Seq<SpecExpr>,
) -> Result<(Seq<SpecExpr>, int, int), Seq<char>>
    decreases 2 * toks.len() + 4 - start, 3int,
{
    if start > 2 * toks.len() + 3 || start < 0 {
        Err(
            perr(
                filename,
                at_tok(toks, cur).end.line,
                expected_before_tok_msg(")"@, "<eof>"@),
            ),
        )
    } else {
        match call_scan(toks, cur, pscope) {
            CallScan::Eof { cur: c } => Err(
                perr(
                    filename,
                    at_tok(toks, c).end.line,
                    expected_before_tok_msg(")"@, "<eof>"@),
                ),
            ),
            CallScan::Break { cur: bcur, pscope: p2, ended } => {
                if start == bcur {
                    if args.len() > 0 {
                        Err(
                            perr(
                                filename,
                                at_tok(toks, bcur - 1).end.line,
                                "Invalid empty function argument found."@,
                            ),
                        )
                    } else {
                        Ok((args, bcur, at_tok(toks, bcur - 1).end.line))
                    }
                } else {
                    match build_expr_spec(toks, filename, start, bcur) {
                        Err(m) => Err(m),
                        Ok((e, ecur)) => {
                            if ended {
                                Ok((args.push(e), ecur, at_tok(toks, ecur - 1).end.line))
                            } else {
                                let nxt = if ecur + 1 <= start || ecur + 1 > 2 * toks.len() + 3 {
                                    start + 1
                                } else {
                                    ecur + 1
                                };
                                call_args_spec(toks, filename, nxt, nxt, p2, args.push(e))
                            }
                        },
                    }
                }
            },
        }
    }
}

/// A call built from its callee expression with the cursor at the callee:
/// the call node and the cursor at the closing parenthesis.
pub open spec fn build_call_spec(
    toks: Seq<SpecTok>,
    filename: Seq<char>,
    name: SpecExpr,
    cur: int,
) -> Result<(SpecCtok, int), Seq<char>>
    decreases 2 * toks.len() + 4 - cur, 0int,
{
    if cur > toks.len() || cur < 0 {
        Err(Seq::empty())
    } else {
        match call_args_spec(toks, filename, cur + 2, cur, 0, seq![]) {
            Err(m) => Err(m),
            Ok((args, fcur, line)) => Ok((SpecCtok::Call { name, args, line }, fcur)),
        }
    }
}

/// The parse of a whole token sequence: one call whose callee is the first
/// token, as the surrounding driver builds it.
pub open spec fn parse_tokens_spec(toks: Seq<SpecTok>, filename: Seq<char>) -> Result<
    Seq<SpecCtok>,
    Seq<char>,
> {
    let name = SpecExpr {
        tokens: seq![
            SpecCtok::Value {
                value: at_tok(toks, 0).lexeme,
                kind: TokenType::IDENTIFIER,
                line: 1,
            },
        ],
        line: 1,
    };
    match build_call_spec(toks, filename, name, 0) {
        Err(m) => Err(m),
        Ok((c, _)) => Ok(seq![c]),
    }
}


proof fn lemma_ctoks_view_push(ts: Seq<ComplexToken>, t: ComplexToken)
    ensures
        ctoks_view(ts.push(t)) == ctoks_view(ts).push(ctok_view(t)),
    decreases ts.len(),
{
    assert(ctoks_view(Seq::<ComplexToken>::empty()) =~= Seq::<SpecCtok>::empty());
    if ts.len() == 0 {
        assert(ts.push(t).subrange(1, 1) =~= Seq::<ComplexToken>::empty());
        assert(ts.push(t)[0] == t);
        assert(ctoks_view(ts.push(t)) == seq![ctok_view(t)] + ctoks_view(
            ts.push(t).subrange(1, 1),
        ));
        assert(ctoks_view(ts.push(t)) =~= ctoks_view(ts).push(ctok_view(t)));
    } else {
        assert(ts.push(t).subrange(1, ts.len() as int + 1) =~= ts.subrange(
            1,
            ts.len() as int,
        ).push(t));
        lemma_ctoks_view_push(ts.subrange(1, ts.len() as int), t);
        assert(ctoks_view(ts.push(t)) == seq![ctok_view(ts[0])] + ctoks_view(
            ts.subrange(1, ts.len() as int).push(t),
        ));
        assert(ctoks_view(ts.push(t)) =~= ctoks_view(ts).push(ctok_view(t)));
    }
}

proof fn lemma_exprs_view_push(es: Seq<Expression>, e: Expression)
    ensures
        exprs_view(es.push(e)) == exprs_view(es).push(expr_view(e)),
    decreases es.len(),
{
    assert(exprs_view(Seq::<Expression>::empty()) =~= Seq::<SpecExpr>::empty());
    if es.len() == 0 {
        assert(es.push(e).subrange(1, 1) =~= Seq::<Expression>::empty());
        assert(es.push(e)[0] == e);
        assert(exprs_view(es.push(e)) == seq![expr_view(e)] + exprs_view(
            es.push(e).subrange(1, 1),
        ));
        assert(exprs_view(es.push(e)) =~= exprs_view(es).push(expr_view(e)));
    } else {
        assert(es.push(e).subrange(1, es.len() as int + 1) =~= es.subrange(
            1,
            es.len() as int,
        ).push(e));
        lemma_exprs_view_push(es.subrange(1, es.len() as int), e);
        assert(exprs_view(es.push(e)) == seq![expr_view(es[0])] + exprs_view(
            es.subrange(1, es.len() as int).push(e),
        ));
        assert(exprs_view(es.push(e)) =~= exprs_view(es).push(expr_view(e)));
    }
}

/// The parser's state over one token sequence.
struct ParserInfo {
    current: usize,
    size: usize,
    tokens: Vec<Token>,
    filename: String,
    ctokens: Vec<ComplexToken>,
}

impl ParserInfo {
    /// The parser state is well formed: the size is the token count, there is
    /// at least one token, and the last one is the end-of-input marker.
    spec fn wf(&self) -> bool {
        &&& self.size == self.tokens@.len()
        &&& self.size >= 1
        &&& self.size < usize::MAX / 8
        &&& toks_view(self.tokens@)[self.size - 1].kind == TokenType::EOF
    }

    /// The models of the parser's tokens.
    spec fn tv(&self) -> Seq<SpecTok> {
        toks_view(self.tokens@)
    }

    /// The token at `pos`, clamped into the sequence.
    fn at(&self, pos: usize) -> (t: Token)
        requires
            self.wf(),
        ensures
            t@ == at_tok(self.tv(), pos as int),
    {
        let idx = if pos < self.size {
            pos
        } else {
            self.size - 1
        };
        self.tokens[idx].clone()
    }

    /// The line of the token before the cursor, as error reports use it.
    fn getLine(&self) -> (r: usize)
        requires
            self.wf(),
        ensures
            r as int == at_tok(self.tv(), self.current as int - 1).end.line,
    {
        let idx = if self.current == 0 {
            self.size - 1
        } else {
            self.current - 1
        };
        self.at(idx).position.end.line
    }

    /// Builds a parse error: the header naming the file and the current line,
    /// then the message.
    fn error(&self, msg: String) -> (r: String)
        requires
            self.wf(),
        ensures
            r@ == perr(
                self.filename@,
                at_tok(self.tv(), self.current as int - 1).end.line,
                msg@,
            ),
    {
        let mut h = String::from_str("Error in file \"");
        h.append(self.filename.as_str());
        h.append("\" at line [");
        let l = usize_to_string(self.getLine());
        h.append(l.as_str());
        h.append("]!\n");
        h.append(msg.as_str());
        h
    }

    /// Builds an "unexpected token" parse error.
    fn unexpected(&self, lexeme: &str) -> (r: String)
        requires
            self.wf(),
        ensures
            r@ == perr(
                self.filename@,
                at_tok(self.tv(), self.current as int - 1).end.line,
                unexpected_msg(lexeme@),
            ),
    {
        let mut m = String::from_str("Unexpected token '");
        m.append(lexeme);
        m.append("'.");
        self.error(m)
    }

    /// Builds an operator-placement parse error from the operator's lexeme
    /// and the tail of the message.
    fn op_error(&self, lexeme: &str, tail: &str) -> (r: String)
        requires
            self.wf(),
        ensures
            r@ == perr(
                self.filename@,
                at_tok(self.tv(), self.current as int - 1).end.line,
                "Operator '"@ + lexeme@ + tail@,
            ),
    {
        let mut m = String::from_str("Operator '");
        m.append(lexeme);
        m.append(tail);
        self.error(m)
    }

    /// Scans forward to the comma or closing parenthesis ending the current
    /// argument, tracking parenthesis depth; `None` means end of input came
    /// first.
    fn scan_arg(&mut self, pscope: usize) -> (r: Option<(usize, bool)>)
        requires
            old(self).wf(),
            old(self).current <= 2 * old(self).size + 4,
            pscope <= 1,
        ensures
            final(self).wf(),
            final(self).tokens == old(self).tokens,
            final(self).filename == old(self).filename,
            final(self).size == old(self).size,
            final(self).ctokens == old(self).ctokens,
            match call_scan(old(self).tv(), old(self).current as int, pscope as int) {
                CallScan::Break { cur, pscope: p2, ended } => (match r {
                    Some(p) => p.0 as int == p2 && p.1 == ended && 0 <= p2 <= 1,
                    None => false,
                }) && final(self).current as int == cur && old(self).current
                    <= final(self).current && final(self).current + 2 <= final(self).size,
                CallScan::Eof { cur } => r is None && final(self).current as int == cur + 1,
            },
    {
        let ghost c0 = self.current as int;
        let ghost p0 = pscope as int;
        let mut psc = pscope;
        loop
            invariant
                self.wf(),
                self.tokens == old(self).tokens,
                self.filename == old(self).filename,
                self.size == old(self).size,
                self.ctokens == old(self).ctokens,
                self.current <= 2 * self.size + 5,
                0 <= c0 <= self.current as int,
                0 <= p0 <= 1,
                psc as int <= p0 + (self.current as int - c0),
                c0 == old(self).current as int,
                p0 == pscope as int,
                call_scan(old(self).tv(), c0, p0) == call_scan(
                    self.tv(),
                    self.current as int,
                    psc as int,
                ),
            decreases 2 * self.size + 5 - self.current,
        {
            let ghost hc = self.current as int;
            let ghost hp = psc as int;
            let ghost tvx = self.tv();
            let t = self.at(self.current);
            proof {
                if hc >= self.size {
                    assert(t@.kind == TokenType::EOF);
                }
            }
            self.current = self.current + 1;
            match t.kind {
                TokenType::ROUND_BRACKET_OPEN => {
                    psc = psc + 1;
                    proof {
                        assert(call_scan(tvx, hc, hp) == call_scan(tvx, hc + 1, hp + 1));
                    }
                },
                TokenType::ROUND_BRACKET_CLOSED => {
                    if psc > 0 {
                        psc = psc - 1;
                    }
                    if psc == 0 {
                        self.current = self.current - 1;
                        proof {
                            assert(call_scan(tvx, hc, hp) == (CallScan::Break {
                                cur: hc,
                                pscope: 0int,
                                ended: true,
                            }));
                        }
                        return Some((psc, true));
                    }
                    proof {
                        assert(call_scan(tvx, hc, hp) == call_scan(tvx, hc + 1, psc as int));
                    }
                },
                TokenType::COMMA => {
                    if psc <= 1 {
                        self.current = self.current - 1;
                        proof {
                            assert(call_scan(tvx, hc, hp) == (CallScan::Break {
                                cur: hc,
                                pscope: hp,
                                ended: false,
                            }));
                        }
                        return Some((psc, false));
                    }
                    proof {
                        assert(call_scan(tvx, hc, hp) == call_scan(tvx, hc + 1, hp));
                    }
                },
                TokenType::EOF => {
                    proof {
                        assert(call_scan(tvx, hc, hp) == (CallScan::Eof { cur: hc }));
                    }
                    return None;
                },
                _ => {
                    proof {
                        assert(call_scan(tvx, hc, hp) == call_scan(tvx, hc + 1, hp));
                    }
                },
            }
        }
    }

    /// Builds a call from its callee expression, with the cursor at the
    /// callee: scans the argument list, splitting on top-level commas.
    #[verifier::rlimit(100)]
    fn build_call(&mut self, name: Expression) -> (r: Result<ComplexToken, String>)
        requires
            old(self).wf(),
            old(self).current + 1 <= old(self).size,
        ensures
            final(self).wf(),
            final(self).tokens == old(self).tokens,
            final(self).filename == old(self).filename,
            final(self).size == old(self).size,
            final(self).ctokens == old(self).ctokens,
            ({
                let g = build_call_spec(
                    old(self).tv(),
                    old(self).filename@,
                    expr_view(name),
                    old(self).current as int,
                );
                match r {
                    Ok(c) => g == Ok::<_, Seq<char>>(
                        (ctok_view(c), final(self).current as int),
                    ) && old(self).current <= final(self).current && 2 * (
                    final(self).current as int) <= 3 * final(self).size - 4 - old(self).current,
                    Err(m) => g == Err::<(SpecCtok, int), _>(m@),
                }
            }),
        decreases 2 * old(self).tokens@.len() + 4 - old(self).current, 0int,
    {
        let ghost tv = self.tv();
        let ghost f = self.filename@;
        let ghost cur0 = self.current as int;
        let ghost nv = expr_view(name);
        let mut args: Vec<Expression> = Vec::new();
        let mut start: usize = self.current + 2;
        let mut pscope: usize = 0;
        proof {
            assert(exprs_view(args@) =~= Seq::<SpecExpr>::empty());
        }
        loop
            invariant
                self.wf(),
                self.tokens == old(self).tokens,
                self.filename == old(self).filename,
                self.size == old(self).size,
                self.ctokens == old(self).ctokens,
                tv == self.tv(),
                tv == old(self).tv(),
                f == self.filename@,
                cur0 == old(self).current as int,
                nv == expr_view(name),
                pscope <= 1,
                0 <= cur0 <= self.size - 1,
                cur0 + 2 <= start,
                2 * (start as int) <= 3 * self.size + 2,
                cur0 <= self.current as int,
                self.current <= 2 * self.size + 4,
                start == self.current || (start == cur0 + 2 && self.current as int == cur0),
                build_call_spec(tv, f, nv, cur0) == (match call_args_spec(
                    tv,
                    f,
                    start as int,
                    self.current as int,
                    pscope as int,
                    exprs_view(args@),
                ) {
                    Ok((aa, fcur, line)) => Ok::<_, Seq<char>>(
                        (SpecCtok::Call { name: nv, args: aa, line }, fcur),
                    ),
                    Err(m) => Err::<(SpecCtok, int), _>(m),
                }),
                args@.len() > 0 ==> self.current >= 1,
            decreases 2 * self.size + 4 - start,
        {
            let ghost scur = self.current as int;
            let ghost spsc = pscope as int;
            let ghost sargs = exprs_view(args@);
            let sa = self.scan_arg(pscope);
            match sa {
                None => {
                    let mut m0 = String::from_str("Expected token '");
                    m0.append(")");
                    m0.append("' before '");
                    m0.append("<eof>");
                    m0.append("'.");
                    let m = self.error(m0);
                    return Err(m);
                },
                Some((p2, ended)) => {
                    proof {
                        assert(call_scan(tv, scur, spsc) == (CallScan::Break {
                            cur: self.current as int,
                            pscope: p2 as int,
                            ended,
                        }));
                    }
                    pscope = p2;
                    let bcur = self.current;
                    if start == bcur {
                        if args.len() > 0 {
                            let m = self.error(
                                String::from_str("Invalid empty function argument found."),
                            );
                            return Err(m);
                        }
                        let line = self.getLine();
                        return Ok(ComplexToken::CALL { name, args, line });
                    }
                    let e = match self.build_expression(start, bcur) {
                        Ok(e) => e,
                        Err(m) => {
                            return Err(m);
                        },
                    };
                    proof {
                        lemma_exprs_view_push(args@, e);
                    }
                    args.push(e);
                    if ended {
                        let line = self.getLine();
                        return Ok(ComplexToken::CALL { name, args, line });
                    }
                    self.current = self.current + 1;
                    start = self.current;
                },
            }
        }
    }

    /// Builds one expression over the token slice `[start, end)`: values,
    /// operator markers and calls, with operator placement validated.
    #[verifier::rlimit(100)]
    fn build_expression(&mut self, start: usize, end: usize) -> (r: Result<Expression, String>)
        requires
            old(self).wf(),
            1 <= start <= old(self).size + 1,
            end + 2 <= old(self).size,
        ensures
            final(self).wf(),
            final(self).tokens == old(self).tokens,
            final(self).filename == old(self).filename,
            final(self).size == old(self).size,
            final(self).ctokens == old(self).ctokens,
            ({
                let g = build_expr_spec(old(self).tv(), old(self).filename@, start as int,
                    end as int);
                match r {
                    Ok(e) => g == Ok::<_, Seq<char>>(
                        (expr_view(e), final(self).current as int),
                    ) && start <= final(self).current && 2 * (final(self).current as int) <= 3
                        * final(self).size - 2 - start,
                    Err(m) => g == Err::<(SpecExpr, int), _>(m@),
                }
            }),
        decreases 2 * old(self).tokens@.len() + 4 - start, 1int,
    {
        let ghost tv = self.tv();
        let ghost f = self.filename@;
        let line0 = self.at(start).position.end.line;
        let mut items: Vec<ComplexToken> = Vec::new();
        self.current = start;
        proof {
            assert(ctoks_view(items@) =~= Seq::<SpecCtok>::empty());
        }
        while self.current < end
            invariant
                self.wf(),
                self.tokens == old(self).tokens,
                self.filename == old(self).filename,
                self.size == old(self).size,
                self.ctokens == old(self).ctokens,
                tv == self.tv(),
                tv == old(self).tv(),
                f == self.filename@,
                f == old(self).filename@,
                1 <= start <= self.size + 1,
                start <= self.current,
                end + 2 <= self.size,
                items@.len() == 0 ==> self.current == start,
                items@.len() > 0 ==> 2 * (self.current as int) <= 3 * self.size - 2 - start,
                self.current <= 2 * self.size + 4,
                line0 as int == at_tok(tv, start as int).end.line,
                expr_items(tv, f, start as int, end as int, start as int) == (match expr_items(
                    tv,
                    f,
                    self.current as int,
                    end as int,
                    start as int,
                ) {
                    Ok((rest, fcur)) => Ok::<_, Seq<char>>((ctoks_view(items@) + rest, fcur)),
                    Err(m) => Err::<(Seq<SpecCtok>, int), _>(m),
                }),
            decreases 2 * self.size + 4 - self.current,
        {
            let ghost icur = self.current as int;
            let ghost done = ctoks_view(items@);
            let t = self.at(self.current);
            self.current = self.current + 1;
            match t.kind {
                TokenType::IDENTIFIER => {
                    let line = self.getLine();
                    let opens = self.current < self.size && self.at(self.current).kind
                        == TokenType::ROUND_BRACKET_OPEN;
                    if opens {
                        self.current = self.current - 1;
                        let name = Expression {
                            tokens: vec![
                                ComplexToken::VALUE {
                                    value: t.lexeme,
                                    kind: TokenType::IDENTIFIER,
                                    line,
                                },
                            ],
                            line,
                        };
                        proof {
                            assert(ctoks_view(Seq::<ComplexToken>::empty()) =~= Seq::<
                                SpecCtok,
                            >::empty());
                            assert(name.tokens@ =~= seq![name.tokens@[0]]);
                            assert(name.tokens@.subrange(1, 1) =~= Seq::<ComplexToken>::empty());
                            assert(ctoks_view(name.tokens@) == seq![ctok_view(name.tokens@[0])]
                                + ctoks_view(name.tokens@.subrange(1, 1)));
                            assert(ctoks_view(name.tokens@) =~= seq![ctok_view(name.tokens@[0])]);
                        }
                        let c = match self.build_call(name) {
                            Ok(c) => c,
                            Err(m) => {
                                return Err(m);
                            },
                        };
                        proof {
                            lemma_ctoks_view_push(items@, c);
                        }
                        items.push(c);
                        self.current = self.current + 1;
                        proof {
                            lemma_items_shift(done, ctok_view(c), tv, f, self.current as int,
                                end as int, start as int);
                        }
                    } else if self.current == end || is_op(self.at(self.current).kind) {
                        let v = ComplexToken::VALUE {
                            value: t.lexeme,
                            kind: TokenType::IDENTIFIER,
                            line,
                        };
                        proof {
                            lemma_ctoks_view_push(items@, v);
                        }
                        items.push(v);
                        proof {
                            lemma_items_shift(done, ctok_view(v), tv, f, self.current as int,
                                end as int, start as int);
                        }
                    } else {
                        return Err(self.unexpected(t.lexeme.as_str()));
                    }
                },
                TokenType::NUMBER | TokenType::STRING | TokenType::TRUE | TokenType::FALSE => {
                    let line = self.getLine();
                    if self.current == end || is_op(self.at(self.current).kind) {
                        let v = ComplexToken::VALUE { value: t.lexeme, kind: t.kind, line };
                        proof {
                            lemma_ctoks_view_push(items@, v);
                        }
                        items.push(v);
                        proof {
                            lemma_items_shift(done, ctok_view(v), tv, f, self.current as int,
                                end as int, start as int);
                        }
                    } else {
                        return Err(self.unexpected(t.lexeme.as_str()));
                    }
                },
                _ => {
                    if is_op(t.kind) {
                        if self.current - 1 == start {
                            return Err(self.op_error(
                                t.lexeme.as_str(),
                                "' not expected at the start of expression.",
                            ));
                        }
                        if self.current == end {
                            return Err(self.op_error(
                                t.lexeme.as_str(),
                                "' not expected at the end of expression.",
                            ));
                        }
                        let pt = self.at(self.current - 2).kind;
                        let nt = self.at(self.current).kind;
                        if pt == TokenType::TRUE || nt == TokenType::TRUE || pt == TokenType::FALSE
                            || nt == TokenType::FALSE {
                            return Err(self.op_error(
                                t.lexeme.as_str(),
                                "' cannot operate with booleans.",
                            ));
                        }
                        if !(pt == TokenType::NUMBER || pt == TokenType::IDENTIFIER || pt
                            == TokenType::STRING || pt == TokenType::CURLY_BRACKET_CLOSED || pt
                            == TokenType::SQUARE_BRACKET_CLOSED) {
                            return Err(self.op_error(
                                t.lexeme.as_str(),
                                "' has invalid left hand token.",
                            ));
                        }
                        if !(nt == TokenType::NUMBER || nt == TokenType::IDENTIFIER || nt
                            == TokenType::STRING || nt == TokenType::CURLY_BRACKET_OPEN || nt
                            == TokenType::SQUARE_BRACKET_OPEN) {
                            return Err(self.op_error(
                                t.lexeme.as_str(),
                                "' has invalid right hand token.",
                            ));
                        }
                        let line = self.getLine();
                        let v = ComplexToken::CHAR { kind: t.kind, line };
                        proof {
                            lemma_ctoks_view_push(items@, v);
                        }
                        items.push(v);
                        proof {
                            lemma_items_shift(done, ctok_view(v), tv, f, self.current as int,
                                end as int, start as int);
                        }
                    } else {
                        return Err(self.unexpected(t.lexeme.as_str()));
                    }
                },
            }
        }
        if items.len() == 0 {
            let lex = self.at(end).lexeme;
            return Err(self.unexpected(lex.as_str()));
        }
        Ok(Expression { tokens: items, line: line0 })
    }
}

/// Associativity of the done-items with one new item and the remaining ones.
proof fn lemma_items_shift(
    done: Seq<SpecCtok>,
    v: SpecCtok,
    tv: Seq<SpecTok>,
    f: Seq<char>,
    cur: int,
    end: int,
    start: int,
)
    ensures
        match expr_items(tv, f, cur, end, start) {
            Ok((rest, fcur)) => (done + (seq![v] + rest)) == ((done.push(v)) + rest),
            Err(m) => true,
        },
{
    match expr_items(tv, f, cur, end, start) {
        Ok((rest, fcur)) => {
            assert((done + (seq![v] + rest)) =~= ((done.push(v)) + rest));
        },
        Err(m) => {},
    }
}

/// Whether the kind is an operator the expression parser accepts.
fn is_op(k: TokenType) -> (r: bool)
    ensures
        r == is_op_kind(k),
{
    k == TokenType::PLUS || k == TokenType::MINUS || k == TokenType::STAR || k == TokenType::SLASH
        || k == TokenType::PERCENTUAL || k == TokenType::CARET || k == TokenType::TWODOTS
}

/// Parses a token sequence into complex tokens: one call whose callee is the
/// first token, as the surrounding driver builds it. The first syntactic
/// error aborts the parse and is returned as a hard failure.
pub fn ParseTokens(tokens: Vec<Token>, filename: String) -> (r: Result<Vec<ComplexToken>, String>)
    requires
        1 <= tokens@.len() < usize::MAX / 8,
        toks_view(tokens@)[tokens@.len() - 1].kind == TokenType::EOF,
    ensures
        ({
            let g = parse_tokens_spec(toks_view(tokens@), filename@);
            match r {
                Ok(v) => g == Ok::<_, Seq<char>>(ctoks_view(v@)),
                Err(m) => g == Err::<Seq<SpecCtok>, _>(m@),
            }
        }),
{
    let ghost tv = toks_view(tokens@);
    let size = tokens.len();
    let mut i = ParserInfo { current: 0, size, tokens, filename, ctokens: Vec::new() };
    let callee = i.at(0);
    let name = Expression {
        tokens: vec![
            ComplexToken::VALUE { value: callee.lexeme, kind: TokenType::IDENTIFIER, line: 1 },
        ],
        line: 1,
    };
    proof {
        assert(ctoks_view(Seq::<ComplexToken>::empty()) =~= Seq::<SpecCtok>::empty());
        assert(name.tokens@ =~= seq![name.tokens@[0]]);
        assert(name.tokens@.subrange(1, 1) =~= Seq::<ComplexToken>::empty());
        assert(ctoks_view(name.tokens@) == seq![ctok_view(name.tokens@[0])] + ctoks_view(
            name.tokens@.subrange(1, 1),
        ));
        assert(ctoks_view(name.tokens@) =~= seq![ctok_view(name.tokens@[0])]);
    }
    match i.build_call(name) {
        Ok(c) => {
            proof {
                lemma_ctoks_view_push(i.ctokens@, c);
                assert(i.ctokens@ =~= Seq::<ComplexToken>::empty());
            }
            i.ctokens.push(c);
            proof {
                assert(ctoks_view(i.ctokens@) =~= seq![ctok_view(c)]);
            }
            Ok(i.ctokens)
        },
        Err(m) => Err(m),
    }
}

} // verus!
