//! The executable scanner: turns preprocessed source text into a token
//! sequence terminated by an end-of-input marker, raising a diagnostic for
//! every problem it finds without stopping at the first one.
//!
//! Every function here is proved to return exactly what the model in
//! [`crate::scan_model`] describes.

use vstd::prelude::*;

use crate::error::{ClueError, SpecDiag, CodeReader, ErrorMessaging, Reporter};
use crate::scan_model::{peek_c, dec_end, hex_end, bin_end, ident_end, sym_res, suffix_scan,
    num_scan, scan_diag, slice_tok, scan_step, scan_at, scan_spec, eof_tok, kw_class, KwClass,
    is_member_access, ident_step, str_end, strip_ctl, close_pat, contains_seq, raw_bad,
    raw_level_from, unescape_raw, long_bracket, qstr_step, rawstr_step};
use crate::text::{is_space, is_digit, is_hex, is_bin, is_ident_start, is_ident, is_digit_char,
    push_char, substr, str_to_chars};
use crate::token::{Token, TokenType, TokenPosition, SpecTok, line_at, col_at, pos_at};

verus! {

/// The sequence of token models carried by a token vector.
pub open spec fn toks_view(ts: Seq<Token>) -> Seq<SpecTok> {
    ts.map_values(|t: Token| t@)
}

/// The sequence of diagnostic models carried by a diagnostic vector.
pub open spec fn diags_view(ds: Seq<ClueError>) -> Seq<SpecDiag> {
    ds.map_values(|d: ClueError| d@)
}

proof fn lemma_toks_view_push(ts: Seq<Token>, t: Token)
    ensures
        toks_view(ts.push(t)) == toks_view(ts).push(t@),
{
    assert(toks_view(ts.push(t)) =~= toks_view(ts).push(t@));
}

proof fn lemma_diags_view_push(ds: Seq<ClueError>, d: ClueError)
    ensures
        diags_view(ds.push(d)) == diags_view(ds).push(d@),
{
    assert(diags_view(ds.push(d)) =~= diags_view(ds).push(d@));
}

/// The character at index `j`, or the null sentinel past the end.
fn peek_ch(code: &Vec<char>, j: usize) -> (c: char)
    ensures
        c == peek_c(code@, j as int),
{
    if j < code.len() {
        code[j]
    } else {
        '\0'
    }
}

/// Computes the line and column of index `j` by walking the text before it.
fn pos_of(code: &Vec<char>, j: usize) -> (p: TokenPosition)
    requires
        j <= code@.len(),
        code@.len() < usize::MAX - 3,
    ensures
        p@ == pos_at(code@, j as int),
{
    let mut line: usize = 1;
    let mut col: usize = 1;
    let mut k: usize = 0;
    while k < j
        invariant
            k <= j <= code@.len(),
            code@.len() < usize::MAX - 3,
            line as int == line_at(code@, k as int),
            col as int == col_at(code@, k as int),
            line <= k + 1,
            col <= k + 1,
        decreases j - k,
    {
        if code[k] == '\n' {
            line = line + 1;
            col = 1;
        } else {
            col = col + 1;
        }
        k = k + 1;
    }
    TokenPosition { line, column: col, index: j }
}

/// The end of the run of decimal digits starting at `j`.
fn dec_run(code: &Vec<char>, j: usize) -> (r: usize)
    requires
        j <= code@.len(),
    ensures
        r as int == dec_end(code@, j as int),
        j <= r <= code@.len(),
{
    let mut k: usize = j;
    while k < code.len() && is_digit(code[k])
        invariant
            j <= k <= code@.len(),
            dec_end(code@, j as int) == dec_end(code@, k as int),
        decreases code@.len() - k,
    {
        k = k + 1;
    }
    k
}

/// The end of the run of hexadecimal digits starting at `j`.
fn hex_run(code: &Vec<char>, j: usize) -> (r: usize)
    requires
        j <= code@.len(),
    ensures
        r as int == hex_end(code@, j as int),
        j <= r <= code@.len(),
{
    let mut k: usize = j;
    while k < code.len() && is_hex(code[k])
        invariant
            j <= k <= code@.len(),
            hex_end(code@, j as int) == hex_end(code@, k as int),
        decreases code@.len() - k,
    {
        k = k + 1;
    }
    k
}

/// The end of the run of binary digits starting at `j`.
fn bin_run(code: &Vec<char>, j: usize) -> (r: usize)
    requires
        j <= code@.len(),
    ensures
        r as int == bin_end(code@, j as int),
        j <= r <= code@.len(),
{
    let mut k: usize = j;
    while k < code.len() && is_bin(code[k])
        invariant
            j <= k <= code@.len(),
            bin_end(code@, j as int) == bin_end(code@, k as int),
        decreases code@.len() - k,
    {
        k = k + 1;
    }
    k
}

/// The end of the run of identifier characters starting at `j`.
fn ident_run(code: &Vec<char>, j: usize) -> (r: usize)
    requires
        j <= code@.len(),
    ensures
        r as int == ident_end(code@, j as int),
        j <= r <= code@.len(),
{
    let mut k: usize = j;
    while k < code.len() && is_ident(code[k])
        invariant
            j <= k <= code@.len(),
            ident_end(code@, j as int) == ident_end(code@, k as int),
        decreases code@.len() - k,
    {
        k = k + 1;
    }
    k
}

/// Longest-match symbol resolution at index `i`.
fn scan_symbol(code: &Vec<char>, i: usize) -> (r: Option<(TokenType, usize)>)
    requires
        i < code@.len(),
        code@.len() < usize::MAX - 3,
    ensures
        match r {
            Some(p) => sym_res(code@, i as int) == Some((p.0, p.1 as int)) && i < p.1
                <= code@.len(),
            None => sym_res(code@, i as int) is None,
        },
{
    let c0 = code[i];
    let c1 = peek_ch(code, i + 1);
    let c2 = peek_ch(code, i + 2);
    match c0 {
        '(' => Some((TokenType::ROUND_BRACKET_OPEN, i + 1)),
        ')' => Some((TokenType::ROUND_BRACKET_CLOSED, i + 1)),
        '[' => Some((TokenType::SQUARE_BRACKET_OPEN, i + 1)),
        ']' => Some((TokenType::SQUARE_BRACKET_CLOSED, i + 1)),
        '{' => Some((TokenType::CURLY_BRACKET_OPEN, i + 1)),
        '}' => Some((TokenType::CURLY_BRACKET_CLOSED, i + 1)),
        ',' => Some((TokenType::COMMA, i + 1)),
        ';' => Some((TokenType::SEMICOLON, i + 1)),
        '#' => Some((TokenType::HASHTAG, i + 1)),
        '~' => Some((TokenType::BIT_NOT, i + 1)),
        '.' => if c1 == '.' {
            if c2 == '.' {
                Some((TokenType::THREEDOTS, i + 3))
            } else if c2 == '=' {
                Some((TokenType::CONCATENATE, i + 3))
            } else {
                Some((TokenType::TWODOTS, i + 2))
            }
        } else {
            Some((TokenType::DOT, i + 1))
        },
        '+' => if c1 == '=' {
            Some((TokenType::INCREASE, i + 2))
        } else {
            Some((TokenType::PLUS, i + 1))
        },
        '-' => if c1 == '=' {
            Some((TokenType::DECREASE, i + 2))
        } else {
            Some((TokenType::MINUS, i + 1))
        },
        '*' => if c1 == '=' {
            Some((TokenType::MULTIPLY, i + 2))
        } else {
            Some((TokenType::STAR, i + 1))
        },
        '^' => if c1 == '=' {
            Some((TokenType::EXPONENTIATE, i + 2))
        } else if c1 == '^' {
            Some((TokenType::BIT_XOR, i + 2))
        } else {
            Some((TokenType::CARET, i + 1))
        },
        '/' => if c1 == '=' {
            Some((TokenType::DIVIDE, i + 2))
        } else if c1 == '_' {
            Some((TokenType::FLOOR_DIVISION, i + 2))
        } else {
            Some((TokenType::SLASH, i + 1))
        },
        '%' => if c1 == '=' {
            Some((TokenType::MODULATE, i + 2))
        } else {
            Some((TokenType::PERCENTUAL, i + 1))
        },
        '!' => if c1 == '=' {
            Some((TokenType::NOT_EQUAL, i + 2))
        } else {
            Some((TokenType::NOT, i + 1))
        },
        '=' => if c1 == '=' {
            Some((TokenType::EQUAL, i + 2))
        } else if c1 == '>' {
            Some((TokenType::ARROW, i + 2))
        } else {
            Some((TokenType::DEFINE, i + 1))
        },
        '<' => if c1 == '=' {
            Some((TokenType::SMALLER_EQUAL, i + 2))
        } else if c1 == '<' {
            Some((TokenType::LEFT_SHIFT, i + 2))
        } else {
            Some((TokenType::SMALLER, i + 1))
        },
        '>' => if c1 == '=' {
            Some((TokenType::BIGGER_EQUAL, i + 2))
        } else if c1 == '>' {
            Some((TokenType::RIGHT_SHIFT, i + 2))
        } else {
            Some((TokenType::BIGGER, i + 1))
        },
        '?' => match c1 {
            '.' => Some((TokenType::SAFE_DOT, i + 2)),
            ':' => if c2 == ':' {
                Some((TokenType::SAFE_DOUBLE_COLON, i + 3))
            } else {
                Some((TokenType::QUESTION_MARK, i + 1))
            },
            '[' => Some((TokenType::SAFE_SQUARE_BRACKET, i + 2)),
            '?' => if c2 == '=' {
                Some((TokenType::DEFINE_COALESCE, i + 3))
            } else {
                Some((TokenType::COALESCE, i + 2))
            },
            '(' => Some((TokenType::SAFE_CALL, i + 2)),
            _ => Some((TokenType::QUESTION_MARK, i + 1)),
        },
        '&' => if c1 == '&' {
            if c2 == '=' {
                Some((TokenType::DEFINE_AND, i + 3))
            } else {
                Some((TokenType::AND, i + 2))
            }
        } else {
            Some((TokenType::BIT_AND, i + 1))
        },
        ':' => if c1 == ':' {
            Some((TokenType::DOUBLE_COLON, i + 2))
        } else {
            Some((TokenType::COLON, i + 1))
        },
        '|' => if c1 == '|' {
            if c2 == '=' {
                Some((TokenType::DEFINE_OR, i + 3))
            } else {
                Some((TokenType::OR, i + 2))
            }
        } else {
            Some((TokenType::BIT_OR, i + 1))
        },
        _ => None,
    }
}

/// Pushes a malformed-number diagnostic for the span `start..cur`.
fn push_malformed(code: &Vec<char>, start: usize, cur: usize, diags: &mut Vec<ClueError>)
    requires
        cur <= code@.len(),
        code@.len() < usize::MAX - 3,
    ensures
        diags_view(final(diags)@) == diags_view(old(diags)@).push(
            scan_diag(code@, "Malformed number"@, start as int, cur as int, None),
        ),
{
    let p = pos_of(code, cur);
    let d = ClueError::error(
        String::from_str("Malformed number"),
        p.line,
        p.column,
        core::ops::Range { start, end: cur },
        None,
    );
    proof {
        lemma_diags_view_push(diags@, d);
    }
    diags.push(d);
}

/// Consumes an optional `LL` / `ULL` integer suffix after a number's digits.
fn scan_suffix(code: &Vec<char>, tok_start: usize, j: usize, diags: &mut Vec<ClueError>) -> (end:
    usize)
    requires
        tok_start <= j <= code@.len(),
        code@.len() < usize::MAX - 3,
    ensures
        ({
            let (e, ds) = suffix_scan(code@, tok_start as int, j as int);
            end as int == e && j <= end <= code@.len() && diags_view(final(diags)@) == diags_view(
                old(diags)@,
            ) + ds
        }),
{
    let l0 = peek_ch(code, j);
    let l1 = peek_ch(code, j + 1);
    if l0 == 'L' && l1 == 'L' {
        proof {
            assert(diags_view(diags@) =~= diags_view(diags@) + Seq::<SpecDiag>::empty());
        }
        j + 2
    } else if l0 == 'U' && l1 == 'L' {
        if peek_ch(code, j + 2) == 'L' {
            proof {
                assert(diags_view(diags@) =~= diags_view(diags@) + Seq::<SpecDiag>::empty());
            }
            j + 3
        } else {
            push_malformed(code, tok_start, j, diags);
            proof {
                assert(diags_view(diags@) =~= diags_view(old(diags)@) + seq![
                    scan_diag(code@, "Malformed number"@, tok_start as int, j as int, None),
                ]);
            }
            j
        }
    } else {
        proof {
            assert(diags_view(diags@) =~= diags_view(diags@) + Seq::<SpecDiag>::empty());
        }
        j
    }
}

/// Scans the numeric literal whose first digit stands at `i`; returns its end.
fn scan_number(code: &Vec<char>, i: usize, diags: &mut Vec<ClueError>) -> (end: usize)
    requires
        i < code@.len(),
        is_digit_char(code@[i as int]),
        code@.len() < usize::MAX - 3,
    ensures
        ({
            let (e, ds) = num_scan(code@, i as int);
            end as int == e && i < end <= code@.len() && diags_view(final(diags)@) == diags_view(
                old(diags)@,
            ) + ds
        }),
{
    let c1 = peek_ch(code, i + 1);
    if code[i] == '0' && (c1 == 'x' || c1 == 'X') {
        let d1 = hex_run(code, i + 2);
        let d2 = if peek_ch(code, d1) == '.' && is_hex(peek_ch(code, d1 + 1)) {
            hex_run(code, d1 + 1)
        } else {
            d1
        };
        if d2 == i + 2 {
            push_malformed(code, i, i + 2, diags);
            let ghost mid = diags@;
            let end = scan_suffix(code, i, d2, diags);
            proof {
                let (e, ds) = suffix_scan(code@, i as int, d2 as int);
                assert(diags_view(diags@) =~= diags_view(old(diags)@) + (seq![
                    scan_diag(code@, "Malformed number"@, i as int, (i + 2) as int, None),
                ] + ds));
            }
            end
        } else {
            let end = scan_suffix(code, i, d2, diags);
            proof {
                let (e, ds) = suffix_scan(code@, i as int, d2 as int);
                assert(diags_view(diags@) =~= diags_view(old(diags)@) + (Seq::<
                    SpecDiag,
                >::empty() + ds));
            }
            end
        }
    } else if code[i] == '0' && (c1 == 'b' || c1 == 'B') {
        let d1 = bin_run(code, i + 2);
        let d2 = if peek_ch(code, d1) == '.' && is_bin(peek_ch(code, d1 + 1)) {
            bin_run(code, d1 + 1)
        } else {
            d1
        };
        if d2 == i + 2 {
            push_malformed(code, i, i + 2, diags);
            let end = scan_suffix(code, i, d2, diags);
            proof {
                let (e, ds) = suffix_scan(code@, i as int, d2 as int);
                assert(diags_view(diags@) =~= diags_view(old(diags)@) + (seq![
                    scan_diag(code@, "Malformed number"@, i as int, (i + 2) as int, None),
                ] + ds));
            }
            end
        } else {
            let end = scan_suffix(code, i, d2, diags);
            proof {
                let (e, ds) = suffix_scan(code@, i as int, d2 as int);
                assert(diags_view(diags@) =~= diags_view(old(diags)@) + (Seq::<
                    SpecDiag,
                >::empty() + ds));
            }
            end
        }
    } else {
        let d1 = dec_run(code, i + 1);
        let d2 = if peek_ch(code, d1) == '.' && is_digit(peek_ch(code, d1 + 1)) {
            dec_run(code, d1 + 1)
        } else {
            d1
        };
        let e0 = peek_ch(code, d2);
        if e0 == 'e' || e0 == 'E' {
            let ec = peek_ch(code, d2 + 1);
            if is_digit(ec) {
                let j = dec_run(code, d2 + 1);
                let end = scan_suffix(code, i, j, diags);
                proof {
                    let (e, ds) = suffix_scan(code@, i as int, j as int);
                    assert(diags_view(diags@) =~= diags_view(old(diags)@) + ds);
                }
                end
            } else if ec == '-' && is_digit(peek_ch(code, d2 + 2)) {
                let j = dec_run(code, d2 + 2);
                let end = scan_suffix(code, i, j, diags);
                proof {
                    let (e, ds) = suffix_scan(code@, i as int, j as int);
                    assert(diags_view(diags@) =~= diags_view(old(diags)@) + ds);
                }
                end
            } else {
                push_malformed(code, i, d2, diags);
                let end = scan_suffix(code, i, d2 + 1, diags);
                proof {
                    let (e, ds) = suffix_scan(code@, i as int, (d2 + 1) as int);
                    assert(diags_view(diags@) =~= diags_view(old(diags)@) + (seq![
                        scan_diag(code@, "Malformed number"@, i as int, d2 as int, None),
                    ] + ds));
                }
                end
            }
        } else {
            let end = scan_suffix(code, i, d2, diags);
            proof {
                let (e, ds) = suffix_scan(code@, i as int, d2 as int);
                assert(diags_view(diags@) =~= diags_view(old(diags)@) + ds);
            }
            end
        }
    }
}

/// The index of a string's closing delimiter, or the input length when the
/// string is unterminated.
fn find_str_end(code: &Vec<char>, start: usize, delim: char) -> (e: usize)
    requires
        start <= code@.len(),
        code@.len() < usize::MAX - 3,
    ensures
        e as int == str_end(code@, start as int, delim),
        start <= e <= code@.len(),
{
    let n = code.len();
    let mut j: usize = start;
    while j < n && code[j] != delim
        invariant
            start <= j <= n,
            n == code@.len(),
            n < usize::MAX - 3,
            str_end(code@, start as int, delim) == str_end(code@, j as int, delim),
        decreases n - j,
    {
        if code[j] == '\\' {
            if j + 2 <= n {
                j = j + 2;
            } else {
                j = n;
            }
        } else {
            j = j + 1;
        }
    }
    j
}

/// Builds the string of `code[a..b]` with raw `\r`, `\n` and `\t` removed.
fn strip_ctl_str(code: &Vec<char>, a: usize, b: usize) -> (r: String)
    requires
        a <= b <= code@.len(),
    ensures
        r@ == strip_ctl(code@.subrange(a as int, b as int)),
{
    let mut r = String::new();
    let mut k: usize = a;
    while k < b
        invariant
            a <= k <= b <= code@.len(),
            strip_ctl(code@.subrange(a as int, b as int)) == r@ + strip_ctl(
                code@.subrange(k as int, b as int),
            ),
        decreases b - k,
    {
        let c = code[k];
        proof {
            let w = code@.subrange(k as int, b as int);
            assert(w[0] == code@[k as int]);
            assert(w.skip(1) =~= code@.subrange(k + 1, b as int));
        }
        if !(c == '\r' || c == '\n' || c == '\t') {
            push_char(&mut r, c);
            proof {
                let w = code@.subrange(k as int, b as int);
                assert(r@ + strip_ctl(code@.subrange(k + 1, b as int)) =~= (r@.drop_last() + (seq![
                    c,
                ] + strip_ctl(code@.subrange(k + 1, b as int)))));
            }
        }
        k = k + 1;
    }
    proof {
        assert(strip_ctl(code@.subrange(b as int, b as int)) =~= Seq::<char>::empty());
        assert(r@ + Seq::<char>::empty() =~= r@);
    }
    r
}

/// Scans a quoted string whose opening delimiter stands at `i`.
fn scan_qstr(
    code: &Vec<char>,
    i: usize,
    delim: char,
    toks: &mut Vec<Token>,
    diags: &mut Vec<ClueError>,
) -> (next: usize)
    requires
        i < code@.len(),
        code@.len() < usize::MAX - 3,
    ensures
        ({
            let st = qstr_step(code@, i as int, delim, TokenType::EOF);
            next as int == st.next && i < next <= code@.len() && toks_view(final(toks)@)
                == toks_view(old(toks)@) + st.toks && diags_view(final(diags)@) == diags_view(
                old(diags)@,
            ) + st.diags
        }),
{
    let n = code.len();
    let e = find_str_end(code, i + 1, delim);
    if e == n {
        let p = pos_of(code, n);
        let d = ClueError::error(
            String::from_str("Unterminated string"),
            p.line,
            p.column,
            core::ops::Range { start: i, end: n },
            None,
        );
        proof {
            lemma_diags_view_push(diags@, d);
            assert(diags_view(diags@).push(d@) =~= diags_view(diags@) + seq![d@]);
            assert(toks_view(toks@) =~= toks_view(toks@) + Seq::<SpecTok>::empty());
        }
        diags.push(d);
        n
    } else {
        let lex = strip_ctl_str(code, i, e + 1);
        let ps = pos_of(code, i);
        let pe = pos_of(code, e + 1);
        let t = Token::new(
            TokenType::STRING,
            lex,
            core::ops::Range { start: ps, end: pe },
        );
        proof {
            lemma_toks_view_push(toks@, t);
            assert(toks_view(toks@).push(t@) =~= toks_view(toks@) + seq![t@]);
            assert(diags_view(diags@) =~= diags_view(diags@) + Seq::<SpecDiag>::empty());
        }
        toks.push(t);
        e + 1
    }
}

/// Whether the closing pattern of padding level `lvl` occurs in `code[a..b]`.
fn raw_has_close(code: &Vec<char>, a: usize, b: usize, lvl: usize) -> (r: bool)
    requires
        a <= b <= code@.len(),
        lvl <= code@.len() + 1,
        code@.len() < usize::MAX - 3,
    ensures
        r == contains_seq(code@.subrange(a as int, b as int), close_pat(lvl as nat)),
{
    let ghost w = code@.subrange(a as int, b as int);
    let ghost pat = close_pat(lvl as nat);
    proof {
        assert(pat.len() == lvl + 2);
        assert(pat[0] == ']');
        assert(pat[lvl + 1] == ']');
        assert forall|m: int| 1 <= m <= lvl as int implies pat[m] == '=' by {
            assert(pat[m] == Seq::new(lvl as nat, |k: int| '=')[m - 1]);
        }
    }
    if b - a < 2 || lvl > b - a - 2 {
        proof {
            assert forall|k: int|
                !(0 <= k && k + pat.len() <= w.len() && #[trigger] w.subrange(k, k + pat.len())
                    == pat) by {}
        }
        return false;
    }
    let kmax = b - lvl - 2;
    let mut k: usize = a;
    while k <= kmax
        invariant
            a <= k,
            kmax == b - lvl - 2,
            a + lvl + 2 <= b <= code@.len(),
            code@.len() < usize::MAX - 3,
            w == code@.subrange(a as int, b as int),
            pat == close_pat(lvl as nat),
            pat.len() == lvl + 2,
            pat[0] == ']',
            pat[lvl + 1] == ']',
            forall|m: int| 1 <= m <= lvl as int ==> pat[m] == '=',
            forall|k0: int|
                0 <= k0 < k - a ==> #[trigger] w.subrange(k0, k0 + pat.len()) != pat,
        decreases b - k,
    {
        let mut m: usize = 1;
        while m <= lvl && code[k + m] == '='
            invariant
                1 <= m <= lvl + 1,
                a <= k <= kmax,
                kmax == b - lvl - 2,
                a + lvl + 2 <= b <= code@.len(),
                forall|m0: int| 1 <= m0 < m as int ==> #[trigger] code@[k + m0] == '=',
            decreases lvl + 1 - m,
        {
            m = m + 1;
        }
        if code[k] == ']' && code[k + lvl + 1] == ']' && m > lvl {
            proof {
                assert forall|m0: int| 0 <= m0 < pat.len() implies w.subrange(
                    k - a,
                    k - a + pat.len(),
                )[m0] == pat[m0] by {
                    assert(w.subrange(k - a, k - a + pat.len())[m0] == code@[k + m0]);
                    if m0 == 0 {
                    } else if m0 == lvl + 1 {
                    } else {
                        assert(1 <= m0 <= lvl as int);
                        assert(code@[k + m0] == '=');
                    }
                }
                assert(w.subrange(k - a, k - a + pat.len()) =~= pat);
                assert(0 <= k - a && k - a + pat.len() <= w.len());
            }
            return true;
        }
        proof {
            let m0: int = if code@[k as int] != ']' {
                0
            } else if code@[k as int + lvl + 1] != ']' {
                lvl + 1
            } else {
                m as int
            };
            assert(code@[k + m0] != pat[m0]);
            assert(w.subrange(k - a, k - a + pat.len())[m0] == code@[k + m0]);
            assert(w.subrange(k - a, k - a + pat.len()) != pat);
        }
        k = k + 1;
    }
    proof {
        assert forall|k0: int|
            !(0 <= k0 && k0 + pat.len() <= w.len() && #[trigger] w.subrange(k0, k0 + pat.len())
                == pat) by {
            if 0 <= k0 && k0 + pat.len() <= w.len() {
                assert(k0 < k - a);
            }
        }
    }
    false
}

/// The least padding level whose closing pattern collides with nothing in the
/// raw content `code[a..b]`.
fn raw_level(code: &Vec<char>, a: usize, b: usize) -> (lvl: usize)
    requires
        a <= b <= code@.len(),
        code@.len() < usize::MAX - 3,
    ensures
        lvl as nat == raw_level_from(code@.subrange(a as int, b as int), 0),
        lvl <= b - a + 1,
{
    let ghost w = code@.subrange(a as int, b as int);
    let mut lvl: usize = 0;
    let mut must: bool = b > a && code[b - 1] == ']';
    proof {
        if w.len() > 0 {
            assert(w[w.len() - 1] == code@[b - 1]);
        }
    }
    while must || raw_has_close(code, a, b, lvl)
        invariant
            a <= b <= code@.len(),
            code@.len() < usize::MAX - 3,
            w == code@.subrange(a as int, b as int),
            lvl <= w.len() + 1,
            must ==> lvl == 0 && w.len() > 0 && w[w.len() - 1] == ']',
            lvl > 0 ==> !must,
            raw_level_from(w, 0) == raw_level_from(w, lvl as nat),
            must == (lvl == 0 && w.len() > 0 && w[w.len() - 1] == ']'),
        decreases w.len() + 1 - lvl,
    {
        proof {
            assert(raw_bad(w, lvl as nat));
            if lvl > w.len() {
                lemma_raw_bad_high(w, lvl as nat);
                assert(false);
            }
        }
        lvl = lvl + 1;
        must = false;
    }
    proof {
        assert(!raw_bad(w, lvl as nat));
        if lvl <= w.len() {
        }
        assert(raw_level_from(w, lvl as nat) == lvl as nat);
    }
    lvl
}

/// A collision with the closing pattern needs content at least as long as the
/// pattern, so high levels are always collision-free.
proof fn lemma_raw_bad_high(w: Seq<char>, n: nat)
    requires
        n > w.len(),
    ensures
        !raw_bad(w, n),
{
    assert(close_pat(n).len() == n + 2);
    assert forall|k: int|
        !(0 <= k && k + close_pat(n).len() <= w.len() && #[trigger] w.subrange(
            k,
            k + close_pat(n).len(),
        ) == close_pat(n)) by {}
}

/// Builds the string of `lvl` equals signs.
fn make_pad(lvl: usize) -> (r: String)
    ensures
        r@ == Seq::new(lvl as nat, |k: int| '='),
{
    let mut r = String::new();
    let mut k: usize = 0;
    while k < lvl
        invariant
            k <= lvl,
            r@ == Seq::new(k as nat, |m: int| '='),
        decreases lvl - k,
    {
        push_char(&mut r, '=');
        k = k + 1;
        proof {
            assert(Seq::new(k as nat, |m: int| '=') =~= Seq::new((k - 1) as nat, |m: int| '=').push(
                '=',
            ));
        }
    }
    r
}

/// Builds the string of `code[a..b]` with escaped backticks unescaped.
fn unescape_str(code: &Vec<char>, a: usize, b: usize) -> (r: String)
    requires
        a <= b <= code@.len(),
    ensures
        r@ == unescape_raw(code@.subrange(a as int, b as int)),
{
    let mut r = String::new();
    let mut k: usize = a;
    while k < b
        invariant
            a <= k <= b <= code@.len(),
            unescape_raw(code@.subrange(a as int, b as int)) == r@ + unescape_raw(
                code@.subrange(k as int, b as int),
            ),
        decreases b - k,
    {
        let ghost w = code@.subrange(k as int, b as int);
        proof {
            assert(w[0] == code@[k as int]);
            if w.len() >= 2 {
                assert(w[1] == code@[k + 1]);
            }
            assert(w.skip(1) =~= code@.subrange(k + 1, b as int));
            if w.len() >= 2 {
                assert(w.skip(2) =~= code@.subrange(k + 2, b as int));
            }
        }
        if code[k] == '\\' && k + 1 < b && code[k + 1] == '`' {
            push_char(&mut r, '`');
            k = k + 2;
            proof {
                assert(r@ + unescape_raw(code@.subrange(k as int, b as int)) =~= (r@.drop_last()
                    + (seq!['`'] + unescape_raw(code@.subrange(k as int, b as int)))));
            }
        } else {
            let c = code[k];
            push_char(&mut r, c);
            k = k + 1;
            proof {
                assert(r@ + unescape_raw(code@.subrange(k as int, b as int)) =~= (r@.drop_last()
                    + (seq![c] + unescape_raw(code@.subrange(k as int, b as int)))));
            }
        }
    }
    proof {
        assert(unescape_raw(code@.subrange(b as int, b as int)) =~= Seq::<char>::empty());
        assert(r@ + Seq::<char>::empty() =~= r@);
    }
    r
}

/// Scans a raw backtick string whose opening backtick stands at `i`, and
/// re-encodes it as a Lua long-bracket string.
fn scan_rawstr(code: &Vec<char>, i: usize, toks: &mut Vec<Token>, diags: &mut Vec<ClueError>) -> (
    next: usize)
    requires
        i < code@.len(),
        code@.len() < usize::MAX - 3,
    ensures
        ({
            let st = rawstr_step(code@, i as int, TokenType::EOF);
            next as int == st.next && i < next <= code@.len() && toks_view(final(toks)@)
                == toks_view(old(toks)@) + st.toks && diags_view(final(diags)@) == diags_view(
                old(diags)@,
            ) + st.diags
        }),
{
    let n = code.len();
    let e = find_str_end(code, i + 1, '`');
    if e == n {
        let p = pos_of(code, n);
        let d = ClueError::error(
            String::from_str("Unterminated string"),
            p.line,
            p.column,
            core::ops::Range { start: i, end: n },
            None,
        );
        proof {
            lemma_diags_view_push(diags@, d);
            assert(diags_view(diags@).push(d@) =~= diags_view(diags@) + seq![d@]);
            assert(toks_view(toks@) =~= toks_view(toks@) + Seq::<SpecTok>::empty());
        }
        diags.push(d);
        n
    } else {
        proof {
            lemma_str_end_in_range(code@, (i + 1) as int, '`');
        }
        let lvl = raw_level(code, i + 1, e);
        let pad = make_pad(lvl);
        let inner = unescape_str(code, i + 1, e);
        let mut lex = String::from_str("[");
        lex.append(pad.as_str());
        lex.append("[");
        lex.append(inner.as_str());
        lex.append("]");
        lex.append(pad.as_str());
        lex.append("]");
        let ps = pos_of(code, i);
        let pe = pos_of(code, e + 1);
        proof {
            reveal_strlit("[");
            reveal_strlit("]");
            assert("["@ =~= seq!['[']);
            assert("]"@ =~= seq![']']);
            assert(lex@ =~= long_bracket(code@.subrange(i + 1, e as int)));
        }
        let t = Token::new(
            TokenType::STRING,
            lex,
            core::ops::Range { start: ps, end: pe },
        );
        proof {
            lemma_toks_view_push(toks@, t);
            assert(toks_view(toks@).push(t@) =~= toks_view(toks@) + seq![t@]);
            assert(diags_view(diags@) =~= diags_view(diags@) + Seq::<SpecDiag>::empty());
        }
        toks.push(t);
        e + 1
    }
}

/// A terminated string's closing delimiter lies within the input.
proof fn lemma_str_end_in_range(s: Seq<char>, j: int, delim: char)
    requires
        0 <= j <= s.len(),
    ensures
        j <= str_end(s, j, delim) <= s.len(),
    decreases s.len() - j,
{
    if !(0 <= j < s.len()) {
    } else if s[j] == delim {
    } else if s[j] == '\\' {
        if j + 2 <= s.len() {
            lemma_str_end_in_range(s, j + 2, delim);
        }
    } else {
        lemma_str_end_in_range(s, j + 1, delim);
    }
}


/// The keyword table's executable lookup result.
enum KwRes {
    Lua(TokenType),
    Word(TokenType),
    Rsv(String),
    Future(String),
    Plain,
}

/// Looks a word up in the fixed keyword table.
fn kw_lookup(w: &String) -> (r: KwRes)
    ensures
        match r {
            KwRes::Lua(k) => kw_class(w@) == KwClass::Lua(k),
            KwRes::Word(k) => kw_class(w@) == KwClass::Word(k),
            KwRes::Rsv(h) => kw_class(w@) == KwClass::Rsv(h@),
            KwRes::Future(m) => kw_class(w@) == KwClass::Future(m@),
            KwRes::Plain => kw_class(w@) == KwClass::Plain,
        },
{
    if *w == String::from_str("and") {
        KwRes::Rsv(String::from_str("'and' operators in Clue are made with '&&'"))
    } else if *w == String::from_str("not") {
        KwRes::Rsv(String::from_str("'not' operators in Clue are made with '!'"))
    } else if *w == String::from_str("or") {
        KwRes::Rsv(String::from_str("'or' operators in Clue are made with '||'"))
    } else if *w == String::from_str("do") {
        KwRes::Rsv(String::from_str("'do ... end' blocks in Clue are made like this: '{ ... }'"))
    } else if *w == String::from_str("end") {
        KwRes::Rsv(String::from_str("code blocks in Clue are closed with '}'"))
    } else if *w == String::from_str("function") {
        KwRes::Rsv(String::from_str("functions in Clue are defined with the 'fn' keyword"))
    } else if *w == String::from_str("repeat") {
        KwRes::Rsv(
            String::from_str(
                "'repeat ... until x' loops in Clue are made like this: 'loop { ... } until x'",
            ),
        )
    } else if *w == String::from_str("then") {
        KwRes::Rsv(String::from_str("code blocks in Clue are opened with '{'"))
    } else if *w == String::from_str("if") {
        KwRes::Lua(TokenType::IF)
    } else if *w == String::from_str("elseif") {
        KwRes::Lua(TokenType::ELSEIF)
    } else if *w == String::from_str("else") {
        KwRes::Lua(TokenType::ELSE)
    } else if *w == String::from_str("for") {
        KwRes::Lua(TokenType::FOR)
    } else if *w == String::from_str("in") {
        KwRes::Lua(TokenType::IN)
    } else if *w == String::from_str("while") {
        KwRes::Lua(TokenType::WHILE)
    } else if *w == String::from_str("until") {
        KwRes::Lua(TokenType::UNTIL)
    } else if *w == String::from_str("local") {
        KwRes::Lua(TokenType::LOCAL)
    } else if *w == String::from_str("return") {
        KwRes::Lua(TokenType::RETURN)
    } else if *w == String::from_str("true") {
        KwRes::Lua(TokenType::TRUE)
    } else if *w == String::from_str("false") {
        KwRes::Lua(TokenType::FALSE)
    } else if *w == String::from_str("nil") {
        KwRes::Lua(TokenType::NIL)
    } else if *w == String::from_str("break") {
        KwRes::Lua(TokenType::BREAK)
    } else if *w == String::from_str("of") {
        KwRes::Word(TokenType::OF)
    } else if *w == String::from_str("with") {
        KwRes::Word(TokenType::WITH)
    } else if *w == String::from_str("meta") {
        KwRes::Word(TokenType::META)
    } else if *w == String::from_str("global") {
        KwRes::Word(TokenType::GLOBAL)
    } else if *w == String::from_str("fn") {
        KwRes::Word(TokenType::FN)
    } else if *w == String::from_str("method") {
        KwRes::Word(TokenType::METHOD)
    } else if *w == String::from_str("loop") {
        KwRes::Word(TokenType::LOOP)
    } else if *w == String::from_str("static") {
        KwRes::Word(TokenType::STATIC)
    } else if *w == String::from_str("enum") {
        KwRes::Word(TokenType::ENUM)
    } else if *w == String::from_str("continue") {
        KwRes::Word(TokenType::CONTINUE)
    } else if *w == String::from_str("try") {
        KwRes::Word(TokenType::TRY)
    } else if *w == String::from_str("catch") {
        KwRes::Word(TokenType::CATCH)
    } else if *w == String::from_str("match") {
        KwRes::Word(TokenType::MATCH)
    } else if *w == String::from_str("default") {
        KwRes::Word(TokenType::DEFAULT)
    } else if *w == String::from_str("constructor") {
        KwRes::Future(
            String::from_str("'constructor' is reserved for Clue 4.0 and cannnot be used."),
        )
    } else if *w == String::from_str("struct") {
        KwRes::Future(String::from_str("'struct' is reserved for Clue 4.0 and cannot be used"))
    } else if *w == String::from_str("extern") {
        KwRes::Future(String::from_str("'extern' is reserved for Clue 4.0 and cannot be used"))
    } else {
        KwRes::Plain
    }
}

/// Whether the given kind is a member-access operator.
fn member_access(k: TokenType) -> (r: bool)
    ensures
        r == is_member_access(k),
{
    k == TokenType::DOT || k == TokenType::SAFE_DOT || k == TokenType::DOUBLE_COLON || k
        == TokenType::SAFE_DOUBLE_COLON
}

/// Scans an identifier or keyword starting at `i`; returns its end and the
/// kind of the emitted token.
fn scan_ident(
    code: &Vec<char>,
    i: usize,
    last: TokenType,
    toks: &mut Vec<Token>,
    diags: &mut Vec<ClueError>,
) -> (r: (usize, TokenType))
    requires
        i < code@.len(),
        code@.len() < usize::MAX - 3,
    ensures
        ({
            let st = ident_step(code@, i as int, last);
            r.0 as int == st.next && i < r.0 <= code@.len() && r.1 == st.last && toks_view(
                final(toks)@,
            ) == toks_view(old(toks)@) + st.toks && diags_view(final(diags)@) == diags_view(
                old(diags)@,
            ) + st.diags
        }),
{
    let j = ident_run(code, i + 1);
    let w = substr(code, i, j);
    let kind: TokenType;
    match kw_lookup(&w) {
        KwRes::Lua(k) => {
            kind = k;
            proof {
                assert(diags_view(diags@) =~= diags_view(diags@) + Seq::<SpecDiag>::empty());
            }
        },
        KwRes::Rsv(h) => {
            kind = TokenType::IDENTIFIER;
            let mut m = String::from_str("'");
            m.append(w.as_str());
            m.append("' is a reserved keyword in Lua and it cannot be used as a variable");
            let p = pos_of(code, j);
            let d = ClueError::error(m, p.line, p.column, core::ops::Range { start: i, end: j }, Some(h));
            proof {
                lemma_diags_view_push(diags@, d);
                assert(diags_view(diags@).push(d@) =~= diags_view(diags@) + seq![d@]);
            }
            diags.push(d);
        },
        KwRes::Word(k) => {
            if member_access(last) {
                kind = TokenType::IDENTIFIER;
            } else {
                kind = k;
            }
            proof {
                assert(diags_view(diags@) =~= diags_view(diags@) + Seq::<SpecDiag>::empty());
            }
        },
        KwRes::Future(msg) => {
            kind = TokenType::IDENTIFIER;
            if member_access(last) {
                proof {
                    assert(diags_view(diags@) =~= diags_view(diags@) + Seq::<SpecDiag>::empty());
                }
            } else {
                let p = pos_of(code, j);
                let d = ClueError::error(msg, p.line, p.column, core::ops::Range { start: i, end: j }, None);
                proof {
                    lemma_diags_view_push(diags@, d);
                    assert(diags_view(diags@).push(d@) =~= diags_view(diags@) + seq![d@]);
                }
                diags.push(d);
            }
        },
        KwRes::Plain => {
            kind = TokenType::IDENTIFIER;
            proof {
                assert(diags_view(diags@) =~= diags_view(diags@) + Seq::<SpecDiag>::empty());
            }
        },
    }
    let ps = pos_of(code, i);
    let pe = pos_of(code, j);
    let t = Token::new(kind, w, core::ops::Range { start: ps, end: pe });
    proof {
        lemma_toks_view_push(toks@, t);
        assert(toks_view(toks@).push(t@) =~= toks_view(toks@) + seq![t@]);
    }
    toks.push(t);
    (j, kind)
}

/// Unfolds the scan model by one step.
proof fn lemma_scan_unfold(s: Seq<char>, i: int, last: TokenType)
    requires
        0 <= i < s.len(),
        s[i] != '\0',
        i < scan_step(s, i, last).next <= s.len(),
    ensures
        scan_at(s, i, last).tokens == scan_step(s, i, last).toks + scan_at(
            s,
            scan_step(s, i, last).next,
            scan_step(s, i, last).last,
        ).tokens,
        scan_at(s, i, last).diags == scan_step(s, i, last).diags + scan_at(
            s,
            scan_step(s, i, last).next,
            scan_step(s, i, last).last,
        ).diags,
{
}

/// Scans the whole source into its token sequence and diagnostics.
///
/// The result is exactly the token sequence and diagnostic sequence of the
/// scanner model: tokens end with the end-of-input marker, and scanning never
/// stops at the first problem.
#[verifier::rlimit(100)]
pub fn scan_tokens(code: &Vec<char>) -> (r: (Vec<Token>, Vec<ClueError>))
    requires
        code@.len() < usize::MAX - 3,
    ensures
        toks_view(r.0@) == scan_spec(code@).tokens,
        diags_view(r.1@) == scan_spec(code@).diags,
{
    let n = code.len();
    let mut toks: Vec<Token> = Vec::new();
    let mut diags: Vec<ClueError> = Vec::new();
    let mut cur: usize = 0;
    let mut last = TokenType::EOF;
    proof {
        assert(scan_spec(code@).tokens =~= toks_view(toks@) + scan_at(
            code@,
            0,
            TokenType::EOF,
        ).tokens);
        assert(scan_spec(code@).diags =~= diags_view(diags@) + scan_at(
            code@,
            0,
            TokenType::EOF,
        ).diags);
    }
    while cur < n && code[cur] != '\0'
        invariant
            cur <= n,
            n == code@.len(),
            n < usize::MAX - 3,
            scan_spec(code@).tokens == toks_view(toks@) + scan_at(code@, cur as int, last).tokens,
            scan_spec(code@).diags == diags_view(diags@) + scan_at(code@, cur as int, last).diags,
        decreases n - cur,
    {
        let ghost cur0 = cur as int;
        let ghost last0 = last;
        let ghost st = scan_step(code@, cur0, last0);
        let ghost done_t = toks_view(toks@);
        let ghost done_d = diags_view(diags@);
        let c = code[cur];
        if is_space(c) {
            cur = cur + 1;
        } else if is_digit(c) {
            let end = scan_number(code, cur, &mut diags);
            let lex = substr(code, cur, end);
            let ps = pos_of(code, cur);
            let pe = pos_of(code, end);
            let t = Token::new(TokenType::NUMBER, lex, core::ops::Range { start: ps, end: pe });
            proof {
                assert(t@ == slice_tok(code@, TokenType::NUMBER, cur0, end as int));
                lemma_toks_view_push(toks@, t);
                assert(toks_view(toks@).push(t@) =~= toks_view(toks@) + seq![t@]);
            }
            toks.push(t);
            last = TokenType::NUMBER;
            cur = end;
        } else if is_ident_start(c) {
            let (end, k) = scan_ident(code, cur, last, &mut toks, &mut diags);
            last = k;
            cur = end;
        } else if c == '"' || c == '\'' {
            cur = scan_qstr(code, cur, c, &mut toks, &mut diags);
        } else if c == '`' {
            cur = scan_rawstr(code, cur, &mut toks, &mut diags);
        } else {
            match scan_symbol(code, cur) {
                Some((k, end)) => {
                    let lex = substr(code, cur, end);
                    let ps = pos_of(code, cur);
                    let pe = pos_of(code, end);
                    let t = Token::new(k, lex, core::ops::Range { start: ps, end: pe });
                    proof {
                        assert(t@ == slice_tok(code@, k, cur0, end as int));
                        lemma_toks_view_push(toks@, t);
                        assert(toks_view(toks@).push(t@) =~= toks_view(toks@) + seq![t@]);
                    }
                    toks.push(t);
                    last = k;
                    cur = end;
                },
                None => {
                    let mut m = String::from_str("Unexpected character '");
                    push_char(&mut m, c);
                    m.append("'");
                    let p = pos_of(code, cur + 1);
                    let d = ClueError::error(m, p.line, p.column, core::ops::Range { start: cur, end: cur + 1 }, None);
                    proof {
                        assert(d@.message =~= "Unexpected character '"@ + seq![c] + "'"@);
                        lemma_diags_view_push(diags@, d);
                        assert(diags_view(diags@).push(d@) =~= diags_view(diags@) + seq![d@]);
                    }
                    diags.push(d);
                    cur = cur + 1;
                },
            }
        }
        proof {
            assert(cur as int == st.next && last == st.last);
            assert(toks_view(toks@) =~= done_t + st.toks);
            assert(diags_view(diags@) =~= done_d + st.diags);
            lemma_scan_unfold(code@, cur0, last0);
            assert(done_t + (st.toks + scan_at(code@, cur as int, last).tokens) =~= (done_t
                + st.toks) + scan_at(code@, cur as int, last).tokens);
            assert(done_d + (st.diags + scan_at(code@, cur as int, last).diags) =~= (done_d
                + st.diags) + scan_at(code@, cur as int, last).diags);
        }
    }
    let p = pos_of(code, cur);
    let t = Token::new(TokenType::EOF, String::from_str("<end>"), core::ops::Range {
        start: p,
        end: p,
    });
    proof {
        assert(t@ == eof_tok(code@, cur as int));
        assert(scan_at(code@, cur as int, last).tokens =~= seq![eof_tok(code@, cur as int)]);
        assert(scan_at(code@, cur as int, last).diags =~= Seq::<SpecDiag>::empty());
        lemma_toks_view_push(toks@, t);
        assert(toks_view(toks@).push(t@) =~= toks_view(toks@) + seq![t@]);
        assert(diags_view(diags@) + Seq::<SpecDiag>::empty() =~= diags_view(diags@));
    }
    toks.push(t);
    (toks, diags)
}


/// Scans the code and returns its tokens, or the failure sentinel when any
/// lexical error was found.
///
/// Every diagnostic is rendered in context and handed to the diagnostic sink
/// first, whatever the outcome: scanning does not stop at the first error.
pub fn scan_code<R: CodeReader>(code: &Vec<char>, reader: &R) -> (r: Result<Vec<Token>, String>)
    requires
        code@.len() < usize::MAX - 3,
    ensures
        ({
            let out = scan_spec(code@);
            match r {
                Ok(toks) => out.diags.len() == 0 && toks_view(toks@) == out.tokens,
                Err(m) => out.diags.len() > 0 && m@
                    == "Cannot continue until the above errors are fixed"@,
            }
        }),
{
    let (toks, diags) = scan_tokens(code);
    if diags.len() == 0 {
        proof {
            assert(diags_view(diags@).len() == 0);
        }
        return Ok(toks);
    }
    let filename = reader.get_filename();
    let code_text: Option<Vec<char>> = match reader.get_code() {
        Ok(text) => Some(str_to_chars(text.as_str())),
        Err(_) => None,
    };
    let mut rep = Reporter { filename, code: code_text, total: 0, errors: 0 };
    let mut i: usize = 0;
    while i < diags.len()
        decreases diags@.len() - i,
    {
        rep.send(diags[i].clone());
        i = i + 1;
    }
    proof {
        assert(diags_view(diags@).len() > 0);
    }
    Err(String::from_str("Cannot continue until the above errors are fixed"))
}

} // verus!
