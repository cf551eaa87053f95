//! The mathematical model of the scanner: a recursive definition of the token
//! sequence and the diagnostics that scanning a character sequence yields.
//!
//! The executable scanner in [`crate::scanner`] is proved to return exactly
//! what this model describes.

use vstd::prelude::*;

use crate::error::{ClueErrorKind, SpecDiag};
use crate::text::{is_space_char, is_digit_char, is_hex_char, is_bin_char, is_ident_start_char,
    is_ident_char};
use crate::token::{TokenType, SpecTok, line_at, col_at, pos_at};

verus! {

/// The character at index `j`, or the null sentinel when `j` is out of range.
pub open spec fn peek_c(s: Seq<char>, j: int) -> char {
    if 0 <= j < s.len() {
        s[j]
    } else {
        '\0'
    }
}

/// The first index at or after `j` whose character is not a decimal digit.
pub open spec fn dec_end(s: Seq<char>, j: int) -> int
    decreases s.len() - j,
{
    if 0 <= j < s.len() && is_digit_char(s[j]) {
        dec_end(s, j + 1)
    } else {
        j
    }
}

/// The first index at or after `j` whose character is not a hexadecimal digit.
pub open spec fn hex_end(s: Seq<char>, j: int) -> int
    decreases s.len() - j,
{
    if 0 <= j < s.len() && is_hex_char(s[j]) {
        hex_end(s, j + 1)
    } else {
        j
    }
}

/// The first index at or after `j` whose character is not a binary digit.
pub open spec fn bin_end(s: Seq<char>, j: int) -> int
    decreases s.len() - j,
{
    if 0 <= j < s.len() && is_bin_char(s[j]) {
        bin_end(s, j + 1)
    } else {
        j
    }
}

/// The first index at or after `j` whose character cannot continue an identifier.
pub open spec fn ident_end(s: Seq<char>, j: int) -> int
    decreases s.len() - j,
{
    if 0 <= j < s.len() && is_ident_char(s[j]) {
        ident_end(s, j + 1)
    } else {
        j
    }
}

/// One scanned step: the tokens and diagnostics it emits, the index where
/// scanning continues, and the updated "last emitted kind".
pub ghost struct Step {
    pub toks: Seq<SpecTok>,
    pub diags: Seq<SpecDiag>,
    pub next: int,
    pub last: TokenType,
}

/// The result of a whole scan: the token sequence (ending in the end-of-input
/// marker) and the diagnostics raised along the way.
pub ghost struct ScanS {
    pub tokens: Seq<SpecTok>,
    pub diags: Seq<SpecDiag>,
}

/// An error diagnostic as the scanner raises it: the position is the current
/// scan position, the span runs from the token start to that position.
pub open spec fn scan_diag(s: Seq<char>, msg: Seq<char>, start: int, cur: int, help: Option<
    Seq<char>,
>) -> SpecDiag {
    SpecDiag {
        kind: ClueErrorKind::Error,
        message: msg,
        line: line_at(s, cur),
        column: col_at(s, cur),
        start,
        end: cur,
        help,
    }
}

/// A token covering `s[start..end)` whose lexeme is exactly that slice.
pub open spec fn slice_tok(s: Seq<char>, kind: TokenType, start: int, end: int) -> SpecTok {
    SpecTok { kind, lexeme: s.subrange(start, end), start: pos_at(s, start), end: pos_at(s, end) }
}

/// Longest-match symbol resolution: the token kind starting at `i` and the
/// index just past it, or `None` when `s[i]` starts no symbol.
pub open spec fn sym_res(s: Seq<char>, i: int) -> Option<(TokenType, int)> {
    let c0 = peek_c(s, i);
    let c1 = peek_c(s, i + 1);
    let c2 = peek_c(s, i + 2);
    match c0 {
        '(' => Some((TokenType::ROUND_BRACKET_OPEN, i + 1)),
        ')' => Some((TokenType::ROUND_BRACKET_CLOSED, i + 1)),
        '[' => Some((TokenType::SQUARE_BRACKET_OPEN, i + 1)),
        ']' => Some((TokenType::SQUARE_BRACKET_CLOSED, i + 1)),
        '{' => Some((TokenType::CURLY_BRACKET_OPEN, i + 1)),
        '}' => Some((TokenType::CURLY_BRACKET_CLOSED, i + 1)),
        ',' => Some((TokenType::COMMA, i + 1)),
        ';' => Some((TokenType::SEMICOLON, i + 1)),
        '#' => Some((TokenType::HASHTAG, i + 1)),
        '~' => Some((TokenType::BIT_NOT, i + 1)),
        '.' => if c1 == '.' {
            if c2 == '.' {
                Some((TokenType::THREEDOTS, i + 3))
            } else if c2 == '=' {
                Some((TokenType::CONCATENATE, i + 3))
            } else {
                Some((TokenType::TWODOTS, i + 2))
            }
        } else {
            Some((TokenType::DOT, i + 1))
        },
        '+' => if c1 == '=' {
            Some((TokenType::INCREASE, i + 2))
        } else {
            Some((TokenType::PLUS, i + 1))
        },
        '-' => if c1 == '=' {
            Some((TokenType::DECREASE, i + 2))
        } else {
            Some((TokenType::MINUS, i + 1))
        },
        '*' => if c1 == '=' {
            Some((TokenType::MULTIPLY, i + 2))
        } else {
            Some((TokenType::STAR, i + 1))
        },
        '^' => if c1 == '=' {
            Some((TokenType::EXPONENTIATE, i + 2))
        } else if c1 == '^' {
            Some((TokenType::BIT_XOR, i + 2))
        } else {
            Some((TokenType::CARET, i + 1))
        },
        '/' => if c1 == '=' {
            Some((TokenType::DIVIDE, i + 2))
        } else if c1 == '_' {
            Some((TokenType::FLOOR_DIVISION, i + 2))
        } else {
            Some((TokenType::SLASH, i + 1))
        },
        '%' => if c1 == '=' {
            Some((TokenType::MODULATE, i + 2))
        } else {
            Some((TokenType::PERCENTUAL, i + 1))
        },
        '!' => if c1 == '=' {
            Some((TokenType::NOT_EQUAL, i + 2))
        } else {
            Some((TokenType::NOT, i + 1))
        },
        '=' => if c1 == '=' {
            Some((TokenType::EQUAL, i + 2))
        } else if c1 == '>' {
            Some((TokenType::ARROW, i + 2))
        } else {
            Some((TokenType::DEFINE, i + 1))
        },
        '<' => if c1 == '=' {
            Some((TokenType::SMALLER_EQUAL, i + 2))
        } else if c1 == '<' {
            Some((TokenType::LEFT_SHIFT, i + 2))
        } else {
            Some((TokenType::SMALLER, i + 1))
        },
        '>' => if c1 == '=' {
            Some((TokenType::BIGGER_EQUAL, i + 2))
        } else if c1 == '>' {
            Some((TokenType::RIGHT_SHIFT, i + 2))
        } else {
            Some((TokenType::BIGGER, i + 1))
        },
        '?' => match c1 {
            '.' => Some((TokenType::SAFE_DOT, i + 2)),
            ':' => if c2 == ':' {
                Some((TokenType::SAFE_DOUBLE_COLON, i + 3))
            } else {
                Some((TokenType::QUESTION_MARK, i + 1))
            },
            '[' => Some((TokenType::SAFE_SQUARE_BRACKET, i + 2)),
            '?' => if c2 == '=' {
                Some((TokenType::DEFINE_COALESCE, i + 3))
            } else {
                Some((TokenType::COALESCE, i + 2))
            },
            '(' => Some((TokenType::SAFE_CALL, i + 2)),
            _ => Some((TokenType::QUESTION_MARK, i + 1)),
        },
        '&' => if c1 == '&' {
            if c2 == '=' {
                Some((TokenType::DEFINE_AND, i + 3))
            } else {
                Some((TokenType::AND, i + 2))
            }
        } else {
            Some((TokenType::BIT_AND, i + 1))
        },
        ':' => if c1 == ':' {
            Some((TokenType::DOUBLE_COLON, i + 2))
        } else {
            Some((TokenType::COLON, i + 1))
        },
        '|' => if c1 == '|' {
            if c2 == '=' {
                Some((TokenType::DEFINE_OR, i + 3))
            } else {
                Some((TokenType::OR, i + 2))
            }
        } else {
            Some((TokenType::BIT_OR, i + 1))
        },
        _ => None,
    }
}

/// After the digits of a number: the index past an optional `LL` / `ULL`
/// integer suffix, with a malformed-number diagnostic when `UL` lacks its `L`.
pub open spec fn suffix_scan(s: Seq<char>, start: int, j: int) -> (int, Seq<SpecDiag>) {
    if peek_c(s, j) == 'L' && peek_c(s, j + 1) == 'L' {
        (j + 2, seq![])
    } else if peek_c(s, j) == 'U' && peek_c(s, j + 1) == 'L' {
        if peek_c(s, j + 2) == 'L' {
            (j + 3, seq![])
        } else {
            (j, seq![scan_diag(s, "Malformed number"@, start, j, None)])
        }
    } else {
        (j, seq![])
    }
}

/// The scan of a decimal number whose first digit stands at `i`: digits, an
/// optional fraction, an optional exponent (malformed when the marker is not
/// followed by digits or a signed digit group), then the integer suffix.
pub open spec fn dec_num_scan(s: Seq<char>, i: int) -> (int, Seq<SpecDiag>) {
    let d1 = dec_end(s, i + 1);
    let d2 = if peek_c(s, d1) == '.' && is_digit_char(peek_c(s, d1 + 1)) {
        dec_end(s, d1 + 1)
    } else {
        d1
    };
    let e = peek_c(s, d2);
    if e == 'e' || e == 'E' {
        let c1 = peek_c(s, d2 + 1);
        if is_digit_char(c1) {
            let (end, ds) = suffix_scan(s, i, dec_end(s, d2 + 1));
            (end, ds)
        } else if c1 == '-' && is_digit_char(peek_c(s, d2 + 2)) {
            let (end, ds) = suffix_scan(s, i, dec_end(s, d2 + 2));
            (end, ds)
        } else {
            let (end, ds) = suffix_scan(s, i, d2 + 1);
            (end, seq![scan_diag(s, "Malformed number"@, i, d2, None)] + ds)
        }
    } else {
        let (end, ds) = suffix_scan(s, i, d2);
        (end, ds)
    }
}

/// The scan of a hexadecimal number: digits after the `0x` prefix, an optional
/// hex fraction, then the integer suffix; no digits at all is malformed.
pub open spec fn hex_num_scan(s: Seq<char>, i: int) -> (int, Seq<SpecDiag>) {
    let d1 = hex_end(s, i + 2);
    let d2 = if peek_c(s, d1) == '.' && is_hex_char(peek_c(s, d1 + 1)) {
        hex_end(s, d1 + 1)
    } else {
        d1
    };
    let mal = if d2 == i + 2 {
        seq![scan_diag(s, "Malformed number"@, i, i + 2, None)]
    } else {
        seq![]
    };
    let (end, ds) = suffix_scan(s, i, d2);
    (end, mal + ds)
}

/// The scan of a binary number: digits after the `0b` prefix, an optional
/// binary fraction, then the integer suffix; no digits at all is malformed.
pub open spec fn bin_num_scan(s: Seq<char>, i: int) -> (int, Seq<SpecDiag>) {
    let d1 = bin_end(s, i + 2);
    let d2 = if peek_c(s, d1) == '.' && is_bin_char(peek_c(s, d1 + 1)) {
        bin_end(s, d1 + 1)
    } else {
        d1
    };
    let mal = if d2 == i + 2 {
        seq![scan_diag(s, "Malformed number"@, i, i + 2, None)]
    } else {
        seq![]
    };
    let (end, ds) = suffix_scan(s, i, d2);
    (end, mal + ds)
}

/// The scan of a numeric literal whose first digit stands at `i`: its end
/// index and the diagnostics it raises.
pub open spec fn num_scan(s: Seq<char>, i: int) -> (int, Seq<SpecDiag>) {
    if peek_c(s, i) == '0' && (peek_c(s, i + 1) == 'x' || peek_c(s, i + 1) == 'X') {
        hex_num_scan(s, i)
    } else if peek_c(s, i) == '0' && (peek_c(s, i + 1) == 'b' || peek_c(s, i + 1) == 'B') {
        bin_num_scan(s, i)
    } else {
        dec_num_scan(s, i)
    }
}

/// The step scanning a numeric literal whose first digit stands at `i`.
pub open spec fn num_step(s: Seq<char>, i: int, last: TokenType) -> Step {
    let (end, diags) = num_scan(s, i);
    Step {
        toks: seq![slice_tok(s, TokenType::NUMBER, i, end)],
        diags,
        next: end,
        last: TokenType::NUMBER,
    }
}

/// The classification of an identifier's text in the keyword table.
pub ghost enum KwClass {
    /// A keyword shared with the target language.
    Lua(TokenType),
    /// A keyword of this language only.
    Word(TokenType),
    /// A name reserved by the target language: an error, kept as identifier.
    Rsv(Seq<char>),
    /// A name reserved for a future version: an error, kept as identifier.
    Future(Seq<char>),
    /// Not a keyword.
    Plain,
}

/// The fixed keyword table.
pub open spec fn kw_class(w: Seq<char>) -> KwClass {
    if w == "and"@ {
        KwClass::Rsv("'and' operators in Clue are made with '&&'"@)
    } else if w == "not"@ {
        KwClass::Rsv("'not' operators in Clue are made with '!'"@)
    } else if w == "or"@ {
        KwClass::Rsv("'or' operators in Clue are made with '||'"@)
    } else if w == "do"@ {
        KwClass::Rsv("'do ... end' blocks in Clue are made like this: '{ ... }'"@)
    } else if w == "end"@ {
        KwClass::Rsv("code blocks in Clue are closed with '}'"@)
    } else if w == "function"@ {
        KwClass::Rsv("functions in Clue are defined with the 'fn' keyword"@)
    } else if w == "repeat"@ {
        KwClass::Rsv("'repeat ... until x' loops in Clue are made like this: 'loop { ... } until x'"@)
    } else if w == "then"@ {
        KwClass::Rsv("code blocks in Clue are opened with '{'"@)
    } else if w == "if"@ {
        KwClass::Lua(TokenType::IF)
    } else if w == "elseif"@ {
        KwClass::Lua(TokenType::ELSEIF)
    } else if w == "else"@ {
        KwClass::Lua(TokenType::ELSE)
    } else if w == "for"@ {
        KwClass::Lua(TokenType::FOR)
    } else if w == "in"@ {
        KwClass::Lua(TokenType::IN)
    } else if w == "while"@ {
        KwClass::Lua(TokenType::WHILE)
    } else if w == "until"@ {
        KwClass::Lua(TokenType::UNTIL)
    } else if w == "local"@ {
        KwClass::Lua(TokenType::LOCAL)
    } else if w == "return"@ {
        KwClass::Lua(TokenType::RETURN)
    } else if w == "true"@ {
        KwClass::Lua(TokenType::TRUE)
    } else if w == "false"@ {
        KwClass::Lua(TokenType::FALSE)
    } else if w == "nil"@ {
        KwClass::Lua(TokenType::NIL)
    } else if w == "break"@ {
        KwClass::Lua(TokenType::BREAK)
    } else if w == "of"@ {
        KwClass::Word(TokenType::OF)
    } else if w == "with"@ {
        KwClass::Word(TokenType::WITH)
    } else if w == "meta"@ {
        KwClass::Word(TokenType::META)
    } else if w == "global"@ {
        KwClass::Word(TokenType::GLOBAL)
    } else if w == "fn"@ {
        KwClass::Word(TokenType::FN)
    } else if w == "method"@ {
        KwClass::Word(TokenType::METHOD)
    } else if w == "loop"@ {
        KwClass::Word(TokenType::LOOP)
    } else if w == "static"@ {
        KwClass::Word(TokenType::STATIC)
    } else if w == "enum"@ {
        KwClass::Word(TokenType::ENUM)
    } else if w == "continue"@ {
        KwClass::Word(TokenType::CONTINUE)
    } else if w == "try"@ {
        KwClass::Word(TokenType::TRY)
    } else if w == "catch"@ {
        KwClass::Word(TokenType::CATCH)
    } else if w == "match"@ {
        KwClass::Word(TokenType::MATCH)
    } else if w == "default"@ {
        KwClass::Word(TokenType::DEFAULT)
    } else if w == "constructor"@ {
        KwClass::Future("'constructor' is reserved for Clue 4.0 and cannnot be used."@)
    } else if w == "struct"@ {
        KwClass::Future("'struct' is reserved for Clue 4.0 and cannot be used"@)
    } else if w == "extern"@ {
        KwClass::Future("'extern' is reserved for Clue 4.0 and cannot be used"@)
    } else {
        KwClass::Plain
    }
}

/// Whether the given kind is a member-access operator; after one, a
/// keyword-shaped name of this language may be used as a member name.
pub open spec fn is_member_access(k: TokenType) -> bool {
    k == TokenType::DOT || k == TokenType::SAFE_DOT || k == TokenType::DOUBLE_COLON || k
        == TokenType::SAFE_DOUBLE_COLON
}

/// The message raised for a name the target language reserves.
pub open spec fn reserved_msg(w: Seq<char>) -> Seq<char> {
    "'"@ + w + "' is a reserved keyword in Lua and it cannot be used as a variable"@
}

/// The step scanning an identifier or keyword starting at `i`.
pub open spec fn ident_step(s: Seq<char>, i: int, last: TokenType) -> Step {
    let j = ident_end(s, i + 1);
    let w = s.subrange(i, j);
    let (kind, diags): (TokenType, Seq<SpecDiag>) = match kw_class(w) {
        KwClass::Lua(k) => (k, seq![]),
        KwClass::Rsv(h) => (
            TokenType::IDENTIFIER,
            seq![scan_diag(s, reserved_msg(w), i, j, Some(h))],
        ),
        KwClass::Word(k) => if is_member_access(last) {
            (TokenType::IDENTIFIER, seq![])
        } else {
            (k, seq![])
        },
        KwClass::Future(m) => if is_member_access(last) {
            (TokenType::IDENTIFIER, seq![])
        } else {
            (TokenType::IDENTIFIER, seq![scan_diag(s, m, i, j, None)])
        },
        KwClass::Plain => (TokenType::IDENTIFIER, seq![]),
    };
    Step { toks: seq![slice_tok(s, kind, i, j)], diags, next: j, last: kind }
}

/// The index of the closing delimiter of a string whose content starts at `j`,
/// or the input length when the string is unterminated; a backslash escapes
/// the character after it.
pub open spec fn str_end(s: Seq<char>, j: int, delim: char) -> int
    decreases s.len() - j,
{
    if !(0 <= j < s.len()) {
        s.len() as int
    } else if s[j] == delim {
        j
    } else if s[j] == '\\' {
        if j + 2 <= s.len() {
            str_end(s, j + 2, delim)
        } else {
            s.len() as int
        }
    } else {
        str_end(s, j + 1, delim)
    }
}

/// The characters of a quoted-string lexeme with raw carriage returns, line
/// feeds and tabs removed.
pub open spec fn strip_ctl(w: Seq<char>) -> Seq<char>
    decreases w.len(),
{
    if w.len() == 0 {
        Seq::empty()
    } else if w[0] == '\r' || w[0] == '\n' || w[0] == '\t' {
        strip_ctl(w.skip(1))
    } else {
        seq![w[0]] + strip_ctl(w.skip(1))
    }
}

/// The step scanning a quoted string whose opening delimiter stands at `i`.
pub open spec fn qstr_step(s: Seq<char>, i: int, delim: char, last: TokenType) -> Step {
    let e = str_end(s, i + 1, delim);
    if e == s.len() {
        Step {
            toks: seq![],
            diags: seq![scan_diag(s, "Unterminated string"@, i, s.len() as int, None)],
            next: s.len() as int,
            last,
        }
    } else {
        let lex = strip_ctl(s.subrange(i, e + 1));
        Step {
            toks: seq![
                SpecTok {
                    kind: TokenType::STRING,
                    lexeme: lex,
                    start: pos_at(s, i),
                    end: pos_at(s, e + 1),
                },
            ],
            diags: seq![],
            next: e + 1,
            last,
        }
    }
}

/// The closing delimiter of a long-bracket string at padding level `n`.
pub open spec fn close_pat(n: nat) -> Seq<char> {
    seq![']'] + Seq::new(n, |k: int| '=') + seq![']']
}

/// Whether `pat` occurs as a contiguous subsequence of `w`.
pub open spec fn contains_seq(w: Seq<char>, pat: Seq<char>) -> bool {
    exists|k: int|
        0 <= k && k + pat.len() <= w.len() && #[trigger] w.subrange(k, k + pat.len()) == pat
}

/// Whether padding level `n` collides with the raw content `w`.
pub open spec fn raw_bad(w: Seq<char>, n: nat) -> bool {
    (n == 0 && w.len() > 0 && w[w.len() - 1] == ']') || contains_seq(w, close_pat(n))
}

/// The least collision-free padding level at or above `n`.
pub open spec fn raw_level_from(w: Seq<char>, n: nat) -> nat
    decreases w.len() + 1 - n,
{
    if n > w.len() {
        n
    } else if raw_bad(w, n) {
        raw_level_from(w, n + 1)
    } else {
        n
    }
}

/// The raw content with every backslash-escaped backtick unescaped.
pub open spec fn unescape_raw(w: Seq<char>) -> Seq<char>
    decreases w.len(),
{
    if w.len() == 0 {
        Seq::empty()
    } else if w.len() >= 2 && w[0] == '\\' && w[1] == '`' {
        seq!['`'] + unescape_raw(w.skip(2))
    } else {
        seq![w[0]] + unescape_raw(w.skip(1))
    }
}

/// The Lua long-bracket encoding of raw content `w`.
pub open spec fn long_bracket(w: Seq<char>) -> Seq<char> {
    let pad = Seq::new(raw_level_from(w, 0), |k: int| '=');
    seq!['['] + pad + seq!['['] + unescape_raw(w) + seq![']'] + pad + seq![']']
}

/// The step scanning a raw backtick string whose opening backtick stands at `i`.
pub open spec fn rawstr_step(s: Seq<char>, i: int, last: TokenType) -> Step {
    let e = str_end(s, i + 1, '`');
    if e == s.len() {
        Step {
            toks: seq![],
            diags: seq![scan_diag(s, "Unterminated string"@, i, s.len() as int, None)],
            next: s.len() as int,
            last,
        }
    } else {
        let lex = long_bracket(s.subrange(i + 1, e));
        Step {
            toks: seq![
                SpecTok {
                    kind: TokenType::STRING,
                    lexeme: lex,
                    start: pos_at(s, i),
                    end: pos_at(s, e + 1),
                },
            ],
            diags: seq![],
            next: e + 1,
            last,
        }
    }
}

/// One step of the main scan loop at index `i`.
pub open spec fn scan_step(s: Seq<char>, i: int, last: TokenType) -> Step {
    let c = s[i];
    if is_space_char(c) {
        Step { toks: seq![], diags: seq![], next: i + 1, last }
    } else if is_digit_char(c) {
        num_step(s, i, last)
    } else if is_ident_start_char(c) {
        ident_step(s, i, last)
    } else if c == '"' || c == '\'' {
        qstr_step(s, i, c, last)
    } else if c == '`' {
        rawstr_step(s, i, last)
    } else {
        match sym_res(s, i) {
            Some((kind, end)) => Step {
                toks: seq![slice_tok(s, kind, i, end)],
                diags: seq![],
                next: end,
                last: kind,
            },
            None => Step {
                toks: seq![],
                diags: seq![
                    scan_diag(s, "Unexpected character '"@ + seq![c] + "'"@, i, i + 1, None),
                ],
                next: i + 1,
                last,
            },
        }
    }
}

/// The end-of-input marker token at index `i`: its lexeme is a fixed
/// placeholder and its span collapses to the final position.
pub open spec fn eof_tok(s: Seq<char>, i: int) -> SpecTok {
    SpecTok { kind: TokenType::EOF, lexeme: "<end>"@, start: pos_at(s, i), end: pos_at(s, i) }
}

/// The scan of `s` from index `i` on, with `last` the last emitted kind:
/// the remaining tokens (ending in the end-of-input marker) and diagnostics.
pub open spec fn scan_at(s: Seq<char>, i: int, last: TokenType) -> ScanS
    decreases s.len() - i,
{
    if !(0 <= i < s.len()) || s[i] == '\0' {
        ScanS { tokens: seq![eof_tok(s, i)], diags: seq![] }
    } else {
        let st = scan_step(s, i, last);
        let j = if st.next <= i || st.next > s.len() {
            i + 1
        } else {
            st.next
        };
        let rest = scan_at(s, j, st.last);
        ScanS { tokens: st.toks + rest.tokens, diags: st.diags + rest.diags }
    }
}

/// The scan of a whole source: tokens and diagnostics from its start.
pub open spec fn scan_spec(s: Seq<char>) -> ScanS {
    scan_at(s, 0, TokenType::EOF)
}

} // verus!
