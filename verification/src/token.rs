//! Tokens: the classified, positioned lexical units that the scanner produces
//! and the expression parser consumes.

#![allow(non_camel_case_types)]

use vstd::prelude::*;

verus! {

/// The token's type: symbols, compound operators, literals, keywords and the
/// end-of-input marker.
///
/// The four `SAFE_*` punctuation kinds are each the null-propagating variant of
/// one plain kind, and the two families are kept aligned at a fixed offset of
/// six places in the declaration order.
#[derive(Debug, Copy, Clone, PartialEq, Eq, Structural)]
pub enum TokenType {
    // symbols
    ROUND_BRACKET_OPEN,
    ROUND_BRACKET_CLOSED,
    SQUARE_BRACKET_OPEN,
    SQUARE_BRACKET_CLOSED,
    CURLY_BRACKET_OPEN,
    CURLY_BRACKET_CLOSED,
    SAFE_CALL,
    COMMA,
    SAFE_SQUARE_BRACKET,
    SEMICOLON,
    QUESTION_MARK,
    NOT,
    AND,
    OR,
    PLUS,
    MINUS,
    STAR,
    SLASH,
    FLOOR_DIVISION,
    PERCENTUAL,
    CARET,
    HASHTAG,
    COALESCE,
    DOT,
    DOUBLE_COLON,
    TWODOTS,
    COLON,
    THREEDOTS,
    ARROW,
    SAFE_DOT,
    SAFE_DOUBLE_COLON,
    BIT_AND,
    BIT_OR,
    BIT_XOR,
    BIT_NOT,
    LEFT_SHIFT,
    RIGHT_SHIFT,
    // definition and comparison
    DEFINE,
    DEFINE_AND,
    DEFINE_OR,
    INCREASE,
    DECREASE,
    MULTIPLY,
    DIVIDE,
    DEFINE_COALESCE,
    EXPONENTIATE,
    CONCATENATE,
    MODULATE,
    BIGGER,
    BIGGER_EQUAL,
    SMALLER,
    SMALLER_EQUAL,
    EQUAL,
    NOT_EQUAL,
    // literals
    IDENTIFIER,
    NUMBER,
    STRING,
    // keywords
    IF,
    ELSEIF,
    ELSE,
    FOR,
    OF,
    IN,
    WITH,
    WHILE,
    META,
    GLOBAL,
    UNTIL,
    LOCAL,
    FN,
    METHOD,
    RETURN,
    TRUE,
    FALSE,
    NIL,
    LOOP,
    STATIC,
    ENUM,
    CONTINUE,
    BREAK,
    TRY,
    CATCH,
    MATCH,
    DEFAULT,
    STRUCT,
    EXTERN,
    CONSTRUCTOR,
    EOF,
}

/// The position of the start or the end of a token: line and column are
/// 1-based, the character index is 0-based.
#[derive(Debug, Copy, Clone, PartialEq, Eq, Structural)]
pub struct TokenPosition {
    pub line: usize,
    pub column: usize,
    pub index: usize,
}

/// Mathematical model of a [`TokenPosition`].
pub ghost struct SpecPos {
    pub line: int,
    pub column: int,
    pub index: int,
}

impl View for TokenPosition {
    type V = SpecPos;

    open spec fn view(&self) -> SpecPos {
        SpecPos { line: self.line as int, column: self.column as int, index: self.index as int }
    }
}

/// A token: its type, its literal text, and the half-open span of source
/// positions it covers.
#[derive(Debug, PartialEq, Eq)]
pub struct Token {
    /// The token's type.
    pub kind: TokenType,
    /// The literal token, e.g. for `1` it's `"1"` and for `+` it's `"+"`.
    pub lexeme: String,
    /// The span of the token in the source, as a start and an end position.
    pub position: core::ops::Range<TokenPosition>,
}

/// Mathematical model of a [`Token`].
pub ghost struct SpecTok {
    pub kind: TokenType,
    pub lexeme: Seq<char>,
    pub start: SpecPos,
    pub end: SpecPos,
}

impl View for Token {
    type V = SpecTok;

    open spec fn view(&self) -> SpecTok {
        SpecTok {
            kind: self.kind,
            lexeme: self.lexeme@,
            start: self.position.start@,
            end: self.position.end@,
        }
    }
}

impl Clone for Token {
    /// Clones the token, field for field.
    fn clone(&self) -> (r: Self)
        ensures
            r@ == self@,
    {
        Token {
            kind: self.kind,
            lexeme: self.lexeme.clone(),
            position: core::ops::Range { start: self.position.start, end: self.position.end },
        }
    }
}

impl Token {
    /// Creates a new token from its type, its literal text and its span.
    pub fn new(kind: TokenType, lexeme: String, position: core::ops::Range<TokenPosition>) -> (r:
        Self)
        ensures
            r@ == (SpecTok {
                kind,
                lexeme: lexeme@,
                start: position.start@,
                end: position.end@,
            }),
    {
        Self { kind, lexeme, position }
    }
}

/// A read-only view of one token inside an owning sequence, borrowed for the
/// lifetime of that sequence.
pub struct BorrowedToken<'a> {
    token: &'a Token,
}

impl<'a> View for BorrowedToken<'a> {
    type V = SpecTok;

    closed spec fn view(&self) -> SpecTok {
        self.token@
    }
}

impl<'a> BorrowedToken<'a> {
    /// Creates a new borrowed view of the given token.
    pub fn new(token: &'a Token) -> (r: Self)
        ensures
            r@ == token@,
    {
        Self { token }
    }

    /// Returns the borrowed token.
    pub fn token(&self) -> (r: &Token)
        ensures
            r@ == self@,
    {
        self.token
    }

    /// Returns the token's type.
    pub fn kind(&self) -> (r: TokenType)
        ensures
            r == self@.kind,
    {
        self.token.kind
    }

    /// Returns the cloned literal text of the token.
    pub fn lexeme(&self) -> (r: String)
        ensures
            r@ == self@.lexeme,
    {
        self.token.lexeme.clone()
    }

    /// Returns a copy of the token's span.
    pub fn position(&self) -> (r: core::ops::Range<TokenPosition>)
        ensures
            r.start@ == self@.start,
            r.end@ == self@.end,
    {
        core::ops::Range { start: self.token.position.start, end: self.token.position.end }
    }

    /// Returns the range of source indexes the token covers.
    pub fn range(&self) -> (r: core::ops::Range<usize>)
        ensures
            r.start as int == self@.start.index,
            r.end as int == self@.end.index,
    {
        core::ops::Range {
            start: self.token.position.start.index,
            end: self.token.position.end.index,
        }
    }

    /// Returns the line where the token ends.
    pub fn line(&self) -> (r: usize)
        ensures
            r as int == self@.end.line,
    {
        self.token.position.end.line
    }

    /// Returns the column where the token ends.
    pub fn column(&self) -> (r: usize)
        ensures
            r as int == self@.end.column,
    {
        self.token.position.end.column
    }

    /// Clones the borrowed token and returns it.
    pub fn into_owned(&self) -> (r: Token)
        ensures
            r@ == self@,
    {
        Token {
            kind: self.token.kind,
            lexeme: self.token.lexeme.clone(),
            position: core::ops::Range {
                start: self.token.position.start,
                end: self.token.position.end,
            },
        }
    }
}

/// The line (1-based) on which the character at index `i` stands: one more
/// than the number of line breaks strictly before it.
pub open spec fn line_at(s: Seq<char>, i: int) -> int
    decreases i,
{
    if i <= 0 {
        1
    } else {
        line_at(s, i - 1) + if 0 <= i - 1 < s.len() && s[i - 1] == '\n' {
            1int
        } else {
            0int
        }
    }
}

/// The column (1-based) of the character at index `i`: the number of
/// characters since the last line break, plus one.
pub open spec fn col_at(s: Seq<char>, i: int) -> int
    decreases i,
{
    if i <= 0 {
        1
    } else if 0 <= i - 1 < s.len() && s[i - 1] == '\n' {
        1
    } else {
        col_at(s, i - 1) + 1
    }
}

/// The full position of index `i` in source `s`.
pub open spec fn pos_at(s: Seq<char>, i: int) -> SpecPos {
    SpecPos { line: line_at(s, i), column: col_at(s, i), index: i }
}

} // verus!
