use clue::error::{ClueError, ClueErrorKind, StringReader};
use clue::scanner::{scan_code, scan_tokens};
use clue::token::TokenType;
use clue::token::TokenType::{
    AND, ARROW, BIGGER, BIGGER_EQUAL, BIT_AND, BIT_NOT, BIT_OR, BIT_XOR, CARET, COALESCE, COLON,
    COMMA, CONCATENATE, CURLY_BRACKET_CLOSED, CURLY_BRACKET_OPEN, DEFINE, DEFINE_AND,
    DEFINE_COALESCE, DEFINE_OR, DOT, DOUBLE_COLON, EOF, EQUAL, FALSE, FLOOR_DIVISION, FN,
    HASHTAG, IDENTIFIER, IF, INCREASE, LEFT_SHIFT, LOOP, MINUS, NIL, NOT, NOT_EQUAL, NUMBER,
    PERCENTUAL, PLUS, QUESTION_MARK, ROUND_BRACKET_CLOSED, ROUND_BRACKET_OPEN, SAFE_CALL,
    SAFE_DOT, SAFE_DOUBLE_COLON, SAFE_SQUARE_BRACKET, SEMICOLON, SLASH, SMALLER,
    SQUARE_BRACKET_CLOSED, SQUARE_BRACKET_OPEN, STAR, STRING, THREEDOTS, TRUE, TWODOTS, WHILE,
};

fn chars(s: &str) -> Vec<char> {
    s.chars().collect()
}

fn kinds(s: &str) -> Vec<TokenType> {
    let (toks, _) = scan_tokens(&chars(s));
    toks.iter().map(|t| t.kind).collect()
}

fn lexemes(s: &str) -> Vec<String> {
    let (toks, _) = scan_tokens(&chars(s));
    toks.iter().map(|t| t.lexeme.clone()).collect()
}

fn errors(s: &str) -> Vec<ClueError> {
    let (_, diags) = scan_tokens(&chars(s));
    diags
}

#[test]
fn check_safe_tokens() {
    assert_eq!(ROUND_BRACKET_OPEN as u8, (SAFE_CALL as u8).wrapping_sub(6));
    assert_eq!(SQUARE_BRACKET_OPEN as u8, (SAFE_SQUARE_BRACKET as u8).wrapping_sub(6));
    assert_eq!(DOT as u8, (SAFE_DOT as u8).wrapping_sub(6));
    assert_eq!(DOUBLE_COLON as u8, (SAFE_DOUBLE_COLON as u8).wrapping_sub(6));
}

#[test]
fn single_character_operators() {
    for (src, kind) in [
        ("+", PLUS),
        ("-", MINUS),
        (",", COMMA),
        (";", SEMICOLON),
        ("~", BIT_NOT),
        ("#", HASHTAG),
        ("(", ROUND_BRACKET_OPEN),
        (")", ROUND_BRACKET_CLOSED),
        ("[", SQUARE_BRACKET_OPEN),
        ("]", SQUARE_BRACKET_CLOSED),
        ("{", CURLY_BRACKET_OPEN),
        ("}", CURLY_BRACKET_CLOSED),
        (".", DOT),
        ("*", STAR),
        ("/", SLASH),
        ("%", PERCENTUAL),
        ("^", CARET),
        ("!", NOT),
        ("=", DEFINE),
        ("<", SMALLER),
        (">", BIGGER),
        ("?", QUESTION_MARK),
        ("&", BIT_AND),
        ("|", BIT_OR),
        (":", COLON),
    ] {
        let (toks, diags) = scan_tokens(&chars(src));
        assert_eq!(diags.len(), 0, "{src}");
        assert_eq!(toks.len(), 2, "{src}");
        assert_eq!(toks[0].kind, kind, "{src}");
        assert_eq!(toks[0].lexeme, src, "{src}");
        assert_eq!(toks[1].kind, EOF, "{src}");
    }
}

#[test]
fn longest_match_question_family() {
    assert_eq!(kinds("?"), vec![QUESTION_MARK, EOF]);
    assert_eq!(kinds("??"), vec![COALESCE, EOF]);
    assert_eq!(kinds("??="), vec![DEFINE_COALESCE, EOF]);
    assert_eq!(lexemes("??=")[0], "??=");
    assert_eq!(kinds("?."), vec![SAFE_DOT, EOF]);
    assert_eq!(kinds("?("), vec![SAFE_CALL, EOF]);
    assert_eq!(kinds("?["), vec![SAFE_SQUARE_BRACKET, EOF]);
    assert_eq!(kinds("?::"), vec![SAFE_DOUBLE_COLON, EOF]);
}

#[test]
fn longest_match_other_families() {
    assert_eq!(kinds("..."), vec![THREEDOTS, EOF]);
    assert_eq!(kinds("..="), vec![CONCATENATE, EOF]);
    assert_eq!(kinds(".."), vec![TWODOTS, EOF]);
    assert_eq!(kinds("&&="), vec![DEFINE_AND, EOF]);
    assert_eq!(kinds("&&"), vec![AND, EOF]);
    assert_eq!(kinds("||="), vec![DEFINE_OR, EOF]);
    assert_eq!(kinds("=>"), vec![ARROW, EOF]);
    assert_eq!(kinds("=="), vec![EQUAL, EOF]);
    assert_eq!(kinds("!="), vec![NOT_EQUAL, EOF]);
    assert_eq!(kinds("<<"), vec![LEFT_SHIFT, EOF]);
    assert_eq!(kinds(">="), vec![BIGGER_EQUAL, EOF]);
    assert_eq!(kinds("/_"), vec![FLOOR_DIVISION, EOF]);
    assert_eq!(kinds("^^"), vec![BIT_XOR, EOF]);
    assert_eq!(kinds("+="), vec![INCREASE, EOF]);
}

#[test]
fn number_lexemes_round_trip() {
    for src in ["0xFF", "0b101", "123", "1.5e10", "1.5e-3", "10LL", "10ULL", "0xA.F", "1e5"] {
        let (toks, diags) = scan_tokens(&chars(src));
        assert_eq!(diags.len(), 0, "{src}");
        assert_eq!(toks.len(), 2, "{src}");
        assert_eq!(toks[0].kind, NUMBER, "{src}");
        assert_eq!(toks[0].lexeme, src, "{src}");
    }
}

#[test]
fn malformed_numbers_still_emit_a_token() {
    // a hex prefix with no digits
    let (toks, diags) = scan_tokens(&chars("0x"));
    assert_eq!(diags.len(), 1);
    assert_eq!(diags[0].message(), "Malformed number");
    assert_eq!(toks[0].kind, NUMBER);
    assert_eq!(toks.len(), 2);
    // an exponent marker not followed by digits or a signed digit group
    let (toks, diags) = scan_tokens(&chars("1e"));
    assert_eq!(diags.len(), 1);
    assert_eq!(diags[0].message(), "Malformed number");
    assert_eq!(toks[0].kind, NUMBER);
    assert_eq!(toks[0].lexeme, "1e");
    // a UL suffix without its final L
    let (toks, diags) = scan_tokens(&chars("10UL"));
    assert_eq!(diags.len(), 1);
    assert_eq!(toks[0].kind, NUMBER);
    assert_eq!(toks[0].lexeme, "10");
}

#[test]
fn raw_string_reencoding() {
    // "]]" collides with the zero-padding close, so one padding level is added
    let (toks, diags) = scan_tokens(&chars("`a]]b`"));
    assert_eq!(diags.len(), 0);
    assert_eq!(toks[0].kind, STRING);
    assert_eq!(toks[0].lexeme, "[=[a]]b]=]");
    // "]=]" collides with the one-padding close too, so two levels are needed
    let (toks, _) = scan_tokens(&chars("`a]]b]=]c`"));
    assert_eq!(toks[0].lexeme, "[==[a]]b]=]c]==]");
    let (toks, diags) = scan_tokens(&chars("`plain`"));
    assert_eq!(diags.len(), 0);
    assert_eq!(toks[0].lexeme, "[[plain]]");
    // one trailing close bracket also needs a padding level
    let (toks, _) = scan_tokens(&chars("`x]`"));
    assert_eq!(toks[0].lexeme, "[=[x]]=]");
    // an escaped backtick is unescaped in the encoded literal
    let (toks, _) = scan_tokens(&chars("`a\\`b`"));
    assert_eq!(toks[0].lexeme, "[[a`b]]");
}

#[test]
fn quoted_strings() {
    let (toks, diags) = scan_tokens(&chars("\"abc\""));
    assert_eq!(diags.len(), 0);
    assert_eq!(toks[0].kind, STRING);
    assert_eq!(toks[0].lexeme, "\"abc\"");
    // escaped delimiter stays inside the literal
    let (toks, _) = scan_tokens(&chars("\"a\\\"b\""));
    assert_eq!(toks[0].lexeme, "\"a\\\"b\"");
    // raw control characters are stripped from the stored lexeme
    let (toks, _) = scan_tokens(&chars("\"a\nb\""));
    assert_eq!(toks[0].lexeme, "\"ab\"");
}

#[test]
fn unterminated_string_one_error_no_token() {
    let (toks, diags) = scan_tokens(&chars("\"abc"));
    assert_eq!(diags.len(), 1);
    assert_eq!(diags[0].message(), "Unterminated string");
    assert_eq!(diags[0].kind(), ClueErrorKind::Error);
    assert_eq!(toks.len(), 1);
    assert_eq!(toks[0].kind, EOF);
}

#[test]
fn keywords_and_identifiers() {
    assert_eq!(kinds("if"), vec![IF, EOF]);
    assert_eq!(kinds("while"), vec![WHILE, EOF]);
    assert_eq!(kinds("fn"), vec![FN, EOF]);
    assert_eq!(kinds("foo"), vec![IDENTIFIER, EOF]);
    assert_eq!(kinds("true false nil"), vec![TRUE, FALSE, NIL, EOF]);
    // a keyword of this language used as a member name stays an identifier
    assert_eq!(kinds("a.loop"), vec![IDENTIFIER, DOT, IDENTIFIER, EOF]);
    assert_eq!(kinds("a::match"), vec![IDENTIFIER, DOUBLE_COLON, IDENTIFIER, EOF]);
    assert_eq!(kinds("loop"), vec![LOOP, EOF]);
}

#[test]
fn reserved_keywords_error_but_stay_identifiers() {
    let (toks, diags) = scan_tokens(&chars("and"));
    assert_eq!(diags.len(), 1);
    assert_eq!(
        diags[0].message(),
        "'and' is a reserved keyword in Lua and it cannot be used as a variable"
    );
    assert_eq!(diags[0].help().as_deref(), Some("'and' operators in Clue are made with '&&'"));
    assert_eq!(toks[0].kind, IDENTIFIER);
    // names reserved for a future version error too, except as member names
    let (toks, diags) = scan_tokens(&chars("struct"));
    assert_eq!(diags.len(), 1);
    assert_eq!(diags[0].message(), "'struct' is reserved for Clue 4.0 and cannot be used");
    assert_eq!(toks[0].kind, IDENTIFIER);
    let (_, diags) = scan_tokens(&chars("a.struct"));
    assert_eq!(diags.len(), 0);
}

#[test]
fn unexpected_character() {
    let diags = errors("@");
    assert_eq!(diags.len(), 1);
    assert_eq!(diags[0].message(), "Unexpected character '@'");
}

#[test]
fn positions_track_lines_and_columns() {
    let (toks, _) = scan_tokens(&chars("a\n bb"));
    assert_eq!(toks[0].position.start.line, 1);
    assert_eq!(toks[0].position.start.column, 1);
    assert_eq!(toks[0].position.start.index, 0);
    assert_eq!(toks[1].position.start.line, 2);
    assert_eq!(toks[1].position.start.column, 2);
    assert_eq!(toks[1].position.start.index, 3);
    assert_eq!(toks[1].position.end.index, 5);
}

#[test]
fn scanning_keeps_going_after_errors() {
    let (toks, diags) = scan_tokens(&chars("@ x $"));
    assert_eq!(diags.len(), 2);
    let ks: Vec<TokenType> = toks.iter().map(|t| t.kind).collect();
    assert_eq!(ks, vec![IDENTIFIER, EOF]);
}

#[test]
fn rescan_of_own_lexemes_is_stable() {
    let src = "local x = 1 + 2\nif x >= 3 { y ??= f(x) }";
    let (toks, diags) = scan_tokens(&chars(src));
    assert_eq!(diags.len(), 0);
    // rebuild the source from the lexemes and the original gaps
    let mut rebuilt = String::new();
    let mut pos = 0usize;
    for t in &toks {
        rebuilt.extend(src.chars().skip(pos).take(t.position.start.index - pos));
        if t.kind != EOF {
            rebuilt.push_str(&t.lexeme);
        }
        pos = t.position.end.index;
    }
    rebuilt.extend(src.chars().skip(pos));
    assert_eq!(rebuilt, src);
    let (toks2, diags2) = scan_tokens(&chars(&rebuilt));
    assert_eq!(diags2.len(), 0);
    assert_eq!(toks2.len(), toks.len());
    for (a, b) in toks.iter().zip(toks2.iter()) {
        assert_eq!(a.kind, b.kind);
        assert_eq!(a.lexeme, b.lexeme);
    }
}

#[test]
fn scan_code_ok_and_failure() {
    let reader = StringReader::new(String::from("local x"));
    let r = scan_code(&chars("local x"), &reader);
    let toks = r.unwrap();
    assert_eq!(toks.len(), 3);
    let reader = StringReader::new(String::from("\"abc"));
    let r = scan_code(&chars("\"abc"), &reader);
    assert_eq!(r.unwrap_err(), "Cannot continue until the above errors are fixed");
}
