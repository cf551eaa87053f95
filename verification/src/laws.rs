//! General properties of the scanner, stated and proved against its model:
//! longest-match symbol resolution and the reconstruction of the input from
//! the scanned tokens' own lexemes.

use vstd::prelude::*;

use crate::scan_model::{peek_c, dec_end, hex_end, bin_end, ident_end, sym_res, suffix_scan,
    num_scan, scan_step, scan_at, scan_spec, eof_tok, str_end, slice_tok};
use crate::text::{is_space_char, is_digit_char, is_ident_start_char};
use crate::token::{TokenType, SpecTok};

verus! {

proof fn lemma_dec_end_bounds(s: Seq<char>, j: int)
    requires
        0 <= j <= s.len(),
    ensures
        j <= dec_end(s, j) <= s.len(),
    decreases s.len() - j,
{
    if 0 <= j < s.len() && is_digit_char(s[j]) {
        lemma_dec_end_bounds(s, j + 1);
    }
}

proof fn lemma_hex_end_bounds(s: Seq<char>, j: int)
    requires
        0 <= j <= s.len(),
    ensures
        j <= hex_end(s, j) <= s.len(),
    decreases s.len() - j,
{
    if 0 <= j < s.len() && crate::text::is_hex_char(s[j]) {
        lemma_hex_end_bounds(s, j + 1);
    }
}

proof fn lemma_bin_end_bounds(s: Seq<char>, j: int)
    requires
        0 <= j <= s.len(),
    ensures
        j <= bin_end(s, j) <= s.len(),
    decreases s.len() - j,
{
    if 0 <= j < s.len() && crate::text::is_bin_char(s[j]) {
        lemma_bin_end_bounds(s, j + 1);
    }
}

proof fn lemma_ident_end_bounds(s: Seq<char>, j: int)
    requires
        0 <= j <= s.len(),
    ensures
        j <= ident_end(s, j) <= s.len(),
    decreases s.len() - j,
{
    if 0 <= j < s.len() && crate::text::is_ident_char(s[j]) {
        lemma_ident_end_bounds(s, j + 1);
    }
}

proof fn lemma_suffix_bounds(s: Seq<char>, start: int, j: int)
    requires
        0 <= j <= s.len(),
    ensures
        j <= suffix_scan(s, start, j).0 <= s.len(),
{
}

proof fn lemma_num_scan_bounds(s: Seq<char>, i: int)
    requires
        0 <= i < s.len(),
        is_digit_char(s[i]),
    ensures
        i < num_scan(s, i).0 <= s.len(),
{
    if peek_c(s, i) == '0' && (peek_c(s, i + 1) == 'x' || peek_c(s, i + 1) == 'X') {
        lemma_hex_end_bounds(s, i + 2);
        let d1 = hex_end(s, i + 2);
        if peek_c(s, d1) == '.' && crate::text::is_hex_char(peek_c(s, d1 + 1)) {
            lemma_hex_end_bounds(s, d1 + 1);
            lemma_suffix_bounds(s, i, hex_end(s, d1 + 1));
        } else {
            lemma_suffix_bounds(s, i, d1);
        }
    } else if peek_c(s, i) == '0' && (peek_c(s, i + 1) == 'b' || peek_c(s, i + 1) == 'B') {
        lemma_bin_end_bounds(s, i + 2);
        let d1 = bin_end(s, i + 2);
        if peek_c(s, d1) == '.' && crate::text::is_bin_char(peek_c(s, d1 + 1)) {
            lemma_bin_end_bounds(s, d1 + 1);
            lemma_suffix_bounds(s, i, bin_end(s, d1 + 1));
        } else {
            lemma_suffix_bounds(s, i, d1);
        }
    } else {
        lemma_dec_end_bounds(s, i + 1);
        let d1 = dec_end(s, i + 1);
        let d2 = if peek_c(s, d1) == '.' && is_digit_char(peek_c(s, d1 + 1)) {
            dec_end(s, d1 + 1)
        } else {
            d1
        };
        if peek_c(s, d1) == '.' && is_digit_char(peek_c(s, d1 + 1)) {
            lemma_dec_end_bounds(s, d1 + 1);
        }
        let e = peek_c(s, d2);
        if e == 'e' || e == 'E' {
            let c1 = peek_c(s, d2 + 1);
            if is_digit_char(c1) {
                lemma_dec_end_bounds(s, d2 + 1);
                lemma_suffix_bounds(s, i, dec_end(s, d2 + 1));
            } else if c1 == '-' && is_digit_char(peek_c(s, d2 + 2)) {
                lemma_dec_end_bounds(s, d2 + 2);
                lemma_suffix_bounds(s, i, dec_end(s, d2 + 2));
            } else {
                lemma_suffix_bounds(s, i, d2 + 1);
            }
        } else {
            lemma_suffix_bounds(s, i, d2);
        }
    }
}

/// The source text rebuilt from the tokens' own lexemes, with the original
/// text between the recorded spans reinserted: the gap before each token,
/// then its lexeme, then the rest from its end; the end-of-input marker
/// contributes no lexeme, and what follows the last token is kept whole.
pub open spec fn rebuild_from(s: Seq<char>, toks: Seq<SpecTok>, k: int, pos: int) -> Seq<char>
    decreases toks.len() - k,
{
    if k < 0 || k >= toks.len() {
        if 0 <= pos <= s.len() {
            s.subrange(pos, s.len() as int)
        } else {
            Seq::empty()
        }
    } else {
        let t = toks[k];
        let gap = if 0 <= pos <= t.start.index <= s.len() {
            s.subrange(pos, t.start.index)
        } else {
            Seq::empty()
        };
        if t.kind == TokenType::EOF {
            gap + rebuild_from(s, toks, k + 1, t.end.index)
        } else {
            gap + t.lexeme + rebuild_from(s, toks, k + 1, t.end.index)
        }
    }
}

proof fn lemma_rebuild_drop_first(s: Seq<char>, t0: SpecTok, toks: Seq<SpecTok>, k: int, pos: int)
    requires
        k >= 0,
    ensures
        rebuild_from(s, seq![t0] + toks, k + 1, pos) == rebuild_from(s, toks, k, pos),
    decreases toks.len() - k,
{
    if k >= toks.len() {
    } else {
        assert((seq![t0] + toks)[k + 1] == toks[k]);
        lemma_rebuild_drop_first(s, t0, toks, k + 1, toks[k].end.index);
    }
}

/// A non-whitespace step that raises no diagnostic and emits no string token
/// emits exactly one token whose lexeme is the source slice it covers.
#[verifier::rlimit(100)]
#[verifier::spinoff_prover]
proof fn lemma_step_shape(s: Seq<char>, i: int, last: TokenType)
    requires
        0 <= i < s.len(),
        s[i] != '\0',
        !is_space_char(s[i]),
        scan_step(s, i, last).diags.len() == 0,
        scan_step(s, i, last).toks.len() > 0 ==> scan_step(s, i, last).toks[0].kind
            != TokenType::STRING,
    ensures
        ({
            let st = scan_step(s, i, last);
            st.toks.len() == 1 && st.toks[0].start.index == i && st.toks[0].end.index == st.next
                && st.toks[0].lexeme == s.subrange(i, st.next) && i < st.next <= s.len()
                && st.toks[0].kind != TokenType::EOF
        }),
{
    let st = scan_step(s, i, last);
    let c = s[i];
    if is_digit_char(c) {
        lemma_num_scan_bounds(s, i);
    } else if is_ident_start_char(c) {
        lemma_ident_end_bounds(s, i + 1);
    } else if c == '"' || c == '\'' {
        if str_end(s, i + 1, c) == s.len() {
            assert(st.diags.len() > 0);
        } else {
            assert(st.toks[0].kind == TokenType::STRING);
        }
    } else if c == '`' {
        if str_end(s, i + 1, '`') == s.len() {
            assert(st.diags.len() > 0);
        } else {
            assert(st.toks[0].kind == TokenType::STRING);
        }
    } else {
        match sym_res(s, i) {
            Some((kind, end)) => {},
            None => {
                assert(st.diags.len() > 0);
            },
        }
    }
}

/// Scanning from `i` with no diagnostics and no string tokens tiles the rest
/// of the input exactly: each token's lexeme is the very slice it covers, and
/// only the recorded gaps lie between them.
#[verifier::rlimit(100)]
#[verifier::spinoff_prover]
proof fn lemma_scan_tiles(s: Seq<char>, i: int, last: TokenType)
    requires
        0 <= i <= s.len(),
        scan_at(s, i, last).diags.len() == 0,
        forall|k: int|
            0 <= k < scan_at(s, i, last).tokens.len() ==> (#[trigger] scan_at(
                s,
                i,
                last,
            ).tokens[k]).kind != TokenType::STRING,
    ensures
        rebuild_from(s, scan_at(s, i, last).tokens, 0, i) == s.subrange(i, s.len() as int),
        scan_at(s, i, last).tokens.len() > 0,
        i <= scan_at(s, i, last).tokens[0].start.index <= s.len(),
    decreases s.len() - i,
{
    let out = scan_at(s, i, last);
    if !(0 <= i < s.len()) || s[i] == '\0' {
        assert(out.tokens =~= seq![eof_tok(s, i)]);
        assert(rebuild_from(s, out.tokens, 1, i) =~= s.subrange(i, s.len() as int));
        assert(rebuild_from(s, out.tokens, 0, i) =~= s.subrange(i, i) + rebuild_from(
            s,
            out.tokens,
            1,
            i,
        ));
        assert(s.subrange(i, i) + s.subrange(i, s.len() as int) =~= s.subrange(
            i,
            s.len() as int,
        ));
    } else {
        let st = scan_step(s, i, last);
        let c = s[i];
        if is_space_char(c) {
            let rest = scan_at(s, i + 1, last);
            assert(out.tokens =~= rest.tokens);
            assert(out.diags =~= rest.diags);
            assert(forall|k: int|
                0 <= k < rest.tokens.len() ==> (#[trigger] rest.tokens[k]).kind
                    != TokenType::STRING);
            lemma_scan_tiles(s, i + 1, last);
            let t0 = rest.tokens[0];
            assert(rebuild_from(s, rest.tokens, 0, i) == (s.subrange(i, t0.start.index)
                + (if t0.kind == TokenType::EOF {
                rebuild_from(s, rest.tokens, 1, t0.end.index)
            } else {
                t0.lexeme + rebuild_from(s, rest.tokens, 1, t0.end.index)
            })));
            assert(rebuild_from(s, rest.tokens, 0, i + 1) == (s.subrange(i + 1, t0.start.index)
                + (if t0.kind == TokenType::EOF {
                rebuild_from(s, rest.tokens, 1, t0.end.index)
            } else {
                t0.lexeme + rebuild_from(s, rest.tokens, 1, t0.end.index)
            })));
            assert(s.subrange(i, t0.start.index) =~= seq![s[i]] + s.subrange(
                i + 1,
                t0.start.index,
            ));
            assert(rebuild_from(s, rest.tokens, 0, i) =~= seq![s[i]] + rebuild_from(
                s,
                rest.tokens,
                0,
                i + 1,
            ));
            assert(seq![s[i]] + s.subrange(i + 1, s.len() as int) =~= s.subrange(
                i,
                s.len() as int,
            ));
        } else {
            // every remaining branch emits exactly one slice token: strings
            // and error branches are excluded by the hypotheses
            let rest = scan_at(s, (if st.next <= i || st.next > s.len() {
                i + 1
            } else {
                st.next
            }), st.last);
            assert(out.tokens == st.toks + rest.tokens);
            assert(out.diags == st.diags + rest.diags);
            assert(st.diags.len() == 0 && rest.diags.len() == 0);
            assert(st.toks.len() > 0 ==> st.toks[0] == out.tokens[0]);
            lemma_step_shape(s, i, last);
            assert(st.toks.len() == 1);
            let tok = st.toks[0];
            assert(tok.start.index == i && tok.end.index == st.next && tok.lexeme == s.subrange(
                i,
                st.next,
            ) && i < st.next <= s.len() && tok.kind != TokenType::EOF);
            assert(forall|k: int|
                0 <= k < rest.tokens.len() ==> (#[trigger] rest.tokens[k]) == out.tokens[k + 1]);
            lemma_scan_tiles(s, st.next, st.last);
            assert(out.tokens[0] == tok);
            assert(rebuild_from(s, out.tokens, 0, i) == (s.subrange(i, i) + tok.lexeme
                + rebuild_from(s, out.tokens, 1, st.next)));
            assert(out.tokens =~= seq![tok] + rest.tokens);
            lemma_rebuild_drop_first(s, tok, rest.tokens, 0, st.next);
            assert(s.subrange(i, i) =~= Seq::<char>::empty());
            assert(Seq::<char>::empty() + tok.lexeme =~= tok.lexeme);
            assert(s.subrange(i, st.next) + s.subrange(st.next, s.len() as int) =~= s.subrange(
                i,
                s.len() as int,
            ));
        }
    }
}

/// Law: scanning is idempotent on its own output. When a scan raises no
/// diagnostic and yields no string token, concatenating the tokens' lexemes
/// with the original separating text reinserted reproduces the input exactly,
/// so re-scanning that text yields the very same token sequence.
///
/// String tokens are left out because their lexemes are re-encoded (quoted
/// strings lose raw control characters, raw strings become long-bracket
/// strings), so their lexemes are not the covered source slice.
pub proof fn lemma_rescan_idempotent(s: Seq<char>)
    requires
        scan_spec(s).diags.len() == 0,
        forall|k: int|
            0 <= k < scan_spec(s).tokens.len() ==> (#[trigger] scan_spec(s).tokens[k]).kind
                != TokenType::STRING,
    ensures
        rebuild_from(s, scan_spec(s).tokens, 0, 0) == s,
        scan_spec(rebuild_from(s, scan_spec(s).tokens, 0, 0)).tokens == scan_spec(s).tokens,
{
    lemma_scan_tiles(s, 0, TokenType::EOF);
    assert(s.subrange(0, s.len() as int) =~= s);
}

/// Law: a single-character operator input, one whose character starts a
/// symbol and is not a string delimiter, scans to exactly one token besides
/// the end-of-input marker; its lexeme is the input itself and its kind is
/// the operator's base kind (the longest-match fallback when nothing
/// follows).
pub proof fn lemma_single_symbol(c: char)
    requires
        !is_space_char(c),
        !is_digit_char(c),
        !is_ident_start_char(c),
        c != '"' && c != '\'' && c != '`' && c != '\0',
        sym_res(seq![c], 0) is Some,
    ensures
        scan_spec(seq![c]).diags.len() == 0,
        scan_spec(seq![c]).tokens.len() == 2,
        scan_spec(seq![c]).tokens[0].kind == sym_res(seq![c], 0)->Some_0.0,
        scan_spec(seq![c]).tokens[0].lexeme == seq![c],
        scan_spec(seq![c]).tokens[1].kind == TokenType::EOF,
{
    let s = seq![c];
    assert(peek_c(s, 1) == '\0' && peek_c(s, 2) == '\0');
    let (kind, end) = sym_res(s, 0)->Some_0;
    assert(end == 1);
    let st = scan_step(s, 0, TokenType::EOF);
    assert(st.toks == seq![slice_tok(s, kind, 0, 1)]);
    assert(scan_at(s, 1, kind).tokens =~= seq![eof_tok(s, 1)]);
    assert(scan_spec(s).tokens =~= st.toks + seq![eof_tok(s, 1)]);
    assert(s.subrange(0, 1) =~= seq![c]);
    assert(scan_spec(s).diags =~= st.diags + scan_at(s, 1, kind).diags);
}

/// Law: symbol scanning is longest-match. Each member of the family sharing
/// the `?` prefix scans to the one token of its full length, never to its
/// shorter prefixes followed by a remainder.
#[verifier::rlimit(100)]
pub proof fn lemma_longest_match_question_family()
    ensures
        scan_spec(seq!['?']).tokens[0].kind == TokenType::QUESTION_MARK,
        scan_spec(seq!['?', '?']).tokens[0].kind == TokenType::COALESCE,
        scan_spec(seq!['?', '?', '=']).tokens[0].kind == TokenType::DEFINE_COALESCE,
        scan_spec(seq!['?', '?', '=']).tokens.len() == 2,
        scan_spec(seq!['?', '?', '=']).tokens[0].lexeme == seq!['?', '?', '='],
        scan_spec(seq!['?', '.']).tokens[0].kind == TokenType::SAFE_DOT,
        scan_spec(seq!['?', '(']).tokens[0].kind == TokenType::SAFE_CALL,
        scan_spec(seq!['?', ':', ':']).tokens[0].kind == TokenType::SAFE_DOUBLE_COLON,
{
    let s1 = seq!['?'];
    assert(scan_spec(s1).tokens =~= scan_step(s1, 0, TokenType::EOF).toks + scan_at(
        s1,
        1,
        TokenType::QUESTION_MARK,
    ).tokens);
    let s2 = seq!['?', '?'];
    assert(scan_spec(s2).tokens =~= scan_step(s2, 0, TokenType::EOF).toks + scan_at(
        s2,
        2,
        TokenType::COALESCE,
    ).tokens);
    let s3 = seq!['?', '?', '='];
    assert(scan_spec(s3).tokens =~= scan_step(s3, 0, TokenType::EOF).toks + scan_at(
        s3,
        3,
        TokenType::DEFINE_COALESCE,
    ).tokens);
    assert(s3.subrange(0, 3) =~= s3);
    let s4 = seq!['?', '.'];
    assert(scan_spec(s4).tokens =~= scan_step(s4, 0, TokenType::EOF).toks + scan_at(
        s4,
        2,
        TokenType::SAFE_DOT,
    ).tokens);
    let s5 = seq!['?', '('];
    assert(scan_spec(s5).tokens =~= scan_step(s5, 0, TokenType::EOF).toks + scan_at(
        s5,
        2,
        TokenType::SAFE_CALL,
    ).tokens);
    let s6 = seq!['?', ':', ':'];
    assert(scan_spec(s6).tokens =~= scan_step(s6, 0, TokenType::EOF).toks + scan_at(
        s6,
        3,
        TokenType::SAFE_DOUBLE_COLON,
    ).tokens);
}


/// A non-whitespace, non-string step emits at most one token, and when it
/// emits one, that token's lexeme is exactly the source slice its span
/// covers.
#[verifier::rlimit(100)]
#[verifier::spinoff_prover]
proof fn lemma_step_lexeme(s: Seq<char>, i: int, last: TokenType)
    requires
        0 <= i < s.len(),
        s[i] != '\0',
    ensures
        ({
            let st = scan_step(s, i, last);
            forall|k: int|
                0 <= k < st.toks.len() ==> ((#[trigger] st.toks[k]).kind != TokenType::STRING
                    ==> st.toks[k].start.index == i && i < st.toks[k].end.index <= s.len()
                    && st.toks[k].lexeme == s.subrange(i, st.toks[k].end.index))
        }),
{
    let st = scan_step(s, i, last);
    let c = s[i];
    if is_space_char(c) {
    } else if is_digit_char(c) {
        lemma_num_scan_bounds(s, i);
    } else if is_ident_start_char(c) {
        lemma_ident_end_bounds(s, i + 1);
    } else if c == '"' || c == '\'' || c == '`' {
        assert(forall|k: int|
            0 <= k < st.toks.len() ==> (#[trigger] st.toks[k]).kind == TokenType::STRING);
    } else {
        match sym_res(s, i) {
            Some((kind, end)) => {},
            None => {},
        }
    }
}

/// Law: every token other than a string literal or the end-of-input marker
/// carries as its lexeme exactly the source slice its span covers. Numeric
/// tokens in particular reproduce their input text, malformed or not; string
/// lexemes alone are re-encoded.
pub proof fn lemma_lexeme_fidelity(s: Seq<char>, i: int, last: TokenType)
    requires
        0 <= i <= s.len(),
    ensures
        forall|k: int|
            0 <= k < scan_at(s, i, last).tokens.len() ==> {
                let t = #[trigger] scan_at(s, i, last).tokens[k];
                (t.kind != TokenType::STRING && t.kind != TokenType::EOF) ==> (0 <= t.start.index
                    < t.end.index <= s.len() && t.lexeme == s.subrange(
                    t.start.index,
                    t.end.index,
                ))
            },
    decreases s.len() - i,
{
    let out = scan_at(s, i, last);
    if !(0 <= i < s.len()) || s[i] == '\0' {
        assert(out.tokens =~= seq![eof_tok(s, i)]);
    } else {
        let st = scan_step(s, i, last);
        let j: int = if st.next <= i || st.next > s.len() {
            i + 1
        } else {
            st.next
        };
        let rest = scan_at(s, j, st.last);
        lemma_step_lexeme(s, i, last);
        lemma_lexeme_fidelity(s, j, st.last);
        assert(out.tokens == st.toks + rest.tokens);
        assert forall|k: int| 0 <= k < out.tokens.len() implies {
            let t = #[trigger] out.tokens[k];
            (t.kind != TokenType::STRING && t.kind != TokenType::EOF) ==> (0 <= t.start.index
                < t.end.index <= s.len() && t.lexeme == s.subrange(t.start.index, t.end.index))
        } by {
            if k < st.toks.len() {
                assert(out.tokens[k] == st.toks[k]);
            } else {
                assert(out.tokens[k] == rest.tokens[k - st.toks.len()]);
            }
        }
    }
}


/// Whether a word is a complete symbol of the operator table: scanned alone,
/// symbol resolution consumes exactly all of it.
pub open spec fn symbol_word(w: Seq<char>) -> Option<TokenType> {
    match sym_res(w, 0) {
        Some((k, e)) => if e == w.len() {
            Some(k)
        } else {
            None
        },
        None => None,
    }
}

/// Law: symbol resolution is longest-match, over the whole operator table.
/// Whenever a symbol is taken at `i`, the consumed slice is itself a complete
/// symbol of the resolved kind, and no longer prefix of the remaining input
/// forms a complete symbol: chains sharing a common prefix always resolve to
/// the longest member present.
#[verifier::rlimit(100)]
#[verifier::spinoff_prover]
pub proof fn lemma_symbol_longest_match(s: Seq<char>, i: int)
    requires
        0 <= i < s.len(),
        sym_res(s, i) is Some,
    ensures
        ({
            let (k, e) = sym_res(s, i)->Some_0;
            symbol_word(s.subrange(i, e)) == Some(k) && forall|j: int|
                e < j <= s.len() ==> #[trigger] symbol_word(s.subrange(i, j)) is None
        }),
{
    let (k, e) = sym_res(s, i)->Some_0;
    let w0 = s.subrange(i, e);
    assert(peek_c(w0, 0) == peek_c(s, i));
    assert(peek_c(w0, 1) == (if e - i >= 2 {
        peek_c(s, i + 1)
    } else {
        '\0'
    }));
    assert(peek_c(w0, 2) == (if e - i >= 3 {
        peek_c(s, i + 2)
    } else {
        '\0'
    }));
    assert(symbol_word(w0) == Some(k));
    assert forall|j: int| e < j <= s.len() implies #[trigger] symbol_word(
        s.subrange(i, j),
    ) is None by {
        let w = s.subrange(i, j);
        assert(peek_c(w, 0) == peek_c(s, i));
        assert(peek_c(w, 1) == (if j - i >= 2 {
            peek_c(s, i + 1)
        } else {
            '\0'
        }));
        assert(peek_c(w, 2) == (if j - i >= 3 {
            peek_c(s, i + 2)
        } else {
            '\0'
        }));
    }
}

} // verus!
