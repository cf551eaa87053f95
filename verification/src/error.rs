//! The diagnostic substrate: source providers, structured error and warning
//! records, and their rendering, shared by the scanner, the expression parser
//! and later compilation stages.

use vstd::prelude::*;

use std::io::Write;

use colored::Colorize;

use crate::text::{dec_repr, is_space_char, is_space, push_char, substr, usize_to_string};

verus! {

/// A source provider: where code text comes from, and the display name used
/// in diagnostics. File-based providers live with the surrounding driver;
/// [`StringReader`] provides in-memory text.
pub trait CodeReader {
    /// The source text, or a message describing why it cannot be read.
    fn get_code(&self) -> Result<String, String>;

    /// The display name embedded in every diagnostic header.
    fn get_filename(&self) -> String;
}

/// A source provider over an in-memory string.
pub struct StringReader {
    code: String,
}

impl View for StringReader {
    type V = Seq<char>;

    closed spec fn view(&self) -> Seq<char> {
        self.code@
    }
}

impl StringReader {
    /// Wraps the given code text.
    pub fn new(code: String) -> (r: Self)
        ensures
            r@ == code@,
    {
        StringReader { code }
    }
}

impl CodeReader for StringReader {
    /// Hands the wrapped text back unchanged.
    fn get_code(&self) -> (r: Result<String, String>)
        ensures
            match r {
                Ok(code) => code@ == self@,
                Err(_) => false,
            },
    {
        Ok(self.code.clone())
    }

    /// An in-memory provider displays as `<code>`.
    fn get_filename(&self) -> (r: String)
        ensures
            r@ == "<code>"@,
    {
        String::from_str("<code>")
    }
}

/// Severity of a diagnostic record.
#[derive(Debug, Clone, Copy, PartialEq, Eq, Structural)]
pub enum ClueErrorKind {
    Error,
    Warning,
}

/// A structured diagnostic record: severity, message, position, the span of
/// source indexes it points at, and an optional help note.
#[derive(Debug, PartialEq, Eq)]
pub struct ClueError {
    kind: ClueErrorKind,
    message: String,
    line: usize,
    column: usize,
    range: core::ops::Range<usize>,
    help: Option<String>,
}

/// Mathematical model of a [`ClueError`].
pub ghost struct SpecDiag {
    pub kind: ClueErrorKind,
    pub message: Seq<char>,
    pub line: int,
    pub column: int,
    pub start: int,
    pub end: int,
    pub help: Option<Seq<char>>,
}

impl View for ClueError {
    type V = SpecDiag;

    closed spec fn view(&self) -> SpecDiag {
        SpecDiag {
            kind: self.kind,
            message: self.message@,
            line: self.line as int,
            column: self.column as int,
            start: self.range.start as int,
            end: self.range.end as int,
            help: match self.help {
                Some(h) => Some(h@),
                None => None,
            },
        }
    }
}

impl Clone for ClueError {
    /// Clones the record, field for field.
    fn clone(&self) -> (r: Self)
        ensures
            r@ == self@,
    {
        ClueError {
            kind: self.kind,
            message: self.message.clone(),
            line: self.line,
            column: self.column,
            range: core::ops::Range { start: self.range.start, end: self.range.end },
            help: match &self.help {
                Some(h) => Some(h.clone()),
                None => None,
            },
        }
    }
}

impl ClueError {
    /// Builds a record from all of its parts.
    pub fn new(
        kind: ClueErrorKind,
        message: String,
        line: usize,
        column: usize,
        range: core::ops::Range<usize>,
        help: Option<String>,
    ) -> (r: Self)
        ensures
            r@ == (SpecDiag {
                kind,
                message: message@,
                line: line as int,
                column: column as int,
                start: range.start as int,
                end: range.end as int,
                help: match help {
                    Some(h) => Some(h@),
                    None => None,
                },
            }),
    {
        ClueError { kind, message, line, column, range, help }
    }

    /// Builds an error-severity record.
    pub fn error(
        message: String,
        line: usize,
        column: usize,
        range: core::ops::Range<usize>,
        help: Option<String>,
    ) -> (r: Self)
        ensures
            r@ == (SpecDiag {
                kind: ClueErrorKind::Error,
                message: message@,
                line: line as int,
                column: column as int,
                start: range.start as int,
                end: range.end as int,
                help: match help {
                    Some(h) => Some(h@),
                    None => None,
                },
            }),
    {
        ClueError::new(ClueErrorKind::Error, message, line, column, range, help)
    }

    /// Builds a warning-severity record.
    pub fn warning(
        message: String,
        line: usize,
        column: usize,
        range: core::ops::Range<usize>,
        help: Option<String>,
    ) -> (r: Self)
        ensures
            r@ == (SpecDiag {
                kind: ClueErrorKind::Warning,
                message: message@,
                line: line as int,
                column: column as int,
                start: range.start as int,
                end: range.end as int,
                help: match help {
                    Some(h) => Some(h@),
                    None => None,
                },
            }),
    {
        ClueError::new(ClueErrorKind::Warning, message, line, column, range, help)
    }

    /// The severity of the record.
    pub fn kind(&self) -> (r: ClueErrorKind)
        ensures
            r == self@.kind,
    {
        self.kind
    }

    /// The message of the record.
    pub fn message(&self) -> (r: &String)
        ensures
            r@ == self@.message,
    {
        &self.message
    }

    /// The line the record points at.
    pub fn line(&self) -> (r: usize)
        ensures
            r as int == self@.line,
    {
        self.line
    }

    /// The column the record points at.
    pub fn column(&self) -> (r: usize)
        ensures
            r as int == self@.column,
    {
        self.column
    }

    /// The start of the source span the record points at.
    pub fn start(&self) -> (r: usize)
        ensures
            r as int == self@.start,
    {
        self.range.start
    }

    /// The end of the source span the record points at.
    pub fn end(&self) -> (r: usize)
        ensures
            r as int == self@.end,
    {
        self.range.end
    }

    /// The help note of the record, if any.
    pub fn help(&self) -> (r: &Option<String>)
        ensures
            match r {
                Some(h) => self@.help == Some(h@),
                None => self@.help is None,
            },
    {
        &self.help
    }

    /// Builds the standard "expected X, got Y" error record.
    pub fn expected(
        expected: &str,
        got: &str,
        line: usize,
        column: usize,
        range: core::ops::Range<usize>,
        help: Option<String>,
    ) -> (r: Self)
        ensures
            r@ == (SpecDiag {
                kind: ClueErrorKind::Error,
                message: expected_msg(expected@, got@),
                line: line as int,
                column: column as int,
                start: range.start as int,
                end: range.end as int,
                help: match help {
                    Some(h) => Some(h@),
                    None => None,
                },
            }),
    {
        let mut m = String::from_str("Expected '");
        m.append(expected);
        m.append("', got '");
        m.append(got);
        m.append("'");
        ClueError::error(m, line, column, range, help)
    }

    /// Builds the standard "expected X before Y" error record.
    pub fn expected_before(
        expected: &str,
        before: &str,
        line: usize,
        column: usize,
        range: core::ops::Range<usize>,
        help: Option<String>,
    ) -> (r: Self)
        ensures
            r@ == (SpecDiag {
                kind: ClueErrorKind::Error,
                message: expected_before_msg(expected@, before@),
                line: line as int,
                column: column as int,
                start: range.start as int,
                end: range.end as int,
                help: match help {
                    Some(h) => Some(h@),
                    None => None,
                },
            }),
    {
        let mut m = String::from_str("Expected '");
        m.append(expected);
        m.append("' before '");
        m.append(before);
        m.append("'");
        ClueError::error(m, line, column, range, help)
    }
}

/// The message of an "expected X, got Y" diagnostic.
pub open spec fn expected_msg(expected: Seq<char>, got: Seq<char>) -> Seq<char> {
    "Expected '"@ + expected + "', got '"@ + got + "'"@
}

/// The message of an "expected X before Y" diagnostic.
pub open spec fn expected_before_msg(expected: Seq<char>, before: Seq<char>) -> Seq<char> {
    "Expected '"@ + expected + "' before '"@ + before + "'"@
}


/// The replacement of one message character in the rendered report: control
/// characters become literal placeholders so messages stay single-line.
pub open spec fn esc_char(c: char) -> Seq<char> {
    if c == '\n' {
        "<new line>"@
    } else if c == '\t' {
        "<tab>"@
    } else {
        seq![c]
    }
}

/// A message with its control characters escaped.
pub open spec fn esc_msg(m: Seq<char>) -> Seq<char>
    decreases m.len(),
{
    if m.len() == 0 {
        Seq::empty()
    } else {
        esc_char(m[0]) + esc_msg(m.skip(1))
    }
}

/// Escapes the control characters of a message.
pub fn escape_message(m: &String) -> (r: String)
    ensures
        r@ == esc_msg(m@),
{
    let ms = m.as_str();
    let n = ms.unicode_len();
    let mut r = String::new();
    let mut i: usize = 0;
    proof {
        assert(m@.subrange(0, n as int) =~= m@);
        assert(Seq::<char>::empty() + esc_msg(m@) =~= esc_msg(m@));
    }
    while i < n
        invariant
            i <= n,
            n == m@.len(),
            ms@ == m@,
            esc_msg(m@) == r@ + esc_msg(m@.subrange(i as int, n as int)),
        decreases n - i,
    {
        let c = ms.get_char(i);
        let ghost r0 = r@;
        let ghost w = m@.subrange(i as int, n as int);
        proof {
            assert(w[0] == m@[i as int]);
            assert(w.skip(1) =~= m@.subrange(i + 1, n as int));
        }
        if c == '\n' {
            r.append("<new line>");
        } else if c == '\t' {
            r.append("<tab>");
        } else {
            push_char(&mut r, c);
            proof {
                assert(r@ =~= r0 + seq![c]);
            }
        }
        i = i + 1;
        proof {
            assert(r@ =~= r0 + esc_char(c));
            assert(esc_msg(w) == esc_char(c) + esc_msg(m@.subrange(i as int, n as int)));
            assert(r0 + (esc_char(c) + esc_msg(m@.subrange(i as int, n as int))) =~= (r0
                + esc_char(c)) + esc_msg(m@.subrange(i as int, n as int)));
        }
    }
    proof {
        assert(esc_msg(m@.subrange(n as int, n as int)) =~= Seq::<char>::empty());
        assert(r@ + Seq::<char>::empty() =~= r@);
    }
    r
}

/// The index after the last line break strictly before `p`.
pub open spec fn line_start_at(s: Seq<char>, p: int) -> int
    decreases p,
{
    if p <= 0 {
        0
    } else if 0 <= p - 1 < s.len() && s[p - 1] == '\n' {
        p
    } else {
        line_start_at(s, p - 1)
    }
}

/// The index of the first line break at or after `p`, or the input length.
pub open spec fn line_end_at(s: Seq<char>, p: int) -> int
    decreases s.len() - p,
{
    if !(0 <= p < s.len()) {
        s.len() as int
    } else if s[p] == '\n' {
        p
    } else {
        line_end_at(s, p + 1)
    }
}

/// A sequence with its leading whitespace removed.
pub open spec fn trim_start_sp(w: Seq<char>) -> Seq<char>
    decreases w.len(),
{
    if w.len() > 0 && is_space_char(w[0]) {
        trim_start_sp(w.skip(1))
    } else {
        w
    }
}

/// A sequence with its trailing whitespace removed.
pub open spec fn trim_end_sp(w: Seq<char>) -> Seq<char>
    decreases w.len(),
{
    if w.len() > 0 && is_space_char(w[w.len() - 1]) {
        trim_end_sp(w.drop_last())
    } else {
        w
    }
}

/// The rest of the errored line before the span, leading whitespace trimmed.
pub open spec fn before_ctx(code: Seq<char>, start: int) -> Seq<char> {
    trim_start_sp(code.subrange(line_start_at(code, start), start))
}

/// The rest of the errored line after the span, trailing whitespace trimmed.
pub open spec fn after_ctx(code: Seq<char>, end: int) -> Seq<char> {
    trim_end_sp(code.subrange(end, line_end_at(code, end)))
}

/// Extracts the line fragment before index `p`, leading whitespace trimmed.
pub fn before_context(code: &Vec<char>, p: usize) -> (r: String)
    requires
        p <= code@.len(),
    ensures
        r@ == before_ctx(code@, p as int),
{
    let mut a: usize = p;
    while a > 0 && code[a - 1] != '\n'
        invariant
            a <= p <= code@.len(),
            line_start_at(code@, p as int) == line_start_at(code@, a as int),
        decreases a,
    {
        a = a - 1;
    }
    let mut b: usize = a;
    while b < p && is_space(code[b])
        invariant
            a <= b <= p <= code@.len(),
            trim_start_sp(code@.subrange(a as int, p as int)) == trim_start_sp(
                code@.subrange(b as int, p as int),
            ),
        decreases p - b,
    {
        proof {
            let w = code@.subrange(b as int, p as int);
            if w.len() > 0 {
                assert(w[0] == code@[b as int]);
                assert(w.skip(1) =~= code@.subrange(b + 1, p as int));
            }
        }
        b = b + 1;
    }
    proof {
        let w = code@.subrange(b as int, p as int);
        if w.len() > 0 {
            assert(w[0] == code@[b as int]);
        }
        assert(trim_start_sp(w) =~= w);
    }
    substr(code, b, p)
}

/// Extracts the line fragment after index `p`, trailing whitespace trimmed.
pub fn after_context(code: &Vec<char>, p: usize) -> (r: String)
    requires
        p <= code@.len(),
    ensures
        r@ == after_ctx(code@, p as int),
{
    let n = code.len();
    let mut b: usize = p;
    while b < n && code[b] != '\n'
        invariant
            p <= b <= n,
            n == code@.len(),
            line_end_at(code@, p as int) == line_end_at(code@, b as int),
        decreases n - b,
    {
        b = b + 1;
    }
    let mut e: usize = b;
    while e > p && is_space(code[e - 1])
        invariant
            p <= e <= b <= code@.len(),
            trim_end_sp(code@.subrange(p as int, b as int)) == trim_end_sp(
                code@.subrange(p as int, e as int),
            ),
        decreases e,
    {
        proof {
            let w = code@.subrange(p as int, e as int);
            if w.len() > 0 {
                assert(w[w.len() - 1] == code@[e - 1]);
                assert(w.drop_last() =~= code@.subrange(p as int, e - 1));
            }
        }
        e = e - 1;
    }
    proof {
        let w = code@.subrange(p as int, e as int);
        if w.len() > 0 {
            assert(w[w.len() - 1] == code@[e - 1]);
        }
        assert(trim_end_sp(w) =~= w);
    }
    substr(code, p, e)
}

/// The start of a diagnostic's span, clamped into the source.
pub open spec fn clamp_start(code: Seq<char>, start: int) -> int {
    if start <= code.len() {
        start
    } else {
        code.len() as int
    }
}

/// The end of a diagnostic's span, clamped between its start and the source's
/// end.
pub open spec fn clamp_end(code: Seq<char>, start: int, end: int) -> int {
    if end < clamp_start(code, start) {
        clamp_start(code, start)
    } else if end <= code.len() {
        end
    } else {
        code.len() as int
    }
}

/// Clamps a diagnostic's span into the source and extracts its context
/// window: the rest of the errored line before the span, the spanned source
/// text itself, and the rest of the line after it.
pub fn context_window(code: &Vec<char>, start: usize, end: usize) -> (r: (String, String, String))
    ensures
        ({
            let st = clamp_start(code@, start as int);
            let en = clamp_end(code@, start as int, end as int);
            r.0@ == before_ctx(code@, st) && r.1@ == code@.subrange(st, en) && r.2@ == after_ctx(
                code@,
                en,
            )
        }),
{
    let n = code.len();
    let st = if start < n {
        start
    } else {
        n
    };
    let en = if end < st {
        st
    } else if end < n {
        end
    } else {
        n
    };
    let before = before_context(code, st);
    let span = substr(code, st, en);
    let after = after_context(code, en);
    (before, span, after)
}

/// The visual rule that separates every diagnostic after the first.
pub open spec fn separator() -> Seq<char> {
    "\n----------------------------------\n\n"@
}

/// The exact text of a rendered diagnostic report.
///
/// `sev` is the (possibly styled) severity label, `help_label` the (possibly
/// styled) help label, and `ctx` the before / styled-span / after context
/// fragments when the source text is available.
pub open spec fn render_spec(
    filename: Seq<char>,
    sev: Seq<char>,
    help_label: Seq<char>,
    e: SpecDiag,
    ctx: Option<(Seq<char>, Seq<char>, Seq<char>)>,
    first: bool,
) -> Seq<char> {
    let header = (if first {
        Seq::<char>::empty()
    } else {
        separator()
    }) + sev + " in "@ + filename + ":"@ + dec_repr(e.line as nat) + ":"@ + dec_repr(
        e.column as nat,
    ) + "!"@;
    let full = sev + ": "@ + esc_msg(e.message) + (match e.help {
        Some(h) => "\n"@ + help_label + ": "@ + h,
        None => Seq::<char>::empty(),
    });
    match ctx {
        Some((before, span, after)) => header + "\n\n"@ + before + span + after + "\n\n"@
            + full,
        None => header + "\n"@ + full,
    }
}

/// Renders one diagnostic report from its parts.
pub fn render_report(
    filename: &str,
    sev: &str,
    help_label: &str,
    e: &ClueError,
    ctx: Option<(String, String, String)>,
    first: bool,
) -> (r: String)
    ensures
        r@ == render_spec(
            filename@,
            sev@,
            help_label@,
            e@,
            match ctx {
                Some(c) => Some((c.0@, c.1@, c.2@)),
                None => None,
            },
            first,
        ),
{
    let mut r = String::new();
    if !first {
        r.append("\n----------------------------------\n\n");
    }
    r.append(sev);
    r.append(" in ");
    r.append(filename);
    r.append(":");
    let ln = usize_to_string(e.line());
    r.append(ln.as_str());
    r.append(":");
    let cl = usize_to_string(e.column());
    r.append(cl.as_str());
    r.append("!");
    let mut full = String::new();
    full.append(sev);
    full.append(": ");
    let em = escape_message(e.message());
    full.append(em.as_str());
    match e.help() {
        Some(h) => {
            let hc = h.clone();
            full.append("\n");
            full.append(help_label);
            full.append(": ");
            full.append(hc.as_str());
        },
        None => {},
    }
    match ctx {
        Some(c) => {
            r.append("\n\n");
            r.append(c.0.as_str());
            r.append(c.1.as_str());
            r.append(c.2.as_str());
            r.append("\n\n");
            r.append(full.as_str());
        },
        None => {
            r.append("\n");
            r.append(full.as_str());
        },
    }
    proof {
        assert(Seq::<char>::empty() + separator() =~= separator());
    }
    r
}

/// Relies on `colored::Colorize::red` / `bold` and `ColoredString`'s
/// `Display`: styles the error severity label for terminals. What comes back
/// depends on the terminal and environment, so nothing is stated of it.
#[verifier::external_body]
pub fn error_label() -> String {
    "Error".red().bold().to_string()
}

/// Relies on `colored::Colorize::yellow` / `bold` and `ColoredString`'s
/// `Display`: styles the warning severity label for terminals.
#[verifier::external_body]
pub fn warning_label() -> String {
    "Warning".yellow().bold().to_string()
}

/// Relies on `colored::Colorize::cyan` / `bold` and `ColoredString`'s
/// `Display`: styles the help label for terminals.
#[verifier::external_body]
pub fn help_label() -> String {
    "Help".cyan().bold().to_string()
}

/// Relies on `colored::Colorize::red` / `underline` and `ColoredString`'s
/// `Display`: underlines the errored source span for terminals.
#[verifier::external_body]
pub fn style_span(s: &str) -> String {
    s.red().underline().to_string()
}

/// Relies on `std::io::Stderr`: writes one report to the diagnostic sink (the
/// standard error stream), never to the compiled output stream.
#[verifier::external_body]
fn emit_stderr(report: &str) {
    let _ = writeln!(std::io::stderr(), "{}", report);
}

/// The diagnostic contract every failing stage exposes: emit error or warning
/// records, know your own display name, and know whether a report is the
/// run's first. The provided methods build, render and emit the report.
pub trait ErrorMessaging {
    /// The display name of the compilation unit.
    fn get_filename(&self) -> String;

    /// Bumps the diagnostic tally (the error tally too when `error` holds)
    /// and reports whether this is the run's first diagnostic.
    fn is_first(&mut self, error: bool) -> bool;

    /// The source text the spans of diagnostics point into, if available.
    fn code_chars(&self) -> Option<&Vec<char>>;

    /// Hands one rendered report to the diagnostic sink.
    fn emit(&mut self, report: String);

    /// Renders the record in context and emits it.
    fn send(&mut self, e: ClueError) {
        let first = self.is_first(e.kind() == ClueErrorKind::Error);
        let sev = if e.kind() == ClueErrorKind::Error {
            error_label()
        } else {
            warning_label()
        };
        let hl = help_label();
        let filename = self.get_filename();
        let ctx: Option<(String, String, String)> = match self.code_chars() {
            Some(chars) => {
                let (before, span, after) = context_window(chars, e.start(), e.end());
                Some((before, style_span(span.as_str()), after))
            },
            None => None,
        };
        let report = render_report(filename.as_str(), sev.as_str(), hl.as_str(), &e, ctx, first);
        self.emit(report);
    }

    /// Builds and sends an error record.
    fn error(
        &mut self,
        message: String,
        line: usize,
        column: usize,
        range: core::ops::Range<usize>,
        help: Option<String>,
    ) {
        self.send(ClueError::error(message, line, column, range, help));
    }

    /// Builds and sends a warning record.
    fn warning(
        &mut self,
        message: String,
        line: usize,
        column: usize,
        range: core::ops::Range<usize>,
        help: Option<String>,
    ) {
        self.send(ClueError::warning(message, line, column, range, help));
    }

    /// Builds and sends an "expected X, got Y" error.
    fn expected(
        &mut self,
        expected: &str,
        got: &str,
        line: usize,
        column: usize,
        range: core::ops::Range<usize>,
        help: Option<String>,
    ) {
        self.send(ClueError::expected(expected, got, line, column, range, help));
    }

    /// Builds and sends an "expected X before Y" error.
    fn expected_before(
        &mut self,
        expected: &str,
        before: &str,
        line: usize,
        column: usize,
        range: core::ops::Range<usize>,
        help: Option<String>,
    ) {
        self.send(ClueError::expected_before(expected, before, line, column, range, help));
    }
}

/// The reporting state of one compilation run: the display name, the source
/// text for context windows, and the diagnostic tallies.
pub struct Reporter {
    /// The display name of the compilation unit.
    pub filename: String,
    /// The source text, when the provider could supply it.
    pub code: Option<Vec<char>>,
    /// How many diagnostics were sent.
    pub total: usize,
    /// How many of them were errors.
    pub errors: usize,
}

impl ErrorMessaging for Reporter {
    /// The run's display name, unchanged.
    fn get_filename(&self) -> (r: String)
        ensures
            r@ == self.filename@,
    {
        self.filename.clone()
    }

    /// Bumps the diagnostic tally by one (saturating), the error tally too
    /// when the record is an error — a warning never increments it — and
    /// reports whether this is the run's first diagnostic of any severity.
    fn is_first(&mut self, error: bool) -> (r: bool)
        ensures
            final(self).total as int == if old(self).total < usize::MAX {
                old(self).total + 1
            } else {
                old(self).total as int
            },
            final(self).errors as int == if error && old(self).errors < usize::MAX {
                old(self).errors + 1
            } else {
                old(self).errors as int
            },
            r == (final(self).total == 1),
            final(self).filename == old(self).filename,
            final(self).code == old(self).code,
    {
        if self.total < usize::MAX {
            self.total = self.total + 1;
        }
        if error && self.errors < usize::MAX {
            self.errors = self.errors + 1;
        }
        self.total == 1
    }

    fn code_chars(&self) -> Option<&Vec<char>> {
        match &self.code {
            Some(v) => Some(v),
            None => None,
        }
    }

    fn emit(&mut self, report: String) {
        emit_stderr(report.as_str());
    }
}

} // verus!
