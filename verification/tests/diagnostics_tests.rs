use clue::error::{
    after_context, before_context, escape_message, render_report, ClueError, ClueErrorKind,
    CodeReader, ErrorMessaging, StringReader,
};
use clue::text::{str_to_chars, substr, usize_to_string};

#[test]
fn error_record_constructors() {
    let e = ClueError::error(String::from("boom"), 3, 7, 10..12, None);
    assert_eq!(e.kind(), ClueErrorKind::Error);
    assert_eq!(e.message(), "boom");
    assert_eq!(e.line(), 3);
    assert_eq!(e.column(), 7);
    assert_eq!(e.start(), 10);
    assert_eq!(e.end(), 12);
    assert!(e.help().is_none());
    let w = ClueError::warning(String::from("odd"), 1, 1, 0..1, Some(String::from("hint")));
    assert_eq!(w.kind(), ClueErrorKind::Warning);
    assert_eq!(w.help().as_deref(), Some("hint"));
    let x = ClueError::new(ClueErrorKind::Error, String::from("m"), 1, 2, 3..4, None);
    assert_eq!(x, ClueError::error(String::from("m"), 1, 2, 3..4, None));
}

#[test]
fn expected_messages() {
    let e = ClueError::expected(")", "<eof>", 1, 2, 0..1, None);
    assert_eq!(e.message(), "Expected ')', got '<eof>'");
    let e = ClueError::expected_before(")", "<eof>", 1, 2, 0..1, None);
    assert_eq!(e.message(), "Expected ')' before '<eof>'");
}

#[test]
fn message_escaping() {
    assert_eq!(escape_message(&String::from("a\nb\tc")), "a<new line>b<tab>c");
    assert_eq!(escape_message(&String::from("plain")), "plain");
}

#[test]
fn decimal_formatting() {
    assert_eq!(usize_to_string(0), "0");
    assert_eq!(usize_to_string(7), "7");
    assert_eq!(usize_to_string(90210), "90210");
}

#[test]
fn context_windows() {
    let code = str_to_chars("  before err after  \nnext");
    assert_eq!(before_context(&code, 9), "before ");
    assert_eq!(after_context(&code, 12), " after");
    assert_eq!(substr(&code, 9, 12), "err");
}

#[test]
fn report_rendering_with_context() {
    let e = ClueError::error(String::from("bad\nthing"), 2, 5, 9..12, None);
    let r = render_report(
        "main.clue",
        "Error",
        "Help",
        &e,
        Some((String::from("before "), String::from("err"), String::from(" after"))),
        true,
    );
    assert_eq!(
        r,
        "Error in main.clue:2:5!\n\nbefore err after\n\nError: bad<new line>thing"
    );
}

#[test]
fn report_rendering_without_context_and_with_help() {
    let e = ClueError::error(String::from("bad"), 1, 2, 0..1, Some(String::from("try this")));
    let r = render_report("x.clue", "Error", "Help", &e, None, true);
    assert_eq!(r, "Error in x.clue:1:2!\nError: bad\nHelp: try this");
    let r2 = render_report("x.clue", "Error", "Help", &e, None, false);
    assert_eq!(
        r2,
        "\n----------------------------------\n\nError in x.clue:1:2!\nError: bad\nHelp: try this"
    );
}

#[test]
fn string_reader_provides_code_and_name() {
    let r = StringReader::new(String::from("local x"));
    assert_eq!(r.get_code().unwrap(), "local x");
    assert_eq!(r.get_filename(), "<code>");
}

struct Collector {
    code: Option<Vec<char>>,
    total: usize,
    errors: usize,
    reports: Vec<String>,
}

impl ErrorMessaging for Collector {
    fn get_filename(&self) -> String {
        String::from("unit.clue")
    }

    fn is_first(&mut self, error: bool) -> bool {
        self.total += 1;
        if error {
            self.errors += 1;
        }
        self.total == 1
    }

    fn code_chars(&self) -> Option<&Vec<char>> {
        self.code.as_ref()
    }

    fn emit(&mut self, report: String) {
        self.reports.push(report);
    }
}

#[test]
fn error_messaging_renders_in_context() {
    let mut c = Collector {
        code: Some(str_to_chars("local bad = 1")),
        total: 0,
        errors: 0,
        reports: Vec::new(),
    };
    c.error(String::from("no good"), 1, 7, 6..9, None);
    c.warning(String::from("meh"), 1, 1, 0..5, None);
    assert_eq!(c.reports.len(), 2);
    assert_eq!(c.errors, 1);
    assert!(c.reports[0].contains("in unit.clue:1:7!"));
    assert!(c.reports[0].contains(": no good"));
    assert!(c.reports[0].contains("local "));
    assert!(c.reports[0].contains(" = 1"));
    assert!(!c.reports[0].starts_with('\n'));
    assert!(c.reports[1].starts_with("\n----------------------------------\n\n"));
    // the convenience senders format the standard messages
    c.expected(")", "<eof>", 1, 1, 0..1, None);
    assert!(c.reports[2].contains("Expected ')', got '<eof>'"));
    c.expected_before(")", "<eof>", 1, 1, 0..1, None);
    assert!(c.reports[3].contains("Expected ')' before '<eof>'"));
}
