//! Diagnostics of the Qi checker: reports per file, their counts, positions
//! from byte offsets, and the human-readable text.
//!
//! Parsing and semantic analysis are done by the Qi compiler outside this
//! library; what it reports arrives here as an [`AnalysisOutcome`].

use crate::text::{decimal, push_char, push_decimal, to_chars};
use vstd::prelude::*;

verus! {

/// Severity of a diagnostic.
#[derive(Debug, Clone, Copy, PartialEq, Eq, Structural)]
pub enum Severity {
    Error,
    Warning,
}

/// One diagnostic of a checked file.
#[derive(Debug, Clone)]
pub struct Diagnostic {
    pub file: String,
    pub line: usize,
    pub column: usize,
    pub severity: Severity,
    pub message: String,
}

/// The diagnostics of one file.
#[derive(Debug, Clone)]
pub struct FileReport {
    pub file: String,
    pub diagnostics: Vec<Diagnostic>,
}

/// Number of diagnostics of severity `sev` in `ds`.
pub open spec fn count_severity(ds: Seq<Diagnostic>, sev: Severity) -> nat
    decreases ds.len(),
{
    if ds.len() == 0 {
        0
    } else {
        count_severity(ds.drop_last(), sev) + if ds.last().severity == sev {
            1nat
        } else {
            0nat
        }
    }
}

fn count(ds: &Vec<Diagnostic>, sev: Severity) -> (n: usize)
    ensures
        n == count_severity(ds@, sev),
{
    let mut n: usize = 0;
    let mut i: usize = 0;
    while i < ds.len()
        invariant
            i <= ds.len(),
            n == count_severity(ds@.take(i as int), sev),
            n <= i,
        decreases ds.len() - i,
    {
        proof {
            assert(ds@.take(i + 1).drop_last() == ds@.take(i as int));
        }
        if ds[i].severity == sev {
            n += 1;
        }
        i += 1;
    }
    assert(ds@.take(ds.len() as int) == ds@);
    n
}

impl FileReport {
    /// Whether some diagnostic is an error.
    pub fn has_errors(&self) -> (b: bool)
        ensures
            b == exists|i: int|
                0 <= i < self.diagnostics@.len() && #[trigger] self.diagnostics@[i].severity
                    == Severity::Error,
    {
        let mut i: usize = 0;
        while i < self.diagnostics.len()
            invariant
                i <= self.diagnostics.len(),
                forall|j: int| 0 <= j < i ==> #[trigger] self.diagnostics@[j].severity
                    != Severity::Error,
            decreases self.diagnostics.len() - i,
        {
            if self.diagnostics[i].severity == Severity::Error {
                return true;
            }
            i += 1;
        }
        false
    }

    /// Number of errors.
    pub fn error_count(&self) -> (n: usize)
        ensures
            n == count_severity(self.diagnostics@, Severity::Error),
    {
        count(&self.diagnostics, Severity::Error)
    }

    /// Number of warnings.
    pub fn warning_count(&self) -> (n: usize)
        ensures
            n == count_severity(self.diagnostics@, Severity::Warning),
    {
        count(&self.diagnostics, Severity::Warning)
    }
}

/// Every diagnostic is an error or a warning.
pub proof fn lemma_counts_add_up(report: FileReport)
    ensures
        count_severity(report.diagnostics@, Severity::Error) + count_severity(
            report.diagnostics@,
            Severity::Warning,
        ) == report.diagnostics@.len(),
{
    lemma_counts_add_up_seq(report.diagnostics@);
}

proof fn lemma_counts_add_up_seq(ds: Seq<Diagnostic>)
    ensures
        count_severity(ds, Severity::Error) + count_severity(ds, Severity::Warning) == ds.len(),
    decreases ds.len(),
{
    if ds.len() > 0 {
        lemma_counts_add_up_seq(ds.drop_last());
    }
}

/// A report has errors exactly when its error count is not zero.
pub proof fn lemma_has_errors_iff_count(report: FileReport)
    ensures
        (exists|i: int|
            0 <= i < report.diagnostics@.len() && #[trigger] report.diagnostics@[i].severity
                == Severity::Error) <==> count_severity(report.diagnostics@, Severity::Error) > 0,
{
    lemma_count_positive(report.diagnostics@, Severity::Error);
}

proof fn lemma_count_positive(ds: Seq<Diagnostic>, sev: Severity)
    ensures
        (exists|i: int| 0 <= i < ds.len() && #[trigger] ds[i].severity == sev) <==> count_severity(
            ds,
            sev,
        ) > 0,
    decreases ds.len(),
{
    if ds.len() > 0 {
        lemma_count_positive(ds.drop_last(), sev);
        if exists|i: int| 0 <= i < ds.len() && #[trigger] ds[i].severity == sev {
            let i = choose|i: int| 0 <= i < ds.len() && #[trigger] ds[i].severity == sev;
            if i < ds.len() - 1 {
                assert(ds.drop_last()[i].severity == sev);
            }
        }
        if exists|i: int| 0 <= i < ds.drop_last().len() && #[trigger] ds.drop_last()[i].severity
            == sev {
            let i = choose|i: int|
                0 <= i < ds.drop_last().len() && #[trigger] ds.drop_last()[i].severity == sev;
            assert(ds[i].severity == sev);
        }
        if ds.last().severity == sev {
            assert(ds[ds.len() - 1].severity == sev);
        }
    }
}

/// Bytes of the UTF-8 encoding of `c` (`char::len_utf8`).
pub open spec fn utf8_width(c: char) -> nat {
    let u = c as u32;
    if u < 0x80 {
        1
    } else if u < 0x800 {
        2
    } else if u < 0x10000 {
        3
    } else {
        4
    }
}

fn len_utf8(c: char) -> (n: usize)
    ensures
        n == utf8_width(c),
{
    let u = c as u32;
    if u < 0x80 {
        1
    } else if u < 0x800 {
        2
    } else if u < 0x10000 {
        3
    } else {
        4
    }
}

/// Line and column reached from position `i` of `cs` by walking on while
/// fewer than `offset` bytes have been passed; a line feed starts a new line
/// at column 1, any other character moves one column on.
pub open spec fn line_col_from(
    cs: Seq<char>,
    i: int,
    offset: nat,
    line: nat,
    col: nat,
    seen: nat,
) -> (nat, nat)
    decreases cs.len() - i,
{
    if i < 0 || i >= cs.len() || seen >= offset {
        (line, col)
    } else if cs[i] == '\n' {
        line_col_from(cs, i + 1, offset, line + 1, 1, seen + utf8_width(cs[i]))
    } else {
        line_col_from(cs, i + 1, offset, line, col + 1, seen + utf8_width(cs[i]))
    }
}

/// The 1-based line and column (in characters) of byte offset `offset` of `cs`;
/// past the end, the position after the last character.
pub open spec fn line_col(cs: Seq<char>, offset: nat) -> (nat, nat) {
    line_col_from(cs, 0, offset, 1, 1, 0)
}

/// Bytes of the UTF-8 encoding of the characters `s`.
pub open spec fn utf8_bytes(s: Seq<char>) -> nat
    decreases s.len(),
{
    if s.len() == 0 {
        0
    } else {
        utf8_bytes(s.drop_last()) + utf8_width(s.last())
    }
}

/// Number of line feeds in `s`.
pub open spec fn newline_count(s: Seq<char>) -> nat
    decreases s.len(),
{
    if s.len() == 0 {
        0
    } else {
        newline_count(s.drop_last()) + if s.last() == '\n' {
            1nat
        } else {
            0nat
        }
    }
}

/// Number of characters of `s` after its last line feed (all of them when
/// it has none).
pub open spec fn chars_after_newline(s: Seq<char>) -> nat
    decreases s.len(),
{
    if s.len() == 0 {
        0
    } else if s.last() == '\n' {
        0
    } else {
        chars_after_newline(s.drop_last()) + 1
    }
}

proof fn lemma_line_col_from_counts(cs: Seq<char>, i: int, offset: nat)
    requires
        0 <= i <= cs.len(),
        forall|m: int| 0 <= m < i ==> #[trigger] utf8_bytes(cs.take(m)) < offset,
    ensures
        exists|n: int|
            #![trigger cs.take(n)]
            {
                &&& i <= n <= cs.len()
                &&& forall|m: int| 0 <= m < n ==> #[trigger] utf8_bytes(cs.take(m)) < offset
                &&& (n == cs.len() || utf8_bytes(cs.take(n)) >= offset)
                &&& line_col_from(
                    cs,
                    i,
                    offset,
                    1 + newline_count(cs.take(i)),
                    1 + chars_after_newline(cs.take(i)),
                    utf8_bytes(cs.take(i)),
                ) == (1 + newline_count(cs.take(n)), 1 + chars_after_newline(cs.take(n)))
            },
    decreases cs.len() - i,
{
    if i == cs.len() || utf8_bytes(cs.take(i)) >= offset {
        assert(cs.take(i) == cs.take(i));
    } else {
        let t = cs.take(i + 1);
        assert(t.drop_last() == cs.take(i));
        assert(t.last() == cs[i]);
        assert forall|m: int| 0 <= m < i + 1 implies #[trigger] utf8_bytes(cs.take(m)) < offset by {
            if m < i {
                assert(utf8_bytes(cs.take(m)) < offset);
            }
        }
        lemma_line_col_from_counts(cs, i + 1, offset);
    }
}

/// Where a byte offset lands: the walk passes the first `n` characters, `n`
/// being the first count of characters whose bytes reach the offset (or all
/// of them); the line is one more than the line feeds among them, and the
/// column one more than the characters after the last of those line feeds.
pub proof fn lemma_line_col_counts(cs: Seq<char>, offset: nat)
    ensures
        exists|n: int|
            #![trigger cs.take(n)]
            {
                &&& 0 <= n <= cs.len()
                &&& forall|m: int| 0 <= m < n ==> #[trigger] utf8_bytes(cs.take(m)) < offset
                &&& (n == cs.len() || utf8_bytes(cs.take(n)) >= offset)
                &&& line_col(cs, offset) == (1 + newline_count(cs.take(n)), 1 + chars_after_newline(cs.take(n)))
            },
{
    assert(cs.take(0) == Seq::<char>::empty());
    lemma_line_col_from_counts(cs, 0, offset);
}

/// The line and column of a byte offset of `source`.
fn offset_to_line_col(source: &Vec<char>, offset: usize) -> (r: (usize, usize))
    requires
        source@.len() < usize::MAX,
    ensures
        (r.0 as nat, r.1 as nat) == line_col(source@, offset as nat),
{
    let mut line: usize = 1;
    let mut col: usize = 1;
    let mut seen: usize = 0;
    let mut i: usize = 0;
    while i < source.len() && seen < offset
        invariant
            i <= source@.len() < usize::MAX,
            1 <= line <= i + 1,
            1 <= col <= i + 1,
            seen <= offset,
            line_col_from(source@, i as int, offset as nat, line as nat, col as nat, seen as nat)
                == line_col(source@, offset as nat),
        decreases source.len() - i,
    {
        let c = source[i];
        let w = len_utf8(c);
        let ghost l2: nat = if c == '\n' { (line + 1) as nat } else { line as nat };
        let ghost c2: nat = if c == '\n' { 1nat } else { (col + 1) as nat };
        if c == '\n' {
            line = line + 1;
            col = 1;
        } else {
            col = col + 1;
        }
        if w >= offset - seen {
            proof {
                assert(line_col_from(source@, i + 1, offset as nat, l2, c2, (seen + w) as nat) == (
                    l2,
                    c2,
                ));
                assert(line_col_from(source@, i + 1, offset as nat, l2, c2, offset as nat) == (
                    l2,
                    c2,
                ));
            }
            seen = offset;
        } else {
            seen = seen + w;
        }
        i += 1;
    }
    (line, col)
}

/// Where the compiler's syntax errors are placed (their message carries no
/// usable position): line 1, column 1.
fn extract_position(_error: &str, _source: &str) -> (r: (usize, usize))
    ensures
        r == (1usize, 1usize),
{
    (1, 1)
}

/// Level of a diagnostic of the Qi compiler.
#[derive(Debug, Clone, Copy, PartialEq, Eq, Structural)]
pub enum CompilerLevel {
    Error,
    Warning,
    Info,
}

/// A diagnostic of the Qi compiler's semantic analysis.
#[derive(Debug, Clone)]
pub struct CompilerDiagnostic {
    /// Byte offset where the diagnostic's span starts, if it has one.
    pub span_start: Option<usize>,
    pub level: CompilerLevel,
    pub message: String,
}

/// What the Qi compiler reported for a source text.
#[derive(Debug, Clone)]
pub enum AnalysisOutcome {
    /// The parser rejected the text, with this message.
    SyntaxError(String),
    /// The text parsed; the analyzer's diagnostics, and its failure message if it failed.
    Analyzed { diagnostics: Vec<CompilerDiagnostic>, failure: Option<String> },
}

/// Errors stay errors; warnings and notes become warnings.
pub open spec fn severity_of(level: CompilerLevel) -> Severity {
    match level {
        CompilerLevel::Error => Severity::Error,
        _ => Severity::Warning,
    }
}

/// The checker's diagnostic for a compiler diagnostic of `source`: placed at
/// the line and column of its span's start, or at 0:0 without a span.
pub open spec fn converted(file: Seq<char>, source: Seq<char>, d: CompilerDiagnostic, out: Diagnostic) -> bool {
    &&& out.file@ == file
    &&& out.severity == severity_of(d.level)
    &&& out.message@ == d.message@
    &&& match d.span_start {
        Some(off) => (out.line as nat, out.column as nat) == line_col(source, off as nat),
        None => out.line == 0 && out.column == 0,
    }
}

/// The diagnostics the checker reports for `source` (in file `file`) from what
/// the compiler said: a syntax error becomes one error at 1:1 with message
/// `语法错误: ...`; otherwise each compiler diagnostic in order, and, when the
/// analysis failed without any diagnostic, one error at 0:0 with message
/// `语义错误: ...`.
pub open spec fn reported(
    file: Seq<char>,
    source: Seq<char>,
    outcome: AnalysisOutcome,
    out: Seq<Diagnostic>,
) -> bool {
    match outcome {
        AnalysisOutcome::SyntaxError(msg) => {
            &&& out.len() == 1
            &&& out[0].file@ == file
            &&& out[0].line == 1 && out[0].column == 1
            &&& out[0].severity == Severity::Error
            &&& out[0].message@ == "语法错误: "@ + msg@
        },
        AnalysisOutcome::Analyzed { diagnostics, failure } => {
            let n = diagnostics@.len();
            &&& forall|i: int|
                0 <= i < n ==> converted(file, source, #[trigger] diagnostics@[i], out[i])
            &&& match failure {
                Some(msg) if n == 0 => {
                    &&& out.len() == 1
                    &&& out[0].file@ == file
                    &&& out[0].line == 0 && out[0].column == 0
                    &&& out[0].severity == Severity::Error
                    &&& out[0].message@ == "语义错误: "@ + msg@
                },
                _ => out.len() == n,
            }
        },
    }
}

fn copy_string(s: &String) -> (r: String)
    ensures
        r@ == s@,
{
    s.clone()
}

/// The report of `file` (with text `source`) for what the compiler said.
pub fn check_report(file: &str, source: &str, outcome: &AnalysisOutcome) -> (r: FileReport)
    requires
        source@.len() < usize::MAX,
    ensures
        r.file@ == file@,
        reported(file@, source@, *outcome, r.diagnostics@),
{
    let mut diagnostics: Vec<Diagnostic> = Vec::new();
    match outcome {
        AnalysisOutcome::SyntaxError(msg) => {
            let (line, column) = extract_position(msg.as_str(), source);
            let mut message = String::from_str("语法错误: ");
            message.append(msg.as_str());
            diagnostics.push(
                Diagnostic {
                    file: String::from_str(file),
                    line,
                    column,
                    severity: Severity::Error,
                    message,
                },
            );
        },
        AnalysisOutcome::Analyzed { diagnostics: found, failure } => {
            let chars = to_chars(source);
            let mut i: usize = 0;
            while i < found.len()
                invariant
                    i <= found@.len(),
                    diagnostics@.len() == i,
                    chars@ == source@,
                    source@.len() < usize::MAX,
                    forall|j: int|
                        0 <= j < i ==> converted(file@, source@, #[trigger] found@[j], diagnostics@[j]),
                decreases found.len() - i,
            {
                let d = &found[i];
                let (line, column) = match d.span_start {
                    Some(off) => offset_to_line_col(&chars, off),
                    None => (0, 0),
                };
                let severity = match d.level {
                    CompilerLevel::Error => Severity::Error,
                    CompilerLevel::Warning => Severity::Warning,
                    CompilerLevel::Info => Severity::Warning,
                };
                diagnostics.push(
                    Diagnostic {
                        file: String::from_str(file),
                        line,
                        column,
                        severity,
                        message: copy_string(&d.message),
                    },
                );
                i += 1;
            }
            match failure {
                Some(msg) => {
                    if diagnostics.len() == 0 {
                        let mut message = String::from_str("语义错误: ");
                        message.append(msg.as_str());
                        diagnostics.push(
                            Diagnostic {
                                file: String::from_str(file),
                                line: 0,
                                column: 0,
                                severity: Severity::Error,
                                message,
                            },
                        );
                    }
                },
                None => {},
            }
        },
    }
    FileReport { file: String::from_str(file), diagnostics }
}

/// The report of a file that could not be read: one error at 0:0 with message
/// `无法读取文件: ` and the reason.
pub fn read_error_report(file: &str, reason: &str) -> (r: FileReport)
    ensures
        r.file@ == file@,
        r.diagnostics@.len() == 1,
        r.diagnostics@[0].file@ == file@,
        r.diagnostics@[0].line == 0 && r.diagnostics@[0].column == 0,
        r.diagnostics@[0].severity == Severity::Error,
        r.diagnostics@[0].message@ == "无法读取文件: "@ + reason@,
{
    let mut message = String::from_str("无法读取文件: ");
    message.append(reason);
    let mut diagnostics: Vec<Diagnostic> = Vec::new();
    diagnostics.push(
        Diagnostic { file: String::from_str(file), line: 0, column: 0, severity: Severity::Error, message },
    );
    FileReport { file: String::from_str(file), diagnostics }
}

/// The word for a severity.
pub open spec fn severity_word(s: Severity) -> Seq<char> {
    match s {
        Severity::Error => "错误"@,
        Severity::Warning => "警告"@,
    }
}

/// `file:line:column: 严重性: message` and a line feed.
pub open spec fn diagnostic_text(d: Diagnostic) -> Seq<char> {
    d.file@ + seq![':'] + decimal(d.line as nat) + seq![':'] + decimal(d.column as nat) + ": "@
        + severity_word(d.severity) + ": "@ + d.message@ + seq!['\n']
}

pub open spec fn diagnostics_text(ds: Seq<Diagnostic>) -> Seq<char>
    decreases ds.len(),
{
    if ds.len() == 0 {
        Seq::empty()
    } else {
        diagnostics_text(ds.drop_last()) + diagnostic_text(ds.last())
    }
}

/// The report as text: `file: 检查通过` when there is nothing to report,
/// otherwise one line per diagnostic.
pub open spec fn human_text(r: FileReport) -> Seq<char> {
    if r.diagnostics@.len() == 0 {
        r.file@ + ": 检查通过\n"@
    } else {
        diagnostics_text(r.diagnostics@)
    }
}

/// The report as human-readable text.
#[verifier::rlimit(40)]
pub fn format_human(report: &FileReport) -> (out: String)
    ensures
        out@ == human_text(*report),
{
    let mut out = String::new();
    if report.diagnostics.len() == 0 {
        out.append(report.file.as_str());
        out.append(": 检查通过\n");
        return out;
    }
    let mut i: usize = 0;
    while i < report.diagnostics.len()
        invariant
            i <= report.diagnostics@.len(),
            out@ == diagnostics_text(report.diagnostics@.take(i as int)),
        decreases report.diagnostics.len() - i,
    {
        let d = &report.diagnostics[i];
        let word = match d.severity {
            Severity::Error => "错误",
            Severity::Warning => "警告",
        };
        out.append(d.file.as_str());
        push_char(&mut out, ':');
        push_decimal(&mut out, d.line);
        push_char(&mut out, ':');
        push_decimal(&mut out, d.column);
        out.append(": ");
        out.append(word);
        out.append(": ");
        out.append(d.message.as_str());
        push_char(&mut out, '\n');
        proof {
            let ds = report.diagnostics@.take(i + 1);
            assert(ds.drop_last() == report.diagnostics@.take(i as int));
            assert(ds.last() == report.diagnostics@[i as int]);
        }
        i += 1;
    }
    assert(report.diagnostics@.take(report.diagnostics.len() as int) == report.diagnostics@);
    out
}

} // verus!
