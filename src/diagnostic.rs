//! Diagnostics: kinds with stable codes, severities, source spans.
use vstd::prelude::*;
use vstd::string::StringExecFns;
use crate::text::str_eq;

verus! {

/// What went wrong; each kind has a stable code.
#[derive(Debug, Clone, Copy, PartialEq, Eq, Structural)]
pub enum DiagnosticKind {
    TableNotFound,
    ColumnNotFound,
    TypeMismatch,
    AmbiguousColumn,
    ColumnCountMismatch,
    ParseError,
    DuplicateDefinition,
}

#[derive(Debug, Clone, Copy, PartialEq, Eq, Structural)]
pub enum Severity {
    Error,
    Warning,
    Info,
}

/// A source location: 1-indexed line and column (0 when unknown), byte
/// offset and length.
#[derive(Debug, Clone, Copy, PartialEq, Eq, Structural)]
pub struct Span {
    pub offset: usize,
    pub length: usize,
    pub line: usize,
    pub column: usize,
}

#[derive(Debug, Clone)]
pub struct Diagnostic {
    pub kind: DiagnosticKind,
    pub severity: Severity,
    pub message: String,
    pub span: Option<Span>,
    pub help: Option<String>,
}

/// A 0-indexed range as editors expect it.
#[derive(Debug, Clone, Copy, PartialEq, Eq, Structural, Default)]
pub struct EditorRange {
    pub start_line: u32,
    pub start_character: u32,
    pub end_line: u32,
    pub end_character: u32,
}

pub open spec fn code_of(kind: DiagnosticKind) -> Seq<char> {
    match kind {
        DiagnosticKind::TableNotFound => "E0001"@,
        DiagnosticKind::ColumnNotFound => "E0002"@,
        DiagnosticKind::TypeMismatch => "E0003"@,
        DiagnosticKind::AmbiguousColumn => "E0004"@,
        DiagnosticKind::ColumnCountMismatch => "E0005"@,
        DiagnosticKind::ParseError => "E0006"@,
        DiagnosticKind::DuplicateDefinition => "W0001"@,
    }
}

impl DiagnosticKind {
    /// The stable code of this kind.
    pub fn code(&self) -> (r: &'static str)
        ensures
            r@ == code_of(*self),
    {
        match self {
            DiagnosticKind::TableNotFound => "E0001",
            DiagnosticKind::ColumnNotFound => "E0002",
            DiagnosticKind::TypeMismatch => "E0003",
            DiagnosticKind::AmbiguousColumn => "E0004",
            DiagnosticKind::ColumnCountMismatch => "E0005",
            DiagnosticKind::ParseError => "E0006",
            DiagnosticKind::DuplicateDefinition => "W0001",
        }
    }
}

impl Span {
    /// A span known only by offset and length.
    pub fn new(offset: usize, length: usize) -> (r: Span)
        ensures
            r == (Span { offset, length, line: 0, column: 0 }),
    {
        Span { offset, length, line: 0, column: 0 }
    }

    /// A span known by line and column.
    pub fn with_location(line: usize, column: usize, length: usize) -> (r: Span)
        ensures
            r == (Span { offset: 0, length, line, column }),
    {
        Span { offset: 0, length, line, column }
    }
}

impl Diagnostic {
    /// An error of the given kind.
    pub fn error(kind: DiagnosticKind, message: &str) -> (r: Diagnostic)
        ensures
            r.kind == kind,
            r.severity == Severity::Error,
            r.message@ == message@,
            r.span is None,
            r.help is None,
    {
        Diagnostic {
            kind,
            severity: Severity::Error,
            message: String::from_str(message),
            span: None,
            help: None,
        }
    }

    /// A warning of the given kind.
    pub fn warning(kind: DiagnosticKind, message: &str) -> (r: Diagnostic)
        ensures
            r.kind == kind,
            r.severity == Severity::Warning,
            r.message@ == message@,
            r.span is None,
            r.help is None,
    {
        Diagnostic {
            kind,
            severity: Severity::Warning,
            message: String::from_str(message),
            span: None,
            help: None,
        }
    }

    /// This diagnostic with a suggestion attached.
    pub fn with_help(self, help: &str) -> (r: Diagnostic)
        ensures
            r.kind == self.kind,
            r.severity == self.severity,
            r.message == self.message,
            r.span == self.span,
            r.help is Some && r.help->0@ == help@,
    {
        Diagnostic { help: Some(String::from_str(help)), ..self }
    }

    /// This diagnostic with a source location attached.
    pub fn with_span(self, span: Span) -> (r: Diagnostic)
        ensures
            r.kind == self.kind,
            r.severity == self.severity,
            r.message == self.message,
            r.span == Some(span),
            r.help == self.help,
    {
        Diagnostic { span: Some(span), ..self }
    }

    /// The stable code of this diagnostic.
    pub fn code(&self) -> (r: &'static str)
        ensures
            r@ == code_of(self.kind),
    {
        self.kind.code()
    }

}

/// The text shown to a user: the message, then the suggestion if any.
pub open spec fn formatted_message(message: Seq<char>, help: Option<Seq<char>>) -> Seq<char> {
    match help {
        Some(h) => message + "\n\nHelp: "@ + h,
        None => message,
    }
}

/// The message of `diag` followed by its suggestion, if it has one.
pub fn format_message(diag: &Diagnostic) -> (r: String)
    ensures
        r@ == formatted_message(
            diag.message@,
            match diag.help {
                Some(h) => Some(h@),
                None => None,
            },
        ),
{
    match &diag.help {
        Some(help) => {
            let mut m = diag.message.clone();
            m.append("\n\nHelp: ");
            m.append(help.as_str());
            m
        },
        None => diag.message.clone(),
    }
}

pub open spec fn to_u32_sat(x: int) -> u32 {
    if x > u32::MAX {
        u32::MAX
    } else {
        x as u32
    }
}

/// The 0-indexed range of a span: one less on each axis, the end `length`
/// characters after the start (each bound saturating at `u32::MAX`). A
/// missing span, or one without a line, gives the empty range at the origin.
pub open spec fn range_of(span: Option<Span>) -> EditorRange {
    match span {
        Some(s) if s.line > 0 => {
            let line = to_u32_sat(s.line - 1);
            let col = to_u32_sat(if s.column > 0 { s.column - 1 } else { 0 });
            EditorRange {
                start_line: line,
                start_character: col,
                end_line: line,
                end_character: to_u32_sat(col + s.length),
            }
        },
        _ => EditorRange { start_line: 0, start_character: 0, end_line: 0, end_character: 0 },
    }
}

fn sat_u32(x: usize) -> (r: u32)
    ensures
        r == to_u32_sat(x as int),
{
    if x as u64 > u32::MAX as u64 {
        u32::MAX
    } else {
        x as u32
    }
}

/// Convert a 1-indexed span to a 0-indexed editor range.
pub fn span_to_range(span: Option<Span>) -> (r: EditorRange)
    ensures
        r == range_of(span),
{
    match span {
        Some(s) if s.line > 0 => {
            let line = sat_u32(s.line - 1);
            let col = sat_u32(if s.column > 0 { s.column - 1 } else { 0 });
            let end = if s.length as u64 >= (u32::MAX - col) as u64 {
                u32::MAX
            } else {
                col + s.length as u32
            };
            EditorRange { start_line: line, start_character: col, end_line: line, end_character: end }
        },
        _ => EditorRange { start_line: 0, start_character: 0, end_line: 0, end_character: 0 },
    }
}

/// The views of a list of strings.
pub open spec fn views(v: Seq<String>) -> Seq<Seq<char>> {
    v.map_values(|s: String| s@)
}

/// The diagnostics of `diags` whose code is not in `disabled`, in order.
/// Codes in `disabled` that name no kind match nothing.
pub open spec fn enabled(diags: Seq<Diagnostic>, disabled: Seq<Seq<char>>) -> Seq<Diagnostic> {
    diags.filter(|d: Diagnostic| !disabled.contains(code_of(d.kind)))
}

/// Whether `code` is one of `list`.
fn listed(list: &Vec<String>, code: &str) -> (r: bool)
    ensures
        r == views(list@).contains(code@),
{
    let mut i: usize = 0;
    while i < list.len()
        invariant
            i <= list.len(),
            forall|k: int| 0 <= k < i ==> list@[k]@ != code@,
        decreases list.len() - i,
    {
        if str_eq(list[i].as_str(), code) {
            assert(views(list@)[i as int] == code@);
            return true;
        }
        i = i + 1;
    }
    proof {
        if views(list@).contains(code@) {
            let k = choose|k: int| 0 <= k < views(list@).len() && views(list@)[k] == code@;
            assert(list@[k]@ == code@);
        }
    }
    false
}

/// The diagnostics of `diags` whose code is not among the configured
/// `disabled` codes, in order.
pub fn enabled_diagnostics(diags: Vec<Diagnostic>, disabled: &Vec<String>) -> (r: Vec<Diagnostic>)
    ensures
        r@ == enabled(diags@, views(disabled@)),
{
    let mut out: Vec<Diagnostic> = Vec::new();
    let ghost all = diags@;
    proof {
        reveal(Seq::filter);
        assert(all.take(0) =~= Seq::<Diagnostic>::empty());
    }
    for d in it: diags
        invariant
            it.seq() == all,
            out@ == enabled(all.take(it.index() as int), views(disabled@)),
    {
        let ghost k = it.index() as int;
        proof {
            reveal(Seq::filter);
            assert(all.take(k + 1).drop_last() =~= all.take(k));
            assert(all.take(k + 1).last() == d);
        }
        if !listed(disabled, d.code()) {
            out.push(d);
        }
    }
    proof {
        assert(all.take(all.len() as int) =~= all);
    }
    out
}

} // verus!
