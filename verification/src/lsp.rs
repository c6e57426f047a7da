//! The language-server values the library computes: positions, ranges,
//! completion items, hovers and diagnostics, held as plain values.

use vstd::prelude::*;

verus! {

/// A zero-based line and column in a document.
#[derive(Clone, Copy, Debug, PartialEq, Eq, Structural)]
pub struct Position {
    pub line: u32,
    pub character: u32,
}

/// A span between two positions.
#[derive(Clone, Copy, Debug, PartialEq, Eq, Structural)]
pub struct Range {
    pub start: Position,
    pub end: Position,
}

impl Position {
    pub fn new(line: u32, character: u32) -> (r: Position)
        ensures
            r.line == line,
            r.character == character,
    {
        Position { line, character }
    }
}

impl Range {
    pub fn new(start: Position, end: Position) -> (r: Range)
        ensures
            r.start == start,
            r.end == end,
    {
        Range { start, end }
    }
}

/// The kind of a completion item, which decides its icon.
#[derive(Clone, Copy, Debug, PartialEq, Eq, Structural)]
pub enum CompletionItemKind {
    Value,
    Module,
    Keyword,
    Operator,
    File,
    Folder,
    EnumMember,
}

/// A completion candidate.
#[derive(Clone, Debug)]
pub struct CompletionItem {
    pub label: String,
    pub kind: Option<CompletionItemKind>,
    pub detail: Option<String>,
    pub insert_text: Option<String>,
}

/// The view of an optional string.
pub open spec fn opt_view(o: Option<String>) -> Option<Seq<char>> {
    match o {
        Some(s) => Some(s@),
        None => None,
    }
}

/// A completion item as plain values: label, kind, detail, insert text.
pub type ItemModel = (Seq<char>, Option<CompletionItemKind>, Option<Seq<char>>, Option<Seq<char>>);

impl View for CompletionItem {
    type V = ItemModel;

    open spec fn view(&self) -> ItemModel {
        (self.label@, self.kind, opt_view(self.detail), opt_view(self.insert_text))
    }
}

/// The models of a list of completion items.
pub open spec fn items_view(items: Seq<CompletionItem>) -> Seq<ItemModel> {
    items.map_values(|i: CompletionItem| i@)
}

/// How serious a diagnostic is.
#[derive(Clone, Copy, Debug, PartialEq, Eq, Structural)]
pub enum DiagnosticSeverity {
    Error,
    Warning,
    Information,
    Hint,
}

/// The code of a diagnostic: a number or a string.
#[derive(Clone, Debug)]
pub enum NumberOrString {
    Number(i32),
    String(String),
}

/// A diagnostic code as a plain value.
pub enum CodeModel {
    Number(int),
    Text(Seq<char>),
}

impl View for NumberOrString {
    type V = CodeModel;

    open spec fn view(&self) -> CodeModel {
        match self {
            NumberOrString::Number(n) => CodeModel::Number(*n as int),
            NumberOrString::String(s) => CodeModel::Text(s@),
        }
    }
}

/// The view of an optional code.
pub open spec fn opt_code(c: Option<NumberOrString>) -> Option<CodeModel> {
    match c {
        Some(c) => Some(c@),
        None => None,
    }
}

/// A problem reported at a range of a document.
#[derive(Clone, Debug)]
pub struct Diagnostic {
    pub range: Range,
    pub severity: Option<DiagnosticSeverity>,
    pub code: Option<NumberOrString>,
    pub source: Option<String>,
    pub message: String,
}

/// A diagnostic as plain values: range, severity, code, source, message.
pub type DiagnosticModel = (Range, Option<DiagnosticSeverity>, Option<CodeModel>, Option<Seq<char>>, Seq<char>);

impl View for Diagnostic {
    type V = DiagnosticModel;

    open spec fn view(&self) -> DiagnosticModel {
        (self.range, self.severity, opt_code(self.code), opt_view(self.source), self.message@)
    }
}

/// The models of a list of diagnostics.
pub open spec fn diagnostics_view(ds: Seq<Diagnostic>) -> Seq<DiagnosticModel> {
    ds.map_values(|d: Diagnostic| d@)
}

} // verus!
