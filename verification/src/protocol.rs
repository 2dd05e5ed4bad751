use vstd::prelude::*;

verus! {

/// A position in a text as a zero-based row and a byte column.
#[derive(Debug, Clone, Copy, PartialEq, Eq, Structural)]
pub struct Point {
    pub row: usize,
    pub column: usize,
}

/// A span of a syntax tree: bytes and points.
#[derive(Debug, Clone, Copy, PartialEq, Eq, Structural)]
pub struct TsRange {
    pub start_byte: usize,
    pub end_byte: usize,
    pub start_point: Point,
    pub end_point: Point,
}

/// The summary of a text edit that a syntax tree is told about.
#[derive(Debug, Clone, Copy, PartialEq, Eq, Structural)]
pub struct InputEdit {
    pub start_byte: usize,
    pub old_end_byte: usize,
    pub new_end_byte: usize,
    pub start_position: Point,
    pub old_end_position: Point,
    pub new_end_position: Point,
}

/// A protocol position: zero-based line and character.
#[derive(Debug, Clone, Copy, PartialEq, Eq, Structural)]
pub struct Position {
    pub line: u32,
    pub character: u32,
}

/// A protocol range.
#[derive(Debug, Clone, Copy, PartialEq, Eq, Structural)]
pub struct Range {
    pub start: Position,
    pub end: Position,
}

/// One change of a document's content: a replaced range, or the whole text.
#[derive(Debug, Clone)]
pub struct ContentChange {
    pub range: Option<Range>,
    pub range_length: Option<u32>,
    pub text: String,
}

/// How serious a diagnostic is.
#[derive(Debug, Clone, Copy, PartialEq, Eq, Structural)]
pub enum DiagnosticSeverity {
    Error,
    Warning,
    Information,
    Hint,
}

/// A diagnostic to be shown on a range of a document.
#[derive(Debug, Clone)]
pub struct Diagnostic {
    pub range: Range,
    pub severity: Option<DiagnosticSeverity>,
    pub code: Option<String>,
    pub source: Option<String>,
    pub message: String,
}


/// What a client tells about how it handles published diagnostics.
#[derive(Debug, Clone, Copy, PartialEq, Eq, Structural)]
pub struct PublishDiagnosticsClientCapabilities {
    pub related_information: Option<bool>,
    pub version_support: Option<bool>,
}

/// A client's text document capabilities, as far as the server reads them.
#[derive(Debug, Clone, Copy, PartialEq, Eq, Structural)]
pub struct TextDocumentClientCapabilities {
    pub publish_diagnostics: Option<PublishDiagnosticsClientCapabilities>,
}

/// A client's capabilities, as far as the server reads them.
#[derive(Debug, Clone, Copy, PartialEq, Eq, Structural)]
pub struct ClientCapabilities {
    pub text_document: Option<TextDocumentClientCapabilities>,
}

/// The name and version a server gives of itself.
#[derive(Debug, Clone)]
pub struct ServerInfo {
    pub name: String,
    pub version: String,
}

} // verus!
