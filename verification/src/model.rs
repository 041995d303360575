//! Value records shared by every stage: positions, spans and diagnostics.

use vstd::prelude::*;

verus! {

/// A place in a module's text: one-based line and column.
#[derive(Clone, Copy, Debug, PartialEq, Eq, Structural)]
pub struct Position {
    pub line: u32,
    pub column: u32,
}

impl Position {
    /// `self` comes strictly before `other` in reading order.
    pub open spec fn precedes(self, other: Position) -> bool {
        self.line < other.line || (self.line == other.line && self.column < other.column)
    }

    /// Decides [`Position::precedes`].
    pub fn is_before(&self, other: &Position) -> (r: bool)
        ensures
            r == self.precedes(*other),
    {
        self.line < other.line || (self.line == other.line && self.column < other.column)
    }
}

/// The stretch of text from `start` up to `end`.
#[derive(Clone, Copy, Debug, PartialEq, Eq, Structural)]
pub struct Span {
    pub start: Position,
    pub end: Position,
}

/// How serious a diagnostic is.
#[derive(Clone, Copy, Debug, PartialEq, Eq, Structural)]
pub enum Severity {
    Error,
    Warning,
}

/// The stable code of a diagnostic.
#[derive(Clone, Copy, Debug, PartialEq, Eq, Structural)]
pub enum DiagnosticCode {
    ParseError,
    TypeError,
    OrphanedComment,
    MalformedTag,
    DocParameterMismatch,
    UnresolvedReference,
    NamingCollision,
}

impl DiagnosticCode {
    /// The severity that a diagnostic with this code carries.
    pub open spec fn severity(self) -> Severity {
        match self {
            DiagnosticCode::ParseError => Severity::Error,
            DiagnosticCode::TypeError => Severity::Error,
            DiagnosticCode::NamingCollision => Severity::Error,
            DiagnosticCode::OrphanedComment => Severity::Warning,
            DiagnosticCode::MalformedTag => Severity::Warning,
            DiagnosticCode::DocParameterMismatch => Severity::Warning,
            DiagnosticCode::UnresolvedReference => Severity::Warning,
        }
    }

    /// Computes [`DiagnosticCode::severity`].
    pub fn default_severity(&self) -> (s: Severity)
        ensures
            s == self.severity(),
    {
        match self {
            DiagnosticCode::ParseError => Severity::Error,
            DiagnosticCode::TypeError => Severity::Error,
            DiagnosticCode::NamingCollision => Severity::Error,
            DiagnosticCode::OrphanedComment => Severity::Warning,
            DiagnosticCode::MalformedTag => Severity::Warning,
            DiagnosticCode::DocParameterMismatch => Severity::Warning,
            DiagnosticCode::UnresolvedReference => Severity::Warning,
        }
    }
}

/// One recorded issue. A pure value: nothing in it refers to anything else.
#[derive(Clone, Debug, PartialEq, Eq)]
pub struct Diagnostic {
    pub severity: Severity,
    pub code: DiagnosticCode,
    pub message: Vec<u8>,
    pub module: Vec<u8>,
    pub line: u32,
    pub column: u32,
}

/// The mathematical content of a [`Diagnostic`].
pub struct DiagnosticView {
    pub severity: Severity,
    pub code: DiagnosticCode,
    pub message: Seq<u8>,
    pub module: Seq<u8>,
    pub line: u32,
    pub column: u32,
}

impl View for Diagnostic {
    type V = DiagnosticView;

    open spec fn view(&self) -> DiagnosticView {
        DiagnosticView {
            severity: self.severity,
            code: self.code,
            message: self.message@,
            module: self.module@,
            line: self.line,
            column: self.column,
        }
    }
}

impl DeepView for Diagnostic {
    type V = DiagnosticView;

    open spec fn deep_view(&self) -> DiagnosticView {
        self@
    }
}

/// Copies a byte string.
pub fn copy_bytes(src: &Vec<u8>) -> (dst: Vec<u8>)
    ensures
        dst@ == src@,
{
    let mut dst: Vec<u8> = Vec::new();
    let mut i: usize = 0;
    while i < src.len()
        invariant
            i <= src.len(),
            dst@ == src@.subrange(0, i as int),
        decreases src.len() - i,
    {
        dst.push(src[i]);
        i = i + 1;
    }
    dst
}

/// Decides whether two byte strings are equal.
pub fn bytes_equal(a: &Vec<u8>, b: &Vec<u8>) -> (r: bool)
    ensures
        r == (a@ == b@),
{
    if a.len() != b.len() {
        return false;
    }
    let mut i: usize = 0;
    while i < a.len()
        invariant
            i <= a.len(),
            a.len() == b.len(),
            a@.subrange(0, i as int) == b@.subrange(0, i as int),
        decreases a.len() - i,
    {
        if a[i] != b[i] {
            return false;
        }
        assert(a@.subrange(0, i + 1) == a@.subrange(0, i as int).push(a@[i as int]));
        assert(b@.subrange(0, i + 1) == b@.subrange(0, i as int).push(b@[i as int]));
        i = i + 1;
    }
    assert(a@ == a@.subrange(0, a.len() as int));
    assert(b@ == b@.subrange(0, b.len() as int));
    true
}

/// Appends `src` to `dst`.
pub fn append_bytes(dst: &mut Vec<u8>, src: &Vec<u8>)
    ensures
        final(dst)@ == old(dst)@ + src@,
{
    let mut i: usize = 0;
    while i < src.len()
        invariant
            i <= src.len(),
            dst@ == old(dst)@ + src@.subrange(0, i as int),
        decreases src.len() - i,
    {
        dst.push(src[i]);
        i = i + 1;
    }
    assert(src@.subrange(0, src.len() as int) == src@);
}

/// The diagnostic with the given code at the given place, with the severity
/// that belongs to the code.
pub open spec fn diagnostic_view(
    code: DiagnosticCode,
    message: Seq<u8>,
    module: Seq<u8>,
    at: Position,
) -> DiagnosticView {
    DiagnosticView {
        severity: code.severity(),
        code: code,
        message: message,
        module: module,
        line: at.line,
        column: at.column,
    }
}

impl Diagnostic {
    /// A diagnostic with the severity that belongs to its code.
    pub fn new(code: DiagnosticCode, message: Vec<u8>, module: Vec<u8>, at: Position) -> (d:
        Diagnostic)
        ensures
            d@ == diagnostic_view(code, message@, module@, at),
    {
        Diagnostic {
            severity: code.default_severity(),
            code,
            message,
            module,
            line: at.line,
            column: at.column,
        }
    }
}

/// Turns a list round.
pub fn reversed<T>(v: Vec<T>) -> (r: Vec<T>)
    ensures
        r.len() == v.len(),
        forall|k: int| 0 <= k < r.len() ==> r[k] == v[v.len() - 1 - k],
{
    let ghost all = v@;
    let mut rest = v;
    let mut r: Vec<T> = Vec::new();
    while rest.len() > 0
        invariant
            rest@ == all.subrange(0, rest.len() as int),
            r.len() + rest.len() == all.len(),
            forall|k: int| 0 <= k < r.len() ==> r[k] == all[all.len() - 1 - k],
        decreases rest.len(),
    {
        let item = rest.pop().unwrap();
        r.push(item);
    }
    r
}

} // verus!
