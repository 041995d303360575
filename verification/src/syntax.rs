//! What the parser and type checker hand over for one module: statements with
//! resolved type annotations, the comment stream, and the issues they found.

use vstd::prelude::*;
use crate::declaration::{Param, ParamView, texts};
use crate::model::{Severity, Span};
use crate::signature::{TypeExpr, TypeView, type_views};

verus! {

/// The form of a statement, as far as documentation is concerned.
#[derive(Clone, Copy, Debug, PartialEq, Eq, Structural)]
pub enum StatementKind {
    TypeDefinition,
    FunctionDefinition,
    ExportedBinding,
    Field,
    Other,
}

/// One statement of a module, or one member of a composite type.
#[derive(Debug, PartialEq, Eq)]
pub struct Statement {
    pub kind: StatementKind,
    pub name: Vec<u8>,
    pub exported: bool,
    pub span: Span,
    pub generics: Vec<Vec<u8>>,
    pub params: Vec<Param>,
    pub returns: Vec<TypeExpr>,
    pub members: Vec<Statement>,
}

/// The mathematical content of a [`Statement`].
pub struct StatementView {
    pub kind: StatementKind,
    pub name: Seq<u8>,
    pub exported: bool,
    pub span: Span,
    pub generics: Seq<Seq<u8>>,
    pub params: Seq<ParamView>,
    pub returns: Seq<TypeView>,
    pub members: Seq<StatementView>,
}

/// A statement that introduces nothing; it stands where a list has no item.
pub open spec fn empty_statement() -> StatementView {
    StatementView {
        kind: StatementKind::Other,
        name: Seq::empty(),
        exported: false,
        span: Span {
            start: crate::model::Position { line: 0, column: 0 },
            end: crate::model::Position { line: 0, column: 0 },
        },
        generics: Seq::empty(),
        params: Seq::empty(),
        returns: Seq::empty(),
        members: Seq::empty(),
    }
}

/// The mathematical content of a statement, its members included.
pub open spec fn statement_view(s: Statement) -> StatementView
    decreases s,
{
    StatementView {
        kind: s.kind,
        name: s.name@,
        exported: s.exported,
        span: s.span,
        generics: texts(s.generics@),
        params: s.params.deep_view(),
        returns: type_views(s.returns@),
        members: Seq::new(
            s.members@.len(),
            |i: int|
                if 0 <= i < s.members@.len() {
                    statement_view(s.members@[i])
                } else {
                    empty_statement()
                },
        ),
    }
}

/// The views of a list of statements, item by item.
pub open spec fn statement_views(ss: Seq<Statement>) -> Seq<StatementView> {
    Seq::new(
        ss.len(),
        |i: int|
            if 0 <= i < ss.len() {
                statement_view(ss[i])
            } else {
                empty_statement()
            },
    )
}

impl View for Statement {
    type V = StatementView;

    open spec fn view(&self) -> StatementView {
        statement_view(*self)
    }
}

/// The members of a statement's view are the views of its members.
pub proof fn lemma_statement_members(s: Statement)
    ensures
        s@.members == statement_views(s.members@),
{
    assert(s@.members =~= statement_views(s.members@));
}

/// A documentation comment as it stands in the text, its markers removed.
#[derive(Clone, Debug, PartialEq, Eq)]
pub struct Comment {
    pub span: Span,
    pub text: Vec<u8>,
    /// The comment asks to be attached to the next declaration however far
    /// below it that declaration stands.
    pub attach_next: bool,
}

/// The mathematical content of a [`Comment`].
pub struct CommentView {
    pub span: Span,
    pub text: Seq<u8>,
    pub attach_next: bool,
}

impl View for Comment {
    type V = CommentView;

    open spec fn view(&self) -> CommentView {
        CommentView { span: self.span, text: self.text@, attach_next: self.attach_next }
    }
}

impl DeepView for Comment {
    type V = CommentView;

    open spec fn deep_view(&self) -> CommentView {
        self@
    }
}

/// An issue that the parser or the type checker reported.
#[derive(Clone, Debug, PartialEq, Eq)]
pub struct Issue {
    pub severity: Severity,
    /// The parser reported it; otherwise the type checker did.
    pub syntax: bool,
    pub message: Vec<u8>,
    pub line: u32,
    pub column: u32,
}

/// The mathematical content of an [`Issue`].
pub struct IssueView {
    pub severity: Severity,
    pub syntax: bool,
    pub message: Seq<u8>,
    pub line: u32,
    pub column: u32,
}

impl View for Issue {
    type V = IssueView;

    open spec fn view(&self) -> IssueView {
        IssueView {
            severity: self.severity,
            syntax: self.syntax,
            message: self.message@,
            line: self.line,
            column: self.column,
        }
    }
}

impl DeepView for Issue {
    type V = IssueView;

    open spec fn deep_view(&self) -> IssueView {
        self@
    }
}

/// Everything known about one module after parsing and type checking.
#[derive(Debug, PartialEq, Eq)]
pub struct Analysis {
    /// The logical path, relative to the configured root.
    pub path: Vec<u8>,
    /// The absolute path of the file.
    pub file: Vec<u8>,
    /// The text of the file as it was read.
    pub source: Vec<u8>,
    pub statements: Vec<Statement>,
    pub comments: Vec<Comment>,
    pub issues: Vec<Issue>,
}

/// The mathematical content of an [`Analysis`].
pub struct AnalysisView {
    pub path: Seq<u8>,
    pub file: Seq<u8>,
    pub source: Seq<u8>,
    pub statements: Seq<StatementView>,
    pub comments: Seq<CommentView>,
    pub issues: Seq<IssueView>,
}

impl View for Analysis {
    type V = AnalysisView;

    open spec fn view(&self) -> AnalysisView {
        AnalysisView {
            path: self.path@,
            file: self.file@,
            source: self.source@,
            statements: statement_views(self.statements@),
            comments: self.comments.deep_view(),
            issues: self.issues.deep_view(),
        }
    }
}

impl DeepView for Analysis {
    type V = AnalysisView;

    open spec fn deep_view(&self) -> AnalysisView {
        self@
    }
}

} // verus!
