//! One module from what the parser and type checker found in it.

use vstd::prelude::*;
use crate::binder::{bind, binder_diagnostics, binding_spec, documented};
use crate::declaration::{Declaration, DeclarationView};
use crate::extractor::{extract, extract_spec};
use crate::graph::{Module, ModuleView};
use crate::model::{
    Diagnostic, DiagnosticCode, DiagnosticView, Severity, copy_bytes,
};
use crate::syntax::{Analysis, AnalysisView, Issue, IssueView};

verus! {

/// The diagnostic for an issue of the module at `path`: severity, place and
/// message are kept; the code says who reported it.
pub open spec fn issue_diagnostic(i: IssueView, path: Seq<u8>) -> DiagnosticView {
    DiagnosticView {
        severity: i.severity,
        code: if i.syntax {
            DiagnosticCode::ParseError
        } else {
            DiagnosticCode::TypeError
        },
        message: i.message,
        module: path,
        line: i.line,
        column: i.column,
    }
}

/// The diagnostics for a list of issues, in order.
pub open spec fn issue_diagnostics(issues: Seq<IssueView>, path: Seq<u8>) -> Seq<DiagnosticView> {
    Seq::new(issues.len(), |k: int| issue_diagnostic(issues[k], path))
}

/// The parser reported an error.
pub open spec fn has_syntax_error(issues: Seq<IssueView>) -> bool {
    exists|k: int|
        0 <= k < issues.len() && (#[trigger] issues[k]).syntax && issues[k].severity
            == Severity::Error
}

/// The module that an analysis gives. A module that did not parse is recorded
/// with its diagnostics and no declarations. Any other has its declarations
/// extracted and its comments bound, and its diagnostics are the issues
/// followed by what the binding found.
pub open spec fn module_of(a: AnalysisView) -> ModuleView {
    if has_syntax_error(a.issues) {
        ModuleView {
            path: a.path,
            file: a.file,
            source: a.source,
            declarations: Seq::empty(),
            diagnostics: issue_diagnostics(a.issues, a.path),
        }
    } else {
        let decls = extract_spec(a.statements);
        let bound = binding_spec(a.comments, decls);
        ModuleView {
            path: a.path,
            file: a.file,
            source: a.source,
            declarations: documented(a.comments, decls, bound),
            diagnostics: issue_diagnostics(a.issues, a.path) + binder_diagnostics(
                a.comments,
                decls,
                bound,
                a.path,
                a.comments.len(),
            ),
        }
    }
}

/// Turns an issue into a diagnostic of the module at `path`.
pub fn diagnose(issue: &Issue, path: &Vec<u8>) -> (d: Diagnostic)
    ensures
        d@ == issue_diagnostic(issue@, path@),
{
    Diagnostic {
        severity: issue.severity,
        code: if issue.syntax {
            DiagnosticCode::ParseError
        } else {
            DiagnosticCode::TypeError
        },
        message: copy_bytes(&issue.message),
        module: copy_bytes(path),
        line: issue.line,
        column: issue.column,
    }
}

/// Decides whether the parser reported an error.
pub fn failed_to_parse(issues: &Vec<Issue>) -> (r: bool)
    ensures
        r == has_syntax_error(issues.deep_view()),
{
    let mut k: usize = 0;
    while k < issues.len()
        invariant
            k <= issues.len(),
            forall|j: int|
                0 <= j < k ==> !((#[trigger] issues.deep_view()[j]).syntax
                    && issues.deep_view()[j].severity == Severity::Error),
        decreases issues.len() - k,
    {
        let issue = &issues[k];
        assert(issues.deep_view()[k as int] == issue@);
        let is_error = match issue.severity {
            Severity::Error => true,
            Severity::Warning => false,
        };
        if issue.syntax && is_error {
            return true;
        }
        k = k + 1;
    }
    false
}

/// Builds the module of one analysed file.
pub fn analyze(a: &Analysis) -> (m: Module)
    ensures
        m@ == module_of(a@),
{
    let ghost av = a@;
    let mut diagnostics: Vec<Diagnostic> = Vec::new();
    let mut k: usize = 0;
    let ghost expected = issue_diagnostics(av.issues, av.path);
    assert(diagnostics.deep_view() =~= expected.subrange(0, 0));
    while k < a.issues.len()
        invariant
            k <= a.issues.len(),
            av == a@,
            expected == issue_diagnostics(av.issues, av.path),
            diagnostics.deep_view() == expected.subrange(0, k as int),
        decreases a.issues.len() - k,
    {
        let ghost before = diagnostics.deep_view();
        assert(av.issues[k as int] == a.issues[k as int]@);
        let d = diagnose(&a.issues[k], &a.path);
        diagnostics.push(d);
        assert(diagnostics.deep_view() =~= before.push(d@));
        assert(diagnostics.deep_view() =~= expected.subrange(0, k + 1));
        k = k + 1;
    }
    assert(expected.subrange(0, a.issues.len() as int) =~= expected);
    if failed_to_parse(&a.issues) {
        let declarations: Vec<Declaration> = Vec::new();
        assert(declarations.deep_view() =~= Seq::<DeclarationView>::empty());
        Module {
            path: copy_bytes(&a.path),
            file: copy_bytes(&a.file),
            source: copy_bytes(&a.source),
            declarations,
            diagnostics,
        }
    } else {
        let decls = extract(&a.statements);
        let bound = bind(&a.path, &a.comments, decls);
        let ghost found = bound.diagnostics.deep_view();
        let crate::binder::Bound { declarations, diagnostics: more } = bound;
        let mut j: usize = 0;
        assert(diagnostics.deep_view() =~= expected + found.subrange(0, 0));
        while j < more.len()
            invariant
                j <= more.len(),
                found == more.deep_view(),
                diagnostics.deep_view() == expected + found.subrange(0, j as int),
            decreases more.len() - j,
        {
            let ghost before = diagnostics.deep_view();
            let d = crate::graph::copy_diagnostic(&more[j]);
            assert(found[j as int] == more[j as int]@);
            diagnostics.push(d);
            assert(diagnostics.deep_view() =~= before.push(d@));
            assert(diagnostics.deep_view() =~= expected + found.subrange(0, j + 1));
            j = j + 1;
        }
        assert(found.subrange(0, more.len() as int) =~= found);
        Module {
            path: copy_bytes(&a.path),
            file: copy_bytes(&a.file),
            source: copy_bytes(&a.source),
            declarations,
            diagnostics,
        }
    }
}

} // verus!
