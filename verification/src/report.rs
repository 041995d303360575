//! The outcome of a run as a process status.

use vstd::prelude::*;
use crate::model::{Diagnostic, DiagnosticView, Severity};

verus! {

/// The run succeeded.
pub const EXIT_SUCCESS: i32 = 0;

/// The command line or the configuration was not usable; nothing was analysed.
pub const EXIT_USAGE: i32 = 1;

/// At least one diagnostic of severity `Error` was recorded.
pub const EXIT_ERRORS: i32 = 2;

/// No error, but warnings were recorded and warnings were asked to fail the run.
pub const EXIT_WARNINGS: i32 = 3;

/// The output artifact could not be written.
pub const EXIT_OUTPUT: i32 = 4;

/// Two declarations claimed one identifier; no artifact is produced.
pub const EXIT_COLLISION: i32 = 5;

/// Some diagnostic in `ds` has severity `s`.
pub open spec fn has_severity(ds: Seq<DiagnosticView>, s: Severity) -> bool {
    exists|i: int| 0 <= i < ds.len() && (#[trigger] ds[i]).severity == s
}

/// The status of a run that reached the reporting stage.
pub open spec fn exit_status_spec(ds: Seq<DiagnosticView>, fail_on_warning: bool) -> i32 {
    if has_severity(ds, Severity::Error) {
        EXIT_ERRORS
    } else if fail_on_warning && has_severity(ds, Severity::Warning) {
        EXIT_WARNINGS
    } else {
        EXIT_SUCCESS
    }
}

/// Decides whether some diagnostic has the given severity.
pub fn any_with_severity(diagnostics: &Vec<Diagnostic>, s: Severity) -> (r: bool)
    ensures
        r == has_severity(diagnostics.deep_view(), s),
{
    let mut i: usize = 0;
    while i < diagnostics.len()
        invariant
            i <= diagnostics.len(),
            forall|j: int| 0 <= j < i ==> (#[trigger] diagnostics.deep_view()[j]).severity != s,
        decreases diagnostics.len() - i,
    {
        if diagnostics[i].severity == s {
            assert(diagnostics.deep_view()[i as int].severity == s);
            return true;
        }
        i = i + 1;
    }
    false
}

/// Computes the status of a run from its diagnostics and the warning policy.
pub fn exit_status(diagnostics: &Vec<Diagnostic>, fail_on_warning: bool) -> (status: i32)
    ensures
        status == exit_status_spec(diagnostics.deep_view(), fail_on_warning),
{
    if any_with_severity(diagnostics, Severity::Error) {
        EXIT_ERRORS
    } else if fail_on_warning && any_with_severity(diagnostics, Severity::Warning) {
        EXIT_WARNINGS
    } else {
        EXIT_SUCCESS
    }
}

/// The status is zero exactly when no error was recorded and warnings, if
/// any, were not asked to fail the run.
pub proof fn lemma_success_iff_clean(ds: Seq<DiagnosticView>, fail_on_warning: bool)
    ensures
        exit_status_spec(ds, fail_on_warning) == 0 <==> (!has_severity(ds, Severity::Error) && (
        !has_severity(ds, Severity::Warning) || !fail_on_warning)),
{
}

} // verus!
