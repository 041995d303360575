//! One run from start to end: the stages it passes through, and what it
//! yields.

use vstd::prelude::*;
use vstd::string::*;
use crate::analysis::{analyze, module_of};
use crate::graph::{
    Module, ModuleView, all_diagnostics, all_ids, build, diagnostics_of, first_collision,
    graph_spec, is_at_position,
};
use crate::graph_laws::{lemma_first_collision_is_unique, lemma_position_is_unique};
use crate::loader::{
    as_ints, is_stable_order, lemma_lex_asymmetric, lemma_stable_order_exists,
    lemma_stable_order_is_unique, paths_of, stable_order, taken_before,
};
use crate::model::{
    Diagnostic, DiagnosticCode, DiagnosticView, append_bytes, diagnostic_view,
};
use crate::render::{render, render_document};
use crate::report::{EXIT_COLLISION, EXIT_OUTPUT, EXIT_USAGE, exit_status, exit_status_spec};
use crate::syntax::{Analysis, AnalysisView};

verus! {

/// Where a run stands.
#[derive(Clone, Copy, Debug, PartialEq, Eq, Structural)]
pub enum RunState {
    Initialized,
    Loading,
    /// Module `index` of `count` is with the parser and type checker.
    Analyzing { index: usize, count: usize },
    Extracting,
    Binding,
    GraphBuilding,
    Reporting,
    Terminated(i32),
}

/// What happened since the last step.
#[derive(Clone, Copy, Debug, PartialEq, Eq, Structural)]
pub enum Event {
    /// The run was started.
    Started,
    /// The source tree was read and holds this many modules.
    Loaded(usize),
    /// The source directory is missing or cannot be read.
    LoadFailed,
    /// The module in hand was parsed and checked.
    ModuleAnalyzed,
    /// Every module has its declarations.
    Extracted,
    /// Every module has its comments bound.
    Bound,
    /// The graph was built.
    GraphBuilt,
    /// Two declarations claimed one identifier.
    Collided,
    /// The artifact was written; the run ends with this status.
    Written(i32),
    /// The artifact could not be written.
    WriteFailed,
}

/// The state that follows `state` on `event`, if the event can happen there.
pub open spec fn step_spec(state: RunState, event: Event) -> Option<RunState> {
    match (state, event) {
        (RunState::Initialized, Event::Started) => Some(RunState::Loading),
        (RunState::Loading, Event::Loaded(count)) => if count == 0 {
            Some(RunState::Extracting)
        } else {
            Some(RunState::Analyzing { index: 0, count })
        },
        (RunState::Loading, Event::LoadFailed) => Some(RunState::Terminated(EXIT_USAGE)),
        (RunState::Analyzing { index, count }, Event::ModuleAnalyzed) => if index + 1 < count {
            Some(RunState::Analyzing { index: (index + 1) as usize, count })
        } else {
            Some(RunState::Extracting)
        },
        (RunState::Extracting, Event::Extracted) => Some(RunState::Binding),
        (RunState::Binding, Event::Bound) => Some(RunState::GraphBuilding),
        (RunState::GraphBuilding, Event::GraphBuilt) => Some(RunState::Reporting),
        (RunState::GraphBuilding, Event::Collided) => Some(RunState::Terminated(EXIT_COLLISION)),
        (RunState::Reporting, Event::Written(status)) => Some(RunState::Terminated(status)),
        (RunState::Reporting, Event::WriteFailed) => Some(RunState::Terminated(EXIT_OUTPUT)),
        _ => None,
    }
}

/// Computes the next state.
pub fn step(state: RunState, event: Event) -> (next: Option<RunState>)
    ensures
        next == step_spec(state, event),
{
    match (state, event) {
        (RunState::Initialized, Event::Started) => Some(RunState::Loading),
        (RunState::Loading, Event::Loaded(count)) => if count == 0 {
            Some(RunState::Extracting)
        } else {
            Some(RunState::Analyzing { index: 0, count })
        },
        (RunState::Loading, Event::LoadFailed) => Some(RunState::Terminated(EXIT_USAGE)),
        (RunState::Analyzing { index, count }, Event::ModuleAnalyzed) => if index < count && index
            + 1 < count {
            Some(RunState::Analyzing { index: index + 1, count })
        } else {
            Some(RunState::Extracting)
        },
        (RunState::Extracting, Event::Extracted) => Some(RunState::Binding),
        (RunState::Binding, Event::Bound) => Some(RunState::GraphBuilding),
        (RunState::GraphBuilding, Event::GraphBuilt) => Some(RunState::Reporting),
        (RunState::GraphBuilding, Event::Collided) => Some(RunState::Terminated(EXIT_COLLISION)),
        (RunState::Reporting, Event::Written(status)) => Some(RunState::Terminated(status)),
        (RunState::Reporting, Event::WriteFailed) => Some(RunState::Terminated(EXIT_OUTPUT)),
        _ => None,
    }
}

/// The stage of a state, counted from the start of a run.
pub open spec fn stage(state: RunState) -> int {
    match state {
        RunState::Initialized => 0,
        RunState::Loading => 1,
        RunState::Analyzing { .. } => 2,
        RunState::Extracting => 3,
        RunState::Binding => 4,
        RunState::GraphBuilding => 5,
        RunState::Reporting => 6,
        RunState::Terminated(_) => 7,
    }
}

/// How far a state is into its stage.
pub open spec fn progress(state: RunState) -> int {
    match state {
        RunState::Analyzing { index, .. } => index as int,
        _ => 0,
    }
}

/// `next` lies further along the run than `state`.
pub open spec fn is_later(state: RunState, next: RunState) -> bool {
    stage(next) > stage(state) || (stage(next) == stage(state) && progress(next) > progress(
        state,
    ))
}

/// A run is strictly linear: every step leads to a later state, so no state
/// is visited twice, and nothing follows the end.
pub proof fn lemma_run_is_linear(state: RunState, event: Event)
    ensures
        step_spec(state, event) matches Some(next) ==> is_later(state, next),
        state is Terminated ==> step_spec(state, event) is None,
{
}

/// Before the report, a run ends early only where loading fails or where the
/// graph finds a collision.
pub proof fn lemma_early_end(state: RunState, event: Event)
    requires
        step_spec(state, event) matches Some(next) && next is Terminated,
    ensures
        (state == RunState::Loading && event == Event::LoadFailed) || (state
            == RunState::GraphBuilding && event == Event::Collided) || state
            == RunState::Reporting,
{
}

/// What a run yields: its status, the bytes of the artifact if one is to be
/// written, and every diagnostic that was recorded.
#[derive(Debug, PartialEq, Eq)]
pub struct Outcome {
    pub status: i32,
    pub artifact: Option<Vec<u8>>,
    pub diagnostics: Vec<Diagnostic>,
}

/// The mathematical content of an [`Outcome`].
pub struct OutcomeView {
    pub status: i32,
    pub artifact: Option<Seq<u8>>,
    pub diagnostics: Seq<DiagnosticView>,
}

impl View for Outcome {
    type V = OutcomeView;

    open spec fn view(&self) -> OutcomeView {
        OutcomeView {
            status: self.status,
            artifact: crate::declaration::opt_text(self.artifact),
            diagnostics: self.diagnostics.deep_view(),
        }
    }
}

/// What the message for a collision starts with; the identifier follows.
pub open spec fn collision_message() -> Seq<u8> {
    "identifier is declared more than once: ".spec_bytes()
}

/// The error for the identifier at `position` of the list of all identifiers,
/// placed at the declaration at `i` of module `k`.
pub open spec fn collision_diagnostic(ms: Seq<ModuleView>, position: int, k: int, i: int)
    -> DiagnosticView {
    diagnostic_view(
        DiagnosticCode::NamingCollision,
        collision_message() + all_ids(ms, ms.len())[position],
        ms[k].path,
        ms[k].declarations[i].span.start,
    )
}

/// What the modules `ms`, taken in this order, come to.
///
/// Without a collision the graph is built, the artifact rendered from it and
/// from the diagnostics of all modules, and the status follows from these
/// diagnostics and the warning policy. With a collision the run fails: no
/// artifact, and the diagnostics of the modules followed by one error at the
/// declaration that claimed an identifier again.
pub open spec fn conclude(ms: Seq<ModuleView>, version: Seq<u8>, fail_on_warning: bool)
    -> OutcomeView {
    let ids = all_ids(ms, ms.len());
    if ids.no_duplicates() {
        let g = graph_spec(ms, version);
        let ds = all_diagnostics(g.modules, g.modules.len());
        OutcomeView {
            status: exit_status_spec(ds, fail_on_warning),
            artifact: Some(render_document(g, ds)),
            diagnostics: ds,
        }
    } else {
        let (i, j) = choose|i: int, j: int| first_collision(ids, i, j);
        let (k, d) = choose|k: int, d: int| is_at_position(ms, j, k, d);
        OutcomeView {
            status: EXIT_COLLISION,
            artifact: None,
            diagnostics: all_diagnostics(ms, ms.len()).push(collision_diagnostic(ms, j, k, d)),
        }
    }
}

/// The modules of the analyses, taken in the given order.
pub open spec fn ordered_modules(av: Seq<AnalysisView>, order: Seq<int>) -> Seq<ModuleView> {
    Seq::new(order.len(), |i: int| module_of(av[order[i]]))
}

/// What a run on the analyses `av` yields: the modules are taken in ascending
/// order of their logical paths, whatever order the files were found in.
pub open spec fn outcome_spec(av: Seq<AnalysisView>, version: Seq<u8>, fail_on_warning: bool)
    -> OutcomeView {
    let order = choose|o: Seq<int>| is_stable_order(o, paths_of(av));
    conclude(ordered_modules(av, order), version, fail_on_warning)
}

/// Builds the graph of the modules and reports on it.
pub fn conclude_run(modules: Vec<Module>, generator_version: &Vec<u8>, fail_on_warning: bool) -> (r:
    Outcome)
    ensures
        r@ == conclude(modules.deep_view(), generator_version@, fail_on_warning),
{
    let ghost ms = modules.deep_view();
    let ghost ids = all_ids(ms, ms.len());
    let mut recorded = diagnostics_of(&modules);
    match build(modules, generator_version) {
        Ok(graph) => {
            let diagnostics = graph.diagnostics();
            let artifact = render(&graph, &diagnostics);
            let status = exit_status(&diagnostics, fail_on_warning);
            Outcome { status, artifact: Some(artifact), diagnostics }
        },
        Err(c) => {
            proof {
                assert(ids[c.first as int] == ids[c.second as int]);
                let (i, j) = choose|i: int, j: int| first_collision(ids, i, j);
                lemma_first_collision_is_unique(ids, i, j, c.first as int, c.second as int);
                let (k, d) = choose|k: int, d: int| is_at_position(ms, j, k, d);
                lemma_position_is_unique(ms, j, k, d, c.module as int, c.declaration as int);
            }
            let ghost before = recorded.deep_view();
            let mut message = "identifier is declared more than once: ".as_bytes_vec();
            append_bytes(&mut message, &c.identifier);
            let d = Diagnostic::new(DiagnosticCode::NamingCollision, message, c.path, c.at);
            recorded.push(d);
            assert(recorded.deep_view() =~= before.push(d@));
            Outcome { status: EXIT_COLLISION, artifact: None, diagnostics: recorded }
        },
    }
}

/// Runs the analysis on the modules that were loaded, parsed and checked.
///
/// The outcome is a function of the analyses, the generator version and the
/// warning policy alone: a second run on the same input yields the same
/// status, the same diagnostics and the same bytes.
pub fn run(analyses: &Vec<Analysis>, generator_version: &Vec<u8>, fail_on_warning: bool) -> (r:
    Outcome)
    ensures
        r@ == outcome_spec(analyses.deep_view(), generator_version@, fail_on_warning),
{
    let ghost av = analyses.deep_view();
    let order = stable_order(analyses);
    let ghost o = as_ints(order@);
    proof {
        let chosen = choose|o: Seq<int>| is_stable_order(o, paths_of(av));
        lemma_stable_order_is_unique(o, chosen, paths_of(av));
    }
    let ghost expected = ordered_modules(av, o);
    let mut modules: Vec<Module> = Vec::new();
    let mut i: usize = 0;
    assert(modules.deep_view() =~= expected.subrange(0, 0));
    while i < order.len()
        invariant
            i <= order.len(),
            av == analyses.deep_view(),
            o == as_ints(order@),
            is_stable_order(o, paths_of(av)),
            expected == ordered_modules(av, o),
            modules.deep_view() == expected.subrange(0, i as int),
        decreases order.len() - i,
    {
        let ghost before = modules.deep_view();
        let at = order[i];
        assert(o[i as int] == at as int);
        assert(0 <= o[i as int] < paths_of(av).len());
        assert(av[at as int] == analyses[at as int]@);
        let m = analyze(&analyses[at]);
        modules.push(m);
        assert(modules.deep_view() =~= before.push(m@));
        assert(modules.deep_view() =~= expected.subrange(0, i + 1));
        i = i + 1;
    }
    assert(expected.subrange(0, order.len() as int) =~= expected);
    conclude_run(modules, generator_version, fail_on_warning)
}

/// `second` holds the analyses of `first` in another order: the item at `i`
/// of `second` is the item at `perm[i]` of `first`, and `perm` names every
/// place of `first`.
pub open spec fn is_reordering(
    first: Seq<AnalysisView>,
    second: Seq<AnalysisView>,
    perm: Seq<int>,
) -> bool {
    &&& second.len() == first.len()
    &&& perm.len() == first.len()
    &&& forall|i: int| 0 <= i < perm.len() ==> 0 <= #[trigger] perm[i] < first.len()
    &&& forall|x: int| 0 <= x < first.len() ==> perm.contains(x)
    &&& forall|i: int| 0 <= i < second.len() ==> #[trigger] second[i] == first[perm[i]]
}

/// The order in which the files were found does not matter: as long as no
/// two modules share a logical path, the same modules in another order yield
/// the same outcome.
pub proof fn lemma_outcome_ignores_input_order(
    first: Seq<AnalysisView>,
    second: Seq<AnalysisView>,
    perm: Seq<int>,
    version: Seq<u8>,
    fail_on_warning: bool,
)
    requires
        is_reordering(first, second, perm),
        forall|i: int, j: int|
            0 <= i < j < first.len() ==> (#[trigger] first[i]).path != (#[trigger] first[j]).path,
    ensures
        outcome_spec(first, version, fail_on_warning) == outcome_spec(
            second,
            version,
            fail_on_warning,
        ),
{
    let p1 = paths_of(first);
    let p2 = paths_of(second);
    lemma_stable_order_exists(p1);
    lemma_stable_order_exists(p2);
    let o1 = choose|o: Seq<int>| is_stable_order(o, p1);
    let o2 = choose|o: Seq<int>| is_stable_order(o, p2);
    let through = Seq::new(o2.len(), |i: int| perm[o2[i]]);
    assert forall|x: int| 0 <= x < p1.len() implies through.contains(x) by {
        assert(perm.contains(x));
        let y = choose|y: int| 0 <= y < perm.len() && perm[y] == x;
        assert(o2.contains(y));
        let i = choose|i: int| 0 <= i < o2.len() && o2[i] == y;
        assert(through[i] == x);
    }
    assert forall|i: int, j: int| 0 <= i < j < through.len() implies taken_before(
        p1,
        #[trigger] through[i],
        #[trigger] through[j],
    ) by {
        let a = o2[i];
        let b = o2[j];
        assert(taken_before(p2, a, b));
        assert(p2[a] == p1[perm[a]]);
        assert(p2[b] == p1[perm[b]]);
        lemma_lex_asymmetric(p2[a], p2[b]);
        if p2[a] == p2[b] {
            assert(a < b);
            if perm[a] != perm[b] {
                if perm[a] < perm[b] {
                    assert(first[perm[a]].path != first[perm[b]].path);
                } else {
                    assert(first[perm[b]].path != first[perm[a]].path);
                }
            } else {
                lemma_perm_is_injective(first.len() as int, perm, a, b);
            }
        }
    }
    lemma_stable_order_is_unique(through, o1, p1);
    assert(ordered_modules(second, o2) =~= ordered_modules(first, o1));
}

/// A list of `n` places that names each of `n` places names none twice.
proof fn lemma_perm_is_injective(n: int, perm: Seq<int>, a: int, b: int)
    requires
        perm.len() == n,
        forall|i: int| 0 <= i < perm.len() ==> 0 <= #[trigger] perm[i] < n,
        forall|x: int| 0 <= x < n ==> perm.contains(x),
        0 <= a <= b < n,
        perm[a] == perm[b],
    ensures
        a == b,
{
    if a < b {
        let rest = perm.remove(b);
        let image = rest.to_set();
        let all = Set::new(|x: int| 0 <= x < n);
        assert forall|x: int| all.contains(x) implies image.contains(x) by {
            assert(perm.contains(x));
            let i = choose|i: int| 0 <= i < perm.len() && perm[i] == x;
            let j = if i == b {
                a
            } else {
                i
            };
            if j < b {
                assert(rest[j] == x);
            } else {
                assert(rest[j - 1] == x);
            }
            assert(rest.contains(x));
        }
        vstd::set_lib::lemma_int_range(0, n);
        assert(all =~= vstd::set_lib::set_int_range(0, n));
        vstd::seq_lib::seq_to_set_is_finite(rest);
        rest.lemma_cardinality_of_set();
        vstd::set_lib::lemma_len_subset(all, image);
    }
}

} // verus!
