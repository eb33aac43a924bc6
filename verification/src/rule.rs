//! Rules as a capability, the name-swap rule, and the engine that runs a
//! rule over the nodes of a program.

use vstd::prelude::*;
use crate::config::RuleConfig;
use crate::diagnostic::{build, diagnosis, Diagnostic, DiagnosticView};
use crate::matcher::{invokes, match_node, matched, InvocationView, MacroInvocation};
use crate::resolution::{ProgramView, ResolutionContext, ResolutionView, SyntaxNode};

verus! {

/// A static-analysis rule: it matches single nodes and builds a diagnostic
/// for each match. A rule keeps no state between nodes.
pub trait Rule {
    /// What the rule finds at `node`.
    spec fn finds(&self, program: ProgramView, node: SyntaxNode) -> Option<InvocationView>;

    /// What the rule reports for `invocation`.
    spec fn reports(&self, invocation: InvocationView) -> DiagnosticView;

    fn match_node(&self, context: &ResolutionContext, node: SyntaxNode) -> (found: Option<
        MacroInvocation,
    >)
        ensures
            found is Some <==> self.finds(context@, node) is Some,
            found matches Some(m) ==> self.finds(context@, node) == Some(m@),
    ;

    fn build(&self, invocation: &MacroInvocation) -> (diagnostic: Diagnostic)
        ensures
            diagnostic@ == self.reports(invocation@),
    ;
}

/// The rule that flags invocations of one construct and recommends another
/// by name.
#[derive(Clone, Debug, PartialEq, Eq)]
pub struct NameSwapRule {
    pub config: RuleConfig,
}

impl NameSwapRule {
    pub fn new(config: RuleConfig) -> (rule: NameSwapRule)
        ensures
            rule.config == config,
    {
        NameSwapRule { config }
    }
}

impl Rule for NameSwapRule {
    open spec fn finds(&self, program: ProgramView, node: SyntaxNode) -> Option<InvocationView> {
        matched(program, node, self.config@)
    }

    open spec fn reports(&self, invocation: InvocationView) -> DiagnosticView {
        diagnosis(invocation, self.config@)
    }

    fn match_node(&self, context: &ResolutionContext, node: SyntaxNode) -> (found: Option<
        MacroInvocation,
    >) {
        match_node(context, node, &self.config)
    }

    fn build(&self, invocation: &MacroInvocation) -> (diagnostic: Diagnostic) {
        build(invocation, &self.config)
    }
}

/// The diagnostics as plain values, in order.
pub open spec fn views(diagnostics: Seq<Diagnostic>) -> Seq<DiagnosticView> {
    diagnostics.map_values(|d: Diagnostic| d@)
}

/// What `rule` reports at `node`: the diagnostic for its match, if it
/// matches.
pub open spec fn finding<R: Rule>(rule: R, program: ProgramView, node: SyntaxNode) -> Option<
    DiagnosticView,
> {
    match rule.finds(program, node) {
        Some(invocation) => Some(rule.reports(invocation)),
        None => None,
    }
}

/// What `rule` reports over `nodes`: the findings at the nodes that match,
/// in the order of the nodes.
pub open spec fn findings<R: Rule>(rule: R, program: ProgramView, nodes: Seq<SyntaxNode>) -> Seq<
    DiagnosticView,
>
    decreases nodes.len(),
{
    if nodes.len() == 0 {
        Seq::empty()
    } else {
        let earlier = findings(rule, program, nodes.drop_last());
        match finding(rule, program, nodes.last()) {
            Some(diagnostic) => earlier.push(diagnostic),
            None => earlier,
        }
    }
}

/// Nodes are checked independently of one another: what is reported over
/// two runs of nodes is what is reported over the first, followed by what
/// is reported over the second.
pub proof fn lemma_findings_concat<R: Rule>(
    rule: R,
    program: ProgramView,
    first: Seq<SyntaxNode>,
    second: Seq<SyntaxNode>,
)
    ensures
        findings(rule, program, first + second) == findings(rule, program, first) + findings(
            rule,
            program,
            second,
        ),
    decreases second.len(),
{
    if second.len() == 0 {
        assert(first + second =~= first);
        assert(findings(rule, program, first) + Seq::<DiagnosticView>::empty() =~= findings(
            rule,
            program,
            first,
        ));
    } else {
        let whole = first + second;
        assert(whole.drop_last() =~= first + second.drop_last());
        assert(whole.last() == second.last());
        lemma_findings_concat(rule, program, first, second.drop_last());
        let earlier = findings(rule, program, second.drop_last());
        match finding(rule, program, second.last()) {
            Some(diagnostic) => {
                assert((findings(rule, program, first) + earlier).push(diagnostic) =~= findings(
                    rule,
                    program,
                    first,
                ) + earlier.push(diagnostic));
            },
            None => {},
        }
    }
}

/// Running a rule again over the same program and the same nodes gives the
/// same diagnostics: what is reported depends on nothing else.
pub proof fn lemma_rerun_reports_the_same<R: Rule>(
    rule: R,
    program: ProgramView,
    nodes: Seq<SyntaxNode>,
    first: Seq<Diagnostic>,
    second: Seq<Diagnostic>,
)
    requires
        views(first) == findings(rule, program, nodes),
        views(second) == findings(rule, program, nodes),
    ensures
        views(first) == views(second),
        first.len() == second.len(),
        forall|i: int|
            0 <= i < first.len() ==> (#[trigger] first[i])@.span == second[i]@.span
                && first[i]@.primary_message == second[i]@.primary_message,
{
    assert(views(first).len() == first.len());
    assert(views(second).len() == second.len());
    assert forall|i: int| 0 <= i < first.len() implies (#[trigger] first[i])@ == second[i]@ by {
        assert(views(first)[i] == first[i]@);
        assert(views(second)[i] == second[i]@);
    }
}

/// The name-swap rule reports once for each node that resolves to an
/// expansion of the target, in the order of the nodes, and for no other
/// node.
pub proof fn lemma_reports_match_targets(
    rule: NameSwapRule,
    program: ProgramView,
    nodes: Seq<SyntaxNode>,
)
    ensures
        findings(rule, program, nodes) == nodes.filter(
            |node: SyntaxNode| invokes(program, node, rule.config@.target),
        ).map_values(
            |node: SyntaxNode| diagnosis(matched(program, node, rule.config@)->0, rule.config@),
        ),
    decreases nodes.len(),
{
    let hit = |node: SyntaxNode| invokes(program, node, rule.config@.target);
    let report = |node: SyntaxNode|
        diagnosis(matched(program, node, rule.config@)->0, rule.config@);
    reveal(Seq::filter);
    if nodes.len() == 0 {
        assert(nodes.filter(hit).map_values(report) =~= Seq::<DiagnosticView>::empty());
    } else {
        lemma_reports_match_targets(rule, program, nodes.drop_last());
        let earlier = nodes.drop_last().filter(hit);
        if hit(nodes.last()) {
            assert(nodes.filter(hit) == earlier.push(nodes.last()));
            assert(earlier.push(nodes.last()).map_values(report) =~= earlier.map_values(
                report,
            ).push(report(nodes.last())));
        } else {
            assert(nodes.filter(hit) == earlier);
        }
    }
}

/// A reported span is always the call site that the host gave for a node
/// that resolves to an expansion of the target.
pub proof fn lemma_reported_span_is_call_site(
    rule: NameSwapRule,
    program: ProgramView,
    node: SyntaxNode,
)
    requires
        finding(rule, program, node) is Some,
    ensures
        program.resolve(node) == (ResolutionView::Expansion {
            name: rule.config@.target,
            call_site: finding(rule, program, node)->0.span,
        }),
{
}

/// Checks one node: matches it and, on a match, builds the diagnostic.
pub fn check_node<R: Rule>(rule: &R, context: &ResolutionContext, node: SyntaxNode) -> (reported:
    Option<Diagnostic>)
    ensures
        reported is Some <==> finding(*rule, context@, node) is Some,
        reported matches Some(d) ==> finding(*rule, context@, node) == Some(d@),
{
    match rule.match_node(context, node) {
        Some(invocation) => Some(rule.build(&invocation)),
        None => None,
    }
}

/// Checks `nodes` one after the other and collects what is reported.
pub fn check_nodes<R: Rule>(rule: &R, context: &ResolutionContext, nodes: &[SyntaxNode]) -> (reported:
    Vec<Diagnostic>)
    ensures
        views(reported@) == findings(*rule, context@, nodes@),
{
    let mut reported: Vec<Diagnostic> = Vec::new();
    let mut i: usize = 0;
    assert(views(reported@) =~= Seq::<DiagnosticView>::empty());
    assert(nodes@.subrange(0, 0) =~= Seq::<SyntaxNode>::empty());
    while i < nodes.len()
        invariant
            i <= nodes.len(),
            views(reported@) == findings(*rule, context@, nodes@.subrange(0, i as int)),
        decreases nodes.len() - i,
    {
        let ghost seen = nodes@.subrange(0, i + 1);
        assert(seen.drop_last() =~= nodes@.subrange(0, i as int));
        assert(seen.last() == nodes@[i as int]);
        let ghost before = reported@;
        match check_node(rule, context, nodes[i]) {
            Some(diagnostic) => {
                reported.push(diagnostic);
                assert(views(reported@) =~= views(before).push(diagnostic@));
            },
            None => {},
        }
        i += 1;
    }
    assert(nodes@.subrange(0, i as int) =~= nodes@);
    reported
}

/// Checks every node of the program, in visiting order.
pub fn check_program<R: Rule>(rule: &R, context: &ResolutionContext) -> (reported: Vec<Diagnostic>)
    ensures
        views(reported@) == findings(*rule, context@, context@.nodes()),
{
    let nodes = context.nodes();
    check_nodes(rule, context, nodes.as_slice())
}

} // verus!
