use near_assert_require::config::{RuleConfig, Strategy};
use near_assert_require::diagnostic::Diagnostic;
use near_assert_require::resolution::{Resolution, ResolutionContext, SyntaxNode};
use near_assert_require::rule::{check_node, check_nodes, check_program, NameSwapRule, Rule};
use near_assert_require::span::SourceSpan;

const SOURCE: &[u8] = b"assert!(a); debug_assert!(b); f(assert!(c)); assert!(d(); assert(e)";

fn program() -> ResolutionContext {
    let mut context = ResolutionContext::new(SOURCE.to_vec());
    for (name, lo, hi) in [
        (&b"assert"[..], 0, 10),
        (b"debug_assert", 12, 28),
        (b"assert", 32, 42),
        (b"assert", 45, 56),
        (b"assert", 58, 67),
    ] {
        context.add(Resolution::Unresolved);
        context.add(Resolution::Expansion { name: name.to_vec(), call_site: SourceSpan::new(lo, hi) });
    }
    context.add(Resolution::Call { name: b"f".to_vec() });
    context
}

fn spans(reported: &[Diagnostic]) -> Vec<(usize, usize)> {
    reported.iter().map(|d| (d.span.lo, d.span.hi)).collect()
}

#[test]
fn program_is_checked_node_by_node_in_order() {
    let context = program();
    let rule = NameSwapRule::new(RuleConfig::default());
    let reported = check_program(&rule, &context);
    assert_eq!(spans(&reported), vec![(0, 10), (32, 42), (45, 56), (58, 67)]);
    for diagnostic in &reported {
        assert!(diagnostic.note.is_some());
        assert_eq!(diagnostic.primary_message, b"used `assert!` from standard rust".to_vec());
    }
}

#[test]
fn reported_spans_are_the_call_sites_of_the_target() {
    let context = program();
    let rule = NameSwapRule::new(RuleConfig::default());
    let reported = check_program(&rule, &context);
    let mut expected = Vec::new();
    for resolution in &context.table {
        if let Resolution::Expansion { name, call_site } = resolution {
            if name == b"assert" {
                expected.push((call_site.lo, call_site.hi));
            }
        }
    }
    assert_eq!(spans(&reported), expected);
}

#[test]
fn auto_fix_is_decided_for_each_node_on_its_own() {
    let context = program();
    let rule = NameSwapRule::new(RuleConfig::with_strategy(Strategy::AutoFix));
    let reported = check_program(&rule, &context);
    let edits: Vec<Option<Vec<u8>>> = reported
        .iter()
        .map(|d| d.suggested_edit.as_ref().map(|e| e.replacement_text.clone()))
        .collect();
    assert_eq!(
        edits,
        vec![
            Some(b"require!(a)".to_vec()),
            Some(b"require!(c)".to_vec()),
            None,
            Some(b"require(e)".to_vec()),
        ]
    );
    assert!(reported[2].note.is_some());
}

#[test]
fn checking_twice_reports_the_same() {
    let context = program();
    for strategy in [Strategy::NoteOnly, Strategy::AutoFix] {
        let rule = NameSwapRule::new(RuleConfig::with_strategy(strategy));
        let first = check_program(&rule, &context);
        let second = check_program(&rule, &context);
        assert_eq!(first, second);
        assert_eq!(check_nodes(&rule, &context, &context.nodes()), first);
    }
}

#[test]
fn nodes_are_checked_in_the_order_given() {
    let context = program();
    let rule = NameSwapRule::new(RuleConfig::default());
    let nodes = [
        SyntaxNode { id: 9 },
        SyntaxNode { id: 3 },
        SyntaxNode { id: 1 },
        SyntaxNode { id: 400 },
        SyntaxNode { id: 1 },
        SyntaxNode { id: 10 },
    ];
    let reported = check_nodes(&rule, &context, &nodes);
    assert_eq!(spans(&reported), vec![(58, 67), (0, 10), (0, 10)]);
    assert!(check_nodes(&rule, &context, &[]).is_empty());
}

#[test]
fn single_node_check_is_match_then_build() {
    let context = program();
    let rule = NameSwapRule::new(RuleConfig::with_strategy(Strategy::AutoFix));
    for node in context.nodes() {
        let expected = rule.match_node(&context, node).map(|found| rule.build(&found));
        assert_eq!(check_node(&rule, &context, node), expected);
    }
    assert_eq!(check_node(&rule, &context, SyntaxNode { id: 11 }), None);
    assert!(check_node(&rule, &context, SyntaxNode { id: 1 }).is_some());
    assert_eq!(check_node(&rule, &context, SyntaxNode { id: 3 }), None);
}

#[test]
fn nodes_are_checked_independently_of_one_another() {
    let context = program();
    let rule = NameSwapRule::new(RuleConfig::with_strategy(Strategy::AutoFix));
    let nodes = context.nodes();
    let whole = check_program(&rule, &context);
    for cut in 0..=nodes.len() {
        let mut joined = check_nodes(&rule, &context, &nodes[..cut]);
        joined.extend(check_nodes(&rule, &context, &nodes[cut..]));
        assert_eq!(joined, whole);
    }
}
