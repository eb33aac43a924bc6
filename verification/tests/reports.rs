use near_assert_require::config::{RuleConfig, Strategy};
use near_assert_require::diagnostic::{Confidence, Severity};
use near_assert_require::resolution::{Definition, Resolution, ResolutionContext};
use near_assert_require::rule::{check_program, NameSwapRule};
use near_assert_require::span::SourceSpan;

fn expansion(name: &[u8], lo: usize, hi: usize) -> Resolution {
    Resolution::Expansion { name: name.to_vec(), call_site: SourceSpan::new(lo, hi) }
}

fn holds(text: &[u8], part: &[u8]) -> bool {
    text.windows(part.len()).any(|window| window == part)
}

#[test]
fn assert_is_flagged_with_a_rewrite_to_require() {
    let source = b"assert(balance > 0);";
    let mut context = ResolutionContext::new(source.to_vec());
    context.add(expansion(b"assert", 0, 19));
    let rule = NameSwapRule::new(RuleConfig::with_strategy(Strategy::AutoFix));

    let reported = check_program(&rule, &context);

    assert_eq!(reported.len(), 1);
    let diagnostic = &reported[0];
    assert!(holds(&diagnostic.primary_message, b"assert"));
    assert_eq!(diagnostic.severity, Severity::Pedantic);
    assert_eq!(diagnostic.span, SourceSpan::new(0, 19));
    assert_eq!(diagnostic.note, None);
    let edit = diagnostic.suggested_edit.as_ref().unwrap();
    assert_eq!(edit.target_span, SourceSpan::new(0, 19));
    assert_eq!(edit.replacement_text, b"require(balance > 0)".to_vec());
    assert!(holds(&edit.replacement_text, b"balance > 0"));
    assert_eq!(edit.confidence, Confidence::PlausibleButUnverified);
    assert_eq!(edit.apply(source), Some(b"require(balance > 0);".to_vec()));
}

#[test]
fn assert_is_flagged_with_a_note_by_default() {
    let source = b"assert!(x > 5);";
    let mut context = ResolutionContext::new(source.to_vec());
    context.add(expansion(b"assert", 0, 14));
    let rule = NameSwapRule::new(RuleConfig::default());

    let reported = check_program(&rule, &context);

    assert_eq!(reported.len(), 1);
    assert_eq!(reported[0].primary_message, b"used `assert!` from standard rust".to_vec());
    let note = reported[0].note.as_ref().unwrap();
    assert_eq!(note.span, SourceSpan::new(0, 14));
    assert_eq!(note.message, b"use `require` for near contracts".to_vec());
    assert_eq!(reported[0].suggested_edit, None);
}

#[test]
fn debug_assert_is_not_flagged() {
    let source = b"debug_assert(balance > 0);";
    let mut context = ResolutionContext::new(source.to_vec());
    context.add(expansion(b"debug_assert", 0, 25));

    for strategy in [Strategy::NoteOnly, Strategy::AutoFix] {
        let rule = NameSwapRule::new(RuleConfig::with_strategy(strategy));
        assert!(check_program(&rule, &context).is_empty());
    }
}

#[test]
fn function_named_assert_is_not_flagged() {
    let source = b"fn assert(ok: bool) {} fn main() { assert(true); }";
    let mut context = ResolutionContext::new(source.to_vec());
    context.add(Resolution::Call { name: b"assert".to_vec() });
    context.add(Resolution::Unresolved);
    let rule = NameSwapRule::new(RuleConfig::with_strategy(Strategy::AutoFix));

    assert!(check_program(&rule, &context).is_empty());
}

#[test]
fn source_without_assertions_reports_nothing() {
    let source = b"let total = price + tax; log(total);";
    let mut context = ResolutionContext::new(source.to_vec());
    context.add(Resolution::Unresolved);
    context.add(Resolution::Unresolved);
    context.add(Resolution::Call { name: b"log".to_vec() });
    context.add(expansion(b"println", 25, 35));
    let untouched = context.clone();
    let rule = NameSwapRule::new(RuleConfig::default());

    assert!(check_program(&rule, &context).is_empty());
    assert_eq!(context, untouched);

    let empty = ResolutionContext::new(Vec::new());
    assert!(check_program(&rule, &empty).is_empty());
}

#[test]
fn nested_assert_is_reported_at_its_own_span() {
    let source = b"if cond { assert(x); }";
    let mut context = ResolutionContext::new(source.to_vec());
    let enclosing = SourceSpan::new(0, 22);
    context.add(Resolution::Unresolved);
    context.add(Resolution::Unresolved);
    context.add(Resolution::Unresolved);
    context.add(expansion(b"assert", 10, 19));
    context.add(Resolution::Unresolved);
    let rule = NameSwapRule::new(RuleConfig::with_strategy(Strategy::AutoFix));

    let reported = check_program(&rule, &context);

    assert_eq!(reported.len(), 1);
    let span = reported[0].span;
    assert_eq!(span, SourceSpan::new(10, 19));
    assert_eq!(span.snippet(source), Some(&b"assert(x)"[..]));
    assert_ne!(span, enclosing);
    assert!(enclosing.contains(&span));
    assert!(!span.contains(&enclosing));
    let edit = reported[0].suggested_edit.as_ref().unwrap();
    assert_eq!(edit.apply(source), Some(b"if cond { require(x); }".to_vec()));
}

#[test]
fn assert_with_an_open_string_literal_gets_the_note() {
    let source = b"assert!(\"a)";
    let mut context = ResolutionContext::new(source.to_vec());
    context.add(expansion(b"assert", 0, 11));
    let rule = NameSwapRule::new(RuleConfig::with_strategy(Strategy::AutoFix));

    let reported = check_program(&rule, &context);

    assert_eq!(reported.len(), 1);
    assert_eq!(reported[0].span, SourceSpan::new(0, 11));
    assert_eq!(reported[0].suggested_edit, None);
    let note = reported[0].note.as_ref().unwrap();
    assert_eq!(note.span, SourceSpan::new(0, 11));
    assert_eq!(note.message, b"use `require` for near contracts".to_vec());
}

#[test]
fn assert_on_a_string_with_a_bracket_is_rewritten() {
    let source = b"assert!(s == \"(\", \"no paren\");";
    let mut context = ResolutionContext::new(source.to_vec());
    context.add(expansion(b"assert", 0, 29));
    let rule = NameSwapRule::new(RuleConfig::with_strategy(Strategy::AutoFix));

    let reported = check_program(&rule, &context);

    assert_eq!(reported.len(), 1);
    assert_eq!(reported[0].note, None);
    let edit = reported[0].suggested_edit.as_ref().unwrap();
    assert_eq!(edit.replacement_text, b"require!(s == \"(\", \"no paren\")".to_vec());
    assert_eq!(edit.confidence, Confidence::PlausibleButUnverified);
    assert_eq!(edit.apply(source), Some(b"require!(s == \"(\", \"no paren\");".to_vec()));
}

#[test]
fn macro_of_the_user_named_assert_is_not_flagged() {
    let source = b"assert!(x);";
    let own = Definition { standard: false, krate: b"my_contract".to_vec(), item: b"assert".to_vec() };
    let std = Definition { standard: true, krate: b"core".to_vec(), item: b"assert".to_vec() };
    let rule = NameSwapRule::new(RuleConfig::with_strategy(Strategy::AutoFix));

    let mut context = ResolutionContext::new(source.to_vec());
    context.add(own.expansion(SourceSpan::new(0, 10)));
    assert!(check_program(&rule, &context).is_empty());

    let mut context = ResolutionContext::new(source.to_vec());
    context.add(std.expansion(SourceSpan::new(0, 10)));
    assert_eq!(check_program(&rule, &context).len(), 1);
}
