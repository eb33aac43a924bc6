use near_assert_require::config::{RuleConfig, Strategy};
use near_assert_require::resolution::{Definition, Resolution, ResolutionContext, SyntaxNode};
use near_assert_require::rule::NameSwapRule;
use near_assert_require::span::SourceSpan;

#[test]
fn span_fits_a_buffer_up_to_its_end() {
    assert!(SourceSpan::new(0, 0).is_within(0));
    assert!(SourceSpan::new(2, 5).is_within(5));
    assert!(SourceSpan::new(5, 5).is_within(5));
    assert!(!SourceSpan::new(2, 6).is_within(5));
    assert!(!SourceSpan::new(4, 3).is_within(5));
    assert!(!SourceSpan::new(6, 6).is_within(5));
    assert_eq!((SourceSpan::new(1, 2).lo, SourceSpan::new(1, 2).hi), (1, 2));
}

#[test]
fn span_containment_is_inclusive() {
    let outer = SourceSpan::new(2, 8);
    assert!(outer.contains(&outer));
    assert!(outer.contains(&SourceSpan::new(2, 3)));
    assert!(outer.contains(&SourceSpan::new(7, 8)));
    assert!(!outer.contains(&SourceSpan::new(1, 3)));
    assert!(!outer.contains(&SourceSpan::new(7, 9)));
}

#[test]
fn snippet_is_the_selected_text() {
    let source = b"let x = 1;";
    assert_eq!(SourceSpan::new(4, 5).snippet(source), Some(&b"x"[..]));
    assert_eq!(SourceSpan::new(0, 10).snippet(source), Some(&source[..]));
    assert_eq!(SourceSpan::new(10, 10).snippet(source), Some(&b""[..]));
    assert_eq!(SourceSpan::new(0, 11).snippet(source), None);
    assert_eq!(SourceSpan::new(5, 4).snippet(source), None);
}

#[test]
fn default_configuration_flags_assert_and_recommends_require() {
    let config = RuleConfig::default();
    assert_eq!(config.strategy, Strategy::NoteOnly);
    assert_eq!(config.target, b"assert".to_vec());
    assert_eq!(config.replacement, b"require".to_vec());
    assert_eq!(config, RuleConfig::with_strategy(Strategy::NoteOnly));
    assert_eq!(config, RuleConfig::new(Strategy::NoteOnly, "assert", "require"));
}

#[test]
fn configuration_holds_what_it_was_given() {
    let config = RuleConfig::new(Strategy::AutoFix, "unwrap", "expect");
    assert_eq!(config.strategy, Strategy::AutoFix);
    assert_eq!(config.target, b"unwrap".to_vec());
    assert_eq!(config.replacement, b"expect".to_vec());
    let auto = RuleConfig::with_strategy(Strategy::AutoFix);
    assert_eq!((auto.strategy, &auto.target[..]), (Strategy::AutoFix, &b"assert"[..]));
    assert_eq!(NameSwapRule::new(config.clone()).config, config);
}

#[test]
fn context_hands_out_nodes_in_visiting_order() {
    let mut context = ResolutionContext::new(b"a!(b)".to_vec());
    assert!(context.table.is_empty());
    assert!(context.nodes().is_empty());
    assert_eq!(context.resolve(SyntaxNode { id: 0 }), None);

    let first = context.add(Resolution::Unresolved);
    let expansion =
        Resolution::Expansion { name: b"a".to_vec(), call_site: SourceSpan::new(0, 5) };
    let second = context.add(expansion.clone());
    let third = context.add(Resolution::Call { name: b"b".to_vec() });

    assert_eq!((first.id, second.id, third.id), (0, 1, 2));
    assert_eq!(context.table.len(), 3);
    assert_eq!(context.nodes(), vec![first, second, third]);
    assert_eq!(context.source, b"a!(b)".to_vec());
    assert_eq!(context.resolve(first), Some(&Resolution::Unresolved));
    assert_eq!(context.resolve(second), Some(&expansion));
    assert_eq!(context.resolve(third), Some(&Resolution::Call { name: b"b".to_vec() }));
    assert_eq!(context.resolve(SyntaxNode { id: 3 }), None);
}

#[test]
fn canonical_name_tells_standard_definitions_from_others() {
    let standard = Definition { standard: true, krate: b"core".to_vec(), item: b"assert".to_vec() };
    assert_eq!(standard.canonical_name(), b"assert".to_vec());
    let sibling =
        Definition { standard: true, krate: b"core".to_vec(), item: b"debug_assert".to_vec() };
    assert_eq!(sibling.canonical_name(), b"debug_assert".to_vec());
    let own = Definition { standard: false, krate: b"my_crate".to_vec(), item: b"assert".to_vec() };
    assert_eq!(own.canonical_name(), b"my_crate::assert".to_vec());
    let nameless = Definition { standard: false, krate: Vec::new(), item: b"assert".to_vec() };
    assert_eq!(nameless.canonical_name(), b"::assert".to_vec());
    assert_eq!(
        own.expansion(SourceSpan::new(2, 9)),
        Resolution::Expansion { name: b"my_crate::assert".to_vec(), call_site: SourceSpan::new(2, 9) }
    );
    assert_eq!(
        standard.expansion(SourceSpan::new(0, 3)),
        Resolution::Expansion { name: b"assert".to_vec(), call_site: SourceSpan::new(0, 3) }
    );
}
