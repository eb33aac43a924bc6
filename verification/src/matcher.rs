//! Tells whether a node is the root of an invocation of the target
//! construct, by the identity that the host resolved and never by spelling.

use vstd::prelude::*;
use vstd::slice::{slice_subrange, slice_to_vec};
use crate::config::{ConfigView, RuleConfig};
use crate::delimiter::{balanced, is_head, Delimiter};
use crate::resolution::{canonical_name, lemma_qualified_name_is_no_identifier, DefinitionView};
use crate::resolution::{ProgramView, Resolution, ResolutionContext, ResolutionView, SyntaxNode};
use crate::span::SourceSpan;
use crate::syntax::{is_blank, is_identifier, lemma_parse_parts, lemma_parsed_text_balanced, parse};
use crate::syntax::{parse_invocation, well_formed_arguments};

verus! {

/// An invocation of the target construct, found at one node.
#[derive(Clone, Debug, PartialEq, Eq)]
pub struct MacroInvocation {
    /// Canonical name of the invoked construct, as the host resolved it.
    pub resolved_name: Vec<u8>,
    /// The whole invocation in the source, from its path through its closing
    /// delimiter.
    pub span: SourceSpan,
    /// The source text between the delimiters; empty when the text at `span`
    /// does not read as an invocation.
    pub argument_text: Vec<u8>,
    /// Whether a `!` follows the path in the source.
    pub bang: bool,
    /// The kind of delimiter around the arguments in the source.
    pub delimiter: Delimiter,
}

/// An invocation as plain values.
pub struct InvocationView {
    pub resolved_name: Seq<u8>,
    pub span: SourceSpan,
    pub argument_text: Seq<u8>,
    pub bang: bool,
    pub delimiter: Delimiter,
}

impl View for MacroInvocation {
    type V = InvocationView;

    open spec fn view(&self) -> InvocationView {
        InvocationView {
            resolved_name: self.resolved_name@,
            span: self.span,
            argument_text: self.argument_text@,
            bang: self.bang,
            delimiter: self.delimiter,
        }
    }
}

/// The text at `span` divides into the parts of an invocation.
pub open spec fn divides_as_invocation(source: Seq<u8>, span: SourceSpan) -> bool {
    span.fits(source.len()) && parse(span.slice(source)) is Some
}

/// The text at `span` reads as one complete invocation: it divides into the
/// parts of an invocation, and its arguments are balanced, so that its last
/// byte closes the delimiter that its head opened.
pub open spec fn reads_as_invocation(source: Seq<u8>, span: SourceSpan) -> bool {
    &&& divides_as_invocation(source, span)
    &&& balanced(parse(span.slice(source))->0.arguments(span.slice(source)))
}

/// The invocation of `name` that the host located at `span`. Where the text
/// at `span` divides into the parts of an invocation, its arguments and form
/// are taken from the text as they stand; where it does not, the arguments
/// are empty.
pub open spec fn invocation_at(source: Seq<u8>, name: Seq<u8>, span: SourceSpan) -> InvocationView {
    if divides_as_invocation(source, span) {
        let text = span.slice(source);
        let shape = parse(text)->0;
        InvocationView {
            resolved_name: name,
            span,
            argument_text: shape.arguments(text),
            bang: shape.bang,
            delimiter: shape.delimiter,
        }
    } else {
        InvocationView {
            resolved_name: name,
            span,
            argument_text: Seq::empty(),
            bang: false,
            delimiter: Delimiter::Paren,
        }
    }
}

/// `node` is the root of a macro expansion whose canonical name is `target`.
pub open spec fn invokes(program: ProgramView, node: SyntaxNode, target: Seq<u8>) -> bool {
    program.resolve(node) matches ResolutionView::Expansion { name, .. } && name == target
}

/// The match at `node`, if there is one.
pub open spec fn matched(program: ProgramView, node: SyntaxNode, config: ConfigView) -> Option<
    InvocationView,
> {
    match program.resolve(node) {
        ResolutionView::Expansion { name, call_site } => if name == config.target {
            Some(invocation_at(program.source, name, call_site))
        } else {
            None
        },
        _ => None,
    }
}

/// A node matches exactly when it resolves to an expansion of the target.
/// The match carries the resolved name and the call site unchanged. A call
/// of a function, an unresolved node, and an expansion of any other macro,
/// whatever its name resembles, are no match.
pub proof fn lemma_match_iff_target(program: ProgramView, node: SyntaxNode, config: ConfigView)
    ensures
        matched(program, node, config) is Some <==> invokes(program, node, config.target),
        matched(program, node, config) matches Some(found) ==> found.resolved_name == config.target
            && program.resolve(node) == (ResolutionView::Expansion {
            name: config.target,
            call_site: found.span,
        }),
        program.resolve(node) is Unresolved ==> matched(program, node, config) is None,
        program.resolve(node) is Call ==> matched(program, node, config) is None,
        program.resolve(node) matches ResolutionView::Expansion { name, .. } && name
            != config.target ==> matched(program, node, config) is None,
{
}

/// With an identifier as the target, no definition outside the standard
/// library is matched, whatever its item is called: a macro of the user's
/// own that is named like the target is no match.
pub proof fn lemma_like_named_definition_is_no_match(
    program: ProgramView,
    node: SyntaxNode,
    config: ConfigView,
    definition: DefinitionView,
)
    requires
        is_identifier(config.target),
        !definition.standard,
        program.resolve(node) matches ResolutionView::Expansion { name, .. } && name
            == canonical_name(definition),
    ensures
        matched(program, node, config) is None,
{
    lemma_qualified_name_is_no_identifier(definition);
}

/// The span of a match cuts the invocation exactly out of the source. A
/// match with well-formed argument text was read from a text that reads as
/// one complete invocation. Wherever the text at the span reads so, it is
/// made of a head without delimiters or quotes, the opening delimiter, the
/// argument text of the match and the closing delimiter, with nothing
/// before or after, and it is balanced as a whole.
pub proof fn lemma_match_span_round_trip(
    program: ProgramView,
    node: SyntaxNode,
    config: ConfigView,
)
    requires
        matched(program, node, config) is Some,
    ensures
        ({
            let found = matched(program, node, config)->0;
            let text = found.span.slice(program.source);
            &&& well_formed_arguments(found.argument_text) ==> reads_as_invocation(
                program.source,
                found.span,
            )
            &&& reads_as_invocation(program.source, found.span) ==> {
                &&& parse(text)->0.bang == found.bang
                &&& parse(text)->0.delimiter == found.delimiter
                &&& parse(text)->0.arguments(text) == found.argument_text
                &&& is_head(parse(text)->0.head(text))
                &&& text == parse(text)->0.head(text) + seq![found.delimiter.open_byte()]
                    + found.argument_text + seq![found.delimiter.close_byte()]
                &&& balanced(text)
            }
        }),
{
    let found = matched(program, node, config)->0;
    let text = found.span.slice(program.source);
    if !divides_as_invocation(program.source, found.span) {
        assert(is_blank(found.argument_text));
    }
    if reads_as_invocation(program.source, found.span) {
        lemma_parse_parts(text);
        lemma_parsed_text_balanced(text);
    }
}

/// Whether two byte strings are the same.
pub fn same_bytes(left: &[u8], right: &[u8]) -> (same: bool)
    ensures
        same == (left@ == right@),
{
    if left.len() != right.len() {
        return false;
    }
    let mut i: usize = 0;
    while i < left.len()
        invariant
            i <= left.len(),
            left.len() == right.len(),
            forall|k: int| 0 <= k < i ==> left@[k] == right@[k],
        decreases left.len() - i,
    {
        if left[i] != right[i] {
            return false;
        }
        i += 1;
    }
    assert(left@ =~= right@);
    true
}

/// Builds the invocation of `name` that the host located at `span`.
pub fn locate(source: &[u8], name: &[u8], span: SourceSpan) -> (found: MacroInvocation)
    ensures
        found@ == invocation_at(source@, name@, span),
{
    if let Some(text) = span.snippet(source) {
        if let Some(call) = parse_invocation(text) {
            let arguments = slice_subrange(text, call.arguments.lo, call.arguments.hi);
            return MacroInvocation {
                resolved_name: slice_to_vec(name),
                span,
                argument_text: slice_to_vec(arguments),
                bang: call.bang,
                delimiter: call.delimiter,
            };
        }
    }
    MacroInvocation {
        resolved_name: slice_to_vec(name),
        span,
        argument_text: Vec::new(),
        bang: false,
        delimiter: Delimiter::Paren,
    }
}

/// Matches `node` against the target of `config`.
///
/// Gives a match exactly when the node resolves to the expansion of a macro
/// whose canonical name is the target; any other node, an unresolved one
/// included, is no match.
pub fn match_node(context: &ResolutionContext, node: SyntaxNode, config: &RuleConfig) -> (found:
    Option<MacroInvocation>)
    ensures
        found is Some <==> invokes(context@, node, config@.target),
        found is Some <==> matched(context@, node, config@) is Some,
        found matches Some(m) ==> matched(context@, node, config@) == Some(m@),
{
    match context.resolve(node) {
        Some(Resolution::Expansion { name, call_site }) => {
            if same_bytes(name.as_slice(), config.target.as_slice()) {
                Some(locate(context.source.as_slice(), name.as_slice(), *call_site))
            } else {
                None
            }
        },
        _ => None,
    }
}

} // verus!
