//! The diagnostic that the rule hands back for a match, with its note or
//! its suggested edit.

use vstd::prelude::*;
use vstd::slice::{slice_subrange, slice_to_vec};
use vstd::string::StringSliceAdditionalSpecFns;
use crate::config::{ConfigView, RuleConfig, Strategy};
use crate::delimiter::{balanced, is_head, is_plain, lemma_head_replacement};
use crate::delimiter::{read, Reading};
use crate::matcher::{divides_as_invocation, invocation_at, matched, reads_as_invocation};
use crate::matcher::{InvocationView, MacroInvocation};
use crate::resolution::{ProgramView, SyntaxNode};
use crate::span::SourceSpan;
use crate::syntax::{arguments_well_formed, invocation_text, is_identifier, is_identifier_text};
use crate::syntax::{is_blank, lemma_parse_parts, lemma_parse_rendered, lemma_parsed_text_balanced};
use crate::syntax::{parse, render_invocation, well_formed_arguments, ByteClass, BANG};

verus! {

/// The host's scale of severities. This rule reports at `Pedantic`: advice
/// that never blocks a build.
#[derive(Clone, Copy, Debug, PartialEq, Eq, Structural)]
pub enum Severity {
    Pedantic,
    Warning,
    Error,
}

/// How safe it is to apply a suggested edit without a human looking at it.
#[derive(Clone, Copy, Debug, PartialEq, Eq, Structural)]
pub enum Confidence {
    /// The edit is known to be right.
    ExactCorrect,
    /// The edit is placed correctly, but what it means was not checked.
    PlausibleButUnverified,
}

/// An explanation attached to a place in the source.
#[derive(Clone, Debug, PartialEq, Eq)]
pub struct Note {
    pub span: SourceSpan,
    pub message: Vec<u8>,
}

/// A replacement of the bytes at `target_span` by `replacement_text`.
#[derive(Clone, Debug, PartialEq, Eq)]
pub struct SuggestedEdit {
    pub target_span: SourceSpan,
    pub replacement_text: Vec<u8>,
    pub confidence: Confidence,
}

/// What the rule reports for one match.
#[derive(Clone, Debug, PartialEq, Eq)]
pub struct Diagnostic {
    pub rule_id: Vec<u8>,
    pub severity: Severity,
    /// Where the offending invocation stands.
    pub span: SourceSpan,
    pub primary_message: Vec<u8>,
    pub note: Option<Note>,
    pub suggested_edit: Option<SuggestedEdit>,
}

/// A note as plain values.
pub struct NoteView {
    pub span: SourceSpan,
    pub message: Seq<u8>,
}

/// A suggested edit as plain values.
pub struct EditView {
    pub target_span: SourceSpan,
    pub replacement_text: Seq<u8>,
    pub confidence: Confidence,
}

/// A diagnostic as plain values.
pub struct DiagnosticView {
    pub rule_id: Seq<u8>,
    pub severity: Severity,
    pub span: SourceSpan,
    pub primary_message: Seq<u8>,
    pub note: Option<NoteView>,
    pub suggested_edit: Option<EditView>,
}

impl View for Note {
    type V = NoteView;

    open spec fn view(&self) -> NoteView {
        NoteView { span: self.span, message: self.message@ }
    }
}

impl View for SuggestedEdit {
    type V = EditView;

    open spec fn view(&self) -> EditView {
        EditView {
            target_span: self.target_span,
            replacement_text: self.replacement_text@,
            confidence: self.confidence,
        }
    }
}

impl View for Diagnostic {
    type V = DiagnosticView;

    open spec fn view(&self) -> DiagnosticView {
        DiagnosticView {
            rule_id: self.rule_id@,
            severity: self.severity,
            span: self.span,
            primary_message: self.primary_message@,
            note: match self.note {
                Some(note) => Some(note@),
                None => None,
            },
            suggested_edit: match self.suggested_edit {
                Some(edit) => Some(edit@),
                None => None,
            },
        }
    }
}

impl EditView {
    /// `source` with the bytes at the target span replaced.
    pub open spec fn applied_to(self, source: Seq<u8>) -> Seq<u8>
        recommends
            self.target_span.fits(source.len()),
    {
        source.subrange(0, self.target_span.lo as int) + self.replacement_text + source.subrange(
            self.target_span.hi as int,
            source.len() as int,
        )
    }
}

/// The identifier under which the rule reports.
pub open spec fn rule_id() -> Seq<u8> {
    "near_assert_require".spec_bytes()
}

/// The primary message: it names the construct that was used.
pub open spec fn primary_message(name: Seq<u8>) -> Seq<u8> {
    "used `".spec_bytes() + name + "!` from standard rust".spec_bytes()
}

/// The note: it names the construct to use instead.
pub open spec fn note_message(replacement: Seq<u8>) -> Seq<u8> {
    "use `".spec_bytes() + replacement + "` for near contracts".spec_bytes()
}

/// Whether the diagnostic for `invocation` carries an edit. It does when the
/// configuration asks for one, the replacement is an identifier, and the
/// argument text is well formed: not blank, with no literal left open and
/// with balanced delimiters. Otherwise it carries the note.
pub open spec fn offers_fix(invocation: InvocationView, config: ConfigView) -> bool {
    &&& config.strategy == Strategy::AutoFix
    &&& is_identifier(config.replacement)
    &&& well_formed_arguments(invocation.argument_text)
}

/// The edit that swaps the name of `invocation` for the replacement and
/// keeps its `!`, its delimiters and its argument text as they are.
pub open spec fn name_swap(invocation: InvocationView, config: ConfigView) -> EditView {
    EditView {
        target_span: invocation.span,
        replacement_text: invocation_text(
            config.replacement,
            invocation.bang,
            invocation.delimiter,
            invocation.argument_text,
        ),
        confidence: Confidence::PlausibleButUnverified,
    }
}

/// The diagnostic for `invocation` under `config`.
pub open spec fn diagnosis(invocation: InvocationView, config: ConfigView) -> DiagnosticView {
    DiagnosticView {
        rule_id: rule_id(),
        severity: Severity::Pedantic,
        span: invocation.span,
        primary_message: primary_message(invocation.resolved_name),
        note: if offers_fix(invocation, config) {
            None
        } else {
            Some(NoteView { span: invocation.span, message: note_message(config.replacement) })
        },
        suggested_edit: if offers_fix(invocation, config) {
            Some(name_swap(invocation, config))
        } else {
            None
        },
    }
}

/// A suggested edit is safe to apply to the source in which its invocation
/// was located. In the edited source
/// - everything before and after the span is as it was,
/// - the inserted text reads as one complete invocation of the replacement,
///   with the `!`, the delimiter and the argument text of the invocation,
/// - every byte outside the replaced head is read as it was read before:
///   the edited source is balanced if and only if the source was,
/// and the edit is marked as plausible, never as exact.
pub proof fn lemma_suggested_edit_is_safe(
    source: Seq<u8>,
    invocation: InvocationView,
    config: ConfigView,
)
    requires
        diagnosis(invocation, config).suggested_edit is Some,
        invocation == invocation_at(source, invocation.resolved_name, invocation.span),
    ensures
        ({
            let edit = diagnosis(invocation, config).suggested_edit->0;
            let edited = edit.applied_to(source);
            let lo = invocation.span.lo as int;
            let hi = invocation.span.hi as int;
            let end = lo + edit.replacement_text.len();
            let inserted = edited.subrange(lo, end);
            &&& reads_as_invocation(source, invocation.span)
            &&& edit.target_span == invocation.span
            &&& edit.confidence == Confidence::PlausibleButUnverified
            &&& edited.subrange(0, lo) == source.subrange(0, lo)
            &&& edited.subrange(end, edited.len() as int) == source.subrange(
                hi,
                source.len() as int,
            )
            &&& inserted == edit.replacement_text
            &&& parse(inserted) is Some
            &&& inserted.subrange(0, parse(inserted)->0.path_len) == config.replacement
            &&& parse(inserted)->0.bang == invocation.bang
            &&& parse(inserted)->0.delimiter == invocation.delimiter
            &&& parse(inserted)->0.arguments(inserted) == invocation.argument_text
            &&& balanced(inserted)
            &&& read(edited, Reading::start()) == read(source, Reading::start())
            &&& balanced(edited) == balanced(source)
        }),
{
    let edit = diagnosis(invocation, config).suggested_edit->0;
    let edited = edit.applied_to(source);
    let lo = invocation.span.lo as int;
    let hi = invocation.span.hi as int;
    let end = lo + edit.replacement_text.len();
    let inserted = edit.replacement_text;
    if !divides_as_invocation(source, invocation.span) {
        assert(is_blank(invocation.argument_text));
    }
    assert(edited.subrange(0, lo) =~= source.subrange(0, lo));
    assert(edited.subrange(end, edited.len() as int) =~= source.subrange(hi, source.len() as int));
    assert(edited.subrange(lo, end) =~= inserted);
    lemma_parse_rendered(
        config.replacement,
        invocation.bang,
        invocation.delimiter,
        invocation.argument_text,
    );
    assert(inserted.subrange(0, config.replacement.len() as int) =~= config.replacement);
    lemma_parsed_text_balanced(inserted);
    lemma_name_swap_keeps_reading(source, invocation.span, config.replacement);
}

/// Swapping the name of the invocation at `span` changes nothing in how the
/// source is read: its head gives way to another head, and every other byte
/// stays.
pub proof fn lemma_name_swap_keeps_reading(source: Seq<u8>, span: SourceSpan, name: Seq<u8>)
    requires
        divides_as_invocation(source, span),
        is_identifier(name),
    ensures
        ({
            let text = span.slice(source);
            let shape = parse(text)->0;
            let inserted = invocation_text(
                name,
                shape.bang,
                shape.delimiter,
                shape.arguments(text),
            );
            read(
                source.subrange(0, span.lo as int) + inserted + source.subrange(
                    span.hi as int,
                    source.len() as int,
                ),
                Reading::start(),
            ) == read(source, Reading::start())
        }),
{
    let text = span.slice(source);
    let shape = parse(text)->0;
    let inserted = invocation_text(name, shape.bang, shape.delimiter, shape.arguments(text));
    let tail = seq![shape.delimiter.open_byte()] + shape.arguments(text) + seq![
        shape.delimiter.close_byte(),
    ];
    let old_head = shape.head(text);
    let new_head = replacement_head(name, shape.bang);
    lemma_parse_parts(text);
    lemma_replacement_head(name, shape.bang);
    assert(text =~= old_head + tail);
    assert(inserted =~= new_head + tail);
    assert(tail[0] == shape.delimiter.open_byte());
    lemma_head_replacement(source, span.lo as int, span.hi as int, old_head, new_head, tail);
}

/// What the rewrite puts before the opening delimiter: the replacement and,
/// if the invocation has one, the `!`.
pub open spec fn replacement_head(replacement: Seq<u8>, bang: bool) -> Seq<u8> {
    replacement + (if bang {
        seq![BANG]
    } else {
        Seq::empty()
    })
}

/// With an identifier as the replacement, what the rewrite puts before the
/// opening delimiter is a head.
pub proof fn lemma_replacement_head(replacement: Seq<u8>, bang: bool)
    requires
        is_identifier(replacement),
    ensures
        is_head(replacement_head(replacement, bang)),
{
    let head = replacement_head(replacement, bang);
    assert forall|i: int| 0 <= i < head.len() implies is_plain(#[trigger] head[i]) by {
        if i < replacement.len() {
            assert(head[i] == replacement[i]);
            assert(ByteClass::Ident.admits(replacement[i]));
        } else {
            assert(head[i] == BANG);
        }
    }
    assert(head[0] == replacement[0]);
}

/// An edit suggested for a match is safe to apply to the program's source:
/// `lemma_suggested_edit_is_safe` holds of every match. The match was read
/// from a text that reads as one complete invocation, and the edited source
/// is balanced if and only if the source was.
pub proof fn lemma_matched_edit_is_safe(program: ProgramView, node: SyntaxNode, config: ConfigView)
    requires
        matched(program, node, config) is Some,
        diagnosis(matched(program, node, config)->0, config).suggested_edit is Some,
    ensures
        reads_as_invocation(program.source, matched(program, node, config)->0.span),
        balanced(matched(program, node, config)->0.span.slice(program.source)),
        balanced(
            diagnosis(matched(program, node, config)->0, config).suggested_edit->0.applied_to(
                program.source,
            ),
        ) == balanced(program.source),
{
    let found = matched(program, node, config)->0;
    lemma_suggested_edit_is_safe(program.source, found, config);
    lemma_parsed_text_balanced(found.span.slice(program.source));
}

impl SuggestedEdit {
    /// Applies the edit to `source`; `None` when the target span does not
    /// fit the source.
    pub fn apply(&self, source: &[u8]) -> (edited: Option<Vec<u8>>)
        ensures
            edited is Some <==> self.target_span.fits(source@.len()),
            edited matches Some(text) ==> text@ == self@.applied_to(source@),
    {
        if !self.target_span.is_within(source.len()) {
            return None;
        }
        let mut text: Vec<u8> = slice_to_vec(slice_subrange(source, 0, self.target_span.lo));
        text.extend_from_slice(self.replacement_text.as_slice());
        text.extend_from_slice(slice_subrange(source, self.target_span.hi, source.len()));
        assert(text@ =~= self@.applied_to(source@));
        Some(text)
    }
}

/// `before`, `middle` and `after` in one buffer.
fn compose(before: &str, middle: &[u8], after: &str) -> (text: Vec<u8>)
    ensures
        text@ == before.spec_bytes() + middle@ + after.spec_bytes(),
{
    let mut text: Vec<u8> = slice_to_vec(before.as_bytes());
    text.extend_from_slice(middle);
    text.extend_from_slice(after.as_bytes());
    assert(text@ =~= before.spec_bytes() + middle@ + after.spec_bytes());
    text
}

/// Builds the diagnostic for `invocation` under `config`.
///
/// With the note-only strategy the diagnostic carries a note at the span of
/// the invocation and no edit. With the auto-fix strategy it carries the
/// edit that swaps the name, unless the argument text is blank or unbalanced
/// or the replacement is no identifier: then it carries the note instead.
pub fn build(invocation: &MacroInvocation, config: &RuleConfig) -> (diagnostic: Diagnostic)
    ensures
        diagnostic@ == diagnosis(invocation@, config@),
{
    let fix = match config.strategy {
        Strategy::NoteOnly => false,
        Strategy::AutoFix => is_identifier_text(config.replacement.as_slice())
            && arguments_well_formed(invocation.argument_text.as_slice()),
    };
    let rule_id = slice_to_vec("near_assert_require".as_bytes());
    let primary_message = compose(
        "used `",
        invocation.resolved_name.as_slice(),
        "!` from standard rust",
    );
    if fix {
        let replacement_text = render_invocation(
            config.replacement.as_slice(),
            invocation.bang,
            invocation.delimiter,
            invocation.argument_text.as_slice(),
        );
        Diagnostic {
            rule_id,
            severity: Severity::Pedantic,
            span: invocation.span,
            primary_message,
            note: None,
            suggested_edit: Some(
                SuggestedEdit {
                    target_span: invocation.span,
                    replacement_text,
                    confidence: Confidence::PlausibleButUnverified,
                },
            ),
        }
    } else {
        let message = compose("use `", config.replacement.as_slice(), "` for near contracts");
        Diagnostic {
            rule_id,
            severity: Severity::Pedantic,
            span: invocation.span,
            primary_message,
            note: Some(Note { span: invocation.span, message }),
            suggested_edit: None,
        }
    }
}

} // verus!
