//! The surface syntax of an invocation: a path, an optional `!`, and the
//! arguments between a pair of delimiters.

use vstd::prelude::*;
use crate::delimiter::{balanced, is_head, is_plain, read, step, Delimiter, Mode};
use crate::delimiter::{lemma_plain_text_is_inert, lemma_read_below, lemma_read_concat};
use crate::delimiter::{lemma_read_first, Reading};
use crate::span::SourceSpan;

verus! {

pub const BANG: u8 = 0x21;

pub const COLON: u8 = 0x3a;

pub const UNDERSCORE: u8 = 0x5f;

/// A class of bytes of which a run is read at once.
#[derive(Clone, Copy, Debug, PartialEq, Eq, Structural)]
pub enum ByteClass {
    /// Space, tab, line feed and carriage return.
    Space,
    /// ASCII letters, digits and the underscore.
    Ident,
}

/// `byte` can begin an identifier: an ASCII letter or the underscore.
pub open spec fn is_ident_start(byte: u8) -> bool {
    byte == UNDERSCORE || (0x41 <= byte <= 0x5a) || (0x61 <= byte <= 0x7a)
}

impl ByteClass {
    pub open spec fn admits(self, byte: u8) -> bool {
        match self {
            ByteClass::Space => byte == 0x20 || byte == 0x09 || byte == 0x0a || byte == 0x0d,
            ByteClass::Ident => is_ident_start(byte) || (0x30 <= byte <= 0x39),
        }
    }

    pub fn accepts(self, byte: u8) -> (ok: bool)
        ensures
            ok == self.admits(byte),
    {
        match self {
            ByteClass::Space => byte == 0x20 || byte == 0x09 || byte == 0x0a || byte == 0x0d,
            ByteClass::Ident => starts_identifier(byte) || (0x30 <= byte && byte <= 0x39),
        }
    }
}

pub fn starts_identifier(byte: u8) -> (ok: bool)
    ensures
        ok == is_ident_start(byte),
{
    byte == UNDERSCORE || (0x41 <= byte && byte <= 0x5a) || (0x61 <= byte && byte <= 0x7a)
}

/// A non-empty run of identifier bytes that does not begin with a digit.
pub open spec fn is_identifier(text: Seq<u8>) -> bool {
    &&& text.len() > 0
    &&& is_ident_start(text[0])
    &&& forall|i: int| 0 <= i < text.len() ==> ByteClass::Ident.admits(#[trigger] text[i])
}

/// Nothing but white space; the empty text is blank.
pub open spec fn is_blank(text: Seq<u8>) -> bool {
    forall|i: int| 0 <= i < text.len() ==> ByteClass::Space.admits(#[trigger] text[i])
}

/// The first position at or after `from` whose byte is not of `class`, or the
/// length of `text` when every byte from `from` on is of it.
pub open spec fn run_end(text: Seq<u8>, from: int, class: ByteClass) -> int
    decreases text.len() - from,
{
    if 0 <= from < text.len() && class.admits(text[from]) {
        run_end(text, from + 1, class)
    } else {
        from
    }
}

/// Where the path that begins at `from` ends: identifiers joined by `::`.
/// `None` when no identifier begins at `from` or after a `::`.
pub open spec fn path_end(text: Seq<u8>, from: int) -> Option<int>
    decreases text.len() - from,
{
    if 0 <= from < text.len() && is_ident_start(text[from]) {
        let end = run_end(text, from + 1, ByteClass::Ident);
        if from < end && end + 1 < text.len() && text[end] == COLON && text[end + 1] == COLON {
            path_end(text, end + 2)
        } else {
            Some(end)
        }
    } else {
        None
    }
}

/// The segments of the path that begins at `from`: the identifiers between
/// its `::`.
pub open spec fn path_segments(text: Seq<u8>, from: int) -> Seq<Seq<u8>>
    decreases text.len() - from,
{
    if 0 <= from < text.len() && is_ident_start(text[from]) {
        let end = run_end(text, from + 1, ByteClass::Ident);
        let first = text.subrange(from, end);
        if from < end && end + 1 < text.len() && text[end] == COLON && text[end + 1] == COLON {
            seq![first] + path_segments(text, end + 2)
        } else {
            seq![first]
        }
    } else {
        Seq::empty()
    }
}

/// How a text divides into the parts of an invocation. The arguments run
/// from `args_start` to `args_end`, where the closing delimiter stands as
/// the last byte of the text.
pub struct Shape {
    pub path_len: int,
    pub bang: bool,
    pub delimiter: Delimiter,
    pub args_start: int,
    pub args_end: int,
}

impl Shape {
    /// The argument text of an invocation `text` of this shape.
    pub open spec fn arguments(self, text: Seq<u8>) -> Seq<u8> {
        text.subrange(self.args_start, self.args_end)
    }

    /// What stands before the opening delimiter.
    pub open spec fn head(self, text: Seq<u8>) -> Seq<u8> {
        text.subrange(0, self.args_start - 1)
    }
}

/// Divides `text` into the parts of an invocation: a path; optional white
/// space; an optional `!` with optional white space after it; an opening
/// delimiter; the arguments; and, as the last byte of the text, a closing
/// delimiter of the same kind. `None` when `text` is not of that form.
///
/// The arguments are whatever stands between the two delimiters. Whether
/// they are balanced, so that the last byte closes what the first delimiter
/// opened and the text is one invocation and no more, is what `balanced`
/// says of them.
///
/// The texts that are divided are exactly those that `spelled` gives:
/// see `lemma_parse_is_spelled` and `lemma_parse_spelled`.
pub open spec fn parse(text: Seq<u8>) -> Option<Shape> {
    match path_end(text, 0) {
        None => None,
        Some(path_len) => {
            let mark = run_end(text, path_len, ByteClass::Space);
            let bang = mark < text.len() && text[mark] == BANG;
            let at = if bang {
                run_end(text, mark + 1, ByteClass::Space)
            } else {
                mark
            };
            if 0 <= at && at + 1 < text.len() {
                match Delimiter::opened_by(text[at]) {
                    Some(delimiter) => if text[text.len() - 1] == delimiter.close_byte() {
                        Some(
                            Shape {
                                path_len,
                                bang,
                                delimiter,
                                args_start: at + 1,
                                args_end: text.len() - 1,
                            },
                        )
                    } else {
                        None
                    },
                    None => None,
                }
            } else {
                None
            }
        },
    }
}

/// The canonical spelling of an invocation: the name, `!` if `bang`, and the
/// arguments between the delimiters, with no white space added.
pub open spec fn invocation_text(
    name: Seq<u8>,
    bang: bool,
    delimiter: Delimiter,
    arguments: Seq<u8>,
) -> Seq<u8> {
    name + (if bang {
        seq![BANG]
    } else {
        Seq::empty()
    }) + seq![delimiter.open_byte()] + arguments + seq![delimiter.close_byte()]
}

/// The text of a path: its segments joined by `::`.
pub open spec fn path_text(segments: Seq<Seq<u8>>) -> Seq<u8>
    decreases segments.len(),
{
    if segments.len() == 0 {
        Seq::empty()
    } else if segments.len() == 1 {
        segments[0]
    } else {
        segments[0] + seq![COLON, COLON] + path_text(segments.drop_first())
    }
}

/// At least one segment, and each an identifier.
pub open spec fn are_path_segments(segments: Seq<Seq<u8>>) -> bool {
    &&& segments.len() > 0
    &&& forall|i: int| 0 <= i < segments.len() ==> is_identifier(#[trigger] segments[i])
}

/// An invocation spelled in full: the path, white space `gap`, then `!` and
/// white space `bang_gap` if `bang`, and the arguments between the
/// delimiters.
pub open spec fn spelled(
    segments: Seq<Seq<u8>>,
    gap: Seq<u8>,
    bang: bool,
    bang_gap: Seq<u8>,
    delimiter: Delimiter,
    arguments: Seq<u8>,
) -> Seq<u8> {
    path_text(segments) + gap + (if bang {
        seq![BANG] + bang_gap
    } else {
        Seq::empty()
    }) + seq![delimiter.open_byte()] + arguments + seq![delimiter.close_byte()]
}

/// Argument text that a rewrite may carry over: not blank, no string or
/// character literal left open, and balanced in its delimiters.
///
/// A delimiter inside a string or character literal is part of the literal
/// and does not count: `s == "("` is well formed, `"a` and `f(x` are not.
pub open spec fn well_formed_arguments(arguments: Seq<u8>) -> bool {
    !is_blank(arguments) && balanced(arguments)
}

/// A run ends inside the text, holds only bytes of its class, and stops at
/// the first byte that is not of it.
pub proof fn lemma_run_end(text: Seq<u8>, from: int, class: ByteClass)
    requires
        0 <= from <= text.len(),
    ensures
        from <= run_end(text, from, class) <= text.len(),
        forall|i: int| from <= i < run_end(text, from, class) ==> class.admits(#[trigger] text[i]),
        run_end(text, from, class) < text.len() ==> !class.admits(
            text[run_end(text, from, class)],
        ),
    decreases text.len() - from,
{
    if from < text.len() && class.admits(text[from]) {
        lemma_run_end(text, from + 1, class);
    }
}

/// The end of a run is the only position of which `lemma_run_end` holds.
pub proof fn lemma_run_end_unique(text: Seq<u8>, from: int, class: ByteClass, end: int)
    requires
        0 <= from <= end <= text.len(),
        forall|i: int| from <= i < end ==> class.admits(#[trigger] text[i]),
        end < text.len() ==> !class.admits(text[end]),
    ensures
        run_end(text, from, class) == end,
    decreases end - from,
{
    if from < end {
        assert(class.admits(text[from]));
        lemma_run_end_unique(text, from + 1, class, end);
    }
}

/// A path is not empty, ends inside the text, and holds only identifier
/// bytes and colons.
pub proof fn lemma_path_end(text: Seq<u8>, from: int)
    requires
        0 <= from <= text.len(),
        path_end(text, from) is Some,
    ensures
        from < path_end(text, from)->0 <= text.len(),
        forall|i: int|
            from <= i < path_end(text, from)->0 ==> ByteClass::Ident.admits(#[trigger] text[i])
                || text[i] == COLON,
    decreases text.len() - from,
{
    let end = run_end(text, from + 1, ByteClass::Ident);
    lemma_run_end(text, from + 1, ByteClass::Ident);
    if from < end && end + 1 < text.len() && text[end] == COLON && text[end + 1] == COLON {
        lemma_path_end(text, end + 2);
    }
}

/// In a text that reads as an invocation, the head holds no delimiter, the
/// delimiters enclose the arguments, and the parts follow one another
/// without a gap.
pub proof fn lemma_parse_parts(text: Seq<u8>)
    requires
        parse(text) is Some,
    ensures
        0 < parse(text)->0.path_len < parse(text)->0.args_start <= parse(text)->0.args_end,
        parse(text)->0.args_end == text.len() - 1,
        is_head(parse(text)->0.head(text)),
        text == parse(text)->0.head(text) + seq![parse(text)->0.delimiter.open_byte()] + parse(
            text,
        )->0.arguments(text) + seq![parse(text)->0.delimiter.close_byte()],
{
    let shape = parse(text)->0;
    let path_len = path_end(text, 0)->0;
    lemma_path_end(text, 0);
    let mark = run_end(text, path_len, ByteClass::Space);
    lemma_run_end(text, path_len, ByteClass::Space);
    if shape.bang {
        lemma_run_end(text, mark + 1, ByteClass::Space);
    }
    let head = shape.head(text);
    assert forall|i: int| 0 <= i < head.len() implies is_plain(#[trigger] head[i]) by {
        assert(head[i] == text[i]);
        if i < path_len {
            assert(ByteClass::Ident.admits(text[i]) || text[i] == COLON);
        } else if i < mark {
            assert(ByteClass::Space.admits(text[i]));
        } else if i == mark {
            assert(text[i] == BANG);
        } else {
            assert(ByteClass::Space.admits(text[i]));
        }
    }
    assert(head[0] == text[0]);
    assert(text =~= head + seq![shape.delimiter.open_byte()] + shape.arguments(text) + seq![
        shape.delimiter.close_byte(),
    ]);
}

/// An invocation whose arguments are balanced is balanced as a whole: its
/// last byte closes the delimiter that was opened after its head.
pub proof fn lemma_parsed_text_balanced(text: Seq<u8>)
    requires
        parse(text) is Some,
        balanced(parse(text)->0.arguments(text)),
    ensures
        balanced(text),
{
    let shape = parse(text)->0;
    let kind = shape.delimiter;
    let none = Seq::<Delimiter>::empty();
    let start = Reading::start();
    let inside = Reading { mode: Mode::Code, open: none.push(kind) };
    let head = shape.head(text);
    let arguments = shape.arguments(text);
    let closing = seq![kind.close_byte()];
    lemma_parse_parts(text);
    lemma_plain_text_is_inert(head, none);
    lemma_read_first(kind.open_byte(), arguments + closing, start);
    assert(step(start, kind.open_byte()) == Some(inside));
    let end = read(arguments, start)->0;
    lemma_read_below(arguments, none.push(kind), start);
    assert(none.push(kind) + end.open =~= none.push(kind));
    let before_closing = Reading { mode: end.mode, open: none.push(kind) };
    assert(read(arguments, inside) == Some(before_closing));
    assert(read(closing, before_closing) == Some(start)) by {
        let popped = Reading { mode: Mode::Code, open: none.push(kind).drop_last() };
        assert(end.mode.at_rest());
        assert(Delimiter::opened_by(closing[0]) is None);
        assert(Delimiter::closed_by(closing[0]) == Some(kind));
        assert(none.push(kind).last() == kind);
        assert(step(before_closing, closing[0]) == Some(popped));
        assert(popped.open =~= none);
        assert(closing.drop_first().len() == 0);
        assert(read(closing.drop_first(), popped) == Some(popped));
    }
    lemma_read_concat(arguments, closing, inside);
    lemma_read_concat(head, seq![kind.open_byte()] + (arguments + closing), start);
    assert(text =~= head + (seq![kind.open_byte()] + (arguments + closing)));
}

/// What is read as a path is the text of its segments, and each segment is
/// an identifier.
pub proof fn lemma_path_is_spelled(text: Seq<u8>, from: int)
    requires
        0 <= from <= text.len(),
        path_end(text, from) is Some,
    ensures
        are_path_segments(path_segments(text, from)),
        path_text(path_segments(text, from)) == text.subrange(from, path_end(text, from)->0),
    decreases text.len() - from,
{
    let end = run_end(text, from + 1, ByteClass::Ident);
    let first = text.subrange(from, end);
    let segments = path_segments(text, from);
    lemma_run_end(text, from + 1, ByteClass::Ident);
    lemma_path_end(text, from);
    assert(is_identifier(first)) by {
        assert(first[0] == text[from]);
        assert forall|i: int| 0 <= i < first.len() implies ByteClass::Ident.admits(
            #[trigger] first[i],
        ) by {
            assert(first[i] == text[from + i]);
        }
    }
    if from < end && end + 1 < text.len() && text[end] == COLON && text[end + 1] == COLON {
        let rest = path_segments(text, end + 2);
        lemma_path_is_spelled(text, end + 2);
        lemma_path_end(text, end + 2);
        assert(segments.drop_first() =~= rest);
        assert(segments[0] == first);
        assert forall|i: int| 0 <= i < segments.len() implies is_identifier(
            #[trigger] segments[i],
        ) by {
            if i > 0 {
                assert(segments[i] == rest[i - 1]);
            }
        }
        assert(text.subrange(from, path_end(text, from)->0) =~= first + seq![COLON, COLON]
            + text.subrange(end + 2, path_end(text, end + 2)->0));
    } else {
        assert(segments =~= seq![first]);
    }
}

/// What is divided into the parts of an invocation is that invocation
/// spelled in full: the segments of its path, blank gaps, and its
/// arguments between its delimiters.
pub proof fn lemma_parse_is_spelled(text: Seq<u8>)
    requires
        parse(text) is Some,
    ensures
        ({
            let shape = parse(text)->0;
            let mark = run_end(text, shape.path_len, ByteClass::Space);
            let gap = text.subrange(shape.path_len, mark);
            let bang_gap = if shape.bang {
                text.subrange(mark + 1, shape.args_start - 1)
            } else {
                Seq::empty()
            };
            &&& are_path_segments(path_segments(text, 0))
            &&& is_blank(gap)
            &&& is_blank(bang_gap)
            &&& text == spelled(
                path_segments(text, 0),
                gap,
                shape.bang,
                bang_gap,
                shape.delimiter,
                shape.arguments(text),
            )
        }),
{
    let shape = parse(text)->0;
    let mark = run_end(text, shape.path_len, ByteClass::Space);
    lemma_path_end(text, 0);
    lemma_path_is_spelled(text, 0);
    lemma_run_end(text, shape.path_len, ByteClass::Space);
    let gap = text.subrange(shape.path_len, mark);
    assert forall|i: int| 0 <= i < gap.len() implies ByteClass::Space.admits(#[trigger] gap[i]) by {
        assert(gap[i] == text[shape.path_len + i]);
    }
    if shape.bang {
        lemma_run_end(text, mark + 1, ByteClass::Space);
        let bang_gap = text.subrange(mark + 1, shape.args_start - 1);
        assert forall|i: int| 0 <= i < bang_gap.len() implies ByteClass::Space.admits(
            #[trigger] bang_gap[i],
        ) by {
            assert(bang_gap[i] == text[mark + 1 + i]);
        }
        assert(text =~= spelled(
            path_segments(text, 0),
            gap,
            true,
            bang_gap,
            shape.delimiter,
            shape.arguments(text),
        ));
    } else {
        assert(text =~= spelled(
            path_segments(text, 0),
            gap,
            false,
            Seq::empty(),
            shape.delimiter,
            shape.arguments(text),
        ));
    }
}

/// A path that is followed by a byte which continues neither an identifier
/// nor the path is read to its end.
pub proof fn lemma_path_end_spelled(text: Seq<u8>, from: int, segments: Seq<Seq<u8>>)
    requires
        are_path_segments(segments),
        0 <= from,
        from + path_text(segments).len() < text.len(),
        text.subrange(from, from + path_text(segments).len()) == path_text(segments),
        !ByteClass::Ident.admits(text[from + path_text(segments).len()]),
        text[from + path_text(segments).len()] != COLON,
    ensures
        path_end(text, from) == Some(from + path_text(segments).len()),
    decreases segments.len(),
{
    let path = path_text(segments);
    let first = segments[0];
    let n = first.len() as int;
    assert(is_identifier(first));
    assert forall|i: int| 0 <= i < path.len() implies text[from + i] == path[i] by {
        assert(text.subrange(from, from + path.len())[i] == text[from + i]);
    }
    if segments.len() == 1 {
        assert forall|i: int| from + 1 <= i < from + n implies ByteClass::Ident.admits(
            #[trigger] text[i],
        ) by {
            assert(text[i] == first[i - from]);
        }
        assert(text[from] == first[0]);
        lemma_run_end_unique(text, from + 1, ByteClass::Ident, from + n);
    } else {
        let rest = segments.drop_first();
        let tail = path_text(rest);
        assert(path == first + seq![COLON, COLON] + tail);
        assert forall|i: int| 0 <= i < rest.len() implies is_identifier(#[trigger] rest[i]) by {
            assert(rest[i] == segments[i + 1]);
        }
        assert forall|i: int| from + 1 <= i < from + n implies ByteClass::Ident.admits(
            #[trigger] text[i],
        ) by {
            assert(text[i] == path[i - from]);
            assert(path[i - from] == first[i - from]);
        }
        assert(text[from] == path[0] && path[0] == first[0]);
        assert(text[from + n] == path[n] && path[n] == COLON);
        assert(text[from + n + 1] == path[n + 1] && path[n + 1] == COLON);
        lemma_run_end_unique(text, from + 1, ByteClass::Ident, from + n);
        assert(text.subrange(from + n + 2, from + n + 2 + tail.len()) =~= tail) by {
            assert forall|i: int| 0 <= i < tail.len() implies text[from + n + 2 + i] == tail[i] by {
                assert(text[from + n + 2 + i] == path[n + 2 + i]);
            }
        }
        lemma_path_end_spelled(text, from + n + 2, rest);
    }
}

/// Every invocation spelled in full is divided into the parts that it was
/// spelled from: its path, its `!`, its delimiter and its arguments.
pub proof fn lemma_parse_spelled(
    segments: Seq<Seq<u8>>,
    gap: Seq<u8>,
    bang: bool,
    bang_gap: Seq<u8>,
    delimiter: Delimiter,
    arguments: Seq<u8>,
)
    requires
        are_path_segments(segments),
        is_blank(gap),
        is_blank(bang_gap),
    ensures
        ({
            let text = spelled(segments, gap, bang, bang_gap, delimiter, arguments);
            &&& parse(text) == Some(
                Shape {
                    path_len: path_text(segments).len() as int,
                    bang,
                    delimiter,
                    args_start: text.len() - arguments.len() - 1,
                    args_end: text.len() - 1,
                },
            )
            &&& parse(text)->0.arguments(text) == arguments
        }),
{
    let text = spelled(segments, gap, bang, bang_gap, delimiter, arguments);
    let path = path_text(segments);
    let p = path.len() as int;
    let mark = p + gap.len();
    let at = if bang { mark + 1 + bang_gap.len() } else { mark };
    assert(text.len() == at + 1 + arguments.len() + 1);
    assert(text.subrange(0, p) =~= path);
    assert forall|i: int| p <= i < mark implies ByteClass::Space.admits(#[trigger] text[i]) by {
        assert(text[i] == gap[i - p]);
    }
    assert(bang ==> text[mark] == BANG);
    assert forall|i: int| bang && mark + 1 <= i < at implies ByteClass::Space.admits(
        #[trigger] text[i],
    ) by {
        assert(text[i] == bang_gap[i - mark - 1]);
    }
    assert(text[at] == delimiter.open_byte());
    assert(text[text.len() - 1] == delimiter.close_byte());
    assert(!ByteClass::Ident.admits(text[p]) && text[p] != COLON) by {
        if gap.len() > 0 {
            assert(ByteClass::Space.admits(text[p]));
        }
    }
    lemma_path_end_spelled(text, 0, segments);
    lemma_run_end_unique(text, p, ByteClass::Space, mark);
    if bang {
        lemma_run_end_unique(text, mark + 1, ByteClass::Space, at);
    }
    assert(Delimiter::opened_by(text[at]) == Some(delimiter));
    assert(text.subrange(at + 1, text.len() - 1) =~= arguments);
}

/// The canonical spelling of an invocation reads back as that invocation:
/// the name as its path, the same `!`, delimiter and arguments.
pub proof fn lemma_parse_rendered(
    name: Seq<u8>,
    bang: bool,
    delimiter: Delimiter,
    arguments: Seq<u8>,
)
    requires
        is_identifier(name),
    ensures
        parse(invocation_text(name, bang, delimiter, arguments)) == Some(
            Shape {
                path_len: name.len() as int,
                bang,
                delimiter,
                args_start: name.len() + (if bang {
                    2int
                } else {
                    1int
                }),
                args_end: name.len() + (if bang {
                    2int
                } else {
                    1int
                }) + arguments.len(),
            },
        ),
        parse(invocation_text(name, bang, delimiter, arguments))->0.arguments(
            invocation_text(name, bang, delimiter, arguments),
        ) == arguments,
{
    let none = Seq::<u8>::empty();
    assert(path_text(seq![name]) == name);
    lemma_parse_spelled(seq![name], none, bang, none, delimiter, arguments);
    assert(invocation_text(name, bang, delimiter, arguments) =~= spelled(
        seq![name],
        none,
        bang,
        none,
        delimiter,
        arguments,
    ));
}

/// An invocation as it was read from a text: the length of its path, whether
/// a `!` follows the path, the kind of delimiter, and where in the text the
/// arguments stand.
#[derive(Clone, Copy, Debug, PartialEq, Eq, Structural)]
pub struct CallSyntax {
    pub path_len: usize,
    pub bang: bool,
    pub delimiter: Delimiter,
    pub arguments: SourceSpan,
}

impl View for CallSyntax {
    type V = Shape;

    open spec fn view(&self) -> Shape {
        Shape {
            path_len: self.path_len as int,
            bang: self.bang,
            delimiter: self.delimiter,
            args_start: self.arguments.lo as int,
            args_end: self.arguments.hi as int,
        }
    }
}

/// Reads the run of bytes of `class` that begins at `from`.
pub fn scan_run(text: &[u8], from: usize, class: ByteClass) -> (end: usize)
    ensures
        end == run_end(text@, from as int, class),
        from <= end,
        from <= text@.len() ==> end <= text@.len(),
{
    let mut at: usize = from;
    while at < text.len() && class.accepts(text[at])
        invariant
            from <= at,
            from <= text@.len() ==> at <= text@.len(),
            run_end(text@, from as int, class) == run_end(text@, at as int, class),
        decreases text.len() - at,
    {
        at += 1;
    }
    at
}

/// Reads the path at the beginning of `text`; gives its length.
pub fn scan_path(text: &[u8]) -> (end: Option<usize>)
    ensures
        end is Some <==> path_end(text@, 0) is Some,
        end matches Some(n) ==> path_end(text@, 0) == Some(n as int) && 0 < n <= text@.len(),
{
    let mut from: usize = 0;
    loop
        invariant
            from <= text.len(),
            path_end(text@, 0) == path_end(text@, from as int),
        decreases text.len() - from,
    {
        if !(from < text.len() && starts_identifier(text[from])) {
            return None;
        }
        let end = scan_run(text, from + 1, ByteClass::Ident);
        if end < text.len() - 1 && text[end] == COLON && text[end + 1] == COLON {
            from = end + 2;
        } else {
            return Some(end);
        }
    }
}

/// Divides `text` into the parts of an invocation.
pub fn parse_invocation(text: &[u8]) -> (call: Option<CallSyntax>)
    ensures
        call is Some <==> parse(text@) is Some,
        call matches Some(c) ==> parse(text@) == Some(c@) && c.arguments.fits(text@.len()),
{
    let path_len = match scan_path(text) {
        Some(n) => n,
        None => { return None; },
    };
    let mark = scan_run(text, path_len, ByteClass::Space);
    let bang = mark < text.len() && text[mark] == BANG;
    let at = if bang {
        scan_run(text, mark + 1, ByteClass::Space)
    } else {
        mark
    };
    if at >= text.len() - 1 {
        return None;
    }
    match Delimiter::from_opening(text[at]) {
        Some(delimiter) => {
            if text[text.len() - 1] == delimiter.closing() {
                Some(
                    CallSyntax {
                        path_len,
                        bang,
                        delimiter,
                        arguments: SourceSpan::new(at + 1, text.len() - 1),
                    },
                )
            } else {
                None
            }
        },
        None => None,
    }
}

/// Whether `text` is an identifier.
pub fn is_identifier_text(text: &[u8]) -> (ok: bool)
    ensures
        ok == is_identifier(text@),
{
    if text.len() == 0 || !starts_identifier(text[0]) {
        return false;
    }
    let end = scan_run(text, 0, ByteClass::Ident);
    proof {
        lemma_run_end(text@, 0, ByteClass::Ident);
    }
    end == text.len()
}

/// Whether `text` is blank.
pub fn is_blank_text(text: &[u8]) -> (ok: bool)
    ensures
        ok == is_blank(text@),
{
    let end = scan_run(text, 0, ByteClass::Space);
    proof {
        lemma_run_end(text@, 0, ByteClass::Space);
    }
    end == text.len()
}

/// Whether `arguments` may be carried over into a rewrite.
pub fn arguments_well_formed(arguments: &[u8]) -> (ok: bool)
    ensures
        ok == well_formed_arguments(arguments@),
{
    !is_blank_text(arguments) && crate::delimiter::is_balanced(arguments)
}

/// Spells an invocation canonically.
pub fn render_invocation(name: &[u8], bang: bool, delimiter: Delimiter, arguments: &[u8]) -> (text:
    Vec<u8>)
    ensures
        text@ == invocation_text(name@, bang, delimiter, arguments@),
{
    let mut text: Vec<u8> = Vec::new();
    text.extend_from_slice(name);
    if bang {
        text.push(BANG);
    }
    text.push(delimiter.opening());
    text.extend_from_slice(arguments);
    text.push(delimiter.closing());
    text
}

} // verus!
