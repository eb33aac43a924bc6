//! Delimiter bytes, and the reading of a piece of source text that tells
//! whether its delimiters are balanced outside its literals.
//!
//! The reading knows string literals and character literals with their
//! backslash escapes, and tells a lifetime from a character literal. It
//! knows neither raw string literals nor comments: their bytes are read as
//! code, and a quote among them as the beginning of a literal.

use vstd::prelude::*;
use crate::syntax::{is_ident_start, starts_identifier};

verus! {

pub const OPEN_PAREN: u8 = 0x28;

pub const CLOSE_PAREN: u8 = 0x29;

pub const OPEN_BRACKET: u8 = 0x5b;

pub const CLOSE_BRACKET: u8 = 0x5d;

pub const OPEN_BRACE: u8 = 0x7b;

pub const CLOSE_BRACE: u8 = 0x7d;

pub const DOUBLE_QUOTE: u8 = 0x22;

pub const SINGLE_QUOTE: u8 = 0x27;

pub const BACKSLASH: u8 = 0x5c;

/// The three kinds of bracketing that can enclose the arguments of an
/// invocation.
#[derive(Clone, Copy, Debug, PartialEq, Eq, Structural)]
pub enum Delimiter {
    Paren,
    Bracket,
    Brace,
}

impl Delimiter {
    pub open spec fn open_byte(self) -> u8 {
        match self {
            Delimiter::Paren => OPEN_PAREN,
            Delimiter::Bracket => OPEN_BRACKET,
            Delimiter::Brace => OPEN_BRACE,
        }
    }

    pub open spec fn close_byte(self) -> u8 {
        match self {
            Delimiter::Paren => CLOSE_PAREN,
            Delimiter::Bracket => CLOSE_BRACKET,
            Delimiter::Brace => CLOSE_BRACE,
        }
    }

    /// The delimiter that `byte` opens, if it opens one.
    pub open spec fn opened_by(byte: u8) -> Option<Delimiter> {
        if byte == OPEN_PAREN {
            Some(Delimiter::Paren)
        } else if byte == OPEN_BRACKET {
            Some(Delimiter::Bracket)
        } else if byte == OPEN_BRACE {
            Some(Delimiter::Brace)
        } else {
            None
        }
    }

    /// The delimiter that `byte` closes, if it closes one.
    pub open spec fn closed_by(byte: u8) -> Option<Delimiter> {
        if byte == CLOSE_PAREN {
            Some(Delimiter::Paren)
        } else if byte == CLOSE_BRACKET {
            Some(Delimiter::Bracket)
        } else if byte == CLOSE_BRACE {
            Some(Delimiter::Brace)
        } else {
            None
        }
    }

    pub fn opening(self) -> (byte: u8)
        ensures
            byte == self.open_byte(),
    {
        match self {
            Delimiter::Paren => OPEN_PAREN,
            Delimiter::Bracket => OPEN_BRACKET,
            Delimiter::Brace => OPEN_BRACE,
        }
    }

    pub fn closing(self) -> (byte: u8)
        ensures
            byte == self.close_byte(),
    {
        match self {
            Delimiter::Paren => CLOSE_PAREN,
            Delimiter::Bracket => CLOSE_BRACKET,
            Delimiter::Brace => CLOSE_BRACE,
        }
    }

    pub fn from_opening(byte: u8) -> (kind: Option<Delimiter>)
        ensures
            kind == Delimiter::opened_by(byte),
    {
        if byte == OPEN_PAREN {
            Some(Delimiter::Paren)
        } else if byte == OPEN_BRACKET {
            Some(Delimiter::Bracket)
        } else if byte == OPEN_BRACE {
            Some(Delimiter::Brace)
        } else {
            None
        }
    }

    pub fn from_closing(byte: u8) -> (kind: Option<Delimiter>)
        ensures
            kind == Delimiter::closed_by(byte),
    {
        if byte == CLOSE_PAREN {
            Some(Delimiter::Paren)
        } else if byte == CLOSE_BRACKET {
            Some(Delimiter::Bracket)
        } else if byte == CLOSE_BRACE {
            Some(Delimiter::Brace)
        } else {
            None
        }
    }
}

/// Where in the text a reading stands.
#[derive(Clone, Copy, Debug, PartialEq, Eq, Structural)]
pub enum Mode {
    /// Outside any literal.
    Code,
    /// Inside a string literal.
    Str,
    /// Inside a string literal, right after a backslash.
    StrEscape,
    /// Right after a single quote in code.
    Quote,
    /// After a single quote and one byte that can begin an identifier: a
    /// character literal if a single quote follows, a lifetime or a label
    /// if anything else does.
    QuoteIdent,
    /// Inside a character literal.
    Char,
    /// Inside a character literal, right after a backslash.
    CharEscape,
}

impl Mode {
    /// No literal is open: the reading stands in code, or at the end of a
    /// lifetime of one byte.
    pub open spec fn at_rest(self) -> bool {
        self == Mode::Code || self == Mode::QuoteIdent
    }
}

/// The state of a reading: where it stands, and the delimiters that are
/// still unclosed, innermost last.
pub struct Reading {
    pub mode: Mode,
    pub open: Seq<Delimiter>,
}

impl Reading {
    /// In code, with nothing open.
    pub open spec fn start() -> Reading {
        Reading { mode: Mode::Code, open: Seq::empty() }
    }

    /// The same reading in another mode.
    pub open spec fn in_mode(self, mode: Mode) -> Reading {
        Reading { mode, open: self.open }
    }
}

/// `byte` is read in every mode without opening or closing anything and
/// without beginning a literal or an escape: it is no delimiter, no quote
/// and no backslash.
pub open spec fn is_plain(byte: u8) -> bool {
    &&& Delimiter::opened_by(byte) is None
    &&& Delimiter::closed_by(byte) is None
    &&& byte != DOUBLE_QUOTE
    &&& byte != SINGLE_QUOTE
    &&& byte != BACKSLASH
}

/// Every byte of `text` is plain.
pub open spec fn all_plain(text: Seq<u8>) -> bool {
    forall|i: int| 0 <= i < text.len() ==> is_plain(#[trigger] text[i])
}

/// Plain text that begins like an identifier: what stands before the
/// opening delimiter of an invocation.
pub open spec fn is_head(text: Seq<u8>) -> bool {
    text.len() > 0 && is_ident_start(text[0]) && all_plain(text)
}

/// Reads one byte of code. A double quote begins a string literal and a
/// single quote a character literal or a lifetime; an opening byte is added
/// to the unclosed delimiters; a closing byte removes the innermost one if
/// it is of the same kind, and is an error (`None`) if it is not.
pub open spec fn step_in_code(open: Seq<Delimiter>, byte: u8) -> Option<Reading> {
    if byte == DOUBLE_QUOTE {
        Some(Reading { mode: Mode::Str, open })
    } else if byte == SINGLE_QUOTE {
        Some(Reading { mode: Mode::Quote, open })
    } else {
        match Delimiter::opened_by(byte) {
            Some(kind) => Some(Reading { mode: Mode::Code, open: open.push(kind) }),
            None => match Delimiter::closed_by(byte) {
                Some(kind) => if open.len() > 0 && open.last() == kind {
                    Some(Reading { mode: Mode::Code, open: open.drop_last() })
                } else {
                    None
                },
                None => Some(Reading { mode: Mode::Code, open }),
            },
        }
    }
}

/// Reads one byte. Inside a literal every byte is skipped but a backslash,
/// which escapes the byte after it, and the quote that closes the literal.
/// Two single quotes in a row are an error.
pub open spec fn step(state: Reading, byte: u8) -> Option<Reading> {
    match state.mode {
        Mode::Code => step_in_code(state.open, byte),
        Mode::Str => Some(
            state.in_mode(
                if byte == BACKSLASH {
                    Mode::StrEscape
                } else if byte == DOUBLE_QUOTE {
                    Mode::Code
                } else {
                    Mode::Str
                },
            ),
        ),
        Mode::StrEscape => Some(state.in_mode(Mode::Str)),
        Mode::Quote => if byte == SINGLE_QUOTE {
            None
        } else {
            Some(
                state.in_mode(
                    if byte == BACKSLASH {
                        Mode::CharEscape
                    } else if is_ident_start(byte) {
                        Mode::QuoteIdent
                    } else {
                        Mode::Char
                    },
                ),
            )
        },
        Mode::QuoteIdent => if byte == SINGLE_QUOTE {
            Some(state.in_mode(Mode::Code))
        } else {
            step_in_code(state.open, byte)
        },
        Mode::Char => Some(
            state.in_mode(
                if byte == BACKSLASH {
                    Mode::CharEscape
                } else if byte == SINGLE_QUOTE {
                    Mode::Code
                } else {
                    Mode::Char
                },
            ),
        ),
        Mode::CharEscape => Some(state.in_mode(Mode::Char)),
    }
}

/// Reads `text` from left to right, beginning in `state`. Gives the state at
/// the end, or `None` as soon as a byte is an error.
pub open spec fn read(text: Seq<u8>, state: Reading) -> Option<Reading>
    decreases text.len(),
{
    if text.len() == 0 {
        Some(state)
    } else {
        match step(state, text[0]) {
            Some(next) => read(text.drop_first(), next),
            None => None,
        }
    }
}

/// Read as code from its first byte, `text` leaves nothing open: no string
/// or character literal, and no delimiter. Outside its literals every
/// delimiter opened in it is closed in it by its own kind, in nesting order,
/// and nothing is closed that was not opened.
pub open spec fn balanced(text: Seq<u8>) -> bool {
    read(text, Reading::start()) matches Some(end) && end.mode.at_rest() && end.open.len() == 0
}

/// Reading `left + right` is reading `left` and then `right`.
pub proof fn lemma_read_concat(left: Seq<u8>, right: Seq<u8>, state: Reading)
    ensures
        read(left + right, state) == match read(left, state) {
            Some(mid) => read(right, mid),
            None => None,
        },
    decreases left.len(),
{
    if left.len() == 0 {
        assert(left + right =~= right);
    } else {
        let whole = left + right;
        assert(whole.drop_first() =~= left.drop_first() + right);
        assert(whole[0] == left[0]);
        match step(state, left[0]) {
            Some(next) => lemma_read_concat(left.drop_first(), right, next),
            None => {},
        }
    }
}

/// Reading a byte and then `rest` is one step and then reading `rest`.
pub proof fn lemma_read_first(byte: u8, rest: Seq<u8>, state: Reading)
    ensures
        read(seq![byte] + rest, state) == match step(state, byte) {
            Some(next) => read(rest, next),
            None => None,
        },
{
    let whole = seq![byte] + rest;
    assert(whole.drop_first() =~= rest);
    assert(whole[0] == byte);
}

/// What a text does to the unclosed delimiters it starts with, it does as
/// well below any further delimiters that were already open.
pub proof fn lemma_read_below(text: Seq<u8>, below: Seq<Delimiter>, state: Reading)
    requires
        read(text, state) is Some,
    ensures
        read(text, Reading { mode: state.mode, open: below + state.open }) == Some(
            Reading { mode: read(text, state)->0.mode, open: below + read(text, state)->0.open },
        ),
    decreases text.len(),
{
    if text.len() > 0 {
        let deeper = Reading { mode: state.mode, open: below + state.open };
        let next = step(state, text[0])->0;
        assert(step(deeper, text[0]) == Some(Reading { mode: next.mode, open: below + next.open }))
            by {
            let kind = Delimiter::opened_by(text[0]);
            if kind is Some {
                assert((below + state.open).push(kind->0) =~= below + state.open.push(kind->0));
            }
            if state.open.len() > 0 {
                assert((below + state.open).drop_last() =~= below + state.open.drop_last());
                assert((below + state.open).last() == state.open.last());
            }
        }
        lemma_read_below(text.drop_first(), below, next);
    }
}

/// Plain text read in code leaves the reading as it is.
pub proof fn lemma_plain_text_is_inert(text: Seq<u8>, open: Seq<Delimiter>)
    requires
        all_plain(text),
    ensures
        read(text, Reading { mode: Mode::Code, open }) == Some(Reading { mode: Mode::Code, open }),
    decreases text.len(),
{
    if text.len() > 0 {
        assert(is_plain(text[0]));
        let rest = text.drop_first();
        assert forall|i: int| 0 <= i < rest.len() implies is_plain(#[trigger] rest[i]) by {
            assert(rest[i] == text[i + 1]);
        }
        lemma_plain_text_is_inert(rest, open);
    }
}

/// After a lifetime of one byte, text that does not begin with a single
/// quote is read as in code.
pub proof fn lemma_lifetime_reads_as_code(text: Seq<u8>, open: Seq<Delimiter>)
    requires
        text.len() > 0,
        text[0] != SINGLE_QUOTE,
    ensures
        read(text, Reading { mode: Mode::QuoteIdent, open }) == read(
            text,
            Reading { mode: Mode::Code, open },
        ),
{
}

/// Of a head only the first byte matters to what is read after it: in every
/// mode, the head followed by `rest` is read as its first byte followed by
/// `rest`.
pub proof fn lemma_head_collapses(head: Seq<u8>, rest: Seq<u8>, state: Reading)
    requires
        is_head(head),
        rest.len() > 0,
        rest[0] != SINGLE_QUOTE,
    ensures
        read(head + rest, state) == read(seq![head[0]] + rest, state),
    decreases head.len(),
{
    if head.len() == 1 {
        assert(head =~= seq![head[0]]);
    } else {
        let shorter = head.drop_last();
        let last = head.last();
        let longer = seq![last] + rest;
        assert(is_plain(last));
        assert(is_plain(head[0]));
        assert(all_plain(shorter)) by {
            assert forall|i: int| 0 <= i < shorter.len() implies is_plain(#[trigger] shorter[i]) by {
                assert(shorter[i] == head[i]);
            }
        }
        assert(shorter[0] == head[0]);
        assert(head + rest =~= shorter + longer);
        lemma_head_collapses(shorter, longer, state);
        lemma_read_first(head[0], longer, state);
        lemma_read_first(head[0], rest, state);
        let after_first = step(state, head[0])->0;
        lemma_read_first(last, rest, after_first);
        if after_first.mode == Mode::QuoteIdent {
            lemma_lifetime_reads_as_code(rest, after_first.open);
        }
    }
}

/// Two heads are read alike: whatever is read before them, and whatever
/// follows them, if it does not begin with a single quote.
pub proof fn lemma_heads_read_alike(
    first: Seq<u8>,
    second: Seq<u8>,
    rest: Seq<u8>,
    state: Reading,
)
    requires
        is_head(first),
        is_head(second),
        rest.len() > 0,
        rest[0] != SINGLE_QUOTE,
    ensures
        read(first + rest, state) == read(second + rest, state),
{
    lemma_head_collapses(first, rest, state);
    lemma_head_collapses(second, rest, state);
    lemma_read_first(first[0], rest, state);
    lemma_read_first(second[0], rest, state);
    assert(is_plain(first[0]) && is_plain(second[0]));
    assert(step(state, first[0]) == step(state, second[0]));
}

/// Replacing a head by another head changes nothing in how a text is read
/// after it. Where `removed` and then `rest` stand in `source` from `lo` to
/// `hi`, the source with `inserted` and then `rest` in their place gives
/// the same reading, if `rest` does not begin with a single quote.
pub proof fn lemma_head_replacement(
    source: Seq<u8>,
    lo: int,
    hi: int,
    removed: Seq<u8>,
    inserted: Seq<u8>,
    rest: Seq<u8>,
)
    requires
        0 <= lo <= hi <= source.len(),
        source.subrange(lo, hi) == removed + rest,
        is_head(removed),
        is_head(inserted),
        rest.len() > 0,
        rest[0] != SINGLE_QUOTE,
    ensures
        read(
            source.subrange(0, lo) + (inserted + rest) + source.subrange(hi, source.len() as int),
            Reading::start(),
        ) == read(source, Reading::start()),
{
    let start = Reading::start();
    let before = source.subrange(0, lo);
    let after = source.subrange(hi, source.len() as int);
    let follows = rest + after;
    assert(source =~= before + (removed + follows)) by {
        assert(source =~= before + source.subrange(lo, hi) + after);
    }
    assert(before + (inserted + rest) + after =~= before + (inserted + follows));
    assert(follows[0] == rest[0]);
    lemma_read_concat(before, removed + follows, start);
    lemma_read_concat(before, inserted + follows, start);
    if read(before, start) is Some {
        lemma_heads_read_alike(removed, inserted, follows, read(before, start)->0);
    }
}

/// Reads one byte: `step`, with the unclosed delimiters kept in `open`.
fn advance(mode: Mode, open: &mut Vec<Delimiter>, byte: u8) -> (next: Option<Mode>)
    ensures
        step(Reading { mode, open: old(open)@ }, byte) == match next {
            Some(mode) => Some(Reading { mode, open: final(open)@ }),
            None => None,
        },
{
    match mode {
        Mode::Str => Some(
            if byte == BACKSLASH {
                Mode::StrEscape
            } else if byte == DOUBLE_QUOTE {
                Mode::Code
            } else {
                Mode::Str
            },
        ),
        Mode::StrEscape => Some(Mode::Str),
        Mode::Quote => if byte == SINGLE_QUOTE {
            None
        } else if byte == BACKSLASH {
            Some(Mode::CharEscape)
        } else if starts_identifier(byte) {
            Some(Mode::QuoteIdent)
        } else {
            Some(Mode::Char)
        },
        Mode::Char => Some(
            if byte == BACKSLASH {
                Mode::CharEscape
            } else if byte == SINGLE_QUOTE {
                Mode::Code
            } else {
                Mode::Char
            },
        ),
        Mode::CharEscape => Some(Mode::Char),
        Mode::Code | Mode::QuoteIdent => {
            if byte == SINGLE_QUOTE {
                Some(
                    match mode {
                        Mode::QuoteIdent => Mode::Code,
                        _ => Mode::Quote,
                    },
                )
            } else if byte == DOUBLE_QUOTE {
                Some(Mode::Str)
            } else {
                match Delimiter::from_opening(byte) {
                    Some(kind) => {
                        open.push(kind);
                        Some(Mode::Code)
                    },
                    None => match Delimiter::from_closing(byte) {
                        Some(kind) => {
                            if open.len() > 0 && open[open.len() - 1] == kind {
                                open.pop();
                                Some(Mode::Code)
                            } else {
                                None
                            }
                        },
                        None => Some(Mode::Code),
                    },
                }
            }
        },
    }
}

/// Whether `text` is balanced.
pub fn is_balanced(text: &[u8]) -> (ok: bool)
    ensures
        ok == balanced(text@),
{
    let mut open: Vec<Delimiter> = Vec::new();
    let mut mode = Mode::Code;
    let mut i: usize = 0;
    assert(text@.subrange(0, text@.len() as int) =~= text@);
    assert(open@ =~= Seq::<Delimiter>::empty());
    while i < text.len()
        invariant
            i <= text.len(),
            read(text@, Reading::start()) == read(
                text@.subrange(i as int, text@.len() as int),
                Reading { mode, open: open@ },
            ),
        decreases text.len() - i,
    {
        let byte = text[i];
        let ghost tail = text@.subrange(i as int, text@.len() as int);
        assert(tail[0] == byte);
        assert(tail.drop_first() =~= text@.subrange(i + 1, text@.len() as int));
        match advance(mode, &mut open, byte) {
            Some(next) => {
                mode = next;
            },
            None => {
                return false;
            },
        }
        i += 1;
    }
    assert(text@.subrange(i as int, text@.len() as int).len() == 0);
    let rests = match mode {
        Mode::Code => true,
        Mode::QuoteIdent => true,
        _ => false,
    };
    rests && open.len() == 0
}

} // verus!
