use near_assert_require::delimiter::{
    is_balanced, Delimiter, CLOSE_BRACE, CLOSE_BRACKET, CLOSE_PAREN, OPEN_BRACE, OPEN_BRACKET,
    OPEN_PAREN,
};

#[test]
fn delimiter_bytes_are_the_ascii_brackets() {
    assert_eq!(
        [OPEN_PAREN, CLOSE_PAREN, OPEN_BRACKET, CLOSE_BRACKET, OPEN_BRACE, CLOSE_BRACE],
        [b'(', b')', b'[', b']', b'{', b'}']
    );
    assert_eq!((Delimiter::Paren.opening(), Delimiter::Paren.closing()), (b'(', b')'));
    assert_eq!((Delimiter::Bracket.opening(), Delimiter::Bracket.closing()), (b'[', b']'));
    assert_eq!((Delimiter::Brace.opening(), Delimiter::Brace.closing()), (b'{', b'}'));
}

#[test]
fn delimiters_are_recognised_by_their_bytes() {
    assert_eq!(Delimiter::from_opening(b'('), Some(Delimiter::Paren));
    assert_eq!(Delimiter::from_opening(b'['), Some(Delimiter::Bracket));
    assert_eq!(Delimiter::from_opening(b'{'), Some(Delimiter::Brace));
    assert_eq!(Delimiter::from_closing(b')'), Some(Delimiter::Paren));
    assert_eq!(Delimiter::from_closing(b']'), Some(Delimiter::Bracket));
    assert_eq!(Delimiter::from_closing(b'}'), Some(Delimiter::Brace));
    for byte in [b')', b']', b'}', b'<', b'a', 0] {
        assert_eq!(Delimiter::from_opening(byte), None);
    }
    for byte in [b'(', b'[', b'{', b'>', b'a', 0] {
        assert_eq!(Delimiter::from_closing(byte), None);
    }
}

#[test]
fn balanced_text_closes_what_it_opens_in_order() {
    for text in [
        &b""[..],
        b"plain text",
        b"()",
        b"[]{}()",
        b"([{}])",
        b"f(a, g[b], {c})",
        b"a < b > c",
    ] {
        assert!(is_balanced(text));
    }
    for text in [&b"("[..], b")", b")(", b"(]", b"([)]", b"(()", b"())", b"{[}", b"f(a))("] {
        assert!(!is_balanced(text));
    }
}

#[test]
fn delimiters_inside_literals_do_not_count() {
    for text in [
        &b"\"(\""[..],
        b"\")]}\"",
        b"'('",
        b"')'",
        b"f(\")\")",
        b"[\"[\", '[']",
        b"\"\\\")\"",
        b"'\\''",
        b"'\\\\'",
        b"\"it's (\"",
        b"'\"' + \"'\"",
        b"b\"{\"",
        b"'\xc3\xa9'",
    ] {
        assert!(is_balanced(text));
    }
    for text in [&b"\"(\" )"[..], b"( \")\"", b"'(' )", b"\"\\\")"] {
        assert!(!is_balanced(text));
    }
}

#[test]
fn open_literals_are_not_balanced() {
    for text in [
        &b"\""[..],
        b"\"a",
        b"\"a\\\"",
        b"\"\\",
        b"'",
        b"'(",
        b"'\\",
        b"'\\'",
        b"''",
        b"x''",
        b"\"a\" \"b",
    ] {
        assert!(!is_balanced(text));
    }
}

#[test]
fn lifetimes_are_read_as_code() {
    for text in [&b"&'a T"[..], b"f::<'a, 'b>(x)", b"'a", b"x: &'static str", b"<'_>()"] {
        assert!(is_balanced(text));
    }
    assert!(is_balanced(b"'a'"));
    assert!(!is_balanced(b"<'a>)"));
    assert!(!is_balanced(b"('a"));
}

#[test]
fn swapping_the_head_of_an_invocation_keeps_the_balance() {
    for before in [&b""[..], b"f(", b"\"", b"'", b"'\\", b"\"\\", b"x'", b"{ \"a\"; "] {
        for after in [&b""[..], b")", b"\"", b"'", b"; }", b" \"("] {
            for rest in [&b"(x)"[..], b"(s == \"(\")", b"[a, 'b']", b"{ f(\")\") }"] {
                let mut results = Vec::new();
                for head in [&b"assert!"[..], b"require!", b"std::assert \t!\n", b"r", b"_x9"] {
                    let mut text = before.to_vec();
                    text.extend_from_slice(head);
                    text.extend_from_slice(rest);
                    text.extend_from_slice(after);
                    results.push(is_balanced(&text));
                }
                assert!(results.iter().all(|&r| r == results[0]));
            }
        }
    }
}
