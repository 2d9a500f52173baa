use stax::highlight::{slot_to_class, spans_to_tokens, tokens_from, Span, Token, TokenClass, TokenHighlighter};

fn joined(tokens: &[Token]) -> String {
    tokens.iter().map(|t| t.text.as_str()).collect()
}

fn span(start: u32, end: u32, capture: &str, pattern_index: u32) -> Span {
    Span { start, end, capture: capture.to_owned(), pattern_index }
}

#[test]
fn highlights_simple_mov() {
    let mut hl = TokenHighlighter::new();
    let tokens = hl.highlight_line("mov rax, 0x42").unwrap();
    // Concatenated text round-trips losslessly.
    assert_eq!(joined(&tokens), "mov rax, 0x42");
    // Some token must be classified: the exact class depends on the grammar.
    assert!(
        tokens.iter().any(|t| t.kind != TokenClass::Plain),
        "expected some classified tokens, got {tokens:?}"
    );
}

#[test]
fn falls_back_to_plain_for_unknown_lang() {
    let mut hl = TokenHighlighter::new();
    let tokens = hl.highlight_in("nonsense-lang", "hello world").unwrap();
    assert_eq!(tokens.len(), 1);
    assert_eq!(tokens[0].text, "hello world");
    assert_eq!(tokens[0].kind, TokenClass::Plain);
}

#[test]
fn empty_input_yields_no_tokens() {
    let mut hl = TokenHighlighter::new();
    assert!(hl.highlight_line("").unwrap().is_empty());
}

#[test]
fn a_highlighter_can_be_used_again() {
    let mut hl = TokenHighlighter::new_for_source();
    let first = hl.highlight_line("mov rax, 0x42").unwrap();
    let other = hl.highlight_line("ret").unwrap();
    let again = hl.highlight_line("mov rax, 0x42").unwrap();
    assert_eq!(joined(&other), "ret");
    assert_eq!(first.len(), again.len());
    for (a, b) in first.iter().zip(again.iter()) {
        assert_eq!(a.text, b.text);
        assert_eq!(a.kind, b.kind);
    }
}

#[test]
fn gaps_are_plain_and_spans_are_classified() {
    let t = spans_to_tokens("let x = 1", vec![span(8, 9, "number", 0), span(0, 3, "keyword", 1)])
        .unwrap();
    assert_eq!(joined(&t), "let x = 1");
    assert_eq!(t.len(), 3);
    assert_eq!((t[0].text.as_str(), t[0].kind), ("let", TokenClass::Keyword));
    assert_eq!((t[1].text.as_str(), t[1].kind), (" x = ", TokenClass::Plain));
    assert_eq!((t[2].text.as_str(), t[2].kind), ("1", TokenClass::Number));
}

fn runs(tokens: &[Token]) -> Vec<(&str, TokenClass)> {
    tokens.iter().map(|t| (t.text.as_str(), t.kind)).collect()
}

#[test]
fn later_patterns_win_where_spans_overlap() {
    let t = spans_to_tokens("abcdef", vec![span(0, 6, "keyword", 1), span(2, 4, "string", 9)])
        .unwrap();
    assert_eq!(
        runs(&t),
        [("ab", TokenClass::Keyword), ("cd", TokenClass::String), ("ef", TokenClass::Keyword)]
    );
    let t = spans_to_tokens(
        "abcdef",
        vec![span(0, 4, "variable", 1), span(0, 4, "function", 7), span(2, 6, "string", 9)],
    )
    .unwrap();
    assert_eq!(runs(&t), [("ab", TokenClass::Function), ("cdef", TokenClass::String)]);
    let t = spans_to_tokens("abcdef", vec![span(2, 6, "string", 3), span(0, 4, "keyword", 5)]).unwrap();
    assert_eq!(runs(&t), [("abcd", TokenClass::Keyword), ("ef", TokenClass::String)]);
}

#[test]
fn spans_of_one_pattern_go_by_their_beginning() {
    let t = spans_to_tokens("abcdef", vec![span(2, 6, "string", 3), span(0, 4, "keyword", 3)]).unwrap();
    assert_eq!(runs(&t), [("abcd", TokenClass::Keyword), ("ef", TokenClass::String)]);
    let t = spans_to_tokens("ab", vec![span(0, 2, "string", 3), span(0, 2, "keyword", 3)]).unwrap();
    assert_eq!(runs(&t), [("ab", TokenClass::String)]);
}

#[test]
fn neighbours_of_one_class_are_one_run() {
    let t = spans_to_tokens("abcd", vec![span(0, 2, "keyword", 0), span(2, 4, "keyword.control", 0)])
        .unwrap();
    assert_eq!(t.len(), 1);
    assert_eq!((t[0].text.as_str(), t[0].kind), ("abcd", TokenClass::Keyword));
}

#[test]
fn spans_are_clipped_to_the_text() {
    let t = spans_to_tokens("ab", vec![span(1, 40, "comment", 0), span(9, 12, "string", 0)]).unwrap();
    assert_eq!(t.len(), 2);
    assert_eq!((t[0].text.as_str(), t[0].kind), ("a", TokenClass::Plain));
    assert_eq!((t[1].text.as_str(), t[1].kind), ("b", TokenClass::Comment));
}

#[test]
fn no_spans_leave_the_text_plain() {
    let t = spans_to_tokens("ab", Vec::new()).unwrap();
    assert_eq!(t.len(), 1);
    assert_eq!(t[0].kind, TokenClass::Plain);
    assert!(spans_to_tokens("", vec![span(0, 1, "keyword", 0)]).unwrap().is_empty());
    assert_eq!(tokens_from("xy", None).unwrap()[0].text, "xy");
}

#[test]
fn a_span_within_a_character_gives_nothing() {
    assert!(spans_to_tokens("\u{e9}a", vec![span(0, 1, "keyword", 0)]).is_none());
    let t = spans_to_tokens("abcd", vec![span(3, 2, "keyword", 0)]).unwrap();
    assert_eq!(runs(&t), [("abcd", TokenClass::Plain)]);
    let whole = vec![span(0, 2, "keyword", 0), span(2, 5, "string", 1), span(5, 9, "number", 2)];
    let t = spans_to_tokens("\u{e9}\u{20ac}\u{1f600}z", whole).unwrap();
    let kinds = [TokenClass::Keyword, TokenClass::String, TokenClass::Number, TokenClass::Plain];
    assert_eq!(t.iter().map(|t| t.kind).collect::<Vec<_>>(), kinds);
    assert_eq!(joined(&t), "\u{e9}\u{20ac}\u{1f600}z");
    let t = spans_to_tokens("\u{e9}a", vec![span(0, 2, "keyword", 0)]).unwrap();
    assert_eq!(t[0].text, "\u{e9}");
}

#[test]
fn every_slot_has_its_class() {
    assert_eq!(slot_to_class("Keyword"), TokenClass::Keyword);
    assert_eq!(slot_to_class("Operator"), TokenClass::Operator);
    assert_eq!(slot_to_class("DiffDelete"), TokenClass::DiffDelete);
    assert_eq!(slot_to_class("Error"), TokenClass::Error);
    assert_eq!(slot_to_class("None"), TokenClass::Plain);
}
