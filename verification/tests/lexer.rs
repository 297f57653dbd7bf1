use purgs::errors::Span;
use purgs::iter::NanoPeek;
use purgs::lexer::{lex_all, tokenize, Lexer, SmallToken, Token};

fn count(toks: &[(Token, Span)], f: fn(&Token) -> bool) -> usize {
    toks.iter().filter(|t| f(&t.0)).count()
}

#[test]
fn indents_and_dedents_balance() {
    for input in [
        "",
        "a",
        "a\n\tb",
        "a\n\tb\n\t\tc\nd",
        "html\n\thead\n\t\tmeta(width=\"device-width=true\")\n\tbody\n\t\tdiv#content.hello Hello World\nanotertoplevelthinglolhaha",
        "a\n    b\n        c\n    d",
    ] {
        let toks = lex_all(input);
        assert_eq!(
            count(&toks, |t| matches!(t, Token::Indent)),
            count(&toks, |t| matches!(t, Token::Dedent)),
            "unbalanced stream for {:?}: {:?}",
            input,
            toks
        );
    }
}

#[test]
fn depth_returns_to_zero() {
    for input in ["", "a", "a\n\tb", "a\n\tb\n\t\tc\nd", "a\n\tb\n\t\tc"] {
        let mut lx = Lexer::new(input);
        while let Some(_t) = lx.next() {}
        assert_eq!(lx.depth(), 0, "depth left open for {:?}", input);
    }
}

#[test]
fn lexing_is_deterministic() {
    let input = "a\n\tb\n\t\tc\nd";
    assert_eq!(lex_all(input), lex_all(input));
}

#[test]
fn dedent_run_ends_with_a_newline() {
    // A dedent run is always terminated by one synthetic newline, so the
    // parser's sibling check is uniform.
    let toks: Vec<Token> = lex_all("a\n\tb\nc").into_iter().map(|t| t.0).collect();
    assert_eq!(
        toks,
        vec![
            Token::Text("a".to_string()),
            Token::Newline,
            Token::Indent,
            Token::Text("b".to_string()),
            Token::Newline,
            Token::Dedent,
            Token::Newline,
            Token::Text("c".to_string()),
        ]
    );
}

#[test]
fn end_of_input_unwinds_open_levels() {
    let toks: Vec<Token> = lex_all("a\n\tb\n\t\tc").into_iter().map(|t| t.0).collect();
    assert_eq!(
        toks,
        vec![
            Token::Text("a".to_string()),
            Token::Newline,
            Token::Indent,
            Token::Text("b".to_string()),
            Token::Newline,
            Token::Indent,
            Token::Text("c".to_string()),
            Token::Dedent,
            Token::Dedent,
            Token::Newline,
        ]
    );
}

#[test]
fn equal_indentation_emits_no_structural_token() {
    let toks: Vec<Token> = lex_all("a\n\tb\n\tc").into_iter().map(|t| t.0).collect();
    assert_eq!(
        toks,
        vec![
            Token::Text("a".to_string()),
            Token::Newline,
            Token::Indent,
            Token::Text("b".to_string()),
            Token::Newline,
            Token::Text("c".to_string()),
            Token::Dedent,
            Token::Newline,
        ]
    );
}

#[test]
fn indentation_jump_opens_several_levels_with_one_indent() {
    // An indentation run deeper by more than one level emits a single
    // `Indent` token, while the unwind back emits one `Dedent` per level:
    // only inputs that deepen one level at a time balance the two counts.
    let toks = lex_all("a\n\t\t\tb");
    assert_eq!(count(&toks, |t| matches!(t, Token::Indent)), 1);
    assert_eq!(count(&toks, |t| matches!(t, Token::Dedent)), 3);
}

#[test]
fn unrecognized_character_becomes_an_error_token() {
    let toks = lex_all("@");
    assert_eq!(toks.len(), 1);
    assert_eq!(toks[0].0, Token::Error("@".to_string()));
    assert_eq!(toks[0].1, Span { start: 0, end: 1 });
}

#[test]
fn tokenizer_spans_are_half_open_and_contiguous() {
    let raw = tokenize("ab(c \"x\"");
    let kinds: Vec<Option<SmallToken>> = raw.iter().map(|t| t.kind).collect();
    assert_eq!(
        kinds,
        vec![
            Some(SmallToken::Text),
            Some(SmallToken::OpenParen),
            Some(SmallToken::Text),
            Some(SmallToken::WhiteSpace),
            Some(SmallToken::Quote),
            Some(SmallToken::Text),
            Some(SmallToken::Quote),
        ]
    );
    let mut at = 0;
    for t in &raw {
        assert_eq!(t.span.start, at);
        assert!(t.span.end > t.span.start);
        at = t.span.end;
    }
    assert_eq!(at, 8);
}

#[test]
fn space_indentation_groups_by_four() {
    // Six spaces: one four-space group is an indentation run, the remaining
    // two are ordinary whitespace tokens.
    let raw = tokenize("      x");
    let kinds: Vec<Option<SmallToken>> = raw.iter().map(|t| t.kind).collect();
    assert_eq!(
        kinds,
        vec![
            Some(SmallToken::Indent),
            Some(SmallToken::WhiteSpace),
            Some(SmallToken::WhiteSpace),
            Some(SmallToken::Text),
        ]
    );
    assert_eq!(raw[0].span, Span { start: 0, end: 4 });
}

#[test]
fn nano_peek_peeks_ahead_and_resets() {
    let mut p: NanoPeek<u8> = NanoPeek::new(vec![10, 20, 30]);
    assert_eq!(p.peek().copied(), Some(10));
    assert_eq!(p.peek().copied(), Some(20));
    p.reset_peek();
    assert_eq!(p.peek().copied(), Some(10));
    assert_eq!(p.next(), Some(10));
    assert_eq!(p.peek().copied(), Some(20));
    assert_eq!(p.next(), Some(20));
    assert_eq!(p.next(), Some(30));
    assert_eq!(p.next(), None);
    assert_eq!(p.peek(), None);
}
