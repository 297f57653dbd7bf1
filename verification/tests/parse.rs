use purgs::ast::Tag;
use purgs::errors::{Error, ParserError};
use purgs::parse;

fn tag(
    name: &str,
    attrs: Vec<(&str, Option<&str>)>,
    id: Option<&str>,
    classes: Vec<&str>,
    children: Vec<Tag>,
    content: Option<&str>,
) -> Tag {
    Tag {
        name: name.to_string(),
        attrs: attrs
            .into_iter()
            .map(|(k, v)| (k.to_string(), v.map(|s| s.to_string())))
            .collect(),
        id: id.map(|s| s.to_string()),
        classes: classes.into_iter().map(|s| s.to_string()).collect(),
        children,
        content: content.map(|s| s.to_string()),
    }
}

#[test]
fn simple() {
    let input =
        "html\n\thead\n\t\tmeta(width=\"device-width=true\")\n\tbody\n\t\tdiv#content.hello Hello World";
    let out = parse(input);
    assert!(out.is_ok(), "expected a full parse, got {:?}", out);
}

#[test]
fn multi_dedent() {
    let input = "html\n\thead\n\t\tmeta(width=\"device-width=true\")\n\tbody\n\t\tdiv#content.hello Hello World\nanotertoplevelthinglolhaha";
    let expected = vec![
        tag(
            "html",
            vec![],
            None,
            vec![],
            vec![
                tag(
                    "head",
                    vec![],
                    None,
                    vec![],
                    vec![tag(
                        "meta",
                        vec![("width", Some("device-width=true"))],
                        None,
                        vec![],
                        vec![],
                        None,
                    )],
                    None,
                ),
                tag(
                    "body",
                    vec![],
                    None,
                    vec![],
                    vec![tag(
                        "div",
                        vec![],
                        Some("content"),
                        vec!["hello"],
                        vec![],
                        Some("Hello World"),
                    )],
                    None,
                ),
            ],
            None,
        ),
        tag(
            "anotertoplevelthinglolhaha",
            vec![],
            None,
            vec![],
            vec![],
            None,
        ),
    ];
    assert_eq!(parse(input).unwrap(), expected);
}

#[test]
fn attribute_value_keeps_inner_equals() {
    let out = parse("meta(width=\"device-width=true\")").unwrap();
    assert_eq!(out.len(), 1);
    assert_eq!(
        out[0].attrs,
        vec![("width".to_string(), Some("device-width=true".to_string()))]
    );
}

#[test]
fn id_then_classes() {
    // The class list is a repetition: end of input ends it like any other
    // non-dot token, so the line needs no trailing newline.
    for input in ["div#content.hello", "div#content.hello\n"] {
        let out = parse(input).unwrap();
        assert_eq!(out.len(), 1);
        assert_eq!(out[0].name, "div");
        assert_eq!(out[0].id, Some("content".to_string()));
        assert_eq!(out[0].classes, vec!["hello".to_string()]);
    }
}

#[test]
fn classes_before_id_are_rejected() {
    // The grammar fixes the order: id first, then classes. A `#` after a
    // class list ends the element's header, and the leftover tokens make the
    // whole parse fail.
    let out = parse(".hello#content\n");
    assert!(matches!(
        out,
        Err(Error::Parser(ParserError::ExpectedEOF { .. }))
    ));
}

#[test]
fn second_id_is_rejected() {
    // At most one id is permitted; a second `#` is a grammar error.
    let out = parse("div#a#b\n");
    assert!(matches!(
        out,
        Err(Error::Parser(ParserError::ExpectedEOF { .. }))
    ));
}

#[test]
fn unterminated_attribute_is_unexpected_eof() {
    let out = parse("div(width=");
    assert!(matches!(
        out,
        Err(Error::Parser(ParserError::UnexpectedEOF { .. }))
    ));
}

#[test]
fn unrecognized_character_fails_the_expecting_rule() {
    // The tokenizer never fails: the stray character becomes an error token,
    // which then fails the rule that expected an attribute name.
    let out = parse("div(!)");
    assert!(matches!(
        out,
        Err(Error::Parser(ParserError::ExpectedToken { .. }))
    ));
}

#[test]
fn parse_is_deterministic() {
    let input = "html\n\thead\n\t\tmeta(width=\"device-width=true\")\n\tbody\nx";
    let a = parse(input);
    let b = parse(input);
    assert_eq!(a, b);
}

#[test]
fn empty_input_parses_to_nothing() {
    assert_eq!(parse("").unwrap(), Vec::<Tag>::new());
}

#[test]
fn duplicate_attribute_key_last_write_wins() {
    let out = parse("div(a=\"1\",a=\"2\")\n").unwrap();
    assert_eq!(
        out[0].attrs,
        vec![("a".to_string(), Some("2".to_string()))]
    );
}

#[test]
fn bare_attribute_has_no_value() {
    let out = parse("input(disabled)\n").unwrap();
    assert_eq!(out[0].attrs, vec![("disabled".to_string(), None)]);
}

#[test]
fn mixed_quote_characters_stay_in_the_value() {
    // Only a quote carrying the same character closes the value.
    let out = parse("div(a='b\"c')\n").unwrap();
    assert_eq!(
        out[0].attrs,
        vec![("a".to_string(), Some("b\"c".to_string()))]
    );
}

#[test]
fn content_runs_to_the_end_of_the_line() {
    let out = parse("p some long text, with (everything). in it\nq\n").unwrap();
    assert_eq!(out.len(), 2);
    assert_eq!(
        out[0].content,
        Some("some long text, with (everything). in it".to_string())
    );
    assert_eq!(out[1].name, "q");
}

#[test]
fn content_needs_a_line_end() {
    // Trailing content runs to the next newline. At depth, the unwind at end
    // of input supplies the terminating synthetic newline; at depth zero
    // there is none, and the content rule runs out of tokens.
    let nested = parse("a\n\tdiv hello").unwrap();
    assert_eq!(nested[0].children[0].content, Some("hello".to_string()));
    let flat = parse("div hello");
    assert!(matches!(
        flat,
        Err(Error::Parser(ParserError::UnexpectedEOF { .. }))
    ));
}

#[test]
fn tabs_and_four_space_groups_count_alike() {
    // A tab and a group of four spaces each stand for one level; the two
    // units are compared as bare numbers, never reconciled.
    let with_tab = parse("a\n\tb").unwrap();
    let with_spaces = parse("a\n    b").unwrap();
    assert_eq!(with_tab, with_spaces);
    assert_eq!(with_tab[0].children[0].name, "b");
}

#[test]
fn deep_dedent_returns_to_top_level() {
    let out = parse("a\n\tb\n\t\tc\nd").unwrap();
    assert_eq!(out.len(), 2);
    assert_eq!(out[0].name, "a");
    assert_eq!(out[0].children[0].name, "b");
    assert_eq!(out[0].children[0].children[0].name, "c");
    assert_eq!(out[1].name, "d");
}
