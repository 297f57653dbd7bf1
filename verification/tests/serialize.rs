use purgs::ast::Tag;
use purgs::errors::any_of;
use purgs::lexer::Token;
use purgs::parse;

#[test]
fn round_trip_to_markup() {
    let input = "html\n\thead\n\t\tmeta(width=\"device-width=true\")\n\tbody\n\t\tdiv#content.hello Hello World\nanotertoplevelthinglolhaha";
    let tags = parse(input).unwrap();
    let html: Vec<String> = tags
        .iter()
        .map(|t| {
            assert!(t.renderable());
            t.htmlify()
        })
        .collect();
    assert_eq!(
        html.join(""),
        "<html><head><meta width=\"device-width=true\"/></head><body><div id=\"content\" class=\"hello\">Hello World</div></body></html><anotertoplevelthinglolhaha></anotertoplevelthinglolhaha>"
    );
}

#[test]
fn attributes_id_and_classes_render_in_order() {
    let tags = parse("div#a.b.c(x=\"1\",y) hi\n").unwrap();
    assert!(tags[0].renderable());
    assert_eq!(
        tags[0].htmlify(),
        "<div x=\"1\" y id=\"a\" class=\"b c\">hi</div>"
    );
}

#[test]
fn void_element_renders_self_closing() {
    let tags = parse("br\n").unwrap();
    assert!(tags[0].renderable());
    assert_eq!(tags[0].htmlify(), "<br/>");
}

#[test]
fn void_element_with_children_is_flagged() {
    // A void element cannot carry children; the parser accepts the input,
    // and the serializer boundary flags the tree as not renderable.
    let tags = parse("meta\n\tdiv").unwrap();
    assert_eq!(tags[0].name, "meta");
    assert_eq!(tags[0].children.len(), 1);
    assert!(!tags[0].renderable());
}

#[test]
fn void_element_with_content_is_flagged() {
    let tags = parse("meta oops\n").unwrap();
    assert!(!tags[0].renderable());
}

#[test]
fn deep_tree_is_renderable() {
    let tags = parse("a\n\tb\n\t\tc\nd").unwrap();
    for t in &tags {
        assert!(t.renderable());
    }
    let html: Vec<String> = tags.iter().map(|t| t.htmlify()).collect();
    assert_eq!(html.join(""), "<a><b><c></c></b></a><d></d>");
}

#[test]
fn any_of_renders_one_token_bare() {
    assert_eq!(any_of(&[Token::Dot]), "Dot");
    assert_eq!(
        any_of(&[Token::Text("ab".to_string())]),
        "Text(\"ab\")"
    );
}

#[test]
fn any_of_renders_several_tokens_as_a_list() {
    assert_eq!(
        any_of(&[Token::Dot, Token::Comma, Token::Quote("'".to_string())]),
        "any of [Dot, Comma, Quote(\"'\")]"
    );
    assert_eq!(any_of(&[]), "any of []");
}
