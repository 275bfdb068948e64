use yew_template::text_part::TextPart;

fn render(parts: &[TextPart], open: &str, close: &str) -> String {
    parts
        .iter()
        .map(|p| match p {
            TextPart::Literal(t) => t.clone(),
            TextPart::Expression(e) => format!("{open}{e}{close}"),
        })
        .collect()
}

#[test]
fn parse_splits_literals_and_expressions() {
    let parts = TextPart::parse("Hello [name]!", "[", "]").unwrap();
    assert_eq!(parts.len(), 3);
    assert!(matches!(&parts[0], TextPart::Literal(t) if t == "Hello "));
    assert!(matches!(&parts[1], TextPart::Expression(e) if e == "name"));
    assert!(matches!(&parts[2], TextPart::Literal(t) if t == "!"));
}

#[test]
fn parse_round_trips() {
    for s in ["", "plain", "{{a}}{{b}}", "x{{ a[b] }}y", "{{}}", "a{{b}}c{{d}}e"] {
        let parts = TextPart::parse(s, "{{", "}}").unwrap();
        assert_eq!(render(&parts, "{{", "}}"), s);
    }
}

#[test]
fn parse_refuses_unclosed_delimiter() {
    assert!(TextPart::parse("a {{b", "{{", "}}").is_err());
    assert!(TextPart::parse("a [", "[", "]").is_err());
}
