use yew_template::element::{Element, HtmlPart, HtmlPartWithLine};
use yew_template::error::TemplateError;
use yew_template::tree::{HtmlSink, HtmlToken};

fn start(name: &str, attrs: &[(&str, &str)]) -> HtmlToken {
    HtmlToken::StartTag {
        name: name.to_string(),
        attrs: attrs.iter().map(|(k, v)| (k.to_string(), v.to_string())).collect(),
        self_closing: false,
    }
}

fn end(name: &str) -> HtmlToken {
    HtmlToken::EndTag { name: name.to_string(), attrs: Vec::new() }
}

fn text_of(p: &HtmlPartWithLine) -> Option<&str> {
    match &p.part {
        HtmlPart::Text(t) => Some(t.as_str()),
        HtmlPart::Element(_) => None,
    }
}

#[test]
fn cleanup_joins_trims_and_drops_texts() {
    let mut el = Element {
        name: String::from("div"),
        self_closing: false,
        is_component: false,
        open_attrs: Vec::new(),
        close_attrs: Vec::new(),
        children: vec![
            HtmlPartWithLine { part: HtmlPart::Text(String::from("  \n a")), line: 1 },
            HtmlPartWithLine { part: HtmlPart::Text(String::from("b\u{A0} ")), line: 2 },
            HtmlPartWithLine {
                part: HtmlPart::Element(Element {
                    name: String::from("p"),
                    self_closing: false,
                    is_component: false,
                    open_attrs: Vec::new(),
                    close_attrs: Vec::new(),
                    children: vec![HtmlPartWithLine { part: HtmlPart::Text(String::from("   ")), line: 3 }],
                }),
                line: 3,
            },
            HtmlPartWithLine { part: HtmlPart::Text(String::from(" \t ")), line: 4 },
        ],
    };
    el.clean_text();
    assert_eq!(el.children.len(), 2);
    assert_eq!(text_of(&el.children[0]), Some("ab\u{A0}"));
    assert_eq!(el.children[0].line, 1);
    match &el.children[1].part {
        HtmlPart::Element(p) => assert!(p.children.is_empty()),
        HtmlPart::Text(_) => panic!("expected an element"),
    }
}

#[test]
fn component_alias_takes_its_name() {
    let mut sink = HtmlSink::new();
    sink.process_token(start("comp", &[("class", "x"), ("name", "Card"), ("name", "Other")]), 1).unwrap();
    sink.process_token(end("component"), 2).unwrap();
    let root = sink.finish().unwrap();
    match &root.children[0].part {
        HtmlPart::Element(e) => {
            assert_eq!(e.name, "Card");
            assert!(e.is_component);
            assert_eq!(e.open_attrs, vec![(String::from("class"), String::from("x"))]);
        }
        HtmlPart::Text(_) => panic!("expected an element"),
    }
}

#[test]
fn component_closed_by_its_real_name() {
    let mut sink = HtmlSink::new();
    sink.process_token(start("component", &[("name", "Card")]), 1).unwrap();
    assert_eq!(sink.process_token(end("Card"), 1), Ok(()));
}

#[test]
fn component_without_name_is_refused() {
    let mut sink = HtmlSink::new();
    assert_eq!(sink.process_token(start("comp", &[]), 7), Err(TemplateError::MissingComponentName { line: 7 }));
}

#[test]
fn mismatched_closing_tag_is_refused() {
    let mut sink = HtmlSink::new();
    sink.process_token(start("div", &[]), 1).unwrap();
    assert_eq!(sink.process_token(end("span"), 3), Err(TemplateError::UnexpectedClosingTag { line: 3 }));
}

#[test]
fn closing_tag_without_opening_is_refused() {
    let mut sink = HtmlSink::new();
    assert_eq!(sink.process_token(end("div"), 2), Err(TemplateError::UnexpectedClosingTag { line: 2 }));
}

#[test]
fn unclosed_element_is_refused() {
    let mut sink = HtmlSink::new();
    sink.process_token(start("div", &[]), 1).unwrap();
    assert!(matches!(sink.finish(), Err(TemplateError::UnclosedElement)));
}

#[test]
fn malformed_markup_is_refused() {
    let mut sink = HtmlSink::new();
    assert_eq!(sink.process_token(HtmlToken::ParseError, 5), Err(TemplateError::MalformedMarkup { line: 5 }));
    assert_eq!(sink.process_token(HtmlToken::Ignored, 6), Ok(()));
}

#[test]
fn tree_has_no_adjacent_or_empty_texts() {
    let mut sink = HtmlSink::new();
    for (i, t) in vec![
        HtmlToken::Characters(String::from("\n  ")),
        start("div", &[]),
        HtmlToken::Characters(String::from(" x ")),
        HtmlToken::Characters(String::from(" y ")),
        start("b", &[]),
        end("b"),
        HtmlToken::Characters(String::from("\n")),
        end("div"),
    ]
    .into_iter()
    .enumerate()
    {
        sink.process_token(t, i).unwrap();
    }
    let root = sink.finish().unwrap();
    assert_eq!(root.children.len(), 1);
    match &root.children[0].part {
        HtmlPart::Element(div) => {
            assert_eq!(div.children.len(), 2);
            assert_eq!(text_of(&div.children[0]), Some("x  y"));
        }
        HtmlPart::Text(_) => panic!("expected an element"),
    }
}

#[test]
fn text_after_dropped_run_keeps_its_own_line() {
    let mut sink = HtmlSink::new();
    sink.process_token(HtmlToken::Characters(String::from(" ")), 1).unwrap();
    sink.process_token(start("b", &[]), 2).unwrap();
    sink.process_token(end("b"), 2).unwrap();
    sink.process_token(HtmlToken::Characters(String::from("x")), 3).unwrap();
    let root = sink.finish().unwrap();
    assert_eq!(root.children.len(), 2);
    assert_eq!(text_of(&root.children[1]), Some("x"));
    assert_eq!(root.children[1].line, 3);
}
