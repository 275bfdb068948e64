use yew_template::args::Args;
use yew_template::codegen::{generate_code, text_to_code};
use yew_template::config::Config;
use yew_template::element::{Element, HtmlPart};
use yew_template::error::TemplateError;
use yew_template::i18n::Catalog;
use yew_template::tree::{HtmlSink, HtmlToken};

fn bracket_config() -> Config {
    let mut config = Config::default();
    config.variable_bounds = (String::from("["), String::from("]"));
    config
}

fn args_with(bindings: &[(&str, &str)]) -> Args {
    let mut args = Args::new(String::from("t.html"), bracket_config(), Catalog::new(), String::from("in t"));
    for (id, value) in bindings {
        args.bind(id.to_string(), value.to_string());
    }
    args
}

fn start(name: &str, attrs: &[(&str, &str)]) -> HtmlToken {
    HtmlToken::StartTag {
        name: name.to_string(),
        attrs: attrs.iter().map(|(k, v)| (k.to_string(), v.to_string())).collect(),
        self_closing: false,
    }
}

fn end(name: &str) -> HtmlToken {
    HtmlToken::EndTag { name: name.to_string(), attrs: Vec::new() }
}

fn text(t: &str) -> HtmlToken {
    HtmlToken::Characters(t.to_string())
}

fn build(tokens: Vec<HtmlToken>) -> Result<Element, TemplateError> {
    let mut sink = HtmlSink::new();
    for (i, t) in tokens.into_iter().enumerate() {
        sink.process_token(t, i + 1)?;
    }
    sink.finish()
}

#[test]
fn hello_name_scenario() {
    let root = build(vec![start("div", &[]), start("p", &[]), text("Hello [name]!"), end("p"), end("div")]).unwrap();
    let args = args_with(&[("name", "\"World\"")]);
    let code = generate_code(&root, &args).unwrap();
    assert_eq!(
        code,
        "yew::html! { \n<>\n    <div>\n        <p>\n            {\"Hello \"}{\"World\"}{\"!\"}\n        </p>\n    </div>\n</> }"
    );
}

#[test]
fn optional_subtree_scenario() {
    let tokens = || vec![start("div", &[("opt", "")]), start("p", &[]), text("You are [opt_age] years old!"), end("p"), end("div")];
    let present = generate_code(&build(tokens()).unwrap(), &args_with(&[("opt_age", "Some(20)")])).unwrap();
    assert_eq!(
        present,
        "yew::html! { \n<>\n    if let (Some(macro_produced_opt_age)) = (Some(20)) { \n        <div>\n            <p>\n                {\"You are \"}{macro_produced_opt_age}{\" years old!\"}\n            </p>\n        </div>\n    }\n</> }"
    );
    let absent = generate_code(&build(tokens()).unwrap(), &args_with(&[("opt_age", "None")])).unwrap();
    assert!(absent.contains("if let (Some(macro_produced_opt_age)) = (None) { "));
}

#[test]
fn optional_guard_binds_every_identifier_in_order() {
    let root = build(vec![start("div", &[("opt", "")]), text("[opt_b] and [a_opt]"), end("div")]).unwrap();
    let args = args_with(&[("opt_b", "None"), ("a_opt", "Some(1)")]);
    let code = generate_code(&root, &args).unwrap();
    assert!(code.contains("if let (Some(macro_produced_a_opt), Some(macro_produced_opt_b)) = (Some(1), None) { "));
}

#[test]
fn iterated_element_advances_cursors_in_lockstep() {
    let root = build(vec![start("li", &[("iter", "")]), text("[x_iter]-[y_iter]"), end("li")]).unwrap();
    let args = args_with(&[("x_iter", "[1, 2, 3].iter()"), ("y_iter", "[1, 2, 3, 4, 5].iter()")]);
    let code = generate_code(&root, &args).unwrap();
    assert!(code.contains("let mut macro_produced_x_iter = [1, 2, 3].iter();let mut macro_produced_y_iter = [1, 2, 3, 4, 5].iter();"));
    assert!(code.contains("while let (Some(macro_produced_x_iter), Some(macro_produced_y_iter)) = (macro_produced_x_iter.next(), macro_produced_y_iter.next()) {"));
    assert!(code.contains("fragments.into_iter().collect::<yew::Html>()"));
}

#[test]
fn present_if_and_its_negation() {
    let plain = build(vec![start("div", &[("present-if", "[cond]")]), text("Hi"), end("div")]).unwrap();
    let code = generate_code(&plain, &args_with(&[("cond", "false")])).unwrap();
    assert_eq!(
        code,
        "yew::html! { \n<>\n    if {false} {    \n        <div>\n            {\"Hi\"}\n        </div>\n    }\n</> }"
    );
    let negated = build(vec![start("div", &[("present-if", "![cond]")]), text("Hi"), end("div")]).unwrap();
    let code = generate_code(&negated, &args_with(&[("cond", "false")])).unwrap();
    assert!(code.contains("if !{false} {"));
}

#[test]
fn present_if_without_variable_is_refused() {
    let root = build(vec![start("div", &[("present-if", "cond")]), end("div")]).unwrap();
    assert_eq!(generate_code(&root, &args_with(&[("cond", "true")])), Err(TemplateError::PresentIfNotVariable));
}

#[test]
fn generation_is_deterministic() {
    let tokens = || vec![start("div", &[("opt", "")]), text("[opt_z][opt_a][opt_z]"), end("div")];
    let args = args_with(&[("opt_z", "None"), ("opt_a", "None")]);
    let first = generate_code(&build(tokens()).unwrap(), &args).unwrap();
    let second = generate_code(&build(tokens()).unwrap(), &args).unwrap();
    assert_eq!(first, second);
    assert!(first.contains("(Some(macro_produced_opt_a), Some(macro_produced_opt_z))"));
}

#[test]
fn locale_match_scenario() {
    let mut catalog = Catalog::new();
    catalog.insert("fr", "greet", "Hello", "Bonjour");
    let args = Args::new(String::from("t.html"), bracket_config(), catalog, String::from("greet"));
    let r = text_to_code("Hello", 0, &args).unwrap();
    assert_eq!(r.code, "\n{match locale.as_str() {\n    \"fr\" => \"Bonjour\",\n    _ => \"Hello\",\n}}");
}

#[test]
fn locale_match_with_expressions() {
    let mut catalog = Catalog::new();
    catalog.insert("fr", "greet", "Hello [name]", "Bonjour [name]");
    let args = {
        let mut a = Args::new(String::from("t.html"), bracket_config(), catalog, String::from("greet"));
        a.bind(String::from("name"), String::from("n"));
        a
    };
    let r = text_to_code("Hello [name]", 1, &args).unwrap();
    assert_eq!(
        r.code,
        "\n    {match locale.as_str() {\n        \"fr\" => yew::html! { <> {\"Bonjour \"}{n} </> },\n        _ => yew::html! { <> {\"Hello \"}{n} </> },\n    }}"
    );
}

#[test]
fn lone_expression_text_is_its_value() {
    let r = text_to_code("[name]", 2, &args_with(&[("name", "x")])).unwrap();
    assert_eq!(r.code, "{x}");
}

#[test]
fn mixed_attribute_becomes_format_call() {
    let root = build(vec![start("a", &[("href", "/u/[id]/'[q]'"), ("hidden", "true"), ("title", "[quoted]")]), end("a")]).unwrap();
    let args = args_with(&[("id", "user.id"), ("q", "q"), ("quoted", "\"x{y}\"")]);
    let code = generate_code(&root, &args).unwrap();
    assert!(code.contains("<a href={format!(\"/u/{}/'{}'\", {user.id}, {q})} hidden={true} title={\"x{y}\"}>"));
}

#[test]
fn quoted_value_is_inlined_in_format_string() {
    let root = build(vec![start("a", &[("title", "a[s]b")]), end("a")]).unwrap();
    let code = generate_code(&root, &args_with(&[("s", "\"{q}\"")])).unwrap();
    assert!(code.contains("title={format!(\"a{{q}}b\", )}"));
}

#[test]
fn field_access_and_auto_default() {
    let mut args = args_with(&[]);
    args.auto_default = true;
    let r = text_to_code("[person.name]", 0, &args).unwrap();
    assert_eq!(r.code, "{{person.name}}");
}

#[test]
fn missing_binding_is_refused() {
    assert_eq!(text_to_code("[nobody]", 0, &args_with(&[])).map(|r| r.code), Err(TemplateError::MissingBinding));
}

#[test]
fn invalid_identifier_is_refused() {
    assert_eq!(text_to_code("[a-b]", 0, &args_with(&[])).map(|r| r.code), Err(TemplateError::InvalidIdentifier));
}

#[test]
fn unicode_letters_are_valid_identifiers() {
    let r = text_to_code("[é]", 0, &args_with(&[("é", "1")])).unwrap();
    assert_eq!(r.code, "{1}");
}

#[test]
fn unclosed_expression_is_refused() {
    assert_eq!(text_to_code("Hello [name", 0, &args_with(&[])).map(|r| r.code), Err(TemplateError::UnclosedExpression));
}

#[test]
fn escaping_in_literals() {
    let r = text_to_code("say \"hi\" \\o/", 0, &args_with(&[])).unwrap();
    assert_eq!(r.code, "\n{\"say \\\"hi\\\" \\\\o/\"}");
}

#[test]
fn virtual_element_keeps_only_children() {
    let root = build(vec![start("virtual", &[]), start("b", &[]), end("b"), end("virtual")]).unwrap();
    let code = generate_code(&root, &args_with(&[])).unwrap();
    assert_eq!(code, "yew::html! { \n<>\n    <b>\n    </b>\n</> }");
}

#[test]
fn virtual_element_with_attributes_is_refused() {
    let root = build(vec![start("virtual", &[("class", "x")]), end("virtual")]).unwrap();
    assert_eq!(generate_code(&root, &args_with(&[])), Err(TemplateError::VirtualWithAttributes));
}

#[test]
fn self_closing_elements() {
    let root = build(vec![
        HtmlToken::StartTag { name: String::from("br"), attrs: Vec::new(), self_closing: true },
        HtmlToken::StartTag { name: String::from("img"), attrs: vec![(String::from("src"), String::from("a.png"))], self_closing: true },
    ])
    .unwrap();
    let code = generate_code(&root, &args_with(&[])).unwrap();
    assert_eq!(code, "yew::html! { \n<><br />\n    <img src={\"a.png\"}/>\n</> }");
}

#[test]
fn self_closing_with_children_is_refused() {
    let mut root = build(vec![HtmlToken::StartTag { name: String::from("img"), attrs: Vec::new(), self_closing: true }]).unwrap();
    if let HtmlPart::Element(e) = &mut root.children[0].part {
        e.children.push(yew_template::element::HtmlPartWithLine { part: HtmlPart::Text(String::from("x")), line: 1 });
    }
    assert_eq!(generate_code(&root, &args_with(&[])), Err(TemplateError::SelfClosingWithChildren));
}

#[test]
fn self_closing_with_close_attrs_is_refused() {
    let mut root = build(vec![HtmlToken::StartTag { name: String::from("img"), attrs: Vec::new(), self_closing: true }]).unwrap();
    if let HtmlPart::Element(e) = &mut root.children[0].part {
        e.close_attrs.push((String::from("a"), String::from("b")));
    }
    assert_eq!(generate_code(&root, &args_with(&[])), Err(TemplateError::SelfClosingWithCloseAttrs));
}

#[test]
fn directives_nest_iter_inside_opt_inside_present_if() {
    let root = build(vec![
        start("li", &[("iter", ""), ("present-if", "[show]"), ("opt", "")]),
        text("[opt_a][x_iter]"),
        end("li"),
    ])
    .unwrap();
    let args = args_with(&[("opt_a", "a"), ("x_iter", "xs"), ("show", "s")]);
    let code = generate_code(&root, &args).unwrap();
    let cond = code.find("if {s} {").unwrap();
    let guard = code.find("if let (Some(macro_produced_opt_a)) = (a) {").unwrap();
    let lp = code.find("while let (Some(macro_produced_x_iter))").unwrap();
    let tag = code.find("<li>").unwrap();
    assert!(cond < guard && guard < lp && lp < tag);
}

#[test]
fn literal_braces_in_mixed_attribute_are_doubled() {
    let root = build(vec![start("a", &[("style", "{x} [v] }")]), end("a")]).unwrap();
    let code = generate_code(&root, &args_with(&[("v", "v")])).unwrap();
    assert!(code.contains("style={format!(\"{{x}} {} }}\", {v})}"));
}

#[test]
fn missing_translations_are_listed() {
    let mut catalog = Catalog::new();
    catalog.insert("fr", "greet", "Hello", "Bonjour");
    catalog.insert("de", "greet", "Bye", "Tschüss");
    assert_eq!(catalog.missing_locales("Hello", "greet"), vec![String::from("de")]);
    assert!(catalog.missing_locales("Bye", "greet") == vec![String::from("fr")]);
}

#[test]
fn po_catalog_is_loaded() {
    let mut catalog = Catalog::new();
    let po = "msgid \"\"\nmsgstr \"\"\n\"Language: fr\\n\"\n\nmsgctxt \"greet\"\nmsgid \"Hello\"\nmsgstr \"Bonjour\"\n";
    catalog.load_po("fr", po).unwrap();
    let args = Args::new(String::from("t.html"), bracket_config(), catalog, String::from("greet"));
    let r = text_to_code("Hello", 0, &args).unwrap();
    assert_eq!(r.code, "\n{match locale.as_str() {\n    \"fr\" => \"Bonjour\",\n    _ => \"Hello\",\n}}");
}
