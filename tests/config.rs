use yew_template::call::{parse_args, ArgError, ArgToken};
use yew_template::config::{directory_path, AnyValues, Config, ConfigLoader};
use yew_template::error::TemplateError;
use yew_template::i18n::Catalog;
use yew_template::pot::{merge_pot, origin_path, translation_context};
use yew_template::tree::{HtmlSink, HtmlToken};

fn loader() -> ConfigLoader {
    ConfigLoader {
        auto_default: None,
        template_directory: None,
        locale_directory: None,
        locale_code: None,
        variable_separator: None,
        helpers: None,
    }
}

#[test]
fn default_config_values() {
    let c = Config::default();
    assert!(!c.auto_default);
    assert_eq!(c.template_directory, "./");
    assert_eq!(c.locale_directory, "./locales/");
    assert_eq!(c.locale_code, "locale.as_str()");
    assert_eq!(c.variable_bounds, (String::from("{{"), String::from("}}")));
    assert_eq!(c.helpers.len(), 2);
    assert_eq!(c.helpers[0].2.to_code(vec![String::from("x")]), "x.to_uppercase()");
}

#[test]
fn loader_overrides_defaults() {
    let mut l = loader();
    l.auto_default = Some(true);
    l.variable_separator = Some((String::from("["), String::from("]")));
    l.helpers = Some(vec![(String::from("sum"), AnyValues::Values(vec![String::from("[0] + [1]"), String::from("[0]")]))]);
    let c = Config::from(l).unwrap();
    assert!(c.auto_default);
    assert_eq!(c.variable_bounds.0, "[");
    assert_eq!(c.helpers.len(), 4);
    assert_eq!(c.helpers[2].1, 2);
    assert_eq!(c.helpers[3].1, 1);
}

#[test]
fn invalid_helper_is_refused() {
    let mut l = loader();
    l.helpers = Some(vec![(String::from("bad"), AnyValues::Value(String::from("[1]")))]);
    assert!(matches!(Config::from(l), Err(TemplateError::InvalidConfig)));
}

#[test]
fn empty_separator_is_kept() {
    let mut l = loader();
    l.variable_separator = Some((String::new(), String::from("]")));
    let c = Config::from(l).unwrap();
    assert_eq!(c.variable_bounds, (String::new(), String::from("]")));
}

#[test]
fn any_values_into_vec() {
    assert_eq!(AnyValues::Value(String::from("a")).into_vec(), vec![String::from("a")]);
    assert_eq!(AnyValues::Values(vec![String::from("a"), String::from("b")]).into_vec().len(), 2);
}

#[test]
fn directories_get_trailing_slash() {
    assert_eq!(directory_path(String::from("tpl")), "tpl/");
    assert_eq!(directory_path(String::from("tpl/")), "tpl/");
    assert_eq!(directory_path(String::new()), "");
}

#[test]
fn helper_with_missing_argument_is_refused() {
    assert!(yew_template::helper::Helper::parse("[1]").is_none());
    assert!(yew_template::helper::Helper::parse("no args").is_none());
    assert!(yew_template::helper::Helper::parse("[]").is_none());
}

fn lit(s: &str) -> ArgToken {
    ArgToken::Literal(s.to_string())
}
fn ident(s: &str) -> ArgToken {
    ArgToken::Ident(s.to_string())
}
fn punct(ch: char, joint: bool) -> ArgToken {
    ArgToken::Punct { ch, joint }
}

#[test]
fn arguments_are_read_in_order() {
    let tokens = vec![
        lit("\"page.html\""),
        punct(',', false),
        ident("a"),
        punct('=', false),
        lit("\"x\""),
        punct(',', false),
        ident("b"),
        punct(',', false),
        punct('.', true),
        punct('.', true),
        punct('.', false),
    ];
    let args = parse_args(&tokens, Config::default(), Catalog::new()).unwrap();
    assert_eq!(args.path, "./page.html");
    assert_eq!(args.context, "in page");
    assert!(args.auto_default);
    assert_eq!(
        args.vals,
        vec![(String::from("a"), String::from("\"x\"")), (String::from("b"), String::from("b"))]
    );
}

#[test]
fn argument_errors() {
    let c = || Config::default();
    assert_eq!(parse_args(&vec![], c(), Catalog::new()).err(), Some(ArgError::MissingPath));
    assert_eq!(parse_args(&vec![ident("x")], c(), Catalog::new()).err(), Some(ArgError::ExpectedPath));
    assert_eq!(parse_args(&vec![lit("\"p\""), ident("x")], c(), Catalog::new()).err(), Some(ArgError::ExpectedComma));
    assert_eq!(parse_args(&vec![lit("\"p\""), punct(',', false), lit("1")], c(), Catalog::new()).err(), Some(ArgError::ExpectedIdent));
    assert_eq!(parse_args(&vec![lit("\"p\""), punct(',', false), ident("x"), ident("y")], c(), Catalog::new()).err(), Some(ArgError::ExpectedEquals));
    assert_eq!(parse_args(&vec![lit("\"p\""), punct(',', false), ident("x"), punct('=', false)], c(), Catalog::new()).err(), Some(ArgError::ExpectedValue));
    assert_eq!(parse_args(&vec![lit("\"p\""), punct(',', false), punct('.', true), ident("y")], c(), Catalog::new()).err(), Some(ArgError::ExpectedSecondDot));
    assert_eq!(parse_args(&vec![lit("\"p\""), punct(',', false), punct('.', true), punct('.', true), ident("y")], c(), Catalog::new()).err(), Some(ArgError::ExpectedThirdDot));
    assert_eq!(parse_args(&vec![lit("\"p\""), punct(',', false), punct('.', true), punct('.', true), punct('.', false), ident("y")], c(), Catalog::new()).err(), Some(ArgError::DotsNotLast));
}

#[test]
fn pot_extraction() {
    let mut sink = HtmlSink::new();
    sink.process_token(HtmlToken::StartTag { name: String::from("p"), attrs: Vec::new(), self_closing: false }, 3).unwrap();
    sink.process_token(HtmlToken::Characters(String::from("Say \"hi\"")), 3).unwrap();
    sink.process_token(HtmlToken::EndTag { name: String::from("p"), attrs: Vec::new() }, 3).unwrap();
    let root = sink.finish().unwrap();
    let ts = root.get_translatables("./templates/home.html");
    assert_eq!(ts.len(), 1);
    let part = ts[0].generate_pot_part();
    assert_eq!(part, "#: templates/home.html:3\nmsgctxt \"in home\"\nmsgid \"Say \\\"hi\\\"\"\nmsgstr \"\"");
    let once = merge_pot(String::new(), &ts);
    assert_eq!(once, format!("\n{part}\n"));
    assert_eq!(merge_pot(once.clone(), &ts), once);
}

#[test]
fn context_and_origin_of_paths() {
    assert_eq!(translation_context("a/b/page.html.html"), "in page");
    assert_eq!(translation_context("page"), "in page");
    assert_eq!(origin_path("././x/y.html"), "x/y.html");
}

#[test]
fn pot_entry_layout() {
    assert_eq!(
        yew_template::pot::pot_entry("a.html", 12, "\"in a\"", "\"Hi\""),
        "#: a.html:12\nmsgctxt \"in a\"\nmsgid \"Hi\"\nmsgstr \"\""
    );
}
