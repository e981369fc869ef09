use csp_flatten::yaml::parse;
use csp_flatten::{
    decode, flatten_values, render, CspDirective, DecodeError, ErrorKind, MaybeVec, Step, Yaml, CSP,
};

fn text(s: &str) -> Yaml {
    Yaml::Text(s.to_string())
}

fn mapping(entries: Vec<(&str, Yaml)>) -> Yaml {
    Yaml::Mapping(entries.into_iter().map(|(k, v)| (k.to_string(), v)).collect())
}

fn decoded(raw: Yaml) -> CSP {
    decode(&raw).expect("the document is a policy document")
}

fn error_of(raw: Yaml) -> DecodeError {
    match decode(&raw) {
        Ok(_) => panic!("the document was accepted"),
        Err(error) => error,
    }
}

fn key(name: &str) -> Step {
    Step::Key(name.to_string())
}

fn fault(kind: ErrorKind, path: Vec<Step>) -> DecodeError {
    DecodeError { kind, path }
}

fn entry(csp: &CSP, index: usize) -> (String, Vec<String>) {
    let (name, values) = csp.directives.entry(index);
    (name.clone(), flatten_values("", values))
}

#[test]
fn text_scalar_is_a_source_value() {
    let csp = decoded(mapping(vec![("img-src", text("'self'"))]));
    assert_eq!(csp.directives.len(), 1);
    let (name, values) = csp.directives.entry(0);
    assert_eq!(name, "img-src");
    assert!(matches!(values, MaybeVec::Singleton(CspDirective::Directive(v)) if v == "'self'"));
}

#[test]
fn the_word_none_is_the_keyword() {
    let csp = decoded(mapping(vec![("default-src", text("none"))]));
    let (_, values) = csp.directives.entry(0);
    assert!(matches!(values, MaybeVec::Singleton(CspDirective::CSPNone)));
    assert_eq!(render(&csp), "default-src 'none'; ");
}

#[test]
fn only_the_exact_word_none_is_the_keyword() {
    for word in ["None", "NONE", "none ", "'none'", "non", "nonee", ""] {
        let csp = decoded(mapping(vec![("default-src", text(word))]));
        let (_, values) = csp.directives.entry(0);
        assert!(
            matches!(values, MaybeVec::Singleton(CspDirective::Directive(v)) if v == word),
            "{:?}",
            word
        );
    }
}

#[test]
fn sequence_is_a_list_of_values() {
    let raw = mapping(vec![("img-src", Yaml::Sequence(vec![text("'self'"), text("https:")]))]);
    let csp = decoded(raw);
    let (_, values) = csp.directives.entry(0);
    assert!(matches!(values, MaybeVec::Vector(items) if items.len() == 2));
    assert_eq!(entry(&csp, 0), ("img-src".to_string(), vec!["'self'".to_string(), "https:".to_string()]));
}

#[test]
fn empty_sequence_is_an_empty_list() {
    let csp = decoded(mapping(vec![("img-src", Yaml::Sequence(vec![]))]));
    assert_eq!(entry(&csp, 0), ("img-src".to_string(), vec![]));
    assert_eq!(render(&csp), "img-src; ");
}

#[test]
fn nested_mapping_is_a_group() {
    let raw = mapping(vec![(
        "script-src",
        mapping(vec![("https://cdn.example.com/", Yaml::Sequence(vec![text("a"), text("b")]))]),
    )]);
    let csp = decoded(raw);
    let (_, values) = csp.directives.entry(0);
    assert!(matches!(values, MaybeVec::Singleton(CspDirective::Prefixed(_))));
    assert_eq!(
        render(&csp),
        "script-src https://cdn.example.com/a https://cdn.example.com/b; "
    );
}

#[test]
fn single_value_and_list_of_one_decode_alike() {
    let single = decoded(mapping(vec![("img-src", text("https:"))]));
    let list = decoded(mapping(vec![("img-src", Yaml::Sequence(vec![text("https:")]))]));
    assert_eq!(entry(&single, 0), entry(&list, 0));
    assert_eq!(render(&single), render(&list));
    assert_eq!(render(&single), "img-src https:; ");
    let nested_single = decoded(mapping(vec![("a", mapping(vec![("b", text("c"))]))]));
    let nested_list =
        decoded(mapping(vec![("a", mapping(vec![("b", Yaml::Sequence(vec![text("c")]))]))]));
    assert_eq!(render(&nested_single), render(&nested_list));
}

#[test]
fn statements_come_in_key_order_not_written_order() {
    let written = mapping(vec![("script-src", text("'self'")), ("default-src", text("none"))]);
    let csp = decoded(written);
    assert_eq!(csp.directives.entry(0).0, "default-src");
    assert_eq!(csp.directives.entry(1).0, "script-src");
    assert_eq!(render(&csp), "default-src 'none'; script-src 'self'; ");
    let sorted = mapping(vec![("default-src", text("none")), ("script-src", text("'self'"))]);
    assert_eq!(render(&decoded(sorted)), "default-src 'none'; script-src 'self'; ");
}

#[test]
fn group_entries_come_in_key_order() {
    let raw = mapping(vec![(
        "img-src",
        mapping(vec![("https:", text("//b")), ("data:", text("x")), ("http:", text("//a"))]),
    )]);
    assert_eq!(render(&decoded(raw)), "img-src data:x http://a https://b; ");
}

#[test]
fn empty_mapping_is_an_empty_document() {
    let csp = decoded(mapping(vec![]));
    assert_eq!(csp.directives.len(), 0);
    assert_eq!(render(&csp), "");
}

#[test]
fn top_level_must_be_a_mapping() {
    let refused = fault(ErrorKind::NotAMapping, vec![]);
    assert_eq!(error_of(Yaml::Null), refused);
    assert_eq!(error_of(text("default-src")), refused);
    assert_eq!(error_of(Yaml::Bool(true)), refused);
    assert_eq!(error_of(Yaml::Number), refused);
    assert_eq!(error_of(Yaml::Tagged), refused);
    assert_eq!(error_of(Yaml::Sequence(vec![])), refused);
    assert_eq!(error_of(Yaml::Sequence(vec![mapping(vec![("a", text("b"))])])), refused);
}

#[test]
fn scalars_that_are_no_text_are_refused() {
    for bad in [Yaml::Null, Yaml::Bool(false), Yaml::Number, Yaml::Tagged] {
        assert_eq!(
            error_of(mapping(vec![("img-src", bad)])),
            fault(ErrorKind::WrongScalar, vec![key("img-src")])
        );
    }
    assert_eq!(
        error_of(mapping(vec![("img-src", Yaml::Sequence(vec![text("a"), Yaml::Number]))])),
        fault(ErrorKind::WrongScalar, vec![key("img-src"), Step::Index(1)])
    );
    assert_eq!(
        error_of(mapping(vec![("img-src", mapping(vec![("https:", Yaml::Null)]))])),
        fault(ErrorKind::WrongScalar, vec![key("img-src"), key("https:")])
    );
}

#[test]
fn sequence_inside_sequence_is_refused() {
    let raw = mapping(vec![("img-src", Yaml::Sequence(vec![Yaml::Sequence(vec![text("a")])]))]);
    assert_eq!(
        error_of(raw),
        fault(ErrorKind::NestedSequence, vec![key("img-src"), Step::Index(0)])
    );
    let deeper = mapping(vec![(
        "img-src",
        mapping(vec![("https:", Yaml::Sequence(vec![text("a"), Yaml::Sequence(vec![])]))]),
    )]);
    assert_eq!(
        error_of(deeper),
        fault(ErrorKind::NestedSequence, vec![key("img-src"), key("https:"), Step::Index(1)])
    );
}

#[test]
fn duplicate_keys_are_refused() {
    let raw = mapping(vec![("img-src", text("a")), ("img-src", text("b"))]);
    assert_eq!(error_of(raw), fault(ErrorKind::DuplicateKey, vec![key("img-src")]));
    let nested = mapping(vec![(
        "img-src",
        mapping(vec![("https:", text("a")), ("http:", text("b")), ("https:", text("a"))]),
    )]);
    assert_eq!(
        error_of(nested),
        fault(ErrorKind::DuplicateKey, vec![key("img-src"), key("https:")])
    );
}

#[test]
fn the_first_error_in_written_order_is_found() {
    let raw = mapping(vec![
        ("b", Yaml::Sequence(vec![Yaml::Sequence(vec![])])),
        ("a", Yaml::Null),
    ]);
    assert_eq!(error_of(raw), fault(ErrorKind::NestedSequence, vec![key("b"), Step::Index(0)]));
    let raw = mapping(vec![
        ("b", Yaml::Null),
        ("a", Yaml::Sequence(vec![Yaml::Sequence(vec![])])),
    ]);
    assert_eq!(error_of(raw), fault(ErrorKind::WrongScalar, vec![key("b")]));
    let raw = mapping(vec![("a", text("x")), ("a", Yaml::Null)]);
    assert_eq!(error_of(raw), fault(ErrorKind::DuplicateKey, vec![key("a")]));
    let raw = mapping(vec![(
        "a",
        Yaml::Sequence(vec![text("x"), mapping(vec![("p", Yaml::Bool(true))]), Yaml::Null]),
    )]);
    assert_eq!(
        error_of(raw),
        fault(ErrorKind::WrongScalar, vec![key("a"), Step::Index(1), key("p")])
    );
}

#[test]
fn single_value_and_list_of_one_fail_alike_one_step_apart() {
    let single = error_of(mapping(vec![("a", Yaml::Null)]));
    let list = error_of(mapping(vec![("a", Yaml::Sequence(vec![Yaml::Null]))]));
    assert_eq!(single, fault(ErrorKind::WrongScalar, vec![key("a")]));
    assert_eq!(list, fault(ErrorKind::WrongScalar, vec![key("a"), Step::Index(0)]));
}

#[test]
fn errors_are_built_from_the_value_up() {
    let error = DecodeError::at_top(ErrorKind::WrongScalar);
    assert_eq!(error, fault(ErrorKind::WrongScalar, vec![]));
    let error = error.under(Step::Index(2)).under(key("img-src"));
    assert_eq!(error, fault(ErrorKind::WrongScalar, vec![key("img-src"), Step::Index(2)]));
}

#[test]
fn parse_gives_the_raw_document() {
    let raw = parse("a: [x, {b: ~}]\nc: 1\nd: true\ne: !tag v\n").expect("the text is well-formed");
    let entries = match raw {
        Yaml::Mapping(entries) => entries,
        other => panic!("not a mapping: {:?}", other),
    };
    let keys: Vec<&str> = entries.iter().map(|(k, _)| k.as_str()).collect();
    assert_eq!(keys, vec!["a", "c", "d", "e"]);
    match &entries[0].1 {
        Yaml::Sequence(items) => {
            assert!(matches!(&items[0], Yaml::Text(s) if s == "x"));
            match &items[1] {
                Yaml::Mapping(inner) => {
                    assert_eq!(inner.len(), 1);
                    assert_eq!(inner[0].0, "b");
                    assert!(matches!(inner[0].1, Yaml::Null));
                }
                other => panic!("not a mapping: {:?}", other),
            }
        }
        other => panic!("not a sequence: {:?}", other),
    }
    assert!(matches!(entries[1].1, Yaml::Number));
    assert!(matches!(entries[2].1, Yaml::Bool(true)));
    assert!(matches!(entries[3].1, Yaml::Tagged));
}

#[test]
fn parse_keeps_the_written_order_of_entries() {
    let raw = parse("script-src: a\ndefault-src: b\n").expect("the text is well-formed");
    match raw {
        Yaml::Mapping(entries) => {
            assert_eq!(entries[0].0, "script-src");
            assert_eq!(entries[1].0, "default-src");
        }
        other => panic!("not a mapping: {:?}", other),
    }
}

#[test]
fn parse_refuses_malformed_text() {
    assert!(parse("a: [unclosed").is_err());
    assert!(parse("a: {b").is_err());
}

#[test]
fn parse_reads_quoted_and_plain_scalars_as_text() {
    let raw = parse("a: none\nb: \"none\"\nc: 'x y'\n").expect("the text is well-formed");
    match raw {
        Yaml::Mapping(entries) => {
            assert!(matches!(&entries[0].1, Yaml::Text(s) if s == "none"));
            assert!(matches!(&entries[1].1, Yaml::Text(s) if s == "none"));
            assert!(matches!(&entries[2].1, Yaml::Text(s) if s == "x y"));
        }
        other => panic!("not a mapping: {:?}", other),
    }
}

#[test]
fn parse_refuses_a_key_written_twice() {
    assert!(parse("a: x\na: y\n").is_err());
    assert!(parse("a:\n  b: x\n  b: x\n").is_err());
    assert!(parse("a:\n  b: x\nc:\n  b: x\n").is_ok());
}
