use csp_flatten::{flatten_csp, flatten_values, CspDirective, DirectiveMap, MaybeVec};

fn literal(text: &str) -> CspDirective {
    CspDirective::Directive(text.to_string())
}

fn group(entries: Vec<(&str, MaybeVec<CspDirective>)>) -> CspDirective {
    let mut map = DirectiveMap::new();
    for (key, values) in entries {
        map.insert(key.to_string(), values);
    }
    CspDirective::Prefixed(map)
}

fn strings(items: &[&str]) -> Vec<String> {
    items.iter().map(|s| s.to_string()).collect()
}

#[test]
fn literal_passes_through_with_empty_prefix() {
    assert_eq!(flatten_csp("", &literal("self")), strings(&["self"]));
}

#[test]
fn literal_is_appended_to_prefix() {
    assert_eq!(flatten_csp("https://", &literal("self")), strings(&["https://self"]));
}

#[test]
fn literal_may_be_empty() {
    assert_eq!(flatten_csp("https:", &literal("")), strings(&["https:"]));
    assert_eq!(flatten_csp("", &literal("")), strings(&[""]));
}

#[test]
fn none_is_the_quoted_keyword() {
    assert_eq!(flatten_csp("", &CspDirective::CSPNone), strings(&["'none'"]));
}

#[test]
fn none_ignores_every_prefix() {
    for prefix in ["https://", "a", " ", "'none'", "https://cdn.example.com/"] {
        assert_eq!(flatten_csp(prefix, &CspDirective::CSPNone), strings(&["'none'"]));
    }
}

#[test]
fn empty_group_contributes_nothing() {
    let empty = CspDirective::Prefixed(DirectiveMap::new());
    assert_eq!(flatten_csp("", &empty), Vec::<String>::new());
    assert_eq!(flatten_csp("https://", &empty), Vec::<String>::new());
}

#[test]
fn group_with_empty_list_contributes_nothing() {
    let node = group(vec![("https:", MaybeVec::Vector(vec![]))]);
    assert_eq!(flatten_csp("x", &node), Vec::<String>::new());
}

#[test]
fn fragment_stands_between_prefix_and_value() {
    let node = group(vec![("https:", MaybeVec::Vector(vec![literal("//a")]))]);
    assert_eq!(flatten_csp("", &node), strings(&["https://a"]));
    assert_eq!(flatten_csp("pre-", &node), strings(&["pre-https://a"]));
}

#[test]
fn two_levels_join_outside_in() {
    let inner = group(vec![("b", MaybeVec::Vector(vec![literal("c")]))]);
    let outer = group(vec![("a", MaybeVec::Vector(vec![inner]))]);
    assert_eq!(flatten_csp("", &outer), strings(&["abc"]));
}

#[test]
fn none_inside_a_group_is_not_prefixed() {
    let node = group(vec![(
        "https:",
        MaybeVec::Vector(vec![literal("//a"), CspDirective::CSPNone, literal("//b")]),
    )]);
    assert_eq!(flatten_csp("", &node), strings(&["https://a", "'none'", "https://b"]));
}

#[test]
fn single_value_equals_list_of_one() {
    let single = group(vec![("https:", MaybeVec::Singleton(literal("//a")))]);
    let list = group(vec![("https:", MaybeVec::Vector(vec![literal("//a")]))]);
    assert_eq!(flatten_csp("", &single), flatten_csp("", &list));
    assert_eq!(flatten_csp("", &single), strings(&["https://a"]));
    assert_eq!(
        flatten_values("p", &MaybeVec::Singleton(literal("v"))),
        flatten_values("p", &MaybeVec::Vector(vec![literal("v")]))
    );
}

#[test]
fn entries_come_in_key_order_and_elements_in_list_order() {
    let node = group(vec![
        ("b/", MaybeVec::Vector(vec![literal("2"), literal("1")])),
        ("a/", MaybeVec::Vector(vec![literal("z"), literal("y"), literal("z")])),
    ]);
    assert_eq!(flatten_csp("", &node), strings(&["a/z", "a/y", "a/z", "b/2", "b/1"]));
}

#[test]
fn nothing_is_deduplicated() {
    let values = MaybeVec::Vector(vec![literal("a"), literal("a")]);
    assert_eq!(flatten_values("", &values), strings(&["a", "a"]));
}

#[test]
fn depth_first_through_nested_groups() {
    let deep = group(vec![
        ("x", MaybeVec::Singleton(literal("1"))),
        ("y", MaybeVec::Vector(vec![group(vec![("z", MaybeVec::Singleton(literal("2")))])])),
    ]);
    let node = group(vec![("p", MaybeVec::Vector(vec![literal("0"), deep, literal("3")]))]);
    assert_eq!(flatten_csp(">", &node), strings(&[">p0", ">px1", ">pyz2", ">p3"]));
}

#[test]
fn flatten_values_of_empty_list_is_empty() {
    assert_eq!(flatten_values("p", &MaybeVec::Vector(vec![])), Vec::<String>::new());
}

#[test]
fn maybe_vec_reads_as_a_sequence() {
    let one = MaybeVec::Singleton(7u32);
    assert_eq!(one.len(), 1);
    assert_eq!(*one.get(0), 7);
    assert_eq!(one.into_vec(), vec![7]);
    let many = MaybeVec::Vector(vec![3u32, 1, 2]);
    assert_eq!(many.len(), 3);
    assert_eq!(*many.get(0), 3);
    assert_eq!(*many.get(2), 2);
    assert_eq!(many.into_vec(), vec![3, 1, 2]);
    let none: MaybeVec<u32> = MaybeVec::Vector(vec![]);
    assert_eq!(none.len(), 0);
    assert_eq!(none.into_vec(), Vec::<u32>::new());
}

#[test]
fn maybe_vec_converts_into_a_vector() {
    let single: Vec<u32> = MaybeVec::Singleton(7u32).into();
    assert_eq!(single, vec![7]);
    let list: Vec<u32> = MaybeVec::Vector(vec![3u32, 1, 2]).into();
    assert_eq!(list, vec![3, 1, 2]);
    assert_eq!(Vec::from(MaybeVec::Vector(Vec::<u32>::new())), Vec::<u32>::new());
}

#[test]
fn every_keyword_and_source_value_gives_one_value() {
    let inner = group(vec![
        ("x", MaybeVec::Vector(vec![literal("1"), literal("1"), CspDirective::CSPNone])),
        ("y", MaybeVec::Vector(vec![])),
    ]);
    let node = group(vec![
        ("a", MaybeVec::Vector(vec![inner, literal("2")])),
        ("b", MaybeVec::Singleton(CspDirective::Prefixed(DirectiveMap::new()))),
    ]);
    assert_eq!(flatten_csp("", &node).len(), 4);
    assert_eq!(flatten_csp("long-prefix", &node).len(), 4);
}
