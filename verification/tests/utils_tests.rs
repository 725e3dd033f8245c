use pyre::utils::CompiledPattern;
use pyre::utils::make_regex_from_vec;
use pyre::utils::url_test_regex;

#[test]
fn compiled_pattern_matches() {
    let p = CompiledPattern::compile(r"^/users/\d+$").expect("valid pattern");
    assert!(p.is_match("/users/42"));
    assert!(!p.is_match("/users/alice"));
}

#[test]
fn invalid_pattern_does_not_compile() {
    assert!(CompiledPattern::compile(r"(unclosed").is_none());
}

#[test]
fn url_test_regex_reports_the_match() {
    let p = CompiledPattern::compile(r"^/static/.*\.css$").expect("valid pattern");
    assert!(url_test_regex("/static/site.css", &p));
    assert!(!url_test_regex("/static/site.js", &p));
}

#[test]
fn route_table_compiles_in_order() {
    let table = make_regex_from_vec(vec![r"^/$", r"^/about$", r"^/items/\d+$"])
        .expect("all patterns valid");
    assert_eq!(table.len(), 3);
    assert!(table[0].is_match("/"));
    assert!(table[2].is_match("/items/7"));
    assert!(!table[1].is_match("/items/7"));
}

#[test]
fn route_table_with_a_bad_pattern_fails() {
    assert!(make_regex_from_vec(vec![r"^/$", r"(bad"]).is_none());
}
