use quickwit::search::query_cost_classifier::{
    classify, has_min_literal_prefix, PatternFlavor, QueryAst, QueryCostClass, WireQueryCostClass,
};

fn regex(pattern: &str) -> QueryAst {
    QueryAst::Regex {
        field: "body".to_string(),
        regex: pattern.to_string(),
    }
}

fn wildcard(pattern: &str) -> QueryAst {
    QueryAst::Wildcard {
        field: "body".to_string(),
        value: pattern.to_string(),
        lenient: false,
        case_insensitive: false,
    }
}

fn must(queries: Vec<QueryAst>) -> QueryAst {
    QueryAst::Bool {
        must: queries,
        must_not: Vec::new(),
        should: Vec::new(),
        filter: Vec::new(),
    }
}

#[test]
fn test_match_all_is_regular() {
    assert_eq!(classify(&QueryAst::MatchAll), QueryCostClass::Regular);
}

#[test]
fn test_plain_term_is_regular() {
    let ast = QueryAst::Term {
        field: "body".to_string(),
        value: "hello".to_string(),
    };
    assert_eq!(classify(&ast), QueryCostClass::Regular);
}

#[test]
fn test_anchored_regex_with_long_prefix_is_regular() {
    assert_eq!(classify(&regex("^abcd.*")), QueryCostClass::Regular);
}

#[test]
fn test_regex_with_short_literal_prefix_is_costly() {
    assert_eq!(classify(&regex("ab.*xyz")), QueryCostClass::Costly);
}

#[test]
fn test_leading_wildcard_regex_is_costly() {
    assert_eq!(classify(&regex(".*xyz")), QueryCostClass::Costly);
}

#[test]
fn test_escaped_metacharacter_counts_as_literal() {
    // "a\.b" matches the literal "a.b" and only then has a wildcard.
    assert_eq!(classify(&regex("a\\.b.*")), QueryCostClass::Regular);
}

#[test]
fn test_escaped_character_class_is_costly() {
    // "\d\d\d" has no literal prefix at all: the escaped characters are
    // character classes, not literals.
    assert_eq!(classify(&regex("\\d\\d\\d456")), QueryCostClass::Costly);
    assert_eq!(classify(&regex("ab\\wxyz")), QueryCostClass::Costly);
}

#[test]
fn test_regex_optional_quantifier_shortens_prefix() {
    // "abc*" is "ab" followed by any number of "c": the prunable prefix is
    // only 2 characters long.
    assert_eq!(classify(&regex("abc*")), QueryCostClass::Costly);
    assert_eq!(classify(&regex("abc?")), QueryCostClass::Costly);
    assert_eq!(classify(&regex("abc{0,5}")), QueryCostClass::Costly);
    // ... but one more literal character is enough.
    assert_eq!(classify(&regex("abcd*")), QueryCostClass::Regular);
}

#[test]
fn test_regex_mandatory_quantifier_keeps_prefix() {
    // "abc+" and "abc{2,5}" both require at least one "c".
    assert_eq!(classify(&regex("abc+")), QueryCostClass::Regular);
    assert_eq!(classify(&regex("abc{2,5}")), QueryCostClass::Regular);
}

#[test]
fn test_wildcard_query_with_leading_wildcard_is_costly() {
    assert_eq!(classify(&wildcard("*xyz")), QueryCostClass::Costly);
}

#[test]
fn test_wildcard_query_with_long_prefix_is_regular() {
    assert_eq!(classify(&wildcard("abcdef*")), QueryCostClass::Regular);
}

#[test]
fn test_wildcard_query_with_short_prefix_is_costly() {
    assert_eq!(classify(&wildcard("ab*")), QueryCostClass::Costly);
}

#[test]
fn test_wildcard_query_escape_counts_as_literal() {
    // the ES `prefix` query escapes wildcards, so `a\dm` reaches us as
    // `a\\dm`: a 3 character literal prefix.
    assert_eq!(classify(&wildcard("a\\\\dm*")), QueryCostClass::Regular);
}

#[test]
fn test_costly_query_nested_in_bool_query_is_costly() {
    assert_eq!(classify(&must(vec![regex(".*xyz")])), QueryCostClass::Costly);
}

#[test]
fn test_regular_queries_nested_in_bool_query_are_regular() {
    let ast = must(vec![regex("^abcd.*"), wildcard("abcdef*")]);
    assert_eq!(classify(&ast), QueryCostClass::Regular);
}

// The following tests exercise the boundary logic of the prefix scanner
// directly, with arbitrary thresholds, since `classify` itself always
// uses the fixed `MIN_LITERAL_PREFIX_LEN` constant.

#[test]
fn test_has_min_literal_prefix_threshold() {
    assert!(has_min_literal_prefix("ab.*xyz", 2, PatternFlavor::Regex));
    assert!(!has_min_literal_prefix("ab.*xyz", 3, PatternFlavor::Regex));
}

#[test]
fn test_has_min_literal_prefix_stops_early() {
    // the scan must stop as soon as it reaches `min_len`, well before the
    // end of a long literal prefix.
    let long_prefix = "a".repeat(10_000);
    assert!(has_min_literal_prefix(
        &format!("{long_prefix}.*"),
        3,
        PatternFlavor::Regex
    ));
    assert!(has_min_literal_prefix(
        &format!("{long_prefix}*"),
        3,
        PatternFlavor::Wildcard
    ));
}

#[test]
fn test_has_min_literal_prefix_zero_is_always_true() {
    assert!(has_min_literal_prefix(".*xyz", 0, PatternFlavor::Regex));
    assert!(has_min_literal_prefix("*xyz", 0, PatternFlavor::Wildcard));
}

#[test]
fn test_has_min_literal_prefix_dangling_escape() {
    assert!(!has_min_literal_prefix("ab\\", 3, PatternFlavor::Regex));
    assert!(!has_min_literal_prefix("ab\\", 3, PatternFlavor::Wildcard));
}

#[test]
fn test_costly_query_is_found_at_any_depth() {
    for nested in [
        QueryAst::Bool {
            must: Vec::new(),
            must_not: vec![regex(".*")],
            should: Vec::new(),
            filter: Vec::new(),
        },
        QueryAst::Bool {
            must: Vec::new(),
            must_not: Vec::new(),
            should: vec![wildcard("?")],
            filter: Vec::new(),
        },
        QueryAst::Bool {
            must: Vec::new(),
            must_not: Vec::new(),
            should: Vec::new(),
            filter: vec![regex("a|b")],
        },
    ] {
        let boosted = QueryAst::Boost { underlying: Box::new(must(vec![nested])) };
        assert_eq!(classify(&boosted), QueryCostClass::Costly);
    }
    assert_eq!(classify(&QueryAst::MatchNone), QueryCostClass::Regular);
    assert_eq!(classify(&QueryAst::Leaf), QueryCostClass::Regular);
}

#[test]
fn test_escaped_letters_of_any_script_are_no_literals() {
    // An escaped letter is a character class, in any script.
    assert!(!has_min_literal_prefix("ab\\é", 3, PatternFlavor::Regex));
    assert!(has_min_literal_prefix("ab\\-", 3, PatternFlavor::Regex));
    assert!(has_min_literal_prefix("ab\\é", 3, PatternFlavor::Wildcard));
}

#[test]
fn test_prefix_laws_on_concrete_patterns() {
    // A shorter prefix is enough where a longer one is.
    assert!(has_min_literal_prefix("abcd.*", 4, PatternFlavor::Regex));
    assert!(has_min_literal_prefix("abcd.*", 3, PatternFlavor::Regex));
    // The anchor does not count.
    assert!(has_min_literal_prefix("^abc", 3, PatternFlavor::Regex));
    assert!(!has_min_literal_prefix("^abc", 4, PatternFlavor::Regex));
    // A pattern without special characters counts in full.
    assert!(has_min_literal_prefix("hello", 5, PatternFlavor::Wildcard));
    assert!(!has_min_literal_prefix("hello", 6, PatternFlavor::Wildcard));
}

#[test]
fn test_cost_class_labels() {
    assert_eq!(QueryCostClass::Regular.as_label(), "regular");
    assert_eq!(QueryCostClass::Costly.as_label(), "costly");
}

#[test]
fn test_cost_class_on_the_wire() {
    for cost_class in [QueryCostClass::Regular, QueryCostClass::Costly] {
        let wire = WireQueryCostClass::from(cost_class);
        assert_eq!(QueryCostClass::from(wire), cost_class);
    }
    assert_eq!(WireQueryCostClass::from(QueryCostClass::Costly), WireQueryCostClass::Costly);
}

#[test]
fn test_appended_text_keeps_a_wildcard_prefix() {
    for suffix in ["", "*", "?", "d", "\\", "\\*"] {
        let pattern = format!("abc{suffix}");
        assert!(has_min_literal_prefix(&pattern, 3, PatternFlavor::Wildcard));
    }
    // In a regex, the last character can become optional.
    assert!(has_min_literal_prefix("abc", 3, PatternFlavor::Regex));
    assert!(!has_min_literal_prefix("abc*", 3, PatternFlavor::Regex));
}
