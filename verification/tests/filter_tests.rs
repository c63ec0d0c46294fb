use llm_gateway::filter::parse_llm_filter;

#[test]
fn splits_trims_folds_and_drops_empties() {
    assert_eq!(
        parse_llm_filter("gemini, OpenRouter ,,x"),
        vec!["gemini".to_string(), "openrouter".to_string(), "x".to_string()]
    );
}

#[test]
fn an_empty_input_yields_no_entries() {
    assert_eq!(parse_llm_filter(""), Vec::<String>::new());
}

#[test]
fn whitespace_and_separators_alone_yield_no_entries() {
    assert_eq!(parse_llm_filter(" , ,\t,"), Vec::<String>::new());
}

#[test]
fn folding_is_ascii_only() {
    assert_eq!(parse_llm_filter("GEMINI"), vec!["gemini".to_string()]);
    // Non-ASCII characters pass through unchanged.
    assert_eq!(parse_llm_filter("Café"), vec!["café".to_string()]);
}

#[test]
fn tabs_newlines_and_carriage_returns_are_trimmed() {
    assert_eq!(
        parse_llm_filter("\t gemini \n,\r openrouter \t"),
        vec!["gemini".to_string(), "openrouter".to_string()]
    );
}

#[test]
fn inner_whitespace_is_kept() {
    assert_eq!(
        parse_llm_filter("a vendor, b"),
        vec!["a vendor".to_string(), "b".to_string()]
    );
}
