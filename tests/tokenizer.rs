use inverted_index::tokenize;

#[test]
fn tokenize_test() {
    assert_eq!(
        tokenize("This is\nhedon's tokenize function."),
        vec!["This", "is", "hedon", "s", "tokenize", "function"]
    )
}

#[test]
fn tokenize_empty_input_gives_no_tokens() {
    assert!(tokenize("").is_empty());
}

#[test]
fn tokenize_without_alphanumerics_gives_no_tokens() {
    assert!(tokenize("  ,.;!? \n\t--").is_empty());
}

#[test]
fn tokenize_drops_leading_trailing_and_repeated_separators() {
    assert_eq!(tokenize("..a,,b  c.."), vec!["a", "b", "c"]);
}

#[test]
fn tokenize_keeps_digits_and_unicode_letters() {
    assert_eq!(tokenize("año 2024:über-x9"), vec!["año", "2024", "über", "x9"]);
}

#[test]
fn tokenize_tokens_are_alphanumeric_and_rebuild_the_runs() {
    let text = "Rust's 2nd edition -- fast, safe & fun!";
    let toks = tokenize(text);
    for t in &toks {
        assert!(!t.is_empty());
        assert!(t.chars().all(|c| c.is_alphanumeric()));
    }
    let joined: String = toks.concat();
    let kept: String = text.chars().filter(|c| c.is_alphanumeric()).collect();
    assert_eq!(joined, kept);
}
