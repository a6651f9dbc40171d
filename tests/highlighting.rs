use inverted_index::{highlight, highlight_marked, mark_matches};

#[test]
fn highlight_test() {
    assert_eq!(
        highlight("programming", "I like programming with Rust Programming"),
        "I like \u{1b}[35mprogramming\u{1b}[0m with Rust \u{1b}[35mProgramming\u{1b}[0m"
    );
}

#[test]
fn highlight_marks_every_occurrence_keeping_case() {
    assert_eq!(
        highlight_marked("rust", "Rust, rust and RUST; trust", "<", ">"),
        "<Rust>, <rust> and <RUST>; t<rust>"
    );
}

#[test]
fn highlight_without_match_leaves_text_alone() {
    assert_eq!(highlight_marked("go", "Rust is fun", "<", ">"), "Rust is fun");
}

#[test]
fn highlight_treats_meta_characters_literally() {
    assert_eq!(highlight_marked("a.c", "abc a.c A.C", "[", "]"), "abc [a.c] [A.C]");
    assert_eq!(highlight_marked("c++", "C++ and c", "[", "]"), "[C++] and c");
}

#[test]
fn highlight_with_empty_markers_gives_back_the_text() {
    let text = "Programming in Rust is fun.";
    assert_eq!(highlight_marked("rust", text, "", ""), text);
}

#[test]
fn mark_matches_interleaves_pieces_and_matches() {
    let gaps = vec!["I like ".to_string(), " with ".to_string(), String::new()];
    let found = vec!["Rust".to_string(), "rust".to_string()];
    assert_eq!(mark_matches(&gaps, &found, "<", ">"), "I like <Rust> with <rust>");
}

#[test]
fn mark_matches_without_matches_is_the_single_piece() {
    let gaps = vec!["nothing here".to_string()];
    assert_eq!(mark_matches(&gaps, &Vec::new(), "<", ">"), "nothing here");
}
