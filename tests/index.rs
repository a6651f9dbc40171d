use inverted_index::InvertedIndex;

const START: &str = "\u{1b}[35m";
const END: &str = "\u{1b}[0m";

fn mark(s: &str) -> String {
    format!("{}{}{}", START, s, END)
}

#[test]
fn query_is_case_insensitive() {
    let mut index = InvertedIndex::new();
    index.add(1, "Rust is safe");
    let upper = index.query("RUST");
    let lower = index.query("rust");
    assert_eq!(upper, lower);
    assert_eq!(upper, vec![format!("{} is safe", mark("Rust"))]);
}

#[test]
fn query_of_unknown_term_is_empty() {
    let mut index = InvertedIndex::new();
    assert!(index.query("rust").is_empty());
    index.add(1, "Rust is safe");
    assert!(index.query("python").is_empty());
}

#[test]
fn query_of_several_words_misses() {
    let mut index = InvertedIndex::new();
    index.add(1, "Rust is safe");
    assert!(index.query("rust is").is_empty());
}

#[test]
fn postings_keep_insertion_order() {
    let mut index = InvertedIndex::new();
    index.add(2, "two shared");
    index.add(1, "one shared");
    index.add(3, "three shared");
    assert_eq!(
        index.query("shared"),
        vec![
            format!("two {}", mark("shared")),
            format!("one {}", mark("shared")),
            format!("three {}", mark("shared")),
        ]
    );
}

#[test]
fn query_twice_gives_the_same_result() {
    let mut index = InvertedIndex::new();
    index.add(1, "Rust is safe and fast.");
    index.add(2, "Rust is a systems programming language.");
    let first = index.query("rust");
    let second = index.query("rust");
    assert_eq!(first, second);
    assert_eq!(first.len(), 2);
}

#[test]
fn repeated_term_in_one_document_is_listed_each_time() {
    let mut index = InvertedIndex::new();
    index.add(7, "rust and Rust");
    let marked = format!("{} and {}", mark("rust"), mark("Rust"));
    assert_eq!(index.query("rust"), vec![marked.clone(), marked]);
}

#[test]
fn re_adding_an_id_replaces_its_text_and_keeps_old_postings() {
    let mut index = InvertedIndex::new();
    index.add(1, "old words");
    index.add(1, "new text");
    assert_eq!(index.query("old"), vec!["new text".to_string()]);
    assert_eq!(index.query("new"), vec![format!("{} text", mark("new"))]);
}

#[test]
fn end_to_end_scenario() {
    let mut index = InvertedIndex::new();
    index.add(1, "Rust is safe and fast.");
    index.add(2, "Rust is a systems programming language.");
    index.add(3, "Programming in Rust is fun.");
    assert_eq!(
        index.query("Rust"),
        vec![
            format!("{} is safe and fast.", mark("Rust")),
            format!("{} is a systems programming language.", mark("Rust")),
            format!("Programming in {} is fun.", mark("Rust")),
        ]
    );
    assert_eq!(
        index.query("Programming"),
        vec![
            format!("Rust is a systems {} language.", mark("programming")),
            format!("{} in Rust is fun.", mark("Programming")),
        ]
    );
}
