use std::collections::HashSet;

use lsp_word::engine::complete;
use lsp_word::store::DocumentStore;
use lsp_word::tokenizer::tokenize;

fn label_set(store: &DocumentStore, uri: &String) -> HashSet<String> {
    complete(uri, store).into_iter().map(|c| c.label).collect()
}

#[test]
fn test_load_all_words_basic() {
    let uri = "file:///test".to_string();
    let mut docs = DocumentStore::new();
    docs.upsert(uri.clone(), "fn main() { let test = 1; }".to_string());

    let words = label_set(&docs, &uri);
    let expected_words: HashSet<String> = ["fn", "main", "let", "test"]
        .iter()
        .cloned()
        .map(String::from)
        .collect();

    assert_eq!(words, expected_words);
}

#[test]
fn test_load_all_words_empty() {
    let uri = "file:///test".to_string();
    let mut docs = DocumentStore::new();
    docs.upsert(uri.clone(), "".to_string());

    let words = label_set(&docs, &uri);
    assert!(words.is_empty());
}

#[test]
fn test_load_all_words_special_chars() {
    let uri = "file:///test".to_string();
    let mut docs = DocumentStore::new();
    docs.upsert(uri.clone(), "let x1 = 42; // @#$%".to_string());

    let words = label_set(&docs, &uri);
    let expected_words: HashSet<String> =
        ["let", "x1"].iter().cloned().map(String::from).collect();

    assert_eq!(words, expected_words);
}

fn token_set(text: &str) -> HashSet<String> {
    tokenize(text).into_iter().collect()
}

#[test]
fn tokenize_is_idempotent_on_its_output() {
    let first = tokenize("fn main() { let test = 1; } // Foo foo_bar9");
    let rejoined = first.join(" ");
    let second = token_set(&rejoined);
    let expected: HashSet<String> = first.into_iter().collect();
    assert_eq!(second, expected);
}

#[test]
fn tokens_are_word_shaped() {
    let tokens = tokenize("9lives x _y a1!b2? beta_9 'quoted' \u{e9}t\u{e9}");
    for t in &tokens {
        assert!(t.len() >= 2);
        let first = t.chars().next().unwrap();
        assert!(first.is_ascii_alphabetic() || first == '_');
        assert!(t.chars().all(|c| c.is_ascii_alphanumeric() || c == '_'));
    }
    let expected: HashSet<String> = ["lives", "_y", "a1", "b2", "beta_9", "quoted"]
        .iter()
        .cloned()
        .map(String::from)
        .collect();
    assert_eq!(tokens.into_iter().collect::<HashSet<String>>(), expected);
}

#[test]
fn empty_and_punctuation_yield_no_tokens() {
    assert!(tokenize("").is_empty());
    assert!(tokenize(" \t\r\n .,;:!?(){}[]<>=+-*/&|^%#@~\"'`").is_empty());
    assert!(tokenize("12 345 9").is_empty());
}

#[test]
fn tokens_are_case_sensitive() {
    let expected: HashSet<String> =
        ["Foo", "foo"].iter().cloned().map(String::from).collect();
    assert_eq!(token_set("Foo foo"), expected);
}

#[test]
fn single_characters_are_not_tokens() {
    assert!(tokenize("a b c _ x;y").is_empty());
    assert_eq!(token_set("a ab"), ["ab".to_string()].into_iter().collect());
}

#[test]
fn digit_led_runs_start_at_first_letter() {
    assert_eq!(token_set("9ab"), ["ab".to_string()].into_iter().collect());
    assert_eq!(token_set("x9ab"), ["x9ab".to_string()].into_iter().collect());
    assert_eq!(token_set("9_x"), ["_x".to_string()].into_iter().collect());
}

#[test]
fn repeated_tokens_come_out_once() {
    let tokens = tokenize("beta alpha beta gamma alpha");
    assert_eq!(tokens.len(), 3);
    let expected: HashSet<String> =
        ["beta", "alpha", "gamma"].iter().cloned().map(String::from).collect();
    assert_eq!(tokens.into_iter().collect::<HashSet<String>>(), expected);
}
