use std::collections::HashSet;

use vshell::trie::Trie;
use vshell::utils::vec_str_to_vec_string;

fn create_abc_tree() -> Trie {
    let mut tree = Trie::new();
    tree.add("abc");
    tree
}

fn create_complex_tree() -> Trie {
    let mut tree = Trie::new();
    tree.add("abc");
    tree.add("abd");
    tree.add("aef");
    tree.add("hjk");
    tree.add("hjl");
    tree
}

fn tree_of(words: &[&str]) -> Trie {
    let mut tree = Trie::new();
    for w in words {
        tree.add(w);
    }
    tree
}

fn as_set(words: Vec<String>) -> HashSet<String> {
    words.into_iter().collect()
}

#[test]
fn test_trie_from() {
    assert_eq!(Trie::from("abc"), create_abc_tree());
}

#[test]
fn test_trie_add() {
    let mut tree = Trie::from("abc");
    tree.add("abd");
    tree.add("aef");
    tree.add("hjk");
    tree.add("hjl");
    assert_eq!(tree, create_complex_tree());
}

#[test]
fn test_trie_extract() {
    let tree = create_complex_tree();
    assert_eq!(
        tree.extract("").map(as_set),
        Some(as_set(vec_str_to_vec_string(&[
            "aef", "abd", "abc", "hjk", "hjl"
        ])))
    );
    assert_eq!(
        tree.extract("ab").map(as_set),
        Some(as_set(vec_str_to_vec_string(&["abd", "abc"])))
    );
    assert_eq!(
        tree.extract("abc").map(as_set),
        Some(as_set(vec_str_to_vec_string(&["abc"])))
    );
    assert_eq!(tree.extract("abcd"), None);
    assert_eq!(tree.extract("abe"), None);
    assert_eq!(tree.extract("pqr"), None);
}

#[test]
fn test_trie_delete() {
    let mut tree = create_complex_tree();
    tree.delete("abcd");
    assert_eq!(tree, tree_of(&["abc", "abd", "aef", "hjk", "hjl"]));
    tree.delete("abd");
    assert_eq!(tree, tree_of(&["abc", "aef", "hjk", "hjl"]));
    tree.delete("abc");
    assert_eq!(tree, tree_of(&["aef", "hjk", "hjl"]));
    tree.delete("aef");
    assert_eq!(tree, tree_of(&["hjk", "hjl"]));
}

#[test]
fn trie_empty_extract_is_none() {
    let tree = Trie::new();
    assert_eq!(tree.extract(""), None);
}

#[test]
fn trie_adding_a_word_twice_changes_nothing() {
    let mut once = Trie::new();
    once.add("abc");
    let mut twice = Trie::new();
    twice.add("abc");
    twice.add("abc");
    assert_eq!(once, twice);
}

#[test]
fn trie_delete_only_word_empties_the_trie() {
    let mut tree = Trie::from("abc");
    tree.delete("abc");
    assert_eq!(tree, Trie::new());
}
