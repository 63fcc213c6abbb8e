use wordle_solver::{Dictionary, SolverError, Word};

#[test]
fn construct_and_render_round_trip() {
    for text in ["crane", "slate", "leapt", "aaaaa", "zzzzz", "abcde"] {
        let w = Word::new(text).unwrap();
        assert_eq!(w.to_string(), text);
    }
}

#[test]
fn construction_rejects_wrong_lengths() {
    for text in ["", "a", "cran", "cranes", "abcdefghij"] {
        match Word::new(text) {
            Err(e) => assert_eq!(e, SolverError::InvalidLength),
            Ok(_) => panic!("a word of length {} was accepted", text.len()),
        }
    }
}

#[test]
fn empty_dictionary() {
    let d = Dictionary::new();
    assert_eq!(d.len(), 0);
    assert!(d.is_empty());
    assert_eq!(d.get(0), None);
    assert!(!d.contains("crane"));
    assert_eq!(d.debug(), "");
}

#[test]
fn add_and_query() {
    let mut d = Dictionary::new();
    d.add("crane").unwrap();
    d.add("slate").unwrap();
    assert_eq!(d.len(), 2);
    assert!(!d.is_empty());
    assert_eq!(d.get(0).as_deref(), Some("crane"));
    assert_eq!(d.get(1).as_deref(), Some("slate"));
    assert_eq!(d.get(2), None);
}

#[test]
fn add_rejects_wrong_length_and_keeps_list() {
    let mut d = Dictionary::new();
    d.add("crane").unwrap();
    assert_eq!(d.add("cran"), Err(SolverError::InvalidLength));
    assert_eq!(d.add("cranes"), Err(SolverError::InvalidLength));
    assert_eq!(d.len(), 1);
    assert_eq!(d.get(0).as_deref(), Some("crane"));
}

#[test]
fn duplicates_are_kept_in_order() {
    let mut d = Dictionary::new();
    d.add("crane").unwrap();
    d.add("crane").unwrap();
    assert_eq!(d.len(), 2);
    assert_eq!(d.get(0).as_deref(), Some("crane"));
    assert_eq!(d.get(1).as_deref(), Some("crane"));
}

#[test]
fn contains_is_exact_match_only() {
    let mut d = Dictionary::new();
    d.add("crane").unwrap();
    d.add("slate").unwrap();
    assert!(d.contains("crane"));
    assert!(d.contains("slate"));
    assert!(!d.contains("crate"));
    assert!(!d.contains("cran"));
    assert!(!d.contains("cranes"));
    assert!(!d.contains(""));
}

#[test]
fn debug_lists_one_word_per_line() {
    let mut d = Dictionary::new();
    d.add("crane").unwrap();
    d.add("slate").unwrap();
    assert_eq!(d.debug(), "crane\nslate\n");
}
