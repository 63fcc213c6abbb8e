use wordle_solver::{Dictionary, Filter, SolverError};

fn dictionary_of(words: &[&str]) -> Dictionary {
    let mut d = Dictionary::new();
    for w in words {
        d.add(w).unwrap();
    }
    d
}

fn surviving(d: &Dictionary) -> Vec<String> {
    let mut out = Vec::new();
    let mut i = 0;
    while let Some(w) = d.get(i) {
        out.push(w);
        i += 1;
    }
    out
}

#[test]
fn incomplete_filter_is_rejected() {
    let d = dictionary_of(&["crane"]);
    let f = Filter::new();
    assert!(matches!(d.filter(&f), Err(SolverError::IncompleteFilter)));

    let mut g = Filter::new();
    g.mark_correct('c');
    g.mark_correct('r');
    g.mark_correct('a');
    g.mark_correct('n');
    assert!(matches!(d.filter(&g), Err(SolverError::IncompleteFilter)));
}

#[test]
fn guess_least_against_leapt() {
    // Guessing "least" when the hidden answer is "leapt": l, e, a and t
    // are correct in place, s is absent.
    let d = dictionary_of(&["crane", "slate", "least", "leapt"]);
    let mut f = Filter::new();
    f.mark_correct('l');
    f.mark_correct('e');
    f.mark_correct('a');
    f.mark_incorrect('s');
    f.mark_correct('t');
    let kept = d.filter(&f).unwrap();
    assert_eq!(surviving(&kept), ["leapt"]);
    // The source dictionary is untouched.
    assert_eq!(d.len(), 4);
    assert!(d.contains("crane"));
}

#[test]
fn repeated_letter_guess_caps_the_count() {
    // Guessing "aaaaa" when the answer holds exactly one a, at the first
    // position: one correct verdict, four incorrect ones.  The bound for a
    // becomes exactly one, so candidates with zero or two a's drop out.
    let d = dictionary_of(&["abcde", "edcba", "fghij", "aacde"]);
    let mut f = Filter::new();
    f.mark_correct('a');
    f.mark_incorrect('a');
    f.mark_incorrect('a');
    f.mark_incorrect('a');
    f.mark_incorrect('a');
    let kept = d.filter(&f).unwrap();
    assert_eq!(surviving(&kept), ["abcde"]);
}

#[test]
fn duplicate_letter_keeps_letter_with_true_count() {
    // A letter guessed more often than it occurs is capped, not removed:
    // x correct at the first position and incorrect at the last keeps
    // exactly-one-x candidates, not zero-x ones.
    let d = dictionary_of(&["xeeee", "eeeee", "xeexe"]);
    let mut f = Filter::new();
    f.mark_correct('x');
    f.mark_incorrect('b');
    f.mark_incorrect('c');
    f.mark_incorrect('d');
    f.mark_incorrect('x');
    let kept = d.filter(&f).unwrap();
    assert_eq!(surviving(&kept), ["xeeee"]);
}

#[test]
fn duplicate_letter_guess_sassy_style() {
    // Guessing "sassy" against an answer shaped like "bassi": the first s
    // is incorrect (both answer s's are matched later), a and the middle
    // s's are correct, y is absent.  The s bound freezes, then rises to
    // exactly two.
    let d = dictionary_of(&["bassi", "sassi", "basin"]);
    let mut f = Filter::new();
    f.mark_incorrect('s');
    f.mark_correct('a');
    f.mark_correct('s');
    f.mark_correct('s');
    f.mark_incorrect('y');
    let kept = d.filter(&f).unwrap();
    assert_eq!(surviving(&kept), ["bassi"]);
}

#[test]
fn misplaced_letter_must_move_but_stay() {
    // a is in the answer but not first; b, c, d and f are absent.
    let d = dictionary_of(&["eagle", "abcde", "eeeee"]);
    let mut f = Filter::new();
    f.mark_misplaced('a');
    f.mark_incorrect('b');
    f.mark_incorrect('c');
    f.mark_incorrect('d');
    f.mark_incorrect('f');
    let kept = d.filter(&f).unwrap();
    assert_eq!(surviving(&kept), ["eagle"]);
}

#[test]
fn two_misplaced_verdicts_demand_two_occurrences() {
    // a misplaced at the first two positions: at least two a's, neither in
    // front.
    let d = dictionary_of(&["eeaaf", "efagh", "aaeef", "ggaag"]);
    let mut f = Filter::new();
    f.mark_misplaced('a');
    f.mark_misplaced('a');
    f.mark_incorrect('b');
    f.mark_incorrect('c');
    f.mark_incorrect('d');
    let kept = d.filter(&f).unwrap();
    assert_eq!(surviving(&kept), ["eeaaf", "ggaag"]);
}

#[test]
fn filtering_never_enlarges_and_preserves_order() {
    let d = dictionary_of(&["leapt", "crane", "leaqt", "leamt"]);
    let mut f = Filter::new();
    f.mark_correct('l');
    f.mark_correct('e');
    f.mark_correct('a');
    f.mark_incorrect('s');
    f.mark_correct('t');
    let kept = d.filter(&f).unwrap();
    assert!(kept.len() <= d.len());
    assert_eq!(surviving(&kept), ["leapt", "leaqt", "leamt"]);
}

#[test]
fn filtering_twice_with_the_same_filter_changes_nothing() {
    let d = dictionary_of(&["crane", "slate", "least", "leapt", "leaqt"]);
    let mut f = Filter::new();
    f.mark_correct('l');
    f.mark_correct('e');
    f.mark_correct('a');
    f.mark_incorrect('s');
    f.mark_correct('t');
    let once = d.filter(&f).unwrap();
    let twice = once.filter(&f).unwrap();
    assert_eq!(surviving(&once), surviving(&twice));
}

#[test]
fn filtering_an_empty_dictionary() {
    let d = Dictionary::new();
    let mut f = Filter::new();
    f.mark_correct('a');
    f.mark_correct('b');
    f.mark_correct('c');
    f.mark_correct('d');
    f.mark_correct('e');
    let kept = d.filter(&f).unwrap();
    assert!(kept.is_empty());
}

#[test]
fn contains_is_independent_of_filtering() {
    let d = dictionary_of(&["crane", "slate"]);
    let mut f = Filter::new();
    f.mark_correct('s');
    f.mark_correct('l');
    f.mark_correct('a');
    f.mark_correct('t');
    f.mark_correct('e');
    let kept = d.filter(&f).unwrap();
    assert!(d.contains("crane"));
    assert!(d.contains("slate"));
    assert!(!kept.contains("crane"));
    assert!(kept.contains("slate"));
}
