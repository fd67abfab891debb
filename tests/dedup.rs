use combosutils::{
    Comparer, DuplicatesExtractor, DuplicatesRemoverC, DuplicatesRemoverM, DuplicatesRemoverMem,
    DuplicatesRemoverSlow, FingerprintCounter,
};

fn corpus(items: &[&str]) -> Vec<String> {
    items.iter().map(|s| s.to_string()).collect()
}

#[test]
fn order_preserving_removal_keeps_first_occurrences() {
    let input = corpus(&["a", "b", "a", "c", "b"]);
    assert_eq!(
        DuplicatesRemoverSlow::remove_duplicates(&input),
        corpus(&["a", "b", "c"])
    );
}

#[test]
fn order_preserving_removal_streamed_in_two_passes() {
    let input = corpus(&["a", "b", "a", "c", "b"]);
    let mut d = DuplicatesRemoverSlow::new();
    for l in &input {
        d.record_line(l);
    }
    let out: Vec<&String> = input.iter().filter(|l| d.take_line(l)).collect();
    assert_eq!(out, vec!["a", "b", "c"]);
}

#[test]
fn order_preserving_removal_of_empty_corpus() {
    assert!(DuplicatesRemoverSlow::remove_duplicates(&Vec::new()).is_empty());
}

#[test]
fn extraction_yields_one_record_per_repeated_line() {
    let input = corpus(&["a", "b", "a", "a"]);
    assert_eq!(DuplicatesExtractor::extract_duplicates(&input), corpus(&["a"]));
}

#[test]
fn extraction_keeps_first_position_order() {
    let input = corpus(&["q", "p", "p", "q", "r"]);
    assert_eq!(
        DuplicatesExtractor::extract_duplicates(&input),
        corpus(&["q", "p"])
    );
}

#[test]
fn extraction_without_duplicates_is_empty() {
    let input = corpus(&["a", "b", "c"]);
    assert!(DuplicatesExtractor::extract_duplicates(&input).is_empty());
}

#[test]
fn extractor_counts_three_states() {
    let mut d = DuplicatesExtractor::new();
    d.record(7);
    d.record(9);
    d.record(7);
    assert!(!d.take(9));
    assert!(d.take(7));
    assert!(!d.take(7));
    assert!(!d.take(11));
}

#[test]
fn comparison_is_independent_of_reference_order() {
    let main = corpus(&["x", "y", "z"]);
    let file1 = corpus(&["y"]);
    let file2 = corpus(&["z"]);
    let one = Comparer::compare(&main, &vec![file1.clone(), file2.clone()]);
    let two = Comparer::compare(&main, &vec![file2, file1]);
    assert_eq!(one, corpus(&["x"]));
    assert_eq!(two, corpus(&["x"]));
}

#[test]
fn comparison_caps_internal_duplicates() {
    let main = corpus(&["x", "x", "y"]);
    let reference = corpus(&["y"]);
    assert_eq!(Comparer::compare(&main, &vec![reference]), corpus(&["x"]));
}

#[test]
fn comparison_streamed_with_barrier() {
    let main = corpus(&["k", "m", "k", "n"]);
    let mut c = Comparer::new();
    for l in &main {
        c.record_line(l);
    }
    c.subtract_lines(&corpus(&["n", "zz"]));
    c.subtract_lines(&corpus(&[]));
    let out: Vec<&String> = main.iter().filter(|l| c.take_line(l)).collect();
    assert_eq!(out, vec!["k", "m"]);
}

#[test]
fn comparison_without_references_deduplicates() {
    let main = corpus(&["x", "x", "y"]);
    assert_eq!(Comparer::compare(&main, &Vec::new()), corpus(&["x", "y"]));
}

#[test]
fn memory_set_round_trip_with_duplicates() {
    let input = corpus(&["b", "a", "b", "c"]);
    let mut out = DuplicatesRemoverMem::remove_duplicates(&input);
    assert_eq!(out.len(), 3);
    assert!(out.iter().all(|l| input.contains(l)));
    out.sort();
    assert_eq!(out, corpus(&["a", "b", "c"]));
}

#[test]
fn memory_set_round_trip_without_duplicates() {
    let input = corpus(&["u", "v", "w"]);
    let out = DuplicatesRemoverM::remove_duplicates(&input);
    assert_eq!(out.len(), input.len());
    assert!(out.iter().all(|l| input.contains(l)));
}

#[test]
fn sorted_strategy_sorts_and_cuts_runs() {
    let input = corpus(&["pear", "apple", "pear", "fig", "apple"]);
    assert_eq!(
        DuplicatesRemoverC::remove_duplicates(input),
        corpus(&["apple", "fig", "pear"])
    );
}

#[test]
fn counter_consumes_seen_and_repeated_differently() {
    let mut c = FingerprintCounter::count_all(&vec![4, 5, 4]);
    assert!(!c.take_repeated(5));
    assert!(c.take_seen(5));
    assert!(!c.take_seen(5));
    assert!(c.take_repeated(4));
    assert!(!c.take_seen(4));
}
