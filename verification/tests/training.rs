use markov_names::{build_chain, TransitionTable};

#[test]
fn build_chain_records_every_window() {
    let chain = build_chain(&["anna"], 2);
    assert_eq!(chain.len(), 4);
    assert_eq!(chain.followers("^^"), Some(&vec!['a']));
    assert_eq!(chain.followers("^a"), Some(&vec!['n']));
    assert_eq!(chain.followers("an"), Some(&vec!['n']));
    assert_eq!(chain.followers("nn"), Some(&vec!['a']));
    assert_eq!(chain.followers("na"), None);
}

#[test]
fn build_chain_keeps_repeats_in_scan_order() {
    let chain = build_chain(&["ab", "ac", "ab"], 1);
    assert_eq!(chain.len(), 2);
    assert_eq!(chain.followers("^"), Some(&vec!['a', 'a', 'a']));
    assert_eq!(chain.followers("a"), Some(&vec!['b', 'c', 'b']));
}

#[test]
fn build_chain_reads_names_in_lower_case() {
    let chain = build_chain(&["ANNA", "Élan"], 1);
    assert_eq!(chain.followers("^"), Some(&vec!['a', 'é']));
    assert_eq!(chain.followers("a"), Some(&vec!['n', 'n']));
    assert_eq!(chain.followers("n"), Some(&vec!['n', 'a']));
    assert_eq!(chain.followers("é"), Some(&vec!['l']));
    assert_eq!(chain.followers("A"), None);
    assert_eq!(chain.followers("É"), None);
}

#[test]
fn build_chain_from_nothing() {
    let chain = build_chain(&[], 2);
    assert!(chain.is_empty());
    assert_eq!(chain.len(), 0);
}

#[test]
fn build_chain_from_empty_names() {
    let chain = build_chain(&["", ""], 2);
    assert!(chain.is_empty());
}

#[test]
fn build_chain_name_shorter_than_order() {
    let chain = build_chain(&["ab"], 4);
    assert_eq!(chain.len(), 2);
    assert_eq!(chain.followers("^^^^"), Some(&vec!['a']));
    assert_eq!(chain.followers("^^^a"), Some(&vec!['b']));
}

#[test]
fn build_chain_order_above_every_name_has_one_entry_for_each_start() {
    let chain = build_chain(&["ab", "cd"], 8);
    assert_eq!(chain.len(), 3);
    assert_eq!(chain.followers("^^^^^^^^"), Some(&vec!['a', 'c']));
}

#[test]
fn build_chain_order_zero_has_one_context() {
    let chain = build_chain(&["ab", "c"], 0);
    assert_eq!(chain.len(), 1);
    assert_eq!(chain.followers(""), Some(&vec!['a', 'b', 'c']));
}

#[test]
fn build_chain_marker_in_a_name_is_a_character() {
    let chain = build_chain(&["a^b"], 1);
    assert_eq!(chain.followers("^"), Some(&vec!['a', 'b']));
    assert_eq!(chain.followers("a"), Some(&vec!['^']));
}

#[test]
fn build_chain_several_words() {
    let chain = build_chain(&["Ab Cd"], 2);
    assert_eq!(chain.followers("ab"), Some(&vec![' ']));
    assert_eq!(chain.followers("b "), Some(&vec!['c']));
    assert_eq!(chain.followers(" c"), Some(&vec!['d']));
}

#[test]
fn learn_keeps_the_case_and_what_was_there() {
    let mut table = TransitionTable::new();
    table.record(String::from("^"), 'x');
    table.learn("Ab", 1);
    assert_eq!(table.followers("^"), Some(&vec!['x', 'A']));
    assert_eq!(table.followers("A"), Some(&vec!['b']));
    assert_eq!(table.len(), 2);
}

#[test]
fn build_chain_twice_gives_the_same_table() {
    let names = ["Anna", "Hanna", "Johanna", "Ann Marie"];
    let first = build_chain(&names, 2);
    let second = build_chain(&names, 2);
    assert_eq!(first.len(), second.len());
    for name in names {
        let mut padded: Vec<char> = vec!['^', '^'];
        padded.extend(name.to_lowercase().chars());
        for window in padded.windows(2) {
            let context: String = window.iter().collect();
            assert_eq!(first.followers(&context), second.followers(&context));
        }
    }
}
