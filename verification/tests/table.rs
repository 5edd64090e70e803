use markov_names::{initial_context, slide, TransitionTable};

#[test]
fn new_table_is_empty() {
    let table = TransitionTable::new();
    assert!(table.is_empty());
    assert_eq!(table.len(), 0);
    assert_eq!(table.followers("^^"), None);
}

#[test]
fn record_keeps_order_and_repeats() {
    let mut table = TransitionTable::new();
    table.record(String::from("an"), 'n');
    table.record(String::from("nn"), 'a');
    table.record(String::from("an"), 'd');
    table.record(String::from("an"), 'n');
    assert!(!table.is_empty());
    assert_eq!(table.len(), 2);
    assert_eq!(table.followers("an"), Some(&vec!['n', 'd', 'n']));
    assert_eq!(table.followers("nn"), Some(&vec!['a']));
    assert_eq!(table.followers("na"), None);
}

#[test]
fn insert_takes_the_place_of_what_was_there() {
    let mut table = TransitionTable::new();
    table.record(String::from("a"), 'b');
    table.insert(String::from("a"), vec!['x', 'y']);
    table.insert(String::from("b"), Vec::new());
    assert_eq!(table.len(), 2);
    assert_eq!(table.followers("a"), Some(&vec!['x', 'y']));
    assert_eq!(table.followers("b"), Some(&Vec::new()));
    table.record(String::from("b"), 'c');
    assert_eq!(table.followers("b"), Some(&vec!['c']));
    assert_eq!(table.followers("a"), Some(&vec!['x', 'y']));
}

#[test]
fn empty_context_is_a_context() {
    let mut table = TransitionTable::new();
    table.record(String::new(), 'a');
    table.record(String::new(), 'b');
    assert_eq!(table.len(), 1);
    assert_eq!(table.followers(""), Some(&vec!['a', 'b']));
}

#[test]
fn initial_context_is_padding() {
    assert_eq!(initial_context(0), "");
    assert_eq!(initial_context(1), "^");
    assert_eq!(initial_context(3), "^^^");
}

#[test]
fn slide_drops_first_and_appends() {
    assert_eq!(slide("^^", 'a'), "^a");
    assert_eq!(slide("^a", 'n'), "an");
    assert_eq!(slide("a", 'b'), "b");
    assert_eq!(slide("éa", 'ñ'), "añ");
}

#[test]
fn slide_keeps_the_empty_context_empty() {
    assert_eq!(slide("", 'a'), "");
}
