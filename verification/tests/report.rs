use ldraw::report::{sorted_names, text_less};

#[test]
fn texts_compare_by_their_characters() {
    assert!(text_less("3001.dat", "3002.dat"));
    assert!(!text_less("3002.dat", "3001.dat"));
    assert!(text_less("stud", "stud.dat"));
    assert!(!text_less("stud.dat", "stud"));
    assert!(!text_less("same", "same"));
    assert!(text_less("", "a"));
    assert!(text_less("B", "a"));
}

#[test]
fn names_are_sorted_and_listed_once() {
    let names: Vec<String> = ["s/3001s01.dat", "3001.dat", "stud.dat", "3001.dat", "4-4cyli.dat", "stud.dat"]
        .iter()
        .map(|s| s.to_string())
        .collect();
    assert_eq!(sorted_names(&names), vec!["3001.dat", "4-4cyli.dat", "s/3001s01.dat", "stud.dat"]);
    assert!(sorted_names(&Vec::new()).is_empty());
}

#[test]
fn sorting_names_agrees_with_the_standard_order() {
    let names: Vec<String> = ["b", "a", "ab", "A", "é", "z", "aa", "a"].iter().map(|s| s.to_string()).collect();
    let mut expected = names.clone();
    expected.sort();
    expected.dedup();
    assert_eq!(sorted_names(&names), expected);
}
