use sloth::environment::Environment;
use sloth::names::{clone_names, contains_name, insert_sorted, is_before};

fn name(text: &str) -> String {
    text.to_string()
}

#[test]
fn names_are_ordered_as_in_a_dictionary() {
    assert!(is_before(&name("a"), &name("b")));
    assert!(!is_before(&name("b"), &name("a")));
    assert!(is_before(&name("a"), &name("ab")));
    assert!(!is_before(&name("ab"), &name("a")));
    assert!(is_before(&name(""), &name("a")));
    assert!(!is_before(&name("a"), &name("a")));
    assert!(is_before(&name("Z"), &name("a")));
    assert!(is_before(&name("x1"), &name("x2")));
}

#[test]
fn names_are_ordered_by_their_bytes() {
    assert!(is_before(&name("z"), &name("é")));
    assert!(is_before(&name("é"), &name("日")));
    assert_eq!(is_before(&name("é"), &name("日")), name("é") < name("日"));
}

#[test]
fn sorted_insertion_keeps_the_order() {
    let mut names = vec![];

    for text in ["m", "a", "z", "b", "y"] {
        insert_sorted(&mut names, name(text));
    }

    assert_eq!(names, vec!["a", "b", "m", "y", "z"]);
}

#[test]
fn sorted_insertion_keeps_one_of_each() {
    let mut names = vec![name("a"), name("c")];

    insert_sorted(&mut names, name("c"));
    insert_sorted(&mut names, name("a"));
    insert_sorted(&mut names, name("b"));

    assert_eq!(names, vec!["a", "b", "c"]);
}

#[test]
fn names_are_found_in_lists() {
    let names = vec![name("x"), name("y")];

    assert!(contains_name(&names, &name("y")));
    assert!(!contains_name(&names, &name("z")));
    assert_eq!(clone_names(&names), names);
}

#[test]
fn later_bindings_hide_earlier_ones() {
    let mut environment = Environment::new();

    environment.insert(name("x"), 1);
    environment.insert(name("y"), 2);
    environment.insert(name("x"), 3);

    assert_eq!(environment.len(), 3);
    assert_eq!(environment.get(&name("x")), Some(&3));
    assert_eq!(environment.get(&name("y")), Some(&2));
    assert_eq!(environment.get(&name("z")), None);
}

#[test]
fn truncation_leaves_a_scope() {
    let mut environment = Environment::new();

    environment.insert(name("x"), 1);
    let length = environment.len();
    environment.insert(name("x"), 2);
    environment.insert(name("y"), 3);
    environment.truncate(length);

    assert_eq!(environment.get(&name("x")), Some(&1));
    assert_eq!(environment.get(&name("y")), None);
}
