use rush::completion::{compare, completion_words, insert_name, sorted_names, Order};

fn strings(words: &[&str]) -> Vec<String> {
    words.iter().map(|w| w.to_string()).collect()
}

const NAMES: [&str; 12] =
    ["ls", "cat", "", "ls", "lsblk", "l", "Zed", "zed", "caf\u{e9}", "cafe", "\u{1f600}", "cat"];

#[test]
fn compare_orders_texts_as_strings_are_ordered() {
    assert_eq!(compare("a", "b"), Order::Before);
    assert_eq!(compare("b", "a"), Order::After);
    assert_eq!(compare("ls", "ls"), Order::Same);
    assert_eq!(compare("ls", "lsblk"), Order::Before);
    assert_eq!(compare("", ""), Order::Same);
    assert_eq!(compare("", "a"), Order::Before);
    for a in NAMES {
        for b in NAMES {
            let expected = if a < b {
                Order::Before
            } else if a == b {
                Order::Same
            } else {
                Order::After
            };
            assert_eq!(compare(a, b), expected, "{:?} {:?}", a, b);
        }
    }
}

#[test]
fn insert_name_keeps_the_order() {
    let mut names = strings(&["cat", "ls", "zed"]);
    insert_name(&mut names, "make".to_string());
    assert_eq!(names, strings(&["cat", "ls", "make", "zed"]));
    insert_name(&mut names, "awk".to_string());
    assert_eq!(names, strings(&["awk", "cat", "ls", "make", "zed"]));
    insert_name(&mut names, "zsh".to_string());
    assert_eq!(names, strings(&["awk", "cat", "ls", "make", "zed", "zsh"]));
}

#[test]
fn insert_name_skips_a_name_that_is_there() {
    let mut names = strings(&["cat", "ls", "zed"]);
    insert_name(&mut names, "ls".to_string());
    assert_eq!(names, strings(&["cat", "ls", "zed"]));
}

#[test]
fn sorted_names_holds_each_name_once_in_order() {
    assert_eq!(sorted_names(vec![]), Vec::<String>::new());
    assert_eq!(
        sorted_names(strings(&["ls", "cat", "ls", "awk", "cat"])),
        strings(&["awk", "cat", "ls"])
    );
    let set: std::collections::BTreeSet<String> = NAMES.iter().map(|n| n.to_string()).collect();
    let expected: Vec<String> = set.into_iter().collect();
    assert_eq!(sorted_names(strings(&NAMES)), expected);
}

#[test]
fn completion_words_end_with_the_builtins() {
    assert_eq!(completion_words(vec![]), strings(&["cd", "alias", "exit", "$?"]));
    assert_eq!(
        completion_words(strings(&["cat", "ls"])),
        strings(&["cat", "ls", "cd", "alias", "exit", "$?"])
    );
}
