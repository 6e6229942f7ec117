use shell_core::editor::{begins_with, comes_before, extract_word, is_space_char, EditHelper};
use shell_core::tokenizer::chars_of;

fn names(list: &[&str]) -> Vec<String> {
    list.iter().map(|name| name.to_string()).collect()
}

#[test]
fn word_before_the_cursor() {
    assert_eq!(extract_word("ec"), (0, "ec".to_string()));
    assert_eq!(extract_word("ls /usr/loc"), (3, "/usr/loc".to_string()));
    assert_eq!(extract_word("a  b\tcd"), (5, "cd".to_string()));
    assert_eq!(extract_word("a\rb"), (2, "b".to_string()));
}

#[test]
fn no_word_before_the_cursor() {
    assert_eq!(extract_word(""), (0, String::new()));
    assert_eq!(extract_word("echo "), (5, String::new()));
    assert_eq!(extract_word("echo\n"), (5, String::new()));
}

#[test]
fn word_start_counts_bytes() {
    assert_eq!(extract_word("é日 ab"), (6, "ab".to_string()));
    assert_eq!(extract_word("x é日"), (2, "é日".to_string()));
    assert_eq!(extract_word("a\u{a0}b"), (0, "a\u{a0}b".to_string()));
}

#[test]
fn white_space_of_the_edited_line() {
    for ch in [' ', '\t', '\n', '\x0b', '\x0c', '\r'] {
        assert!(is_space_char(ch));
    }
    for ch in ['a', '\0', '\u{a0}', '\u{85}', '\u{2003}', '|'] {
        assert!(!is_space_char(ch));
    }
}

#[test]
fn builtins_are_offered() {
    assert_eq!(EditHelper.complete("e", &Vec::new()), (0, names(&["echo", "exit"])));
    assert_eq!(EditHelper.complete("ec", &Vec::new()), (0, names(&["echo "])));
    assert_eq!(EditHelper.complete("", &Vec::new()), (0, names(&["cd", "echo", "exit", "pwd", "type"])));
    assert_eq!(EditHelper.complete("x", &Vec::new()), (0, Vec::<String>::new()));
}

#[test]
fn executables_are_offered_in_order_and_once() {
    let executables = names(&["tar", "cat", "type", "cargo", "cat", "ls", "c++", "Cat"]);
    assert_eq!(
        EditHelper.complete("sudo c", &executables),
        (5, names(&["c++", "cargo", "cat", "cd"]))
    );
    assert_eq!(EditHelper.complete("t", &executables), (0, names(&["tar", "type"])));
    assert_eq!(EditHelper.complete("ty", &executables), (0, names(&["type "])));
    assert_eq!(EditHelper.complete("l", &executables), (0, names(&["ls "])));
    assert_eq!(EditHelper.complete("C", &executables), (0, names(&["Cat "])));
}

#[test]
fn a_prefix_comes_before_its_extensions() {
    let executables = names(&["catalog", "cat", "ca"]);
    assert_eq!(EditHelper.complete("ca", &executables), (0, names(&["ca", "cat", "catalog"])));
}

#[test]
fn order_of_texts() {
    let order = |a: &str, b: &str| comes_before(&chars_of(a), &chars_of(b));
    assert!(order("", ""));
    assert!(order("", "a"));
    assert!(!order("a", ""));
    assert!(order("a", "a"));
    assert!(order("a", "b"));
    assert!(!order("b", "a"));
    assert!(order("ab", "abc"));
    assert!(!order("abc", "ab"));
    assert!(order("Z", "a"));
    assert!(order("z", "é"));
    assert!(order("é", "日"));
    let mut sorted = vec!["b", "", "é", "a", "ab", "Z", "日", "z"];
    sorted.sort();
    for pair in sorted.windows(2) {
        assert!(order(pair[0], pair[1]));
        assert!(!order(pair[1], pair[0]));
    }
}

#[test]
fn prefixes() {
    let begins = |name: &str, word: &str| begins_with(&chars_of(name), &chars_of(word));
    assert!(begins("echo", ""));
    assert!(begins("echo", "ec"));
    assert!(begins("echo", "echo"));
    assert!(!begins("echo", "echoo"));
    assert!(!begins("echo", "x"));
    assert!(!begins("", "x"));
    assert!(begins("", ""));
}
