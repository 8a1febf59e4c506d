use galaxy_ui::text::{append_decimal, append_joined, sort_strings, str_le};

fn decimal(n: u64) -> String {
    let mut s = String::new();
    append_decimal(&mut s, n);
    s
}

#[test]
fn decimal_of_small_and_large_numbers() {
    assert_eq!(decimal(0), "0");
    assert_eq!(decimal(7), "7");
    assert_eq!(decimal(10), "10");
    assert_eq!(decimal(1234), "1234");
    assert_eq!(decimal(u64::MAX), u64::MAX.to_string());
}

#[test]
fn decimal_appends_after_existing_text() {
    let mut s = String::from("id=");
    append_decimal(&mut s, 905);
    assert_eq!(s, "id=905");
}

#[test]
fn str_le_agrees_with_string_order() {
    let words = ["", "a", "ab", "abc", "abd", "b", "B", "Basic(Oxygen):2", "Basic(Carbon):10", "é", "z"];
    for a in words.iter() {
        for b in words.iter() {
            assert_eq!(str_le(a, b), a <= b, "comparing {a:?} and {b:?}");
        }
    }
}

#[test]
fn sort_strings_sorts_like_std() {
    let input: Vec<String> = ["pear", "apple", "fig", "apple", "Zebra", "banana"]
        .iter()
        .map(|s| s.to_string())
        .collect();
    let mut expected = input.clone();
    expected.sort();
    assert_eq!(sort_strings(input), expected);
}

#[test]
fn sort_strings_of_nothing() {
    assert!(sort_strings(Vec::new()).is_empty());
}

#[test]
fn append_joined_puts_separator_between_parts() {
    let parts: Vec<String> = vec!["a".to_string(), "b".to_string(), "c".to_string()];
    let mut s = String::from("> ");
    append_joined(&mut s, &parts, ", ");
    assert_eq!(s, "> a, b, c");
    let mut t = String::new();
    append_joined(&mut t, &vec!["only".to_string()], ", ");
    assert_eq!(t, "only");
    let mut u = String::from("x");
    append_joined(&mut u, &Vec::new(), ", ");
    assert_eq!(u, "x");
}
