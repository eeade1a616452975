use keyscan::order::{arrange, key_le_exec, reverse_keys, sort_keys};

fn keys(texts: &[&str]) -> Vec<String> {
    texts.iter().map(|t| t.to_string()).collect()
}

#[test]
fn order_compares_first_differing_byte() {
    assert!(key_le_exec("abc", "abd"));
    assert!(!key_le_exec("abd", "abc"));
    assert!(key_le_exec("Zebra", "apple"));
    assert!(!key_le_exec("apple", "Zebra"));
}

#[test]
fn order_puts_a_prefix_first() {
    assert!(key_le_exec("a", "ab"));
    assert!(!key_le_exec("ab", "a"));
    assert!(key_le_exec("", "a"));
    assert!(!key_le_exec("a", ""));
}

#[test]
fn order_holds_of_equal_keys_both_ways() {
    assert!(key_le_exec("same", "same"));
    assert!(key_le_exec("", ""));
}

#[test]
fn order_goes_by_bytes_beyond_ascii() {
    assert!(key_le_exec("z", "\u{e9}"));
    assert!(!key_le_exec("\u{e9}", "z"));
    assert!(key_le_exec("\u{ffff}", "\u{10000}"));
    assert!(!key_le_exec("\u{10000}", "\u{ffff}"));
}

#[test]
fn order_agrees_with_the_standard_string_order() {
    let samples = ["", "a", "a:", "a:1", "a:10", "a:2", "b", "\u{e9}", "\u{4e2d}", "~"];
    for a in samples {
        for b in samples {
            assert_eq!(key_le_exec(a, b), a <= b, "{:?} against {:?}", a, b);
        }
    }
}

#[test]
fn sort_orders_keys_ascending() {
    let sorted = sort_keys(keys(&["pear", "apple", "fig", "banana", "apple:2"]));
    assert_eq!(sorted, keys(&["apple", "apple:2", "banana", "fig", "pear"]));
}

#[test]
fn sort_keeps_repeated_keys() {
    let sorted = sort_keys(keys(&["b", "a", "b", "a", "c", "a"]));
    assert_eq!(sorted, keys(&["a", "a", "a", "b", "b", "c"]));
}

#[test]
fn sort_of_nothing_and_of_one() {
    assert_eq!(sort_keys(Vec::new()), Vec::<String>::new());
    assert_eq!(sort_keys(keys(&["only"])), keys(&["only"]));
}

#[test]
fn sort_matches_the_standard_sort_on_many_keys() {
    let mut input: Vec<String> = Vec::new();
    let mut seed: u64 = 12345;
    for _ in 0..3000 {
        seed = seed.wrapping_mul(6364136223846793005).wrapping_add(1442695040888963407);
        input.push(format!("key:{}:{}", (seed >> 33) % 50, (seed >> 20) % 997));
    }
    let mut expected = input.clone();
    expected.sort();
    assert_eq!(sort_keys(input), expected);
}

#[test]
fn reverse_turns_the_list_around() {
    assert_eq!(reverse_keys(keys(&["1", "2", "3"])), keys(&["3", "2", "1"]));
    assert_eq!(reverse_keys(Vec::new()), Vec::<String>::new());
    assert_eq!(reverse_keys(keys(&["x"])), keys(&["x"]));
}

#[test]
fn arrange_without_flags_changes_nothing() {
    let input = keys(&["m", "a", "z", "a"]);
    assert_eq!(arrange(input.clone(), false, false), input);
}

#[test]
fn arrange_reversed_only_keeps_scan_order_backwards() {
    assert_eq!(arrange(keys(&["m", "a", "z"]), false, true), keys(&["z", "a", "m"]));
}

#[test]
fn arrange_sorted_only_is_ascending() {
    assert_eq!(arrange(keys(&["m", "a", "z"]), true, false), keys(&["a", "m", "z"]));
}

#[test]
fn arrange_sorted_and_reversed_is_descending() {
    assert_eq!(
        arrange(keys(&["m", "a", "z", "b"]), true, true),
        keys(&["z", "m", "b", "a"])
    );
}

#[test]
fn arrange_sorted_and_reversed_equals_sort_then_reverse() {
    let input = keys(&["k:3", "k:1", "j", "k:2", "k:1", "\u{e9}", ""]);
    let mut expected = input.clone();
    expected.sort();
    expected.reverse();
    assert_eq!(arrange(input, true, true), expected);
}

#[test]
fn arrange_sorted_and_reversed_on_empty_and_single() {
    assert_eq!(arrange(Vec::new(), true, true), Vec::<String>::new());
    assert_eq!(arrange(keys(&["one"]), true, true), keys(&["one"]));
}
