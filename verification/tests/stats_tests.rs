use keyscan::classify::group_of;
use keyscan::stats::{compute_stats, KeyGroup, StatsReport};

fn keys(texts: &[&str]) -> Vec<String> {
    texts.iter().map(|t| t.to_string()).collect()
}

fn group(label: &str, count: usize) -> KeyGroup {
    KeyGroup { label: label.to_string(), count }
}

#[test]
fn stats_counts_groups_by_first_field() {
    let report = compute_stats(&keys(&["a:1", "a:2", "b:1"]), ":", "");
    assert_eq!(report, StatsReport { groups: vec![group("a", 2), group("b", 1)], unmatched: 0 });
}

#[test]
fn stats_puts_keys_without_delimiter_under_other() {
    let report = compute_stats(&keys(&["x", "y:1"]), ":", "");
    assert_eq!(report.groups, vec![group("other", 1), group("y", 1)]);
    assert_eq!(report.unmatched, 0);
}

#[test]
fn stats_ranks_by_count_then_first_seen() {
    let report = compute_stats(&keys(&["b:1", "a:1", "b:2", "c:1", "a:2", "d:1", "d:2", "d:3"]), ":", "");
    assert_eq!(
        report.groups,
        vec![group("d", 3), group("b", 2), group("a", 2), group("c", 1)]
    );
}

#[test]
fn stats_ties_keep_first_seen_order_among_many() {
    let mut input: Vec<String> = Vec::new();
    for i in (0..40).rev() {
        input.push(format!("g{}:x", i));
    }
    input.push("g7:y".to_string());
    let report = compute_stats(&input, ":", "");
    assert_eq!(report.groups.len(), 40);
    assert_eq!(report.groups[0], group("g7", 2));
    let rest: Vec<String> = report.groups[1..].iter().map(|g| g.label.clone()).collect();
    let expected: Vec<String> = (0..40).rev().filter(|i| *i != 7).map(|i| format!("g{}", i)).collect();
    assert_eq!(rest, expected);
}

#[test]
fn stats_strips_the_prefix_and_counts_the_unmatched() {
    let input = keys(&["app:user:1", "app:user:2", "app:session:9", "other:thing", "app:flat", "ap"]);
    let report = compute_stats(&input, ":", "app:");
    assert_eq!(
        report.groups,
        vec![group("user", 2), group("session", 1), group("other", 1)]
    );
    assert_eq!(report.unmatched, 2);
    assert_eq!(report.unmatched_notice(), Some(2));
}

#[test]
fn stats_counts_add_up_to_the_number_of_keys() {
    let input = keys(&["p:a:1", "p:a:2", "q", "p:b", "p:", "p::x", "zz:p:a", "p:a:3", ""]);
    let report = compute_stats(&input, ":", "p:");
    let counted: usize = report.groups.iter().map(|g| g.count).sum();
    assert_eq!(counted + report.unmatched, input.len());
    assert_eq!(report.groups, vec![group("a", 3), group("other", 2), group("", 1)]);
    assert_eq!(report.unmatched, 3);
}

#[test]
fn stats_of_no_keys_is_empty() {
    let report = compute_stats(&Vec::new(), ":", "");
    assert_eq!(report, StatsReport { groups: Vec::new(), unmatched: 0 });
    assert_eq!(report.unmatched_notice(), None);
}

#[test]
fn stats_key_that_is_only_the_prefix_goes_under_other() {
    let report = compute_stats(&keys(&["app:"]), ":", "app:");
    assert_eq!(report.groups, vec![group("other", 1)]);
    assert_eq!(report.unmatched, 0);
}

#[test]
fn stats_splits_at_the_first_delimiter_only() {
    let report = compute_stats(&keys(&["a:b:c", "a:x", ":lead"]), ":", "");
    assert_eq!(report.groups, vec![group("a", 2), group("", 1)]);
}

#[test]
fn stats_takes_a_delimiter_of_several_characters() {
    let report = compute_stats(&keys(&["a::b", "a:b", "a::c::d", "::"]), "::", "");
    assert_eq!(report.groups, vec![group("a", 2), group("other", 1), group("", 1)]);
}

#[test]
fn stats_with_an_empty_delimiter_splits_before_everything() {
    let report = compute_stats(&keys(&["a:1", "b"]), "", "");
    assert_eq!(report.groups, vec![group("", 2)]);
}

#[test]
fn stats_merges_the_reserved_label_with_a_group_of_that_name() {
    let report = compute_stats(&keys(&["other:1", "plain", "other:2"]), ":", "");
    assert_eq!(report.groups, vec![group("other", 3)]);
}

#[test]
fn stats_handles_text_beyond_ascii() {
    let input = keys(&["caf\u{e9}\u{2192}1", "caf\u{e9}\u{2192}2", "\u{4e2d}\u{6587}\u{2192}x", "caf\u{e9}"]);
    let report = compute_stats(&input, "\u{2192}", "");
    assert_eq!(
        report.groups,
        vec![group("caf\u{e9}", 2), group("\u{4e2d}\u{6587}", 1), group("other", 1)]
    );
}

#[test]
fn stats_agrees_with_strip_prefix_and_split_once() {
    let input = keys(&["ab:cd:ef", "ab", "abab:", "ab:ab", "b:ab", "ab:", ":ab", "abc:d", "a"]);
    for prefix in ["", "a", "ab", "ab:", "x"] {
        for delimiter in [":", "b", "b:", "ab"] {
            let mut labels: Vec<String> = Vec::new();
            let mut unmatched = 0;
            for key in &input {
                match key.strip_prefix(prefix) {
                    None => unmatched += 1,
                    Some(rest) => match rest.split_once(delimiter) {
                        Some((label, _)) => labels.push(label.to_string()),
                        None => labels.push("other".to_string()),
                    },
                }
            }
            let report = compute_stats(&input, delimiter, prefix);
            assert_eq!(report.unmatched, unmatched);
            for g in &report.groups {
                let expected = labels.iter().filter(|l| **l == g.label).count();
                assert_eq!(g.count, expected, "label {:?}", g.label);
            }
            let total: usize = report.groups.iter().map(|g| g.count).sum();
            assert_eq!(total, labels.len());
        }
    }
}

#[test]
fn group_label_is_shown_with_its_prefix() {
    assert_eq!(group("user", 2).display_label("app:"), "app:user");
    assert_eq!(group("user", 2).display_label(""), "user");
    assert_eq!(group("", 1).display_label("p:"), "p:");
}

#[test]
fn unmatched_is_told_only_when_there_is_any() {
    let none = StatsReport { groups: Vec::new(), unmatched: 0 };
    let some = StatsReport { groups: Vec::new(), unmatched: 3 };
    assert_eq!(none.unmatched_notice(), None);
    assert_eq!(some.unmatched_notice(), Some(3));
}

#[test]
fn group_of_one_key() {
    assert_eq!(group_of("abc:123:456", ":", ""), Some("abc".to_string()));
    assert_eq!(group_of("abc:123:456", ":", "abc:"), Some("123".to_string()));
    assert_eq!(group_of("abc:123:456", ":", "abd"), None);
    assert_eq!(group_of("abc", ":", ""), Some("other".to_string()));
    assert_eq!(group_of("abc", ":", "abcd"), None);
    assert_eq!(group_of("", ":", ""), Some("other".to_string()));
    assert_eq!(group_of(":", ":", ""), Some("".to_string()));
    assert_eq!(group_of("a--b--c", "--", "a"), Some("".to_string()));
    assert_eq!(group_of("a-b--c", "--", "a"), Some("-b".to_string()));
}
