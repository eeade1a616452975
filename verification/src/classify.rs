//! The group of one key: what stands between a prefix and the first
//! delimiter after it.

use vstd::prelude::*;
use vstd::string::*;

verus! {

/// `pattern` stands in `text` at position `at`.
pub open spec fn occurs_at(text: Seq<char>, pattern: Seq<char>, at: int) -> bool {
    &&& 0 <= at
    &&& at + pattern.len() <= text.len()
    &&& text.subrange(at, at + pattern.len()) == pattern
}

/// The first position, not before `from`, at which `pattern` stands in
/// `text`.
pub open spec fn find_from(text: Seq<char>, pattern: Seq<char>, from: int) -> Option<int>
    decreases text.len() + 1 - from,
{
    if from < 0 || from + pattern.len() > text.len() {
        None
    } else if occurs_at(text, pattern, from) {
        Some(from)
    } else {
        find_from(text, pattern, from + 1)
    }
}

/// The label that is given to keys in which the delimiter does not occur.
pub open spec fn other_label() -> Seq<char> {
    "other"@
}

/// The group of a key that starts with the prefix: what stands between the
/// prefix and the first delimiter after it, or the label for the rest where
/// no delimiter follows. A key that does not start with the prefix has no
/// group.
pub open spec fn classify(key: Seq<char>, prefix: Seq<char>, delimiter: Seq<char>) -> Option<
    Seq<char>,
> {
    if prefix.is_prefix_of(key) {
        match find_from(key, delimiter, prefix.len() as int) {
            Some(at) => Some(key.subrange(prefix.len() as int, at)),
            None => Some(other_label()),
        }
    } else {
        None
    }
}

/// What `find_from` finds is the first occurrence, and what it does not
/// find does not occur.
pub proof fn lemma_find_is_first(text: Seq<char>, pattern: Seq<char>, from: int)
    requires
        0 <= from,
    ensures
        match find_from(text, pattern, from) {
            Some(at) => from <= at && occurs_at(text, pattern, at) && forall|b: int|
                from <= b < at ==> !occurs_at(text, pattern, b),
            None => forall|b: int| from <= b ==> !occurs_at(text, pattern, b),
        },
    decreases text.len() + 1 - from,
{
    if from + pattern.len() > text.len() {
    } else if occurs_at(text, pattern, from) {
    } else {
        lemma_find_is_first(text, pattern, from + 1);
    }
}

/// The characters of a text.
pub fn chars_of(text: &str) -> (chars: Vec<char>)
    ensures
        chars@ == text@,
{
    let mut chars: Vec<char> = Vec::new();
    for c in it: text.chars()
        invariant
            it.seq() == text@,
            chars@ == text@.take(it.index() as int),
    {
        assert(text@.take(it.index() + 1) =~= text@.take(it.index() as int).push(c));
        chars.push(c);
    }
    assert(text@.take(text@.len() as int) =~= text@);
    chars
}

/// Whether `pattern` stands in `text` at position `at`.
fn matches_at(text: &Vec<char>, pattern: &Vec<char>, at: usize) -> (found: bool)
    requires
        at + pattern.len() <= text.len(),
    ensures
        found == occurs_at(text@, pattern@, at as int),
{
    let mut i: usize = 0;
    while i < pattern.len()
        invariant
            i <= pattern.len(),
            at + pattern.len() <= text.len(),
            forall|j: int| 0 <= j < i ==> text@[at + j] == pattern@[j],
        decreases pattern.len() - i,
    {
        if text[at + i] != pattern[i] {
            assert(text@.subrange(at as int, at + pattern.len())[i as int] != pattern@[i as int]);
            return false;
        }
        i += 1;
    }
    assert(text@.subrange(at as int, at + pattern.len()) =~= pattern@);
    true
}

/// The first position, not before `from`, at which `pattern` stands in
/// `text`.
fn find_first(text: &Vec<char>, pattern: &Vec<char>, from: usize) -> (found: Option<usize>)
    ensures
        match found {
            Some(at) => find_from(text@, pattern@, from as int) == Some(at as int),
            None => find_from(text@, pattern@, from as int) is None,
        },
{
    if pattern.len() > text.len() || from > text.len() - pattern.len() {
        return None;
    }
    if pattern.len() == 0 {
        assert(text@.subrange(from as int, from as int) =~= pattern@);
        return Some(from);
    }
    let limit: usize = text.len() - pattern.len() + 1;
    let mut at: usize = from;
    while at < limit
        invariant
            from <= at <= limit,
            limit == text.len() - pattern.len() + 1,
            find_from(text@, pattern@, from as int) == find_from(text@, pattern@, at as int),
        decreases limit - at,
    {
        if matches_at(text, pattern, at) {
            return Some(at);
        }
        at += 1;
    }
    None
}

/// The group of a key, where it has one, with prefix and delimiter given by
/// their characters.
pub fn classify_key(key: &str, prefix: &Vec<char>, delimiter: &Vec<char>) -> (label: Option<
    String,
>)
    ensures
        match label {
            Some(text) => classify(key@, prefix@, delimiter@) == Some(text@),
            None => classify(key@, prefix@, delimiter@) is None,
        },
{
    let chars = chars_of(key);
    if prefix.len() > chars.len() {
        return None;
    }
    if !matches_at(&chars, prefix, 0) {
        return None;
    }
    match find_first(&chars, delimiter, prefix.len()) {
        Some(at) => {
            proof {
                lemma_find_is_first(chars@, delimiter@, prefix.len() as int);
            }
            Some(key.substring_char(prefix.len(), at).to_owned())
        },
        None => Some("other".to_owned()),
    }
}

/// The group of a key, where it has one: the label of a key that starts
/// with `prefix`, and nothing for a key that does not.
pub fn group_of(key: &str, delimiter: &str, prefix: &str) -> (label: Option<String>)
    ensures
        match label {
            Some(text) => classify(key@, prefix@, delimiter@) == Some(text@),
            None => classify(key@, prefix@, delimiter@) is None,
        },
{
    let prefix_chars = chars_of(prefix);
    let delimiter_chars = chars_of(delimiter);
    classify_key(key, &prefix_chars, &delimiter_chars)
}

} // verus!
