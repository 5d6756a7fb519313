use less_parser::text::{any_char, char_count_fits, one_char, tag, take};

#[test]
fn any_char_splits_off_one_character() {
    assert_eq!(any_char("abc"), Some(("bc", 'a')));
    assert_eq!(any_char("é"), Some(("", 'é')));
    assert_eq!(any_char("💙x"), Some(("x", '💙')));
    assert_eq!(any_char(""), None);
}

#[test]
fn one_char_matches_the_first_character_only() {
    assert_eq!(one_char('a', "abc"), Some("bc"));
    assert_eq!(one_char('é', "éa"), Some("a"));
    assert_eq!(one_char('b', "abc"), None);
    assert_eq!(one_char('a', ""), None);
}

#[test]
fn tag_matches_a_prefix() {
    assert_eq!(tag("@{", "@{a}"), Some("a}"));
    assert_eq!(tag("", "abc"), Some("abc"));
    assert_eq!(tag("abc", "abc"), Some(""));
    assert_eq!(tag("é", "éé"), Some("é"));
    assert_eq!(tag("@{", "@ {"), None);
    assert_eq!(tag("abc", "ab"), None);
    assert_eq!(tag("a", ""), None);
}

#[test]
fn take_counts_characters() {
    assert_eq!(take(2, "abc"), Some(("c", "ab")));
    assert_eq!(take(0, "abc"), Some(("abc", "")));
    assert_eq!(take(3, "abc"), Some(("", "abc")));
    assert_eq!(take(1, "💙é"), Some(("é", "💙")));
    assert_eq!(take(2, "💙é"), Some(("", "💙é")));
    assert_eq!(take(4, "abc"), None);
    assert_eq!(take(1, ""), None);
}

#[test]
fn char_count_fits_accepts_every_slice() {
    char_count_fits("");
    char_count_fits("💙é");
}
