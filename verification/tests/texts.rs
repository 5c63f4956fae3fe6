use ankicollab::lists::{end_of_batch, group_places, holds as list_holds};
use ankicollab::structs::{index_by_name, NamedId};
use ankicollab::text::{
    begins_with, chars_of, decimal_text, distinct, find, holds, is_control, is_in, join_first,
    joined, parse_number, replace_first, same_text, set_of, signed_decimal_text, split_text,
    tail_after_last, text_of,
};

fn texts(list: &[&str]) -> Vec<String> {
    list.iter().map(|s| s.to_string()).collect()
}

#[test]
fn numbers_in_decimal() {
    assert_eq!(decimal_text(0), "0");
    assert_eq!(decimal_text(9), "9");
    assert_eq!(decimal_text(10), "10");
    assert_eq!(decimal_text(u64::MAX), "18446744073709551615");
    assert_eq!(signed_decimal_text(-1), "-1");
    assert_eq!(signed_decimal_text(i64::MIN), "-9223372036854775808");
    assert_eq!(signed_decimal_text(42), "42");
}

#[test]
fn numbers_are_read() {
    assert_eq!(parse_number("0"), Some(0));
    assert_eq!(parse_number("+0012"), Some(12));
    assert_eq!(parse_number("18446744073709551615"), Some(u64::MAX));
    assert_eq!(parse_number("18446744073709551616"), None);
    assert_eq!(parse_number("99999999999999999999999"), None);
    for text in ["", "+", "++1", "-1", " 1", "1 ", "1x", "\u{662}"] {
        assert_eq!(parse_number(text), None, "{}", text);
        assert!(text.parse::<u64>().is_err());
    }
}

#[test]
fn pieces_make_up_the_text() {
    for text in ["", "a", "a::b", "::", "a::", "::a", "a:::b", "a::b::c", ":::::"] {
        let pieces = split_text(text, "::");
        let std_pieces: Vec<&str> = text.split("::").collect();
        assert_eq!(pieces, std_pieces);
        assert_eq!(join_first(&pieces, pieces.len(), "::"), text);
    }
    assert_eq!(join_first(&texts(&["a", "b", "c"]), 2, "::"), "a::b");
    assert_eq!(join_first(&texts(&["a"]), 0, "::"), "");
}

#[test]
fn an_appended_piece_is_the_last() {
    let mut pieces = split_text("a::b", "::");
    pieces.push("c:d".to_string());
    assert_eq!(split_text("a::b::c:d", "::"), pieces);
}

#[test]
fn texts_in_texts() {
    assert!(holds("abc", ""));
    assert!(holds("abc", "bc"));
    assert!(!holds("abc", "cb"));
    assert!(!holds("", "a"));
    assert_eq!(find(&chars_of("abab"), &chars_of("ab"), 1), Some(2));
    assert_eq!(find(&chars_of("abab"), &chars_of("ab"), 3), None);
    assert_eq!(find(&chars_of("ab"), &chars_of(""), 2), Some(2));
    assert!(begins_with("abc", "ab"));
    assert!(begins_with("abc", ""));
    assert!(!begins_with("ab", "abc"));
    assert!(!begins_with("abc", "b"));
    assert!(same_text("ü", "ü"));
    assert!(!same_text("a", "ab"));
    assert_eq!(joined("a", "b"), "ab");
    assert_eq!(text_of(&chars_of("aüb"), 1, 3), "üb");
}

#[test]
fn the_first_occurrence_is_replaced() {
    for (text, from, to) in [
        ("abcabc", "b", "xx"),
        ("abc", "d", "x"),
        ("abc", "", "x"),
        ("", "", "x"),
        ("aüa", "ü", ""),
    ] {
        assert_eq!(replace_first(text, from, to), text.replacen(from, to, 1));
    }
}

#[test]
fn what_stands_behind_the_last_dot() {
    assert_eq!(tail_after_last("a.b.c", '.'), "c");
    assert_eq!(tail_after_last("abc", '.'), "abc");
    assert_eq!(tail_after_last("abc.", '.'), "");
    assert_eq!(tail_after_last("", '.'), "");
}

#[test]
fn each_text_is_kept_once() {
    assert_eq!(distinct(&texts(&["b", "a", "b", "c", "a"])), texts(&["b", "a", "c"]));
    assert!(distinct(&Vec::new()).is_empty());
    assert!(is_in(&texts(&["a", "b"]), "b"));
    assert!(!is_in(&texts(&["a", "b"]), "c"));
    assert!(set_of(&texts(&["a"])).contains("a"));
    assert!(!set_of(&texts(&["a"])).contains("b"));
}

#[test]
fn batches_make_up_a_list() {
    let mut start: usize = 0;
    let mut ends = Vec::new();
    while start < 7 {
        start = end_of_batch(start, 7, 3);
        ends.push(start);
    }
    assert_eq!(ends, [3, 6, 7]);
    assert_eq!(end_of_batch(0, 6, 3), 3);
    assert_eq!(end_of_batch(3, 6, 3), 6);
    assert_eq!(end_of_batch(5, usize::MAX, usize::MAX), usize::MAX);
}

#[test]
fn numbers_are_grouped() {
    let groups = group_places(&vec![5, 7, 5, 9, 7, 5]);
    assert_eq!(groups.len(), 3);
    assert_eq!(groups[&5], [0, 2, 5]);
    assert_eq!(groups[&7], [1, 4]);
    assert_eq!(groups[&9], [3]);
    assert!(list_holds(&vec![1, 2], 2));
    assert!(!list_holds(&vec![1, 2], 3));
}

#[test]
fn the_last_number_of_a_name_counts() {
    let rows = vec![
        NamedId { id: 1, name: "a".to_string() },
        NamedId { id: 2, name: "b".to_string() },
        NamedId { id: 3, name: "a".to_string() },
    ];
    let map = index_by_name(&rows);
    assert_eq!(map.get("a"), Some(&3));
    assert_eq!(map.get("b"), Some(&2));
    assert_eq!(map.get("c"), None);
}

#[test]
fn control_characters_are_those_of_unicode() {
    for c in '\0'..=char::MAX {
        assert_eq!(is_control(c), c.is_control());
    }
}
