use contract_metadata_injection::number::{decimal_text, parse_index};
use contract_metadata_injection::ordered::{sort_distinct, OrderedMap};
use contract_metadata_injection::text::{
    begins_with, contains_item, contains_text, is_white_space, join, keep_non_empty, place,
    same_text, split, trim, Place,
};

fn strings(items: &[&str]) -> Vec<String> {
    items.iter().map(|item| item.to_string()).collect()
}

#[test]
fn texts_are_ordered_by_their_bytes() {
    assert!(matches!(place("a", "b"), Place::Before));
    assert!(matches!(place("ab", "a"), Place::After));
    assert!(matches!(place("Z", "a"), Place::Before));
    assert!(matches!(place("z", "é"), Place::Before));
    assert!(matches!(place("same", "same"), Place::Same));
    assert!(same_text("", ""));
    assert!(!same_text("a", "A"));
}

#[test]
fn split_keeps_empty_pieces() {
    assert_eq!(split("a,,b,", ','), strings(&["a", "", "b", ""]));
    assert_eq!(split("", ','), strings(&[""]));
    assert_eq!(keep_non_empty(split(",a,,b", ',')), strings(&["a", "b"]));
}

#[test]
fn trim_removes_unicode_white_space() {
    assert_eq!(trim("\u{3000}\t a b \u{a0}\r\n"), "a b");
    assert_eq!(trim(" \u{2003} "), "");
    assert_eq!(trim("\u{200b}a"), "\u{200b}a");
}

#[test]
fn white_space_is_that_of_the_standard_library() {
    let mut code: u32 = 0;
    while code < 0x11_0000 {
        if let Some(c) = char::from_u32(code) {
            assert_eq!(is_white_space(c), c.is_whitespace());
        }
        code += 1;
    }
}

#[test]
fn join_puts_separators_between() {
    assert_eq!(join(&strings(&["a", "b", "c"]), ","), "a,b,c");
    assert_eq!(join(&strings(&["a"]), ","), "a");
    assert_eq!(join(&strings(&[]), ","), "");
}

#[test]
fn texts_are_searched() {
    assert!(contains_text("strictly confidential data", "confidential"));
    assert!(contains_text("abc", ""));
    assert!(contains_text("", ""));
    assert!(!contains_text("confident", "confidential"));
    assert!(begins_with("application/json; charset=utf-8", "application/json"));
    assert!(!begins_with("text/json", "application/json"));
    assert!(contains_item(&strings(&["a", "b"]), "b"));
    assert!(!contains_item(&strings(&["a", "b"]), "c"));
}

#[test]
fn numbers_are_written_in_decimal() {
    assert_eq!(decimal_text(0), "0");
    assert_eq!(decimal_text(1203), "1203");
    assert_eq!(decimal_text(u128::MAX), u128::MAX.to_string());
}

#[test]
fn indices_are_read_as_usize() {
    for text in ["0", "7", "007", "+3", "", "+", "-1", "1a", " 1", "1_0", "٣"] {
        assert_eq!(parse_index(text), text.parse::<usize>().ok());
    }
    let most = usize::MAX.to_string();
    assert_eq!(parse_index(&most), Some(usize::MAX));
    assert_eq!(parse_index("18446744073709551616"), None);
}

#[test]
fn maps_are_in_order_of_their_keys() {
    let mut map: OrderedMap<u64> = OrderedMap::new();
    map.insert("b".to_string(), 1);
    map.insert("a".to_string(), 2);
    map.insert("b".to_string(), 3);
    assert_eq!(map.entries(), &vec![("a".to_string(), 2), ("b".to_string(), 3)]);
    assert_eq!(map.get("b"), Some(&3));
    assert_eq!(map.get("c"), None);
    assert_eq!(map.len(), 2);
}

#[test]
fn sorting_drops_repetitions() {
    let sorted = sort_distinct(&strings(&["sku", "list_price", "sku", "Sku"]));
    assert_eq!(sorted, strings(&["Sku", "list_price", "sku"]));
}
