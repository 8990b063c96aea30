use rls::text::{
    append_decimal, append_repeated, contains_char, ends_with_char, starts_with_char,
    text_precedes,
};

#[test]
fn decimal_numerals_have_no_leading_zeros() {
    for n in [0u64, 7, 10, 99, 100, 1023, 1_000_000, u64::MAX] {
        let mut out = String::from("n=");
        append_decimal(&mut out, n);
        assert_eq!(out, format!("n={}", n));
    }
}

#[test]
fn repetition_appends_the_unit_count_times() {
    let mut out = String::from(">");
    append_repeated(&mut out, "ab", 3);
    assert_eq!(out, ">ababab");
    append_repeated(&mut out, "x", 0);
    assert_eq!(out, ">ababab");
}

#[test]
fn characters_are_found_where_they_stand() {
    assert!(contains_char("a/b", '/'));
    assert!(!contains_char("ab", '/'));
    assert!(!contains_char("", '/'));
    assert!(starts_with_char(".x", '.'));
    assert!(!starts_with_char("x.", '.'));
    assert!(!starts_with_char("", '.'));
    assert!(ends_with_char("x/", '/'));
    assert!(!ends_with_char("/x", '/'));
    assert!(!ends_with_char("", '/'));
    assert!(ends_with_char("é/é", 'é'));
}

#[test]
fn the_dictionary_order_is_that_of_the_strings() {
    let words = ["", "a", "A", "ab", "abc", "abd", "b", "é", "z", "~", "a.txt", "b.txt", "日本"];
    for a in words {
        for b in words {
            assert_eq!(text_precedes(a, b), a <= b, "{:?} and {:?}", a, b);
        }
    }
}
