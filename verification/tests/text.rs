use react::order::str_lt;
use react::text::{split_fields, str_contains, str_eq, str_starts_with};

#[test]
fn prefixes_and_infixes() {
    assert!(str_starts_with("libssl", "lib"));
    assert!(!str_starts_with("lib", "libssl"));
    assert!(str_starts_with("x", ""));
    assert!(str_contains("CVE-2021-3711", "2021"));
    assert!(!str_contains("CVE-2021-3711", "2020"));
    assert!(str_contains("abc", ""));
    assert!(str_eq("é", "é"));
    assert!(!str_eq("a", "ab"));
}

#[test]
fn splitting_on_a_character() {
    assert_eq!(split_fields("a_b__c", '_'), vec!["a", "b", "", "c"]);
    assert_eq!(split_fields("", '_'), vec![""]);
    assert_eq!(split_fields("_", '_'), vec!["", ""]);
}

#[test]
fn string_order_matches_rust() {
    let words = ["", "a", "ab", "b", "B", "é", "CVE-2020-10", "CVE-2020-9"];
    for x in words {
        for y in words {
            assert_eq!(str_lt(x, y), x < y, "{} {}", x, y);
        }
    }
}
