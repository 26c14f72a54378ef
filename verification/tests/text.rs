use ygvm::text::{int_to_text, join_strings, rsplit_once_char, trim_str};

#[test]
fn split_at_last_slash() {
    assert_eq!(rsplit_once_char("std/core/Object", '/'), Some(("std/core", "Object")));
    assert_eq!(rsplit_once_char("/x", '/'), Some(("", "x")));
    assert_eq!(rsplit_once_char("plain", '/'), None);
    assert_eq!(rsplit_once_char("ünï/cödé", '/'), Some(("ünï", "cödé")));
}

#[test]
fn numbers_and_joins() {
    assert_eq!(int_to_text(0), "0");
    assert_eq!(int_to_text(-42), "-42");
    assert_eq!(int_to_text(i64::MIN), "-9223372036854775808");
    assert_eq!(join_strings(&vec!["a".to_string(), "b".to_string(), "c".to_string()], ", "), "a, b, c");
    assert_eq!(join_strings(&vec![], "-"), "");
}

#[test]
fn trimming_white_space() {
    assert_eq!(trim_str("  a b \n"), "a b");
    assert_eq!(trim_str("\u{3000}\tx\u{2028}"), "x");
    assert_eq!(trim_str("   "), "");
    assert_eq!(trim_str(""), "");
    assert_eq!(trim_str("xy"), "xy");
    let text = " \u{a0}ünï\r";
    assert_eq!(trim_str(text), text.trim());
}
