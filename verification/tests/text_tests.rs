use shardingite::text::{
    parse_i64_digits, parse_u32_digits, parse_u64_digits, split_statements,
    str_eq_ignore_ascii_case, trim_str,
};

#[test]
fn digits_parse_exactly() {
    assert_eq!(parse_u32_digits("42"), Some(42));
    assert_eq!(parse_u32_digits("0"), Some(0));
    assert_eq!(parse_u32_digits("007"), Some(7));
    assert_eq!(parse_u32_digits("4294967295"), Some(u32::MAX));
    assert_eq!(parse_u32_digits("4294967296"), None);
    assert_eq!(parse_u32_digits(""), None);
    assert_eq!(parse_u32_digits("1a"), None);
    assert_eq!(parse_u32_digits("-1"), None);
    assert_eq!(parse_u32_digits("1.5"), None);
}

#[test]
fn wide_digits_parse_exactly() {
    assert_eq!(parse_u64_digits("18446744073709551615"), Some(u64::MAX));
    assert_eq!(parse_u64_digits("18446744073709551616"), None);
    assert_eq!(parse_i64_digits("9223372036854775807"), Some(i64::MAX));
    assert_eq!(parse_i64_digits("9223372036854775808"), None);
    assert_eq!(parse_i64_digits("4"), Some(4));
}

#[test]
fn case_insensitive_comparison() {
    assert!(str_eq_ignore_ascii_case("COUNT", "count"));
    assert!(str_eq_ignore_ascii_case("Count", "cOUNT"));
    assert!(str_eq_ignore_ascii_case("json_extract", "JSON_EXTRACT"));
    assert!(!str_eq_ignore_ascii_case("count1", "count"));
    assert!(!str_eq_ignore_ascii_case("coun", "count"));
}

#[test]
fn trim_drops_surrounding_whitespace() {
    assert_eq!(trim_str("  a b \n").as_str(), "a b");
    assert_eq!(trim_str("\t\r\n ").as_str(), "");
    assert_eq!(trim_str("x").as_str(), "x");
    assert_eq!(trim_str("").as_str(), "");
}

#[test]
fn batch_text_splits_into_trimmed_pieces() {
    let pieces = split_statements("CREATE TABLE a (x INTEGER);\n  CREATE INDEX i ON a (x);\n");
    let texts: Vec<&str> = pieces.iter().map(|p| p.as_str()).collect();
    assert_eq!(texts, vec!["CREATE TABLE a (x INTEGER)", "CREATE INDEX i ON a (x)"]);
}

#[test]
fn batch_split_drops_empty_pieces() {
    let pieces = split_statements(";;  ;\n;");
    assert!(pieces.is_empty());
    let pieces2 = split_statements("  one ;; two ");
    let texts: Vec<&str> = pieces2.iter().map(|p| p.as_str()).collect();
    assert_eq!(texts, vec!["one", "two"]);
}

#[test]
fn batch_split_without_semicolon() {
    let pieces = split_statements(" SELECT 1 ");
    let texts: Vec<&str> = pieces.iter().map(|p| p.as_str()).collect();
    assert_eq!(texts, vec!["SELECT 1"]);
}

#[test]
fn trim_drops_unicode_whitespace() {
    assert_eq!(trim_str("\u{00A0}\u{2003}SELECT 1\u{3000}\u{0085}").as_str(), "SELECT 1");
    assert_eq!(trim_str("\u{2028}\u{202F}\u{205F}").as_str(), "");
    assert_eq!(
        trim_str("\u{000B}\u{000C}x\u{1680}\u{200A}").as_str(),
        "x"
    );
}

#[test]
fn batch_split_trims_unicode_whitespace() {
    let pieces = split_statements("\u{00A0}one ;\u{2002}two\u{3000};\u{00A0}");
    let texts: Vec<&str> = pieces.iter().map(|p| p.as_str()).collect();
    assert_eq!(texts, vec!["one", "two"]);
}
