use data_syncer::text::{
    final_string_value, i64_text, join_strings, remove_whitespace, same_text, skip_bytes,
    split_on, text_contains, to_chars, u64_text,
};

#[test]
fn remove_whitespace_drops_every_kind_of_space() {
    assert_eq!(remove_whitespace(" a b\tc\n"), "abc");
    assert_eq!(remove_whitespace("a\u{a0}b\u{3000}c\r\n"), "abc");
    assert_eq!(remove_whitespace(""), "");
    assert_eq!(remove_whitespace("   "), "");
}

#[test]
fn remove_whitespace_twice_is_once() {
    let once = remove_whitespace(" Max  Hp ");
    let twice = remove_whitespace(&once);
    assert_eq!(once, "MaxHp");
    assert_eq!(once, twice);
}

#[test]
fn final_string_value_escapes_quotes_and_breaks() {
    assert_eq!(final_string_value("hello"), "\"hello\"");
    assert_eq!(final_string_value("say \"hi\""), "\"say \\\"hi\\\"\"");
    assert_eq!(final_string_value("kept \\\" as is"), "\"kept \\\" as is\"");
    assert_eq!(final_string_value("a\nb"), "\"a\\nb\"");
    assert_eq!(final_string_value("a\r\nb"), "\"a\\nb\"");
    assert_eq!(final_string_value(""), "\"\"");
    assert_eq!(final_string_value("\"start"), "\"\\\"start\"");
}

#[test]
fn final_string_value_of_plain_text_only_quotes_it() {
    let plain = "no quotes or breaks here";
    assert_eq!(final_string_value(plain), format!("\"{}\"", plain));
}

#[test]
fn decimal_text_matches_display() {
    assert_eq!(u64_text(0), "0");
    assert_eq!(u64_text(7), "7");
    assert_eq!(u64_text(1234), "1234");
    assert_eq!(u64_text(u64::MAX), u64::MAX.to_string());
    assert_eq!(i64_text(-42), "-42");
    assert_eq!(i64_text(i64::MIN), i64::MIN.to_string());
    assert_eq!(i64_text(1970), "1970");
}

#[test]
fn join_strings_puts_separator_between() {
    let v = vec!["a".to_string(), "b".to_string(), "c".to_string()];
    assert_eq!(join_strings(&v, ", "), "a, b, c");
    let one = vec!["x".to_string()];
    assert_eq!(join_strings(&one, ", "), "x");
    let none: Vec<String> = vec![];
    assert_eq!(join_strings(&none, ", "), "");
}

#[test]
fn text_contains_finds_substrings() {
    assert!(text_contains("list:int", "list:"));
    assert!(text_contains("mylist:int", "list:"));
    assert!(!text_contains("lis:t", "list:"));
    assert!(text_contains("abc", ""));
    assert!(!text_contains("", "a"));
}

#[test]
fn split_on_matches_str_split() {
    assert_eq!(split_on("1|2|3", '|'), vec!["1", "2", "3"]);
    assert_eq!(split_on("", '|'), vec![""]);
    assert_eq!(split_on("|a|", '|'), vec!["", "a", ""]);
    assert_eq!(split_on("x\ny", '\n'), vec!["x", "y"]);
}

#[test]
fn skip_bytes_matches_byte_slicing() {
    assert_eq!(skip_bytes("enum:Color", 5), Some("Color".to_string()));
    assert_eq!(skip_bytes("enum:", 5), Some("".to_string()));
    assert_eq!(skip_bytes("abc", 5), None);
    assert_eq!(skip_bytes("é", 1), None);
    assert_eq!(skip_bytes("éa", 2), Some("a".to_string()));
}

#[test]
fn same_text_and_to_chars() {
    assert!(same_text("abc", "abc"));
    assert!(!same_text("abc", "abd"));
    assert!(!same_text("abc", "ab"));
    assert_eq!(to_chars("aé"), vec!['a', 'é']);
}

#[test]
fn string_literal_shape() {
    let s = final_string_value("say \"hi\"\r\nnext\rline\n");
    assert_eq!(s, "\"say \\\"hi\\\"\\nnext\rline\\n\"");
    assert!(s.starts_with('"') && s.ends_with('"'));
    assert!(!s.contains('\n'));
    let inner: Vec<char> = s.chars().collect();
    for i in 1..inner.len() - 1 {
        if inner[i] == '"' {
            assert_eq!(inner[i - 1], '\\');
        }
    }
    assert_eq!(final_string_value(""), "\"\"");
    assert_eq!(final_string_value("a\rb"), "\"a\rb\"");
}
