use zhuge_netdiag::text::{
    contains, decimal, join, pad, parse_unsigned, same, second_word_of_first_line, trim, zero_pad,
};

#[test]
fn numerals_are_written() {
    for n in [0u128, 7, 10, 99, 100, 65535, u64::MAX as u128, u128::MAX] {
        assert_eq!(decimal(n), n.to_string());
    }
}

#[test]
fn numerals_are_read_back() {
    for n in [0u64, 7, 10, 255, 256, 65535, 4294967295] {
        assert_eq!(parse_unsigned(decimal(n as u128).as_str(), 4294967295), Some(n));
    }
}

#[test]
fn numerals_are_read_as_the_standard_library_does() {
    for t in [
        "0", "00", "7", "+7", "-7", "", "+", "++1", "255", "256", "0255", "12a", " 1", "1 ", "1.0",
        "99999999999999999999999999", "٣",
    ] {
        assert_eq!(parse_unsigned(t, 255), t.parse::<u8>().ok().map(|n| n as u64), "{}", t);
        assert_eq!(
            parse_unsigned(t, 4294967295),
            t.parse::<u32>().ok().map(|n| n as u64),
            "{}",
            t
        );
    }
    assert_eq!(parse_unsigned("4294967295", 4294967295), Some(4294967295));
    assert_eq!(parse_unsigned("4294967296", 4294967295), None);
}

#[test]
fn white_space_is_trimmed() {
    for t in ["", " ", "  a b  ", "\t\r\nx\u{3000}", "\u{a0}中文\u{2003}", "plain", "\u{200b}x"] {
        assert_eq!(trim(t), t.trim());
    }
}

#[test]
fn the_second_word_of_the_first_line_is_found() {
    for t in [
        "HTTP/1.1 200 OK\r\nX: y\r\n",
        "HTTP/1.1 302\n",
        "HTTP/1.1",
        "",
        "\nHTTP/1.1 200 OK",
        "  a   b c\r\n",
        "a\u{3000}b",
        "one\ntwo three",
        "x \r\n",
    ] {
        let expected =
            t.lines().next().and_then(|l| l.split_whitespace().nth(1)).map(|w| w.to_string());
        assert_eq!(second_word_of_first_line(t), expected, "{:?}", t);
    }
}

#[test]
fn texts_are_searched() {
    assert!(contains("Microsoft Connect Test", "Connect"));
    assert!(contains("abc", ""));
    assert!(contains("aab", "ab"));
    assert!(contains("中文内容", "文内"));
    assert!(!contains("Success", "success"));
    assert!(!contains("ab", "abc"));
}

#[test]
fn texts_are_compared() {
    assert!(same("中文", "中文"));
    assert!(!same("中文", "中"));
    assert!(!same("a", "b"));
    assert!(same("", ""));
}

#[test]
fn texts_are_padded_by_characters() {
    assert_eq!(pad("跳数".to_string(), 4), format!("{:<4}", "跳数"));
    assert_eq!(pad("12345".to_string(), 4), "12345");
    assert_eq!(pad("7".to_string(), 4), format!("{:<4}", 7));
    assert_eq!(zero_pad(7, 2), "07");
    assert_eq!(zero_pad(123, 2), "123");
    assert_eq!(zero_pad(2024, 4), "2024");
    assert_eq!(zero_pad(5, 4), format!("{:04}", 5));
    assert_eq!(zero_pad(0, 0), "0");
}

#[test]
fn texts_are_joined() {
    let v = vec!["甲".to_string(), "乙".to_string(), "丙".to_string()];
    assert_eq!(join(&v, "、"), "甲、乙、丙");
    assert_eq!(join(&v[..1].to_vec(), "、"), "甲");
    assert_eq!(join(&vec![], "、"), "");
}
