use gitnapped::text::{
    char_is_whitespace, chars_of, find_char, parse_decimal, parse_i64, split_lines, split_ranges,
    str_eq, string_of, trim_range, word_ranges,
};

fn cut(text: &str, ranges: &[(usize, usize)]) -> Vec<String> {
    let chars: Vec<char> = text.chars().collect();
    ranges.iter().map(|r| chars[r.0..r.1].iter().collect()).collect()
}

#[test]
fn lines_end_at_line_feeds() {
    assert_eq!(split_lines(""), Vec::<String>::new());
    assert_eq!(split_lines("a"), vec!["a"]);
    assert_eq!(split_lines("a\nb\n"), vec!["a", "b"]);
    assert_eq!(split_lines("a\n\nb"), vec!["a", "", "b"]);
    assert_eq!(split_lines("\n"), vec![""]);
    assert_eq!(split_lines("a\r\nb\r"), vec!["a", "b\r"]);
    assert_eq!(split_lines("a\r\r\n"), vec!["a\r"]);
    assert_eq!(split_lines("\r\n\r\n"), vec!["", ""]);
}

#[test]
fn lines_agree_with_the_standard_library() {
    for text in ["", "x", "x\n", "\n\n", "a\r\nb", "a\rb\n", "é\nü\r\n", "tail\r", "\r", "\r\n"] {
        let expected: Vec<String> = text.lines().map(String::from).collect();
        assert_eq!(split_lines(text), expected, "{:?}", text);
    }
}

#[test]
fn chars_and_strings_convert_back_and_forth() {
    let chars = chars_of("héllo");
    assert_eq!(chars, vec!['h', 'é', 'l', 'l', 'o']);
    assert_eq!(string_of(&chars, 1, 4), "éll");
    assert_eq!(string_of(&chars, 2, 2), "");
    assert_eq!(chars_of(""), Vec::<char>::new());
}

#[test]
fn find_char_gives_the_first_position_or_the_end() {
    let chars = chars_of("a.b.c");
    assert_eq!(find_char(&chars, 0, 5, '.'), 1);
    assert_eq!(find_char(&chars, 2, 5, '.'), 3);
    assert_eq!(find_char(&chars, 4, 5, '.'), 5);
    assert_eq!(find_char(&chars, 0, 1, '.'), 1);
    assert_eq!(find_char(&chars, 3, 3, '.'), 3);
}

#[test]
fn trimming_agrees_with_the_standard_library() {
    for text in ["", " ", "a", "  a b  ", "\t\n x\u{a0}\u{2003}", "\u{3000}y\u{85}", "\u{200b}z "] {
        let chars = chars_of(text);
        let (from, to) = trim_range(&chars, 0, chars.len());
        assert_eq!(string_of(&chars, from, to), text.trim(), "{:?}", text);
    }
}

#[test]
fn white_space_agrees_with_the_standard_library() {
    for code in 0u32..0x3100 {
        if let Some(c) = char::from_u32(code) {
            assert_eq!(char_is_whitespace(c), c.is_whitespace(), "{:x}", code);
        }
    }
    assert!(!char_is_whitespace('\u{10ffff}'));
}

#[test]
fn splitting_agrees_with_the_standard_library() {
    for text in ["", "a", "[", "a[b", "[[", "a[b[c", "x[y]z[", "[x]"] {
        let chars = chars_of(text);
        let ranges = split_ranges(&chars, 0, chars.len(), '[');
        let expected: Vec<String> = text.split('[').map(String::from).collect();
        assert_eq!(cut(text, &ranges), expected, "{:?}", text);
    }
}

#[test]
fn words_agree_with_the_standard_library() {
    for text in ["", " ", "a", " a  b ", "one\ttwo\nthree", "\u{a0}x\u{2003}y", "abc 2024 rest of it"] {
        let chars = chars_of(text);
        let ranges = word_ranges(&chars, 0, chars.len());
        let expected: Vec<String> = text.split_whitespace().map(String::from).collect();
        assert_eq!(cut(text, &ranges), expected, "{:?}", text);
    }
}

#[test]
fn decimal_numbers_agree_with_the_standard_library() {
    for text in ["", "0", "7", "+7", "-7", "007", "4294967295", "4294967296", "1a", "+", "++1", " 1", "１"] {
        let chars = chars_of(text);
        let got = parse_decimal(&chars, 0, chars.len(), u32::MAX as u64);
        let expected = text.parse::<u32>().ok().map(|v| v as u64);
        assert_eq!(got, expected, "{:?}", text);
    }
}

#[test]
fn signed_numbers_agree_with_the_standard_library() {
    for text in [
        "", "0", "-0", "+0", "42", "-42", "+42", "-", "+", "+-1", "-+1", "--1",
        "9223372036854775807", "9223372036854775808", "-9223372036854775808",
        "-9223372036854775809", "18446744073709551616", "1 ", "0x10",
    ] {
        assert_eq!(parse_i64(text), text.parse::<i64>().ok(), "{:?}", text);
    }
}

#[test]
fn texts_are_equal_when_their_characters_are() {
    assert!(str_eq("", ""));
    assert!(str_eq("abc", "abc"));
    assert!(!str_eq("abc", "abd"));
    assert!(!str_eq("abc", "ab"));
}
