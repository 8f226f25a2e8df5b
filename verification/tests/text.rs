use niri_groom::text::{char_is_control, char_is_whitespace, i64_text, lines, split_chars, trim_chars, u64_text};

fn chars(s: &str) -> Vec<char> {
    s.chars().collect()
}

fn strings(v: Vec<Vec<char>>) -> Vec<String> {
    v.into_iter().map(|l| l.into_iter().collect()).collect()
}

#[test]
fn lines_split_like_str_lines() {
    for text in ["", "a", "a\n", "\n", "a\r\nb", "a\n\nb\n", "x\r", "x\r\n\r\n", "a\rb\n"] {
        let expected: Vec<String> = text.lines().map(str::to_string).collect();
        assert_eq!(strings(lines(&chars(text))), expected, "{text:?}");
    }
}

#[test]
fn pieces_split_like_str_split() {
    for text in ["", "a", "a\tb", "\t", "a\t\tb\t"] {
        let expected: Vec<String> = text.split('\t').map(str::to_string).collect();
        assert_eq!(strings(split_chars(&chars(text), '\t')), expected, "{text:?}");
    }
}

#[test]
fn trimming_matches_str_trim() {
    for text in ["", "  ", " a b ", "\u{3000}x\t\n", "ab"] {
        let t: String = trim_chars(&chars(text)).into_iter().collect();
        assert_eq!(t, text.trim(), "{text:?}");
    }
}

#[test]
fn whitespace_and_controls_agree_with_std_on_every_char() {
    for u in 0u32..=0x10FFFF {
        if let Some(c) = char::from_u32(u) {
            assert_eq!(char_is_whitespace(c), c.is_whitespace(), "U+{u:04X}");
            assert_eq!(char_is_control(c), c.is_control(), "U+{u:04X}");
        }
    }
}

#[test]
fn numbers_render_as_display_writes_them() {
    for i in [0i64, 7, 9, 10, 42, 100, -1, -10, -305, i64::MAX, i64::MIN] {
        assert_eq!(i64_text(i), i.to_string());
    }
    for i in [0u64, 5, 10, 99, 1000, u64::MAX] {
        assert_eq!(u64_text(i), i.to_string());
    }
    assert_eq!(i64_text(-42), "-42");
    assert_eq!(u64_text(1234), "1234");
}
