use dms_name_matching::text::{
    collapse_whitespace_chars, is_white_space_char, prefix_before_char, trim_chars, utf8_longer_than, words_of,
};

fn chars(s: &str) -> Vec<char> {
    s.chars().collect()
}

#[test]
fn whitespace_set_is_that_of_char_is_whitespace() {
    for code in 0u32..=0x10FFFF {
        if let Some(c) = char::from_u32(code) {
            assert_eq!(is_white_space_char(c), c.is_whitespace(), "U+{code:04X}");
        }
    }
}

#[test]
fn trims_like_str_trim() {
    for text in ["  a b  ", "\u{3000}x\u{85}", "", "   ", "nospace", "\u{a0}\u{2029}y"] {
        assert_eq!(trim_chars(&chars(text)), chars(text.trim()));
    }
}

#[test]
fn words_like_split_whitespace() {
    for text in [" a  bc\td ", "", "  ", "one", "\u{2003}x\u{2003}\u{2003}y\u{2003}"] {
        let expected: Vec<Vec<char>> = text.split_whitespace().map(chars).collect();
        assert_eq!(words_of(&chars(text)), expected);
        let joined = text.split_whitespace().collect::<Vec<_>>().join(" ");
        assert_eq!(collapse_whitespace_chars(&chars(text)), chars(&joined));
    }
}

#[test]
fn prefix_before_like_split() {
    for text in ["/a?b?c", "/path", "?", ""] {
        assert_eq!(prefix_before_char(&chars(text), '?'), chars(text.split('?').next().unwrap()));
    }
}

#[test]
fn utf8_length_counts_encoded_bytes() {
    for text in ["", "abc", "é", "Peñalosa", "日本語", "😀x", "aé日😀"] {
        for limit in 0..20usize {
            assert_eq!(utf8_longer_than(&chars(text), limit), text.len() > limit, "{text} {limit}");
        }
    }
}
