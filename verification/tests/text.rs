use rev_launcher::scan::is_whitespace;
use rev_launcher::text::{chars_of, is_ascii_digit, string_of};
use rev_launcher::version::Version;

fn chars(text: &str) -> Vec<char> {
    text.chars().collect()
}

#[test]
fn is_whitespace_agrees_with_std_on_every_character() {
    for code in 0..=0x10ffffu32 {
        if let Some(c) = char::from_u32(code) {
            assert_eq!(is_whitespace(c), c.is_whitespace(), "{:x}", code);
        }
    }
}

#[test]
fn is_ascii_digit_agrees_with_std_on_every_character() {
    for code in 0..=0x10ffffu32 {
        if let Some(c) = char::from_u32(code) {
            assert_eq!(is_ascii_digit(c), c.is_ascii_digit(), "{:x}", code);
        }
    }
}

#[test]
fn chars_of_and_string_of_are_inverse() {
    for text in ["", "a", "17.0.10", "é\u{3000}x", "\"q\""] {
        assert_eq!(chars_of(text), chars(text));
        assert_eq!(string_of(&chars(text)), text);
    }
}

#[test]
fn suffix_is_trimmed_as_std_trims() {
    let rests =
        ["", " ", "a", "  a b  ", "\t\u{a0}x\u{2003}\n", "\u{3000}", "x \u{85}", "\u{200b}a ", "-rc1\r\n"];
    for rest in rests {
        let text = format!("1.2.3{}", rest);
        let parsed = Version::from_string(&text, None).unwrap();
        let trimmed = rest.trim();
        let expected = if trimmed.is_empty() { None } else { Some(trimmed.to_string()) };
        assert_eq!(parsed.pre_release, expected, "{:?}", rest);
    }
}
