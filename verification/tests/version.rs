use rev_launcher::version::{ParseError, Version};

fn version(
    major: u32,
    minor: Option<u32>,
    patch: Option<u32>,
    pre_release: Option<&str>,
) -> Version {
    Version { major, minor, patch, pre_release: pre_release.map(|s| s.to_string()) }
}

#[test]
fn display_test() {
    let version = Version {
        major: 1,
        minor: Some(0),
        patch: Some(0),
        pre_release: Some("alpha".to_string()),
    };
    assert_eq!(version.to_string(), "1.0.0 alpha");

    let version = Version {
        major: 1,
        minor: Some(0),
        patch: None,
        pre_release: Some("alpha".to_string()),
    };
    assert_eq!(version.to_string(), "1.0 alpha");

    let version = Version {
        major: 1,
        minor: None,
        patch: Some(0),
        pre_release: Some("alpha".to_string()),
    };
    assert_eq!(version.to_string(), "1 alpha");

    let version = Version { major: 1, minor: Some(0), patch: Some(2), pre_release: None };
    assert_eq!(version.to_string(), "1.0.2");
}

#[test]
fn ord_test() {
    let version1 = Version {
        major: 1,
        minor: Some(0),
        patch: Some(0),
        pre_release: Some("alpha".to_string()),
    };
    let version2 = Version { major: 1, minor: Some(0), patch: Some(0), pre_release: None };
    assert!(version1 == version2);

    let version1 = Version {
        major: 1,
        minor: Some(0),
        patch: Some(0),
        pre_release: Some("alpha".to_string()),
    };
    let version2 = Version { major: 1, minor: None, patch: Some(0), pre_release: None };
    assert!(version1 > version2);

    let version1 = Version {
        major: 1,
        minor: Some(0),
        patch: Some(0),
        pre_release: Some("alpha".to_string()),
    };
    let version2 = Version { major: 1, minor: Some(0), patch: Some(10), pre_release: None };
    assert!(version1 < version2);
}

#[test]
fn from_string_test() {
    let version = Version { major: 1, minor: Some(0), patch: Some(10), pre_release: None };
    let version_str = version.to_string();
    assert!(Version::from_string(&version_str, None).unwrap() == version);

    let version = Version {
        major: 1,
        minor: Some(0),
        patch: Some(10),
        pre_release: Some("s".to_string()),
    };
    let version_str = "sad 1 sda0 d10   s".to_string();
    assert!(Version::from_string(&version_str, None).unwrap() == version);

    let version = Version {
        major: 1,
        minor: Some(0),
        patch: Some(10),
        pre_release: Some("s".to_string()),
    };
    let version_str = "sad 1 sda0 d10  \"  s".to_string();
    assert!(Version::from_string(&version_str, Some(&vec!['"'])).unwrap() == version);

    let version = Version {
        major: 1,
        minor: Some(0),
        patch: Some(10),
        pre_release: Some("\"  s".to_string()),
    };
    let version_str = "sad 1 sda0 d10  \"  s   ".to_string();
    assert!(Version::from_string(&version_str, None).unwrap() == version);

    let version = Version {
        major: 17,
        minor: Some(0),
        patch: Some(10),
        pre_release: Some("2024-01-16 LTS".to_string()),
    };
    let version_str = "openjdk version \"17.0.10\" 2024-01-16 LTS".to_string();
    assert!(Version::from_string(&version_str, Some(&vec!['"'])).unwrap() == version);
}

#[test]
fn from_string_keeps_the_suffix_exactly() {
    let text = "openjdk version \"17.0.10\" 2024-01-16 LTS".to_string();
    let parsed = Version::from_string(&text, Some(&vec!['"'])).unwrap();
    assert_eq!(parsed.major, 17);
    assert_eq!(parsed.minor, Some(0));
    assert_eq!(parsed.patch, Some(10));
    assert_eq!(parsed.pre_release, Some("2024-01-16 LTS".to_string()));

    let text = "sad 1 sda0 d10  \"  s   ".to_string();
    let parsed = Version::from_string(&text, None).unwrap();
    assert_eq!(parsed.pre_release, Some("\"  s".to_string()));
}

#[test]
fn to_string_shows_what_is_there() {
    assert_eq!(version(0, None, None, None).to_string(), "0");
    assert_eq!(version(4294967295, Some(0), None, None).to_string(), "4294967295.0");
    assert_eq!(version(1, Some(0), Some(0), Some("")).to_string(), "1.0.0 ");
    assert_eq!(version(1, None, None, Some(" x ")).to_string(), "1  x ");
    assert_eq!(version(10, Some(200), Some(3000), None).to_string(), "10.200.3000");
}

#[test]
fn from_string_without_digits_fails() {
    assert_eq!(
        Version::from_string(&"no number here".to_string(), None).unwrap_err(),
        ParseError::NoNumericComponent
    );
    assert_eq!(
        Version::from_string(&"".to_string(), None).unwrap_err(),
        ParseError::NoNumericComponent
    );
    assert_eq!(
        Version::from_string(&"123".to_string(), Some(&vec!['1', '2', '3'])).unwrap_err(),
        ParseError::NoNumericComponent
    );
}

#[test]
fn from_string_with_too_large_a_number_fails() {
    assert_eq!(
        Version::from_string(&"4294967296".to_string(), None).unwrap_err(),
        ParseError::ComponentOverflow
    );
    assert_eq!(
        Version::from_string(&"1.2.99999999999".to_string(), None).unwrap_err(),
        ParseError::ComponentOverflow
    );
    let largest = Version::from_string(&"4294967295.0004294967295".to_string(), None).unwrap();
    assert_eq!(largest.major, u32::MAX);
    assert_eq!(largest.minor, Some(u32::MAX));
    assert_eq!(largest.patch, None);
}

#[test]
fn from_string_with_fewer_numbers_has_no_suffix() {
    let one = Version::from_string(&"v7 final".to_string(), None).unwrap();
    assert_eq!(one.major, 7);
    assert_eq!(one.minor, None);
    assert_eq!(one.patch, None);
    assert_eq!(one.pre_release, None);

    let two = Version::from_string(&"1.8 beta".to_string(), None).unwrap();
    assert_eq!(two.major, 1);
    assert_eq!(two.minor, Some(8));
    assert_eq!(two.patch, None);
    assert_eq!(two.pre_release, None);
}

#[test]
fn from_string_puts_later_digits_in_the_suffix() {
    let parsed = Version::from_string(&"1.8.0_281".to_string(), None).unwrap();
    assert_eq!(parsed.major, 1);
    assert_eq!(parsed.minor, Some(8));
    assert_eq!(parsed.patch, Some(0));
    assert_eq!(parsed.pre_release, Some("_281".to_string()));

    let parsed = Version::from_string(&"1.2.3 \u{a0}\t".to_string(), None).unwrap();
    assert_eq!(parsed.pre_release, None);
}

#[test]
fn display_then_parse_gives_the_numbers_back() {
    for (a, b, c) in [(0u32, 0u32, 0u32), (1, 2, 3), (u32::MAX, 10, 0), (17, 0, 10)] {
        for suffix in [None, Some("alpha"), Some("9 lives"), Some("")] {
            let shown = version(a, Some(b), Some(c), suffix);
            let back = Version::from_string(&shown.to_string(), None).unwrap();
            assert!(back == shown);
            assert_eq!((back.major, back.minor, back.patch), (a, Some(b), Some(c)));
        }
    }
}

#[test]
fn order_is_total_and_passes_over_the_suffix() {
    let versions = [
        version(1, None, None, None),
        version(1, None, Some(5), Some("x")),
        version(1, Some(0), None, None),
        version(1, Some(0), Some(0), Some("alpha")),
        version(1, Some(0), Some(10), None),
        version(2, None, None, Some("z")),
    ];
    for (i, a) in versions.iter().enumerate() {
        for (j, b) in versions.iter().enumerate() {
            assert_eq!(a.cmp(b), i.cmp(&j));
            assert_eq!(a.partial_cmp(b), Some(i.cmp(&j)));
            assert_eq!(a == b, i == j);
        }
    }
    assert_eq!(
        version(3, Some(1), Some(4), Some("a")).cmp(&version(3, Some(1), Some(4), Some("b"))),
        std::cmp::Ordering::Equal
    );
}

/// The same reading in one pass over the characters, slot by slot.
fn one_pass(s: &str, ignore: &[char]) -> Option<(u32, Option<u32>, Option<u32>, Option<String>)> {
    let mut index = 0;
    let mut start = false;
    let mut end = false;
    let mut v: Vec<u32> = vec![];
    let mut end_str = String::new();
    for ch in s.chars() {
        if ignore.contains(&ch) {
            continue;
        }
        if end {
            end_str.push(ch);
            continue;
        }
        if ch.is_ascii_digit() {
            if !start {
                start = true;
                v.push(0);
            }
            v[index] = v[index].checked_mul(10)?.checked_add(ch as u32 - '0' as u32)?;
        } else {
            if start {
                index += 1;
                start = false;
            }
            if index >= 3 {
                end = true;
                end_str.push(ch);
            }
        }
    }
    let end_str = end_str.trim();
    let suffix = if end_str.is_empty() { None } else { Some(end_str.to_string()) };
    if v.is_empty() {
        return None;
    }
    Some((v[0], v.get(1).copied(), v.get(2).copied(), suffix))
}

#[test]
fn from_string_agrees_with_a_reading_in_one_pass() {
    let alphabet = ['0', '1', '9', '.', ' ', '"', 'a', '-', '\t', '_', '7', '\u{a0}'];
    let mut state: u64 = 0x2545_f491_4f6c_dd1d;
    for round in 0..20000 {
        let mut text = String::new();
        state ^= state << 13;
        state ^= state >> 7;
        state ^= state << 17;
        let len = (state % 14) as usize;
        let mut bits = state / 14;
        for _ in 0..len {
            text.push(alphabet[(bits % 12) as usize]);
            bits /= 12;
        }
        let ignore: Vec<char> = match round % 3 {
            0 => vec![],
            1 => vec!['"'],
            _ => vec!['.', '9'],
        };
        let got = if round % 3 == 0 {
            Version::from_string(&text, None)
        } else {
            Version::from_string(&text, Some(&ignore))
        };
        let got = got.ok().map(|v| (v.major, v.minor, v.patch, v.pre_release));
        assert_eq!(got, one_pass(&text, &ignore), "{:?}", text);
    }
}
