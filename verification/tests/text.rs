use nucleus_agent::text::{
    chars_of, contains, is_white_space, parse_small_number, piece, push_decimal, same, split_lines,
    split_words, starts_with, string_of, strip_prefix, trim,
};

const SAMPLES: [&str; 14] = [
    "",
    " ",
    "\n",
    "\r\n",
    "a",
    "a\nb",
    "a\r\nb\r\n",
    "a\r",
    "a\n\n\rb\n",
    "  two words\t",
    "\u{a0}x\u{3000}y\u{2028}",
    "2: eth0    inet 10.10.1.1/24 brd 10.10.1.255 scope global eth0\n",
    "/a//b/",
    "\u{e9}t\u{e9} = \u{8d8a}",
];

fn strings(parts: Vec<&[char]>) -> Vec<String> {
    parts.into_iter().map(string_of).collect()
}

#[test]
fn white_space_is_that_of_unicode() {
    for n in 0..=0x10FFFFu32 {
        if let Some(c) = char::from_u32(n) {
            assert_eq!(is_white_space(c), c.is_whitespace(), "U+{:04X}", n);
        }
    }
}

#[test]
fn characters_round_trip() {
    for s in SAMPLES {
        assert_eq!(chars_of(s), s.chars().collect::<Vec<char>>());
        assert_eq!(string_of(&chars_of(s)), s);
    }
}

#[test]
fn trimming_agrees_with_std() {
    for s in SAMPLES {
        assert_eq!(string_of(trim(&chars_of(s))), s.trim());
    }
}

#[test]
fn words_agree_with_std() {
    for s in SAMPLES {
        assert_eq!(strings(split_words(&chars_of(s))), s.split_whitespace().collect::<Vec<_>>());
    }
}

#[test]
fn lines_agree_with_std() {
    for s in SAMPLES {
        assert_eq!(strings(split_lines(&chars_of(s))), s.lines().collect::<Vec<_>>());
    }
}

#[test]
fn pieces_agree_with_std() {
    for s in SAMPLES {
        let chars = chars_of(s);
        for k in 0..6 {
            assert_eq!(
                piece(&chars, '/', k).map(string_of),
                s.split('/').nth(k).map(|p| p.to_string())
            );
        }
    }
}

#[test]
fn prefixes() {
    let chars = chars_of("method=auto");
    assert!(starts_with(&chars, "method="));
    assert!(starts_with(&chars, ""));
    assert!(!starts_with(&chars, "method=auto!"));
    assert!(!starts_with(&chars, "Method"));
    assert_eq!(strip_prefix(&chars, "method=").map(string_of), Some("auto".to_string()));
    assert_eq!(strip_prefix(&chars, "id="), None);
    assert!(same(&chars, "method=auto"));
    assert!(!same(&chars, "method="));
    assert!(contains(&chars, '='));
    assert!(!contains(&chars, '/'));
}

#[test]
fn decimals_agree_with_std() {
    for n in [0, 7, 9, 10, 99, 100, 65535, 4294967295, u64::MAX] {
        let mut s = "n=".to_string();
        push_decimal(&mut s, n);
        assert_eq!(s, format!("n={}", n));
    }
}

#[test]
fn small_numbers_agree_with_std() {
    for s in [
        "", "+", "-", "0", "00", "24", "+24", "++1", "-0", "-1", "255", "256", "0255", "1000",
        "99999999999999999999999", "000000000000000000000024", "2 4", "2a", " 24", "\u{665}",
    ] {
        assert_eq!(parse_small_number(&chars_of(s)), s.parse::<u8>().ok(), "{:?}", s);
    }
}
