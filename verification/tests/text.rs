use radeon_smi::number::{decimal, hex, is_only_digits, parse_number, signed_decimal};
use radeon_smi::order::text_not_behind;
use radeon_smi::text::{
    capitals, control, find, first_word, from_chars, from_digit, join, joined_pair, left, lines,
    repeat, replace, right, same, same_in_capitals, space, split, starts_with, strip_prefix,
    to_chars, to_digit, trim,
};

fn every_char() -> Vec<char> {
    let mut all: Vec<char> = Vec::new();
    let mut code: u32 = 0;
    while code <= 0x10ffff {
        if let Some(c) = char::from_u32(code) {
            all.push(c);
        }
        code += 1;
    }
    all
}

const SAMPLES: [&str; 14] = [
    "",
    "a",
    "a\n",
    "\n",
    "\n\n",
    "a\r\nb",
    "a\r",
    "a\r\r\n",
    "  two words \t",
    "\u{a0}wide\u{3000}",
    "x,y,,z",
    ",",
    "f\u{fc}r \u{1f600} \u{2014}",
    "card0-HDMI-A-1",
];

#[test]
fn space_is_unicode_white_space() {
    for c in every_char() {
        assert_eq!(space(c), c.is_whitespace(), "{c:?}");
    }
}

#[test]
fn control_is_the_category_of_control_codes() {
    for c in every_char() {
        assert_eq!(control(c), c.is_control(), "{c:?}");
    }
}

#[test]
fn digits_count_as_in_every_base() {
    for c in every_char() {
        assert_eq!(to_digit(c), c.to_digit(36).unwrap_or(36), "{c:?}");
    }
    for d in 0..36_u8 {
        assert_eq!(from_digit(d, false), char::from_digit(d as u32, 36).unwrap());
        assert_eq!(to_digit(from_digit(d, true)), d as u32);
    }
    assert_eq!(from_digit(11, true), 'B');
}

#[test]
fn texts_are_taken_apart_like_strings() {
    for s in SAMPLES {
        let all: Vec<char> = s.chars().collect();
        assert_eq!(to_chars(s), all);
        assert_eq!(from_chars(&all, 0, all.len()), s);
        assert_eq!(lines(s), s.lines().collect::<Vec<_>>(), "{s:?}");
        assert_eq!(split(s, ','), s.split(',').collect::<Vec<_>>(), "{s:?}");
        assert_eq!(trim(s), s.trim(), "{s:?}");
        assert_eq!(
            first_word(s),
            s.split_whitespace().next().map(str::to_owned),
            "{s:?}"
        );
        assert_eq!(capitals(s), s.to_ascii_uppercase());
        assert_eq!(replace(s, ',', "=="), s.replace(',', "=="));
        for other in SAMPLES {
            assert_eq!(same(s, other), s == other);
            assert_eq!(starts_with(s, other), s.starts_with(other));
            assert_eq!(
                strip_prefix(s, other),
                s.strip_prefix(other).map(str::to_owned)
            );
            assert_eq!(same_in_capitals(s, other), s.eq_ignore_ascii_case(other));
            assert_eq!(text_not_behind(s, other), s <= other, "{s:?} {other:?}");
            assert_eq!(joined_pair(s, other), format!("{s}{other}"));
        }
    }
    assert!(same_in_capitals("0000:0A:00.0", "0000:0a:00.0"));
    assert!(!same_in_capitals("\u{e4}", "\u{c4}"));
}

#[test]
fn pieces_make_up_the_text() {
    for s in SAMPLES {
        let parts = split(s, ',');
        assert_eq!(join(&parts, ","), s);
        assert!(parts.iter().all(|part| !part.contains(',')));
    }
}

#[test]
fn trimming_is_final() {
    for s in SAMPLES {
        assert_eq!(trim(trim(s).as_str()), trim(s));
    }
}

#[test]
fn characters_are_found_where_they_first_stand() {
    let all: Vec<char> = "0000:01:00.0".chars().collect();
    assert_eq!(find(&all, ':'), 4);
    assert_eq!(find(&all, 'x'), all.len());
    assert_eq!(from_chars(&all, 5, 7), "01");
}

#[test]
fn columns_are_filled_with_spaces() {
    assert_eq!(left("ab", 4), "ab  ");
    assert_eq!(right("ab", 4), "  ab");
    assert_eq!(left("abcde", 4), "abcde");
    assert_eq!(right("\u{2014}", 3), "  \u{2014}");
    assert_eq!(repeat('-', 3), "---");
    assert_eq!(repeat('-', 0), "");
}

#[test]
fn texts_are_joined_with_separators() {
    let parts = vec!["a".to_owned(), String::new(), "c".to_owned()];
    assert_eq!(join(&parts, ", "), "a, , c");
    assert_eq!(join(&parts[..1], ", "), "a");
    assert_eq!(join(&[], ", "), "");
}

#[test]
fn texts_stand_in_the_order_of_their_bytes() {
    let samples = ["\u{ffff}", "\u{10000}", "z", "\u{e9}", "0000:01", "0000:01:00.0", "0001"];
    for a in samples {
        for b in samples {
            assert_eq!(text_not_behind(a, b), a.as_bytes() <= b.as_bytes(), "{a:?} {b:?}");
        }
    }
}

#[test]
fn numbers_are_read_like_integers() {
    let samples = [
        "", "+", "-", "+1", "-1", "-0", "0", "007", "255", "256", "65535", "65536", "4294967295",
        "4294967296", "18446744073709551615", "18446744073709551616", "99999999999999999999999",
        "1 ", " 1", "1_0", "ff", "FF", "0xff", "g", "\u{661}",
    ];
    for s in samples {
        assert_eq!(parse_number(s, 10, u64::MAX), s.parse::<u64>().ok(), "{s:?}");
        assert_eq!(
            parse_number(s, 10, u32::MAX as u64),
            s.parse::<u32>().ok().map(u64::from),
            "{s:?}"
        );
        assert_eq!(
            parse_number(s, 16, u16::MAX as u64),
            u16::from_str_radix(s, 16).ok().map(u64::from),
            "{s:?}"
        );
        assert_eq!(
            parse_number(s, 16, u32::MAX as u64),
            u32::from_str_radix(s, 16).ok().map(u64::from),
            "{s:?}"
        );
        assert_eq!(is_only_digits(s), s.chars().all(|c| c.is_ascii_digit()));
    }
}

#[test]
fn numbers_are_written_like_integers() {
    for n in [0, 9, 10, 99, 100, 1_048_576, u64::MAX - 1, u64::MAX] {
        assert_eq!(decimal(n), n.to_string());
    }
    for n in [0, -1, 5, -273, i64::MIN, i64::MAX] {
        assert_eq!(signed_decimal(n), n.to_string());
    }
    for n in [0, 1, 0x6613, 0xffff, 0x1_0000, u32::MAX] {
        assert_eq!(hex(n, 8, true), format!("{n:08X}"));
        assert_eq!(hex(n, 8, false), format!("{n:08x}"));
    }
    assert_eq!(hex(0x6613, 4, false), "6613");
    assert_eq!(hex(0x1a, 4, false), "001a");
}

#[test]
fn written_numbers_read_back() {
    for n in [0, 7, 42, 65_536, u64::MAX] {
        assert_eq!(parse_number(decimal(n).as_str(), 10, u64::MAX), Some(n));
    }
    for n in [0, 0xabcd, u32::MAX] {
        assert_eq!(
            parse_number(hex(n, 8, true).as_str(), 16, u32::MAX as u64),
            Some(n as u64)
        );
    }
    assert_eq!(decimal(999).len(), 3);
    assert_eq!(decimal(1_000).len(), 4);
}
