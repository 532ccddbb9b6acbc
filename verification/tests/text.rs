use zrunner::text::{
    blank, decimal_of, lines_of, lowercase, parse_signed, parse_unsigned, split_at_char,
    starts_with, strip_prefix, take_before, take_behind_last, trim, white_space, words_of,
    writes_more_than,
};

const SAMPLES: [&str; 12] = [
    "",
    " ",
    "a",
    " a  b ",
    "one\ttwo\nthree\r\n",
    "\u{a0}x\u{2003}y\u{3000}",
    "a\r\r\nb\n\nc\r",
    "\n",
    "a-b--c-",
    "-",
    "job-\u{e9}\u{4e2d}",
    "\u{b}\u{c}x\u{85}y\u{1680}z\u{200b}",
];

#[test]
fn texts_are_cut_as_std_cuts_them() {
    for text in SAMPLES {
        assert_eq!(words_of(text), text.split_whitespace().collect::<Vec<_>>(), "{text:?}");
        assert_eq!(lines_of(text), text.lines().collect::<Vec<_>>(), "{text:?}");
        assert_eq!(trim(text), text.trim(), "{text:?}");
        assert_eq!(blank(text), text.trim().is_empty(), "{text:?}");
        assert_eq!(split_at_char(text, '-'), text.split('-').collect::<Vec<_>>(), "{text:?}");
        assert_eq!(
            take_before(text, '-'),
            text.split_once('-').map_or(text, |pair| pair.0),
            "{text:?}"
        );
        assert_eq!(lowercase(text), text.to_ascii_lowercase(), "{text:?}");
        for prefix in SAMPLES {
            assert_eq!(starts_with(text, prefix), text.starts_with(prefix));
            assert_eq!(
                strip_prefix(text, prefix).as_deref(),
                text.strip_prefix(prefix)
            );
        }
        for pattern in ["-", "--", "\r\n", "b", "a-"] {
            assert_eq!(
                take_behind_last(text, pattern).as_deref(),
                text.rsplit_once(pattern).map(|pair| pair.1),
                "{text:?} {pattern:?}"
            );
        }
    }
}

#[test]
fn white_space_is_that_of_unicode() {
    for code in 0..0x1_1000u32 {
        if let Some(ch) = char::from_u32(code) {
            assert_eq!(white_space(ch), ch.is_whitespace(), "{code:x}");
        }
    }
}

#[test]
fn numbers_are_read_as_std_reads_them() {
    for text in [
        "0", "7", "007", "65535", "65536", "+5", "-5", "+", "-", "", " 5", "5 ", "4294967295",
        "4294967296", "18446744073709551615", "18446744073709551616", "+0", "-0", "--1", "\u{0665}",
        "2147483647", "2147483648", "-2147483648", "-2147483649", "1_000", "0x10",
        "00000000000000000000000000000000012",
    ] {
        assert_eq!(parse_unsigned(text, u64::MAX), text.parse::<u64>().ok(), "{text:?}");
        assert_eq!(
            parse_unsigned(text, u64::from(u16::MAX)),
            text.parse::<u16>().ok().map(u64::from),
            "{text:?}"
        );
        assert_eq!(parse_signed(text), text.parse::<i32>().ok(), "{text:?}");
    }
}

#[test]
fn large_numbers_are_still_larger() {
    assert!(writes_more_than("5", 4));
    assert!(!writes_more_than("4", 4));
    assert!(writes_more_than("99999999999999999999999999", 65535));
    assert!(!writes_more_than("many", 4));
    assert!(!writes_more_than("-5", 4));
}

#[test]
fn numbers_are_written_in_decimal() {
    for number in [0, 7, 10, 99, 100, 12288, u64::MAX] {
        assert_eq!(decimal_of(number), number.to_string());
        assert_eq!(parse_unsigned(&decimal_of(number), u64::MAX), Some(number));
    }
}
