use log_aggregator::decimal::{digit_count, parse_unsigned_slice, push_decimal, push_zero_padded};
use log_aggregator::tally::leader;
use log_aggregator::text::{
    chars_of, count_leading, count_trailing, joined, push_chars, spells, split_slice,
    split_whitespace_slice, splitn_slice, string_of, to_uppercase, trim_chars, whitespace,
    CharClass,
};

const SAMPLES: [&str; 24] = [
    "",
    " ",
    "   ",
    "a",
    " a",
    "a ",
    "  a  b  ",
    "2024-01-15 10:23:45 [INFO] app: Started successfully",
    "\t\ttabbed\tline\n",
    "\u{a0}no\u{a0}break\u{a0}",
    "\u{2003}em\u{2003}space\u{3000}",
    "\u{200b}zero\u{200b}width\u{200b}",
    "\u{85}next\u{85}line\u{1680}",
    "\u{2028}line\u{2029}separators\u{202f}\u{205f}",
    "\u{180e}not\u{180e}space",
    "a-b-c",
    "-a--b-",
    "---",
    "::",
    "key: value: more",
    "[[x]]",
    "][",
    "caf\u{e9} \u{1f600} na\u{ef}ve",
    " \u{feff} ",
];

fn text(cs: &[char]) -> String {
    cs.iter().collect()
}

fn texts(pieces: Vec<&[char]>) -> Vec<String> {
    pieces.into_iter().map(text).collect()
}

#[test]
fn whitespace_is_the_unicode_property() {
    for code in 0..=0x10FFFFu32 {
        if let Some(c) = char::from_u32(code) {
            assert_eq!(whitespace(c), c.is_whitespace());
            assert_eq!(CharClass::Whitespace.contains(c), c.is_whitespace());
            assert_eq!(CharClass::Visible.contains(c), !c.is_whitespace());
        }
    }
}

#[test]
fn classes_hold_what_they_say() {
    assert!(CharClass::Bracket.contains('['));
    assert!(CharClass::Bracket.contains(']'));
    assert!(!CharClass::Bracket.contains('('));
    assert!(!CharClass::Bracket.contains(' '));
    assert!(CharClass::Except(':').contains('a'));
    assert!(!CharClass::Except(':').contains(':'));
}

#[test]
fn characters_and_strings_convert_both_ways() {
    for sample in SAMPLES {
        let cs = chars_of(sample);
        assert_eq!(cs, sample.chars().collect::<Vec<char>>());
        assert_eq!(string_of(&cs), sample);
        let mut out = String::from(">> ");
        push_chars(&mut out, &cs);
        assert_eq!(out, format!(">> {}", sample));
    }
}

#[test]
fn trimming_matches_std() {
    for sample in SAMPLES {
        let cs = chars_of(sample);
        assert_eq!(text(trim_chars(&cs, CharClass::Whitespace)), sample.trim());
        assert_eq!(
            text(trim_chars(&cs, CharClass::Bracket)),
            sample.trim_matches(&['[', ']'][..])
        );
        assert_eq!(
            count_leading(&cs, CharClass::Whitespace),
            sample.chars().count() - sample.trim_start().chars().count()
        );
        assert_eq!(
            count_trailing(&cs, CharClass::Whitespace),
            sample.chars().count() - sample.trim_end().chars().count()
        );
    }
}

#[test]
fn splitting_matches_std() {
    for sample in SAMPLES {
        let cs = chars_of(sample);
        for sep in [' ', '-', ':', ']'] {
            let expected: Vec<String> = sample.split(sep).map(str::to_string).collect();
            assert_eq!(texts(split_slice(&cs, sep)), expected);
            for n in 0..5usize {
                let expected: Vec<String> = sample.splitn(n, sep).map(str::to_string).collect();
                assert_eq!(texts(splitn_slice(&cs, n, sep)), expected);
            }
            let found = sample.chars().position(|c| c == sep).unwrap_or(cs.len());
            assert_eq!(count_leading(&cs, CharClass::Except(sep)), found);
        }
        let expected: Vec<String> = sample.split_whitespace().map(str::to_string).collect();
        assert_eq!(texts(split_whitespace_slice(&cs)), expected);
    }
}

#[test]
fn splitting_gives_the_expected_pieces() {
    let cs = chars_of("a-b--c");
    assert_eq!(texts(split_slice(&cs, '-')), vec!["a", "b", "", "c"]);
    assert_eq!(texts(splitn_slice(&cs, 2, '-')), vec!["a", "b--c"]);
    assert_eq!(texts(splitn_slice(&cs, 1, '-')), vec!["a-b--c"]);
    assert!(splitn_slice(&cs, 0, '-').is_empty());
    let spaced = chars_of("  one \t two\nthree ");
    assert_eq!(texts(split_whitespace_slice(&spaced)), vec!["one", "two", "three"]);
    assert!(split_whitespace_slice(&chars_of(" \t ")).is_empty());
}

#[test]
fn uppercase_matches_std() {
    for sample in SAMPLES {
        assert_eq!(text(&to_uppercase(&chars_of(sample))), sample.to_uppercase());
    }
    assert_eq!(text(&to_uppercase(&chars_of("error"))), "ERROR");
    assert_eq!(text(&to_uppercase(&chars_of("Info 42!"))), "INFO 42!");
    assert_eq!(text(&to_uppercase(&chars_of("stra\u{df}e"))), "STRASSE");
    assert_eq!(text(&to_uppercase(&chars_of("\u{131}nfo"))), "INFO");
}

#[test]
fn spelling_compares_whole_texts() {
    assert!(spells(&chars_of("INFO"), "INFO"));
    assert!(!spells(&chars_of("INFO"), "INF"));
    assert!(!spells(&chars_of("INF"), "INFO"));
    assert!(!spells(&chars_of("INFO"), "INFo"));
    assert!(spells(&chars_of(""), ""));
    assert!(!spells(&chars_of(""), "x"));
    assert!(spells(&chars_of("caf\u{e9}"), "caf\u{e9}"));
}

#[test]
fn joining_puts_the_separator_between() {
    assert_eq!(
        text(&joined(&chars_of("2024-01-15"), ' ', &chars_of("10:23:45"))),
        "2024-01-15 10:23:45"
    );
    assert_eq!(text(&joined(&[], '+', &[])), "+");
}

fn capped_number(sample: &str, cap: u16) -> Option<u16> {
    let digits = sample.strip_prefix('+').unwrap_or(sample);
    if digits.is_empty() || !digits.chars().all(|c| c.is_ascii_digit()) {
        return None;
    }
    match digits.parse::<u128>() {
        Ok(v) if v <= cap as u128 => Some(v as u16),
        _ => Some(cap),
    }
}

#[test]
fn numbers_of_any_size_are_read() {
    for sample in [
        "0", "7", "007", "+7", "+", "-7", "", " 7", "7 ", "255", "256", "0255", "65535", "65536",
        "99999", "000000000000000000000000012", "1_000", "12a", "a12", "++1", "\u{663}",
        "\u{ff11}\u{ff12}", "18446744073709551616",
        "340282366920938463463374607431768211455",
        "340282366920938463463374607431768211456",
        "99999999999999999999999999999999999999999999999999999999999999999999",
    ] {
        let cs = chars_of(sample);
        for cap in [0u16, 9, 99, 255, 9999, 10000, u16::MAX] {
            assert_eq!(parse_unsigned_slice(&cs, cap), capped_number(sample, cap));
        }
        if let Ok(v) = sample.parse::<u16>() {
            assert_eq!(parse_unsigned_slice(&cs, u16::MAX), Some(v));
        }
        if let Ok(v) = sample.parse::<u8>() {
            assert_eq!(parse_unsigned_slice(&cs, 255), Some(v as u16));
        }
    }
    for n in 0..=u16::MAX {
        let cs = chars_of(&n.to_string());
        assert_eq!(parse_unsigned_slice(&cs, u16::MAX), Some(n));
        assert_eq!(parse_unsigned_slice(&cs, 255), Some(n.min(255)));
    }
    assert_eq!(parse_unsigned_slice(&chars_of("100"), 99), Some(99));
    assert_eq!(parse_unsigned_slice(&chars_of("99"), 99), Some(99));
    assert_eq!(parse_unsigned_slice(&chars_of("98"), 99), Some(98));
    assert_eq!(parse_unsigned_slice(&chars_of("70000"), 10000), Some(10000));
    assert_eq!(parse_unsigned_slice(&chars_of("70000x"), 10000), None);
    assert_eq!(parse_unsigned_slice(&chars_of("x70000"), 10000), None);
}

#[test]
fn numbers_are_written_as_std_writes_them() {
    for n in 0..=u16::MAX {
        assert_eq!(digit_count(n), n.to_string().len());
        let mut plain = String::new();
        push_decimal(&mut plain, n);
        assert_eq!(plain, n.to_string());
        let mut two = String::from("x");
        push_zero_padded(&mut two, n, 2);
        assert_eq!(two, format!("x{:02}", n));
        let mut four = String::new();
        push_zero_padded(&mut four, n, 4);
        assert_eq!(four, format!("{:04}", n));
    }
    let mut none = String::new();
    push_zero_padded(&mut none, 5, 0);
    assert_eq!(none, "5");
    let mut wide = String::new();
    push_zero_padded(&mut wide, 42, 8);
    assert_eq!(wide, "00000042");
}

#[test]
fn the_leader_is_the_first_of_the_greatest() {
    let none: Vec<(char, usize)> = Vec::new();
    assert_eq!(leader(&none), None);
    assert_eq!(leader(&vec![('a', 1)]), Some(0));
    assert_eq!(leader(&vec![('a', 1), ('b', 3), ('c', 3), ('d', 2)]), Some(1));
    assert_eq!(leader(&vec![('a', 2), ('b', 2)]), Some(0));
    assert_eq!(leader(&vec![('a', 0), ('b', 1), ('c', 5)]), Some(2));
}
