use soehnle_3005::number::{is_number, parse_byte};
use soehnle_3005::text::trim_str;

#[test]
fn trim_takes_white_space_from_both_ends() {
    assert_eq!(trim_str(""), "");
    assert_eq!(trim_str("   "), "");
    assert_eq!(trim_str("a"), "a");
    assert_eq!(trim_str("  a b  "), "a b");
    assert_eq!(trim_str("\t\r\n a \u{b}\u{c}"), "a");
    assert_eq!(trim_str("\u{3000}a\u{2003}b\u{a0}"), "a\u{2003}b");
    assert_eq!(trim_str("\u{6}"), "\u{6}");
    assert_eq!(trim_str("\u{200b}a\u{200b}"), "\u{200b}a\u{200b}");
}

#[test]
fn trim_knows_every_white_space_character() {
    let mut white = 0;
    for code in 0..=0x10FFFFu32 {
        if let Some(c) = char::from_u32(code) {
            let mut text = String::new();
            text.push(c);
            text.push('x');
            text.push(c);
            assert_eq!(trim_str(&text), text.trim(), "U+{:04X}", code);
            if c.is_whitespace() {
                white += 1;
                assert_eq!(trim_str(&text), "x");
            }
        }
    }
    assert_eq!(white, 25);
}

fn words(alphabet: &[char], longest: usize) -> Vec<String> {
    let mut all = vec![String::new()];
    let mut last = vec![String::new()];
    for _ in 0..longest {
        let mut next = Vec::new();
        for word in &last {
            for c in alphabet {
                let mut longer = word.clone();
                longer.push(*c);
                next.push(longer);
            }
        }
        all.extend(next.iter().cloned());
        last = next;
    }
    all
}

#[test]
fn numbers_are_what_the_standard_library_reads_as_floats() {
    let alphabet = ['0', '7', '+', '-', '.', 'e', 'E', 'n', 'a', ' '];
    for word in words(&alphabet, 5) {
        assert_eq!(is_number(&word), word.parse::<f32>().is_ok(), "{:?}", word);
        assert_eq!(is_number(&word), word.parse::<f64>().is_ok(), "{:?}", word);
    }
}

#[test]
fn number_forms() {
    for good in [
        "0", "3.1", "-3.7", "+3.7", "0123456.78", "-0.001", "5.", ".5", "-.5", "+5.", "1e5",
        "1E5", "1e+5", "1e-5", "1.e5", ".5e5", "1.5e05", "00", "inf", "INF", "Inf", "-inf",
        "+inf", "infinity", "INFINITY", "-Infinity", "nan", "NaN", "NAN", "-nan", "+nan",
        "123456789012345678901234567890", "1e99999999999999999999",
    ] {
        assert!(is_number(good), "{:?}", good);
        assert!(good.parse::<f32>().is_ok(), "{:?}", good);
    }
    for bad in [
        "", "+", "-", ".", "+.", "-.", "e5", ".e5", "1e", "1e+", "1e-", "1e5.", "1e5e5", "1..2",
        "1.2.3", "--1", "+-1", "1-", "1+", " 1", "1 ", "1 2", "1,2", "1_000", "0x10", "1f32",
        "in", "infi", "infinit", "infinityy", "na", "nann", "i", "n", "inf ", "1inf", "inf1",
        "\u{663}", "1\u{e9}", "\u{ff11}",
    ] {
        assert!(!is_number(bad), "{:?}", bad);
        assert!(bad.parse::<f32>().is_err(), "{:?}", bad);
    }
}

#[test]
fn bytes_are_what_the_standard_library_reads_as_bytes() {
    let alphabet = ['0', '1', '2', '5', '6', '9', '+', '-', ' ', 'W'];
    for word in words(&alphabet, 5) {
        assert_eq!(parse_byte(&word), word.parse::<u8>().ok(), "{:?}", word);
    }
}

#[test]
fn byte_forms() {
    assert_eq!(parse_byte("0"), Some(0));
    assert_eq!(parse_byte("7"), Some(7));
    assert_eq!(parse_byte("+7"), Some(7));
    assert_eq!(parse_byte("007"), Some(7));
    assert_eq!(parse_byte("99"), Some(99));
    assert_eq!(parse_byte("255"), Some(255));
    assert_eq!(parse_byte("0000000000000000000000255"), Some(255));
    assert_eq!(parse_byte("256"), None);
    assert_eq!(parse_byte("1000"), None);
    assert_eq!(parse_byte("99999999999999999999999999"), None);
    assert_eq!(parse_byte(""), None);
    assert_eq!(parse_byte("+"), None);
    assert_eq!(parse_byte("-1"), None);
    assert_eq!(parse_byte("-0"), None);
    assert_eq!(parse_byte("++1"), None);
    assert_eq!(parse_byte("1+"), None);
    assert_eq!(parse_byte(" 1"), None);
    assert_eq!(parse_byte("1 "), None);
    assert_eq!(parse_byte("\u{663}"), None);
    assert_eq!(parse_byte("1\u{e9}"), None);
}
