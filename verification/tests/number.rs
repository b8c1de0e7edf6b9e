use matrix_pipeline::number::{
    byte_is_digit, byte_is_sign, check_decimal, check_number, check_special, find_digits_end,
    to_lower, Number,
};

const TOKENS: [&str; 96] = [
    "0", "1", "42", "007", "3.14", "-3.14", "+3.14", "5.", ".5", "-.5", "+.5", "-5.", "0.0",
    "2.5E10", "2.5e10", "2.5E-10", "2.5e+10", "1e5", "1E5", "1e-5", "1e+5", "1.e5", ".1e5",
    "1e05", "1e0", "123456789012345678901234567890", "1e400", "1e-400", "0.000000000000000001",
    "inf", "-inf", "+inf", "INF", "Inf", "iNf", "infinity", "-infinity", "+infinity",
    "INFINITY", "Infinity", "nan", "NaN", "NAN", "-nan", "+NaN", "", "+", "-", ".", "-.", "+.",
    "e", "e5", "E5", ".e5", "1e", "1e+", "1e-", "1E", "1e5.0", "1e5e5", "1.2.3", "1..2", "..",
    "--1", "++1", "+-1", "-+1", "1-", "1+", "1-2", "1 ", " 1", "1,5", "1_000", "0x10", "0b1",
    "1f", "1.0f64", "1d", "abc", "x", "in", "infi", "infinit", "infinityy", "na", "nann",
    "n", "i", "inf.", ".inf", "nan1", "1nan", "١", "1\u{a0}",
];

#[test]
fn the_grammar_is_what_the_standard_library_reads_as_a_double() {
    for token in TOKENS {
        assert_eq!(
            check_number(token.as_bytes()),
            token.parse::<f64>().is_ok(),
            "token {:?}",
            token
        );
    }
}

#[test]
fn the_grammar_agrees_with_the_standard_library_on_all_short_tokens() {
    let alphabet = b"0 9+-.eEinfNaty5x";
    let mut count = 0;
    for a in alphabet {
        for b in alphabet {
            for c in alphabet {
                for d in alphabet {
                    let bytes: Vec<u8> =
                        [*a, *b, *c, *d].iter().copied().filter(|x| *x != b' ').collect();
                    let token = String::from_utf8(bytes).unwrap();
                    assert_eq!(
                        check_number(token.as_bytes()),
                        token.parse::<f64>().is_ok(),
                        "token {:?}",
                        token
                    );
                    count += 1;
                }
            }
        }
    }
    assert_eq!(count, 17 * 17 * 17 * 17);
}

#[test]
fn plain_decimals_are_numbers() {
    for token in ["2", "0", "4", "10", "3.25", "-7", "+7", "6.02e23", "1E-9"] {
        assert!(check_number(token.as_bytes()), "token {:?}", token);
    }
}

#[test]
fn words_and_broken_decimals_are_no_numbers() {
    for token in ["x", "1,5", "1e", ".", "+", "", "1.2.3", "--1", "0x10"] {
        assert!(!check_number(token.as_bytes()), "token {:?}", token);
    }
}

#[test]
fn special_words_in_any_case() {
    for word in ["inf", "INF", "iNf", "nan", "NaN", "infinity", "InFiNiTy"] {
        assert!(check_special(word.as_bytes()), "word {:?}", word);
    }
    for word in ["", "in", "infi", "infinit", "nan ", "an", "inx", "infinitx", "-inf"] {
        assert!(!check_special(word.as_bytes()), "word {:?}", word);
    }
}

#[test]
fn letters_that_only_look_alike_after_masking_are_no_special_word() {
    // 0x09 and 'i' differ in more than the case bit.
    assert!(!check_special(&[0x49 ^ 0x40, b'n', b'f']));
    assert!(!check_special(&[b'i' | 0x80, b'n', b'f']));
}

#[test]
fn decimals_take_no_sign() {
    assert!(check_decimal(b"1.5e-3"));
    assert!(check_decimal(b"1."));
    assert!(check_decimal(b".1"));
    assert!(!check_decimal(b"-1.5"));
    assert!(!check_decimal(b"."));
    assert!(!check_decimal(b""));
    assert!(!check_decimal(b"e1"));
    assert!(!check_decimal(b"1e1x"));
}

#[test]
fn digits_end_where_the_digits_end() {
    assert_eq!(find_digits_end(b"123.45", 0), 3);
    assert_eq!(find_digits_end(b"123.45", 3), 3);
    assert_eq!(find_digits_end(b"123.45", 4), 6);
    assert_eq!(find_digits_end(b"", 0), 0);
}

#[test]
fn bytes_are_classed_as_ascii_does() {
    for b in 0u8..=255 {
        assert_eq!(byte_is_digit(b), b.is_ascii_digit(), "byte {}", b);
        assert_eq!(byte_is_sign(b), b == b'+' || b == b'-', "byte {}", b);
        assert_eq!(to_lower(b), b.to_ascii_lowercase(), "byte {}", b);
    }
}

#[test]
fn a_number_keeps_its_text() {
    let n = Number::new(b"-2.50e+3").unwrap();
    assert_eq!(n.as_bytes(), b"-2.50e+3");
    let value: f64 = std::str::from_utf8(n.as_bytes()).unwrap().parse().unwrap();
    assert_eq!(value, -2500.0);
}

#[test]
fn what_is_no_number_makes_no_number() {
    assert_eq!(Number::new(b"two"), None);
    assert_eq!(Number::new(b""), None);
    assert_eq!(Number::new(b"1 2"), None);
}

#[test]
fn a_cloned_number_is_equal() {
    let n = Number::new(b"1e5").unwrap();
    let m = n.clone();
    assert_eq!(n, m);
    assert_eq!(m.as_bytes(), b"1e5");
}
