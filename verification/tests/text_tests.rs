use ops::number::is_number;
use ops::text::char_width;
use ops::text::chars_of;
use ops::text::is_whitespace;
use ops::text::push_decimal;
use ops::text::str_eq;

#[test]
fn white_space_is_what_the_standard_library_calls_so() {
    let mut count = 0;
    for code in 0..=0x10FFFFu32 {
        if let Some(c) = char::from_u32(code) {
            assert_eq!(is_whitespace(c), c.is_whitespace(), "U+{:04X}", code);
            if is_whitespace(c) {
                count += 1;
            }
        }
    }
    assert_eq!(count, 25);
}

#[test]
fn width_is_the_length_in_utf8() {
    for code in 0..=0x10FFFFu32 {
        if let Some(c) = char::from_u32(code) {
            assert_eq!(char_width(c), c.len_utf8(), "U+{:04X}", code);
        }
    }
    assert_eq!(char_width('a'), 1);
    assert_eq!(char_width('é'), 2);
    assert_eq!(char_width('越'), 3);
    assert_eq!(char_width('😀'), 4);
}

#[test]
fn strings_compare_by_their_characters() {
    assert!(str_eq("", ""));
    assert!(str_eq("num", "num"));
    assert!(!str_eq("num", "nun"));
    assert!(!str_eq("num", "numb"));
    assert!(!str_eq("", "a"));
    assert!(str_eq("héllo 越", "héllo 越"));
    assert!(!str_eq("héllo", "hèllo"));
}

#[test]
fn characters_come_in_order() {
    assert_eq!(chars_of(""), Vec::<char>::new());
    assert_eq!(chars_of("a越b"), vec!['a', '越', 'b']);
}

#[test]
fn decimal_has_no_leading_zeros() {
    for (n, text) in [
        (0usize, "0"),
        (7, "7"),
        (10, "10"),
        (99, "99"),
        (100, "100"),
        (1234567890, "1234567890"),
        (usize::MAX, &usize::MAX.to_string()),
    ] {
        let mut out = String::from("x");
        push_decimal(&mut out, n);
        assert_eq!(out, format!("x{}", text));
    }
}

fn check_number(text: &str) {
    assert_eq!(is_number(text), text.parse::<f64>().is_ok(), "{:?}", text);
}

#[test]
fn number_texts_are_recognized() {
    for text in [
        "0", "1", "42", "3.14", "1.", ".5", "1e5", "1E5", "1e+5", "1e-5", "1.5e10", ".5e1", "5.e1",
        "+1", "-1", "-1.5e-3", "inf", "+inf", "-inf", "INF", "Infinity", "infinity", "-INFINITY",
        "nan", "NaN", "+nan", "-NAN", "007", "1e007",
    ] {
        assert!(is_number(text), "{:?}", text);
        check_number(text);
    }
}

#[test]
fn other_texts_are_no_numbers() {
    for text in [
        "", "+", "-", ".", "+.", "e", "e5", "1e", "1e+", "1e-", ".e5", "1.2.3", "1..2", "--1",
        "+-1", "1+", "1 ", " 1", "1_000", "0x10", "1f", "in", "infi", "infinit", "infinityy",
        "na", "nann", "i", "n", "inf1", "1inf", "1e5e5", "1e5.5", "١٢٣", "１", "1e１", "ınf",
        "İNF", "true", "abc",
    ] {
        assert!(!is_number(text), "{:?}", text);
        check_number(text);
    }
}

#[test]
fn number_texts_are_what_the_standard_library_parses() {
    let alphabet = ['0', '7', '+', '-', '.', 'e', 'E', 'i', 'n', 'f', 'a', 'N', 'x'];
    let mut texts = vec![String::new()];
    let mut from = 0;
    for _ in 0..5 {
        let until = texts.len();
        for k in from..until {
            for c in alphabet {
                let mut longer = texts[k].clone();
                longer.push(c);
                texts.push(longer);
            }
        }
        from = until;
    }
    assert_eq!(texts.len(), 1 + 13 + 169 + 2197 + 28561 + 371293);
    let mut numbers = 0;
    for text in texts.iter() {
        check_number(text);
        if is_number(text) {
            numbers += 1;
        }
    }
    assert!(numbers > 100);
    for word in ["infinity", "Infinity", "INFINITY", "+infinity", "-InFiNiTy", "infinit", "infinityx"] {
        check_number(word);
    }
}
