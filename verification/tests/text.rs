use veil::text::{
    append_decimal, append_signed, chars_of, cut_once, find_char, has_part, has_prefix, has_suffix,
    hex_digit, is_str, is_white, joined, lines_of, lower_all, parse_i32, parse_unsigned,
    split_at_char, string_of, to_lower, trimmed, trimmed_end, trimmed_start, words_of,
};

fn strings(v: Vec<&[char]>) -> Vec<String> {
    v.iter().map(|s| string_of(s)).collect()
}

const TEXTS: [&str; 12] = [
    "", " ", "\n", "a", " a b ", "one\ntwo\r\nthree", "one\n\ntwo\n", "\r\n\r", "a=b=c", "=", "ä\u{3000}ö\t",
    "x\u{85}y\u{2028}z",
];

#[test]
fn whitespace_is_what_unicode_says() {
    for u in 0..=0x10ffffu32 {
        if let Some(c) = char::from_u32(u) {
            assert_eq!(is_white(c), c.is_whitespace(), "{u:x}");
            assert_eq!(to_lower(c), c.to_ascii_lowercase(), "{u:x}");
        }
    }
}

#[test]
fn trimming_is_that_of_strings() {
    for t in TEXTS {
        let c = chars_of(t);
        assert_eq!(string_of(trimmed(&c)), t.trim());
        assert_eq!(string_of(trimmed_start(&c)), t.trim_start());
        assert_eq!(string_of(trimmed_end(&c)), t.trim_end());
    }
}

#[test]
fn splitting_is_that_of_strings() {
    for t in TEXTS {
        let c = chars_of(t);
        assert_eq!(strings(lines_of(&c)), t.lines().map(String::from).collect::<Vec<_>>(), "{t:?}");
        assert_eq!(strings(words_of(&c)), t.split_whitespace().map(String::from).collect::<Vec<_>>());
        assert_eq!(strings(split_at_char(&c, '=')), t.split('=').map(String::from).collect::<Vec<_>>());
        let cut = cut_once(&c, '=').map(|(a, b)| (string_of(a), string_of(b)));
        assert_eq!(cut, t.split_once('=').map(|(a, b)| (a.to_string(), b.to_string())));
    }
}

#[test]
fn joining_undoes_splitting() {
    for t in TEXTS {
        let c = chars_of(t);
        assert_eq!(string_of(&joined(&split_at_char(&c, '='), &['='])), t);
    }
}

#[test]
fn searching_is_that_of_strings() {
    let c = chars_of("hello");
    assert!(has_prefix(&c, &chars_of("he")) && !has_prefix(&c, &chars_of("el")));
    assert!(has_suffix(&c, &chars_of("lo")) && !has_suffix(&c, &chars_of("ll")));
    assert!(has_part(&c, &chars_of("ell")) && !has_part(&c, &chars_of("lle")));
    assert!(has_part(&c, &[]) && has_prefix(&[], &[]) && !has_part(&[], &['x']));
    assert!(is_str(&c, "hello") && !is_str(&c, "hellO"));
    assert_eq!(find_char(&c, 'l'), 2);
    assert_eq!(find_char(&c, 'z'), 5);
    assert_eq!(string_of(&lower_all(&chars_of("AbÄ"))), "abÄ");
}

#[test]
fn numbers_read_as_strings_do() {
    let texts = [
        "", "0", "7", "+7", "-7", "--7", "+", "-", "007", "4294967295", "4294967296", "12a", " 1",
        "18446744073709551615", "18446744073709551616", "2147483647", "2147483648", "-2147483648",
        "-2147483649", "+0", "-0",
    ];
    for t in texts {
        let c = chars_of(t);
        assert_eq!(parse_unsigned(&c, u32::MAX as u64), t.parse::<u32>().ok().map(|n| n as u64), "{t}");
        assert_eq!(parse_unsigned(&c, u64::MAX), t.parse::<u64>().ok(), "{t}");
        assert_eq!(parse_i32(&c), t.parse::<i32>().ok(), "{t}");
    }
}

#[test]
fn written_numbers_read_back() {
    for n in [0u64, 1, 9, 10, 99, 100, 4294967295, u64::MAX] {
        let mut v = Vec::new();
        append_decimal(&mut v, n);
        assert_eq!(string_of(&v), n.to_string());
        assert_eq!(parse_unsigned(&v, u64::MAX), Some(n));
    }
    for n in [0i32, 1, -1, 10, -10, i32::MAX, i32::MIN] {
        let mut v = Vec::new();
        append_signed(&mut v, n as i64);
        assert_eq!(string_of(&v), n.to_string());
        assert_eq!(parse_i32(&v), Some(n));
    }
}

#[test]
fn hex_digits() {
    assert_eq!(hex_digit('0'), Some(0));
    assert_eq!(hex_digit('a'), Some(10));
    assert_eq!(hex_digit('F'), Some(15));
    assert_eq!(hex_digit('g'), None);
    assert_eq!(hex_digit('+'), None);
}
