use valdisere_presentation::number::{parse_int, parse_int_chars};
use valdisere_presentation::text::{
    char_is_space, chars_of, contains_chars, lower_chars, same_chars, slice_chars, split_chars,
    split_lines, to_lower, trim_bounds, trim_chars,
};

fn chars(s: &str) -> Vec<char> {
    s.chars().collect()
}

fn strings(rows: &Vec<Vec<char>>) -> Vec<String> {
    rows.iter().map(|r| r.iter().collect::<String>()).collect()
}

#[test]
fn white_space_is_what_std_calls_white_space() {
    for n in 0u32..=0x10FFFF {
        if let Some(c) = char::from_u32(n) {
            assert_eq!(char_is_space(c), c.is_whitespace(), "U+{:04X}", n);
        }
    }
}

#[test]
fn case_folding_agrees_with_unicode_on_category_letters() {
    let pattern_letters = "preost";
    for n in 0u32..=0x10FFFF {
        if let Some(c) = char::from_u32(n) {
            let full: Vec<char> = c.to_lowercase().collect();
            let folded = to_lower(c);
            if folded != c {
                assert_eq!(full, vec![folded], "U+{:04X}", n);
            }
            if full.len() == 1 {
                if full[0].is_ascii_lowercase() && full[0] != 'k' {
                    assert_eq!(full[0], folded, "U+{:04X}", n);
                }
            } else {
                assert!(full.iter().any(|x| !x.is_ascii()), "U+{:04X}", n);
                assert!(full.iter().all(|x| !pattern_letters.contains(*x)), "U+{:04X}", n);
            }
        }
    }
}

#[test]
fn to_lower_folds_ascii_capitals_only() {
    assert_eq!(to_lower('A'), 'a');
    assert_eq!(to_lower('Z'), 'z');
    assert_eq!(to_lower('m'), 'm');
    assert_eq!(to_lower('@'), '@');
    assert_eq!(to_lower('['), '[');
    assert_eq!(to_lower('É'), 'É');
    assert_eq!(lower_chars(&chars("Pre-Op 3")), chars("pre-op 3"));
}

#[test]
fn chars_of_keeps_every_character() {
    assert_eq!(chars_of(""), Vec::<char>::new());
    assert_eq!(chars_of("a,b"), vec!['a', ',', 'b']);
    assert_eq!(chars_of("é\u{3000}z"), vec!['é', '\u{3000}', 'z']);
}

#[test]
fn slice_chars_copies_the_range() {
    let s = chars("abcdef");
    assert_eq!(slice_chars(&s, 1, 4), chars("bcd"));
    assert_eq!(slice_chars(&s, 0, 6), s);
    assert_eq!(slice_chars(&s, 3, 3), chars(""));
}

#[test]
fn trim_agrees_with_std() {
    let samples = [
        "",
        " ",
        "   ",
        "a",
        " a",
        "a ",
        "  a b  ",
        "\t\r\n x \u{a0}\u{3000}",
        "\u{2003}lying\u{2028}",
        "\u{200b}x\u{200b}",
        " \u{feff}x ",
        "x\r",
    ];
    for s in samples {
        let got: String = trim_chars(&chars(s)).iter().collect();
        assert_eq!(got, s.trim(), "{:?}", s);
        let (a, b) = trim_bounds(&chars(s));
        let cut: String = chars(s)[a..b].iter().collect();
        assert_eq!(cut, s.trim(), "{:?}", s);
    }
}

#[test]
fn contains_agrees_with_std() {
    let hay = ["", "pre", "xpre", "prpre", "pr", "ppost", "pospost", "a pre b", "erp", "posT"];
    let words = ["pre", "post", "", "p", "prpre"];
    for h in hay {
        for w in words {
            assert_eq!(contains_chars(&chars(h), &chars(w)), h.contains(w), "{:?} in {:?}", w, h);
        }
    }
}

#[test]
fn same_chars_is_equality() {
    assert!(same_chars(&chars("lying"), &chars("lying")));
    assert!(!same_chars(&chars("lying"), &chars("lyinG")));
    assert!(!same_chars(&chars("lying"), &chars("lyin")));
    assert!(same_chars(&chars(""), &chars("")));
}

#[test]
fn split_agrees_with_std() {
    let samples = ["", ",", "a", "a,b", "a,,b", ",a,", "1,2,3,4,5,6,7", "a, b ,c\r", ",,,"];
    for s in samples {
        let expected: Vec<String> = s.split(',').map(|p| p.to_string()).collect();
        assert_eq!(strings(&split_chars(&chars(s), ',')), expected, "{:?}", s);
    }
}

#[test]
fn split_of_empty_text_is_one_empty_piece() {
    assert_eq!(split_chars(&chars(""), ','), vec![Vec::<char>::new()]);
}

#[test]
fn lines_agree_with_std() {
    let samples = [
        "",
        "\n",
        "a",
        "a\n",
        "a\nb",
        "a\n\nb\n",
        "a\r\nb\r\n",
        "a\r\n\r\nb",
        "foo\nbar\n\r\nbaz\r",
        "a\rb\nc",
        "\r",
        "\r\n",
        "a\n\n",
        "h\n1,2\n",
    ];
    for s in samples {
        let expected: Vec<String> = s.lines().map(|p| p.to_string()).collect();
        assert_eq!(strings(&split_lines(&chars(s))), expected, "{:?}", s);
    }
}

#[test]
fn last_line_keeps_a_trailing_carriage_return() {
    assert_eq!(strings(&split_lines(&chars("a\r\nb\r"))), vec!["a".to_string(), "b\r".to_string()]);
}

#[test]
fn parse_int_agrees_with_std() {
    let samples = [
        "",
        " ",
        "0",
        "-0",
        "+0",
        "7",
        " 42 ",
        "\t-17\r",
        "+5",
        "-",
        "+",
        "--5",
        "+-5",
        "1 2",
        "12a",
        "a12",
        "0012",
        "1.5",
        "1e3",
        "0x10",
        "2147483647",
        "2147483648",
        "+2147483647",
        "+2147483648",
        "-2147483648",
        "-2147483649",
        "00000000000000000000000000000000000007",
        "99999999999999999999999999999999999999",
        "-99999999999999999999999999999999999999",
        "21474836470",
        "١٢",
        "\u{a0}5\u{3000}",
        "5\u{200b}",
        "1_000",
    ];
    for s in samples {
        assert_eq!(parse_int(s), s.trim().parse::<i32>().ok(), "{:?}", s);
        assert_eq!(parse_int_chars(&chars(s)), s.trim().parse::<i32>().ok(), "{:?}", s);
    }
}

#[test]
fn parse_int_exact_values() {
    assert_eq!(parse_int("120"), Some(120));
    assert_eq!(parse_int(" -45 "), Some(-45));
    assert_eq!(parse_int("+9"), Some(9));
    assert_eq!(parse_int("2147483647"), Some(i32::MAX));
    assert_eq!(parse_int("-2147483648"), Some(i32::MIN));
    assert_eq!(parse_int("2147483648"), None);
    assert_eq!(parse_int("-2147483649"), None);
    assert_eq!(parse_int(""), None);
    assert_eq!(parse_int("n/a"), None);
}
