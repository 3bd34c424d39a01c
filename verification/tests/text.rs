use da_core::text::{
    chars_eq_str, chars_of, find_chars, parse_signed_chars, parse_unsigned_chars, render_decimal,
    slice_chars, split_chars, starts_with_str, trim_chars,
};

fn string_of(v: &Vec<char>) -> String {
    v.iter().collect()
}

fn v(s: &str) -> Vec<char> {
    s.chars().collect()
}

#[test]
fn decimal_rendering() {
    assert_eq!(string_of(&render_decimal(0)), "0");
    assert_eq!(string_of(&render_decimal(9)), "9");
    assert_eq!(string_of(&render_decimal(10)), "10");
    assert_eq!(string_of(&render_decimal(48000 * 16)), "768000");
    assert_eq!(string_of(&render_decimal(u64::MAX)), "18446744073709551615");
}

#[test]
fn unsigned_parsing() {
    assert_eq!(parse_unsigned_chars(&v("12"), u32::MAX as u64), Some(12));
    assert_eq!(parse_unsigned_chars(&v("+12"), u32::MAX as u64), Some(12));
    assert_eq!(parse_unsigned_chars(&v("007"), u32::MAX as u64), Some(7));
    assert_eq!(parse_unsigned_chars(&v(""), u32::MAX as u64), None);
    assert_eq!(parse_unsigned_chars(&v("+"), u32::MAX as u64), None);
    assert_eq!(parse_unsigned_chars(&v("-1"), u32::MAX as u64), None);
    assert_eq!(parse_unsigned_chars(&v("1 2"), u32::MAX as u64), None);
    assert_eq!(parse_unsigned_chars(&v("4294967295"), u32::MAX as u64), Some(4294967295));
    assert_eq!(parse_unsigned_chars(&v("4294967296"), u32::MAX as u64), None);
    assert_eq!(parse_unsigned_chars(&v("18446744073709551615"), u64::MAX), Some(u64::MAX));
    assert_eq!(parse_unsigned_chars(&v("18446744073709551616"), u64::MAX), None);
    // as std reads them
    for s in ["0", "+5", "12", "4294967295", "4294967296", "", "+", "-0", "1x"] {
        assert_eq!(
            parse_unsigned_chars(&v(s), u32::MAX as u64).map(|x| x as u32),
            s.parse::<u32>().ok()
        );
    }
}

#[test]
fn signed_parsing() {
    assert_eq!(parse_signed_chars(&v("-2147483648"), i32::MAX as u64), Some(-2147483648));
    assert_eq!(parse_signed_chars(&v("-2147483649"), i32::MAX as u64), None);
    assert_eq!(parse_signed_chars(&v("2147483647"), i32::MAX as u64), Some(2147483647));
    assert_eq!(parse_signed_chars(&v("2147483648"), i32::MAX as u64), None);
    for s in ["-", "+", "-+1", "+-1", "-0", "+3", "42", "", " 1"] {
        assert_eq!(
            parse_signed_chars(&v(s), i32::MAX as u64).map(|x| x as i32),
            s.parse::<i32>().ok()
        );
    }
}

#[test]
fn trimming_like_std() {
    for s in ["  a b  ", "\t\n x\r\n", "\u{3000}y\u{2029}", "", "   ", "\u{85}z\u{a0}"] {
        assert_eq!(string_of(&trim_chars(&v(s))), s.trim());
    }
}

#[test]
fn finding_and_splitting() {
    assert_eq!(find_chars(&v("a->b->c"), &v("->")), Some(1));
    assert_eq!(find_chars(&v("a--->b"), &v("->")), Some(3));
    assert_eq!(find_chars(&v("abc"), &v("x")), None);
    assert_eq!(find_chars(&v("abc"), &v("")), Some(0));
    for (s, sep) in [("a,b,,c", ","), (",", ","), ("", ","), ("a->b->c", "->"), ("x", "->")] {
        let got: Vec<String> = split_chars(&v(s), &v(sep)).iter().map(string_of).collect();
        let want: Vec<String> = s.split(sep).map(|p| p.to_string()).collect();
        assert_eq!(got, want);
    }
}

#[test]
fn slices_and_comparisons() {
    assert_eq!(string_of(&slice_chars(&v("héllo"), 1, 3)), "él");
    assert!(chars_eq_str(&v("self"), "self"));
    assert!(!chars_eq_str(&v("self "), "self"));
    assert!(starts_with_str(&v("GET / HTTP"), "GET /"));
    assert!(!starts_with_str(&v("GE"), "GET"));
    assert_eq!(chars_of("añb"), vec!['a', 'ñ', 'b']);
}
