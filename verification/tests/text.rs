use chat_recorder::text::{
    chars_of, contains_chars, join_chars, parse_i32_chars, rfind_char, split_chars, string_of,
    trim_chars,
};

fn v(s: &str) -> Vec<char> {
    s.chars().collect()
}

#[test]
fn string_round_trip() {
    assert_eq!(string_of(&chars_of("añb 👋")), "añb 👋");
    assert_eq!(chars_of("ab"), vec!['a', 'b']);
}

#[test]
fn parse_i32_like_std() {
    for s in ["0", "42", "+7", "-13", "2147483647", "-2147483648", "007"] {
        assert_eq!(parse_i32_chars(&v(s)), s.parse::<i32>().ok(), "{}", s);
    }
    for s in ["", "+", "-", "2147483648", "-2147483649", "1 ", " 1", "1a", "--1", "99999999999999"] {
        assert_eq!(parse_i32_chars(&v(s)), None, "{}", s);
        assert!(s.parse::<i32>().is_err());
    }
}

#[test]
fn split_like_str_split() {
    for s in ["", "data: ", "data: a", "xdata: ydata: data: z", "no pattern", "data: data:"] {
        let expected: Vec<Vec<char>> = s.split("data: ").map(v).collect();
        assert_eq!(split_chars(&v(s), &v("data: ")), expected, "{:?}", s);
    }
}

#[test]
fn trim_like_str_trim() {
    for s in ["", " a ", "\u{85}a\u{2028}", "a b", "\t\n"] {
        assert_eq!(trim_chars(&v(s)), v(s.trim()), "{:?}", s);
    }
}

#[test]
fn search_helpers() {
    assert_eq!(rfind_char(&v("a}b}c"), '}'), Some(3));
    assert_eq!(rfind_char(&v("abc"), '}'), None);
    assert!(contains_chars(&v("xx data: [DONE]"), &v("data: [DONE]")));
    assert!(!contains_chars(&v("data: [DONE"), &v("data: [DONE]")));
    assert!(contains_chars(&v("abc"), &v("")));
    let parts = vec![v("a"), v("b"), v("")];
    assert_eq!(join_chars(&parts, &v("\n")), v("a\nb\n"));
    assert_eq!(join_chars(&Vec::new(), &v("\n")), v(""));
}
