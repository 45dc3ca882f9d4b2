use man_tui::text::{
    chars_of, compare_chars, contains_chars, split_lines, string_from_chars, CharsOrder,
};

fn lines(s: &str) -> Vec<String> {
    let cs = chars_of(s);
    split_lines(&cs).iter().map(|l| string_from_chars(l)).collect()
}

#[test]
fn lines_split_at_newlines_and_crlf() {
    assert_eq!(lines("a\r\nb\n\nc"), vec!["a", "b", "", "c"]);
}

#[test]
fn final_line_ending_is_optional() {
    assert_eq!(lines("x\ny\n"), vec!["x", "y"]);
    assert_eq!(lines("x\ny"), vec!["x", "y"]);
}

#[test]
fn empty_text_has_no_lines() {
    assert!(lines("").is_empty());
    assert_eq!(lines("\n"), vec![""]);
}

#[test]
fn lone_carriage_return_at_end_is_kept() {
    assert_eq!(lines("a\r"), vec!["a\r"]);
}

#[test]
fn lines_agree_with_std() {
    for s in ["one\ntwo\r\nthree", "\n\n", "tail\r\n", "a\rb\nc"] {
        let expected: Vec<String> = s.lines().map(|l| l.to_string()).collect();
        assert_eq!(lines(s), expected);
    }
}

#[test]
fn substring_search() {
    let s = chars_of("hello world");
    assert!(contains_chars(&s, &chars_of("lo w")));
    assert!(contains_chars(&s, &chars_of("")));
    assert!(!contains_chars(&s, &chars_of("worlds")));
}

#[test]
fn char_order_matches_str_order() {
    let pairs = [("a", "b"), ("ab", "a"), ("same", "same"), ("Z", "a"), ("é", "z")];
    for (a, b) in pairs {
        let got = compare_chars(&chars_of(a), &chars_of(b));
        let want = a.cmp(b);
        match got {
            CharsOrder::Less => assert_eq!(want, std::cmp::Ordering::Less),
            CharsOrder::Equal => assert_eq!(want, std::cmp::Ordering::Equal),
            CharsOrder::Greater => assert_eq!(want, std::cmp::Ordering::Greater),
        }
    }
}
