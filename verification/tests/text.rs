use ray1week::text::{
    char_is_whitespace, chars_of, eq_str, push_chars, push_decimal, push_signed_decimal, push_str,
    slice_of, split_spans, starts_with, string_of, trim_span, Span,
};

fn pieces(s: &str, sep: char) -> Vec<String> {
    let chars = chars_of(s);
    split_spans(&chars, sep)
        .into_iter()
        .map(|span| string_of(slice_of(&chars, span)))
        .collect()
}

fn std_pieces(s: &str, sep: char) -> Vec<String> {
    s.split(sep).map(|p| p.to_owned()).collect()
}

#[test]
fn split_gives_the_pieces_between_separators() {
    assert_eq!(pieces("v 1 2 3", ' '), vec!["v", "1", "2", "3"]);
    assert_eq!(pieces("", ' '), vec![""]);
    assert_eq!(pieces(" ", ' '), vec!["", ""]);
    assert_eq!(pieces("a  b", ' '), vec!["a", "", "b"]);
    assert_eq!(pieces("1/2/3", '/'), vec!["1", "2", "3"]);
    assert_eq!(pieces("1//3", '/'), vec!["1", "", "3"]);
    assert_eq!(pieces("no separator", '/'), vec!["no separator"]);
}

#[test]
fn split_agrees_with_the_standard_library() {
    let samples = [
        "",
        " ",
        "  ",
        "a",
        "a b",
        " a b ",
        "f 1/2/3 4//6 7",
        "tr\u{e4}ne \u{1F600} x",
        "line one\nline two\n\nline four\n",
        "////",
    ];
    for s in samples {
        for sep in [' ', '/', '\n', 'a'] {
            assert_eq!(pieces(s, sep), std_pieces(s, sep), "{:?} at {:?}", s, sep);
        }
    }
}

#[test]
fn spans_of_split_are_adjacent() {
    let chars = chars_of("ab cd  e");
    let spans = split_spans(&chars, ' ');
    assert_eq!(
        spans,
        vec![
            Span { start: 0, end: 2 },
            Span { start: 3, end: 5 },
            Span { start: 6, end: 6 },
            Span { start: 7, end: 8 },
        ]
    );
}

#[test]
fn whitespace_agrees_with_the_standard_library_on_every_char() {
    for u in 0..=0x10FFFFu32 {
        if let Some(c) = char::from_u32(u) {
            assert_eq!(char_is_whitespace(c), c.is_whitespace(), "U+{:04X}", u);
        }
    }
}

#[test]
fn trim_agrees_with_the_standard_library() {
    let samples = [
        "",
        " ",
        "a",
        "  a b  ",
        "\t\r\n x \u{a0}\u{3000}",
        "\u{2003}Kd 1 0 0\r",
        "x\u{200b}",
        "   ",
    ];
    for s in samples {
        let chars = chars_of(s);
        let span = trim_span(&chars);
        assert_eq!(string_of(slice_of(&chars, span)), s.trim(), "{:?}", s);
    }
}

#[test]
fn prefixes_and_whole_texts() {
    let row = chars_of("vn 0 1 0");
    assert!(starts_with(&row, "vn "));
    assert!(starts_with(&row, ""));
    assert!(starts_with(&row, "vn 0 1 0"));
    assert!(!starts_with(&row, "vn 0 1 0 "));
    assert!(!starts_with(&row, "v  "));
    assert!(eq_str(&row, "vn 0 1 0"));
    assert!(!eq_str(&row, "vn 0 1"));
    assert!(!eq_str(&row, "vn 0 1 0 0"));
    assert!(eq_str(&[], ""));
}

#[test]
fn chars_and_strings_round_trip() {
    let s = "gr\u{fc}n \u{1F600}";
    let chars = chars_of(s);
    assert_eq!(chars.len(), 6);
    assert_eq!(string_of(&chars), s);
    let mut buf = vec!['a'];
    push_str(&mut buf, "bc");
    push_chars(&mut buf, &['d', 'e']);
    assert_eq!(string_of(&buf), "abcde");
}

#[test]
fn decimals_agree_with_the_standard_library() {
    for n in [0u64, 1, 9, 10, 11, 99, 100, 1234567890, u64::MAX] {
        let mut buf = Vec::new();
        push_decimal(&mut buf, n);
        assert_eq!(string_of(&buf), n.to_string());
    }
    for n in [0isize, 1, -1, 10, -10, 4711, -4711, isize::MAX, isize::MIN] {
        let mut buf = Vec::new();
        push_signed_decimal(&mut buf, n);
        assert_eq!(string_of(&buf), n.to_string());
    }
}
