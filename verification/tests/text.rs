use raggust::text::{chars_of, push_decimal, string_from_chars, trim_bounds, trim_text};

#[test]
fn trim_text_removes_surrounding_whitespace_only() {
    assert_eq!(trim_text("  a b\t\n"), "a b");
    assert_eq!(trim_text("ab"), "ab");
    assert_eq!(trim_text(" \t\r\n"), "");
    assert_eq!(trim_text(""), "");
    assert_eq!(trim_text("\u{2028}x\u{85}"), "x");
}

#[test]
fn trim_text_matches_str_trim() {
    for s in ["", " ", "a", " a", "a ", " a b ", "\u{3000}z\u{200b}", "\u{feff}q "] {
        assert_eq!(trim_text(s), s.trim());
    }
}

#[test]
fn trim_bounds_finds_the_inner_piece() {
    let chars: Vec<char> = "  xy z  ".chars().collect();
    assert_eq!(trim_bounds(&chars, 0, chars.len()), (2, 6));
    assert_eq!(trim_bounds(&chars, 3, 5), (3, 4));
    let (a, b) = trim_bounds(&chars, 0, 2);
    assert_eq!(a, b);
}

#[test]
fn chars_of_and_back() {
    let text = "héllo, 世界";
    let chars = chars_of(text);
    assert_eq!(chars.len(), 9);
    assert_eq!(string_from_chars(&chars, 0, chars.len()), text);
    assert_eq!(string_from_chars(&chars, 7, 9), "世界");
}

#[test]
fn decimal_rendering() {
    for n in [0usize, 7, 10, 99, 100, 12345, usize::MAX] {
        let mut s = String::from("n=");
        push_decimal(&mut s, n);
        assert_eq!(s, format!("n={}", n));
    }
}
