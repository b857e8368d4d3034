use speakturbo::text::{is_blank, trim_bounds};

fn trim_by_bounds(text: &str) -> String {
    let chars: Vec<char> = text.chars().collect();
    let (start, end) = trim_bounds(&chars);
    assert!(start <= end && end <= chars.len());
    chars[start..end].iter().collect()
}

#[test]
fn empty_text_is_blank() {
    assert!(is_blank(""));
}

#[test]
fn white_space_is_blank() {
    assert!(is_blank(" "));
    assert!(is_blank("   \t\r\n  "));
    assert!(is_blank("\u{a0}\u{2003}\u{3000}\u{85}"));
}

#[test]
fn text_with_a_letter_is_not_blank() {
    assert!(!is_blank("a"));
    assert!(!is_blank("  a"));
    assert!(!is_blank("a  "));
    assert!(!is_blank(" \n a \t "));
    assert!(!is_blank("   ."));
    assert!(!is_blank("\u{200b}"));
}

#[test]
fn is_blank_agrees_with_trim() {
    for text in ["", " ", "x", " x", "x ", "\t\t", "\n", "é", " é ", "\u{feff}", "\u{2028}"] {
        assert_eq!(is_blank(text), text.trim().is_empty(), "{:?}", text);
    }
}

#[test]
fn trim_bounds_of_plain_text() {
    let chars: Vec<char> = "abc".chars().collect();
    assert_eq!(trim_bounds(&chars), (0, 3));
}

#[test]
fn trim_bounds_cut_white_space_on_both_sides() {
    let chars: Vec<char> = "  ab c \t".chars().collect();
    assert_eq!(trim_bounds(&chars), (2, 6));
}

#[test]
fn trim_bounds_of_blank_text_are_empty() {
    let chars: Vec<char> = "   ".chars().collect();
    let (start, end) = trim_bounds(&chars);
    assert_eq!(start, end);
    let none: Vec<char> = Vec::new();
    assert_eq!(trim_bounds(&none), (0, 0));
}

#[test]
fn trim_bounds_agree_with_trim() {
    for text in [
        "",
        " ",
        "a",
        " a",
        "a ",
        "  a b  ",
        "\t/tmp/out\r",
        "\u{3000}é\u{a0}",
        "# note ",
        " ~ ",
        "\n\nx\n\n",
    ] {
        assert_eq!(trim_by_bounds(text), text.trim(), "{:?}", text);
    }
}
