use quote_bot::wrap::wrap_text;

fn mono(t: &str, s: u32) -> (u32, u32) {
    (t.chars().count() as u32 * s, s)
}

fn wrap(text: &str, max_width: u32) -> Vec<String> {
    wrap_text(text, &mono, 1, max_width)
}

fn acceptable(line: &str, max_width: u32) -> bool {
    let chars: Vec<char> = line.chars().collect();
    let n = chars.len() as u32;
    if n <= max_width {
        return true;
    }
    if chars[chars.len() - 1].is_whitespace() && n - 1 <= max_width {
        return true;
    }
    chars[..chars.len() - 1].iter().all(|c| !c.is_whitespace())
}

#[test]
fn fitting_text_is_one_line() {
    assert_eq!(wrap("hello world", 11), vec!["hello world".to_string()]);
    assert_eq!(wrap("hello world", 40), vec!["hello world".to_string()]);
}

#[test]
fn wrapping_a_fitting_line_again_keeps_it() {
    let once = wrap("a fitting line", 20);
    assert_eq!(once.len(), 1);
    assert_eq!(wrap(&once[0], 20), once);
}

#[test]
fn empty_text_is_one_empty_line() {
    assert_eq!(wrap("", 5), vec![String::new()]);
}

#[test]
fn breaks_after_last_fitting_space() {
    assert_eq!(wrap("one two three", 9), vec!["one two ".to_string(), "three".to_string()]);
}

#[test]
fn overflowing_space_ends_the_line() {
    assert_eq!(wrap("ab cd ef", 5), vec!["ab cd ".to_string(), "ef".to_string()]);
    assert_eq!(
        wrap("hello world foo", 11),
        vec!["hello world ".to_string(), "foo".to_string()]
    );
}

#[test]
fn long_token_is_forced_apart() {
    assert_eq!(wrap("abcdefgh", 3), vec!["abcd".to_string(), "efgh".to_string()]);
    assert_eq!(
        wrap("abcdefghij", 3),
        vec!["abcd".to_string(), "efgh".to_string(), "ij".to_string()]
    );
}

#[test]
fn lines_are_acceptable_and_lose_nothing() {
    let texts = [
        "Lorem ipsum dolor sit amet, consectetur adipiscing elit.",
        "a bb ccc dddd eeeee ffffff ggggggg",
        "supercalifragilistic words here",
        "  spaced   out   text  ",
    ];
    for text in texts {
        for max_width in 1..12 {
            let lines = wrap(text, max_width);
            assert!(!lines.is_empty());
            assert_eq!(lines.concat(), text);
            for line in &lines {
                assert!(!line.is_empty());
                assert!(acceptable(line, max_width), "{line:?} at {max_width}");
            }
        }
    }
}

#[test]
fn scale_changes_the_breaks() {
    let lines = wrap_text("ab cd", &mono, 2, 6);
    assert_eq!(lines, vec!["ab ".to_string(), "cd".to_string()]);
    let lines = wrap_text("ab cd", &mono, 1, 6);
    assert_eq!(lines, vec!["ab cd".to_string()]);
}

#[test]
fn whitespace_agrees_with_std() {
    for u in 0u32..0x3100 {
        if let Some(c) = char::from_u32(u) {
            assert_eq!(quote_bot::wrap::is_whitespace(c), c.is_whitespace(), "{u:#x}");
        }
    }
    assert!(!quote_bot::wrap::is_whitespace('\u{FEFF}'));
}
