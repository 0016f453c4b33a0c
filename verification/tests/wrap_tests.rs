use kindling::handler::error::wrap_text;

#[test]
fn wrap_breaks_on_word_boundaries_within_cap() {
    // "alpha beta" is 10 characters, "gamma delta" is 11: both fit an
    // 11-character line, and each line is a range into the source.
    let lines = wrap_text("alpha beta gamma delta", 11);
    assert_eq!(lines, vec![(0, 10), (11, 22)]);
}

#[test]
fn wrap_gives_an_oversize_word_its_own_line() {
    let lines = wrap_text("abcdefghij", 4);
    assert_eq!(lines, vec![(0, 10)]);
}

#[test]
fn wrap_skips_extra_spaces_between_lines() {
    let lines = wrap_text("  a  b ", 10);
    assert_eq!(lines, vec![(2, 6)]);
}

#[test]
fn wrap_of_blank_text_has_no_lines() {
    assert_eq!(wrap_text("", 10), vec![]);
    assert_eq!(wrap_text("   ", 5), vec![]);
}

#[test]
fn wrap_lines_fit_the_cap_unless_a_single_word_overflows() {
    let s = "the quick brown fox jumps over the lazy dog";
    let lines = wrap_text(s, 15);
    assert!(!lines.is_empty());
    for &(a, b) in lines.iter() {
        let text: String = s.chars().skip(a).take(b - a).collect();
        // A line longer than the cap can only be a single word.
        assert!(b - a <= 15 || !text.contains(' '));
    }
    // Every word of the source appears in some line.
    let joined: Vec<String> = lines
        .iter()
        .map(|&(a, b)| s.chars().skip(a).take(b - a).collect())
        .collect();
    let words: Vec<&str> = joined.iter().flat_map(|l| l.split(' ')).collect();
    assert_eq!(words, vec!["the", "quick", "brown", "fox", "jumps", "over", "the", "lazy", "dog"]);
}
