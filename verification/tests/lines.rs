use lightgrep::{contains, lines};

#[test]
fn lines_end_at_line_feeds() {
    assert_eq!(vec!["a", "b", "c"], lines("a\nb\nc"));
}

#[test]
fn empty_text_has_no_line() {
    assert!(lines("").is_empty());
}

#[test]
fn final_line_feed_adds_no_line() {
    assert_eq!(vec!["a", "b"], lines("a\nb\n"));
    assert_eq!(vec!["a"], lines("a\n"));
}

#[test]
fn empty_lines_are_lines() {
    assert_eq!(vec![""], lines("\n"));
    assert_eq!(vec!["", ""], lines("\n\n"));
    assert_eq!(vec!["a", "", "b"], lines("a\n\nb"));
}

#[test]
fn carriage_return_before_line_feed_is_dropped() {
    assert_eq!(vec!["a", "b"], lines("a\r\nb\r\n"));
    assert_eq!(vec!["", "x"], lines("\r\nx"));
}

#[test]
fn only_one_carriage_return_is_dropped() {
    assert_eq!(vec!["a\r", "b"], lines("a\r\r\nb"));
}

#[test]
fn carriage_return_elsewhere_stays() {
    assert_eq!(vec!["a\rb"], lines("a\rb"));
    assert_eq!(vec!["a", "b\r"], lines("a\nb\r"));
    assert_eq!(vec!["\r"], lines("\r"));
}

#[test]
fn lines_agree_with_the_standard_library() {
    let texts = [
        "",
        "\n",
        "\r",
        "\r\n",
        "a",
        "a\n",
        "a\r\n",
        "a\r",
        "a\n\rb\n",
        "one\ntwo\r\nthree\r\r\n\nfour\r",
        "\u{e9}t\u{e9}\n\u{65e5}\u{672c}\r\n\u{1f600}",
    ];
    for text in texts {
        let expected: Vec<&str> = text.lines().collect();
        assert_eq!(expected, lines(text));
    }
}

#[test]
fn lines_of_text_beyond_ascii() {
    assert_eq!(
        vec!["\u{e9}t\u{e9}", "\u{65e5}\u{672c}", "\u{1f600}"],
        lines("\u{e9}t\u{e9}\n\u{65e5}\u{672c}\r\n\u{1f600}\n")
    );
}

#[test]
fn contains_finds_a_run_of_characters() {
    assert!(contains("safe, fast, productive.", "duct"));
    assert!(contains("safe, fast, productive.", "safe"));
    assert!(contains("safe, fast, productive.", "."));
    assert!(contains("abc", "abc"));
    assert!(!contains("Duct tape.", "duct"));
    assert!(!contains("abc", "abcd"));
    assert!(!contains("abc", "ac"));
}

#[test]
fn contains_finds_the_empty_string_everywhere() {
    assert!(contains("abc", ""));
    assert!(contains("", ""));
    assert!(!contains("", "a"));
}

#[test]
fn contains_finds_a_late_match_after_a_partial_one() {
    assert!(contains("aaab", "aab"));
    assert!(contains("abababc", "ababc"));
    assert!(!contains("ababab", "ababc"));
}

#[test]
fn contains_agrees_with_the_standard_library() {
    let texts = ["", "a", "ab", "ba", "aab", "aba", "\u{e9}", "a\u{e9}b", "\u{65e5}\u{672c}"];
    for haystack in texts {
        for needle in texts {
            assert_eq!(haystack.contains(needle), contains(haystack, needle));
        }
    }
}

/// All texts of at most `longest` characters over `alphabet`.
fn texts_over(alphabet: &[char], longest: usize) -> Vec<String> {
    let mut all = vec![String::new()];
    let mut last = vec![String::new()];
    for _ in 0..longest {
        let mut next = Vec::new();
        for text in &last {
            for letter in alphabet {
                let mut longer = text.clone();
                longer.push(*letter);
                next.push(longer);
            }
        }
        all.extend(next.iter().cloned());
        last = next;
    }
    all
}

#[test]
fn lines_agree_with_the_standard_library_on_all_short_texts() {
    for text in texts_over(&['a', '\n', '\r'], 7) {
        let expected: Vec<&str> = text.lines().collect();
        assert_eq!(expected, lines(&text));
    }
}

#[test]
fn contains_agrees_with_the_standard_library_on_all_short_texts() {
    let needles = texts_over(&['a', 'b', '\u{e9}'], 3);
    for haystack in texts_over(&['a', 'b', '\u{e9}'], 5) {
        for needle in &needles {
            assert_eq!(haystack.contains(needle.as_str()), contains(&haystack, needle));
        }
    }
}
