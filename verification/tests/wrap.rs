use eipi::confession::{confession_height, wrap_text};

#[test]
fn wrap_packs_words_greedily() {
    let lines = wrap_text("the quick brown fox jumps", 10);
    assert_eq!(lines, vec!["the quick", "brown fox", "jumps"]);
}

#[test]
fn wrap_empty_text_gives_one_empty_line() {
    assert_eq!(wrap_text("", 10), vec![String::new()]);
    assert_eq!(wrap_text("   \n\t ", 10), vec![String::new()]);
}

#[test]
fn wrap_cuts_long_words() {
    let lines = wrap_text("ab abcdefghij xy", 4);
    assert_eq!(lines, vec!["ab", "abcd", "efgh", "ij", "xy"]);
}

#[test]
fn height_counts_lines_and_borders() {
    assert_eq!(confession_height("hello"), 3);
    assert_eq!(confession_height(""), 3);
}

use eipi::confession::{height_fits, is_allowed, normalize, wraps, BOX_INNER_WIDTH};

#[test]
fn wrap_joins_words_with_single_spaces() {
    assert_eq!(wrap_text("  a   b\n\nc  ", 10), vec!["a b c"]);
}

#[test]
fn wrap_exact_width_fits() {
    assert_eq!(wrap_text("abcd efgh", 9), vec!["abcd efgh"]);
    assert_eq!(wrap_text("abcd efghi", 9), vec!["abcd", "efghi"]);
}

#[test]
fn wrap_long_word_after_current_line() {
    // The current line is flushed before a long word is cut; the remainder starts a line.
    assert_eq!(wrap_text("xy abcdefg z", 3), vec!["xy", "abc", "def", "g z"]);
}

#[test]
fn wrap_counts_bytes_not_chars() {
    let text = "é".repeat(20);
    assert!(wraps(&text, 38));
    assert_eq!(wrap_text(&text, 38), vec!["é".repeat(19), "é".to_string()]);
}

#[test]
fn wraps_refuses_cut_inside_a_char() {
    assert!(!wraps(&"€".repeat(13), 38));
    assert!(wraps(&"€".repeat(12), 38));
    assert!(wraps("abc de", 3));
}

#[test]
fn height_of_multi_line_text() {
    let text = "one two three four five six seven eight nine ten eleven twelve";
    let lines = wrap_text(text, BOX_INNER_WIDTH);
    assert_eq!(lines.len(), 2);
    assert_eq!(confession_height(text), 4);
    assert!(height_fits(text));
    assert!(!height_fits(&"€".repeat(13)));
}

#[test]
fn normalize_undoes_leetspeak_and_drops_punctuation() {
    let n: String = normalize("H3ll0 W0rld!").into_iter().collect();
    assert_eq!(n, "hello worldi");
    let n: String = normalize("k.y.s 4 @ll $7u").into_iter().collect();
    assert_eq!(n, "kys a all stu");
}

#[test]
fn blocked_words_are_refused() {
    assert!(is_allowed("i love this place"));
    assert!(!is_allowed("kys"));
    assert!(!is_allowed("Just KYS already"));
    assert!(!is_allowed("k1ll y0urself"));
    assert!(!is_allowed("g0 d!e"));
    assert!(!is_allowed("k.y.s"));
    // A blocked word inside another word is refused as well.
    assert!(!is_allowed("skyscraper"));
}

use eipi::confession::age_text;

#[test]
fn ages_in_words() {
    assert_eq!(age_text(-5), "just now");
    assert_eq!(age_text(0), "just now");
    assert_eq!(age_text(59), "just now");
    assert_eq!(age_text(60), "1m ago");
    assert_eq!(age_text(3599), "59m ago");
    assert_eq!(age_text(3600), "1h ago");
    assert_eq!(age_text(86399), "23h ago");
    assert_eq!(age_text(86400), "1d ago");
    assert_eq!(age_text(10 * 86400 + 5), "10d ago");
}

#[test]
fn disguised_blocked_phrases_are_refused() {
    assert!(!is_allowed("ok then K!-L-L y0ur$3lf, fine"));
    assert!(!is_allowed("G0 D1E"));
    assert!(!is_allowed("xx k;y;5 yy"));
    assert!(is_allowed("keys"));
}

#[test]
fn case_and_surroundings_do_not_unblock() {
    for s in ["kys", "Kys", "kYs", "KYS"] {
        assert!(!is_allowed(s));
        assert!(!is_allowed(&format!("hello {} world", s)));
    }
    assert!(is_allowed("Hello World"));
    assert!(is_allowed("HELLO WORLD"));
}
