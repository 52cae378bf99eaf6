use quiz_scoreboard::data::PlayerStatus;
use quiz_scoreboard::display::{ordinal_suffix, score_caption, wrap_text};
use quiz_scoreboard::text::{i32_text, parse_i32, parse_usize, same_text, usize_text};

#[test]
fn wrapping_breaks_every_width_characters() {
    assert_eq!(wrap_text("abcdef", 2), "ab\n     cd\n     ef");
    assert_eq!(wrap_text("abc", 5), "abc");
    assert_eq!(wrap_text("", 0), "");
    assert_eq!(wrap_text("x", 0), "x");
    assert_eq!(wrap_text("あいう", 2), "あい\n     う");
}

#[test]
fn ordinal_suffixes() {
    let cases = [(1, "st"), (2, "nd"), (3, "rd"), (4, "th"), (11, "th"), (12, "th"), (13, "th"), (21, "st"), (112, "th"), (0, "th")];
    for (n, s) in cases {
        assert_eq!(ordinal_suffix(n), s, "n = {}", n);
    }
}

#[test]
fn score_captions() {
    let mut s = PlayerStatus::new();
    s.score = 3;
    assert_eq!(score_caption(&s), ("3".to_string(), false));
    s.is_winner = true;
    assert_eq!(score_caption(&s), ("3\n(Win!)    ".to_string(), true));
    s.finish_rank = Some(2);
    assert_eq!(score_caption(&s), ("3\n(Win! #2)".to_string(), true));
    s.is_winner = false;
    s.is_eliminated = true;
    s.score = -1;
    assert_eq!(score_caption(&s), ("-1\n(Elim #2)".to_string(), true));
    s.is_eliminated = false;
    assert_eq!(score_caption(&s), ("-1\n(Rnk  #2)".to_string(), true));
    s.finish_rank = None;
    s.is_eliminated = true;
    assert_eq!(score_caption(&s).0, "-1\n(Elim)    ");
}

#[test]
fn number_texts() {
    assert_eq!(parse_usize("42"), Some(42));
    assert_eq!(parse_usize("+7"), Some(7));
    assert_eq!(parse_usize(""), None);
    assert_eq!(parse_usize("+"), None);
    assert_eq!(parse_usize(" 1"), None);
    assert_eq!(parse_usize("18446744073709551616"), None);
    assert_eq!(parse_i32("-2147483648"), Some(i32::MIN));
    assert_eq!(parse_i32("2147483648"), None);
    assert_eq!(parse_i32("-"), None);
    assert_eq!(i32_text(-45), "-45");
    assert_eq!(usize_text(0), "0");
    assert_eq!(usize_text(1203), "1203");
    assert!(same_text("buzz", "buzz"));
    assert!(!same_text("buzz", "buz"));
    assert!(!same_text("buzz", "fizz"));
}

#[test]
fn wrapping_only_inserts_breaks() {
    let text = "abcdefghij";
    let r = wrap_text(text, 3);
    assert_eq!(r.chars().count(), 10 + 6 * ((10 - 1) / 3));
    assert_eq!(r.replace("\n     ", ""), text);
    assert_eq!(r, "abc\n     def\n     ghi\n     j");
}
