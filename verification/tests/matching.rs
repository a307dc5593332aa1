use aurora::commands::matching::{
    begins_with, close_word, find, has_any, score_reaches, separates, stands_at,
    DEFAULT_THRESHOLD_BITS, INFINITY_BITS, SIGN_BIT,
};
use aurora::normalizer::text::{
    append_text, mark_words, normalize_chars, same_text, squeeze, tail_text, to_chars, to_text,
};

fn chars(text: &str) -> Vec<char> {
    text.chars().collect()
}

#[test]
fn the_default_threshold_is_the_double_0_85() {
    assert_eq!(DEFAULT_THRESHOLD_BITS, 0.85f64.to_bits());
    assert_eq!(SIGN_BIT, (-0.0f64).to_bits());
    assert_eq!(INFINITY_BITS, f64::INFINITY.to_bits());
}

#[test]
fn scores_are_compared_as_doubles() {
    let values = [
        0.0f64,
        -0.0,
        f64::MIN_POSITIVE,
        5e-324,
        -5e-324,
        0.1,
        0.5,
        0.7,
        0.84,
        0.8499999999999999,
        0.85,
        0.8500000000000001,
        0.8666666666666667,
        1.0,
        1.5,
        -0.85,
        -1.0,
        1e300,
        -1e300,
        f64::MAX,
        f64::MIN,
        f64::INFINITY,
        f64::NEG_INFINITY,
        f64::NAN,
        -f64::NAN,
        f64::from_bits(0x7FF0_0000_0000_0001),
        f64::from_bits(0xFFFF_FFFF_FFFF_FFFF),
    ];
    for score in values {
        for threshold in values {
            assert_eq!(
                score_reaches(score.to_bits(), threshold.to_bits()),
                score >= threshold,
                "{score} against {threshold}"
            );
        }
    }
}

#[test]
fn a_needle_is_found_wherever_it_stands() {
    let text = chars("open the browser");
    assert!(find(&text, &chars("open")));
    assert!(find(&text, &chars("the")));
    assert!(find(&text, &chars("browser")));
    assert!(find(&text, &chars("n t")));
    assert!(find(&text, &chars("")));
    assert!(find(&text, &text));
    assert!(!find(&text, &chars("browsers")));
    assert!(!find(&text, &chars("Open")));
    assert!(!find(&chars(""), &chars("a")));
    assert!(find(&chars(""), &chars("")));
    assert!(find(&chars("відкрий браузер"), &chars("браузер")));
}

#[test]
fn a_needle_stands_at_a_position_or_not() {
    let text = chars("abcabc");
    assert!(stands_at(&text, &chars("abc"), 0));
    assert!(stands_at(&text, &chars("abc"), 3));
    assert!(!stands_at(&text, &chars("abc"), 1));
    assert!(!stands_at(&text, &chars("abc"), 4));
    assert!(stands_at(&text, &chars(""), 6));
    assert!(!stands_at(&text, &chars(""), 7));
    assert!(!stands_at(&text, &chars("abcabca"), 0));
    assert!(!stands_at(&text, &chars("c"), usize::MAX));
    assert!(begins_with(&text, &chars("abca")));
    assert!(!begins_with(&text, &chars("bc")));
}

#[test]
fn words_are_cut_at_ascii_white_space() {
    for c in [' ', '\t', '\n', '\r', '\u{000C}'] {
        assert!(separates(c));
        assert!(c.is_ascii_whitespace());
    }
    for c in ['a', '-', '\u{000B}', '\u{00A0}', '\u{2003}', 'і'] {
        assert!(!separates(c));
        assert!(!c.is_ascii_whitespace());
    }
}

#[test]
fn a_word_matches_by_its_similarity() {
    let high = 1.0f64.to_bits();
    let usual = DEFAULT_THRESHOLD_BITS;
    // "wi" against "wifi" scores 0.8667.
    assert!(close_word(&chars("turn on wi fi"), "wifi", usual));
    assert!(!close_word(&chars("turn on wi fi"), "wifi", 0.87f64.to_bits()));
    assert!(!close_word(&chars("turn on wi fi"), "wifi", high));
    // An equal word scores 1.
    assert!(close_word(&chars("turn on wifi"), "wifi", high));
    assert!(!close_word(&chars("turn on wifis"), "wifi", high));
    // No word at all.
    assert!(!close_word(&chars(""), "wifi", usual));
    assert!(!close_word(&chars("   "), "wifi", usual));
    // Two empty texts would score 1, but there is no empty word.
    assert!(!close_word(&chars(" "), "", usual));
    // With a threshold of zero every word matches.
    assert!(close_word(&chars("x"), "wifi", 0.0f64.to_bits()));
    assert!(!close_word(&chars("x"), "wifi", f64::NAN.to_bits()));
    // The order of the two texts is that of the call.
    assert_eq!(
        close_word(&chars("volume"), "volum", 0.97f64.to_bits()),
        strsim::jaro_winkler("volume", "volum") >= 0.97
    );
}

#[test]
fn the_similarity_is_that_of_jaro_and_winkler() {
    let words = ["wi", "wifi", "volume", "volum", "звук", "зук", "bluetooth", "blutooth", "a"];
    for word in words {
        for needle in words {
            let score = strsim::jaro_winkler(word, needle);
            let text = chars(word);
            assert!(close_word(&text, needle, score.to_bits()));
            if score < 1.0 {
                let above = f64::from_bits(score.to_bits() + 1);
                assert!(!close_word(&text, needle, above.to_bits()));
            }
        }
    }
}

#[test]
fn one_of_the_needles_has_to_match() {
    let usual = DEFAULT_THRESHOLD_BITS;
    let text = chars("turn the volume up");
    assert!(has_any(&text, &["sound", "volume"], usual));
    assert!(has_any(&text, &["lume"], usual));
    assert!(has_any(&text, &["volumes"], usual));
    assert!(!has_any(&text, &["volumes"], 1.0f64.to_bits()));
    assert!(!has_any(&text, &["brightness", "wifi"], usual));
    assert!(!has_any(&text, &[], usual));
    assert!(has_any(&text, &[""], f64::NAN.to_bits()));
}

#[test]
fn texts_and_characters_convert_both_ways() {
    for text in ["", "a", "hello world", "відкрий термінал", "日本語"] {
        let c = to_chars(text);
        assert_eq!(c, chars(text));
        assert_eq!(to_text(&c), text);
        for start in 0..=c.len() {
            assert_eq!(tail_text(&c, start), c[start..].iter().collect::<String>());
        }
    }
    let mut text = String::from("ab");
    append_text(&mut text, "cd");
    append_text(&mut text, "");
    assert_eq!(text, "abcd");
    assert!(same_text("", ""));
    assert!(same_text("аврора", "аврора"));
    assert!(!same_text("aurora", "aurorа"));
    assert!(!same_text("a", "ab"));
    assert!(!same_text("ab", "a"));
}

#[test]
fn words_are_joined_by_single_spaces() {
    let text = chars("..ab,,c  d!");
    let keep = mark_words(&text);
    assert_eq!(
        keep,
        vec![false, false, true, true, false, false, true, false, false, true, false]
    );
    assert_eq!(to_text(&squeeze(&text, &keep)), "ab c d");
    assert_eq!(squeeze(&[], &[]), Vec::<char>::new());
    assert_eq!(squeeze(&chars("abc"), &[false, false, false]), Vec::<char>::new());
    assert_eq!(to_text(&squeeze(&chars("abc"), &[true, false, true])), "a c");
    assert_eq!(to_text(&squeeze(&chars("a c"), &[true, true, true])), "a c");
}

#[test]
fn normal_form_of_some_texts() {
    assert_eq!(to_text(&normalize_chars("")), "");
    assert_eq!(to_text(&normalize_chars("  \t\n ")), "");
    assert_eq!(to_text(&normalize_chars("Hey, AURORA!")), "hey aurora");
    assert_eq!(to_text(&normalize_chars("wi-fi")), "wi fi");
    assert_eq!(to_text(&normalize_chars("that's all")), "that s all");
    assert_eq!(to_text(&normalize_chars("Volume 50%")), "volume 50");
    assert_eq!(to_text(&normalize_chars("ÀÉÎ õü")), "àéî õü");
    assert_eq!(to_text(&normalize_chars("a\u{00A0}b\u{2003}c")), "a b c");
    assert_eq!(to_text(&normalize_chars("x_y")), "x y");
}
