use resrap::chars::{chars_of, string_from_chars};
use resrap::escape::unescape_string;
use resrap::fixed::{closest_index, cumulative_distribution, SCALE, WEIGHT_MAX};
use resrap::parser::parse_probability_text;
use resrap::prng::PRNG;

#[test]
fn unescape_resolves_known_escapes() {
    assert_eq!(unescape_string("line1\\nline2"), "line1\nline2");
    assert_eq!(unescape_string("a\\tb"), "a\tb");
    assert_eq!(unescape_string("a\\rb"), "a\rb");
    assert_eq!(unescape_string("a\\\\b"), "a\\b");
    assert_eq!(unescape_string("a\\'b"), "a'b");
    assert_eq!(unescape_string("a\\\"b"), "a\"b");
}

#[test]
fn unescape_keeps_unknown_escapes_verbatim() {
    assert_eq!(unescape_string("a\\qb"), "a\\qb");
}

#[test]
fn unescape_keeps_a_trailing_backslash() {
    assert_eq!(unescape_string("ab\\"), "ab\\");
}

#[test]
fn unescape_leaves_plain_text_alone() {
    assert_eq!(unescape_string(""), "");
    assert_eq!(unescape_string("plain text"), "plain text");
}

#[test]
fn char_conversions_round_trip() {
    let v = chars_of("héllo");
    assert_eq!(v.len(), 5);
    assert_eq!(string_from_chars(&v), "héllo");
    assert_eq!(string_from_chars(&vec!['a', 'b']), "ab");
}

#[test]
fn probability_texts_parse_to_fixed_point() {
    assert_eq!(parse_probability_text("0.5"), Some(500000));
    assert_eq!(parse_probability_text("1"), Some(1000000));
    assert_eq!(parse_probability_text("1."), Some(1000000));
    assert_eq!(parse_probability_text(".25"), Some(250000));
    assert_eq!(parse_probability_text("2.5"), Some(2500000));
    assert_eq!(parse_probability_text("0.1234567"), Some(123456));
    assert_eq!(parse_probability_text("0001"), Some(1000000));
    assert_eq!(parse_probability_text("0"), Some(0));
}

#[test]
fn probability_texts_saturate_at_the_weight_cap() {
    assert_eq!(parse_probability_text("99999999"), Some(WEIGHT_MAX));
    assert_eq!(parse_probability_text("1000000"), Some(WEIGHT_MAX));
    assert_eq!(parse_probability_text("999999.999999"), Some(999999999999));
}

#[test]
fn malformed_probability_texts_are_rejected() {
    assert_eq!(parse_probability_text(""), None);
    assert_eq!(parse_probability_text("."), None);
    assert_eq!(parse_probability_text("abc"), None);
    assert_eq!(parse_probability_text("1.2.3"), None);
    assert_eq!(parse_probability_text("1x"), None);
    assert_eq!(parse_probability_text("-0.5"), None);
}

#[test]
fn same_seed_gives_the_same_sequence() {
    let mut a = PRNG::new(42);
    let mut b = PRNG::new(42);
    for _ in 0..100 {
        assert_eq!(a.next_prn(), b.next_prn());
    }
}

#[test]
fn set_seed_restarts_the_sequence() {
    let mut a = PRNG::new(7);
    let first = a.next_prn();
    a.set_seed(7);
    assert_eq!(a.next_prn(), first);
}

#[test]
fn random_draws_stay_inside_the_unit() {
    let mut p = PRNG::new(99);
    for _ in 0..1000 {
        assert!(p.random() < SCALE);
    }
}

#[test]
fn random_int_stays_inside_its_bounds() {
    let mut p = PRNG::new(3);
    for _ in 0..1000 {
        let r = p.random_int(3, 4);
        assert!((3..7).contains(&r));
    }
    assert_eq!(p.random_int(5, 2), 5);
}

#[test]
fn entropy_seeding_gives_fresh_sequences() {
    // a zero seed asks for machine entropy; two generators should not
    // produce the same stream
    let mut a = PRNG::new(0);
    let mut b = PRNG::new(0);
    let sa: Vec<u64> = (0..4).map(|_| a.next_prn()).collect();
    let sb: Vec<u64> = (0..4).map(|_| b.next_prn()).collect();
    assert_ne!(sa, sb);
}

#[test]
fn cumulative_distribution_normalizes_exactly() {
    let ws = vec![1u64, 1];
    let cdf = cumulative_distribution(&ws);
    assert_eq!(cdf, vec![500000, 1000000]);

    let ws = vec![1u64, 2, 1];
    let cdf = cumulative_distribution(&ws);
    assert_eq!(cdf, vec![250000, 750000, 1000000]);
}

#[test]
fn zero_total_weight_falls_back_to_uniform() {
    let ws = vec![0u64, 0, 0, 0];
    let cdf = cumulative_distribution(&ws);
    assert_eq!(cdf, vec![250000, 500000, 750000, 1000000]);
}

#[test]
fn closest_index_picks_the_first_entry_at_or_above_the_draw() {
    let cdf = vec![250000u64, 750000, 1000000];
    assert_eq!(closest_index(&cdf, 0), 0);
    assert_eq!(closest_index(&cdf, 250000), 0);
    assert_eq!(closest_index(&cdf, 250001), 1);
    assert_eq!(closest_index(&cdf, 999999), 2);
}
