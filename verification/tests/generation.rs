use resrap::builder::{compile, generate, generate_seeded};

fn compiled(text: &str) -> resrap::frozen::FrozenSyntaxGraph {
    compile(text.to_string()).expect("grammar should compile")
}

#[test]
fn single_literal_budget_one_always_yields_it() {
    let g = compiled("Rule: 'x';");
    for seed in 1..200u64 {
        let out = generate_seeded(&g, "Rule".to_string(), seed, 1).unwrap();
        assert_eq!(out, "x");
    }
}

#[test]
fn alternatives_with_default_weights_split_evenly() {
    let g = compiled("Rule: 'a' | 'b';");
    let mut a = 0usize;
    let mut b = 0usize;
    for seed in 1..=10000u64 {
        let out = generate_seeded(&g, "Rule".to_string(), seed, 1).unwrap();
        if out == "a" {
            a += 1;
        } else if out == "b" {
            b += 1;
        } else {
            panic!("unexpected output {:?}", out);
        }
    }
    assert!(a + b == 10000);
    assert!(a >= 4500 && a <= 5500, "a occurred {} times", a);
    assert!(b >= 4500 && b <= 5500, "b occurred {} times", b);
}

#[test]
fn maybe_with_default_weight_emits_or_skips_evenly() {
    let g = compiled("Rule: 'a' ?;");
    let mut empty = 0usize;
    let mut aa = 0usize;
    for seed in 1..=10000u64 {
        let out = generate_seeded(&g, "Rule".to_string(), seed, 1).unwrap();
        if out.is_empty() {
            empty += 1;
        } else if out == "a" {
            aa += 1;
        } else {
            panic!("unexpected output {:?}", out);
        }
    }
    assert!(empty + aa == 10000);
    assert!(empty >= 4500 && empty <= 5500, "empty occurred {} times", empty);
    assert!(aa >= 4500 && aa <= 5500, "a occurred {} times", aa);
}

#[test]
fn mutual_reference_produces_call_and_return() {
    let g = compiled("A: B 'z'; B: 'y';");
    for seed in 1..50u64 {
        let out = generate_seeded(&g, "A".to_string(), seed, 2).unwrap();
        assert_eq!(out, "yz");
    }
}

#[test]
fn same_seed_gives_byte_identical_output() {
    let g = compiled("S: 'a' | 'b' 'c' + | D; D: 'd' *;");
    let first = generate_seeded(&g, "S".to_string(), 42, 5).unwrap();
    let second = generate_seeded(&g, "S".to_string(), 42, 5).unwrap();
    assert_eq!(first, second);
}

#[test]
fn different_seeds_usually_differ() {
    let g = compiled("S: 'a' | 'b' | 'c' | 'd' | 'e' | 'f' | 'g' | 'h';");
    let mut differing = 0usize;
    let mut trials = 0usize;
    for seed in 1..=200u64 {
        let one = generate_seeded(&g, "S".to_string(), seed, 3).unwrap();
        let other = generate_seeded(&g, "S".to_string(), seed + 1000, 3).unwrap();
        trials += 1;
        if one != other {
            differing += 1;
        }
    }
    assert!(trials == 200);
    assert!(differing > 100, "only {} of 200 seed pairs differed", differing);
}

#[test]
fn budget_zero_yields_empty_output() {
    let g = compiled("Rule: 'x';");
    let out = generate_seeded(&g, "Rule".to_string(), 7, 0).unwrap();
    assert_eq!(out, "");
}

#[test]
fn budget_counts_emitted_tokens() {
    // a self-recursive rule emits forever; the budget alone cuts it off
    let g = compiled("Rule: 'x' Rule;");
    let out = generate_seeded(&g, "Rule".to_string(), 5, 4).unwrap();
    assert_eq!(out, "xxxx");
}

#[test]
fn unknown_start_rule_is_rejected() {
    let g = compiled("Rule: 'x';");
    let r = generate_seeded(&g, "Nope".to_string(), 3, 1);
    assert!(r.is_err());
    assert_eq!(r.unwrap_err(), resrap::frozen::GenError::UnknownStart);
}

#[test]
fn entropy_seeded_generation_still_conforms() {
    // seed zero asks for machine entropy; the output must still conform
    let g = compiled("Rule: 'a' | 'b';");
    for _ in 0..20 {
        let out = generate(&g, "Rule".to_string(), 1).unwrap();
        assert!(out == "a" || out == "b", "unexpected output {:?}", out);
    }
}

#[test]
fn class_sampling_draws_from_the_alphabet() {
    let g = compiled("Word: [a-c];");
    for seed in 1..100u64 {
        let out = generate_seeded(&g, "Word".to_string(), seed, 1).unwrap();
        assert!(out.len() >= 3 && out.len() <= 6, "length {} out of range", out.len());
        assert!(out.chars().all(|c| c == 'a' || c == 'b' || c == 'c'), "bad chars in {:?}", out);
    }
}

#[test]
fn empty_class_emits_nothing() {
    let g = compiled("Word: [];");
    let out = generate_seeded(&g, "Word".to_string(), 9, 1).unwrap();
    assert_eq!(out, "");
}

#[test]
fn escapes_resolve_at_emission_time() {
    let g = compiled("A: 'line1\\nline2';");
    let out = generate_seeded(&g, "A".to_string(), 5, 1).unwrap();
    assert_eq!(out, "line1\nline2");

    let g2 = compiled("B: 'a\\qb';");
    let out2 = generate_seeded(&g2, "B".to_string(), 5, 1).unwrap();
    assert_eq!(out2, "a\\qb");
}

#[test]
fn grouped_sequence_generates_in_order() {
    let g = compiled("S: ( 'a' 'b' );");
    let out = generate_seeded(&g, "S".to_string(), 11, 2).unwrap();
    assert_eq!(out, "ab");
}
