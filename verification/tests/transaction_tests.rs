use blockchain_api::transaction::{clone_batch, first_invalid, write_batch, Txn};

fn txn(amount: f64, from: &str, to: &str) -> Txn {
    Txn::new(amount.to_bits(), from.to_string(), to.to_string())
}

#[test]
fn new_keeps_the_three_fields() {
    let t = txn(10.0, "alice", "bob");
    assert_eq!(f64::from_bits(t.amount), 10.0);
    assert_eq!(t.from, "alice");
    assert_eq!(t.to, "bob");
}

#[test]
fn positive_amount_between_named_parties_is_valid() {
    assert!(txn(10.0, "alice", "bob").is_valid());
    assert!(txn(0.5, "a", "b").is_valid());
    assert!(txn(f64::MAX, " a ", "\tb\n").is_valid());
    assert!(txn(f64::MIN_POSITIVE, "a", "b").is_valid());
    assert!(txn(f64::from_bits(1), "a", "b").is_valid());
    assert!(txn(f64::INFINITY, "a", "b").is_valid());
}

#[test]
fn amount_must_be_strictly_positive() {
    assert!(!txn(0.0, "alice", "bob").is_valid());
    assert!(!txn(-0.0, "alice", "bob").is_valid());
    assert!(!txn(-5.0, "a", "b").is_valid());
    assert!(!txn(-0.5, "a", "b").is_valid());
    assert!(!txn(f64::MIN, "a", "b").is_valid());
    assert!(!txn(f64::NEG_INFINITY, "a", "b").is_valid());
    assert!(!txn(f64::NAN, "a", "b").is_valid());
    assert!(!txn(-f64::NAN, "a", "b").is_valid());
}

#[test]
fn amount_rule_is_the_comparison_with_zero() {
    let mut bits: u64 = 0x9E37_79B9_7F4A_7C15;
    for _ in 0..200_000 {
        bits = bits.wrapping_mul(6364136223846793005).wrapping_add(1442695040888963407);
        let amount = f64::from_bits(bits);
        assert_eq!(txn(amount, "a", "b").is_valid(), amount > 0.0, "for bits {:#x}", bits);
    }
    for bits in [
        0u64,
        1,
        0x000F_FFFF_FFFF_FFFF,
        0x0010_0000_0000_0000,
        0x7FEF_FFFF_FFFF_FFFF,
        0x7FF0_0000_0000_0000,
        0x7FF0_0000_0000_0001,
        0x7FF8_0000_0000_0000,
        0x7FFF_FFFF_FFFF_FFFF,
        0x8000_0000_0000_0000,
        0x8000_0000_0000_0001,
        0xFFF0_0000_0000_0000,
        0xFFFF_FFFF_FFFF_FFFF,
    ] {
        let amount = f64::from_bits(bits);
        assert_eq!(txn(amount, "a", "b").is_valid(), amount > 0.0, "for bits {:#x}", bits);
        assert_eq!(Txn::new(bits, "a".to_string(), "b".to_string()).amount, bits);
    }
}

#[test]
fn blank_party_is_invalid() {
    assert!(!txn(10.0, "", "bob").is_valid());
    assert!(!txn(10.0, "alice", "").is_valid());
    assert!(!txn(10.0, "   ", "bob").is_valid());
    assert!(!txn(10.0, "alice", " \t\r\n").is_valid());
    assert!(!txn(10.0, "\u{2003}", "bob").is_valid());
}

#[test]
fn first_invalid_gives_the_first_offending_index() {
    assert_eq!(first_invalid(&vec![]), None);
    assert_eq!(first_invalid(&vec![txn(1.0, "a", "b"), txn(2.0, "c", "d")]), None);
    assert_eq!(first_invalid(&vec![txn(-5.0, "a", "b")]), Some(0));
    assert_eq!(
        first_invalid(&vec![txn(1.0, "a", "b"), txn(0.0, "c", "d"), txn(3.0, "", "f")]),
        Some(1)
    );
    assert_eq!(
        first_invalid(&vec![txn(1.0, "a", "b"), txn(2.0, "c", "d"), txn(3.0, " ", "f")]),
        Some(2)
    );
}

#[test]
fn write_to_gives_three_labelled_lines() {
    let mut out = String::from(">");
    txn(10.0, "alice", "bob").write_to(&mut out);
    assert_eq!(out, ">amount 4621819117588971520\nfrom 5:alice\nto 3:bob\n");
}

#[test]
fn write_to_counts_characters_not_bytes() {
    let mut out = String::new();
    txn(-7.0, "zoë", "a\nb").write_to(&mut out);
    assert_eq!(out, "amount 13842939354630062080\nfrom 3:zoë\nto 3:a\nb\n");
}

#[test]
fn write_batch_concatenates_the_records() {
    let mut out = String::new();
    write_batch(&mut out, &vec![txn(1.0, "a", "b"), txn(2.0, "", "d")]);
    assert_eq!(
        out,
        "amount 4607182418800017408\nfrom 1:a\nto 1:b\namount 4611686018427387904\nfrom 0:\nto 1:d\n"
    );
    let mut empty = String::from("x");
    write_batch(&mut empty, &vec![]);
    assert_eq!(empty, "x");
}

#[test]
fn clone_keeps_every_field() {
    let t = txn(42.0, "alice", "bob");
    let copy = t.clone();
    assert_eq!(f64::from_bits(copy.amount), 42.0);
    assert_eq!(copy.from, "alice");
    assert_eq!(copy.to, "bob");
    let batch = vec![txn(1.0, "a", "b"), txn(2.0, "c", "d")];
    let copies = clone_batch(&batch);
    assert_eq!(copies.len(), 2);
    assert_eq!(f64::from_bits(copies[1].amount), 2.0);
    assert_eq!(copies[1].from, "c");
    assert_eq!(copies[1].to, "d");
}

#[test]
fn white_space_is_what_std_takes_for_it() {
    for code in 0..=0x10FFFFu32 {
        if let Some(c) = char::from_u32(code) {
            assert_eq!(
                blockchain_api::transaction::is_white_space_char(c),
                c.is_whitespace(),
                "for U+{:04X}",
                code
            );
        }
    }
}

#[test]
fn blank_is_what_trims_to_nothing() {
    for text in ["", " ", "\t\n\r", "\u{85}\u{A0}\u{1680}", "\u{2000}\u{200A}\u{2028}\u{2029}",
        "\u{202F}\u{205F}\u{3000}", "a", " a", "a ", " a ", "\u{200B}", "\u{180E}", "\u{FEFF}",
        " \u{1F}", "\u{2007}x\u{2007}", "\u{0B}\u{0C}"] {
        assert_eq!(
            blockchain_api::transaction::is_blank(text),
            text.trim().is_empty(),
            "for {:?}",
            text
        );
    }
}

#[test]
fn every_single_character_name_is_judged_as_std_trims_it() {
    for code in 0..=0x3100u32 {
        if let Some(c) = char::from_u32(code) {
            let name = c.to_string();
            let expected = !name.trim().is_empty();
            assert_eq!(txn(1.0, &name, "x").is_valid(), expected, "for U+{:04X}", code);
            assert_eq!(txn(1.0, "x", &name).is_valid(), expected, "for U+{:04X}", code);
        }
    }
}
