use wrencher::field::{add_mod, mul_mod, FieldElement};
use wrencher::numeral::{is_decimal, parse_index};

const P: &str = "21888242871839275222246405745257275088548364400416034343698204186575808495617";
const P_MINUS_1: &str =
    "21888242871839275222246405745257275088548364400416034343698204186575808495616";
const WORD_MAX: &str =
    "115792089237316195423570985008687907853269984665640564039457584007913129639935";
const WORD_BOUND: &str =
    "115792089237316195423570985008687907853269984665640564039457584007913129639936";

fn dec(text: &str) -> FieldElement {
    FieldElement::from_decimal(text).unwrap()
}

fn fe(v: u64) -> FieldElement {
    FieldElement::from_u64(v)
}

#[test]
fn small_sums_and_products() {
    assert_eq!(add_mod(fe(3), fe(5)), fe(8));
    assert_eq!(mul_mod(fe(3), fe(5)), fe(15));
    assert_eq!(mul_mod(fe(420), fe(69)), fe(28980));
}

#[test]
fn sums_wrap_at_the_modulus() {
    assert_eq!(add_mod(dec(P_MINUS_1), fe(1)), fe(0));
    assert_eq!(add_mod(dec(P_MINUS_1), dec(P_MINUS_1)), dec(
        "21888242871839275222246405745257275088548364400416034343698204186575808495615"
    ));
}

#[test]
fn products_are_formed_at_full_width() {
    // (p - 1)^2 = 1 (mod p)
    assert_eq!(mul_mod(dec(P_MINUS_1), dec(P_MINUS_1)), fe(1));
    // (p - 1) * 2 = p - 2 (mod p)
    assert_eq!(mul_mod(dec(P_MINUS_1), fe(2)), dec(
        "21888242871839275222246405745257275088548364400416034343698204186575808495615"
    ));
    // 2^128 * 2^128 = 2^256 = 6350874878119819312338956282401532410528162663560392320966563075034087161851 (mod p)
    let two_128 = dec("340282366920938463463374607431768211456");
    assert_eq!(mul_mod(two_128, two_128), dec(
        "6350874878119819312338956282401532410528162663560392320966563075034087161851"
    ));
}

#[test]
fn unreduced_operands_are_reduced() {
    assert_eq!(add_mod(dec(P), fe(7)), fe(7));
    assert_eq!(mul_mod(dec(P), fe(7)), fe(0));
    // 2^256 - 1 = 6350874878119819312338956282401532410528162663560392320966563075034087161850 (mod p)
    assert_eq!(add_mod(dec(WORD_MAX), fe(0)), dec(
        "6350874878119819312338956282401532410528162663560392320966563075034087161850"
    ));
}

#[test]
fn results_are_below_the_modulus() {
    let samples = [fe(0), fe(1), fe(u64::MAX), dec(P_MINUS_1), dec(P), dec(WORD_MAX)];
    let p = FieldElement::modulus();
    let below = |x: FieldElement| {
        (x.limb3, x.limb2, x.limb1, x.limb0) < (p.limb3, p.limb2, p.limb1, p.limb0)
    };
    for a in samples {
        for b in samples {
            assert!(below(add_mod(a, b)));
            assert!(below(mul_mod(a, b)));
        }
    }
}

#[test]
fn operations_are_commutative_and_associative() {
    let samples = [fe(0), fe(1), fe(12345), fe(u64::MAX), dec(P_MINUS_1), dec(WORD_MAX)];
    for a in samples {
        for b in samples {
            assert_eq!(add_mod(a, b), add_mod(b, a));
            assert_eq!(mul_mod(a, b), mul_mod(b, a));
            for c in samples {
                assert_eq!(add_mod(add_mod(a, b), c), add_mod(a, add_mod(b, c)));
                assert_eq!(mul_mod(mul_mod(a, b), c), mul_mod(a, mul_mod(b, c)));
            }
        }
    }
}

#[test]
fn identities() {
    for a in [fe(0), fe(1), fe(99), dec(P_MINUS_1)] {
        assert_eq!(add_mod(a, FieldElement::zero()), a);
        assert_eq!(mul_mod(a, FieldElement::one()), a);
    }
}

#[test]
fn modulus_has_the_stated_value() {
    assert_eq!(FieldElement::modulus(), dec(P));
    assert_eq!(FieldElement::zero(), dec("0"));
    assert_eq!(FieldElement::one(), dec("1"));
}

#[test]
fn limbs_are_least_significant_first() {
    assert_eq!(
        dec("18446744073709551616"),
        FieldElement { limb0: 0, limb1: 1, limb2: 0, limb3: 0 }
    );
    assert_eq!(
        dec("340282366920938463463374607431768211457"),
        FieldElement { limb0: 1, limb1: 0, limb2: 1, limb3: 0 }
    );
    assert_eq!(
        dec(WORD_MAX),
        FieldElement { limb0: u64::MAX, limb1: u64::MAX, limb2: u64::MAX, limb3: u64::MAX }
    );
    assert_eq!(fe(77), FieldElement { limb0: 77, limb1: 0, limb2: 0, limb3: 0 });
}

#[test]
fn numerals_are_read() {
    assert_eq!(FieldElement::from_decimal("0"), Some(fe(0)));
    assert_eq!(FieldElement::from_decimal("28980"), Some(fe(28980)));
    assert_eq!(FieldElement::from_decimal("007"), Some(fe(7)));
    assert_eq!(FieldElement::from_decimal("18446744073709551615"), Some(fe(u64::MAX)));
}

#[test]
fn other_strings_are_rejected() {
    for text in ["", " 1", "1 ", "+1", "-1", "1_000", "0x10", "0b1", "0o7", "1.0", "12a", "١٢"] {
        assert_eq!(FieldElement::from_decimal(text), None, "{:?}", text);
        assert!(!is_decimal(text));
    }
    assert!(is_decimal("0123456789"));
}

#[test]
fn numerals_beyond_the_word_are_rejected() {
    assert!(FieldElement::from_decimal(WORD_MAX).is_some());
    assert_eq!(FieldElement::from_decimal(WORD_BOUND), None);
    assert!(is_decimal(WORD_BOUND));
    let mut long = String::from("1");
    for _ in 0..100 {
        long.push('0');
    }
    assert_eq!(FieldElement::from_decimal(&long), None);
}

#[test]
fn indices_are_read() {
    assert_eq!(parse_index("0"), Some(0));
    assert_eq!(parse_index("12"), Some(12));
    assert_eq!(parse_index("+7"), Some(7));
    assert_eq!(parse_index("0042"), Some(42));
    assert_eq!(parse_index(&usize::MAX.to_string()), Some(usize::MAX));
}

#[test]
fn other_indices_are_rejected() {
    for text in ["", "+", "-1", "++1", "1+", " 1", "1 ", "1_0", "0x1", "abc", "٣"] {
        assert_eq!(parse_index(text), None, "{:?}", text);
        assert_eq!(parse_index(text), text.parse::<usize>().ok());
    }
    assert_eq!(parse_index("340282366920938463463374607431768211456"), None);
    let beyond = format!("{}0", usize::MAX);
    assert_eq!(parse_index(&beyond), None);
}

#[test]
fn indices_agree_with_the_standard_reader() {
    for text in ["0", "1", "+1", "00", "+00", "18446744073709551615", "18446744073709551616"] {
        assert_eq!(parse_index(text), text.parse::<usize>().ok(), "{:?}", text);
    }
}
