use std::str::FromStr;
use tango::dihedral::{dihedral_inv, dihedral_mul, SIGMA};
use tango::friend_code::{FriendCode, FriendCodeError, CODE_LEN, CROCKFORD};

#[test]
fn value_roundtrips_through_string() {
    for v in [0u128, 1, 42, (1u128 << 75) - 1, 0x1234_5678_9abc_def0] {
        let fc = FriendCode::from_value(v);
        let s = fc.to_string();
        // 16 symbols grouped 4-4-4-4 with 3 hyphens.
        assert_eq!(s.len(), CODE_LEN + 3);
        assert_eq!(s.chars().filter(|&c| c == '-').count(), 3);
        let parsed = FriendCode::from_str(&s).unwrap();
        assert_eq!(parsed, fc);
        assert_eq!(parsed.value(), v & ((1u128 << 75) - 1));
    }
}

#[test]
fn bytes_roundtrip() {
    let fc = FriendCode::from_value(0xdead_beef_cafe);
    assert_eq!(FriendCode::from_bytes(fc.as_bytes()).unwrap(), fc);
    assert_eq!(FriendCode::from_bytes(&[0u8; 3]), Err(FriendCodeError::WrongByteLen(3)));
}

#[test]
fn rejects_corrupted_check_symbol() {
    let s = FriendCode::from_value(123_456_789).to_string();
    // The check symbol is the final character (no trailing hyphen).
    let mut chars: Vec<char> = s.chars().collect();
    let last_idx = chars.len() - 1;
    chars[last_idx] = if chars[last_idx] == '0' { '1' } else { '0' };
    let corrupted: String = chars.into_iter().collect();
    assert_eq!(FriendCode::from_str(&corrupted), Err(FriendCodeError::BadChecksum));
}

/// D16 must actually be a group: 0 is the identity and every element has an
/// inverse on both sides.
#[test]
fn dihedral_group_laws() {
    for x in 0..32u32 {
        assert_eq!(dihedral_mul(0, x), x);
        assert_eq!(dihedral_mul(x, 0), x);
        assert_eq!(dihedral_mul(x, dihedral_inv(x)), 0);
        assert_eq!(dihedral_mul(dihedral_inv(x), x), 0);
    }
}

/// σ is a permutation of all 32 elements and a derangement (no fixed point).
#[test]
fn sigma_is_a_derangement_permutation() {
    let mut seen = [false; 32];
    for (i, &v) in SIGMA.iter().enumerate() {
        assert_ne!(v as usize, i, "σ fixes {i}");
        assert!(!seen[v as usize], "σ is not a permutation: {v} repeats");
        seen[v as usize] = true;
    }
}

/// For every distinct pair, `x·σ(y) != y·σ(x)`.
#[test]
fn sigma_is_totally_anti_symmetric() {
    let sigma = |z: u32| SIGMA[z as usize] as u32;
    for x in 0..32u32 {
        for y in 0..32u32 {
            if x != y {
                assert_ne!(
                    dihedral_mul(x, sigma(y)),
                    dihedral_mul(y, sigma(x)),
                    "anti-symmetry fails at ({x}, {y})"
                );
            }
        }
    }
}

/// Every adjacent transposition of two distinct symbols must be rejected.
#[test]
fn detects_adjacent_transpositions() {
    for v in [0u128, 1, 0x1234_5678_9abc_def0, (1u128 << 75) - 1, 0x0f0f_0f0f_0f0f] {
        let canonical = FriendCode::from_value(v).to_string();
        let mut symbols: Vec<char> = canonical.chars().filter(|&c| c != '-').collect();
        assert_eq!(symbols.len(), CODE_LEN);
        for i in 0..symbols.len() - 1 {
            if symbols[i] == symbols[i + 1] {
                continue;
            }
            symbols.swap(i, i + 1);
            let swapped: String = symbols.iter().collect();
            assert_eq!(
                FriendCode::from_str(&swapped),
                Err(FriendCodeError::BadChecksum),
                "transposition at {i} of {canonical} slipped through"
            );
            symbols.swap(i, i + 1);
        }
    }
}

/// Every single-symbol substitution must be rejected.
#[test]
fn detects_single_symbol_errors() {
    for v in [0u128, 7, 0x1234_5678_9abc_def0, (1u128 << 75) - 1] {
        let canonical = FriendCode::from_value(v).to_string();
        let symbols: Vec<char> = canonical.chars().filter(|&c| c != '-').collect();
        for i in 0..symbols.len() {
            for &repl in CROCKFORD.iter() {
                let repl = repl as char;
                if repl == symbols[i] {
                    continue;
                }
                let mut corrupted = symbols.clone();
                corrupted[i] = repl;
                let s: String = corrupted.iter().collect();
                assert_eq!(
                    FriendCode::from_str(&s),
                    Err(FriendCodeError::BadChecksum),
                    "single error at {i} ({repl}) of {canonical} slipped through"
                );
            }
        }
    }
}

#[test]
fn rejects_wrong_length() {
    assert!(matches!(
        FriendCode::from_str("0123456789ABCD"),
        Err(FriendCodeError::WrongLength(14))
    ));
}

#[test]
fn normalizes_separators_and_case() {
    let fc = FriendCode::from_value(0xdead_beef);
    let s = fc.to_string();
    assert!(s.contains('-'));
    assert_eq!(FriendCode::from_str(&s.to_lowercase()).unwrap(), fc);
    assert_eq!(FriendCode::from_str(&s.replace('-', " ")).unwrap(), fc);
}

#[test]
fn aliases_fold_to_digits() {
    let fc = FriendCode::from_value(0);
    let s = fc.to_string();
    assert!(s.starts_with("0000"));
    let aliased = s.replacen('0', "O", 1);
    assert_eq!(FriendCode::from_str(&aliased).unwrap(), fc);
}

#[test]
fn rejects_a_bad_symbol_with_its_uppercased_form() {
    assert_eq!(FriendCode::from_str("abcu"), Err(FriendCodeError::BadSymbol('U')));
    assert_eq!(FriendCode::from_str("12!"), Err(FriendCodeError::BadSymbol('!')));
}

#[test]
fn from_value_masks_high_bits() {
    let fc = FriendCode::from_value(u128::MAX);
    assert_eq!(fc.value(), (1u128 << 75) - 1);
    assert_eq!(fc.as_bytes()[0], 0x07);
    assert_eq!(fc.to_vec(), fc.as_bytes().to_vec());
}

#[test]
fn wire_bytes_wider_than_a_friend_code_are_cut_to_75_bits() {
    let fc = FriendCode::from_bytes(&[0xFF; 10]).unwrap();
    assert!(fc.value() < 1u128 << 75);
    assert_eq!(fc, FriendCode::from_value(u128::MAX));
    let canonical = FriendCode::from_value(123456789);
    assert_eq!(FriendCode::from_bytes(canonical.as_bytes()).unwrap(), canonical);
}

#[test]
fn friend_codes_order_as_their_values() {
    let small = FriendCode::from_value(0xff);
    let large = FriendCode::from_value(0x100);
    assert!(small < large);
    assert!(small.as_bytes() < large.as_bytes());
    assert_eq!(small.value(), 0xff);
    assert_eq!(large.as_bytes()[8], 1);
    assert_eq!(FriendCode::from_bytes(&large.to_vec()).unwrap(), large);
    assert_ne!(small, large);
}
