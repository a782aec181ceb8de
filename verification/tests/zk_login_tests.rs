use anchor_lang::solana_program::pubkey::Pubkey;
use bellman::gadgets::multipack::{bytes_to_bits_le as bellman_bits_le, compute_multipacking};
use bls12_381::Scalar;
use sha2::{Digest, Sha256};
use zk_login::bits::bytes_to_bits_le;
use zk_login::handlers::{
    microchip_id_bytes, parse_request, CompressedProof, CompressedVerifyingKey,
};
use zk_login::program;
use zk_login::sol_connect::instruction_data;
use zk_login::zkpgenerate::zkpproof_input;
use zk_login::{
    get_discriminant, hash_to_array, serialize_proof, serialize_verifying_key,
    zkp_signup_public_input, zkpproof_sign_up, ScalarWrapper, SigninData,
};

const HASH: &str = "000102030405060708090a0b0c0d0e0f101112131415161718191a1b1c1d1e1f";

fn hash_bytes() -> [u8; 64] {
    let mut expected = [0u8; 64];
    for i in 0..32 {
        expected[i] = i as u8;
    }
    expected
}

#[test]
fn hash_to_array_decodes_lowercase() {
    assert_eq!(hash_to_array(HASH).unwrap(), hash_bytes());
}

#[test]
fn hash_to_array_decodes_uppercase() {
    let upper = HASH.to_uppercase();
    assert_eq!(hash_to_array(&upper).unwrap(), hash_bytes());
}

#[test]
fn hash_to_array_upper_half_is_zero() {
    let all_ff = "ff".repeat(32);
    let arr = hash_to_array(&all_ff).unwrap();
    assert!(arr[..32].iter().all(|&b| b == 0xff));
    assert!(arr[32..].iter().all(|&b| b == 0));
}

#[test]
fn hash_to_array_accepts_plus_sign() {
    let input = format!("+f{}", &HASH[2..]);
    let arr = hash_to_array(&input).unwrap();
    assert_eq!(arr[0], 15);
    assert_eq!(arr[1], 1);
}

#[test]
fn hash_to_array_rejects_minus_sign() {
    let input = format!("-1{}", &HASH[2..]);
    assert_eq!(hash_to_array(&input).unwrap_err(), "Invalid hash digit");
}

#[test]
fn hash_to_array_rejects_short_input() {
    assert_eq!(hash_to_array("abc").unwrap_err(), "Expected 64 characters, got 3");
    assert_eq!(hash_to_array("").unwrap_err(), "Expected 64 characters, got 0");
}

#[test]
fn hash_to_array_rejects_long_input() {
    let long = "0".repeat(130);
    assert_eq!(hash_to_array(&long).unwrap_err(), "Expected 64 characters, got 130");
}

#[test]
fn hash_to_array_counts_bytes_not_chars() {
    // 63 characters, 64 bytes: the length test passes, the decoding fails.
    let input = format!("é{}", "0".repeat(62));
    assert_eq!(input.len(), 64);
    assert_eq!(hash_to_array(&input).unwrap_err(), "Invalid hash digit");
}

#[test]
fn hash_to_array_reports_split_character() {
    let input = format!("aé{}", "0".repeat(61));
    assert_eq!(input.len(), 64);
    assert_eq!(hash_to_array(&input).unwrap_err(), "Invalid UTF-8 in hash");
}

#[test]
fn hash_to_array_reports_first_fault() {
    // A bad digit in chunk 1 comes before a split character in chunk 2.
    let input = format!("00zzaé{}", "0".repeat(57));
    assert_eq!(input.len(), 64);
    assert_eq!(hash_to_array(&input).unwrap_err(), "Invalid hash digit");
}

#[test]
fn hash_to_array_rejects_non_hex_letter() {
    let input = format!("0g{}", &HASH[2..]);
    assert_eq!(hash_to_array(&input).unwrap_err(), "Invalid hash digit");
}

#[test]
fn microchip_id_is_big_endian() {
    assert_eq!(
        microchip_id_bytes(0x0102030405060708090a0b0c0d0e0f10),
        [1, 2, 3, 4, 5, 6, 7, 8, 9, 10, 11, 12, 13, 14, 15, 16]
    );
    assert_eq!(microchip_id_bytes(1), (1u128).to_be_bytes());
    assert_eq!(microchip_id_bytes(u128::MAX), [0xff; 16]);
}

#[test]
fn parse_request_splits_fields() {
    let (h, m) = parse_request(HASH, 258).unwrap();
    assert_eq!(h, hash_bytes());
    assert_eq!(m, (258u128).to_be_bytes());
    assert_eq!(parse_request("xy", 1).unwrap_err(), "Expected 64 characters, got 2");
}

#[test]
fn secret_input_layout() {
    let h = hash_bytes();
    let m = [9u8; 16];
    let input = zkpproof_input(&h, &m);
    assert_eq!(&input[..64], &h[..]);
    assert_eq!(&input[64..], &m[..]);
}

#[test]
fn bits_match_bellman() {
    let bytes = [0u8, 1, 0x80, 0xff, 0x5a, 0x3c];
    assert_eq!(bytes_to_bits_le(&bytes), bellman_bits_le(&bytes));
    let bits = bytes_to_bits_le(&[0b0000_0110]);
    assert_eq!(bits, vec![false, true, true, false, false, false, false, false]);
}

#[test]
fn sign_up_public_input_known_value() {
    let public_input = zkpproof_sign_up(hash_bytes(), (1u128).to_be_bytes());
    assert_eq!(public_input.len(), 2);
    assert_eq!(
        public_input[0].0,
        [
            51, 208, 36, 165, 64, 223, 183, 216, 155, 186, 184, 186, 138, 48, 117, 216, 68, 100,
            218, 120, 248, 138, 172, 62, 149, 74, 94, 107, 34, 92, 0, 11
        ]
    );
    let mut second = [0u8; 32];
    second[0] = 2;
    assert_eq!(public_input[1].0, second);
}

#[test]
fn sign_up_public_input_matches_bellman() {
    let h = hash_bytes();
    let m = (0x0102030405060708090a0b0c0d0e0f10u128).to_be_bytes();
    let mut secret = h.to_vec();
    secret.extend_from_slice(&m);
    let digest = Sha256::digest(&secret);
    let expected: Vec<Scalar> = compute_multipacking(&bellman_bits_le(&digest));
    let got = zkpproof_sign_up(h, m);
    assert_eq!(got.len(), expected.len());
    for (w, s) in got.iter().zip(expected.iter()) {
        assert_eq!(w.0, s.to_bytes());
    }
}

#[test]
fn sign_up_packs_whole_digest() {
    // The first element keeps 254 bits, the second the top two bits.
    let h = hash_bytes();
    let m = (1u128).to_be_bytes();
    let mut secret = h.to_vec();
    secret.extend_from_slice(&m);
    let digest = Sha256::digest(&secret);
    let got = zkpproof_sign_up(h, m);
    let mut low = [0u8; 32];
    low.copy_from_slice(&digest);
    low[31] &= 0x3f;
    assert_eq!(got[0].0, low);
    assert_eq!(got[1].0[0], digest[31] >> 6);
    assert!(got[1].0[1..].iter().all(|&b| b == 0));
}

#[test]
fn signup_public_input_end_to_end() {
    let got = zkp_signup_public_input(HASH, 1).unwrap();
    let direct = zkpproof_sign_up(hash_bytes(), (1u128).to_be_bytes());
    assert_eq!(got.len(), 2);
    assert_eq!(got[0].0, direct[0].0);
    assert_eq!(got[1].0, direct[1].0);
    assert_eq!(zkp_signup_public_input("00", 1).unwrap_err(), "Expected 64 characters, got 2");
}

#[test]
fn signup_public_input_is_deterministic() {
    let a = zkp_signup_public_input(HASH, 77).unwrap();
    let b = zkp_signup_public_input(HASH, 77).unwrap();
    let c = zkp_signup_public_input(HASH, 78).unwrap();
    assert_eq!(a[0].0, b[0].0);
    assert_eq!(a[1].0, b[1].0);
    assert!(a[0].0 != c[0].0 || a[1].0 != c[1].0);
}

#[test]
fn discriminant_is_sha256_prefix_of_global_name() {
    let digest = Sha256::digest(b"global:user_sign_up");
    assert_eq!(&get_discriminant("global", "user_sign_up")[..], &digest[..8]);
}

#[test]
fn scalar_wrapper_round_trip() {
    let s = Scalar::from(5u64);
    let w = ScalarWrapper::from_scalar(&s);
    let mut expected = [0u8; 32];
    expected[0] = 5;
    assert_eq!(w.0, expected);
    assert_eq!(w.into_scalar(), s);
    let minus_one = -Scalar::one();
    let w = ScalarWrapper::from_scalar(&minus_one);
    assert_eq!(w.into_scalar(), minus_one);
}

#[test]
fn sign_up_elements_convert_back() {
    let public_input = zkpproof_sign_up(hash_bytes(), (1u128).to_be_bytes());
    for w in public_input {
        let s = w.into_scalar();
        assert_eq!(s.to_bytes(), w.0);
    }
}

#[test]
fn serialize_proof_layout() {
    let proof = CompressedProof { a: [1u8; 48], b: [2u8; 96], c: [3u8; 48] };
    let bytes = serialize_proof(&proof);
    assert_eq!(bytes.len(), 192);
    assert!(bytes[..48].iter().all(|&b| b == 1));
    assert!(bytes[48..144].iter().all(|&b| b == 2));
    assert!(bytes[144..].iter().all(|&b| b == 3));
}

#[test]
fn serialize_verifying_key_layout() {
    let vk = CompressedVerifyingKey {
        alpha_g1: [1u8; 48],
        beta_g2: [2u8; 96],
        gamma_g2: [3u8; 96],
        delta_g2: [4u8; 96],
        ic: vec![[5u8; 48], [6u8; 48]],
    };
    let bytes = serialize_verifying_key(&vk);
    assert_eq!(bytes.len(), 336 + 96);
    assert!(bytes[..48].iter().all(|&b| b == 1));
    assert!(bytes[48..144].iter().all(|&b| b == 2));
    assert!(bytes[144..240].iter().all(|&b| b == 3));
    assert!(bytes[240..336].iter().all(|&b| b == 4));
    assert!(bytes[336..384].iter().all(|&b| b == 5));
    assert!(bytes[384..].iter().all(|&b| b == 6));
}

#[test]
fn serialize_verifying_key_without_ic() {
    let vk = CompressedVerifyingKey {
        alpha_g1: [0u8; 48],
        beta_g2: [0u8; 96],
        gamma_g2: [0u8; 96],
        delta_g2: [0u8; 96],
        ic: vec![],
    };
    assert_eq!(serialize_verifying_key(&vk).len(), 336);
}

#[test]
fn discriminants_of_instructions() {
    assert_eq!(get_discriminant("global", "user_sign_up"), [154, 101, 71, 40, 86, 161, 144, 209]);
    assert_eq!(get_discriminant("global", "user_sign_in"), [195, 86, 251, 145, 64, 243, 108, 175]);
    assert_eq!(get_discriminant("global", "initialize"), [175, 175, 109, 31, 13, 152, 155, 237]);
}

#[test]
fn discriminant_is_prefix_of_sha256() {
    let digest = Sha256::digest(b"account:UserData");
    assert_eq!(&get_discriminant("account", "UserData")[..], &digest[..8]);
}

#[test]
fn instruction_data_frames_arguments() {
    let args = [7u8, 8, 9];
    let data = instruction_data("user_sign_up", &args);
    assert_eq!(&data[..8], &[154, 101, 71, 40, 86, 161, 144, 209]);
    assert_eq!(&data[8..], &args);
    assert_eq!(instruction_data("user_sign_in", &[]).len(), 8);
}

#[test]
fn signin_data_holds_serialized_parts() {
    let proof = CompressedProof { a: [1u8; 48], b: [2u8; 96], c: [3u8; 48] };
    let data = SigninData { proof_bytes: serialize_proof(&proof), vk_to_send: vec![1, 2] };
    assert_eq!(data.proof_bytes.len(), 192);
    assert_eq!(data.vk_to_send, vec![1, 2]);
}

#[test]
fn program_sign_up_stores_input() {
    let mut account: Option<program::UserData> = None;
    assert_eq!(program::user_sign_up(&mut account, vec![9, 9]), Ok(()));
    assert_eq!(account.as_ref().unwrap().public_input, vec![9, 9]);
}

#[test]
fn program_second_sign_up_is_refused() {
    let mut account: Option<program::UserData> = None;
    assert_eq!(program::user_sign_up(&mut account, vec![1, 2, 3]), Ok(()));
    assert_eq!(
        program::user_sign_up(&mut account, vec![4, 5]),
        Err(program::SignUpError::AccountAlreadyInUse)
    );
    assert_eq!(account.unwrap().public_input, vec![1, 2, 3]);
}

#[test]
fn program_sign_up_input_limit() {
    let mut account: Option<program::UserData> = None;
    assert_eq!(
        program::user_sign_up(&mut account, vec![0u8; 101]),
        Err(program::SignUpError::AccountDidNotSerialize)
    );
    assert!(account.is_none());
    assert_eq!(program::user_sign_up(&mut account, vec![7u8; 100]), Ok(()));
    assert_eq!(account.unwrap().public_input.len(), 100);
}

#[test]
fn user_accounts_layout() {
    let program_id = [7u8; 32];
    let payer = [3u8; 32];
    let accounts = zk_login::sol_connect::user_accounts(&program_id, &payer).unwrap();
    let (expected, _) =
        Pubkey::find_program_address(&[b"user_data"], &Pubkey::new_from_array(program_id));
    assert_eq!(accounts.len(), 3);
    assert_eq!(accounts[0].pubkey, expected.to_bytes());
    assert!(!accounts[0].is_signer && accounts[0].is_writable);
    assert_eq!(accounts[1].pubkey, payer);
    assert!(accounts[1].is_signer && !accounts[1].is_writable);
    assert_eq!(accounts[2].pubkey, [0u8; 32]);
    assert!(!accounts[2].is_signer && !accounts[2].is_writable);
}

#[test]
fn hash_to_array_inverts_hex_notation() {
    let value: Vec<u8> = (0..32u32).map(|i| (i * 37 + 11) as u8).collect();
    let text: String = value.iter().map(|b| format!("{:02x}", b)).collect();
    let arr = hash_to_array(&text).unwrap();
    assert_eq!(&arr[..32], &value[..]);
    assert_eq!(&arr[32..], &[0u8; 32][..]);
}
