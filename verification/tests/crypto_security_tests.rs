use doip_tester::crypto::{
    decrypt_aes128_ctr, encrypt_aes128_cmac, encrypt_aes128_ctr, gen_random_bytes,
    verify_aes128_cmac,
};
use doip_tester::error::TesterError;
use doip_tester::security::{
    client_request_seed, client_send_key, find_action_value, parse_seed_response,
    security_access_from_actions, SecurityAccess,
};

const KEY: &str = "2b7e151628aed2a6abf7158809cf4f3c";
const PROOF_KEY: &str = "000102030405060708090a0b0c0d0e0f";

#[test]
fn cmac_known_vectors() {
    // AES-128-CMAC test vectors for this key: the empty message and
    // one 16-byte block
    let tag = encrypt_aes128_cmac(&vec![], KEY).unwrap();
    assert_eq!(
        tag,
        vec![0xbb, 0x1d, 0x69, 0x29, 0xe9, 0x59, 0x37, 0x28, 0x7f, 0xa3, 0x7d, 0x12, 0x9b, 0x75,
            0x67, 0x46]
    );
    let msg = vec![0x6b, 0xc1, 0xbe, 0xe2, 0x2e, 0x40, 0x9f, 0x96, 0xe9, 0x3d, 0x7e, 0x11, 0x73,
        0x93, 0x17, 0x2a];
    let tag = encrypt_aes128_cmac(&msg, KEY).unwrap();
    assert_eq!(
        tag,
        vec![0x07, 0x0a, 0x16, 0xb4, 0x6b, 0x4d, 0x41, 0x44, 0xf7, 0x9b, 0xdd, 0x9d, 0xd0, 0x4a,
            0x28, 0x7c]
    );
}

#[test]
fn cmac_verification() {
    let data = vec![0x01, 0x02, 0x03];
    let tag = encrypt_aes128_cmac(&data, KEY).unwrap();
    assert!(verify_aes128_cmac(&data, tag.clone(), KEY));
    let mut bad = tag.clone();
    bad[0] ^= 1;
    assert!(!verify_aes128_cmac(&data, bad, KEY));
    assert!(!verify_aes128_cmac(&data, tag, "00112233445566778899aabbccddeeff"));
}

#[test]
fn cmac_rejects_bad_key() {
    assert_eq!(
        encrypt_aes128_cmac(&vec![0x00], "abcd"),
        Err(TesterError::CryptoError)
    );
    assert_eq!(
        encrypt_aes128_cmac(&vec![0x00], "zz7e151628aed2a6abf7158809cf4f3c"),
        Err(TesterError::CryptoError)
    );
}

#[test]
fn ctr_round_trip() {
    let iv = vec![0u8; 16];
    let plain = vec![0x00, 0x11, 0x22, 0x33, 0x44, 0x55];
    let cipher = encrypt_aes128_ctr(&plain, &iv, KEY).unwrap();
    assert_eq!(cipher.len(), plain.len());
    assert_ne!(cipher, plain);
    let back = decrypt_aes128_ctr(&cipher, &iv, KEY).unwrap();
    assert_eq!(back, plain);
}

#[test]
fn ctr_rejects_bad_iv_and_key() {
    assert_eq!(
        encrypt_aes128_ctr(&vec![0x00], &vec![0u8; 15], KEY),
        Err(TesterError::CryptoError)
    );
    assert_eq!(
        encrypt_aes128_ctr(&vec![0x00], &vec![0u8; 16], "2b7e"),
        Err(TesterError::CryptoError)
    );
}

#[test]
fn random_bytes_have_requested_length() {
    assert_eq!(gen_random_bytes(16).len(), 16);
    assert_eq!(gen_random_bytes(0).len(), 0);
}

#[test]
fn action_lookup_last_assignment_wins() {
    let actions = vec![
        String::from("algorithm:AES128"),
        String::from("iv:fixed"),
        String::from("iv:random"),
        String::from("broken:a:b"),
    ];
    assert_eq!(
        find_action_value(&actions, "algorithm"),
        Some(String::from("AES128"))
    );
    assert_eq!(find_action_value(&actions, "iv"), Some(String::from("random")));
    // a malformed entry with two colons assigns nothing
    assert_eq!(find_action_value(&actions, "broken"), None);
    assert_eq!(find_action_value(&actions, "missing"), None);
}

fn test_params() -> SecurityAccess {
    let actions = vec![
        String::from("algorithm:AES128"),
        String::from("iv:random"),
        format!("encryption_authentication_key:{}", KEY),
        format!("proof_of_ownership_key:{}", PROOF_KEY),
    ];
    security_access_from_actions(0x01, &actions).unwrap()
}

#[test]
fn security_access_params_from_actions() {
    let sa = test_params();
    assert_eq!(sa.level, 0x01);
    assert_eq!(sa.eak, KEY);
    assert_eq!(sa.proof_key, PROOF_KEY);
    assert!(sa.random_iv);
}

#[test]
fn security_access_needs_supported_algorithm() {
    let actions = vec![String::from("algorithm:DES")];
    assert!(security_access_from_actions(1, &actions).is_err());
    let actions = vec![String::from("iv:random")];
    assert!(security_access_from_actions(1, &actions).is_err());
}

#[test]
fn request_seed_structure() {
    let sa = test_params();
    let iv = vec![0x10u8; 16];
    let client_random = vec![0x5Au8; 16];
    let msg = client_request_seed(&sa, &iv, &client_random).unwrap();
    assert_eq!(msg.len(), 54);
    assert_eq!(&msg[0..6], &[0x27, 0x01, 0x00, 0x01, 0x00, 0x01]);
    assert_eq!(&msg[6..22], iv.as_slice());
    let encrypted = encrypt_aes128_ctr(&client_random, &iv, KEY).unwrap();
    assert_eq!(&msg[22..38], encrypted.as_slice());
    let tag = encrypt_aes128_cmac(&msg[0..38].to_vec(), KEY).unwrap();
    assert_eq!(&msg[38..54], tag.as_slice());
}

#[test]
fn seed_response_round_trip() {
    let sa = test_params();
    // a server response: 4 header bytes, the server IV, the encrypted
    // server payload whose first half is the server random, then the
    // CMAC over everything before it
    let server_iv = vec![0x77u8; 16];
    let server_random = vec![0xC3u8; 16];
    let mut server_plain = server_random.clone();
    server_plain.extend(vec![0u8; 16]);
    let encrypted = encrypt_aes128_ctr(&server_plain, &server_iv, KEY).unwrap();
    let mut payload = vec![0x67, 0x02, 0x00, 0x02];
    payload.extend(server_iv.clone());
    payload.extend(encrypted);
    let tag = encrypt_aes128_cmac(&payload, KEY).unwrap();
    let mut response = payload.clone();
    response.extend(tag);
    assert_eq!(response.len(), 68);

    let got = parse_seed_response(&sa, &response).unwrap();
    assert_eq!(got, server_random);
}

#[test]
fn seed_response_rejects_bad_tag() {
    let sa = test_params();
    let mut response = vec![0u8; 68];
    response[67] = 0x01;
    assert_eq!(
        parse_seed_response(&sa, &response),
        Err(TesterError::InvalidData)
    );
    // too short to carry IV, payload and tag
    assert_eq!(
        parse_seed_response(&sa, &vec![0u8; 67]),
        Err(TesterError::InvalidData)
    );
}

#[test]
fn send_key_structure() {
    let sa = test_params();
    let iv = vec![0x21u8; 16];
    let client_random = vec![0x5Au8; 16];
    let server_random = vec![0xC3u8; 16];
    let msg = client_send_key(&sa, &iv, &client_random, &server_random).unwrap();
    assert_eq!(msg.len(), 52);
    assert_eq!(&msg[0..4], &[0x27, 0x02, 0x00, 0x03]);
    assert_eq!(&msg[4..20], iv.as_slice());
    let mut randoms = client_random.clone();
    randoms.extend(server_random);
    let pow = encrypt_aes128_cmac(&randoms, PROOF_KEY).unwrap();
    let encrypted = encrypt_aes128_ctr(&pow, &iv, KEY).unwrap();
    assert_eq!(&msg[20..36], encrypted.as_slice());
    let tag = encrypt_aes128_cmac(&msg[0..36].to_vec(), KEY).unwrap();
    assert_eq!(&msg[36..52], tag.as_slice());
}

#[test]
fn message_builders_reject_bad_keys() {
    let sa = SecurityAccess {
        level: 1,
        eak: String::from("tooShort"),
        proof_key: String::from(PROOF_KEY),
        random_iv: true,
    };
    let iv = vec![0u8; 16];
    let rnd = vec![0u8; 16];
    assert_eq!(
        client_request_seed(&sa, &iv, &rnd),
        Err(TesterError::CryptoError)
    );
    assert_eq!(
        client_send_key(&sa, &iv, &rnd, &rnd),
        Err(TesterError::CryptoError)
    );
}
