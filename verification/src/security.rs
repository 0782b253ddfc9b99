//! Security Access (UDS service 0x27) with mutual authentication:
//! AES-128-CTR encryption and AES-128-CMAC tags over two round
//! trips. This module assembles and checks the messages; sending and
//! receiving stays with the driver.

use vstd::prelude::*;
use vstd::string::StrSliceExecFns;

use crate::common::{
    find_char, lemma_find_char_from_witness, lemma_find_char_none, spec_find_char, str_eq,
};
use crate::crypto;
use crate::crypto::{spec_aes128_cmac, spec_aes128_ctr, spec_key_bytes, spec_key_ok};
use crate::error::TesterError;

verus! {

/// The UDS Security Access service identifier.
pub const UDS_SECURITY_ACCESS: u8 = 0x27;

/// The value a `key:value` action item assigns: defined only when the
/// item holds exactly one colon and its key part matches.
pub open spec fn spec_kv_value(item: Seq<char>, key: Seq<char>) -> Option<Seq<char>> {
    match spec_find_char(item, ':') {
        Some(i) => if spec_find_char(item.skip(i + 1), ':') is None && item.take(i) =~= key {
            Some(item.skip(i + 1))
        } else {
            None
        },
        None => None,
    }
}

/// The value the last matching `key:value` action assigns, if any.
pub open spec fn spec_kv_lookup(items: Seq<Seq<char>>, key: Seq<char>) -> Option<Seq<char>>
    decreases items.len(),
{
    if items.len() == 0 {
        None
    } else {
        match spec_kv_value(items.last(), key) {
            Some(v) => Some(v),
            None => spec_kv_lookup(items.drop_last(), key),
        }
    }
}

/// Looks a key up in a list of `key:value` action strings; the last
/// well-formed assignment wins, as each later one overwrites.
pub fn find_action_value(actions: &Vec<String>, key: &str) -> (r: Option<String>)
    ensures
        r is Some <==> spec_kv_lookup(actions.deep_view(), key@) is Some,
        r matches Some(v) ==> spec_kv_lookup(actions.deep_view(), key@) matches Some(x) && v@
            =~= x,
{
    let ghost items = actions.deep_view();
    let mut current: Option<String> = None;
    let mut k: usize = 0;
    proof {
        assert(items.take(0) =~= Seq::<Seq<char>>::empty());
    }
    while k < actions.len()
        invariant
            0 <= k <= actions@.len(),
            items == actions.deep_view(),
            items.len() == actions@.len(),
            forall|j: int| 0 <= j < items.len() ==> items[j] == #[trigger] actions@[j]@,
            current is Some <==> spec_kv_lookup(items.take(k as int), key@) is Some,
            current matches Some(v) ==> spec_kv_lookup(items.take(k as int), key@)
                matches Some(x) && v@ =~= x,
        decreases actions@.len() - k,
    {
        let item: &str = actions[k].as_str();
        let ghost iv = item@;
        let n = item.unicode_len();
        proof {
            assert(items.take(k as int + 1).last() == iv);
            assert(items.take(k as int + 1).drop_last() =~= items.take(k as int));
        }
        match find_char(item, ':') {
            Some(i) => {
                proof {
                    lemma_find_char_from_witness(iv, ':', i as int);
                }
                let rest = item.substring_char(i + 1, n);
                proof {
                    assert(rest@ =~= iv.skip(i as int + 1));
                }
                let second = find_char(rest, ':');
                match second {
                    Some(j2) => {
                        proof {
                            lemma_find_char_from_witness(rest@, ':', j2 as int);
                            assert(spec_kv_value(iv, key@) is None);
                        }
                    },
                    None => {
                        proof {
                            lemma_find_char_none(rest@, ':');
                        }
                        let head = item.substring_char(0, i);
                        proof {
                            assert(head@ =~= iv.take(i as int));
                        }
                        if str_eq(head, key) {
                            proof {
                                assert(iv.take(i as int) =~= key@);
                                assert(spec_kv_value(iv, key@) matches Some(x) && x =~= iv.skip(
                                    i as int + 1,
                                ));
                            }
                            current = Some(rest.to_owned());
                        } else {
                            proof {
                                assert(!(iv.take(i as int) =~= key@));
                                assert(spec_kv_value(iv, key@) is None);
                            }
                        }
                    },
                }
            },
            None => {
                proof {
                    lemma_find_char_none(iv, ':');
                    assert(spec_kv_value(iv, key@) is None);
                }
            },
        }
        k = k + 1;
    }
    proof {
        assert(items.take(k as int) =~= items);
    }
    current
}

/// The parameters of one Security Access exchange, as the sequence
/// item's actions supply them.
#[derive(Debug)]
pub struct SecurityAccess {
    /// Security level of the request-seed step; the send-key step
    /// uses the next level.
    pub level: u8,
    /// Hex-encoded encryption/authentication key.
    pub eak: String,
    /// Hex-encoded proof-of-ownership key.
    pub proof_key: String,
    /// Whether a fresh random IV is drawn for each message.
    pub random_iv: bool,
}

/// Builds the Security Access parameters from `key:value` action
/// strings. Only the AES-128 algorithm is supported; a missing key
/// string stays empty and fails later at its length check.
pub fn security_access_from_actions(level: u8, actions: &Vec<String>) -> (r: Result<
    SecurityAccess,
    TesterError,
>)
    ensures
        ({
            let items = actions.deep_view();
            let alg = spec_kv_lookup(items, "algorithm"@);
            &&& (r is Ok <==> (alg matches Some(a) && a =~= "AES128"@))
            &&& r is Err ==> r.unwrap_err() == TesterError::InvalidData
            &&& r matches Ok(sa) ==> {
                &&& sa.level == level
                &&& (match spec_kv_lookup(items, "encryption_authentication_key"@) {
                    Some(v) => sa.eak@ =~= v,
                    None => sa.eak@ =~= Seq::<char>::empty(),
                })
                &&& (match spec_kv_lookup(items, "proof_of_ownership_key"@) {
                    Some(v) => sa.proof_key@ =~= v,
                    None => sa.proof_key@ =~= Seq::<char>::empty(),
                })
                &&& (sa.random_iv <==> (spec_kv_lookup(items, "iv"@) matches Some(m) && m
                    =~= "random"@))
            }
        }),
{
    let algorithm = find_action_value(actions, "algorithm");
    let supported = match &algorithm {
        Some(a) => str_eq(a.as_str(), "AES128"),
        None => false,
    };
    if !supported {
        return Err(TesterError::InvalidData);
    }
    let eak = match find_action_value(actions, "encryption_authentication_key") {
        Some(v) => v,
        None => String::new(),
    };
    let proof_key = match find_action_value(actions, "proof_of_ownership_key") {
        Some(v) => v,
        None => String::new(),
    };
    let random_iv = match find_action_value(actions, "iv") {
        Some(v) => str_eq(v.as_str(), "random"),
        None => false,
    };
    Ok(SecurityAccess { level, eak, proof_key, random_iv })
}

/// The Client Request Seed message: service and level, message id
/// 0x0001, authentication method 0x0001, the IV, the encrypted client
/// random, and a CMAC over everything before it.
pub open spec fn spec_request_seed(level: u8, iv: Seq<u8>, client_random: Seq<u8>, k: Seq<u8>)
    -> Seq<u8> {
    let head = seq![UDS_SECURITY_ACCESS, level, 0u8, 1u8, 0u8, 1u8] + iv + spec_aes128_ctr(
        client_random,
        iv,
        k,
    );
    head + spec_aes128_cmac(head, k)
}

/// Assembles the Client Request Seed message; refused unless the
/// encryption/authentication key denotes 16 bytes.
pub fn client_request_seed(sa: &SecurityAccess, iv: &Vec<u8>, client_random: &Vec<u8>) -> (r:
    Result<Vec<u8>, TesterError>)
    requires
        iv@.len() == 16,
        client_random@.len() == 16,
    ensures
        r is Ok <==> spec_key_ok(sa.eak@),
        r matches Ok(m) ==> m@ =~= spec_request_seed(
            sa.level,
            iv@,
            client_random@,
            spec_key_bytes(sa.eak@),
        ),
        r is Err ==> r.unwrap_err() == TesterError::CryptoError,
{
    let mut head: Vec<u8> = Vec::new();
    head.push(UDS_SECURITY_ACCESS);
    head.push(sa.level);
    head.push(0);
    head.push(1);
    head.push(0);
    head.push(1);
    let mut iv_copy = iv.clone();
    head.append(&mut iv_copy);
    let encrypted = match crypto::encrypt_aes128_ctr(client_random, iv, sa.eak.as_str()) {
        Ok(e) => e,
        Err(_) => {
            return Err(TesterError::CryptoError);
        },
    };
    let mut encrypted = encrypted;
    head.append(&mut encrypted);
    proof {
        assert(head@ =~= seq![UDS_SECURITY_ACCESS, sa.level, 0u8, 1u8, 0u8, 1u8] + iv@
            + spec_aes128_ctr(client_random@, iv@, spec_key_bytes(sa.eak@)));
    }
    let tag = match crypto::encrypt_aes128_cmac(&head, sa.eak.as_str()) {
        Ok(t) => t,
        Err(_) => {
            return Err(TesterError::CryptoError);
        },
    };
    let mut tag = tag;
    let mut message = head;
    message.append(&mut tag);
    proof {
        assert(message@ =~= spec_request_seed(
            sa.level,
            iv@,
            client_random@,
            spec_key_bytes(sa.eak@),
        ));
    }
    Ok(message)
}

/// The server random: the first 16 bytes of the decrypted server
/// payload of a seed response.
pub open spec fn spec_server_random(d: Seq<u8>, k: Seq<u8>) -> Seq<u8> {
    let payload = d.take(d.len() - 16);
    spec_aes128_ctr(payload.subrange(20, 52), payload.subrange(4, 20), k).take(16)
}

/// Whether a seed response authenticates: long enough to carry IV,
/// encrypted payload and tag, with the tag equal to the CMAC of
/// everything before it.
pub open spec fn spec_seed_response_ok(d: Seq<u8>, k: Seq<u8>) -> bool {
    d.len() >= 68 && d.skip(d.len() - 16) =~= spec_aes128_cmac(d.take(d.len() - 16), k)
}

/// Verifies a seed response and extracts the server random: the last
/// 16 bytes must be the CMAC of the rest under the
/// encryption/authentication key; bytes 4..20 of the rest are the
/// server IV and 20..52 the encrypted server payload, whose first 16
/// decrypted bytes are the server random.
pub fn parse_seed_response(sa: &SecurityAccess, response: &Vec<u8>) -> (r: Result<
    Vec<u8>,
    TesterError,
>)
    ensures
        r is Ok <==> (spec_key_ok(sa.eak@) && spec_seed_response_ok(
            response@,
            spec_key_bytes(sa.eak@),
        )),
        r matches Ok(sr) ==> sr@ =~= spec_server_random(response@, spec_key_bytes(sa.eak@)),
        r is Err ==> r.unwrap_err() == TesterError::InvalidData,
{
    let n = response.len();
    if n < 68 {
        return Err(TesterError::InvalidData);
    }
    let payload = crate::common::vec_prefix(response, n - 16);
    let tag = crate::common::vec_suffix(response, n - 16);
    if !crypto::verify_aes128_cmac(&payload, tag, sa.eak.as_str()) {
        return Err(TesterError::InvalidData);
    }
    let iv = crate::common::vec_range(&payload, 4, 20);
    let encrypted = crate::common::vec_range(&payload, 20, 52);
    let decrypted = match crypto::decrypt_aes128_ctr(&encrypted, &iv, sa.eak.as_str()) {
        Ok(d) => d,
        Err(_) => {
            return Err(TesterError::InvalidData);
        },
    };
    let server_random = crate::common::vec_prefix(&decrypted, 16);
    proof {
        assert(payload@ =~= response@.take(response@.len() - 16));
        assert(server_random@ =~= spec_server_random(response@, spec_key_bytes(sa.eak@)));
    }
    Ok(server_random)
}

/// The Client Send Key message: service and next level, message id
/// 0x0003, a fresh IV, the encrypted proof of ownership, and a CMAC
/// over everything before it. The proof of ownership is the CMAC of
/// client random followed by server random under the proof key.
pub open spec fn spec_send_key(
    level: u8,
    iv: Seq<u8>,
    client_random: Seq<u8>,
    server_random: Seq<u8>,
    k: Seq<u8>,
    pk: Seq<u8>,
) -> Seq<u8> {
    let pow = spec_aes128_cmac(client_random + server_random, pk);
    let head = seq![UDS_SECURITY_ACCESS, (level + 1) as u8, 0u8, 3u8] + iv + spec_aes128_ctr(
        pow,
        iv,
        k,
    );
    head + spec_aes128_cmac(head, k)
}

/// Assembles the Client Send Key message; refused unless both keys
/// denote 16 bytes.
pub fn client_send_key(
    sa: &SecurityAccess,
    iv: &Vec<u8>,
    client_random: &Vec<u8>,
    server_random: &Vec<u8>,
) -> (r: Result<Vec<u8>, TesterError>)
    requires
        iv@.len() == 16,
        sa.level < 255,
    ensures
        r is Ok <==> (spec_key_ok(sa.eak@) && spec_key_ok(sa.proof_key@)),
        r matches Ok(m) ==> m@ =~= spec_send_key(
            sa.level,
            iv@,
            client_random@,
            server_random@,
            spec_key_bytes(sa.eak@),
            spec_key_bytes(sa.proof_key@),
        ),
        r is Err ==> r.unwrap_err() == TesterError::CryptoError,
{
    let mut randoms: Vec<u8> = client_random.clone();
    let mut server_copy = server_random.clone();
    randoms.append(&mut server_copy);
    proof {
        assert(randoms@ =~= client_random@ + server_random@);
    }
    let pow = match crypto::encrypt_aes128_cmac(&randoms, sa.proof_key.as_str()) {
        Ok(p) => p,
        Err(_) => {
            return Err(TesterError::CryptoError);
        },
    };
    let mut head: Vec<u8> = Vec::new();
    head.push(UDS_SECURITY_ACCESS);
    head.push(sa.level + 1);
    head.push(0);
    head.push(3);
    let mut iv_copy = iv.clone();
    head.append(&mut iv_copy);
    let encrypted = match crypto::encrypt_aes128_ctr(&pow, iv, sa.eak.as_str()) {
        Ok(e) => e,
        Err(_) => {
            return Err(TesterError::CryptoError);
        },
    };
    let mut encrypted = encrypted;
    head.append(&mut encrypted);
    proof {
        assert(head@ =~= seq![UDS_SECURITY_ACCESS, (sa.level + 1) as u8, 0u8, 3u8] + iv@
            + spec_aes128_ctr(
            spec_aes128_cmac(client_random@ + server_random@, spec_key_bytes(sa.proof_key@)),
            iv@,
            spec_key_bytes(sa.eak@),
        ));
    }
    let tag = match crypto::encrypt_aes128_cmac(&head, sa.eak.as_str()) {
        Ok(t) => t,
        Err(_) => {
            return Err(TesterError::CryptoError);
        },
    };
    let mut tag = tag;
    let mut message = head;
    message.append(&mut tag);
    proof {
        assert(message@ =~= spec_send_key(
            sa.level,
            iv@,
            client_random@,
            server_random@,
            spec_key_bytes(sa.eak@),
            spec_key_bytes(sa.proof_key@),
        ));
    }
    Ok(message)
}

} // verus!
