use scuffle_api::token::{mint, verify, Claims, TOKEN_LEN};

#[test]
fn token_round_trip() {
    let key = b"process-secret".to_vec();
    let claims = Claims { session_id: 0xdead_beef_0123_4567_89ab_cdef_0011_2233, issued_at: 1_700_000_000 };
    let t = mint(&key, claims);
    assert_eq!(t.len(), TOKEN_LEN);
    assert_eq!(verify(&key, &t), Some(claims));
}

#[test]
fn token_tampered_byte_fails() {
    let key = b"process-secret".to_vec();
    let claims = Claims { session_id: 42, issued_at: 7 };
    let t = mint(&key, claims);
    for i in 0..t.len() {
        let mut bad = t.clone();
        bad[i] ^= 0x01;
        assert_eq!(verify(&key, &bad), None, "byte {i}");
    }
}

#[test]
fn token_other_key_fails() {
    let claims = Claims { session_id: 42, issued_at: 7 };
    let t = mint(&b"one".to_vec(), claims);
    assert_eq!(verify(&b"two".to_vec(), &t), None);
}

#[test]
fn token_wrong_length_fails() {
    let key = b"k".to_vec();
    let t = mint(&key, Claims { session_id: 1, issued_at: 2 });
    assert_eq!(verify(&key, &t[..20].to_vec()), None);
    let mut longer = t.clone();
    longer.push(0);
    assert_eq!(verify(&key, &longer), None);
}

#[test]
fn token_differs_from_plain_claims() {
    let key = b"k".to_vec();
    let t = mint(&key, Claims { session_id: 1, issued_at: 2 });
    assert_ne!(&t[24..], &[0u8; 32][..]);
}
