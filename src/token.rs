use vstd::prelude::*;

use vstd::bytes::*;
use vstd::slice::slice_subrange;

use hmac::{Hmac, Mac};
use sha2::Sha256;

verus! {

/// Bytes of the encoded claims at the head of a token.
pub const CLAIMS_LEN: usize = 24;

/// Bytes of a whole token: the claims, then their 32-byte signature.
pub const TOKEN_LEN: usize = 56;

/// The claims a session token carries. It carries no expiry: the session row
/// decides that, so a logout takes effect at once.
#[derive(Clone, Copy, Debug, PartialEq, Eq, Structural)]
pub struct Claims {
    pub session_id: u128,
    pub issued_at: u64,
}

/// HMAC-SHA256 of `message` under `key`.
pub uninterp spec fn hmac_sha256_of(key: Seq<u8>, message: Seq<u8>) -> Seq<u8>;

/// Relies on hmac's `Mac` for `Hmac<Sha256>`: `new_from_slice` accepts a key
/// of any length, and `finalize` yields the 32-byte code of the message.
#[verifier::external_body]
fn hmac_sha256(key: &[u8], message: &[u8]) -> (r: Vec<u8>)
    ensures
        r@ == hmac_sha256_of(key@, message@),
        r@.len() == 32,
{
    let mut mac = <Hmac<Sha256> as Mac>::new_from_slice(key).expect("HMAC takes keys of any length");
    mac.update(message);
    mac.finalize().into_bytes().to_vec()
}

/// The claims as bytes: the session id, then the issue time, little endian.
pub open spec fn claims_bytes(c: Claims) -> Seq<u8> {
    spec_u128_to_le_bytes(c.session_id) + spec_u64_to_le_bytes(c.issued_at)
}

/// The token that signs `c` under `key`.
pub open spec fn token_of(key: Seq<u8>, c: Claims) -> Seq<u8> {
    claims_bytes(c) + hmac_sha256_of(key, claims_bytes(c))
}

/// What `verify` answers for a token.
pub open spec fn verify_result(key: Seq<u8>, token: Seq<u8>, r: Option<Claims>) -> bool {
    &&& r matches Some(c) ==> token == token_of(key, c)
    &&& r is None ==> forall|c: Claims| token != #[trigger] token_of(key, c)
}

proof fn lemma_claims_bytes(c: Claims)
    ensures
        claims_bytes(c).len() == CLAIMS_LEN,
        spec_u128_from_le_bytes(claims_bytes(c).subrange(0, 16)) == c.session_id,
        spec_u64_from_le_bytes(claims_bytes(c).subrange(16, 24)) == c.issued_at,
{
    lemma_auto_spec_u128_to_from_le_bytes();
    lemma_auto_spec_u64_to_from_le_bytes();
    assert(claims_bytes(c).subrange(0, 16) =~= spec_u128_to_le_bytes(c.session_id));
    assert(claims_bytes(c).subrange(16, 24) =~= spec_u64_to_le_bytes(c.issued_at));
}

proof fn lemma_claims_injective(a: Claims, b: Claims)
    requires
        claims_bytes(a) == claims_bytes(b),
    ensures
        a == b,
{
    lemma_claims_bytes(a);
    lemma_claims_bytes(b);
}

/// Two claim sets never sign to the same token.
pub proof fn lemma_token_injective(key: Seq<u8>, a: Claims, b: Claims)
    requires
        token_of(key, a) == token_of(key, b),
    ensures
        a == b,
{
    lemma_claims_bytes(a);
    lemma_claims_bytes(b);
    assert(token_of(key, a).subrange(0, 24) =~= claims_bytes(a));
    assert(token_of(key, b).subrange(0, 24) =~= claims_bytes(b));
    lemma_claims_injective(a, b);
}

/// Signs the claims: the token is the encoded claims followed by their code
/// under the signing key.
pub fn mint(key: &Vec<u8>, claims: Claims) -> (t: Vec<u8>)
    ensures
        t@ == token_of(key@, claims),
        t@.len() == TOKEN_LEN,
{
    let mut t = u128_to_le_bytes(claims.session_id);
    let mut at = u64_to_le_bytes(claims.issued_at);
    t.append(&mut at);
    proof {
        lemma_auto_spec_u64_to_from_le_bytes();
    }
    assert(t@ =~= claims_bytes(claims));
    let mut code = hmac_sha256(key.as_slice(), t.as_slice());
    t.append(&mut code);
    t
}

/// Checks a token's signature and reads its claims. Needs no store: whether
/// the session is still alive is for the caller to ask.
pub fn verify(key: &Vec<u8>, token: &Vec<u8>) -> (r: Option<Claims>)
    ensures
        verify_result(key@, token@, r),
{
    if token.len() < CLAIMS_LEN {
        proof {
            assert forall|c: Claims| token@ != #[trigger] token_of(key@, c) by {
                lemma_claims_bytes(c);
            }
        }
        return None;
    }
    let t = token.as_slice();
    let payload = slice_subrange(t, 0, CLAIMS_LEN);
    let expected = hmac_sha256(key.as_slice(), payload);
    proof {
        assert forall|c: Claims| token@ == #[trigger] token_of(key@, c) implies payload@ == claims_bytes(c)
            && token@.len() == TOKEN_LEN by {
            lemma_claims_bytes(c);
            assert(token@.subrange(0, 24) =~= claims_bytes(c));
        }
    }
    if token.len() != TOKEN_LEN {
        return None;
    }
    let mut i: usize = 0;
    while i < 32
        invariant
            0 <= i <= 32,
            token@.len() == TOKEN_LEN,
            expected@.len() == 32,
            expected@ == hmac_sha256_of(key@, payload@),
            forall|c: Claims| token@ == #[trigger] token_of(key@, c) ==> payload@ == claims_bytes(c),
            forall|k: int| 0 <= k < i ==> token@[CLAIMS_LEN + k] == expected@[k],
        decreases 32 - i,
    {
        if token[CLAIMS_LEN + i] != expected[i] {
            proof {
                assert forall|c: Claims| token@ != #[trigger] token_of(key@, c) by {
                    if token@ == token_of(key@, c) {
                        lemma_claims_bytes(c);
                        assert(payload@ == claims_bytes(c));
                        assert(expected@ == hmac_sha256_of(key@, claims_bytes(c)));
                        assert(token_of(key@, c)[CLAIMS_LEN + i] == hmac_sha256_of(key@, claims_bytes(c))[i as int]);
                    }
                }
            }
            return None;
        }
        i = i + 1;
    }
    let session_id = u128_from_le_bytes(slice_subrange(t, 0, 16));
    let issued_at = u64_from_le_bytes(slice_subrange(t, 16, CLAIMS_LEN));
    let c = Claims { session_id, issued_at };
    proof {
        lemma_auto_spec_u128_to_from_le_bytes();
        lemma_auto_spec_u64_to_from_le_bytes();
        assert(token@.subrange(0, 16) =~= payload@.subrange(0, 16));
        assert(token@.subrange(16, 24) =~= payload@.subrange(16, 24));
        assert(payload@ =~= claims_bytes(c));
        assert(token@ =~= token_of(key@, c));
    }
    Some(c)
}

/// A token that `mint` made verifies to the claims it was made from.
pub proof fn law_token_round_trip(key: Seq<u8>, c: Claims, r: Option<Claims>)
    requires
        verify_result(key, token_of(key, c), r),
    ensures
        r == Some(c),
{
    if let Some(d) = r {
        lemma_claims_bytes(c);
        lemma_claims_bytes(d);
        assert(token_of(key, c).subrange(0, 24) =~= claims_bytes(c));
        assert(token_of(key, d).subrange(0, 24) =~= claims_bytes(d));
        lemma_claims_injective(c, d);
    }
}

/// A token from `mint` with any byte of its signature changed does not verify.
pub proof fn law_tampered_signature_rejected(
    key: Seq<u8>,
    c: Claims,
    token: Seq<u8>,
    i: int,
    b: u8,
    r: Option<Claims>,
)
    requires
        token == token_of(key, c),
        token.len() == TOKEN_LEN,
        CLAIMS_LEN <= i < TOKEN_LEN,
        b != token[i],
        verify_result(key, token.update(i, b), r),
    ensures
        r is None,
{
    if let Some(d) = r {
        let t2 = token.update(i, b);
        lemma_claims_bytes(c);
        lemma_claims_bytes(d);
        assert(t2.subrange(0, 24) =~= claims_bytes(c));
        assert(token_of(key, d).subrange(0, 24) =~= claims_bytes(d));
        lemma_claims_injective(c, d);
        assert(t2[i] == b);
    }
}

} // verus!
