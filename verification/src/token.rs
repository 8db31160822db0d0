//! Bearer tokens: a signed header and payload in three dot-separated
//! base64url segments, signed with HMAC-SHA256 under a process-wide key.
//!
//! The header and payload formats are fixed by this module; the signature
//! bytes come from the `jsonwebtoken` crate and are named, not restated.

use crate::base64url::{all_b64, b64_decode, b64_encode, b64url_decode, b64url_encode, is_b64_byte,
    lemma_b64_encode_in_alphabet, lemma_b64_round_trip};
use crate::errors::{MyError, TokenError};
use crate::payload::{claims_bytes, claims_to_bytes, lemma_claims_round_trip, parse_claims,
    parse_claims_bytes};
use crate::types::Claims;
use vstd::prelude::*;
use vstd::string::StrSliceExecFns;
use vstd::string::StringSliceAdditionalSpecFns;
use vstd::utf8::encode_utf8;

verus! {

/// How long a token stays valid after it is issued, in seconds.
pub const TOKEN_LIFETIME_SECS: u64 = 900;

/// The bytes of the fixed token header, `{"typ":"JWT","alg":"HS256"}`.
pub open spec fn header_json() -> Seq<u8> {
    seq![
        123u8, 34u8, 116u8, 121u8, 112u8, 34u8, 58u8, 34u8, 74u8, 87u8, 84u8, 34u8, 44u8, 34u8,
        97u8, 108u8, 103u8, 34u8, 58u8, 34u8, 72u8, 83u8, 50u8, 53u8, 54u8, 34u8, 125u8,
    ]
}

/// The encoded header segment.
pub open spec fn header_b64() -> Seq<u8> {
    b64_encode(header_json())
}

/// What HMAC-SHA256 signing under `key` returns for `msg`, as the unpadded
/// URL-safe base64 bytes the signing routine hands back. The value is a
/// function of key and message alone; nothing else is assumed of it.
pub uninterp spec fn hs256_sig(key: Seq<u8>, msg: Seq<u8>) -> Seq<u8>;

/// Relies on jsonwebtoken's `crypto::sign` with `Algorithm::HS256` and a
/// secret-bytes key: it returns the base64url text, without padding, of the
/// 32-byte HMAC-SHA256 tag, so 43 alphabet bytes; for an HMAC algorithm and
/// a secret key it does not fail.
#[verifier::external_body]
fn hmac_sign(key: &[u8], msg: &[u8]) -> (sig: Vec<u8>)
    ensures
        sig@ == hs256_sig(key@, msg@),
        all_b64(sig@),
        sig@.len() == 43,
{
    let k = jsonwebtoken::EncodingKey::from_secret(key);
    let s = jsonwebtoken::crypto::sign(msg, &k, jsonwebtoken::Algorithm::HS256).unwrap();
    s.into_bytes()
}

/// Relies on jsonwebtoken's `crypto::verify` with `Algorithm::HS256`: it
/// recomputes the HMAC-SHA256 tag of `msg` under `key` and accepts exactly
/// the strict base64url decodings of that tag, which is one text: the one
/// `crypto::sign` returns.
#[verifier::external_body]
fn hmac_verify(key: &[u8], msg: &[u8], sig: &[u8]) -> (ok: bool)
    ensures
        ok == (sig@ == hs256_sig(key@, msg@)),
{
    let k = jsonwebtoken::DecodingKey::from_secret(key);
    match std::str::from_utf8(sig) {
        Ok(s) => jsonwebtoken::crypto::verify(s, msg, &k, jsonwebtoken::Algorithm::HS256)
            .unwrap_or(false),
        Err(_) => false,
    }
}

/// Relies on `String::from_utf8`: bytes below 128 become the string of the
/// same characters, one character per byte.
#[verifier::external_body]
fn ascii_to_string(v: Vec<u8>) -> (s: String)
    requires
        forall|i: int| 0 <= i < v@.len() ==> v@[i] < 128,
    ensures
        s@.len() == v@.len(),
        forall|i: int| 0 <= i < v@.len() ==> s@[i] == v@[i] as char,
{
    String::from_utf8(v).unwrap_or_default()
}

/// The part of a token that is signed: encoded header, a dot, encoded payload.
pub open spec fn signing_input(id: u128, exp: u64) -> Seq<u8> {
    header_b64() + seq![46u8] + b64_encode(claims_bytes(id, exp))
}

/// The one token issued under `key` for an identifier and an expiration.
pub open spec fn token_bytes(key: Seq<u8>, id: u128, exp: u64) -> Seq<u8> {
    signing_input(id, exp) + seq![46u8] + hs256_sig(key, signing_input(id, exp))
}

/// The first position at or after `from` holding `x`, or -1.
pub open spec fn find_byte(s: Seq<u8>, x: u8, from: int) -> int
    decreases s.len() - from,
    when 0 <= from <= s.len()
{
    if from >= s.len() {
        -1
    } else if s[from] == x {
        from
    } else {
        find_byte(s, x, from + 1)
    }
}

/// What validation answers on any byte string, under `key`, at time `now`:
/// exactly two dots, the fixed header, a payload that decodes and parses,
/// a signature equal to the one `key` gives the first two segments, and an
/// expiration later than `now`; each failure with its own error.
pub open spec fn validate_spec(key: Seq<u8>, t: Seq<u8>, now: u64) -> Result<Claims, TokenError> {
    let d1 = find_byte(t, 46, 0);
    if d1 < 0 {
        Err(TokenError::Malformed)
    } else {
        let d2 = find_byte(t, 46, d1 + 1);
        if d2 < 0 {
            Err(TokenError::Malformed)
        } else if find_byte(t, 46, d2 + 1) >= 0 {
            Err(TokenError::Malformed)
        } else if t.subrange(0, d1) != header_b64() {
            Err(TokenError::Malformed)
        } else {
            match b64_decode(t.subrange(d1 + 1, d2)) {
                None => Err(TokenError::Malformed),
                Some(p) => match parse_claims(p) {
                    None => Err(TokenError::Malformed),
                    Some((id, exp)) => {
                        if t.subrange(d2 + 1, t.len() as int) != hs256_sig(
                            key,
                            t.subrange(0, d2),
                        ) {
                            Err(TokenError::InvalidSignature)
                        } else if now >= exp {
                            Err(TokenError::Expired)
                        } else {
                            Ok(Claims { id, exp })
                        }
                    },
                },
            }
        }
    }
}

proof fn lemma_find_byte_at(s: Seq<u8>, x: u8, from: int, k: int)
    requires
        0 <= from <= k < s.len(),
        s[k] == x,
        forall|j: int| from <= j < k ==> s[j] != x,
    ensures
        find_byte(s, x, from) == k,
    decreases k - from,
{
    if from < k {
        lemma_find_byte_at(s, x, from + 1, k);
    }
}

proof fn lemma_find_byte_none(s: Seq<u8>, x: u8, from: int)
    requires
        0 <= from <= s.len(),
        forall|j: int| from <= j < s.len() ==> s[j] != x,
    ensures
        find_byte(s, x, from) == -1,
    decreases s.len() - from,
{
    if from < s.len() {
        lemma_find_byte_none(s, x, from + 1);
    }
}

/// What validation answers on a token whose first two segments are the
/// canonical ones for `id` and `exp` and whose third segment is any alphabet
/// text `sig`: rejected unless `sig` is the true signature, then expired
/// unless `now` is before `exp`, then accepted with exactly these claims.
pub proof fn lemma_validate_canonical(key: Seq<u8>, id: u128, exp: u64, sig: Seq<u8>, now: u64)
    requires
        all_b64(sig),
    ensures
        ({
            let t = signing_input(id, exp) + seq![46u8] + sig;
            validate_spec(key, t, now) == if sig != hs256_sig(key, signing_input(id, exp)) {
                Err::<Claims, TokenError>(TokenError::InvalidSignature)
            } else if now >= exp {
                Err::<Claims, TokenError>(TokenError::Expired)
            } else {
                Ok::<Claims, TokenError>(Claims { id, exp })
            }
        }),
{
    let h = header_b64();
    let c = b64_encode(claims_bytes(id, exp));
    let si = signing_input(id, exp);
    let t = si + seq![46u8] + sig;
    lemma_b64_encode_in_alphabet(header_json());
    lemma_b64_encode_in_alphabet(claims_bytes(id, exp));
    let a = h.len() as int;
    let b = si.len() as int;
    assert(t[a] == 46);
    assert(forall|j: int| 0 <= j < a ==> t[j] == h[j] && is_b64_byte(h[j]));
    lemma_find_byte_at(t, 46, 0, a);
    assert(t[b] == 46);
    assert(forall|j: int| a + 1 <= j < b ==> t[j] == c[j - (a + 1)] && is_b64_byte(
        c[j - (a + 1)],
    ));
    lemma_find_byte_at(t, 46, a + 1, b);
    assert(t.subrange(0, a) =~= h);
    assert(t.subrange(a + 1, b) =~= c);
    assert(t.subrange(0, b) =~= si);
    assert(t.subrange(b + 1, t.len() as int) =~= sig);
    lemma_b64_round_trip(claims_bytes(id, exp));
    lemma_claims_round_trip(id, exp);
    assert(forall|j: int| b + 1 <= j < t.len() ==> t[j] == sig[j - (b + 1)] && is_b64_byte(
        sig[j - (b + 1)],
    ));
    lemma_find_byte_none(t, 46, b + 1);
}

/// A token whose first two segments are canonical for some identifier and
/// expiration but whose signature segment differs anywhere from the true
/// signature — one tampered byte is enough — is rejected as a bad signature.
pub proof fn lemma_tampered_signature_rejected(
    key: Seq<u8>,
    id: u128,
    exp: u64,
    sig: Seq<u8>,
    now: u64,
)
    requires
        all_b64(sig),
        sig != hs256_sig(key, signing_input(id, exp)),
    ensures
        validate_spec(key, signing_input(id, exp) + seq![46u8] + sig, now) == Err::<
            Claims,
            TokenError,
        >(TokenError::InvalidSignature),
{
    lemma_validate_canonical(key, id, exp, sig, now);
}

/// Characters below 128 encode to themselves, one byte per character.
proof fn lemma_ascii_encode(chars: Seq<char>, bytes: Seq<u8>)
    requires
        chars.len() == bytes.len(),
        forall|i: int| 0 <= i < bytes.len() ==> bytes[i] < 128 && chars[i] == bytes[i] as char,
    ensures
        encode_utf8(chars) == bytes,
    decreases chars.len(),
{
    if chars.len() == 0 {
        assert(encode_utf8(chars) =~= bytes);
    } else {
        let c = chars[0];
        let b = bytes[0];
        let v = c as u32;
        assert(v == b);
        assert(v & 0x7F == v) by (bit_vector)
            requires
                v < 128,
        ;
        assert(vstd::utf8::encode_scalar(v) =~= seq![b]);
        assert(forall|i: int|
            0 <= i < bytes.drop_first().len() ==> #[trigger] bytes.drop_first()[i] == bytes[i + 1]
                && chars.drop_first()[i] == chars[i + 1]);
        lemma_ascii_encode(chars.drop_first(), bytes.drop_first());
        assert(encode_utf8(chars) =~= bytes);
    }
}

fn header_json_bytes() -> (r: Vec<u8>)
    ensures
        r@ == header_json(),
{
    let mut r: Vec<u8> = Vec::new();
    r.push(123);
    r.push(34);
    r.push(116);
    r.push(121);
    r.push(112);
    r.push(34);
    r.push(58);
    r.push(34);
    r.push(74);
    r.push(87);
    r.push(84);
    r.push(34);
    r.push(44);
    r.push(34);
    r.push(97);
    r.push(108);
    r.push(103);
    r.push(34);
    r.push(58);
    r.push(34);
    r.push(72);
    r.push(83);
    r.push(50);
    r.push(53);
    r.push(54);
    r.push(34);
    r.push(125);
    proof {
        assert(r@ =~= header_json());
    }
    r
}

fn push_all(dst: &mut Vec<u8>, src: &Vec<u8>)
    ensures
        final(dst)@ == old(dst)@ + src@,
{
    let mut k: usize = 0;
    while k < src.len()
        invariant
            k <= src@.len(),
            dst@ == old(dst)@ + src@.take(k as int),
        decreases src@.len() - k,
    {
        dst.push(src[k]);
        proof {
            assert(old(dst)@ + src@.take(k + 1) =~= (old(dst)@ + src@.take(k as int)).push(
                src@[k as int],
            ));
        }
        k = k + 1;
    }
    proof {
        assert(src@.take(src@.len() as int) =~= src@);
    }
}

fn subvec(s: &Vec<u8>, a: usize, b: usize) -> (r: Vec<u8>)
    requires
        a <= b <= s@.len(),
    ensures
        r@ == s@.subrange(a as int, b as int),
{
    let mut r: Vec<u8> = Vec::new();
    let mut k: usize = a;
    while k < b
        invariant
            a <= k <= b <= s@.len(),
            r@ == s@.subrange(a as int, k as int),
        decreases b - k,
    {
        r.push(s[k]);
        proof {
            assert(s@.subrange(a as int, k + 1) =~= s@.subrange(a as int, k as int).push(
                s@[k as int],
            ));
        }
        k = k + 1;
    }
    r
}

fn eq_range(s: &Vec<u8>, a: usize, b: usize, t: &Vec<u8>) -> (r: bool)
    requires
        a <= b <= s@.len(),
    ensures
        r == (s@.subrange(a as int, b as int) == t@),
{
    let ghost frag = s@.subrange(a as int, b as int);
    if b - a != t.len() {
        return false;
    }
    let mut k: usize = 0;
    while k < t.len()
        invariant
            a <= b <= s@.len(),
            b - a == t@.len(),
            frag == s@.subrange(a as int, b as int),
            k <= t@.len(),
            forall|j: int| 0 <= j < k ==> frag[j] == t@[j],
        decreases t@.len() - k,
    {
        if s[a + k] != t[k] {
            proof {
                assert(frag[k as int] != t@[k as int]);
            }
            return false;
        }
        k = k + 1;
    }
    proof {
        assert(frag =~= t@);
    }
    true
}

fn find_byte_exec(s: &Vec<u8>, x: u8, from: usize) -> (r: Option<usize>)
    requires
        from <= s@.len(),
    ensures
        match r {
            Some(i) => from <= i < s@.len() && find_byte(s@, x, from as int) == i,
            None => find_byte(s@, x, from as int) == -1,
        },
{
    let mut k: usize = from;
    while k < s.len()
        invariant
            from <= k <= s@.len(),
            find_byte(s@, x, from as int) == find_byte(s@, x, k as int),
        decreases s@.len() - k,
    {
        if s[k] == x {
            return Some(k);
        }
        k = k + 1;
    }
    None
}

/// Issue the token for `id` under `key` at time `now`: it carries exactly
/// the claims of `id` with expiration `now` plus the lifetime, and
/// validation under the same key accepts it before that expiration and
/// reports it expired from then on.
pub fn generate_token(key: &[u8], id: u128, now: u64) -> (r: Result<String, MyError>)
    requires
        now + TOKEN_LIFETIME_SECS <= u64::MAX,
    ensures
        r is Ok,
        encode_utf8(r->Ok_0@) == token_bytes(key@, id, (now + TOKEN_LIFETIME_SECS) as u64),
        forall|t: u64|
            #[trigger] validate_spec(
                key@,
                token_bytes(key@, id, (now + TOKEN_LIFETIME_SECS) as u64),
                t,
            ) == if t < now + TOKEN_LIFETIME_SECS {
                Ok::<Claims, TokenError>(
                    Claims { id, exp: (now + TOKEN_LIFETIME_SECS) as u64 },
                )
            } else {
                Err::<Claims, TokenError>(TokenError::Expired)
            },
{
    let exp: u64 = now + TOKEN_LIFETIME_SECS;
    let cb = claims_to_bytes(id, exp);
    let ec = b64url_encode(&cb);
    let hj = header_json_bytes();
    let mut msg = b64url_encode(&hj);
    msg.push(46);
    push_all(&mut msg, &ec);
    proof {
        assert(msg@ =~= signing_input(id, exp));
    }
    let sig = hmac_sign(key, msg.as_slice());
    let ghost sig_view = sig@;
    let mut tok = msg;
    tok.push(46);
    push_all(&mut tok, &sig);
    let ghost tok_view = tok@;
    proof {
        assert(tok_view =~= token_bytes(key@, id, exp));
        assert forall|i: int| 0 <= i < tok_view.len() implies tok_view[i] < 128 by {
            let si = signing_input(id, exp);
            lemma_b64_encode_in_alphabet(header_json());
            lemma_b64_encode_in_alphabet(claims_bytes(id, exp));
            if i < si.len() {
                let h = header_b64();
                if i < h.len() {
                    assert(is_b64_byte(si[i]));
                } else if i == h.len() {
                    assert(si[i] == 46);
                } else {
                    assert(is_b64_byte(si[i]));
                }
            } else if i == si.len() {
                assert(tok_view[i] == 46);
            } else {
                assert(tok_view[i] == sig_view[i - si.len() - 1]);
                assert(is_b64_byte(tok_view[i]));
            }
        }
    }
    let s = ascii_to_string(tok);
    proof {
        lemma_ascii_encode(s@, tok_view);
        assert forall|t: u64|
            #[trigger] validate_spec(
                key@,
                token_bytes(key@, id, (now + TOKEN_LIFETIME_SECS) as u64),
                t,
            ) == if t < now + TOKEN_LIFETIME_SECS {
                Ok::<Claims, TokenError>(
                    Claims { id, exp: (now + TOKEN_LIFETIME_SECS) as u64 },
                )
            } else {
                Err::<Claims, TokenError>(TokenError::Expired)
            } by {
            lemma_validate_canonical(key@, id, exp, sig_view, t);
        }
    }
    Ok(s)
}

/// Check a presented token under `key` at time `now`; the answer is exactly
/// what [`validate_spec`] says of the token's bytes.
pub fn validate_token(key: &[u8], token: &str, now: u64) -> (r: Result<Claims, TokenError>)
    ensures
        r == validate_spec(key@, token.spec_bytes(), now),
{
    let bytes = token.as_bytes_vec();
    let d1 = match find_byte_exec(&bytes, 46, 0) {
        Some(i) => i,
        None => {
            return Err(TokenError::Malformed);
        },
    };
    let d2 = match find_byte_exec(&bytes, 46, d1 + 1) {
        Some(i) => i,
        None => {
            return Err(TokenError::Malformed);
        },
    };
    match find_byte_exec(&bytes, 46, d2 + 1) {
        Some(_) => {
            return Err(TokenError::Malformed);
        },
        None => {},
    }
    let hj = header_json_bytes();
    let eh = b64url_encode(&hj);
    if !eq_range(&bytes, 0, d1, &eh) {
        return Err(TokenError::Malformed);
    }
    let seg = subvec(&bytes, d1 + 1, d2);
    let p = match b64url_decode(&seg) {
        Some(p) => p,
        None => {
            return Err(TokenError::Malformed);
        },
    };
    let parsed = match parse_claims_bytes(&p) {
        Some(x) => x,
        None => {
            return Err(TokenError::Malformed);
        },
    };
    let msg = subvec(&bytes, 0, d2);
    let sigseg = subvec(&bytes, d2 + 1, bytes.len());
    if !hmac_verify(key, msg.as_slice(), sigseg.as_slice()) {
        return Err(TokenError::InvalidSignature);
    }
    if now >= parsed.1 {
        return Err(TokenError::Expired);
    }
    Ok(Claims { id: parsed.0, exp: parsed.1 })
}

} // verus!
