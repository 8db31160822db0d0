//! The token payload: a fixed-shape JSON object that carries the user
//! identifier as thirty-two lowercase hexadecimal digits and the expiration
//! as seconds since the epoch, `{"id":"..","exp":..}`.
//!
//! The shape is fixed so that every pair of identifier and expiration has
//! exactly one payload, and the parser accepts nothing else.

use crate::digits::{
    all_hex, dec_bytes, hex_bytes, hex_val_seq, lemma_dec_round_trip, lemma_hex_bytes_shape,
    lemma_hex_round_trip, lemma_u128_fits_32_hex, parse_dec, parse_dec_range, parse_hex_range,
    push_dec, push_hex,
};
use vstd::prelude::*;

verus! {

/// The bytes of `{"id":"`.
pub open spec fn claims_open() -> Seq<u8> {
    seq![123u8, 34u8, 105u8, 100u8, 34u8, 58u8, 34u8]
}

/// The bytes of `","exp":`.
pub open spec fn claims_mid() -> Seq<u8> {
    seq![34u8, 44u8, 34u8, 101u8, 120u8, 112u8, 34u8, 58u8]
}

/// The one payload for an identifier and an expiration.
pub open spec fn claims_bytes(id: u128, exp: u64) -> Seq<u8> {
    claims_open() + hex_bytes(id, 32) + claims_mid() + dec_bytes(exp) + seq![125u8]
}

/// Strict inverse of [`claims_bytes`].
pub open spec fn parse_claims(s: Seq<u8>) -> Option<(u128, u64)> {
    if s.len() >= 49 && s.subrange(0, 7) == claims_open() && all_hex(s.subrange(7, 39))
        && s.subrange(39, 47) == claims_mid() && s.last() == 125 && parse_dec(
        s.subrange(47, s.len() - 1),
    ) is Some {
        Some(
            (
                hex_val_seq(s.subrange(7, 39)) as u128,
                parse_dec(s.subrange(47, s.len() - 1))->Some_0,
            ),
        )
    } else {
        None
    }
}

/// Parsing the payload built for `id` and `exp` gives `id` and `exp` back.
pub proof fn lemma_claims_round_trip(id: u128, exp: u64)
    ensures
        parse_claims(claims_bytes(id, exp)) == Some((id, exp)),
{
    let s = claims_bytes(id, exp);
    lemma_hex_bytes_shape(id, 32);
    lemma_dec_round_trip(exp);
    let d = dec_bytes(exp).len();
    assert(s.len() == 48 + d);
    assert(s.subrange(0, 7) =~= claims_open());
    assert(s.subrange(7, 39) =~= hex_bytes(id, 32));
    assert(s.subrange(39, 47) =~= claims_mid());
    assert(s.subrange(47, s.len() - 1) =~= dec_bytes(exp));
    assert(s.last() == 125);
    lemma_u128_fits_32_hex(id);
    lemma_hex_round_trip(id, 32);
}

/// Build the payload for an identifier and an expiration.
pub fn claims_to_bytes(id: u128, exp: u64) -> (out: Vec<u8>)
    ensures
        out@ == claims_bytes(id, exp),
{
    let mut out: Vec<u8> = Vec::new();
    out.push(123);
    out.push(34);
    out.push(105);
    out.push(100);
    out.push(34);
    out.push(58);
    out.push(34);
    proof {
        assert(out@ =~= claims_open());
    }
    push_hex(&mut out, id, 32);
    out.push(34);
    out.push(44);
    out.push(34);
    out.push(101);
    out.push(120);
    out.push(112);
    out.push(34);
    out.push(58);
    proof {
        assert(out@ =~= claims_open() + hex_bytes(id, 32) + claims_mid());
    }
    push_dec(&mut out, exp);
    out.push(125);
    proof {
        assert(out@ =~= claims_bytes(id, exp));
    }
    out
}

/// Read an identifier and an expiration from payload bytes; `None` unless
/// the bytes have exactly the shape of [`claims_bytes`].
pub fn parse_claims_bytes(s: &Vec<u8>) -> (r: Option<(u128, u64)>)
    ensures
        r == parse_claims(s@),
{
    let n = s.len();
    if n < 49 {
        return None;
    }
    let open_ok = s[0] == 123 && s[1] == 34 && s[2] == 105 && s[3] == 100 && s[4] == 34 && s[5]
        == 58 && s[6] == 34;
    if !open_ok {
        proof {
            let frag = s@.subrange(0, 7);
            assert(forall|i: int| 0 <= i < 7 ==> frag[i] == s@[i]);
            assert(frag != claims_open());
        }
        return None;
    }
    proof {
        let frag = s@.subrange(0, 7);
        assert(forall|i: int| 0 <= i < 7 ==> frag[i] == s@[i]);
        assert(frag =~= claims_open());
    }
    let mid_ok = s[39] == 34 && s[40] == 44 && s[41] == 34 && s[42] == 101 && s[43] == 120 && s[44]
        == 112 && s[45] == 34 && s[46] == 58;
    if !mid_ok {
        proof {
            let frag = s@.subrange(39, 47);
            assert(forall|i: int| 0 <= i < 8 ==> frag[i] == s@[39 + i]);
            assert(frag != claims_mid());
        }
        return None;
    }
    proof {
        let frag = s@.subrange(39, 47);
        assert(forall|i: int| 0 <= i < 8 ==> frag[i] == s@[39 + i]);
        assert(frag =~= claims_mid());
    }
    if s[n - 1] != 125 {
        return None;
    }
    let id = match parse_hex_range(s, 7, 39) {
        Some(v) => v,
        None => {
            return None;
        },
    };
    let exp = match parse_dec_range(s, 47, n - 1) {
        Some(v) => v,
        None => {
            return None;
        },
    };
    Some((id, exp))
}

} // verus!
