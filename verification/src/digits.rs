//! Decimal and hexadecimal text over ASCII bytes.
//!
//! The token payload carries the expiration as canonical decimal digits and
//! the user identifier as fixed-width lowercase hexadecimal.

use vstd::prelude::*;

verus! {

/// The canonical decimal digits of `n`: no sign, no leading zero.
pub open spec fn dec_bytes(n: u64) -> Seq<u8>
    decreases n,
{
    if n < 10 {
        seq![(n + 48) as u8]
    } else {
        dec_bytes(n / 10) + seq![(n % 10 + 48) as u8]
    }
}

pub open spec fn is_dec_byte(x: u8) -> bool {
    48 <= x <= 57
}

/// Strict inverse of [`dec_bytes`]: digits only, no leading zero, value
/// within `u64`.
pub open spec fn parse_dec(s: Seq<u8>) -> Option<u64>
    decreases s.len(),
{
    if s.len() == 0 {
        None
    } else if s.len() == 1 {
        if is_dec_byte(s[0]) {
            Some((s[0] - 48) as u64)
        } else {
            None
        }
    } else {
        match parse_dec(s.drop_last()) {
            None => None,
            Some(h) => {
                let d = s.last();
                if is_dec_byte(d) && h != 0 && h * 10 + (d - 48) <= u64::MAX {
                    Some((h * 10 + (d - 48)) as u64)
                } else {
                    None
                }
            },
        }
    }
}

/// Rendering a number and reading it back gives the number; the rendering is
/// nonempty and all digits.
pub proof fn lemma_dec_round_trip(n: u64)
    ensures
        parse_dec(dec_bytes(n)) == Some(n),
        dec_bytes(n).len() >= 1,
        forall|i: int| 0 <= i < dec_bytes(n).len() ==> is_dec_byte(#[trigger] dec_bytes(n)[i]),
    decreases n,
{
    if n < 10 {
    } else {
        assert(n / 10 < n && n / 10 >= 1) by (nonlinear_arith)
            requires
                n >= 10,
        ;
        lemma_dec_round_trip(n / 10);
        assert(dec_bytes(n).drop_last() =~= dec_bytes(n / 10));
        assert(n / 10 * 10 + n % 10 == n) by (nonlinear_arith);
    }
}

/// If a proper prefix fails to parse, the whole string fails.
pub proof fn lemma_parse_dec_none_prefix(s: Seq<u8>, k: int)
    requires
        1 <= k <= s.len(),
        parse_dec(s.take(k)) is None,
    ensures
        parse_dec(s) is None,
    decreases s.len() - k,
{
    if k == s.len() {
        assert(s.take(k) =~= s);
    } else {
        assert(s.take(s.len() - 1).take(k) =~= s.take(k));
        lemma_parse_dec_none_prefix(s.take(s.len() - 1), k);
        assert(s.drop_last() =~= s.take(s.len() - 1));
    }
}

/// Parse a canonical decimal from a half-open byte range.
pub fn parse_dec_range(s: &Vec<u8>, from: usize, to: usize) -> (r: Option<u64>)
    requires
        from <= to <= s@.len(),
    ensures
        r == parse_dec(s@.subrange(from as int, to as int)),
{
    let ghost sub = s@.subrange(from as int, to as int);
    if from == to {
        return None;
    }
    let mut acc: u64 = 0;
    let mut k: usize = 0;
    let len: usize = to - from;
    while k < len
        invariant
            from <= to <= s@.len(),
            len == to - from,
            sub == s@.subrange(from as int, to as int),
            0 <= k <= len,
            k > 0 ==> parse_dec(sub.take(k as int)) == Some(acc),
            k == 0 ==> len > 0,
        decreases len - k,
    {
        let b: u8 = s[from + k];
        proof {
            assert(sub[k as int] == s@[from + k]);
        }
        if !(48 <= b && b <= 57) {
            proof {
                assert(sub.take(k + 1).drop_last() =~= sub.take(k as int));
                assert(parse_dec(sub.take(k + 1)) is None);
                lemma_parse_dec_none_prefix(sub, k + 1);
            }
            return None;
        }
        let d: u8 = b - 48;
        if k == 0 {
            acc = d as u64;
            proof {
                assert(sub.take(1).len() == 1);
            }
        } else {
            if acc == 0 {
                proof {
                    assert(sub.take(k + 1).drop_last() =~= sub.take(k as int));
                    assert(parse_dec(sub.take(k + 1)) is None);
                    lemma_parse_dec_none_prefix(sub, k + 1);
                }
                return None;
            }
            let step = match acc.checked_mul(10) {
                Some(m) => m.checked_add(d as u64),
                None => None,
            };
            match step {
                Some(v) => {
                    proof {
                        assert(sub.take(k + 1).drop_last() =~= sub.take(k as int));
                        assert(sub.take(k + 1).last() == b);
                    }
                    acc = v;
                },
                None => {
                    proof {
                        assert(sub.take(k + 1).drop_last() =~= sub.take(k as int));
                        assert(parse_dec(sub.take(k + 1)) is None);
                        lemma_parse_dec_none_prefix(sub, k + 1);
                    }
                    return None;
                },
            }
        }
        k = k + 1;
    }
    proof {
        assert(sub.take(len as int) =~= sub);
    }
    Some(acc)
}

/// Append the canonical decimal digits of `n`.
pub fn push_dec(out: &mut Vec<u8>, n: u64)
    ensures
        final(out)@ == old(out)@ + dec_bytes(n),
    decreases n,
{
    if n < 10 {
        out.push((n as u8) + 48);
        proof {
            assert(out@ =~= old(out)@ + dec_bytes(n));
        }
    } else {
        proof {
            assert(n / 10 < n) by (nonlinear_arith)
                requires
                    n >= 10,
            ;
        }
        push_dec(out, n / 10);
        out.push(((n % 10) as u8) + 48);
        proof {
            assert(out@ =~= old(out)@ + dec_bytes(n));
        }
    }
}

/// The lowercase hexadecimal digit of a value below sixteen.
pub open spec fn hex_digit(d: u8) -> u8
    recommends
        d < 16,
{
    if d < 10 {
        (d + 48) as u8
    } else {
        (d + 87) as u8
    }
}

pub open spec fn is_hex_byte(x: u8) -> bool {
    (48 <= x <= 57) || (97 <= x <= 102)
}

pub open spec fn hex_val(x: u8) -> u8
    recommends
        is_hex_byte(x),
{
    if 48 <= x <= 57 {
        (x - 48) as u8
    } else {
        (x - 87) as u8
    }
}

/// The last `n` hexadecimal digits of `v`, most significant first.
pub open spec fn hex_bytes(v: u128, n: nat) -> Seq<u8>
    decreases n,
{
    if n == 0 {
        Seq::empty()
    } else {
        hex_bytes(v / 16, (n - 1) as nat) + seq![hex_digit((v % 16) as u8)]
    }
}

pub open spec fn all_hex(s: Seq<u8>) -> bool {
    forall|i: int| 0 <= i < s.len() ==> is_hex_byte(s[i])
}

/// The value of a string of hexadecimal digits, most significant first.
pub open spec fn hex_val_seq(s: Seq<u8>) -> int
    recommends
        all_hex(s),
    decreases s.len(),
{
    if s.len() == 0 {
        0
    } else {
        hex_val_seq(s.drop_last()) * 16 + hex_val(s.last())
    }
}

/// Sixteen to the power `n`.
pub open spec fn pow16(n: nat) -> int
    decreases n,
{
    if n == 0 {
        1
    } else {
        16 * pow16((n - 1) as nat)
    }
}

pub proof fn lemma_pow16_pos(n: nat)
    ensures
        pow16(n) >= 1,
    decreases n,
{
    if n > 0 {
        lemma_pow16_pos((n - 1) as nat);
    }
}

pub proof fn lemma_hex_bytes_shape(v: u128, n: nat)
    ensures
        hex_bytes(v, n).len() == n,
        all_hex(hex_bytes(v, n)),
    decreases n,
{
    if n > 0 {
        lemma_hex_bytes_shape(v / 16, (n - 1) as nat);
        let s = hex_bytes(v, n);
        let h = hex_bytes(v / 16, (n - 1) as nat);
        assert(forall|i: int|
            0 <= i < s.len() ==> s[i] == (if i < h.len() {
                h[i]
            } else {
                hex_digit((v % 16) as u8)
            }));
    }
}

/// Rendering `n` hexadecimal digits and reading them back gives the value,
/// for values that fit in `n` digits.
pub proof fn lemma_hex_round_trip(v: u128, n: nat)
    requires
        v < pow16(n),
    ensures
        hex_val_seq(hex_bytes(v, n)) == v,
    decreases n,
{
    if n == 0 {
    } else {
        let p = pow16((n - 1) as nat);
        lemma_pow16_pos((n - 1) as nat);
        assert(v / 16 < p) by (nonlinear_arith)
            requires
                p >= 1,
                v < 16 * p,
        ;
        lemma_hex_round_trip(v / 16, (n - 1) as nat);
        let s = hex_bytes(v, n);
        assert(s.drop_last() =~= hex_bytes(v / 16, (n - 1) as nat));
        assert(v / 16 * 16 + v % 16 == v) by (nonlinear_arith);
    }
}

/// The exact value of sixteen to the thirty-second power.
pub proof fn lemma_pow16_32()
    ensures
        pow16(32) == 0x100000000000000000000000000000000,
{
    reveal_with_fuel(pow16, 33);
}

/// Every `u128` fits in thirty-two hexadecimal digits.
pub proof fn lemma_u128_fits_32_hex(v: u128)
    ensures
        v < pow16(32),
{
    lemma_pow16_32();
}

/// Append the last `n` hexadecimal digits of `v`, most significant first.
pub fn push_hex(out: &mut Vec<u8>, v: u128, n: usize)
    ensures
        final(out)@ == old(out)@ + hex_bytes(v, n as nat),
    decreases n,
{
    if n == 0 {
        proof {
            assert(out@ =~= old(out)@ + hex_bytes(v, 0));
        }
    } else {
        push_hex(out, v / 16, n - 1);
        let d: u8 = (v % 16) as u8;
        if d < 10 {
            out.push(d + 48);
        } else {
            out.push(d + 87);
        }
        proof {
            assert(out@ =~= old(out)@ + hex_bytes(v, n as nat));
        }
    }
}

/// Read a fixed-width hexadecimal value from a half-open byte range; `None`
/// unless every byte is a lowercase hexadecimal digit.
pub fn parse_hex_range(s: &Vec<u8>, from: usize, to: usize) -> (r: Option<u128>)
    requires
        from <= to <= s@.len(),
        to - from <= 32,
    ensures
        ({
            let sub = s@.subrange(from as int, to as int);
            match r {
                Some(v) => all_hex(sub) && hex_val_seq(sub) == v,
                None => !all_hex(sub),
            }
        }),
{
    let ghost sub = s@.subrange(from as int, to as int);
    let mut acc: u128 = 0;
    let mut k: usize = 0;
    let len: usize = to - from;
    while k < len
        invariant
            from <= to <= s@.len(),
            len == to - from <= 32,
            sub == s@.subrange(from as int, to as int),
            0 <= k <= len,
            all_hex(sub.take(k as int)),
            acc == hex_val_seq(sub.take(k as int)),
            acc < pow16(k as nat),
        decreases len - k,
    {
        let b: u8 = s[from + k];
        proof {
            assert(sub[k as int] == s@[from + k]);
        }
        let d: u8 = if 48 <= b && b <= 57 {
            b - 48
        } else if 97 <= b && b <= 102 {
            b - 87
        } else {
            proof {
                assert(!is_hex_byte(sub[k as int]));
            }
            return None;
        };
        proof {
            lemma_pow16_pos(k as nat);
            assert(pow16((k + 1) as nat) == 16 * pow16(k as nat));
            assert(acc * 16 + d < 16 * pow16(k as nat)) by (nonlinear_arith)
                requires
                    0 <= acc < pow16(k as nat),
                    d < 16,
            ;
            lemma_pow16_32();
            lemma_pow16_increases((k + 1) as nat, 32);
            assert(sub.take(k + 1).drop_last() =~= sub.take(k as int));
            assert(sub.take(k + 1).last() == sub[k as int]);
            assert(all_hex(sub.take(k + 1)));
        }
        acc = acc * 16 + (d as u128);
        k = k + 1;
    }
    proof {
        assert(sub.take(len as int) =~= sub);
    }
    Some(acc)
}

pub proof fn lemma_pow16_increases(a: nat, b: nat)
    requires
        a <= b,
    ensures
        pow16(a) <= pow16(b),
    decreases b,
{
    if a < b {
        lemma_pow16_increases(a, (b - 1) as nat);
        lemma_pow16_pos((b - 1) as nat);
    }
}

} // verus!
