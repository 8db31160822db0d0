//! The URL-safe base64 alphabet without padding, over ASCII bytes.
//!
//! Token segments are encoded with this alphabet, so a decoder can recognise
//! a segment boundary: the separator byte `.` is not in the alphabet.

use vstd::prelude::*;

verus! {

/// The ASCII byte that stands for a six-bit value in the URL-safe alphabet:
/// `A`..`Z`, `a`..`z`, `0`..`9`, `-`, `_`.
pub open spec fn b64_byte(v: u8) -> u8
    recommends
        v < 64,
{
    if v < 26 {
        (v + 65) as u8
    } else if v < 52 {
        (v + 71) as u8
    } else if v < 62 {
        (v - 4) as u8
    } else if v == 62 {
        45
    } else {
        95
    }
}

/// Whether an ASCII byte belongs to the URL-safe alphabet.
pub open spec fn is_b64_byte(x: u8) -> bool {
    (65 <= x <= 90) || (97 <= x <= 122) || (48 <= x <= 57) || x == 45 || x == 95
}

/// The six-bit value of an alphabet byte.
pub open spec fn b64_val(x: u8) -> u8
    recommends
        is_b64_byte(x),
{
    if 65 <= x <= 90 {
        (x - 65) as u8
    } else if 97 <= x <= 122 {
        (x - 71) as u8
    } else if 48 <= x <= 57 {
        (x + 4) as u8
    } else if x == 45 {
        62
    } else {
        63
    }
}

/// Every sequence byte belongs to the alphabet.
pub open spec fn all_b64(s: Seq<u8>) -> bool {
    forall|i: int| 0 <= i < s.len() ==> is_b64_byte(s[i])
}

pub proof fn lemma_b64_byte_inverse(v: u8)
    requires
        v < 64,
    ensures
        is_b64_byte(b64_byte(v)),
        b64_val(b64_byte(v)) == v,
{
}

/// Unpadded base64url encoding: three bytes become four alphabet bytes; a
/// final remainder of one or two bytes becomes two or three, with the unused
/// low bits of the last alphabet byte zero.
pub open spec fn b64_encode(b: Seq<u8>) -> Seq<u8>
    decreases b.len(),
{
    if b.len() == 0 {
        Seq::empty()
    } else if b.len() == 1 {
        seq![b64_byte(b[0] / 4), b64_byte(((b[0] % 4) * 16) as u8)]
    } else if b.len() == 2 {
        seq![
            b64_byte(b[0] / 4),
            b64_byte(((b[0] % 4) * 16 + b[1] / 16) as u8),
            b64_byte(((b[1] % 16) * 4) as u8),
        ]
    } else {
        seq![
            b64_byte(b[0] / 4),
            b64_byte(((b[0] % 4) * 16 + b[1] / 16) as u8),
            b64_byte(((b[1] % 16) * 4 + b[2] / 64) as u8),
            b64_byte((b[2] % 64) as u8),
        ] + b64_encode(b.skip(3))
    }
}

/// Strict inverse of [`b64_encode`]: rejects bytes outside the alphabet,
/// impossible lengths, and non-zero trailing bits, so that every byte string
/// has exactly one accepted encoding.
pub open spec fn b64_decode(s: Seq<u8>) -> Option<Seq<u8>>
    decreases s.len(),
{
    if s.len() == 0 {
        Some(Seq::empty())
    } else if s.len() == 1 {
        None
    } else if s.len() == 2 {
        if is_b64_byte(s[0]) && is_b64_byte(s[1]) && b64_val(s[1]) % 16 == 0 {
            Some(seq![(b64_val(s[0]) * 4 + b64_val(s[1]) / 16) as u8])
        } else {
            None
        }
    } else if s.len() == 3 {
        if is_b64_byte(s[0]) && is_b64_byte(s[1]) && is_b64_byte(s[2]) && b64_val(s[2]) % 4 == 0 {
            Some(
                seq![
                    (b64_val(s[0]) * 4 + b64_val(s[1]) / 16) as u8,
                    ((b64_val(s[1]) % 16) * 16 + b64_val(s[2]) / 4) as u8,
                ],
            )
        } else {
            None
        }
    } else {
        if is_b64_byte(s[0]) && is_b64_byte(s[1]) && is_b64_byte(s[2]) && is_b64_byte(s[3]) {
            match b64_decode(s.skip(4)) {
                Some(rest) => Some(
                    seq![
                        (b64_val(s[0]) * 4 + b64_val(s[1]) / 16) as u8,
                        ((b64_val(s[1]) % 16) * 16 + b64_val(s[2]) / 4) as u8,
                        ((b64_val(s[2]) % 4) * 64 + b64_val(s[3])) as u8,
                    ] + rest,
                ),
                None => None,
            }
        } else {
            None
        }
    }
}

/// The encoding of any byte string stays inside the alphabet.
pub proof fn lemma_b64_encode_in_alphabet(b: Seq<u8>)
    ensures
        all_b64(b64_encode(b)),
    decreases b.len(),
{
    if b.len() == 0 {
    } else if b.len() == 1 {
        lemma_b64_byte_inverse(b[0] / 4);
        lemma_b64_byte_inverse(((b[0] % 4) * 16) as u8);
    } else if b.len() == 2 {
        lemma_b64_byte_inverse(b[0] / 4);
        lemma_b64_byte_inverse(((b[0] % 4) * 16 + b[1] / 16) as u8);
        lemma_b64_byte_inverse(((b[1] % 16) * 4) as u8);
    } else {
        lemma_b64_byte_inverse(b[0] / 4);
        lemma_b64_byte_inverse(((b[0] % 4) * 16 + b[1] / 16) as u8);
        lemma_b64_byte_inverse(((b[1] % 16) * 4 + b[2] / 64) as u8);
        lemma_b64_byte_inverse((b[2] % 64) as u8);
        lemma_b64_encode_in_alphabet(b.skip(3));
    }
}

proof fn lemma_group_split(a: u8, r: u8, m: u8)
    by (nonlinear_arith)
    requires
        m > 0,
        r < m,
    ensures
        (a * m + r) / (m as int) == a,
        (a * m + r) % (m as int) == r,
{
}

/// Decoding after encoding gives the original bytes back.
pub proof fn lemma_b64_round_trip(b: Seq<u8>)
    ensures
        b64_decode(b64_encode(b)) == Some(b),
    decreases b.len(),
{
    let e = b64_encode(b);
    if b.len() == 0 {
        assert(b =~= Seq::<u8>::empty());
    } else if b.len() == 1 {
        let v0 = b[0] / 4;
        let v1 = ((b[0] % 4) * 16) as u8;
        lemma_b64_byte_inverse(v0);
        lemma_b64_byte_inverse(v1);
        lemma_group_split((b[0] % 4) as u8, 0, 16);
        assert(b[0] / 4 * 4 + b[0] % 4 == b[0]) by (nonlinear_arith);
        assert(b64_decode(e) == Some(seq![b[0]]));
        assert(seq![b[0]] =~= b);
    } else if b.len() == 2 {
        let v0 = b[0] / 4;
        let v1 = ((b[0] % 4) * 16 + b[1] / 16) as u8;
        let v2 = ((b[1] % 16) * 4) as u8;
        lemma_b64_byte_inverse(v0);
        lemma_b64_byte_inverse(v1);
        lemma_b64_byte_inverse(v2);
        lemma_group_split((b[0] % 4) as u8, b[1] / 16, 16);
        lemma_group_split((b[1] % 16) as u8, 0, 4);
        assert(b[0] / 4 * 4 + b[0] % 4 == b[0]) by (nonlinear_arith);
        assert(b[1] / 16 * 16 + b[1] % 16 == b[1]) by (nonlinear_arith);
        assert(b64_decode(e) == Some(seq![b[0], b[1]]));
        assert(seq![b[0], b[1]] =~= b);
    } else {
        let v0 = b[0] / 4;
        let v1 = ((b[0] % 4) * 16 + b[1] / 16) as u8;
        let v2 = ((b[1] % 16) * 4 + b[2] / 64) as u8;
        let v3 = (b[2] % 64) as u8;
        lemma_b64_byte_inverse(v0);
        lemma_b64_byte_inverse(v1);
        lemma_b64_byte_inverse(v2);
        lemma_b64_byte_inverse(v3);
        lemma_group_split((b[0] % 4) as u8, b[1] / 16, 16);
        lemma_group_split((b[1] % 16) as u8, b[2] / 64, 4);
        assert(b[0] / 4 * 4 + b[0] % 4 == b[0]) by (nonlinear_arith);
        assert(b[1] / 16 * 16 + b[1] % 16 == b[1]) by (nonlinear_arith);
        assert(b[2] / 64 * 64 + b[2] % 64 == b[2]) by (nonlinear_arith);
        lemma_b64_round_trip(b.skip(3));
        let rest = b64_encode(b.skip(3));
        assert(e.skip(4) =~= rest);
        assert(e.len() == 4 + rest.len());
        assert(rest.len() != 1 && rest.len() != 2 && rest.len() != 3 || b64_decode(rest) is Some);
        let tail = b64_decode(rest)->Some_0;
        assert(b64_decode(e) == Some(seq![b[0], b[1], b[2]] + tail));
        assert(seq![b[0], b[1], b[2]] + b.skip(3) =~= b);
    }
}

/// Encoding distributes over a split at a three-byte boundary.
pub proof fn lemma_b64_encode_append(x: Seq<u8>, y: Seq<u8>)
    requires
        x.len() % 3 == 0,
    ensures
        b64_encode(x + y) == b64_encode(x) + b64_encode(y),
    decreases x.len(),
{
    if x.len() == 0 {
        assert(x + y =~= y);
        assert(b64_encode(x) + b64_encode(y) =~= b64_encode(y));
    } else {
        assert(x.len() >= 3);
        let xy = x + y;
        if xy.len() == 3 {
            assert(y =~= Seq::<u8>::empty());
            assert(xy =~= x);
            assert(b64_encode(x) + b64_encode(y) =~= b64_encode(x));
        } else {
            assert(xy.len() > 3);
            assert(xy.skip(3) =~= x.skip(3) + y);
            lemma_b64_encode_append(x.skip(3), y);
            if x.len() == 3 {
                assert(x.skip(3) =~= Seq::<u8>::empty());
                assert(b64_encode(x) =~= seq![
                    b64_byte(x[0] / 4),
                    b64_byte(((x[0] % 4) * 16 + x[1] / 16) as u8),
                    b64_byte(((x[1] % 16) * 4 + x[2] / 64) as u8),
                    b64_byte((x[2] % 64) as u8),
                ]);
            }
            assert(b64_encode(xy) =~= b64_encode(x) + b64_encode(y));
        }
    }
}

/// Decoding distributes over a split at a four-byte boundary, provided the
/// left part decodes.
pub proof fn lemma_b64_decode_append(x: Seq<u8>, y: Seq<u8>)
    requires
        x.len() % 4 == 0,
        b64_decode(x) is Some,
    ensures
        b64_decode(x + y) == match b64_decode(y) {
            Some(r) => Some(b64_decode(x)->Some_0 + r),
            None => None::<Seq<u8>>,
        },
    decreases x.len(),
{
    if x.len() == 0 {
        assert(x + y =~= y);
        assert(b64_decode(x)->Some_0 =~= Seq::<u8>::empty());
        if b64_decode(y) is Some {
            assert(b64_decode(x)->Some_0 + b64_decode(y)->Some_0 =~= b64_decode(y)->Some_0);
        }
    } else {
        assert(x.len() >= 4);
        let xy = x + y;
        assert(xy.len() >= 4);
        assert(xy.skip(4) =~= x.skip(4) + y);
        assert(x.skip(4).len() % 4 == 0);
        if x.len() == 4 {
            assert(x.skip(4) =~= Seq::<u8>::empty());
        }
        assert(b64_decode(x.skip(4)) is Some);
        lemma_b64_decode_append(x.skip(4), y);
        let head = seq![
            (b64_val(x[0]) * 4 + b64_val(x[1]) / 16) as u8,
            ((b64_val(x[1]) % 16) * 16 + b64_val(x[2]) / 4) as u8,
            ((b64_val(x[2]) % 4) * 64 + b64_val(x[3])) as u8,
        ];
        if y.len() == 0 {
            assert(xy =~= x);
            assert(b64_decode(y) == Some(Seq::<u8>::empty()));
            assert(b64_decode(x)->Some_0 + Seq::<u8>::empty() =~= b64_decode(x)->Some_0);
        } else {
            assert(xy.len() > 4);
            if b64_decode(y) is Some {
                assert(b64_decode(x)->Some_0 == head + b64_decode(x.skip(4))->Some_0);
                assert(head + (b64_decode(x.skip(4))->Some_0 + b64_decode(y)->Some_0) =~= (head
                    + b64_decode(x.skip(4))->Some_0) + b64_decode(y)->Some_0);
            }
        }
    }
}

fn b64_byte_exec(v: u8) -> (r: u8)
    requires
        v < 64,
    ensures
        r == b64_byte(v),
{
    if v < 26 {
        v + 65
    } else if v < 52 {
        v + 71
    } else if v < 62 {
        v - 4
    } else if v == 62 {
        45
    } else {
        95
    }
}

fn b64_val_exec(x: u8) -> (r: Option<u8>)
    ensures
        r is Some <==> is_b64_byte(x),
        r is Some ==> r->0 == b64_val(x),
{
    if 65 <= x && x <= 90 {
        Some(x - 65)
    } else if 97 <= x && x <= 122 {
        Some(x - 71)
    } else if 48 <= x && x <= 57 {
        Some(x + 4)
    } else if x == 45 {
        Some(62)
    } else if x == 95 {
        Some(63)
    } else {
        None
    }
}

/// Encode a byte string with the unpadded URL-safe alphabet.
pub fn b64url_encode(b: &Vec<u8>) -> (out: Vec<u8>)
    ensures
        out@ == b64_encode(b@),
        all_b64(out@),
{
    let mut out: Vec<u8> = Vec::new();
    let mut i: usize = 0;
    while b.len() - i >= 3
        invariant
            i <= b.len(),
            i % 3 == 0,
            out@ == b64_encode(b@.take(i as int)),
        decreases b.len() - i,
    {
        let b0: u8 = b[i];
        let b1: u8 = b[i + 1];
        let b2: u8 = b[i + 2];
        out.push(b64_byte_exec(b0 / 4));
        out.push(b64_byte_exec((b0 % 4) * 16 + b1 / 16));
        out.push(b64_byte_exec((b1 % 16) * 4 + b2 / 64));
        out.push(b64_byte_exec(b2 % 64));
        proof {
            let x = b@.take(i as int);
            let mid = b@.subrange(i as int, i + 3);
            lemma_b64_encode_append(x, mid);
            assert(x + mid =~= b@.take(i + 3));
            assert(mid.skip(3) =~= Seq::<u8>::empty());
            assert(b64_encode(Seq::<u8>::empty()) == Seq::<u8>::empty());
            assert(b64_encode(mid) =~= seq![
                b64_byte(mid[0] / 4),
                b64_byte(((mid[0] % 4) * 16 + mid[1] / 16) as u8),
                b64_byte(((mid[1] % 16) * 4 + mid[2] / 64) as u8),
                b64_byte((mid[2] % 64) as u8),
            ]);
            assert(out@ =~= b64_encode(b@.take(i + 3)));
        }
        i = i + 3;
    }
    if b.len() - i == 1 {
        let b0: u8 = b[i];
        out.push(b64_byte_exec(b0 / 4));
        out.push(b64_byte_exec((b0 % 4) * 16));
        proof {
            let x = b@.take(i as int);
            let mid = b@.subrange(i as int, i + 1);
            lemma_b64_encode_append(x, mid);
            assert(x + mid =~= b@);
            assert(out@ =~= b64_encode(b@));
        }
    } else if b.len() - i == 2 {
        let b0: u8 = b[i];
        let b1: u8 = b[i + 1];
        out.push(b64_byte_exec(b0 / 4));
        out.push(b64_byte_exec((b0 % 4) * 16 + b1 / 16));
        out.push(b64_byte_exec((b1 % 16) * 4));
        proof {
            let x = b@.take(i as int);
            let mid = b@.subrange(i as int, i + 2);
            lemma_b64_encode_append(x, mid);
            assert(x + mid =~= b@);
            assert(out@ =~= b64_encode(b@));
        }
    } else {
        proof {
            assert(b@.take(i as int) =~= b@);
        }
    }
    proof {
        lemma_b64_encode_in_alphabet(b@);
    }
    out
}

/// Decode an unpadded URL-safe base64 byte string; `None` when the input is
/// not exactly the encoding of some byte string.
pub fn b64url_decode(s: &Vec<u8>) -> (out: Option<Vec<u8>>)
    ensures
        match out {
            Some(v) => b64_decode(s@) == Some(v@),
            None => b64_decode(s@) is None,
        },
{
    let mut out: Vec<u8> = Vec::new();
    let mut i: usize = 0;
    let n: usize = s.len();
    while n - i >= 4
        invariant
            n == s.len(),
            i <= n,
            i % 4 == 0,
            b64_decode(s@.take(i as int)) == Some(out@),
        decreases n - i,
    {
        let q = read_quad(s, i);
        match q {
            Some((x, y, z)) => {
                out.push(x);
                out.push(y);
                out.push(z);
                proof {
                    let pre = s@.take(i as int);
                    let mid = s@.subrange(i as int, i + 4);
                    lemma_b64_decode_append(pre, mid);
                    assert(pre + mid =~= s@.take(i + 4));
                    assert(mid.skip(4) =~= Seq::<u8>::empty());
                    assert(b64_decode(Seq::<u8>::empty()) == Some(Seq::<u8>::empty()));
                    assert(b64_decode(mid) is Some);
                    assert(out@ =~= b64_decode(s@.take(i + 4))->Some_0);
                }
                i = i + 4;
            },
            None => {
                proof {
                    let mid = s@.subrange(i as int, i + 4);
                    let tail = s@.skip(i as int);
                    assert(tail.len() >= 4);
                    assert(forall|k: int| 0 <= k < 4 ==> tail[k] == mid[k]);
                    assert(b64_decode(tail) is None);
                    decode_fails(s@, i as int, out@);
                }
                return None;
            },
        }
    }
    let rem: usize = n - i;
    if rem == 0 {
        proof {
            assert(s@.take(i as int) =~= s@);
        }
        Some(out)
    } else if rem == 1 {
        proof {
            decode_fails(s@, i as int, out@);
        }
        None
    } else {
        match read_tail(s, i, rem) {
            Some((x, y)) => {
                out.push(x);
                if rem == 3 {
                    out.push(y);
                }
                proof {
                    let pre = s@.take(i as int);
                    let tail = s@.skip(i as int);
                    lemma_b64_decode_append(pre, tail);
                    assert(pre + tail =~= s@);
                    assert(out@ =~= b64_decode(s@)->Some_0);
                }
                Some(out)
            },
            None => {
                proof {
                    decode_fails(s@, i as int, out@);
                }
                None
            },
        }
    }
}

/// Read one four-byte group starting at `i` and decode it to three bytes.
fn read_quad(s: &Vec<u8>, i: usize) -> (r: Option<(u8, u8, u8)>)
    requires
        i + 4 <= s@.len(),
    ensures
        ({
            let mid = s@.subrange(i as int, i as int + 4);
            match r {
                Some((x, y, z)) => b64_decode(mid) == Some(seq![x, y, z]) && is_b64_byte(mid[0])
                    && is_b64_byte(mid[1]) && is_b64_byte(mid[2]) && is_b64_byte(mid[3]),
                None => b64_decode(mid) is None && !(is_b64_byte(mid[0]) && is_b64_byte(mid[1])
                    && is_b64_byte(mid[2]) && is_b64_byte(mid[3])),
            }
        }),
{
    let n: usize = s.len();
    proof {
        assert(i + 4 <= n);
    }
    let v0 = b64_val_exec(s[i]);
    let v1 = b64_val_exec(s[i + 1]);
    let v2 = b64_val_exec(s[i + 2]);
    let v3 = b64_val_exec(s[i + 3]);
    proof {
        let mid = s@.subrange(i as int, i as int + 4);
        assert(mid[0] == s@[i as int]);
        assert(mid[1] == s@[i as int + 1]);
        assert(mid[2] == s@[i as int + 2]);
        assert(mid[3] == s@[i as int + 3]);
        assert(mid.skip(4) =~= Seq::<u8>::empty());
        assert(b64_decode(Seq::<u8>::empty()) == Some(Seq::<u8>::empty()));
    }
    match (v0, v1, v2, v3) {
        (Some(a), Some(b), Some(c), Some(d)) => {
            let x: u8 = a * 4 + b / 16;
            let y: u8 = (b % 16) * 16 + c / 4;
            let z: u8 = (c % 4) * 64 + d;
            proof {
                let mid = s@.subrange(i as int, i as int + 4);
                assert(seq![x, y, z] + Seq::<u8>::empty() =~= seq![x, y, z]);
                assert(b64_decode(mid) == Some(seq![x, y, z]));
            }
            Some((x, y, z))
        },
        _ => None,
    }
}

/// Read a final group of two or three bytes and decode it.
fn read_tail(s: &Vec<u8>, i: usize, rem: usize) -> (r: Option<(u8, u8)>)
    requires
        rem == 2 || rem == 3,
        i + rem == s@.len(),
    ensures
        ({
            let tail = s@.skip(i as int);
            match r {
                Some((x, y)) => (rem == 2 && b64_decode(tail) == Some(seq![x])) || (rem == 3
                    && b64_decode(tail) == Some(seq![x, y])),
                None => b64_decode(tail) is None,
            }
        }),
{
    let n: usize = s.len();
    proof {
        let tail = s@.skip(i as int);
        assert(tail.len() == rem);
        assert(forall|k: int| 0 <= k < rem ==> tail[k] == s@[i + k]);
    }
    if rem == 2 {
        match (b64_val_exec(s[i]), b64_val_exec(s[i + 1])) {
            (Some(a), Some(b)) => {
                if b % 16 == 0 {
                    Some((a * 4 + b / 16, 0))
                } else {
                    None
                }
            },
            _ => None,
        }
    } else {
        match (b64_val_exec(s[i]), b64_val_exec(s[i + 1]), b64_val_exec(s[i + 2])) {
            (Some(a), Some(b), Some(c)) => {
                if c % 4 == 0 {
                    Some((a * 4 + b / 16, (b % 16) * 16 + c / 4))
                } else {
                    None
                }
            },
            _ => None,
        }
    }
}

/// When the aligned prefix decodes but the remainder does not, the whole
/// input does not decode.
proof fn decode_fails(s: Seq<u8>, i: int, acc: Seq<u8>)
    requires
        0 <= i <= s.len(),
        i % 4 == 0,
        b64_decode(s.take(i)) == Some(acc),
        b64_decode(s.skip(i)) is None,
    ensures
        b64_decode(s) is None,
{
    lemma_b64_decode_append(s.take(i), s.skip(i));
    assert(s.take(i) + s.skip(i) =~= s);
}

} // verus!
