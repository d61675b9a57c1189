//! Byte/text encodings: base64 (through the `base64` crate) and hex
//! (implemented and verified here).
use base64::Engine;
use vstd::prelude::*;

verus! {

/// The standard, padded base64 encoding of a byte string, named as a
/// function; `b64_encode` and `b64_decode` relate it to the outside
/// implementation.
pub uninterp spec fn b64_of(b: Seq<u8>) -> Seq<u8>;

/// Relies on base64's `STANDARD` engine (`encode`): the canonical
/// padded encoding of the input, four output bytes for every three
/// input bytes, all from the standard alphabet (letters, digits,
/// `+`, `/` and `=`), which is printable and free of quotes and
/// backslashes.
#[verifier::external_body]
pub fn b64_encode(b: &Vec<u8>) -> (r: Vec<u8>)
    ensures
        r@ == b64_of(b@),
        r@.len() == 4 * ((b@.len() + 2) / 3),
        crate::json::str_content_ok(r@),
{
    base64::engine::general_purpose::STANDARD.encode(b).into_bytes()
}

/// Relies on base64's `STANDARD` engine (`decode`): it requires
/// canonical padding and rejects non-zero trailing bits, so it
/// succeeds exactly on canonical encodings and inverts `encode`.
#[verifier::external_body]
pub fn b64_decode(s: &Vec<u8>) -> (r: Option<Vec<u8>>)
    ensures
        match r {
            Some(v) => s@ == b64_of(v@) && forall|b: Seq<u8>| s@ == #[trigger] b64_of(b) ==> b
                == v@,
            None => forall|b: Seq<u8>| s@ != #[trigger] b64_of(b),
        },
{
    match base64::engine::general_purpose::STANDARD.decode(s) {
        Ok(v) => Some(v),
        Err(_) => None,
    }
}

pub open spec fn hex_digit(n: u8) -> u8 {
    if n < 10 {
        (0x30 + n) as u8
    } else {
        (0x61 + (n - 10)) as u8
    }
}

/// Lowercase hex encoding: two digits per byte, high nibble first.
pub open spec fn hex_of(b: Seq<u8>) -> Seq<u8>
    decreases b.len(),
{
    if b.len() == 0 {
        Seq::empty()
    } else {
        hex_of(b.take(b.len() - 1)) + seq![
            hex_digit(b[b.len() - 1] / 16),
            hex_digit(b[b.len() - 1] % 16),
        ]
    }
}

/// Lowercase hex encoding of a byte string.
pub fn hex_encode(b: &Vec<u8>) -> (r: Vec<u8>)
    ensures
        r@ == hex_of(b@),
        r@.len() == 2 * b@.len(),
{
    let mut out: Vec<u8> = Vec::new();
    let mut i: usize = 0;
    proof {
        assert(b@.take(0) =~= Seq::<u8>::empty());
    }
    while i < b.len()
        invariant
            i <= b@.len(),
            out@ == hex_of(b@.take(i as int)),
            out@.len() == 2 * i,
        decreases b@.len() - i,
    {
        let x = b[i];
        let hi = x / 16;
        let lo = x % 16;
        let hd = if hi < 10 {
            0x30 + hi
        } else {
            0x61 + (hi - 10)
        };
        let ld = if lo < 10 {
            0x30 + lo
        } else {
            0x61 + (lo - 10)
        };
        out.push(hd);
        out.push(ld);
        proof {
            let t = b@.take(i + 1);
            assert(t.take(t.len() - 1) =~= b@.take(i as int));
            assert(t[t.len() - 1] == b@[i as int]);
            assert(out@ =~= hex_of(b@.take(i as int)) + seq![
                hex_digit(b@[i as int] / 16),
                hex_digit(b@[i as int] % 16),
            ]);
        }
        i = i + 1;
    }
    proof {
        assert(b@.take(b@.len() as int) =~= b@);
    }
    out
}

/// Hex digits are plain printable ASCII.
pub proof fn lemma_hex_of_plain(b: Seq<u8>)
    ensures
        forall|i: int|
            0 <= i < hex_of(b).len() ==> {
                let c = #[trigger] hex_of(b)[i];
                (0x30 <= c <= 0x39) || (0x61 <= c <= 0x66)
            },
    decreases b.len(),
{
    if b.len() > 0 {
        let pre = b.take(b.len() - 1);
        lemma_hex_of_plain(pre);
        let d1 = hex_digit(b[b.len() - 1] / 16);
        let d2 = hex_digit(b[b.len() - 1] % 16);
        assert(hex_of(b) == hex_of(pre) + seq![d1, d2]);
        assert((0x30 <= d1 <= 0x39) || (0x61 <= d1 <= 0x66));
        assert((0x30 <= d2 <= 0x39) || (0x61 <= d2 <= 0x66));
        assert forall|i: int| 0 <= i < hex_of(b).len() implies {
            let c = #[trigger] hex_of(b)[i];
            (0x30 <= c <= 0x39) || (0x61 <= c <= 0x66)
        } by {
            if i < hex_of(pre).len() {
                assert(hex_of(b)[i] == hex_of(pre)[i]);
            } else {
                assert(hex_of(b)[i] == seq![d1, d2][i - hex_of(pre).len()]);
            }
        }
    }
}


/// The decimal digits of `n`, most significant first.
pub open spec fn dec_of(n: nat) -> Seq<u8>
    decreases n,
{
    if n < 10 {
        seq![(0x30 + n) as u8]
    } else {
        dec_of(n / 10) + seq![(0x30 + (n % 10)) as u8]
    }
}

/// Decimal digits of `n`, as bytes.
pub fn u64_to_dec(n: u64) -> (r: Vec<u8>)
    ensures
        r@ == dec_of(n as nat),
    decreases n,
{
    if n < 10 {
        let v: Vec<u8> = vec![0x30 + (n as u8)];
        proof {
            assert(v@ =~= dec_of(n as nat));
        }
        v
    } else {
        let mut v = u64_to_dec(n / 10);
        v.push(0x30 + ((n % 10) as u8));
        proof {
            assert(v@ =~= dec_of((n / 10) as nat) + seq![(0x30 + (n as nat % 10)) as u8]);
        }
        v
    }
}

/// Decimal digits are digit bytes.
pub proof fn lemma_dec_of_digits(n: nat)
    ensures
        dec_of(n).len() >= 1,
        forall|i: int| 0 <= i < dec_of(n).len() ==> 0x30 <= #[trigger] dec_of(n)[i] <= 0x39,
    decreases n,
{
    if n >= 10 {
        lemma_dec_of_digits(n / 10);
        assert forall|i: int| 0 <= i < dec_of(n).len() implies 0x30 <= #[trigger] dec_of(n)[i]
            <= 0x39 by {
            if i < dec_of(n / 10).len() {
                assert(dec_of(n)[i] == dec_of(n / 10)[i]);
            } else {
                assert(dec_of(n)[i] == (0x30 + (n % 10)) as u8);
            }
        }
    }
}

pub open spec fn all_digits(t: Seq<u8>) -> bool {
    forall|i: int| 0 <= i < t.len() ==> 0x30 <= #[trigger] t[i] <= 0x39
}

/// The value of a string of decimal digits.
pub open spec fn dec_val(t: Seq<u8>) -> int
    decreases t.len(),
{
    if t.len() == 0 {
        0
    } else {
        dec_val(t.take(t.len() - 1)) * 10 + (t[t.len() - 1] - 0x30)
    }
}

/// For digit strings the value grows along the prefixes.
pub proof fn lemma_dec_val_prefix(t: Seq<u8>, j: int)
    requires
        all_digits(t),
        0 <= j <= t.len(),
    ensures
        dec_val(t.take(j)) <= dec_val(t),
        dec_val(t) >= 0,
    decreases t.len(),
{
    if t.len() == 0 {
        assert(t.take(j) =~= t);
    } else {
        let pre = t.take(t.len() - 1);
        assert forall|i: int| 0 <= i < pre.len() implies 0x30 <= #[trigger] pre[i] <= 0x39 by {
            assert(pre[i] == t[i]);
        }
        lemma_dec_val_prefix(pre, if j <= pre.len() {
            j
        } else {
            pre.len() as int
        });
        if j <= pre.len() {
            assert(pre.take(j) =~= t.take(j));
            assert(dec_val(t) == dec_val(pre) * 10 + (t[t.len() - 1] - 0x30));
            assert(dec_val(pre) >= 0);
            assert(dec_val(t) >= dec_val(pre));
        } else {
            assert(t.take(j) =~= t);
        }
    }
}

/// Parses an unsigned decimal number: succeeds exactly on nonempty
/// digit strings whose value fits in a `u64`, and returns that value.
#[verifier::loop_isolation(false)]
pub fn parse_u64_dec(t: &Vec<u8>) -> (r: Option<u64>)
    ensures
        match r {
            Some(n) => t@.len() > 0 && all_digits(t@) && dec_val(t@) == n,
            None => t@.len() == 0 || !all_digits(t@) || dec_val(t@) > u64::MAX,
        },
{
    if t.len() == 0 {
        return None;
    }
    let mut i: usize = 0;
    while i < t.len()
        invariant
            i <= t@.len(),
            forall|x: int| 0 <= x < i ==> 0x30 <= #[trigger] t@[x] <= 0x39,
        decreases t@.len() - i,
    {
        let b = t[i];
        if b < 0x30 || b > 0x39 {
            return None;
        }
        i = i + 1;
    }
    let mut acc: u64 = 0;
    let mut j: usize = 0;
    proof {
        assert(t@.take(0) =~= Seq::<u8>::empty());
    }
    while j < t.len()
        invariant
            j <= t@.len(),
            all_digits(t@),
            acc == dec_val(t@.take(j as int)),
        decreases t@.len() - j,
    {
        let d = (t[j] - 0x30) as u64;
        if acc > (u64::MAX - d) / 10 {
            proof {
                let nxt = t@.take(j + 1);
                assert(nxt.take(nxt.len() - 1) =~= t@.take(j as int));
                assert(nxt[nxt.len() - 1] == t@[j as int]);
                assert(dec_val(nxt) == acc * 10 + d);
                assert(dec_val(nxt) > u64::MAX);
                lemma_dec_val_prefix(t@, j + 1);
                assert(dec_val(t@.take(j + 1)) <= dec_val(t@));
            }
            return None;
        }
        proof {
            let nxt = t@.take(j + 1);
            assert(nxt.take(nxt.len() - 1) =~= t@.take(j as int));
            assert(nxt[nxt.len() - 1] == t@[j as int]);
        }
        acc = acc * 10 + d;
        j = j + 1;
    }
    proof {
        assert(t@.take(t@.len() as int) =~= t@);
    }
    Some(acc)
}


/// Decimal encoding and decoding invert: the digits of `n` are all
/// digits and evaluate back to `n`.
pub proof fn lemma_dec_of_val(n: nat)
    ensures
        all_digits(dec_of(n)),
        dec_of(n).len() >= 1,
        dec_val(dec_of(n)) == n,
    decreases n,
{
    if n < 10 {
        let t = dec_of(n);
        assert(t =~= seq![(0x30 + n) as u8]);
        assert(t.take(0) =~= Seq::<u8>::empty());
        assert(dec_val(t) == dec_val(t.take(0)) * 10 + (t[0] - 0x30));
    } else {
        lemma_dec_of_val(n / 10);
        let pre = dec_of(n / 10);
        let t = dec_of(n);
        assert(t == pre + seq![(0x30 + (n % 10)) as u8]);
        assert forall|i: int| 0 <= i < t.len() implies 0x30 <= #[trigger] t[i] <= 0x39 by {
            if i < pre.len() {
                assert(t[i] == pre[i]);
            } else {
                assert(t[i] == (0x30 + (n % 10)) as u8);
            }
        }
        assert(t.take(t.len() - 1) =~= pre);
        assert(t[t.len() - 1] == (0x30 + (n % 10)) as u8);
        assert(dec_val(t) == dec_val(pre) * 10 + (n % 10));
    }
}

} // verus!
