//! JSON text: serialization of a document tree to bytes, and parsing
//! of bytes back into a tree.
//!
//! The serializer is canonical: a given tree has exactly one
//! serialization (no optional whitespace).  The parser accepts
//! whitespace between tokens; record framing elsewhere in the crate
//! re-serializes what it parsed and compares bytes, so every accepted
//! record line is in canonical form.
use vstd::prelude::*;

use crate::json::{
    Jv, JsonValue, lemma_wf_elems_build, lemma_wf_elems_index, lemma_wf_members_build,
    lemma_wf_members_index, num_byte_ok, num_token_ok, str_content_ok, wf_elems, wf_json,
    wf_members,
};

verus! {

pub const QUOTE: u8 = 0x22;
pub const COMMA: u8 = 0x2c;
pub const COLON: u8 = 0x3a;
pub const LBRACKET: u8 = 0x5b;
pub const RBRACKET: u8 = 0x5d;
pub const LBRACE: u8 = 0x7b;
pub const RBRACE: u8 = 0x7d;
pub const BACKSLASH: u8 = 0x5c;
pub const MINUS: u8 = 0x2d;

/// The canonical serialization of a JSON tree.
pub open spec fn ser_value(v: Jv) -> Seq<u8>
    decreases v, 0int, 0int,
{
    match v {
        Jv::Null => seq![0x6eu8, 0x75u8, 0x6cu8, 0x6cu8],
        Jv::Bool(b) => if b {
            seq![0x74u8, 0x72u8, 0x75u8, 0x65u8]
        } else {
            seq![0x66u8, 0x61u8, 0x6cu8, 0x73u8, 0x65u8]
        },
        Jv::Num(t) => t,
        Jv::Str(s) => seq![QUOTE] + s + seq![QUOTE],
        Jv::Arr(a) => seq![LBRACKET] + ser_elems_to(a, a.len() as int) + seq![RBRACKET],
        Jv::Obj(m) => seq![LBRACE] + ser_members_to(m, m.len() as int) + seq![RBRACE],
    }
}

/// Serialization of the first `n` elements of an array body,
/// comma-separated.
pub open spec fn ser_elems_to(a: Seq<Jv>, n: int) -> Seq<u8>
    decreases a, 1int, n,
{
    if n <= 0 || n > a.len() {
        Seq::empty()
    } else if n == 1 {
        ser_value(a[0])
    } else {
        ser_elems_to(a, n - 1) + seq![COMMA] + ser_value(a[n - 1])
    }
}

/// Serialization of the first `n` members of an object body,
/// comma-separated `"key":value` pairs.
pub open spec fn ser_members_to(m: Seq<(Seq<u8>, Jv)>, n: int) -> Seq<u8>
    decreases m, 1int, n,
{
    if n <= 0 || n > m.len() {
        Seq::empty()
    } else if n == 1 {
        ser_member(m[0])
    } else {
        ser_members_to(m, n - 1) + seq![COMMA] + ser_member(m[n - 1])
    }
}

pub open spec fn ser_member(p: (Seq<u8>, Jv)) -> Seq<u8>
    decreases p, 2int, 0int,
{
    seq![QUOTE] + p.0 + seq![QUOTE] + seq![COLON] + ser_value(p.1)
}

/// Appends the bytes of `src` to `out`.
pub fn push_bytes(out: &mut Vec<u8>, src: &Vec<u8>)
    ensures
        final(out)@ == old(out)@ + src@,
{
    let mut i: usize = 0;
    while i < src.len()
        invariant
            i <= src@.len(),
            out@ == old(out)@ + src@.take(i as int),
        decreases src@.len() - i,
    {
        out.push(src[i]);
        proof {
            assert(src@.take(i + 1) =~= src@.take(i as int).push(src@[i as int]));
            assert(old(out)@ + src@.take(i + 1) =~= (old(out)@ + src@.take(i as int)).push(
                src@[i as int],
            ));
        }
        i = i + 1;
    }
    proof {
        assert(src@.take(src@.len() as int) =~= src@);
    }
}

/// Appends the canonical serialization of `v` to `out`.
#[verifier::loop_isolation(false)]
pub fn write_value(v: &JsonValue, out: &mut Vec<u8>)
    ensures
        final(out)@ == old(out)@ + ser_value(v@),
    decreases v,
{
    match v {
        JsonValue::Null => {
            out.push(0x6e);
            out.push(0x75);
            out.push(0x6c);
            out.push(0x6c);
            proof {
                assert(out@ =~= old(out)@ + ser_value(v@));
            }
        },
        JsonValue::Bool(b) => {
            if *b {
                out.push(0x74);
                out.push(0x72);
                out.push(0x75);
                out.push(0x65);
            } else {
                out.push(0x66);
                out.push(0x61);
                out.push(0x6c);
                out.push(0x73);
                out.push(0x65);
            }
            proof {
                assert(out@ =~= old(out)@ + ser_value(v@));
            }
        },
        JsonValue::Num(t) => {
            push_bytes(out, t);
            proof {
                assert(out@ =~= old(out)@ + ser_value(v@));
            }
        },
        JsonValue::Str(s) => {
            out.push(QUOTE);
            push_bytes(out, s);
            out.push(QUOTE);
            proof {
                assert(out@ =~= old(out)@ + ser_value(v@));
            }
        },
        JsonValue::Arr(a) => {
            out.push(LBRACKET);
            let ghost base = out@;
            let ghost av = v@->Arr_0;
            proof {
                assert(av =~= Seq::new(a.len() as nat, |i: int|
                    if 0 <= i < a.len() {
                        a[i].deep_view()
                    } else {
                        Jv::Null
                    }));
            }
            let mut i: usize = 0;
            while i < a.len()
                invariant
                    i <= a@.len(),
                    av.len() == a@.len(),
                    forall|j: int| 0 <= j < a@.len() ==> av[j] == #[trigger] a@[j].deep_view(),
                    out@ == base + ser_elems_to(av, i as int),
                decreases a@.len() - i,
            {
                if i > 0 {
                    out.push(COMMA);
                }
                let ghost mid = out@;
                proof {
                    assert(decreases_to!(*a => (*a)[i as int]));
                }
                write_value(&a[i], out);
                proof {
                    assert(out@ == mid + ser_value(av[i as int]));
                    if i == 0 {
                        assert(ser_elems_to(av, 1) == ser_value(av[0]));
                        assert(out@ =~= base + ser_elems_to(av, 1));
                    } else {
                        assert(ser_elems_to(av, i + 1) == ser_elems_to(av, i as int)
                            + seq![COMMA] + ser_value(av[i as int]));
                        assert(out@ =~= base + ser_elems_to(av, i + 1));
                    }
                }
                i = i + 1;
            }
            out.push(RBRACKET);
            proof {
                assert(out@ =~= old(out)@ + ser_value(v@));
            }
        },
        JsonValue::Obj(m) => {
            out.push(LBRACE);
            let ghost base = out@;
            let ghost mv = v@->Obj_0;
            proof {
                assert(mv =~= Seq::new(m.len() as nat, |i: int|
                    if 0 <= i < m.len() {
                        (m[i].0@, m[i].1.deep_view())
                    } else {
                        (Seq::<u8>::empty(), Jv::Null)
                    }));
            }
            let mut i: usize = 0;
            while i < m.len()
                invariant
                    i <= m@.len(),
                    mv.len() == m@.len(),
                    forall|j: int| 0 <= j < m@.len() ==> mv[j] == (#[trigger] m@[j].0@, m@[j].1.deep_view()),
                    out@ == base + ser_members_to(mv, i as int),
                decreases m@.len() - i,
            {
                if i > 0 {
                    out.push(COMMA);
                }
                let ghost mid = out@;
                out.push(QUOTE);
                push_bytes(out, &m[i].0);
                out.push(QUOTE);
                out.push(COLON);
                let ghost mid2 = out@;
                proof {
                    assert(mid2 =~= mid + seq![QUOTE] + mv[i as int].0 + seq![QUOTE] + seq![COLON]);
                }
                proof {
                    assert(decreases_to!(*m => (*m)[i as int]));
                }
                write_value(&m[i].1, out);
                proof {
                    assert(out@ == mid2 + ser_value(mv[i as int].1));
                    assert(out@ =~= mid + ser_member(mv[i as int]));
                    if i == 0 {
                        assert(ser_members_to(mv, 1) == ser_member(mv[0]));
                        assert(out@ =~= base + ser_members_to(mv, 1));
                    } else {
                        assert(ser_members_to(mv, i + 1) == ser_members_to(mv, i as int)
                            + seq![COMMA] + ser_member(mv[i as int]));
                        assert(out@ =~= base + ser_members_to(mv, i + 1));
                    }
                }
                i = i + 1;
            }
            out.push(RBRACE);
            proof {
                assert(out@ =~= old(out)@ + ser_value(v@));
            }
        },
    }
}

/// The canonical serialization of `v`, as a fresh vector.
pub fn to_json_bytes(v: &JsonValue) -> (r: Vec<u8>)
    ensures
        r@ == ser_value(v@),
{
    let mut out: Vec<u8> = Vec::new();
    write_value(v, &mut out);
    proof {
        assert(out@ =~= ser_value(v@));
    }
    out
}

pub open spec fn is_ws(b: u8) -> bool {
    b == 0x20 || b == 0x09 || b == 0x0a || b == 0x0d
}

/// First position at or after `i` holding a non-whitespace byte; in
/// particular it stays put on a non-whitespace byte.
fn skip_ws(s: &Vec<u8>, i: usize) -> (r: usize)
    requires
        i <= s@.len(),
    ensures
        i <= r <= s@.len(),
        r < s@.len() ==> !is_ws(s@[r as int]),
        forall|k: int| i <= k < r ==> is_ws(#[trigger] s@[k]),
{
    let mut j = i;
    while j < s.len()
        invariant
            i <= j <= s@.len(),
            forall|k: int| i <= k < j ==> is_ws(#[trigger] s@[k]),
        decreases s@.len() - j,
    {
        let b = s[j];
        if !(b == 0x20 || b == 0x09 || b == 0x0a || b == 0x0d) {
            return j;
        }
        j = j + 1;
    }
    j
}

/// Scans string contents starting just after an opening quote;
/// returns the contents and the position just after the closing
/// quote.  It finds exactly the well-formed content that sits at `i`,
/// when one does.
#[verifier::loop_isolation(false)]
fn scan_string(s: &Vec<u8>, i: usize) -> (r: Option<(Vec<u8>, usize)>)
    requires
        i <= s@.len(),
    ensures
        r matches Some((c, j)) ==> i < j <= s@.len() && str_content_ok(c@),
        forall|c: Seq<u8>| #[trigger] str_at(s@, i as int, c) ==> (match r {
            Some(p) => p.0@ == c && p.1 == i + c.len() + 1,
            None => false,
        }),
{
    let mut out: Vec<u8> = Vec::new();
    let mut j = i;
    proof {
        assert forall|c: Seq<u8>| #[trigger] str_at(s@, i as int, c) implies 0 <= c.len() && out@
            == c.take(0) && str_content_ok(c.skip(0)) by {
            assert(c.take(0) =~= Seq::<u8>::empty());
            assert(c.skip(0) =~= c);
        }
    }
    loop
        invariant
            i <= j <= s@.len(),
            str_content_ok(out@),
            out@.len() == j - i,
            forall|c: Seq<u8>| #[trigger] str_at(s@, i as int, c) ==> j - i <= c.len() && out@
                == c.take(j - i) && str_content_ok(c.skip(j - i)),
        decreases s@.len() - j,
    {
        if j >= s.len() {
            proof {
                assert forall|c: Seq<u8>| !#[trigger] str_at(s@, i as int, c) by {
                    if str_at(s@, i as int, c) {
                        assert(j <= i + c.len() < s@.len());
                    }
                }
            }
            return None;
        }
        let b = s[j];
        proof {
            assert forall|c: Seq<u8>|
                #[trigger] str_at(s@, i as int, c) && j - i < c.len() implies c[j - i]
                == b && str_content_ok(c.skip(j - i)) by {
                assert(c[j - i] == s@.subrange(i as int, i + c.len() as int)[j - i]);
            }
            assert forall|c: Seq<u8>|
                #[trigger] str_at(s@, i as int, c) && j - i == c.len() implies b == QUOTE by {
                assert(s@[i + c.len()] == QUOTE);
            }
        }
        if b == QUOTE {
            proof {
                assert forall|c: Seq<u8>| #[trigger] str_at(s@, i as int, c) implies out@ == c && j
                    + 1 == i + c.len() + 1 by {
                    if j - i < c.len() {
                        // a well-formed content cannot hold an unescaped quote
                        let rest = c.skip(j - i);
                        assert(rest[0] == c[j - i]);
                        assert(rest[0] == QUOTE);
                        assert(!str_content_ok(rest));
                    }
                    assert(c.take(c.len() as int) =~= c);
                }
            }
            return Some((out, j + 1));
        }
        proof {
            // the byte is not the closing quote, so every matching
            // content continues here
            assert forall|c: Seq<u8>| #[trigger] str_at(s@, i as int, c) implies j - i
                < c.len() by {
                if j - i == c.len() {
                    assert(b == QUOTE);
                }
            }
        }
        if b < 0x20 {
            proof {
                assert forall|c: Seq<u8>| !#[trigger] str_at(s@, i as int, c) by {
                    if str_at(s@, i as int, c) {
                        let rest = c.skip(j - i);
                        assert(rest[0] == b);
                        assert(str_content_ok(rest));
                    }
                }
            }
            return None;
        }
        if b == BACKSLASH {
            proof {
                assert forall|c: Seq<u8>|
                    #[trigger] str_at(s@, i as int, c) implies j + 2 - i <= c.len() && c[j + 1 - i]
                    >= 0x20 && c[j + 1 - i] == s@[j + 1] by {
                    let rest = c.skip(j - i);
                    assert(rest[0] == BACKSLASH);
                    assert(rest.len() >= 2 && rest[1] >= 0x20);
                    assert(rest[1] == c[j + 1 - i]);
                    assert(c[j + 1 - i] == s@.subrange(i as int, i + c.len() as int)[j + 1 - i]);
                }
            }
            if j + 1 >= s.len() {
                proof {
                    assert forall|c: Seq<u8>| !#[trigger] str_at(s@, i as int, c) by {
                        if str_at(s@, i as int, c) {
                            assert(j + 1 <= i + c.len() < s@.len());
                        }
                    }
                }
                return None;
            }
            let e = s[j + 1];
            if e < 0x20 {
                proof {
                    assert forall|c: Seq<u8>| !#[trigger] str_at(s@, i as int, c) by {
                        if str_at(s@, i as int, c) {
                            assert(c[j + 1 - i] == e);
                        }
                    }
                }
                return None;
            }
            let ghost pre = out@;
            out.push(b);
            out.push(e);
            proof {
                lemma_str_content_extend_escape(pre, e);
                assert(out@ =~= pre + seq![BACKSLASH, e]);
                assert forall|c: Seq<u8>| #[trigger] str_at(s@, i as int, c) implies j + 2 - i
                    <= c.len() && out@ == c.take(j + 2 - i) && str_content_ok(
                    c.skip(j + 2 - i),
                ) by {
                    let rest = c.skip(j - i);
                    assert(rest[0] == BACKSLASH);
                    assert(str_content_ok(rest.skip(2)));
                    assert(rest.skip(2) =~= c.skip(j + 2 - i));
                    assert(c.take(j + 2 - i) =~= c.take(j - i) + seq![c[j - i], c[j + 1 - i]]);
                }
            }
            j = j + 2;
        } else {
            let ghost pre = out@;
            out.push(b);
            proof {
                lemma_str_content_extend_plain(pre, b);
                assert(out@ =~= pre.push(b));
                assert forall|c: Seq<u8>| #[trigger] str_at(s@, i as int, c) implies j + 1 - i
                    <= c.len() && out@ == c.take(j + 1 - i) && str_content_ok(
                    c.skip(j + 1 - i),
                ) by {
                    let rest = c.skip(j - i);
                    assert(rest[0] == b);
                    assert(str_content_ok(rest.skip(1)));
                    assert(rest.skip(1) =~= c.skip(j + 1 - i));
                    assert(c.take(j + 1 - i) =~= c.take(j - i).push(c[j - i]));
                }
            }
            j = j + 1;
        }
    }
}

/// Appending an ordinary printable byte keeps string contents
/// well-formed.
proof fn lemma_str_content_extend_plain(s: Seq<u8>, b: u8)
    requires
        str_content_ok(s),
        b != QUOTE,
        b != BACKSLASH,
        b >= 0x20,
    ensures
        str_content_ok(s.push(b)),
    decreases s.len(),
{
    let t = s.push(b);
    if s.len() == 0 {
        assert(t[0] == b);
        assert(t.skip(1) =~= Seq::<u8>::empty());
        assert(str_content_ok(Seq::<u8>::empty()));
        assert(str_content_ok(t));
    } else if s[0] == BACKSLASH {
        assert(t[0] == s[0] && t[1] == s[1]);
        assert(t.skip(2) =~= s.skip(2).push(b));
        lemma_str_content_extend_plain(s.skip(2), b);
        assert(str_content_ok(t));
    } else {
        assert(t[0] == s[0]);
        assert(t.skip(1) =~= s.skip(1).push(b));
        lemma_str_content_extend_plain(s.skip(1), b);
        assert(str_content_ok(t));
    }
}

/// Appending a backslash escape pair keeps string contents
/// well-formed.
proof fn lemma_str_content_extend_escape(s: Seq<u8>, e: u8)
    requires
        str_content_ok(s),
        e >= 0x20,
    ensures
        str_content_ok(s + seq![BACKSLASH, e]),
    decreases s.len(),
{
    let t = s + seq![BACKSLASH, e];
    if s.len() == 0 {
        assert(t[0] == BACKSLASH && t[1] == e);
        assert(t.skip(2) =~= Seq::<u8>::empty());
        assert(str_content_ok(Seq::<u8>::empty()));
        assert(str_content_ok(t));
    } else if s[0] == BACKSLASH {
        assert(t[0] == s[0] && t[1] == s[1]);
        assert(t.skip(2) =~= s.skip(2) + seq![BACKSLASH, e]);
        lemma_str_content_extend_escape(s.skip(2), e);
        assert(str_content_ok(t));
    } else {
        assert(t[0] == s[0]);
        assert(t.skip(1) =~= s.skip(1) + seq![BACKSLASH, e]);
        lemma_str_content_extend_escape(s.skip(1), e);
        assert(str_content_ok(t));
    }
}

/// Scans a number token starting at `i` (which must hold `-` or a
/// digit); returns the token and the position after it.  It finds
/// exactly the maximal token, so any token that sits at `i` with a
/// non-extending boundary is what it returns.
#[verifier::loop_isolation(false)]
fn scan_number(s: &Vec<u8>, i: usize) -> (r: Option<(Vec<u8>, usize)>)
    requires
        i <= s@.len(),
    ensures
        r matches Some((t, j)) ==> i < j <= s@.len() && num_token_ok(t@),
        forall|t: Seq<u8>| #[trigger] num_at(s@, i as int, t) ==> (match r {
            Some(p) => p.0@ == t && p.1 == i + t.len(),
            None => false,
        }),
{
    proof {
        assert forall|t: Seq<u8>|
            #[trigger] num_at(s@, i as int, t) implies i < s@.len() && t[0] == s@[i as int] by {
            assert(t[0] == s@.subrange(i as int, i + t.len() as int)[0]);
        }
    }
    if i >= s.len() {
        return None;
    }
    let b0 = s[i];
    if !(b0 == MINUS || (0x30 <= b0 && b0 <= 0x39)) {
        return None;
    }
    let mut out: Vec<u8> = Vec::new();
    out.push(b0);
    let mut j = i + 1;
    proof {
        assert(out@ =~= s@.subrange(i as int, (i + 1) as int));
    }
    loop
        invariant
            i < j <= s@.len(),
            out@.len() == j - i,
            out@[0] == b0,
            out@ == s@.subrange(i as int, j as int),
            forall|k: int| 0 <= k < out@.len() ==> num_byte_ok(#[trigger] out@[k]),
        decreases s@.len() - j,
    {
        if j >= s.len() {
            proof {
                assert forall|k: int| i <= k < j implies num_byte_ok(#[trigger] s@[k]) by {
                    assert(s@[k] == out@[k - i]);
                }
                lemma_num_scan_exact(s@, i as int, j as int);
            }
            return Some((out, j));
        }
        let b = s[j];
        if !((0x30 <= b && b <= 0x39) || b == 0x2d || b == 0x2b || b == 0x2e || b == 0x65 || b
            == 0x45) {
            proof {
                assert(!num_byte_ok(s@[j as int]));
                assert forall|k: int| i <= k < j implies num_byte_ok(#[trigger] s@[k]) by {
                    assert(s@[k] == out@[k - i]);
                }
                lemma_num_scan_exact(s@, i as int, j as int);
            }
            return Some((out, j));
        }
        out.push(b);
        proof {
            assert(out@ =~= s@.subrange(i as int, (j + 1) as int));
        }
        j = j + 1;
    }
}

/// A maximal run of number bytes from `i` to `j` is the one token any
/// `num_at` hypothesis can name.
proof fn lemma_num_scan_exact(s: Seq<u8>, i: int, j: int)
    requires
        0 <= i < j <= s.len(),
        forall|k: int| i <= k < j ==> num_byte_ok(#[trigger] s[k]),
        j == s.len() || !num_byte_ok(s[j]),
    ensures
        forall|t: Seq<u8>| #[trigger] num_at(s, i, t) ==> t == s.subrange(i, j) && i + t.len() == j,
{
    assert forall|t: Seq<u8>| #[trigger] num_at(s, i, t) implies t == s.subrange(i, j) && i
        + t.len() == j by {
        if i + t.len() < j {
            // the boundary byte would be part of the scanned run
            assert(num_byte_ok(s[i + t.len()]));
            assert(i + t.len() < s.len());
        }
        if i + t.len() > j {
            // the token would carry the non-number byte at j
            assert(t[j - i] == s.subrange(i, i + t.len() as int)[j - i]);
            assert(num_byte_ok(t[j - i]));
            assert(j < s.len());
        }
        assert(i + t.len() == j);
        assert(t =~= s.subrange(i, j));
    }
}

/// The first byte of a serialization sitting at `i` is the byte at
/// `i`.
proof fn lemma_at_first(s: Seq<u8>, i: int, w: Jv)
    requires
        wf_json(w),
        ser_at(s, i, w),
    ensures
        i < s.len(),
        ser_value(w)[0] == s[i],
        ser_value(w).len() >= 1,
        forall|x: int| 0 <= x < ser_value(w).len() ==> #[trigger] s[i + x] == ser_value(w)[x],
{
    lemma_ser_first(w);
    assert forall|x: int|
        0 <= x < ser_value(w).len() implies #[trigger] s[i + x] == ser_value(w)[x] by {
        assert(s.subrange(i, i + ser_value(w).len() as int)[x] == ser_value(w)[x]);
    }
    assert(s[i + 0] == ser_value(w)[0]);
}

/// Parses one JSON value starting at `i` (no leading whitespace);
/// returns the value and the position just after it.  It finds
/// exactly the well-formed value whose serialization sits at `i`,
/// when one does.
#[verifier::loop_isolation(false)]
#[verifier::rlimit(60)]
pub fn parse_value(s: &Vec<u8>, i: usize) -> (r: Option<(JsonValue, usize)>)
    requires
        i <= s@.len(),
    ensures
        r matches Some((v, j)) ==> i < j <= s@.len() && wf_json(v@),
        forall|w: Jv| wf_json(w) && #[trigger] ser_at(s@, i as int, w) ==> (match r {
            Some(p) => p.0.deep_view() == w && p.1 == i + ser_value(w).len(),
            None => false,
        }),
    decreases s@.len() - i,
{
    if i >= s.len() {
        proof {
            assert forall|w: Jv| !(wf_json(w) && #[trigger] ser_at(s@, i as int, w)) by {
                if wf_json(w) && ser_at(s@, i as int, w) {
                    lemma_at_first(s@, i as int, w);
                lemma_ser_first(w);
                }
            }
        }
        return None;
    }
    let b = s[i];
    if b == 0x6e {
        // null
        proof {
            assert forall|w: Jv|
                wf_json(w) && #[trigger] ser_at(s@, i as int, w) implies w == Jv::Null
                && ser_value(w).len() == 4 by {
                lemma_at_first(s@, i as int, w);
                lemma_ser_first(w);
            }
        }
        if s.len() - i >= 4 && s[i + 1] == 0x75 && s[i + 2] == 0x6c && s[i + 3] == 0x6c {
            Some((JsonValue::Null, i + 4))
        } else {
            proof {
                assert forall|w: Jv| !(wf_json(w) && #[trigger] ser_at(s@, i as int, w)) by {
                    if wf_json(w) && ser_at(s@, i as int, w) {
                        lemma_at_first(s@, i as int, w);
                lemma_ser_first(w);
                        assert(s@[i + 1] == 0x75 && s@[i + 2] == 0x6c && s@[i + 3] == 0x6c);
                    }
                }
            }
            None
        }
    } else if b == 0x74 {
        // true
        proof {
            assert forall|w: Jv|
                wf_json(w) && #[trigger] ser_at(s@, i as int, w) implies w == Jv::Bool(true)
                && ser_value(w).len() == 4 by {
                lemma_at_first(s@, i as int, w);
                lemma_ser_first(w);
            }
        }
        if s.len() - i >= 4 && s[i + 1] == 0x72 && s[i + 2] == 0x75 && s[i + 3] == 0x65 {
            Some((JsonValue::Bool(true), i + 4))
        } else {
            proof {
                assert forall|w: Jv| !(wf_json(w) && #[trigger] ser_at(s@, i as int, w)) by {
                    if wf_json(w) && ser_at(s@, i as int, w) {
                        lemma_at_first(s@, i as int, w);
                lemma_ser_first(w);
                        assert(s@[i + 1] == 0x72 && s@[i + 2] == 0x75 && s@[i + 3] == 0x65);
                    }
                }
            }
            None
        }
    } else if b == 0x66 {
        // false
        proof {
            assert forall|w: Jv|
                wf_json(w) && #[trigger] ser_at(s@, i as int, w) implies w == Jv::Bool(false)
                && ser_value(w).len() == 5 by {
                lemma_at_first(s@, i as int, w);
                lemma_ser_first(w);
            }
        }
        if s.len() - i >= 5 && s[i + 1] == 0x61 && s[i + 2] == 0x6c && s[i + 3] == 0x73 && s[i + 4]
            == 0x65 {
            Some((JsonValue::Bool(false), i + 5))
        } else {
            proof {
                assert forall|w: Jv| !(wf_json(w) && #[trigger] ser_at(s@, i as int, w)) by {
                    if wf_json(w) && ser_at(s@, i as int, w) {
                        lemma_at_first(s@, i as int, w);
                lemma_ser_first(w);
                        assert(s@[i + 1] == 0x61 && s@[i + 2] == 0x6c && s@[i + 3] == 0x73 && s@[i
                            + 4] == 0x65);
                    }
                }
            }
            None
        }
    } else if b == QUOTE {
        proof {
            assert forall|w: Jv|
                wf_json(w) && #[trigger] ser_at(s@, i as int, w) implies (w is Str)
                && #[trigger] str_at(s@, (i + 1) as int, w->Str_0) && ser_value(w).len() == w->Str_0.len()
                + 2 by {
                lemma_at_first(s@, i as int, w);
                lemma_ser_first(w);
                let ii = i as int;
                let c = w->Str_0;
                assert(ser_value(w) == seq![QUOTE] + c + seq![QUOTE]);
                assert forall|x: int|
                    0 <= x < c.len() implies s@.subrange(ii + 1, ii + 1 + c.len() as int)[x]
                    == c[x] by {
                    assert(s@[ii + (1 + x)] == ser_value(w)[1 + x]);
                    assert(ser_value(w)[1 + x] == c[x]);
                }
                assert(s@.subrange(ii + 1, ii + 1 + c.len() as int) =~= c);
                assert(s@[ii + c.len() as int + 1] == ser_value(w)[c.len() as int + 1]);
                assert(ser_value(w)[c.len() as int + 1] == QUOTE);
            }
        }
        match scan_string(s, i + 1) {
            Some((c, j)) => {
                proof {
                    assert forall|w: Jv|
                        wf_json(w) && #[trigger] ser_at(s@, i as int, w) implies JsonValue::Str(
                        c,
                    ).deep_view() == w && j == i + ser_value(w).len() by {
                        assert(str_at(s@, (i + 1) as int, w->Str_0));
                    }
                }
                Some((JsonValue::Str(c), j))
            },
            None => {
                proof {
                    assert forall|w: Jv| !(wf_json(w) && #[trigger] ser_at(s@, i as int, w)) by {
                        if wf_json(w) && ser_at(s@, i as int, w) {
                            assert(str_at(s@, (i + 1) as int, w->Str_0));
                        }
                    }
                }
                None
            },
        }
    } else if b == MINUS || (0x30 <= b && b <= 0x39) {
        proof {
            assert forall|w: Jv|
                wf_json(w) && #[trigger] ser_at(s@, i as int, w) implies (w is Num)
                && #[trigger] num_at(s@, i as int, w->Num_0) by {
                lemma_at_first(s@, i as int, w);
                lemma_ser_first(w);
                assert(ser_value(w) == w->Num_0);
            }
        }
        match scan_number(s, i) {
            Some((t, j)) => {
                proof {
                    assert forall|w: Jv|
                        wf_json(w) && #[trigger] ser_at(s@, i as int, w) implies JsonValue::Num(
                        t,
                    ).deep_view() == w && j == i + ser_value(w).len() by {
                        assert(num_at(s@, i as int, w->Num_0));
                    }
                }
                Some((JsonValue::Num(t), j))
            },
            None => {
                proof {
                    assert forall|w: Jv| !(wf_json(w) && #[trigger] ser_at(s@, i as int, w)) by {
                        if wf_json(w) && ser_at(s@, i as int, w) {
                            assert(num_at(s@, i as int, w->Num_0));
                        }
                    }
                }
                None
            },
        }
    } else if b == LBRACKET {
        proof {
            assert forall|w: Jv|
                wf_json(w) && #[trigger] ser_at(s@, i as int, w) implies (w is Arr)
                && #[trigger] arr_at(s@, i as int, w->Arr_0) by {
                lemma_at_first(s@, i as int, w);
                lemma_ser_first(w);
            }
        }
        let mut elems: Vec<JsonValue> = Vec::new();
        let cur0 = skip_ws(s, i + 1);
        proof {
            assert forall|a: Seq<Jv>| #[trigger] arr_at(s@, i as int, a) implies cur0 == i + 1 by {
                if a.len() == 0 {
                    lemma_at_first(s@, i as int, Jv::Arr(a));
                    assert(ser_value(Jv::Arr(a)).len() == 2);
                    assert(s@[i + 1] == ser_value(Jv::Arr(a))[1]);
                    assert(ser_value(Jv::Arr(a))[1] == RBRACKET);
                    assert(!is_ws(s@[i + 1]));
                } else {
                    lemma_arr_elem_at(s@, i as int, a, 0);
                    lemma_wf_elems_index(a);
                    assert(ser_elems_to(a, 0).len() == 0);
                    assert(s@[i + 1] == s@.subrange(i + 1, i + 1 + ser_value(a[0]).len() as int)[0]);
                    lemma_ser_first_plain(a[0]);
                    assert(!is_ws(s@[i + 1]));
                }
            }
        }
        if cur0 < s.len() && s[cur0] == RBRACKET {
            let v = JsonValue::Arr(elems);
            proof {
                assert(v@->Arr_0 =~= Seq::<Jv>::empty());
                assert forall|w: Jv|
                    wf_json(w) && #[trigger] ser_at(s@, i as int, w) implies v.deep_view() == w
                    && cur0 + 1 == i + ser_value(w).len() by {
                    let a = w->Arr_0;
                lemma_at_first(s@, i as int, w);
                lemma_ser_first(w);
                assert(w is Arr);
                assert(arr_at(s@, i as int, a));
                    if a.len() > 0 {
                        lemma_arr_elem_at(s@, i as int, a, 0);
                        lemma_wf_elems_index(a);
                        assert(ser_elems_to(a, 0).len() == 0);
                        assert(s@[cur0 as int] == s@.subrange(
                            i + 1,
                            i + 1 + ser_value(a[0]).len() as int,
                        )[0]);
                        lemma_ser_first_plain(a[0]);
                        assert(false);
                    }
                    assert(a.len() == 0);
                    assert(w == Jv::Arr(a));
                    assert(ser_elems_to(a, 0).len() == 0);
                    assert(ser_value(w) =~= seq![LBRACKET, RBRACKET]);
                    assert(v.deep_view()->Arr_0 =~= a);
                    assert(v.deep_view() =~= w);
                }
            }
            return Some((v, cur0 + 1));
        }
        let mut cur = cur0;
        proof {
            assert forall|a: Seq<Jv>|
                #[trigger] arr_at(s@, i as int, a) implies 0 < a.len() && cur
                == arr_elem_off(i as int, a, 0) by {
                if a.len() == 0 {
                    lemma_at_first(s@, i as int, Jv::Arr(a));
                    assert(ser_value(Jv::Arr(a)).len() == 2);
                    assert(s@[i + 1] == ser_value(Jv::Arr(a))[1]);
                    assert(i + 2 <= s@.len());
                    assert(false);
                }
                assert(ser_elems_to(a, 0).len() == 0);
            }
        }
        loop
            invariant
                i < cur <= s@.len(),
                forall|k: int|
                    0 <= k < elems@.len() ==> wf_json(#[trigger] elems@[k].deep_view()),
                forall|a: Seq<Jv>| #[trigger] arr_at(s@, i as int, a) ==> {
                    let k = elems@.len() as int;
                    &&& k < a.len()
                    &&& (forall|x: int| 0 <= x < k ==> #[trigger] elems@[x].deep_view() == a[x])
                    &&& cur == arr_elem_off(i as int, a, k)
                },
            decreases s@.len() - cur,
        {
            let ghost k = elems@.len() as int;
            proof {
                assert forall|a: Seq<Jv>|
                    #[trigger] arr_at(s@, i as int, a) implies #[trigger] ser_at(
                    s@,
                    cur as int,
                    a[k],
                ) && wf_json(a[k]) by {
                    lemma_arr_elem_at(s@, i as int, a, k);
                    lemma_wf_elems_index(a);
                    assert(!num_byte_ok(COMMA) && !num_byte_ok(RBRACKET));
                }
            }
            let (v, j) = match parse_value(s, cur) {
                Some(p) => p,
                None => {
                    proof {
                        assert forall|w: Jv| !(wf_json(w) && #[trigger] ser_at(
                            s@,
                            i as int,
                            w,
                        )) by {
                            if wf_json(w) && ser_at(s@, i as int, w) {
                                let a = w->Arr_0;
                lemma_at_first(s@, i as int, w);
                lemma_ser_first(w);
                assert(w is Arr);
                assert(arr_at(s@, i as int, a));
                                assert(ser_at(s@, cur as int, a[k]));
                            }
                        }
                    }
                    return None;
                },
            };
            elems.push(v);
            let ghost jpos = j as int;
            proof {
                assert forall|a: Seq<Jv>| #[trigger] arr_at(s@, i as int, a) implies v.deep_view()
                    == a[k] && jpos == i + 1 + ser_elems_to(a, k + 1).len() && s@[jpos] == (if k + 1
                    < a.len() {
                    COMMA
                } else {
                    RBRACKET
                }) && jpos < s@.len() by {
                    assert(ser_at(s@, cur as int, a[k]));
                    lemma_arr_elem_at(s@, i as int, a, k);
                }
            }
            cur = skip_ws(s, j);
            proof {
                assert forall|a: Seq<Jv>| #[trigger] arr_at(s@, i as int, a) implies cur == jpos by {
                    assert(!is_ws(COMMA) && !is_ws(RBRACKET));
                    if cur > jpos {
                        assert(is_ws(s@[jpos]));
                    }
                }
            }
            if cur >= s.len() {
                proof {
                    assert forall|w: Jv| !(wf_json(w) && #[trigger] ser_at(s@, i as int, w)) by {
                        if wf_json(w) && ser_at(s@, i as int, w) {
                            let a = w->Arr_0;
                lemma_at_first(s@, i as int, w);
                lemma_ser_first(w);
                assert(w is Arr);
                assert(arr_at(s@, i as int, a));
                            assert(cur == jpos && jpos < s@.len());
                        }
                    }
                }
                return None;
            }
            let c = s[cur];
            if c == RBRACKET {
                let out = JsonValue::Arr(elems);
                proof {
                    let ov = out@->Arr_0;
                    assert forall|x: int| 0 <= x < ov.len() implies wf_json(#[trigger] ov[x]) by {
                        assert(ov[x] == elems@[x].deep_view());
                    }
                    lemma_wf_elems_build(ov);
                    assert forall|w: Jv|
                        wf_json(w) && #[trigger] ser_at(s@, i as int, w) implies out.deep_view()
                        == w && cur + 1 == i + ser_value(w).len() by {
                        let a = w->Arr_0;
                lemma_at_first(s@, i as int, w);
                lemma_ser_first(w);
                assert(w is Arr);
                assert(arr_at(s@, i as int, a));
                        if k + 1 < a.len() {
                            assert(s@[cur as int] == COMMA);
                            assert(false);
                        }
                        assert(a.len() == k + 1);
                        assert forall|x: int| 0 <= x < ov.len() implies ov[x] == a[x] by {
                            if x < k {
                                assert(elems@[x].deep_view() == a[x]);
                            } else {
                                assert(elems@[k].deep_view() == a[k]);
                            }
                        }
                        assert(ov =~= a);
                        assert(out.deep_view() =~= w);
                        assert(ser_value(w).len() == 2 + ser_elems_to(a, k + 1).len());
                    }
                }
                return Some((out, cur + 1));
            }
            if c != COMMA {
                proof {
                    assert forall|w: Jv| !(wf_json(w) && #[trigger] ser_at(s@, i as int, w)) by {
                        if wf_json(w) && ser_at(s@, i as int, w) {
                            let a = w->Arr_0;
                lemma_at_first(s@, i as int, w);
                lemma_ser_first(w);
                assert(w is Arr);
                assert(arr_at(s@, i as int, a));
                            assert(s@[cur as int] == COMMA || s@[cur as int] == RBRACKET);
                        }
                    }
                }
                return None;
            }
            let after_comma = cur + 1;
            cur = skip_ws(s, after_comma);
            proof {
                assert forall|a: Seq<Jv>| #[trigger] arr_at(s@, i as int, a) implies k + 1 < a.len()
                    && cur == arr_elem_off(i as int, a, k + 1) && (forall|x: int|
                    0 <= x < k + 1 ==> #[trigger] elems@[x].deep_view() == a[x]) by {
                    assert(v.deep_view() == a[k]);
                    assert(elems@[k as int] == v);
                    if k + 1 >= a.len() {
                        assert(s@[jpos] == RBRACKET);
                        assert(false);
                    }
                    lemma_arr_elem_at(s@, i as int, a, k + 1);
                    lemma_wf_elems_index(a);
                    let off2 = arr_elem_off(i as int, a, k + 1);
                    assert(off2 == after_comma as int);
                    assert(s@[off2] == s@.subrange(off2, off2 + ser_value(a[k + 1]).len() as int)[0]);
                    lemma_ser_first_plain(a[k + 1]);
                    if cur > after_comma {
                        assert(is_ws(s@[off2]));
                    }
                }
            }
        }
    } else if b == LBRACE {
        proof {
            assert forall|w: Jv|
                wf_json(w) && #[trigger] ser_at(s@, i as int, w) implies (w is Obj)
                && #[trigger] obj_at(s@, i as int, w->Obj_0) by {
                lemma_at_first(s@, i as int, w);
                lemma_ser_first(w);
            }
        }
        let mut members: Vec<(Vec<u8>, JsonValue)> = Vec::new();
        let cur0 = skip_ws(s, i + 1);
        proof {
            assert forall|m: Seq<(Seq<u8>, Jv)>|
                #[trigger] obj_at(s@, i as int, m) implies cur0 == i + 1 by {
                if m.len() == 0 {
                    lemma_at_first(s@, i as int, Jv::Obj(m));
                    assert(ser_value(Jv::Obj(m)).len() == 2);
                    assert(s@[i + 1] == ser_value(Jv::Obj(m))[1]);
                    assert(ser_value(Jv::Obj(m))[1] == RBRACE);
                    assert(!is_ws(s@[i + 1]));
                } else {
                    lemma_obj_member_at(s@, i as int, m, 0);
                    assert(ser_members_to(m, 0).len() == 0);
                    assert(s@[i + 1] == QUOTE);
                    assert(!is_ws(QUOTE));
                }
            }
        }
        if cur0 < s.len() && s[cur0] == RBRACE {
            let v = JsonValue::Obj(members);
            proof {
                assert(v@->Obj_0 =~= Seq::<(Seq<u8>, Jv)>::empty());
                assert forall|w: Jv|
                    wf_json(w) && #[trigger] ser_at(s@, i as int, w) implies v.deep_view() == w
                    && cur0 + 1 == i + ser_value(w).len() by {
                    let m = w->Obj_0;
                lemma_at_first(s@, i as int, w);
                lemma_ser_first(w);
                assert(w is Obj);
                assert(obj_at(s@, i as int, m));
                    if m.len() > 0 {
                        lemma_obj_member_at(s@, i as int, m, 0);
                        assert(ser_members_to(m, 0).len() == 0);
                        assert(s@[cur0 as int] == QUOTE);
                        assert(false);
                    }
                    assert(m.len() == 0);
                    assert(w == Jv::Obj(m));
                    assert(ser_members_to(m, 0).len() == 0);
                    assert(ser_value(w) =~= seq![LBRACE, RBRACE]);
                    assert(v.deep_view()->Obj_0 =~= m);
                    assert(v.deep_view() =~= w);
                }
            }
            return Some((v, cur0 + 1));
        }
        let mut cur = cur0;
        proof {
            assert forall|m: Seq<(Seq<u8>, Jv)>|
                #[trigger] obj_at(s@, i as int, m) implies 0 < m.len() && cur == obj_member_off(
                i as int,
                m,
                0,
            ) by {
                if m.len() == 0 {
                    lemma_at_first(s@, i as int, Jv::Obj(m));
                    assert(ser_value(Jv::Obj(m)).len() == 2);
                    assert(s@[i + 1] == ser_value(Jv::Obj(m))[1]);
                    assert(i + 2 <= s@.len());
                    assert(false);
                }
                assert(ser_members_to(m, 0).len() == 0);
            }
        }
        loop
            invariant
                i < cur <= s@.len(),
                forall|k: int|
                    0 <= k < members@.len() ==> str_content_ok(#[trigger] members@[k].0@)
                        && wf_json(members@[k].1.deep_view()),
                forall|m: Seq<(Seq<u8>, Jv)>| #[trigger] obj_at(s@, i as int, m) ==> {
                    let k = members@.len() as int;
                    &&& k < m.len()
                    &&& (forall|x: int|
                        0 <= x < k ==> #[trigger] members@[x].0@ == m[x].0
                            && members@[x].1.deep_view() == m[x].1)
                    &&& cur == obj_member_off(i as int, m, k)
                },
            decreases s@.len() - cur,
        {
            let ghost k = members@.len() as int;
            proof {
                assert forall|m: Seq<(Seq<u8>, Jv)>|
                    #[trigger] obj_at(s@, i as int, m) implies cur < s@.len() && s@[cur as int]
                    == QUOTE by {
                    lemma_obj_member_at(s@, i as int, m, k);
                }
            }
            if cur >= s.len() || s[cur] != QUOTE {
                proof {
                    assert forall|w: Jv| !(wf_json(w) && #[trigger] ser_at(s@, i as int, w)) by {
                        if wf_json(w) && ser_at(s@, i as int, w) {
                            lemma_at_first(s@, i as int, w);
                            lemma_ser_first(w);
                            assert(w is Obj);
                            assert(obj_at(s@, i as int, w->Obj_0));
                        }
                    }
                }
                return None;
            }
            proof {
                assert forall|m: Seq<(Seq<u8>, Jv)>|
                    #[trigger] obj_at(s@, i as int, m) implies #[trigger] str_at(
                    s@,
                    (cur + 1) as int,
                    m[k].0,
                ) by {
                    lemma_obj_member_at(s@, i as int, m, k);
                    lemma_wf_members_index(m);
                }
            }
            let (key, jk) = match scan_string(s, cur + 1) {
                Some(p) => p,
                None => {
                    proof {
                        assert forall|w: Jv| !(wf_json(w) && #[trigger] ser_at(
                            s@,
                            i as int,
                            w,
                        )) by {
                            if wf_json(w) && ser_at(s@, i as int, w) {
                                let m = w->Obj_0;
                lemma_at_first(s@, i as int, w);
                lemma_ser_first(w);
                assert(w is Obj);
                assert(obj_at(s@, i as int, m));
                                assert(str_at(s@, (cur + 1) as int, m[k].0));
                            }
                        }
                    }
                    return None;
                },
            };
            let ghost jkpos = jk as int;
            proof {
                assert forall|m: Seq<(Seq<u8>, Jv)>| #[trigger] obj_at(s@, i as int, m) implies key@
                    == m[k].0 && jkpos == obj_member_off(i as int, m, k) + 2 + m[k].0.len()
                    && jkpos < s@.len() && s@[jkpos] == COLON by {
                    assert(str_at(s@, (cur + 1) as int, m[k].0));
                    lemma_obj_member_at(s@, i as int, m, k);
                }
            }
            let colon = skip_ws(s, jk);
            proof {
                assert forall|m: Seq<(Seq<u8>, Jv)>|
                    #[trigger] obj_at(s@, i as int, m) implies colon == jkpos by {
                    assert(!is_ws(COLON));
                    if colon > jkpos {
                        assert(is_ws(s@[jkpos]));
                    }
                }
            }
            if colon >= s.len() || s[colon] != COLON {
                proof {
                    assert forall|w: Jv| !(wf_json(w) && #[trigger] ser_at(
                        s@,
                        i as int,
                        w,
                    )) by {
                        if wf_json(w) && ser_at(s@, i as int, w) {
                            lemma_at_first(s@, i as int, w);
                            lemma_ser_first(w);
                            assert(w is Obj);
                            assert(obj_at(s@, i as int, w->Obj_0));
                        }
                    }
                }
                return None;
            }
            let vstart = skip_ws(s, colon + 1);
            proof {
                assert forall|m: Seq<(Seq<u8>, Jv)>|
                    #[trigger] obj_at(s@, i as int, m) implies vstart == jkpos + 1
                    && #[trigger] ser_at(s@, vstart as int, m[k].1) && wf_json(m[k].1) by {
                    lemma_obj_member_at(s@, i as int, m, k);
                    lemma_wf_members_index(m);
                    let off = obj_member_off(i as int, m, k);
                    let voff = off + 3 + m[k].0.len() as int;
                    assert(s@[voff] == s@.subrange(voff, voff + ser_value(m[k].1).len() as int)[0]);
                    lemma_ser_first_plain(m[k].1);
                    if vstart > jkpos + 1 {
                        assert(is_ws(s@[voff]));
                    }
                    assert(!num_byte_ok(COMMA) && !num_byte_ok(RBRACE));
                }
            }
            let (v, j) = match parse_value(s, vstart) {
                Some(p) => p,
                None => {
                    proof {
                        assert forall|w: Jv| !(wf_json(w) && #[trigger] ser_at(
                            s@,
                            i as int,
                            w,
                        )) by {
                            if wf_json(w) && ser_at(s@, i as int, w) {
                                let m = w->Obj_0;
                lemma_at_first(s@, i as int, w);
                lemma_ser_first(w);
                assert(w is Obj);
                assert(obj_at(s@, i as int, m));
                                assert(ser_at(s@, vstart as int, m[k].1));
                            }
                        }
                    }
                    return None;
                },
            };
            members.push((key, v));
            let ghost jpos = j as int;
            proof {
                assert forall|m: Seq<(Seq<u8>, Jv)>| #[trigger] obj_at(s@, i as int, m) implies
                    v.deep_view() == m[k].1 && jpos == i + 1 + ser_members_to(m, k + 1).len()
                    && s@[jpos] == (if k + 1 < m.len() {
                    COMMA
                } else {
                    RBRACE
                }) && jpos < s@.len() by {
                    assert(ser_at(s@, vstart as int, m[k].1));
                    lemma_obj_member_at(s@, i as int, m, k);
                }
            }
            cur = skip_ws(s, j);
            proof {
                assert forall|m: Seq<(Seq<u8>, Jv)>|
                    #[trigger] obj_at(s@, i as int, m) implies cur == jpos by {
                    assert(!is_ws(COMMA) && !is_ws(RBRACE));
                    if cur > jpos {
                        assert(is_ws(s@[jpos]));
                    }
                }
            }
            if cur >= s.len() {
                proof {
                    assert forall|w: Jv| !(wf_json(w) && #[trigger] ser_at(s@, i as int, w)) by {
                        if wf_json(w) && ser_at(s@, i as int, w) {
                            lemma_at_first(s@, i as int, w);
                            lemma_ser_first(w);
                            assert(w is Obj);
                            assert(obj_at(s@, i as int, w->Obj_0));
                        }
                    }
                }
                return None;
            }
            let c = s[cur];
            if c == RBRACE {
                let out = JsonValue::Obj(members);
                proof {
                    let ov = out@->Obj_0;
                    assert forall|x: int| 0 <= x < ov.len() implies str_content_ok(
                        #[trigger] ov[x].0,
                    ) && wf_json(ov[x].1) by {
                        assert(ov[x] == (members@[x].0@, members@[x].1.deep_view()));
                    }
                    lemma_wf_members_build(ov);
                    assert forall|w: Jv|
                        wf_json(w) && #[trigger] ser_at(s@, i as int, w) implies out.deep_view()
                        == w && cur + 1 == i + ser_value(w).len() by {
                        let m = w->Obj_0;
                lemma_at_first(s@, i as int, w);
                lemma_ser_first(w);
                assert(w is Obj);
                assert(obj_at(s@, i as int, m));
                        if k + 1 < m.len() {
                            assert(s@[cur as int] == COMMA);
                            assert(false);
                        }
                        assert(m.len() == k + 1);
                        assert forall|x: int| 0 <= x < ov.len() implies ov[x] == m[x] by {
                            assert(ov[x] == (members@[x].0@, members@[x].1.deep_view()));
                            if x < k {
                                assert(members@[x].0@ == m[x].0);
                            } else {
                                assert(members@[k].0@ == m[k].0);
                            }
                        }
                        assert(ov =~= m);
                        assert(out.deep_view() =~= w);
                        assert(ser_value(w).len() == 2 + ser_members_to(m, k + 1).len());
                    }
                }
                return Some((out, cur + 1));
            }
            if c != COMMA {
                proof {
                    assert forall|w: Jv| !(wf_json(w) && #[trigger] ser_at(s@, i as int, w)) by {
                        if wf_json(w) && ser_at(s@, i as int, w) {
                            let m = w->Obj_0;
                lemma_at_first(s@, i as int, w);
                lemma_ser_first(w);
                assert(w is Obj);
                assert(obj_at(s@, i as int, m));
                            assert(s@[cur as int] == COMMA || s@[cur as int] == RBRACE);
                        }
                    }
                }
                return None;
            }
            let after_comma = cur + 1;
            cur = skip_ws(s, after_comma);
            proof {
                assert forall|m: Seq<(Seq<u8>, Jv)>|
                    #[trigger] obj_at(s@, i as int, m) implies k + 1 < m.len() && cur
                    == obj_member_off(i as int, m, k + 1) && (forall|x: int|
                    0 <= x < k + 1 ==> #[trigger] members@[x].0@ == m[x].0
                        && members@[x].1.deep_view() == m[x].1) by {
                    assert(key@ == m[k as int].0 && v.deep_view() == m[k as int].1);
                    assert(members@[k as int] == (key, v));
                    if k + 1 >= m.len() {
                        assert(s@[jpos] == RBRACE);
                        assert(false);
                    }
                    lemma_obj_member_at(s@, i as int, m, k + 1);
                    let off2 = obj_member_off(i as int, m, k + 1);
                    assert(off2 == after_comma as int);
                    assert(s@[off2] == QUOTE);
                    assert(!is_ws(QUOTE));
                    if cur > after_comma {
                        assert(is_ws(s@[off2]));
                    }
                }
            }
        }
    } else {
        proof {
            assert forall|w: Jv| !(wf_json(w) && #[trigger] ser_at(s@, i as int, w)) by {
                if wf_json(w) && ser_at(s@, i as int, w) {
                    lemma_at_first(s@, i as int, w);
                lemma_ser_first(w);
                    lemma_ser_first(w);
                    if w matches Jv::Bool(x) {
                        assert(s@[i as int] == 0x74 || s@[i as int] == 0x66);
                    }
                }
            }
        }
        None
    }
}

/// Parses a complete JSON document: one value, optionally surrounded
/// by whitespace, spanning the whole input.  Any well-formed value
/// always parses back from its own serialization.
pub fn parse_json(s: &Vec<u8>) -> (r: Option<JsonValue>)
    ensures
        r matches Some(v) ==> wf_json(v@),
        forall|w: Jv| wf_json(w) && s@ == #[trigger] ser_value(w) ==> (match r {
            Some(v) => v.deep_view() == w,
            None => false,
        }),
{
    let start = skip_ws(s, 0);
    proof {
        assert forall|w: Jv|
            wf_json(w) && s@ == #[trigger] ser_value(w) implies start == 0 && #[trigger] ser_at(
            s@,
            0,
            w,
        ) by {
            lemma_ser_first(w);
            lemma_ser_first_plain(w);
            assert(s@[0] == ser_value(w)[0]);
            if start > 0 {
                assert(is_ws(s@[0]));
            }
            assert(s@.subrange(0, ser_value(w).len() as int) =~= ser_value(w));
        }
    }
    match parse_value(s, start) {
        Some((v, j)) => {
            let end = skip_ws(s, j);
            proof {
                assert forall|w: Jv|
                    wf_json(w) && s@ == #[trigger] ser_value(w) implies j == s@.len() && end
                    == s@.len() && v.deep_view() == w by {
                    assert(ser_at(s@, 0, w));
                    assert(ser_at(s@, start as int, w));
                }
            }
            if end == s.len() {
                Some(v)
            } else {
                proof {
                    assert forall|w: Jv| !(wf_json(w) && s@ == #[trigger] ser_value(w)) by {
                        if wf_json(w) && s@ == ser_value(w) {
                            assert(end == s@.len());
                        }
                    }
                }
                None
            }
        },
        None => {
            proof {
                assert forall|w: Jv| !(wf_json(w) && s@ == #[trigger] ser_value(w)) by {
                    if wf_json(w) && s@ == ser_value(w) {
                        assert(ser_at(s@, 0, w));
                        assert(ser_at(s@, start as int, w));
                    }
                }
            }
            None
        },
    }
}


/// A string content `c` sits at `i` followed by a closing quote.
pub open spec fn str_at(s: Seq<u8>, i: int, c: Seq<u8>) -> bool {
    &&& str_content_ok(c)
    &&& 0 <= i
    &&& i + c.len() + 1 <= s.len()
    &&& s.subrange(i, i + c.len() as int) == c
    &&& s[i + c.len()] == QUOTE
}

/// A number token `t` sits at `i` and cannot be extended by the next
/// byte.
pub open spec fn num_at(s: Seq<u8>, i: int, t: Seq<u8>) -> bool {
    &&& num_token_ok(t)
    &&& 0 <= i
    &&& i + t.len() <= s.len()
    &&& s.subrange(i, i + t.len() as int) == t
    &&& (i + t.len() == s.len() || !num_byte_ok(s[i + t.len()]))
}

/// The serialization of `w` sits exactly at `i` and, for a number,
/// cannot be extended by the byte that follows.
pub open spec fn ser_at(s: Seq<u8>, i: int, w: Jv) -> bool {
    &&& 0 <= i
    &&& i + ser_value(w).len() <= s.len()
    &&& s.subrange(i, i + ser_value(w).len() as int) == ser_value(w)
    &&& (i + ser_value(w).len() == s.len() || !((w is Num) && num_byte_ok(
        s[i + ser_value(w).len()],
    )))
}

/// A well-formed array body whose serialization sits at `i`.
pub open spec fn arr_at(s: Seq<u8>, i: int, a: Seq<Jv>) -> bool {
    wf_elems(a) && ser_at(s, i, Jv::Arr(a))
}

/// A well-formed member list whose serialization sits at `i`.
pub open spec fn obj_at(s: Seq<u8>, i: int, m: Seq<(Seq<u8>, Jv)>) -> bool {
    wf_members(m) && ser_at(s, i, Jv::Obj(m))
}

/// Serializations are nonempty and their first byte names the
/// variant.
pub proof fn lemma_ser_first(w: Jv)
    requires
        wf_json(w),
    ensures
        ser_value(w).len() >= 1,
        w is Null ==> ser_value(w)[0] == 0x6e,
        (w matches Jv::Bool(b) && b) ==> ser_value(w)[0] == 0x74,
        (w matches Jv::Bool(b) && !b) ==> ser_value(w)[0] == 0x66,
        w is Num ==> (ser_value(w)[0] == MINUS || (0x30 <= ser_value(w)[0] <= 0x39)),
        w is Str ==> ser_value(w)[0] == QUOTE,
        w is Arr ==> ser_value(w)[0] == LBRACKET,
        w is Obj ==> ser_value(w)[0] == LBRACE,
{
    match w {
        Jv::Null => {},
        Jv::Bool(_) => {},
        Jv::Num(t) => {
            assert(t.len() > 0 && (t[0] == 0x2d || (0x30 <= t[0] <= 0x39)));
        },
        Jv::Str(c) => {
            assert(ser_value(w)[0] == QUOTE);
        },
        Jv::Arr(a) => {
            assert(ser_value(w)[0] == LBRACKET);
        },
        Jv::Obj(m) => {
            assert(ser_value(w)[0] == LBRACE);
        },
    }
}

/// The first byte of a serialization is printable structure: never
/// whitespace, comma, colon or a closing bracket.
pub proof fn lemma_ser_first_plain(w: Jv)
    requires
        wf_json(w),
    ensures
        !is_ws(ser_value(w)[0]),
        ser_value(w)[0] != COMMA,
        ser_value(w)[0] != COLON,
        ser_value(w)[0] != RBRACKET,
        ser_value(w)[0] != RBRACE,
{
    lemma_ser_first(w);
}

/// Element serializations are stable under extension: the first `m`
/// elements serialize the same inside any longer prefix.
proof fn lemma_elems_to_prefix(a: Seq<Jv>, m: int, n: int)
    requires
        0 <= m <= n <= a.len(),
    ensures
        ser_elems_to(a, m).len() <= ser_elems_to(a, n).len(),
        ser_elems_to(a, n).take(ser_elems_to(a, m).len() as int) == ser_elems_to(a, m),
    decreases n - m,
{
    if m == n {
        assert(ser_elems_to(a, n).take(ser_elems_to(a, n).len() as int) =~= ser_elems_to(a, n));
    } else {
        lemma_elems_to_prefix(a, m, n - 1);
        let pre = ser_elems_to(a, n - 1);
        if n == 1 {
            assert(m == 0);
            assert(ser_elems_to(a, 0).len() == 0);
            assert(ser_elems_to(a, n).take(0) =~= ser_elems_to(a, 0));
        } else {
            assert(ser_elems_to(a, n) == pre + seq![COMMA] + ser_value(a[n - 1]));
            assert(ser_elems_to(a, n).take(ser_elems_to(a, m).len() as int) =~= pre.take(
                ser_elems_to(a, m).len() as int,
            ));
        }
    }
}

proof fn lemma_members_to_prefix(m: Seq<(Seq<u8>, Jv)>, k: int, n: int)
    requires
        0 <= k <= n <= m.len(),
    ensures
        ser_members_to(m, k).len() <= ser_members_to(m, n).len(),
        ser_members_to(m, n).take(ser_members_to(m, k).len() as int) == ser_members_to(m, k),
    decreases n - k,
{
    if k == n {
        assert(ser_members_to(m, n).take(ser_members_to(m, n).len() as int) =~= ser_members_to(
            m,
            n,
        ));
    } else {
        lemma_members_to_prefix(m, k, n - 1);
        let pre = ser_members_to(m, n - 1);
        if n == 1 {
            assert(k == 0);
            assert(ser_members_to(m, 0).len() == 0);
            assert(ser_members_to(m, n).take(0) =~= ser_members_to(m, 0));
        } else {
            assert(ser_members_to(m, n) == pre + seq![COMMA] + ser_member(m[n - 1]));
            assert(ser_members_to(m, n).take(ser_members_to(m, k).len() as int) =~= pre.take(
                ser_members_to(m, k).len() as int,
            ));
        }
    }
}

/// The offset of element `k` inside a serialized array.
pub open spec fn arr_elem_off(i: int, a: Seq<Jv>, k: int) -> int {
    i + 1 + ser_elems_to(a, k).len() + (if k > 0 {
        1int
    } else {
        0int
    })
}

/// Where element `k` sits inside an array serialized at `i`, and the
/// byte that follows it.
proof fn lemma_arr_elem_at(s: Seq<u8>, i: int, a: Seq<Jv>, k: int)
    requires
        arr_at(s, i, a),
        0 <= k < a.len(),
    ensures
        ({
            let off = arr_elem_off(i, a, k);
            &&& off + ser_value(a[k]).len() < s.len()
            &&& s.subrange(off, off + ser_value(a[k]).len() as int) == ser_value(a[k])
            &&& off + ser_value(a[k]).len() == i + 1 + ser_elems_to(a, k + 1).len()
            &&& s[off + ser_value(a[k]).len()] == (if k + 1 < a.len() {
                COMMA
            } else {
                RBRACKET
            })
        }),
{
    let n = a.len() as int;
    let body = ser_elems_to(a, n);
    let whole = ser_value(Jv::Arr(a));
    assert(whole == seq![LBRACKET] + body + seq![RBRACKET]);
    let off = arr_elem_off(i, a, k);
    // to(a, k+1) extends to(a, k) by the separator and element k
    if k == 0 {
        assert(ser_elems_to(a, 1) == ser_value(a[0]));
        assert(ser_elems_to(a, 0).len() == 0);
    } else {
        assert(ser_elems_to(a, k + 1) == ser_elems_to(a, k) + seq![COMMA] + ser_value(a[k]));
    }
    lemma_elems_to_prefix(a, k + 1, n);
    let p1 = ser_elems_to(a, k + 1).len() as int;
    assert(body.take(p1) == ser_elems_to(a, k + 1));
    // element k inside the body
    let boff = off - i - 1;
    assert(off + ser_value(a[k]).len() == i + 1 + p1);
    assert forall|x: int| 0 <= x < ser_value(a[k]).len() implies body[boff + x] == ser_value(
        a[k],
    )[x] by {
        assert(body[boff + x] == body.take(p1)[boff + x]);
        assert(ser_elems_to(a, k + 1)[boff + x] == ser_value(a[k])[x]);
    }
    // map body positions into s through the whole serialization
    assert(s.subrange(i, i + whole.len() as int) == whole);
    assert forall|x: int| 0 <= x < ser_value(a[k]).len() implies s[off + x] == ser_value(
        a[k],
    )[x] by {
        assert(s[off + x] == s.subrange(i, i + whole.len() as int)[off + x - i]);
        assert(whole[off + x - i] == body[boff + x]);
    }
    assert(s.subrange(off, off + ser_value(a[k]).len() as int) =~= ser_value(a[k]));
    // the byte after element k
    let q = off + ser_value(a[k]).len();
    if k + 1 < n {
        assert(ser_elems_to(a, k + 2) == ser_elems_to(a, k + 1) + seq![COMMA] + ser_value(
            a[k + 1],
        ));
        lemma_elems_to_prefix(a, k + 2, n);
        assert(body.take(ser_elems_to(a, k + 2).len() as int) == ser_elems_to(a, k + 2));
        assert(body[p1] == ser_elems_to(a, k + 2)[p1]);
        assert(body[p1] == COMMA);
        assert(s[q] == whole[q - i]);
        assert(whole[q - i] == body[p1]);
        assert(q < i + whole.len() - 1);
    } else {
        assert(p1 == body.len());
        assert(s[q] == whole[q - i]);
        assert(whole[q - i] == RBRACKET);
        assert(q == i + whole.len() - 1);
    }
    assert(q < s.len());
}

/// The offset of member `k` inside a serialized object.
pub open spec fn obj_member_off(i: int, m: Seq<(Seq<u8>, Jv)>, k: int) -> int {
    i + 1 + ser_members_to(m, k).len() + (if k > 0 {
        1int
    } else {
        0int
    })
}

/// Where member `k` sits inside an object serialized at `i`: its key
/// between quotes, the colon, the value, and the byte that follows.
proof fn lemma_obj_member_at(s: Seq<u8>, i: int, m: Seq<(Seq<u8>, Jv)>, k: int)
    requires
        obj_at(s, i, m),
        0 <= k < m.len(),
    ensures
        ({
            let off = obj_member_off(i, m, k);
            let klen = m[k].0.len() as int;
            let vlen = ser_value(m[k].1).len() as int;
            &&& off + 3 + klen + vlen < s.len()
            &&& s[off] == QUOTE
            &&& s.subrange(off + 1, off + 1 + klen) == m[k].0
            &&& s[off + 1 + klen] == QUOTE
            &&& s[off + 2 + klen] == COLON
            &&& s.subrange(off + 3 + klen, off + 3 + klen + vlen) == ser_value(m[k].1)
            &&& off + 3 + klen + vlen == i + 1 + ser_members_to(m, k + 1).len()
            &&& s[off + 3 + klen + vlen] == (if k + 1 < m.len() {
                COMMA
            } else {
                RBRACE
            })
        }),
{
    let n = m.len() as int;
    let body = ser_members_to(m, n);
    let whole = ser_value(Jv::Obj(m));
    assert(whole == seq![LBRACE] + body + seq![RBRACE]);
    let off = obj_member_off(i, m, k);
    let klen = m[k].0.len() as int;
    let vlen = ser_value(m[k].1).len() as int;
    let piece = ser_member(m[k]);
    assert(piece == seq![QUOTE] + m[k].0 + seq![QUOTE] + seq![COLON] + ser_value(m[k].1));
    assert(piece.len() == 3 + klen + vlen);
    if k == 0 {
        assert(ser_members_to(m, 1) == ser_member(m[0]));
        assert(ser_members_to(m, 0).len() == 0);
    } else {
        assert(ser_members_to(m, k + 1) == ser_members_to(m, k) + seq![COMMA] + ser_member(m[k]));
    }
    lemma_members_to_prefix(m, k + 1, n);
    let p1 = ser_members_to(m, k + 1).len() as int;
    assert(body.take(p1) == ser_members_to(m, k + 1));
    let boff = off - i - 1;
    assert(off + piece.len() == i + 1 + p1);
    assert forall|x: int| 0 <= x < piece.len() implies body[boff + x] == piece[x] by {
        assert(body[boff + x] == body.take(p1)[boff + x]);
        assert(ser_members_to(m, k + 1)[boff + x] == piece[x]);
    }
    assert(s.subrange(i, i + whole.len() as int) == whole);
    assert forall|x: int| 0 <= x < piece.len() implies s[off + x] == piece[x] by {
        assert(s[off + x] == s.subrange(i, i + whole.len() as int)[off + x - i]);
        assert(whole[off + x - i] == body[boff + x]);
    }
    assert(s[off] == piece[0]);
    assert forall|x: int|
        0 <= x < klen implies s.subrange(off + 1, off + 1 + klen)[x] == m[k].0[x] by {
        assert(s[off + 1 + x] == piece[1 + x]);
        assert(piece[1 + x] == m[k].0[x]);
    }
    assert(s.subrange(off + 1, off + 1 + klen) =~= m[k].0);
    assert(s[off + 1 + klen] == piece[1 + klen]);
    assert(s[off + 2 + klen] == piece[2 + klen]);
    assert forall|x: int| 0 <= x < vlen implies s.subrange(off + 3 + klen, off + 3 + klen + vlen)[x]
        == ser_value(m[k].1)[x] by {
        assert(s[off + 3 + klen + x] == piece[3 + klen + x]);
        assert(piece[3 + klen + x] == ser_value(m[k].1)[x]);
    }
    assert(s.subrange(off + 3 + klen, off + 3 + klen + vlen) =~= ser_value(m[k].1));
    let q = off + 3 + klen + vlen;
    if k + 1 < n {
        assert(ser_members_to(m, k + 2) == ser_members_to(m, k + 1) + seq![COMMA] + ser_member(
            m[k + 1],
        ));
        lemma_members_to_prefix(m, k + 2, n);
        assert(body.take(ser_members_to(m, k + 2).len() as int) == ser_members_to(m, k + 2));
        assert(body[p1] == ser_members_to(m, k + 2)[p1]);
        assert(body[p1] == COMMA);
        assert(s[q] == whole[q - i]);
        assert(whole[q - i] == body[p1]);
        assert(q < i + whole.len() - 1);
    } else {
        assert(p1 == body.len());
        assert(s[q] == whole[q - i]);
        assert(whole[q - i] == RBRACE);
        assert(q == i + whole.len() - 1);
    }
    assert(q < s.len());
}

} // verus!
