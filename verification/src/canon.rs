//! Canonical form of JSON trees: object members are recursively
//! brought into byte-lexicographic key order, duplicate keys keep
//! their last value, arrays keep their order, scalars are unchanged.
//! The entry hash of an audit event is computed over the canonical
//! form of its payload, so hashes do not depend on the member order a
//! producer happened to emit.
use vstd::prelude::*;

use vstd::multiset::Multiset;
use vstd::relations::sorted_by;

use crate::json::{Jv, JsonValue, members_view, str_content_ok, wf_json};
use crate::order::{
    bytes_eq, bytes_le, copy_bytes, lex_le, lex_lt, lemma_lex_lt_asymmetric,
    lemma_lex_lt_connected, lemma_lex_lt_transitive,
};

verus! {

/// One object member at the specification level.
pub type Member = (Seq<u8>, Jv);

/// Ordering of members by key.
pub open spec fn by_key() -> spec_fn(Member, Member) -> bool {
    |p: Member, q: Member| lex_le(p.0, q.0)
}

pub open spec fn has_key(s: Seq<Member>, k: Seq<u8>) -> bool {
    exists|i: int| 0 <= i < s.len() && #[trigger] s[i].0 == k
}

pub open spec fn key_distinct(s: Seq<Member>) -> bool {
    forall|i: int, j: int| 0 <= i < j < s.len() ==> #[trigger] s[i].0 != #[trigger] s[j].0
}

/// Members from position `i` on, with any member whose key recurs
/// later dropped: each key keeps its last value.
pub open spec fn dedup_from(m: Seq<Member>, i: int) -> Seq<Member>
    decreases m.len() - i,
{
    if i < 0 || i >= m.len() {
        Seq::empty()
    } else if has_key(m.skip(i + 1), m[i].0) {
        dedup_from(m, i + 1)
    } else {
        seq![m[i]] + dedup_from(m, i + 1)
    }
}

/// Inserts a member into a key-sorted list, before the first member
/// whose key is not smaller.
pub open spec fn insert_sorted(p: Member, s: Seq<Member>) -> Seq<Member>
    decreases s.len(),
{
    if s.len() == 0 {
        seq![p]
    } else if lex_le(p.0, s[0].0) {
        seq![p] + s
    } else {
        seq![s[0]] + insert_sorted(p, s.drop_first())
    }
}

/// Insertion sort of the members from position `i` on.
pub open spec fn sort_from(m: Seq<Member>, i: int) -> Seq<Member>
    decreases m.len() - i,
{
    if i < 0 || i >= m.len() {
        Seq::empty()
    } else {
        insert_sorted(m[i], sort_from(m, i + 1))
    }
}

/// The canonical form of a JSON tree.
pub open spec fn canon(v: Jv) -> Jv
    decreases v, 2int, 0int,
{
    match v {
        Jv::Null => v,
        Jv::Bool(_) => v,
        Jv::Num(_) => v,
        Jv::Str(_) => v,
        Jv::Arr(a) => Jv::Arr(
            Seq::new(
                a.len(),
                |i: int|
                    if 0 <= i < a.len() {
                        canon(a[i])
                    } else {
                        Jv::Null
                    },
            ),
        ),
        Jv::Obj(m) => Jv::Obj(sort_from(dedup_from(canon_members(m), 0), 0)),
    }
}

/// Members with every value brought into canonical form, keys and
/// order untouched.
pub open spec fn canon_members(m: Seq<Member>) -> Seq<Member>
    decreases m, 1int, 0int,
{
    Seq::new(
        m.len(),
        |i: int|
            if 0 <= i < m.len() {
                (m[i].0, canon(m[i].1))
            } else {
                (Seq::empty(), Jv::Null)
            },
    )
}

pub proof fn lemma_lex_le_transitive(a: Seq<u8>, b: Seq<u8>, c: Seq<u8>)
    requires
        lex_le(a, b),
        lex_le(b, c),
    ensures
        lex_le(a, c),
{
    if lex_lt(a, b) && lex_lt(b, c) {
        lemma_lex_lt_transitive(a, b, c);
    }
}

pub proof fn lemma_lex_le_antisymmetric(a: Seq<u8>, b: Seq<u8>)
    requires
        lex_le(a, b),
        lex_le(b, a),
    ensures
        a == b,
{
    if a != b {
        lemma_lex_lt_asymmetric(a, b);
    }
}

pub proof fn lemma_lex_le_total(a: Seq<u8>, b: Seq<u8>)
    ensures
        lex_le(a, b) || lex_le(b, a),
{
    lemma_lex_lt_connected(a, b);
}

/// Inserting into a key-sorted list yields a key-sorted list holding
/// exactly the old members plus the new one.
pub proof fn lemma_insert_sorted_ensures(p: Member, s: Seq<Member>)
    requires
        sorted_by(s, by_key()),
    ensures
        sorted_by(insert_sorted(p, s), by_key()),
        insert_sorted(p, s).to_multiset() == s.to_multiset().insert(p),
        insert_sorted(p, s).len() == s.len() + 1,
    decreases s.len(),
{
    broadcast use vstd::seq_lib::group_to_multiset_ensures;

    let r = insert_sorted(p, s);
    if s.len() == 0 {
        assert(r =~= seq![p]);
        assert(r.to_multiset() =~= s.to_multiset().insert(p));
    } else if lex_le(p.0, s[0].0) {
        assert(r =~= seq![p] + s);
        assert forall|i: int, j: int| 0 <= i < j < r.len() implies by_key()(r[i], r[j]) by {
            if i == 0 {
                assert(r[0] == p);
                assert(r[j] == s[j - 1]);
                if j > 1 {
                    assert(by_key()(s[0], s[j - 1]));
                    lemma_lex_le_transitive(p.0, s[0].0, s[j - 1].0);
                } else {
                    assert(lex_le(p.0, s[0].0));
                }
            } else {
                assert(r[i] == s[i - 1] && r[j] == s[j - 1]);
                assert(by_key()(s[i - 1], s[j - 1]));
            }
        }
        assert(sorted_by(r, by_key()));
        vstd::seq_lib::lemma_multiset_commutative(seq![p], s);
        assert(seq![p].to_multiset() =~= Multiset::empty().insert(p));
        assert(r.to_multiset() =~= s.to_multiset().insert(p));
    } else {
        let rest = s.drop_first();
        assert forall|i: int, j: int| 0 <= i < j < rest.len() implies by_key()(
            rest[i],
            rest[j],
        ) by {
            assert(rest[i] == s[i + 1] && rest[j] == s[j + 1]);
            assert(by_key()(s[i + 1], s[j + 1]));
        }
        lemma_insert_sorted_ensures(p, rest);
        let ri = insert_sorted(p, rest);
        assert(r =~= seq![s[0]] + ri);
        lemma_lex_le_total(p.0, s[0].0);
        assert(lex_le(s[0].0, p.0));
        assert forall|i: int, j: int| 0 <= i < j < r.len() implies by_key()(r[i], r[j]) by {
            if i == 0 {
                assert(r[j] == ri[j - 1]);
                assert(ri.to_multiset().contains(ri[j - 1]));
                assert(ri.to_multiset() == rest.to_multiset().insert(p));
                if ri[j - 1] == p {
                    assert(lex_le(s[0].0, p.0));
                } else {
                    assert(rest.to_multiset().contains(ri[j - 1]));
                    let x = choose|x: int|
                        0 <= x < rest.len() && #[trigger] rest[x] == ri[j - 1];
                    assert(rest[x] == s[x + 1]);
                    assert(by_key()(s[0], s[x + 1]));
                }
            } else {
                assert(r[i] == ri[i - 1] && r[j] == ri[j - 1]);
                assert(by_key()(ri[i - 1], ri[j - 1]));
            }
        }
        assert(sorted_by(r, by_key()));
        vstd::seq_lib::lemma_multiset_commutative(seq![s[0]], ri);
        assert(seq![s[0]].to_multiset() =~= Multiset::empty().insert(s[0]));
        assert(s =~= seq![s[0]] + rest);
        vstd::seq_lib::lemma_multiset_commutative(seq![s[0]], rest);
        assert(r.to_multiset() =~= s.to_multiset().insert(p));
    }
}

/// A member list after insertion holds a key exactly when it is the
/// inserted key or a key of the old list.
pub proof fn lemma_insert_sorted_has_key(p: Member, s: Seq<Member>, k: Seq<u8>)
    ensures
        has_key(insert_sorted(p, s), k) <==> (k == p.0 || has_key(s, k)),
    decreases s.len(),
{
    let r = insert_sorted(p, s);
    if s.len() == 0 {
        assert(r =~= seq![p]);
        if k == p.0 {
            assert(r[0].0 == k);
        }
        if has_key(r, k) {
            let i = choose|i: int| 0 <= i < r.len() && #[trigger] r[i].0 == k;
            assert(i == 0);
        }
    } else if lex_le(p.0, s[0].0) {
        assert(r =~= seq![p] + s);
        if k == p.0 {
            assert(r[0].0 == k);
        }
        if has_key(s, k) {
            let i = choose|i: int| 0 <= i < s.len() && #[trigger] s[i].0 == k;
            assert(r[i + 1].0 == k);
        }
        if has_key(r, k) {
            let i = choose|i: int| 0 <= i < r.len() && #[trigger] r[i].0 == k;
            if i == 0 {
                assert(k == p.0);
            } else {
                assert(s[i - 1].0 == k);
            }
        }
    } else {
        let rest = s.drop_first();
        lemma_insert_sorted_has_key(p, rest, k);
        let ri = insert_sorted(p, rest);
        assert(r =~= seq![s[0]] + ri);
        if k == p.0 {
            let i = choose|i: int| 0 <= i < ri.len() && #[trigger] ri[i].0 == k;
            assert(r[i + 1].0 == k);
        }
        if has_key(s, k) {
            let i = choose|i: int| 0 <= i < s.len() && #[trigger] s[i].0 == k;
            if i == 0 {
                assert(r[0].0 == k);
            } else {
                assert(rest[i - 1].0 == k);
                assert(has_key(rest, k));
                let x = choose|x: int| 0 <= x < ri.len() && #[trigger] ri[x].0 == k;
                assert(r[x + 1].0 == k);
            }
        }
        if has_key(r, k) {
            let i = choose|i: int| 0 <= i < r.len() && #[trigger] r[i].0 == k;
            if i == 0 {
                assert(s[0].0 == k);
            } else {
                assert(ri[i - 1].0 == k);
                assert(has_key(ri, k));
                if k != p.0 {
                    assert(has_key(rest, k));
                    let x = choose|x: int| 0 <= x < rest.len() && #[trigger] rest[x].0 == k;
                    assert(s[x + 1].0 == k);
                }
            }
        }
    }
}

/// Insertion sort of a member list is key-sorted and holds exactly
/// the members of the input suffix.
pub proof fn lemma_sort_from_ensures(m: Seq<Member>, i: int)
    requires
        0 <= i <= m.len(),
    ensures
        sorted_by(sort_from(m, i), by_key()),
        sort_from(m, i).to_multiset() == m.skip(i).to_multiset(),
        sort_from(m, i).len() == m.len() - i,
    decreases m.len() - i,
{
    broadcast use vstd::seq_lib::group_to_multiset_ensures;

    if i == m.len() {
        assert(m.skip(i) =~= Seq::<Member>::empty());
        assert(sort_from(m, i).to_multiset() =~= m.skip(i).to_multiset());
    } else {
        lemma_sort_from_ensures(m, i + 1);
        lemma_insert_sorted_ensures(m[i], sort_from(m, i + 1));
        assert(m.skip(i) =~= seq![m[i]] + m.skip(i + 1));
        vstd::seq_lib::lemma_multiset_commutative(seq![m[i]], m.skip(i + 1));
        assert(seq![m[i]].to_multiset() =~= Multiset::empty().insert(m[i]));
        assert(sort_from(m, i).to_multiset() =~= m.skip(i).to_multiset());
    }
}

/// A sorted member list holds a key exactly when the input suffix
/// held it.
pub proof fn lemma_sort_from_has_key(m: Seq<Member>, i: int, k: Seq<u8>)
    requires
        0 <= i <= m.len(),
    ensures
        has_key(sort_from(m, i), k) <==> has_key(m.skip(i), k),
    decreases m.len() - i,
{
    if i == m.len() {
        assert(m.skip(i) =~= Seq::<Member>::empty());
    } else {
        lemma_sort_from_has_key(m, i + 1, k);
        lemma_insert_sorted_has_key(m[i], sort_from(m, i + 1), k);
        if k == m[i].0 {
            assert(m.skip(i)[0].0 == k);
        }
        if has_key(m.skip(i + 1), k) {
            let x = choose|x: int| 0 <= x < m.skip(i + 1).len() && #[trigger] m.skip(i + 1)[x].0
                == k;
            assert(m.skip(i)[x + 1].0 == k);
        }
        if has_key(m.skip(i), k) && k != m[i].0 {
            let x = choose|x: int| 0 <= x < m.skip(i).len() && #[trigger] m.skip(i)[x].0 == k;
            assert(x > 0);
            assert(m.skip(i + 1)[x - 1].0 == k);
        }
    }
}

/// Deduplicated members have pairwise distinct keys, exactly the keys
/// of the input suffix, and come from the input suffix.
pub proof fn lemma_dedup_from_ensures(m: Seq<Member>, i: int)
    requires
        0 <= i <= m.len(),
    ensures
        key_distinct(dedup_from(m, i)),
        forall|k: Seq<u8>| has_key(dedup_from(m, i), k) <==> has_key(m.skip(i), k),
        forall|j: int|
            0 <= j < dedup_from(m, i).len() ==> m.skip(i).contains(#[trigger] dedup_from(m, i)[j]),
    decreases m.len() - i,
{
    let d = dedup_from(m, i);
    if i == m.len() {
        assert(m.skip(i) =~= Seq::<Member>::empty());
    } else {
        lemma_dedup_from_ensures(m, i + 1);
        let d1 = dedup_from(m, i + 1);
        if has_key(m.skip(i + 1), m[i].0) {
            assert(d == d1);
            assert forall|k: Seq<u8>| has_key(d, k) <==> has_key(m.skip(i), k) by {
                if has_key(m.skip(i), k) {
                    let x = choose|x: int|
                        0 <= x < m.skip(i).len() && #[trigger] m.skip(i)[x].0 == k;
                    if x == 0 {
                        assert(k == m[i].0);
                        assert(has_key(m.skip(i + 1), k));
                    } else {
                        assert(m.skip(i + 1)[x - 1].0 == k);
                    }
                }
                if has_key(m.skip(i + 1), k) {
                    let x = choose|x: int| 0 <= x < m.skip(i + 1).len() && #[trigger] m.skip(
                        i + 1,
                    )[x].0 == k;
                    assert(m.skip(i)[x + 1].0 == k);
                }
            }
            assert forall|j: int| 0 <= j < d.len() implies m.skip(i).contains(#[trigger] d[j]) by {
                assert(m.skip(i + 1).contains(d[j]));
                let x = choose|x: int|
                    0 <= x < m.skip(i + 1).len() && #[trigger] m.skip(i + 1)[x] == d[j];
                assert(m.skip(i)[x + 1] == d[j]);
            }
        } else {
            assert(d == seq![m[i]] + d1);
            assert forall|a: int, b: int| 0 <= a < b < d.len() implies #[trigger] d[a].0
                != #[trigger] d[b].0 by {
                if a == 0 {
                    assert(d[b] == d1[b - 1]);
                    assert(has_key(d1, d1[b - 1].0));
                    assert(has_key(m.skip(i + 1), d1[b - 1].0));
                } else {
                    assert(d[a] == d1[a - 1] && d[b] == d1[b - 1]);
                }
            }
            assert forall|k: Seq<u8>| has_key(d, k) <==> has_key(m.skip(i), k) by {
                if has_key(d, k) {
                    let x = choose|x: int| 0 <= x < d.len() && #[trigger] d[x].0 == k;
                    if x == 0 {
                        assert(m.skip(i)[0].0 == k);
                    } else {
                        assert(d1[x - 1].0 == k);
                        assert(has_key(d1, k));
                        let y = choose|y: int| 0 <= y < m.skip(i + 1).len() && #[trigger] m.skip(
                            i + 1,
                        )[y].0 == k;
                        assert(m.skip(i)[y + 1].0 == k);
                    }
                }
                if has_key(m.skip(i), k) {
                    let x = choose|x: int|
                        0 <= x < m.skip(i).len() && #[trigger] m.skip(i)[x].0 == k;
                    if x == 0 {
                        assert(d[0].0 == k);
                    } else {
                        assert(m.skip(i + 1)[x - 1].0 == k);
                        assert(has_key(d1, k));
                        let y = choose|y: int| 0 <= y < d1.len() && #[trigger] d1[y].0 == k;
                        assert(d[y + 1].0 == k);
                    }
                }
            }
            assert forall|j: int| 0 <= j < d.len() implies m.skip(i).contains(#[trigger] d[j]) by {
                if j == 0 {
                    assert(m.skip(i)[0] == d[0]);
                } else {
                    assert(m.skip(i + 1).contains(d1[j - 1]));
                    let x = choose|x: int|
                        0 <= x < m.skip(i + 1).len() && #[trigger] m.skip(i + 1)[x] == d[j];
                    assert(m.skip(i)[x + 1] == d[j]);
                }
            }
        }
    }
}

/// Two key-sorted member lists with the same members and distinct
/// keys are identical.
pub proof fn lemma_sorted_unique_distinct(x: Seq<Member>, y: Seq<Member>)
    requires
        sorted_by(x, by_key()),
        sorted_by(y, by_key()),
        key_distinct(x),
        x.to_multiset() == y.to_multiset(),
    ensures
        x == y,
    decreases x.len(),
{
    broadcast use vstd::seq_lib::group_to_multiset_ensures;

    if x.len() == 0 {
        assert(y.to_multiset().len() == 0);
        assert(x =~= y);
    } else {
        assert(x.to_multiset().contains(x[0]));
        assert(y.to_multiset().contains(x[0]));
        assert(x.to_multiset().contains(y[0]));
        let iy = choose|i: int| 0 <= i < y.len() && #[trigger] y[i] == x[0];
        let ix = choose|i: int| 0 <= i < x.len() && #[trigger] x[i] == y[0];
        if iy > 0 {
            assert(by_key()(y[0], y[iy]));
        }
        if ix > 0 {
            assert(by_key()(x[0], x[ix]));
        }
        assert(lex_le(y[0].0, x[0].0));
        assert(lex_le(x[0].0, y[0].0));
        lemma_lex_le_antisymmetric(x[0].0, y[0].0);
        assert(x[ix].0 == x[0].0);
        assert(ix == 0);
        assert(x[0] == y[0]);
        let xr = x.drop_first();
        let yr = y.drop_first();
        assert(x.remove(0) =~= xr);
        assert(y.remove(0) =~= yr);
        assert(x.remove(0).to_multiset() == x.to_multiset().remove(x[0]));
        assert(y.remove(0).to_multiset() == y.to_multiset().remove(y[0]));
        assert forall|i: int, j: int| 0 <= i < j < xr.len() implies by_key()(xr[i], xr[j]) by {
            assert(xr[i] == x[i + 1] && xr[j] == x[j + 1]);
            assert(by_key()(x[i + 1], x[j + 1]));
        }
        assert forall|i: int, j: int| 0 <= i < j < yr.len() implies by_key()(yr[i], yr[j]) by {
            assert(yr[i] == y[i + 1] && yr[j] == y[j + 1]);
            assert(by_key()(y[i + 1], y[j + 1]));
        }
        assert forall|i: int, j: int| 0 <= i < j < xr.len() implies #[trigger] xr[i].0
            != #[trigger] xr[j].0 by {
            assert(xr[i] == x[i + 1] && xr[j] == x[j + 1]);
        }
        lemma_sorted_unique_distinct(xr, yr);
        assert(x =~= seq![x[0]] + xr);
        assert(y =~= seq![y[0]] + yr);
    }
}


/// Inserting a fresh key into a key-distinct list keeps keys
/// distinct.
pub proof fn lemma_insert_sorted_distinct(p: Member, s: Seq<Member>)
    requires
        key_distinct(s),
        !has_key(s, p.0),
    ensures
        key_distinct(insert_sorted(p, s)),
    decreases s.len(),
{
    let r = insert_sorted(p, s);
    if s.len() == 0 {
        assert(r =~= seq![p]);
    } else if lex_le(p.0, s[0].0) {
        assert(r =~= seq![p] + s);
        assert forall|i: int, j: int| 0 <= i < j < r.len() implies #[trigger] r[i].0
            != #[trigger] r[j].0 by {
            if i == 0 {
                assert(r[j] == s[j - 1]);
                if r[0].0 == s[j - 1].0 {
                    assert(s[j - 1].0 == p.0);
                    assert(has_key(s, p.0));
                }
            } else {
                assert(r[i] == s[i - 1] && r[j] == s[j - 1]);
            }
        }
    } else {
        let rest = s.drop_first();
        assert forall|i: int, j: int| 0 <= i < j < rest.len() implies #[trigger] rest[i].0
            != #[trigger] rest[j].0 by {
            assert(rest[i] == s[i + 1] && rest[j] == s[j + 1]);
        }
        if has_key(rest, p.0) {
            let x = choose|x: int| 0 <= x < rest.len() && #[trigger] rest[x].0 == p.0;
            assert(s[x + 1].0 == p.0);
            assert(false);
        }
        lemma_insert_sorted_distinct(p, rest);
        let ri = insert_sorted(p, rest);
        assert(r =~= seq![s[0]] + ri);
        assert forall|i: int, j: int| 0 <= i < j < r.len() implies #[trigger] r[i].0
            != #[trigger] r[j].0 by {
            if i == 0 {
                assert(r[j] == ri[j - 1]);
                if s[0].0 == ri[j - 1].0 {
                    assert(has_key(ri, s[0].0));
                    lemma_insert_sorted_has_key(p, rest, s[0].0);
                    if s[0].0 == p.0 {
                        assert(has_key(s, p.0));
                    } else {
                        assert(has_key(rest, s[0].0));
                        let x = choose|x: int|
                            0 <= x < rest.len() && #[trigger] rest[x].0 == s[0].0;
                        assert(s[x + 1].0 == s[0].0);
                        assert(false);
                    }
                }
            } else {
                assert(r[i] == ri[i - 1] && r[j] == ri[j - 1]);
            }
        }
    }
}

/// Sorting a suffix with distinct keys keeps keys distinct.
pub proof fn lemma_sort_from_distinct(m: Seq<Member>, i: int)
    requires
        0 <= i <= m.len(),
        key_distinct(m.skip(i)),
    ensures
        key_distinct(sort_from(m, i)),
    decreases m.len() - i,
{
    if i < m.len() {
        assert forall|a: int, b: int| 0 <= a < b < m.skip(i + 1).len() implies #[trigger] m.skip(
            i + 1,
        )[a].0 != #[trigger] m.skip(i + 1)[b].0 by {
            assert(m.skip(i + 1)[a] == m.skip(i)[a + 1] && m.skip(i + 1)[b] == m.skip(i)[b + 1]);
        }
        lemma_sort_from_distinct(m, i + 1);
        lemma_sort_from_has_key(m, i + 1, m[i].0);
        if has_key(m.skip(i + 1), m[i].0) {
            let x = choose|x: int| 0 <= x < m.skip(i + 1).len() && #[trigger] m.skip(i + 1)[x].0
                == m[i].0;
            assert(m.skip(i)[x + 1].0 == m.skip(i)[0].0);
            assert(false);
        }
        lemma_insert_sorted_distinct(m[i], sort_from(m, i + 1));
    }
}

/// A key-sorted suffix sorts to itself.
pub proof fn lemma_sort_from_sorted_id(s: Seq<Member>, i: int)
    requires
        0 <= i <= s.len(),
        sorted_by(s, by_key()),
    ensures
        sort_from(s, i) == s.skip(i),
    decreases s.len() - i,
{
    if i == s.len() {
        assert(sort_from(s, i) =~= s.skip(i));
    } else {
        lemma_sort_from_sorted_id(s, i + 1);
        let tail = s.skip(i + 1);
        if tail.len() == 0 {
            assert(insert_sorted(s[i], tail) =~= seq![s[i]]);
            assert(sort_from(s, i) =~= s.skip(i));
        } else {
            assert(tail[0] == s[i + 1]);
            assert(by_key()(s[i], s[i + 1]));
            assert(insert_sorted(s[i], tail) == seq![s[i]] + tail);
            assert(sort_from(s, i) =~= s.skip(i));
        }
    }
}

/// A key-distinct suffix deduplicates to itself.
pub proof fn lemma_dedup_from_distinct_id(m: Seq<Member>, i: int)
    requires
        0 <= i <= m.len(),
        key_distinct(m.skip(i)),
    ensures
        dedup_from(m, i) == m.skip(i),
    decreases m.len() - i,
{
    if i == m.len() {
        assert(dedup_from(m, i) =~= m.skip(i));
    } else {
        if has_key(m.skip(i + 1), m[i].0) {
            let x = choose|x: int| 0 <= x < m.skip(i + 1).len() && #[trigger] m.skip(i + 1)[x].0
                == m[i].0;
            assert(m.skip(i)[x + 1].0 == m.skip(i)[0].0);
            assert(false);
        }
        assert forall|a: int, b: int| 0 <= a < b < m.skip(i + 1).len() implies #[trigger] m.skip(
            i + 1,
        )[a].0 != #[trigger] m.skip(i + 1)[b].0 by {
            assert(m.skip(i + 1)[a] == m.skip(i)[a + 1] && m.skip(i + 1)[b] == m.skip(i)[b + 1]);
        }
        lemma_dedup_from_distinct_id(m, i + 1);
        assert(dedup_from(m, i) =~= m.skip(i));
    }
}


/// Canonicalization preserves well-formedness: every member of the
/// canonical form comes from the original tree.
pub proof fn lemma_canon_wf(v: Jv)
    requires
        wf_json(v),
    ensures
        wf_json(canon(v)),
    decreases v,
{
    broadcast use vstd::seq_lib::group_to_multiset_ensures;

    match v {
        Jv::Null => {},
        Jv::Bool(_) => {},
        Jv::Num(_) => {},
        Jv::Str(_) => {},
        Jv::Arr(a) => {
            let ca = canon(v)->Arr_0;
            crate::json::lemma_wf_elems_index(a);
            assert forall|i: int| 0 <= i < ca.len() implies wf_json(#[trigger] ca[i]) by {
                assert(ca[i] == canon(a[i]));
                lemma_canon_wf(a[i]);
            }
            crate::json::lemma_wf_elems_build(ca);
        },
        Jv::Obj(m) => {
            let cm = canon_members(m);
            let d = dedup_from(cm, 0);
            let s = sort_from(d, 0);
            crate::json::lemma_wf_members_index(m);
            assert forall|i: int| 0 <= i < cm.len() implies str_content_ok(
                #[trigger] cm[i].0,
            ) && wf_json(cm[i].1) by {
                assert(cm[i] == (m[i].0, canon(m[i].1)));
                lemma_canon_wf(m[i].1);
            }
            lemma_dedup_from_ensures(cm, 0);
            lemma_sort_from_ensures(d, 0);
            assert forall|j: int| 0 <= j < s.len() implies str_content_ok(
                #[trigger] s[j].0,
            ) && wf_json(s[j].1) by {
                assert(s.contains(s[j]));
                assert(s.to_multiset().contains(s[j]));
                assert(d.skip(0) =~= d);
                assert(d.to_multiset().contains(s[j]));
                assert(d.contains(s[j]));
                let x = choose|x: int| 0 <= x < d.len() && #[trigger] d[x] == s[j];
                assert(cm.skip(0).contains(d[x]));
                assert(cm.skip(0) =~= cm);
                let y = choose|y: int| 0 <= y < cm.len() && #[trigger] cm[y] == s[j];
                assert(str_content_ok(cm[y].0) && wf_json(cm[y].1));
            }
            assert forall|i: int| 0 <= i < s.len() implies str_content_ok(
                #[trigger] s[i].0,
            ) by {
                assert(str_content_ok(s[i].0) && wf_json(s[i].1));
            }
            assert forall|i: int| 0 <= i < s.len() implies wf_json(#[trigger] s[i].1) by {
                assert(str_content_ok(s[i].0) && wf_json(s[i].1));
            }
            crate::json::lemma_wf_members_build(s);
        },
    }
}

/// Canonical form is a fixed point: canonicalizing twice gives the
/// same tree as canonicalizing once.
pub proof fn lemma_canon_idempotent(v: Jv)
    ensures
        canon(canon(v)) == canon(v),
    decreases v,
{
    broadcast use vstd::seq_lib::group_to_multiset_ensures;

    match v {
        Jv::Null => {},
        Jv::Bool(_) => {},
        Jv::Num(_) => {},
        Jv::Str(_) => {},
        Jv::Arr(a) => {
            let ca = canon(v)->Arr_0;
            assert forall|i: int| 0 <= i < ca.len() implies canon(#[trigger] ca[i]) == ca[i] by {
                assert(ca[i] == canon(a[i]));
                lemma_canon_idempotent(a[i]);
            }
            assert(canon(canon(v))->Arr_0 =~= ca);
            assert(canon(canon(v)) =~= canon(v));
        },
        Jv::Obj(m) => {
            let cm = canon_members(m);
            let d = dedup_from(cm, 0);
            let s = sort_from(d, 0);
            lemma_dedup_from_ensures(cm, 0);
            lemma_sort_from_ensures(d, 0);
            assert(d.skip(0) =~= d);
            lemma_sort_from_distinct(d, 0);
            assert(key_distinct(s));
            assert forall|i: int| 0 <= i < s.len() implies canon_members(s)[i] == #[trigger] s[i] by {
                assert(s.contains(s[i]));
                assert(s.to_multiset().contains(s[i]));
                assert(d.to_multiset().contains(s[i]));
                assert(d.contains(s[i]));
                let x = choose|x: int| 0 <= x < d.len() && #[trigger] d[x] == s[i];
                assert(cm.skip(0).contains(d[x]));
                assert(cm.skip(0) =~= cm);
                let y = choose|y: int| 0 <= y < cm.len() && #[trigger] cm[y] == s[i];
                assert(cm[y] == (m[y].0, canon(m[y].1)));
                lemma_canon_idempotent(m[y].1);
                assert(canon(s[i].1) == s[i].1);
                assert(canon_members(s)[i] == (s[i].0, canon(s[i].1)));
            }
            assert(canon_members(s) =~= s);
            assert(s.skip(0) =~= s);
            lemma_dedup_from_distinct_id(s, 0);
            lemma_sort_from_sorted_id(s, 0);
            assert(canon(canon(v)) =~= canon(v));
        },
    }
}

/// The canonical form of an object does not depend on the order in
/// which its members were written: member lists with distinct keys
/// that hold the same members up to canonicalization of their values
/// canonicalize to the same object.
pub proof fn lemma_canon_obj_key_order(m1: Seq<Member>, m2: Seq<Member>)
    requires
        canon_members(m1).to_multiset() == canon_members(m2).to_multiset(),
        key_distinct(m1),
        key_distinct(m2),
    ensures
        canon(Jv::Obj(m1)) == canon(Jv::Obj(m2)),
{
    broadcast use vstd::seq_lib::group_to_multiset_ensures;

    let cm1 = canon_members(m1);
    let cm2 = canon_members(m2);
    assert forall|a: int, b: int| 0 <= a < b < cm1.len() implies #[trigger] cm1[a].0
        != #[trigger] cm1[b].0 by {
        assert(cm1[a].0 == m1[a].0 && cm1[b].0 == m1[b].0);
    }
    assert forall|a: int, b: int| 0 <= a < b < cm2.len() implies #[trigger] cm2[a].0
        != #[trigger] cm2[b].0 by {
        assert(cm2[a].0 == m2[a].0 && cm2[b].0 == m2[b].0);
    }
    assert(cm1.skip(0) =~= cm1);
    assert(cm2.skip(0) =~= cm2);
    lemma_dedup_from_distinct_id(cm1, 0);
    lemma_dedup_from_distinct_id(cm2, 0);
    lemma_sort_from_ensures(cm1, 0);
    lemma_sort_from_ensures(cm2, 0);
    lemma_sort_from_distinct(cm1, 0);
    lemma_sorted_unique_distinct(sort_from(cm1, 0), sort_from(cm2, 0));
    assert(canon(Jv::Obj(m1)) == Jv::Obj(sort_from(dedup_from(cm1, 0), 0)));
    assert(dedup_from(cm1, 0) == cm1);
    assert(dedup_from(cm2, 0) == cm2);
}


/// Recursive insertion is the same as splicing at the first position
/// whose key is not smaller.
pub proof fn lemma_insert_sorted_at(p: Member, s: Seq<Member>, idx: int)
    requires
        0 <= idx <= s.len(),
        forall|j: int| 0 <= j < idx ==> !lex_le(p.0, #[trigger] s[j].0),
        idx < s.len() ==> lex_le(p.0, s[idx].0),
    ensures
        insert_sorted(p, s) == s.take(idx) + seq![p] + s.skip(idx),
    decreases idx,
{
    if idx == 0 {
        if s.len() == 0 {
            assert(insert_sorted(p, s) =~= s.take(0) + seq![p] + s.skip(0));
        } else {
            assert(insert_sorted(p, s) == seq![p] + s);
            assert(insert_sorted(p, s) =~= s.take(0) + seq![p] + s.skip(0));
        }
    } else {
        assert(!lex_le(p.0, s[0].0));
        let rest = s.drop_first();
        assert forall|j: int| 0 <= j < idx - 1 implies !lex_le(p.0, #[trigger] rest[j].0) by {
            assert(rest[j] == s[j + 1]);
        }
        assert(idx - 1 < rest.len() ==> rest[idx - 1] == s[idx]);
        lemma_insert_sorted_at(p, rest, idx - 1);
        assert(insert_sorted(p, s) == seq![s[0]] + insert_sorted(p, rest));
        assert(insert_sorted(p, s) =~= s.take(idx) + seq![p] + s.skip(idx));
    }
}

/// True when some member at or after position `lo` has key `key`.
#[verifier::loop_isolation(false)]
fn has_key_scan(m: &Vec<(Vec<u8>, JsonValue)>, lo: usize, key: &Vec<u8>) -> (r: bool)
    requires
        lo <= m@.len(),
    ensures
        r == has_key(members_view(m@).skip(lo as int), key@),
{
    let ghost mv = members_view(m@);
    let mut j = lo;
    loop
        invariant
            lo <= j <= m@.len(),
            forall|x: int| lo <= x < j ==> #[trigger] mv[x].0 != key@,
        decreases m@.len() - j,
    {
        if j >= m.len() {
            proof {
                if has_key(mv.skip(lo as int), key@) {
                    let x = choose|x: int| 0 <= x < mv.skip(lo as int).len() && #[trigger] mv.skip(
                        lo as int,
                    )[x].0 == key@;
                    assert(mv[lo + x].0 == key@);
                }
            }
            return false;
        }
        if bytes_eq(&m[j].0, key) {
            proof {
                assert(mv[j as int].0 == key@);
                assert(mv.skip(lo as int)[j - lo].0 == key@);
            }
            return true;
        }
        j = j + 1;
    }
}

/// Inserts a member into a key-sorted vector, keeping it sorted.
#[verifier::loop_isolation(false)]
fn insert_member(out: &mut Vec<(Vec<u8>, JsonValue)>, p: (Vec<u8>, JsonValue))
    ensures
        members_view(final(out)@) == insert_sorted(
            (p.0@, p.1.deep_view()),
            members_view(old(out)@),
        ),
{
    let ghost sv = members_view(out@);
    let ghost pv = (p.0@, p.1.deep_view());
    let mut idx: usize = 0;
    loop
        invariant
            idx <= out@.len(),
            out@ == old(out)@,
            forall|j: int| 0 <= j < idx ==> !lex_le(pv.0, #[trigger] sv[j].0),
        decreases out@.len() - idx,
    {
        if idx >= out.len() {
            break;
        }
        if bytes_le(&p.0, &out[idx].0) {
            proof {
                assert(sv[idx as int].0 == out@[idx as int].0@);
            }
            break;
        }
        proof {
            assert(sv[idx as int].0 == out@[idx as int].0@);
        }
        idx = idx + 1;
    }
    proof {
        lemma_insert_sorted_at(pv, sv, idx as int);
    }
    out.insert(idx, p);
    proof {
        assert(members_view(out@) =~= sv.take(idx as int) + seq![pv] + sv.skip(idx as int));
    }
}

/// The canonical form of a value: object keys recursively sorted,
/// duplicate keys keeping their last value, arrays and scalars
/// unchanged.
#[verifier::loop_isolation(false)]
pub fn canonicalize_value(v: &JsonValue) -> (r: JsonValue)
    ensures
        r@ == canon(v@),
    decreases v,
{
    match v {
        JsonValue::Null => JsonValue::Null,
        JsonValue::Bool(b) => JsonValue::Bool(*b),
        JsonValue::Num(t) => JsonValue::Num(copy_bytes(t)),
        JsonValue::Str(s) => JsonValue::Str(copy_bytes(s)),
        JsonValue::Arr(a) => {
            let ghost av = v@->Arr_0;
            let mut out: Vec<JsonValue> = Vec::new();
            let mut i: usize = 0;
            while i < a.len()
                invariant
                    i <= a@.len(),
                    out@.len() == i,
                    forall|j: int| 0 <= j < i ==> #[trigger] out@[j].deep_view() == canon(av[j]),
                decreases a@.len() - i,
            {
                proof {
                    assert(decreases_to!(*a => (*a)[i as int]));
                    assert(av[i as int] == a@[i as int].deep_view());
                }
                let c = canonicalize_value(&a[i]);
                out.push(c);
                i = i + 1;
            }
            let r = JsonValue::Arr(out);
            proof {
                assert forall|j: int| 0 <= j < av.len() implies r@->Arr_0[j] == canon(
                    v@,
                )->Arr_0[j] by {
                    assert(r@->Arr_0[j] == out@[j].deep_view());
                    assert(canon(v@)->Arr_0[j] == canon(av[j]));
                }
                assert(r@->Arr_0 =~= canon(v@)->Arr_0);
                assert(r@ =~= canon(v@));
            }
            r
        },
        JsonValue::Obj(m) => {
            let ghost mv = v@->Obj_0;
            let ghost cmv = canon_members(mv);
            // keep each member whose key does not recur later, with a
            // canonical value
            let mut d: Vec<(Vec<u8>, JsonValue)> = Vec::new();
            let mut i: usize = 0;
            proof {
                assert(members_view(d@) + dedup_from(cmv, 0) =~= dedup_from(cmv, 0));
            }
            while i < m.len()
                invariant
                    i <= m@.len(),
                    mv =~= members_view(m@),
                    cmv.len() == m@.len(),
                    forall|j: int| 0 <= j < m@.len() ==> (#[trigger] cmv[j]) == (
                        m@[j].0@,
                        canon(m@[j].1.deep_view()),
                    ),
                    dedup_from(cmv, 0) == members_view(d@) + dedup_from(cmv, i as int),
                decreases m@.len() - i,
            {
                let ghost dv0 = members_view(d@);
                let kept = !has_key_scan(m, i + 1, &m[i].0);
                proof {
                    // same keys at every position, so the key test over the
                    // original members decides the test over the canonical ones
                    if has_key(mv.skip(i + 1), cmv[i as int].0) {
                        let x = choose|x: int| 0 <= x < mv.skip(i + 1).len() && #[trigger] mv.skip(
                            i + 1,
                        )[x].0 == cmv[i as int].0;
                        assert(cmv.skip(i + 1)[x].0 == cmv[x + i + 1].0);
                        assert(cmv[x + i + 1].0 == mv[x + i + 1].0);
                        assert(has_key(cmv.skip(i + 1), cmv[i as int].0));
                    }
                    if has_key(cmv.skip(i + 1), cmv[i as int].0) {
                        let x = choose|x: int| 0 <= x < cmv.skip(i + 1).len()
                            && #[trigger] cmv.skip(i + 1)[x].0 == cmv[i as int].0;
                        assert(cmv[x + i + 1].0 == mv[x + i + 1].0);
                        assert(mv.skip(i + 1)[x].0 == cmv[i as int].0);
                        assert(has_key(mv.skip(i + 1), cmv[i as int].0));
                    }
                    assert(mv[i as int].0 == m@[i as int].0@);
                }
                if kept {
                    proof {
                        assert(decreases_to!(*m => (*m)[i as int]));
                    }
                    let ck = copy_bytes(&m[i].0);
                    let cv = canonicalize_value(&m[i].1);
                    d.push((ck, cv));
                    proof {
                        assert(members_view(d@) =~= dv0.push(cmv[i as int]));
                        assert(dedup_from(cmv, i as int) == seq![cmv[i as int]] + dedup_from(
                            cmv,
                            i + 1,
                        ));
                        assert(members_view(d@) + dedup_from(cmv, i + 1) =~= dv0 + dedup_from(
                            cmv,
                            i as int,
                        ));
                    }
                } else {
                    proof {
                        assert(dedup_from(cmv, i as int) == dedup_from(cmv, i + 1));
                    }
                }
                i = i + 1;
            }
            proof {
                assert(dedup_from(cmv, m@.len() as int) =~= Seq::<Member>::empty());
                assert(members_view(d@) + dedup_from(cmv, m@.len() as int) =~= members_view(d@));
                assert(members_view(d@) == dedup_from(cmv, 0));
            }
            let ghost dv = members_view(d@);
            // insertion sort, taking members from the back
            let mut sorted: Vec<(Vec<u8>, JsonValue)> = Vec::new();
            proof {
                assert(members_view(sorted@) =~= sort_from(dv, d@.len() as int));
            }
            loop
                invariant
                    d@.len() <= dv.len(),
                    forall|j: int| 0 <= j < d@.len() ==> #[trigger] members_view(d@)[j] == dv[j],
                    members_view(sorted@) == sort_from(dv, d@.len() as int),
                decreases d@.len(),
            {
                let ghost d0 = d@;
                let p = match d.pop() {
                    Some(p) => p,
                    None => {
                        break;
                    },
                };
                let ghost n = d@.len() as int;
                proof {
                    assert(d0 =~= d@.push(p));
                    assert(members_view(d0)[n] == dv[n]);
                    assert(members_view(d0)[n] == (p.0@, p.1.deep_view()));
                    assert forall|j: int| 0 <= j < n implies #[trigger] members_view(d@)[j]
                        == dv[j] by {
                        assert(members_view(d0)[j] == dv[j]);
                        assert(members_view(d@)[j] == members_view(d0)[j]);
                    }
                }
                insert_member(&mut sorted, p);
                proof {
                    assert(members_view(sorted@) == insert_sorted(dv[n], sort_from(dv, n + 1)));
                    assert(members_view(sorted@) == sort_from(dv, n));
                }
            }
            let r = JsonValue::Obj(sorted);
            proof {
                assert(members_view(sorted@) == sort_from(dv, 0));
                assert(r@->Obj_0 =~= members_view(sorted@));
                assert(r@ =~= canon(v@));
            }
            r
        },
    }
}


/// A fresh deep copy of a value.
#[verifier::loop_isolation(false)]
pub fn copy_value(v: &JsonValue) -> (r: JsonValue)
    ensures
        r@ == v@,
    decreases v,
{
    match v {
        JsonValue::Null => JsonValue::Null,
        JsonValue::Bool(b) => JsonValue::Bool(*b),
        JsonValue::Num(t) => JsonValue::Num(copy_bytes(t)),
        JsonValue::Str(s) => JsonValue::Str(copy_bytes(s)),
        JsonValue::Arr(a) => {
            let mut out: Vec<JsonValue> = Vec::new();
            let mut i: usize = 0;
            while i < a.len()
                invariant
                    i <= a@.len(),
                    out@.len() == i,
                    forall|j: int| 0 <= j < i ==> #[trigger] out@[j].deep_view()
                        == a@[j].deep_view(),
                decreases a@.len() - i,
            {
                proof {
                    assert(decreases_to!(*a => (*a)[i as int]));
                }
                let c = copy_value(&a[i]);
                out.push(c);
                i = i + 1;
            }
            let r = JsonValue::Arr(out);
            proof {
                assert forall|j: int| 0 <= j < a@.len() implies r@->Arr_0[j] == v@->Arr_0[j] by {
                    assert(r@->Arr_0[j] == out@[j].deep_view());
                    assert(v@->Arr_0[j] == a@[j].deep_view());
                }
                assert(r@->Arr_0 =~= v@->Arr_0);
                assert(r@ =~= v@);
            }
            r
        },
        JsonValue::Obj(m) => {
            let mut out: Vec<(Vec<u8>, JsonValue)> = Vec::new();
            let mut i: usize = 0;
            while i < m.len()
                invariant
                    i <= m@.len(),
                    out@.len() == i,
                    forall|j: int| 0 <= j < i ==> #[trigger] members_view(out@)[j]
                        == members_view(m@)[j],
                decreases m@.len() - i,
            {
                proof {
                    assert(decreases_to!(*m => (*m)[i as int]));
                }
                let ck = copy_bytes(&m[i].0);
                let cv = copy_value(&m[i].1);
                let ghost before = out@;
                out.push((ck, cv));
                proof {
                    assert forall|j: int| 0 <= j < i + 1 implies #[trigger] members_view(out@)[j]
                        == members_view(m@)[j] by {
                        if j < i {
                            assert(members_view(before)[j] == members_view(m@)[j]);
                            assert(members_view(out@)[j] == members_view(before)[j]);
                        } else {
                            assert(members_view(out@)[j] == (ck@, cv.deep_view()));
                        }
                    }
                }
                i = i + 1;
            }
            let r = JsonValue::Obj(out);
            proof {
                assert forall|j: int| 0 <= j < m@.len() implies r@->Obj_0[j] == v@->Obj_0[j] by {
                    assert(r@->Obj_0[j] == (out@[j].0@, out@[j].1.deep_view()));
                    assert(members_view(out@)[j] == members_view(m@)[j]);
                    assert(v@->Obj_0[j] == (m@[j].0@, m@[j].1.deep_view()));
                }
                assert(r@->Obj_0 =~= v@->Obj_0);
                assert(r@ =~= v@);
            }
            r
        },
    }
}

} // verus!
