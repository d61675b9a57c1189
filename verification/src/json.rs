//! JSON document model.
//!
//! Audit records are framed as JSON text by this crate itself, so the
//! document tree is modelled here as a plain datatype over bytes:
//! number tokens and string contents are kept verbatim as the bytes
//! that appeared (or will appear) between the delimiters of the JSON
//! text.  Objects are ordered lists of key/value pairs; canonical form
//! (sorted, duplicate-free keys) is produced by `canon.rs`.
use vstd::prelude::*;

verus! {

/// Mathematical JSON tree: the view of `JsonValue`.
#[verifier::ext_equal]
pub enum Jv {
    Null,
    Bool(bool),
    /// Number token bytes, e.g. `-12.5e3`, kept verbatim.
    Num(Seq<u8>),
    /// String contents between the quotes, escapes kept verbatim.
    Str(Seq<u8>),
    Arr(Seq<Jv>),
    Obj(Seq<(Seq<u8>, Jv)>),
}

/// Executable JSON tree.
pub enum JsonValue {
    Null,
    Bool(bool),
    Num(Vec<u8>),
    Str(Vec<u8>),
    Arr(Vec<JsonValue>),
    Obj(Vec<(Vec<u8>, JsonValue)>),
}

impl JsonValue {
    pub open spec fn deep_view(&self) -> Jv
        decreases self,
    {
        match self {
            JsonValue::Null => Jv::Null,
            JsonValue::Bool(b) => Jv::Bool(*b),
            JsonValue::Num(t) => Jv::Num(t@),
            JsonValue::Str(s) => Jv::Str(s@),
            JsonValue::Arr(a) => Jv::Arr(
                Seq::new(
                    a.len() as nat,
                    |i: int|
                        if 0 <= i < a.len() {
                            a[i].deep_view()
                        } else {
                            Jv::Null
                        },
                ),
            ),
            JsonValue::Obj(m) => Jv::Obj(
                Seq::new(
                    m.len() as nat,
                    |i: int|
                        if 0 <= i < m.len() {
                            (m[i].0@, m[i].1.deep_view())
                        } else {
                            (Seq::empty(), Jv::Null)
                        },
                ),
            ),
        }
    }
}

impl View for JsonValue {
    type V = Jv;

    open spec fn view(&self) -> Jv {
        self.deep_view()
    }
}

/// String contents are stored with their escapes intact; they are
/// well-formed when every byte is printable, every backslash is
/// followed by some byte, and a quote only ever appears escaped.  Text
/// with this shape can be placed verbatim between quotes and scanned
/// back unambiguously.
pub open spec fn str_content_ok(s: Seq<u8>) -> bool
    decreases s.len(),
{
    if s.len() == 0 {
        true
    } else if s[0] == 0x5c {
        s.len() >= 2 && s[1] >= 0x20 && str_content_ok(s.skip(2))
    } else {
        s[0] != 0x22 && s[0] >= 0x20 && str_content_ok(s.skip(1))
    }
}

pub open spec fn num_byte_ok(b: u8) -> bool {
    (0x30 <= b <= 0x39) || b == 0x2d || b == 0x2b || b == 0x2e || b == 0x65 || b == 0x45
}

/// Number tokens are kept as the bytes of the literal: nonempty, made
/// of sign/digit/dot/exponent bytes, and starting with a digit or `-`.
pub open spec fn num_token_ok(t: Seq<u8>) -> bool {
    &&& t.len() > 0
    &&& (t[0] == 0x2d || (0x30 <= t[0] <= 0x39))
    &&& forall|i: int| 0 <= i < t.len() ==> num_byte_ok(#[trigger] t[i])
}

/// A tree is well-formed when every number token and every string
/// content in it (keys included) is well-formed.
pub open spec fn wf_json(v: Jv) -> bool
    decreases v, 0int,
{
    match v {
        Jv::Null => true,
        Jv::Bool(_) => true,
        Jv::Num(t) => num_token_ok(t),
        Jv::Str(s) => str_content_ok(s),
        Jv::Arr(a) => wf_elems(a),
        Jv::Obj(m) => wf_members(m),
    }
}

pub open spec fn wf_elems(a: Seq<Jv>) -> bool
    decreases a, 1int, a.len(),
{
    if a.len() == 0 {
        true
    } else {
        wf_json(a[0]) && wf_elems(a.drop_first())
    }
}

pub open spec fn wf_members(m: Seq<(Seq<u8>, Jv)>) -> bool
    decreases m, 1int, m.len(),
{
    if m.len() == 0 {
        true
    } else {
        str_content_ok(m[0].0) && wf_json(m[0].1) && wf_members(m.drop_first())
    }
}

/// Pointwise reading of `wf_elems`.
pub proof fn lemma_wf_elems_index(a: Seq<Jv>)
    requires
        wf_elems(a),
    ensures
        forall|i: int| 0 <= i < a.len() ==> wf_json(#[trigger] a[i]),
    decreases a.len(),
{
    if a.len() > 0 {
        lemma_wf_elems_index(a.drop_first());
        assert forall|i: int| 0 <= i < a.len() implies wf_json(#[trigger] a[i]) by {
            if i > 0 {
                assert(a[i] == a.drop_first()[i - 1]);
            }
        }
    }
}

/// Pointwise reading of `wf_members`.
pub proof fn lemma_wf_members_index(m: Seq<(Seq<u8>, Jv)>)
    requires
        wf_members(m),
    ensures
        forall|i: int| 0 <= i < m.len() ==> str_content_ok(#[trigger] m[i].0) && wf_json(m[i].1),
    decreases m.len(),
{
    if m.len() > 0 {
        lemma_wf_members_index(m.drop_first());
        assert forall|i: int| 0 <= i < m.len() implies str_content_ok(#[trigger] m[i].0) && wf_json(
            m[i].1,
        ) by {
            if i > 0 {
                assert(m[i] == m.drop_first()[i - 1]);
            }
        }
    }
}

/// The converse: a sequence whose entries are all well-formed is
/// well-formed as a member list.
pub proof fn lemma_wf_elems_build(a: Seq<Jv>)
    requires
        forall|i: int| 0 <= i < a.len() ==> wf_json(#[trigger] a[i]),
    ensures
        wf_elems(a),
    decreases a.len(),
{
    if a.len() > 0 {
        assert forall|i: int| 0 <= i < a.drop_first().len() implies wf_json(
            #[trigger] a.drop_first()[i],
        ) by {
            assert(a.drop_first()[i] == a[i + 1]);
            assert(wf_json(a[i + 1]));
        }
        lemma_wf_elems_build(a.drop_first());
        assert(wf_json(a[0]));
    }
}

pub proof fn lemma_wf_members_build(m: Seq<(Seq<u8>, Jv)>)
    requires
        forall|i: int| 0 <= i < m.len() ==> str_content_ok(#[trigger] m[i].0),
        forall|i: int| 0 <= i < m.len() ==> wf_json(#[trigger] m[i].1),
    ensures
        wf_members(m),
    decreases m.len(),
{
    if m.len() > 0 {
        assert forall|i: int| 0 <= i < m.drop_first().len() implies str_content_ok(
            #[trigger] m.drop_first()[i].0,
        ) by {
            assert(m.drop_first()[i] == m[i + 1]);
            assert(str_content_ok(m[i + 1].0));
        }
        assert forall|i: int| 0 <= i < m.drop_first().len() implies wf_json(
            #[trigger] m.drop_first()[i].1,
        ) by {
            assert(m.drop_first()[i] == m[i + 1]);
            assert(wf_json(m[i + 1].1));
        }
        lemma_wf_members_build(m.drop_first());
        assert(str_content_ok(m[0].0) && wf_json(m[0].1));
    }
}


/// The deep view of a vector of values.
pub open spec fn elems_view(a: Seq<JsonValue>) -> Seq<Jv> {
    Seq::new(
        a.len(),
        |i: int|
            if 0 <= i < a.len() {
                a[i].deep_view()
            } else {
                Jv::Null
            },
    )
}

/// The deep view of a vector of object members.
pub open spec fn members_view(m: Seq<(Vec<u8>, JsonValue)>) -> Seq<(Seq<u8>, Jv)> {
    Seq::new(
        m.len(),
        |i: int|
            if 0 <= i < m.len() {
                (m[i].0@, m[i].1.deep_view())
            } else {
                (Seq::empty(), Jv::Null)
            },
    )
}

} // verus!
