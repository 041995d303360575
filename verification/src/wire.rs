//! A compact byte form for signatures, and the way back: what is written can
//! be read again and is then the value that was written.

use vstd::prelude::*;
use crate::signature::{TypeExpr, TypeView, lemma_type_view_unfold, type_views};

verus! {

/// The first `width` bytes of `n`, least significant first.
pub open spec fn le_bytes(n: nat, width: nat) -> Seq<u8>
    decreases width,
{
    if width == 0 {
        Seq::empty()
    } else {
        seq![(n % 256) as u8] + le_bytes(n / 256, (width - 1) as nat)
    }
}

/// The number that the bytes of `s` spell, least significant first.
pub open spec fn le_value(s: Seq<u8>) -> nat
    decreases s.len(),
{
    if s.len() == 0 {
        0
    } else {
        s[0] as nat + 256 * le_value(s.skip(1))
    }
}

/// The least number that `width` bytes cannot hold.
pub open spec fn capacity(width: nat) -> nat
    decreases width,
{
    if width == 0 {
        1
    } else {
        256 * capacity((width - 1) as nat)
    }
}

/// Eight bytes hold every number below two to the sixty-fourth.
pub proof fn lemma_capacity_of_eight()
    ensures
        capacity(8) == 0x1_0000_0000_0000_0000,
{
    reveal_with_fuel(capacity, 9);
}

/// A number that `width` bytes can hold is read back from them.
pub proof fn lemma_le_round_trip(n: nat, width: nat)
    requires
        n < capacity(width),
    ensures
        le_bytes(n, width).len() == width,
        le_value(le_bytes(n, width)) == n,
    decreases width,
{
    if width > 0 {
        let rest = le_bytes(n / 256, (width - 1) as nat);
        lemma_le_round_trip(n / 256, (width - 1) as nat);
        let all = le_bytes(n, width);
        assert(all.skip(1) =~= rest);
        assert(all[0] == (n % 256) as u8);
    }
}

/// The value of any `width` bytes is a number that `width` bytes can hold.
pub proof fn lemma_le_value_bound(s: Seq<u8>)
    ensures
        le_value(s) < capacity(s.len()),
    decreases s.len(),
{
    if s.len() > 0 {
        lemma_le_value_bound(s.skip(1));
    }
}

/// A length as it is written: eight bytes, least significant first.
pub open spec fn length_bytes(n: nat) -> Seq<u8> {
    le_bytes(n, 8)
}

/// A text as it is written: its length, then its bytes.
pub open spec fn encode_text(s: Seq<u8>) -> Seq<u8> {
    length_bytes(s.len()) + s
}

/// Reads a length from the front of `s`: the length, and what follows it.
pub open spec fn decode_length(s: Seq<u8>) -> Option<(nat, Seq<u8>)> {
    if s.len() < 8 {
        None
    } else {
        Some((le_value(s.take(8)), s.skip(8)))
    }
}

/// Reads a text from the front of `s`: the text, and what follows it.
pub open spec fn decode_text(s: Seq<u8>) -> Option<(Seq<u8>, Seq<u8>)> {
    match decode_length(s) {
        None => None,
        Some((n, rest)) => if rest.len() < n {
            None
        } else {
            Some((rest.take(n as int), rest.skip(n as int)))
        },
    }
}

/// A length that was written is read back, whatever follows it.
pub proof fn lemma_length_round_trip(n: nat, tail: Seq<u8>)
    requires
        n < 0x1_0000_0000_0000_0000,
    ensures
        decode_length(length_bytes(n) + tail) == Some((n, tail)),
{
    lemma_capacity_of_eight();
    lemma_le_round_trip(n, 8);
    let s = length_bytes(n) + tail;
    assert(s.take(8) =~= length_bytes(n));
    assert(s.skip(8) =~= tail);
}

/// A text that was written is read back, whatever follows it.
pub proof fn lemma_text_round_trip(t: Seq<u8>, tail: Seq<u8>)
    requires
        t.len() < 0x1_0000_0000_0000_0000,
    ensures
        decode_text(encode_text(t) + tail) == Some((t, tail)),
{
    let s = encode_text(t) + tail;
    assert(s =~= length_bytes(t.len()) + (t + tail));
    lemma_length_round_trip(t.len(), t + tail);
    assert((t + tail).take(t.len() as int) =~= t);
    assert((t + tail).skip(t.len() as int) =~= tail);
}

/// Appends the first `width` bytes of `n`, least significant first.
pub fn put_le(out: &mut Vec<u8>, n: u64, width: u8)
    ensures
        final(out)@ == old(out)@ + le_bytes(n as nat, width as nat),
    decreases width,
{
    let ghost start = out@;
    if width == 0 {
        assert(out@ =~= start + le_bytes(n as nat, 0));
    } else {
        out.push((n % 256) as u8);
        put_le(out, n / 256, width - 1);
        assert(out@ =~= start + le_bytes(n as nat, width as nat));
    }
}

/// Appends a length.
pub fn put_length(out: &mut Vec<u8>, n: usize)
    ensures
        final(out)@ == old(out)@ + length_bytes(n as nat),
{
    put_le(out, n as u64, 8);
}

/// Appends a text.
pub fn put_text(out: &mut Vec<u8>, s: &Vec<u8>)
    ensures
        final(out)@ == old(out)@ + encode_text(s@),
{
    let ghost start = out@;
    put_length(out, s.len());
    crate::model::append_bytes(out, s);
    assert(out@ =~= start + encode_text(s@));
}

/// Reads the number that the `width` bytes from `at` spell.
pub(crate) fn read_le(bytes: &Vec<u8>, at: usize, width: u8) -> (n: u64)
    requires
        width <= 8,
        at + width <= bytes.len(),
    ensures
        n == le_value(bytes@.subrange(at as int, at + width)),
    decreases width,
{
    let ghost s = bytes@.subrange(at as int, at + width);
    if width == 0 {
        0
    } else {
        let rest = read_le(bytes, at + 1, width - 1);
        proof {
            assert(s.skip(1) =~= bytes@.subrange(at + 1, at + width));
            lemma_le_value_bound(s.skip(1));
            assert(capacity((width - 1) as nat) <= capacity(7)) by {
                reveal_with_fuel(capacity, 9);
            }
            lemma_capacity_of_eight();
        }
        bytes[at] as u64 + 256 * rest
    }
}

/// Reads a length at `at`: the length and the place behind it.
pub(crate) fn read_length(bytes: &Vec<u8>, at: usize) -> (r: Option<(u64, usize)>)
    requires
        at <= bytes.len(),
    ensures
        match decode_length(bytes@.skip(at as int)) {
            None => r is None,
            Some((n, rest)) => r matches Some((m, next)) && m == n && at <= next <= bytes.len()
                && rest == bytes@.skip(next as int),
        },
{
    if bytes.len() - at < 8 {
        return None;
    }
    let n = read_le(bytes, at, 8);
    proof {
        let s = bytes@.skip(at as int);
        assert(s.take(8) =~= bytes@.subrange(at as int, at + 8));
        assert(s.skip(8) =~= bytes@.skip(at + 8));
    }
    Some((n, at + 8))
}

/// Reads a text at `at`: the text and the place behind it.
pub(crate) fn read_text(bytes: &Vec<u8>, at: usize) -> (r: Option<(Vec<u8>, usize)>)
    requires
        at <= bytes.len(),
    ensures
        match decode_text(bytes@.skip(at as int)) {
            None => r is None,
            Some((t, rest)) => r matches Some((u, next)) && u@ == t && at <= next <= bytes.len()
                && rest == bytes@.skip(next as int),
        },
{
    match read_length(bytes, at) {
        None => None,
        Some((n, from)) => {
            if ((bytes.len() - from) as u64) < n {
                None
            } else {
                let len = n as usize;
                let text = crate::doc::copy_range(bytes, from, from + len);
                proof {
                    let rest = bytes@.skip(from as int);
                    assert(rest.take(n as int) =~= bytes@.subrange(from as int, from + len));
                    assert(rest.skip(n as int) =~= bytes@.skip(from + len));
                }
                Some((text, from + len))
            }
        },
    }
}

/// A type as it is written: one byte for its kind, then its parts.
pub open spec fn encode_type(t: TypeView) -> Seq<u8>
    decreases t, 0nat,
{
    match t {
        TypeView::Primitive(n) => seq![0u8] + encode_text(n),
        TypeView::Reference { module, name } => seq![1u8] + encode_text(module) + encode_text(name),
        TypeView::Resolved(id) => seq![2u8] + encode_text(id),
        TypeView::External(n) => seq![3u8] + encode_text(n),
        TypeView::Optional(inner) => seq![4u8] + encode_type(*inner),
        TypeView::Union(ts) => seq![5u8] + length_bytes(ts.len()) + encode_types(ts, 0),
        TypeView::Function(ps, rs) => seq![6u8] + length_bytes(ps.len()) + encode_types(ps, 0)
            + length_bytes(rs.len()) + encode_types(rs, 0),
    }
}

/// The items of `ts` from `from` on as they are written, one behind the other.
pub open spec fn encode_types(ts: Seq<TypeView>, from: nat) -> Seq<u8>
    decreases ts, ts.len() - from,
{
    if from >= ts.len() {
        Seq::empty()
    } else {
        encode_type(ts[from as int]) + encode_types(ts, from + 1)
    }
}

/// Reads a type from the front of `s`: the type, and what follows it.
pub open spec fn decode_type(s: Seq<u8>) -> Option<(TypeView, Seq<u8>)>
    decreases s.len(), 0nat, 0nat,
{
    if s.len() == 0 {
        None
    } else {
        let body = s.skip(1);
        if s[0] == 0 {
            match decode_text(body) {
                Some((n, rest)) => Some((TypeView::Primitive(n), rest)),
                None => None,
            }
        } else if s[0] == 1 {
            match decode_text(body) {
                Some((module, rest)) => match decode_text(rest) {
                    Some((name, rest2)) => Some((TypeView::Reference { module, name }, rest2)),
                    None => None,
                },
                None => None,
            }
        } else if s[0] == 2 {
            match decode_text(body) {
                Some((id, rest)) => Some((TypeView::Resolved(id), rest)),
                None => None,
            }
        } else if s[0] == 3 {
            match decode_text(body) {
                Some((n, rest)) => Some((TypeView::External(n), rest)),
                None => None,
            }
        } else if s[0] == 4 {
            match decode_type(body) {
                Some((inner, rest)) => Some((TypeView::Optional(Box::new(inner)), rest)),
                None => None,
            }
        } else if s[0] == 5 {
            match decode_list(body) {
                Some((ts, rest)) => Some((TypeView::Union(ts), rest)),
                None => None,
            }
        } else if s[0] == 6 {
            match decode_list(body) {
                Some((ps, rest)) => if rest.len() <= body.len() {
                    match decode_list(rest) {
                        Some((rs, rest2)) => Some((TypeView::Function(ps, rs), rest2)),
                        None => None,
                    }
                } else {
                    None
                },
                None => None,
            }
        } else {
            None
        }
    }
}

/// Reads a counted list of types from the front of `s`.
pub open spec fn decode_list(s: Seq<u8>) -> Option<(Seq<TypeView>, Seq<u8>)>
    decreases s.len(), 2nat, 0nat,
{
    match decode_length(s) {
        None => None,
        Some((n, rest)) => decode_types(rest, n),
    }
}

/// Reads `count` types from the front of `s`.
pub open spec fn decode_types(s: Seq<u8>, count: nat) -> Option<(Seq<TypeView>, Seq<u8>)>
    decreases s.len(), 1nat, count,
{
    if count == 0 {
        Some((Seq::empty(), s))
    } else {
        match decode_type(s) {
            None => None,
            Some((t, rest)) => if rest.len() < s.len() {
                match decode_types(rest, (count - 1) as nat) {
                    Some((ts, rest2)) => Some((seq![t] + ts, rest2)),
                    None => None,
                }
            } else {
                None
            },
        }
    }
}

/// The largest length that can be written is below this.
pub open spec fn length_limit() -> nat {
    0x1_0000_0000_0000_0000
}

/// Every text and every list in `t` has a length that can be written.
pub open spec fn encodable(t: TypeView) -> bool
    decreases t,
{
    match t {
        TypeView::Primitive(n) => n.len() < length_limit(),
        TypeView::Reference { module, name } => module.len() < length_limit() && name.len()
            < length_limit(),
        TypeView::Resolved(id) => id.len() < length_limit(),
        TypeView::External(n) => n.len() < length_limit(),
        TypeView::Optional(inner) => encodable(*inner),
        TypeView::Union(ts) => ts.len() < length_limit() && forall|i: int|
            0 <= i < ts.len() ==> encodable(#[trigger] ts[i]),
        TypeView::Function(ps, rs) => ps.len() < length_limit() && rs.len() < length_limit() && (
        forall|i: int| 0 <= i < ps.len() ==> encodable(#[trigger] ps[i])) && (forall|i: int|
            0 <= i < rs.len() ==> encodable(#[trigger] rs[i])),
    }
}

/// A type that was written is read back, whatever follows it: nothing of
/// its structure is lost on the way.
pub proof fn lemma_type_round_trip(t: TypeView, tail: Seq<u8>)
    requires
        encodable(t),
    ensures
        decode_type(encode_type(t) + tail) == Some((t, tail)),
        encode_type(t).len() >= 1,
    decreases t, 0nat,
{
    let s = encode_type(t) + tail;
    let body = s.skip(1);
    match t {
        TypeView::Primitive(n) => {
            assert(body =~= encode_text(n) + tail);
            lemma_text_round_trip(n, tail);
        },
        TypeView::Reference { module, name } => {
            assert(body =~= encode_text(module) + (encode_text(name) + tail));
            lemma_text_round_trip(module, encode_text(name) + tail);
            lemma_text_round_trip(name, tail);
        },
        TypeView::Resolved(id) => {
            assert(body =~= encode_text(id) + tail);
            lemma_text_round_trip(id, tail);
        },
        TypeView::External(n) => {
            assert(body =~= encode_text(n) + tail);
            lemma_text_round_trip(n, tail);
        },
        TypeView::Optional(inner) => {
            assert(body =~= encode_type(*inner) + tail);
            lemma_type_round_trip(*inner, tail);
        },
        TypeView::Union(ts) => {
            assert(body =~= length_bytes(ts.len()) + (encode_types(ts, 0) + tail));
            lemma_list_round_trip(ts, tail);
        },
        TypeView::Function(ps, rs) => {
            let second = length_bytes(rs.len()) + (encode_types(rs, 0) + tail);
            assert(body =~= length_bytes(ps.len()) + (encode_types(ps, 0) + second));
            lemma_list_round_trip(ps, second);
            lemma_list_round_trip(rs, tail);
            assert(second.len() <= body.len());
        },
    }
}

/// A counted list of types that was written is read back.
pub proof fn lemma_list_round_trip(ts: Seq<TypeView>, tail: Seq<u8>)
    requires
        ts.len() < length_limit(),
        forall|i: int| 0 <= i < ts.len() ==> encodable(#[trigger] ts[i]),
    ensures
        decode_list(length_bytes(ts.len()) + (encode_types(ts, 0) + tail)) == Some((ts, tail)),
    decreases ts, ts.len() + 1,
{
    lemma_length_round_trip(ts.len(), encode_types(ts, 0) + tail);
    lemma_types_round_trip(ts, 0, tail);
    assert(ts.skip(0) =~= ts);
}

/// The items of a list from `from` on, once written, are read back.
pub proof fn lemma_types_round_trip(ts: Seq<TypeView>, from: nat, tail: Seq<u8>)
    requires
        from <= ts.len(),
        forall|i: int| 0 <= i < ts.len() ==> encodable(#[trigger] ts[i]),
    ensures
        decode_types(encode_types(ts, from) + tail, (ts.len() - from) as nat) == Some(
            (ts.skip(from as int), tail),
        ),
    decreases ts, ts.len() - from,
{
    let s = encode_types(ts, from) + tail;
    if from == ts.len() {
        assert(s =~= tail);
        assert(ts.skip(from as int) =~= Seq::<TypeView>::empty());
    } else {
        let head = ts[from as int];
        let rest = encode_types(ts, from + 1) + tail;
        assert(s =~= encode_type(head) + rest);
        lemma_type_round_trip(head, rest);
        lemma_types_round_trip(ts, from + 1, tail);
        assert(seq![head] + ts.skip(from as int + 1) =~= ts.skip(from as int));
    }
}

/// A value that is held in memory can always be written: its lengths are the
/// lengths of lists in memory.
pub proof fn lemma_exec_type_is_encodable(t: TypeExpr)
    ensures
        encodable(t@),
    decreases t,
{
    lemma_type_view_unfold(t);
    match t {
        TypeExpr::Primitive(n) => {
            assert(n@.len() == n.len());
        },
        TypeExpr::Reference { module, name } => {
            assert(module@.len() == module.len());
            assert(name@.len() == name.len());
        },
        TypeExpr::Resolved(id) => {
            assert(id@.len() == id.len());
        },
        TypeExpr::External(n) => {
            assert(n@.len() == n.len());
        },
        TypeExpr::Optional(inner) => {
            lemma_exec_type_is_encodable(*inner);
        },
        TypeExpr::Union(ts) => {
            assert(ts@.len() == ts.len());
            assert forall|i: int| 0 <= i < ts.len() implies encodable(
                #[trigger] type_views(ts@)[i],
            ) by {
                lemma_exec_type_is_encodable(ts@[i]);
            }
        },
        TypeExpr::Function(ps, rs) => {
            assert(ps@.len() == ps.len());
            assert(rs@.len() == rs.len());
            assert forall|i: int| 0 <= i < ps.len() implies encodable(
                #[trigger] type_views(ps@)[i],
            ) by {
                lemma_exec_type_is_encodable(ps@[i]);
            }
            assert forall|i: int| 0 <= i < rs.len() implies encodable(
                #[trigger] type_views(rs@)[i],
            ) by {
                lemma_exec_type_is_encodable(rs@[i]);
            }
        },
    }
}

/// Appends a type in its written form.
pub fn put_wire_type(out: &mut Vec<u8>, t: &TypeExpr)
    ensures
        final(out)@ == old(out)@ + encode_type(t@),
    decreases t, 0nat,
{
    proof {
        lemma_type_view_unfold(*t);
    }
    let ghost start = out@;
    match t {
        TypeExpr::Primitive(n) => {
            out.push(0u8);
            put_text(out, n);
        },
        TypeExpr::Reference { module, name } => {
            out.push(1u8);
            put_text(out, module);
            put_text(out, name);
        },
        TypeExpr::Resolved(id) => {
            out.push(2u8);
            put_text(out, id);
        },
        TypeExpr::External(n) => {
            out.push(3u8);
            put_text(out, n);
        },
        TypeExpr::Optional(inner) => {
            out.push(4u8);
            put_wire_type(out, inner);
        },
        TypeExpr::Union(ts) => {
            out.push(5u8);
            put_length(out, ts.len());
            put_wire_types(out, ts, 0);
        },
        TypeExpr::Function(ps, rs) => {
            out.push(6u8);
            put_length(out, ps.len());
            put_wire_types(out, ps, 0);
            put_length(out, rs.len());
            put_wire_types(out, rs, 0);
        },
    }
    assert(out@ =~= start + encode_type(t@));
}

/// Appends the items of `ts` from `from` on in their written form.
pub(crate) fn put_wire_types(out: &mut Vec<u8>, ts: &Vec<TypeExpr>, from: usize)
    requires
        from <= ts.len(),
    ensures
        final(out)@ == old(out)@ + encode_types(type_views(ts@), from as nat),
    decreases ts, ts.len() - from,
{
    let ghost start = out@;
    if from < ts.len() {
        put_wire_type(out, &ts[from]);
        put_wire_types(out, ts, from + 1);
        assert(out@ =~= start + encode_types(type_views(ts@), from as nat));
    } else {
        assert(out@ =~= start + encode_types(type_views(ts@), from as nat));
    }
}

/// How a read at `at` relates to what the bytes from `at` on spell: nothing
/// is returned where they spell nothing, else the value and the place behind
/// it.
pub open spec fn reads_type(
    r: Option<(TypeExpr, usize)>,
    bytes: Seq<u8>,
    at: int,
) -> bool {
    match decode_type(bytes.skip(at)) {
        None => r is None,
        Some((t, rest)) => r matches Some((u, next)) && u@ == t && at <= next <= bytes.len()
            && rest == bytes.skip(next as int),
    }
}

/// The same for a list that is read behind the items of `acc`.
pub open spec fn reads_types(
    r: Option<(Vec<TypeExpr>, usize)>,
    acc: Seq<TypeView>,
    expected: Option<(Seq<TypeView>, Seq<u8>)>,
    bytes: Seq<u8>,
    at: int,
) -> bool {
    match expected {
        None => r is None,
        Some((ts, rest)) => r matches Some((us, next)) && type_views(us@) == acc + ts && at
            <= next <= bytes.len() && rest == bytes.skip(next as int),
    }
}

/// Reads a type at `at`.
pub(crate) fn read_type(bytes: &Vec<u8>, at: usize) -> (r: Option<(TypeExpr, usize)>)
    requires
        at <= bytes.len(),
    ensures
        reads_type(r, bytes@, at as int),
    decreases bytes.len() - at, 0nat, 0nat,
{
    let ghost s = bytes@.skip(at as int);
    if at == bytes.len() {
        return None;
    }
    let tag = bytes[at];
    assert(s[0] == tag);
    assert(s.skip(1) =~= bytes@.skip(at + 1));
    if tag == 0 {
        match read_text(bytes, at + 1) {
            Some((n, next)) => Some((TypeExpr::Primitive(n), next)),
            None => None,
        }
    } else if tag == 1 {
        match read_text(bytes, at + 1) {
            Some((module, mid)) => match read_text(bytes, mid) {
                Some((name, next)) => Some((TypeExpr::Reference { module, name }, next)),
                None => None,
            },
            None => None,
        }
    } else if tag == 2 {
        match read_text(bytes, at + 1) {
            Some((id, next)) => Some((TypeExpr::Resolved(id), next)),
            None => None,
        }
    } else if tag == 3 {
        match read_text(bytes, at + 1) {
            Some((n, next)) => Some((TypeExpr::External(n), next)),
            None => None,
        }
    } else if tag == 4 {
        match read_type(bytes, at + 1) {
            Some((inner, next)) => {
                let r = TypeExpr::Optional(Box::new(inner));
                proof {
                    lemma_type_view_unfold(r);
                }
                Some((r, next))
            },
            None => None,
        }
    } else if tag == 5 {
        match read_list(bytes, at + 1) {
            Some((ts, next)) => {
                let r = TypeExpr::Union(ts);
                proof {
                    lemma_type_view_unfold(r);
                }
                Some((r, next))
            },
            None => None,
        }
    } else if tag == 6 {
        match read_list(bytes, at + 1) {
            Some((ps, mid)) => match read_list(bytes, mid) {
                Some((rs, next)) => {
                    let r = TypeExpr::Function(ps, rs);
                    proof {
                        lemma_type_view_unfold(r);
                    }
                    Some((r, next))
                },
                None => None,
            },
            None => None,
        }
    } else {
        None
    }
}

/// Reads a counted list of types at `at`.
pub(crate) fn read_list(bytes: &Vec<u8>, at: usize) -> (r: Option<(Vec<TypeExpr>, usize)>)
    requires
        at <= bytes.len(),
    ensures
        reads_types(r, Seq::empty(), decode_list(bytes@.skip(at as int)), bytes@, at as int),
    decreases bytes.len() - at, 2nat, 0nat,
{
    match read_length(bytes, at) {
        None => None,
        Some((count, from)) => {
            let acc: Vec<TypeExpr> = Vec::new();
            assert(type_views(acc@) =~= Seq::<TypeView>::empty());
            read_types(bytes, from, count, acc)
        },
    }
}

/// Reads `count` types at `at` and puts them behind those of `acc`.
pub(crate) fn read_types(bytes: &Vec<u8>, at: usize, count: u64, acc: Vec<TypeExpr>) -> (r: Option<
    (Vec<TypeExpr>, usize),
>)
    requires
        at <= bytes.len(),
    ensures
        reads_types(
            r,
            type_views(acc@),
            decode_types(bytes@.skip(at as int), count as nat),
            bytes@,
            at as int,
        ),
    decreases bytes.len() - at, 1nat, count,
{
    let ghost before = type_views(acc@);
    if count == 0 {
        assert(before + Seq::<TypeView>::empty() =~= before);
        return Some((acc, at));
    }
    match read_type(bytes, at) {
        None => None,
        Some((t, next)) => {
            if next > at {
                let mut acc = acc;
                acc.push(t);
                assert(type_views(acc@) =~= before.push(t@));
                let r = read_types(bytes, next, count - 1, acc);
                proof {
                    match decode_types(bytes@.skip(next as int), (count - 1) as nat) {
                        Some((ts, rest)) => {
                            assert(before.push(t@) + ts =~= before + (seq![t@] + ts));
                        },
                        None => {},
                    }
                }
                r
            } else {
                None
            }
        },
    }
}

/// Writes a type.
pub fn encode(t: &TypeExpr) -> (bytes: Vec<u8>)
    ensures
        bytes@ == encode_type(t@),
{
    let mut out: Vec<u8> = Vec::new();
    put_wire_type(&mut out, t);
    assert(out@ =~= encode_type(t@));
    out
}

/// What `bytes` spell as a whole: a type, if they are one type's written form
/// and nothing more.
pub open spec fn decoded(bytes: Seq<u8>) -> Option<TypeView> {
    match decode_type(bytes) {
        Some((t, rest)) => if rest.len() == 0 {
            Some(t)
        } else {
            None
        },
        None => None,
    }
}

/// Reads a type from bytes that hold its written form and nothing more.
pub fn decode(bytes: &Vec<u8>) -> (r: Option<TypeExpr>)
    ensures
        match decoded(bytes@) {
            Some(t) => r matches Some(u) && u@ == t,
            None => r is None,
        },
{
    assert(bytes@.skip(0) =~= bytes@);
    match read_type(bytes, 0) {
        Some((t, next)) => if next == bytes.len() {
            Some(t)
        } else {
            None
        },
        None => None,
    }
}

/// Writing a type and reading it again gives the type back.
pub proof fn lemma_decode_inverts_encode(t: TypeView)
    requires
        encodable(t),
    ensures
        decoded(encode_type(t)) == Some(t),
{
    lemma_type_round_trip(t, Seq::empty());
    assert(encode_type(t) + Seq::<u8>::empty() =~= encode_type(t));
}

} // verus!
