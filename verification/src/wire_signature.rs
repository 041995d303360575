//! The written form of a whole signature.

use vstd::prelude::*;
use crate::declaration::{Param, ParamView, Signature, SignatureView, opt_text, texts};
use crate::signature::TypeView;
use crate::wire::{
    decode_length, decode_list, decode_text, decode_type, encodable, encode_text, encode_type,
    encode_types, lemma_exec_type_is_encodable, lemma_length_round_trip, lemma_list_round_trip,
    lemma_text_round_trip, lemma_type_round_trip, length_bytes, length_limit, put_length,
    put_text, put_wire_type, put_wire_types, read_length, read_list, read_text, read_type,
};

verus! {

/// An optional text as it is written: a zero, or a one and the text.
pub open spec fn encode_option(o: Option<Seq<u8>>) -> Seq<u8> {
    match o {
        None => seq![0u8],
        Some(t) => seq![1u8] + encode_text(t),
    }
}

/// Reads an optional text from the front of `s`.
pub open spec fn decode_option(s: Seq<u8>) -> Option<(Option<Seq<u8>>, Seq<u8>)> {
    if s.len() == 0 {
        None
    } else if s[0] == 0 {
        Some((None, s.skip(1)))
    } else if s[0] == 1 {
        match decode_text(s.skip(1)) {
            Some((t, rest)) => Some((Some(t), rest)),
            None => None,
        }
    } else {
        None
    }
}

/// A parameter as it is written: name, type, default.
pub open spec fn encode_param(p: ParamView) -> Seq<u8> {
    encode_text(p.name) + encode_type(p.ty) + encode_option(p.default)
}

/// Reads a parameter from the front of `s`.
pub open spec fn decode_param(s: Seq<u8>) -> Option<(ParamView, Seq<u8>)> {
    match decode_text(s) {
        None => None,
        Some((name, rest)) => match decode_type(rest) {
            None => None,
            Some((ty, rest2)) => match decode_option(rest2) {
                None => None,
                Some((default, rest3)) => Some((ParamView { name, ty, default }, rest3)),
            },
        },
    }
}

/// The texts of `ts` from `from` on as they are written.
pub open spec fn encode_texts(ts: Seq<Seq<u8>>, from: nat) -> Seq<u8>
    decreases ts.len() - from,
{
    if from >= ts.len() {
        Seq::empty()
    } else {
        encode_text(ts[from as int]) + encode_texts(ts, from + 1)
    }
}

/// Reads `count` texts from the front of `s`.
pub open spec fn decode_texts(s: Seq<u8>, count: nat) -> Option<(Seq<Seq<u8>>, Seq<u8>)>
    decreases count,
{
    if count == 0 {
        Some((Seq::empty(), s))
    } else {
        match decode_text(s) {
            None => None,
            Some((t, rest)) => match decode_texts(rest, (count - 1) as nat) {
                Some((ts, rest2)) => Some((seq![t] + ts, rest2)),
                None => None,
            },
        }
    }
}

/// The parameters of `ps` from `from` on as they are written.
pub open spec fn encode_params(ps: Seq<ParamView>, from: nat) -> Seq<u8>
    decreases ps.len() - from,
{
    if from >= ps.len() {
        Seq::empty()
    } else {
        encode_param(ps[from as int]) + encode_params(ps, from + 1)
    }
}

/// Reads `count` parameters from the front of `s`.
pub open spec fn decode_params(s: Seq<u8>, count: nat) -> Option<(Seq<ParamView>, Seq<u8>)>
    decreases count,
{
    if count == 0 {
        Some((Seq::empty(), s))
    } else {
        match decode_param(s) {
            None => None,
            Some((p, rest)) => match decode_params(rest, (count - 1) as nat) {
                Some((ps, rest2)) => Some((seq![p] + ps, rest2)),
                None => None,
            },
        }
    }
}

/// A list of texts as it is written: its length, then its items.
pub open spec fn encode_text_list(ts: Seq<Seq<u8>>) -> Seq<u8> {
    length_bytes(ts.len()) + encode_texts(ts, 0)
}

/// A list of parameters as it is written: its length, then its items.
pub open spec fn encode_param_list(ps: Seq<ParamView>) -> Seq<u8> {
    length_bytes(ps.len()) + encode_params(ps, 0)
}

/// A list of types as it is written: its length, then its items.
pub open spec fn encode_type_list(ts: Seq<TypeView>) -> Seq<u8> {
    length_bytes(ts.len()) + encode_types(ts, 0)
}

/// Reads a counted list of texts from the front of `s`.
pub open spec fn decode_text_list(s: Seq<u8>) -> Option<(Seq<Seq<u8>>, Seq<u8>)> {
    match decode_length(s) {
        None => None,
        Some((n, rest)) => decode_texts(rest, n),
    }
}

/// Reads a counted list of parameters from the front of `s`.
pub open spec fn decode_param_list(s: Seq<u8>) -> Option<(Seq<ParamView>, Seq<u8>)> {
    match decode_length(s) {
        None => None,
        Some((n, rest)) => decode_params(rest, n),
    }
}

/// A signature as it is written: the generic parameters, the parameters and
/// the results, each list behind its length.
pub open spec fn encode_signature(s: SignatureView) -> Seq<u8> {
    encode_text_list(s.generics) + encode_param_list(s.params) + encode_type_list(s.returns)
}

/// Reads a signature from the front of `s`.
pub open spec fn decode_signature(s: Seq<u8>) -> Option<(SignatureView, Seq<u8>)> {
    match decode_text_list(s) {
        None => None,
        Some((generics, rest)) => match decode_param_list(rest) {
            None => None,
            Some((params, rest2)) => match decode_list(rest2) {
                None => None,
                Some((results, rest3)) => Some(
                    (SignatureView { generics, params, returns: results }, rest3),
                ),
            },
        },
    }
}

/// Every length in the parameter can be written.
pub open spec fn param_encodable(p: ParamView) -> bool {
    &&& p.name.len() < length_limit()
    &&& encodable(p.ty)
    &&& (p.default matches Some(d) ==> d.len() < length_limit())
}

/// Every length in the signature can be written.
pub open spec fn signature_encodable(s: SignatureView) -> bool {
    &&& s.generics.len() < length_limit()
    &&& s.params.len() < length_limit()
    &&& s.returns.len() < length_limit()
    &&& forall|i: int| 0 <= i < s.generics.len() ==> (#[trigger] s.generics[i]).len() < length_limit()
    &&& forall|i: int| 0 <= i < s.params.len() ==> param_encodable(#[trigger] s.params[i])
    &&& forall|i: int| 0 <= i < s.returns.len() ==> encodable(#[trigger] s.returns[i])
}

proof fn lemma_option_round_trip(o: Option<Seq<u8>>, tail: Seq<u8>)
    requires
        o matches Some(d) ==> d.len() < length_limit(),
    ensures
        decode_option(encode_option(o) + tail) == Some((o, tail)),
{
    let s = encode_option(o) + tail;
    match o {
        None => {
            assert(s.skip(1) =~= tail);
        },
        Some(t) => {
            assert(s.skip(1) =~= encode_text(t) + tail);
            lemma_text_round_trip(t, tail);
        },
    }
}

proof fn lemma_param_round_trip(p: ParamView, tail: Seq<u8>)
    requires
        param_encodable(p),
    ensures
        decode_param(encode_param(p) + tail) == Some((p, tail)),
{
    let s = encode_param(p) + tail;
    let after_name = encode_type(p.ty) + (encode_option(p.default) + tail);
    assert(s =~= encode_text(p.name) + after_name);
    lemma_text_round_trip(p.name, after_name);
    lemma_type_round_trip(p.ty, encode_option(p.default) + tail);
    lemma_option_round_trip(p.default, tail);
}

proof fn lemma_texts_round_trip(ts: Seq<Seq<u8>>, from: nat, tail: Seq<u8>)
    requires
        from <= ts.len(),
        forall|i: int| 0 <= i < ts.len() ==> (#[trigger] ts[i]).len() < length_limit(),
    ensures
        decode_texts(encode_texts(ts, from) + tail, (ts.len() - from) as nat) == Some(
            (ts.skip(from as int), tail),
        ),
    decreases ts.len() - from,
{
    let s = encode_texts(ts, from) + tail;
    if from == ts.len() {
        assert(s =~= tail);
        assert(ts.skip(from as int) =~= Seq::<Seq<u8>>::empty());
    } else {
        let head = ts[from as int];
        let rest = encode_texts(ts, from + 1) + tail;
        assert(s =~= encode_text(head) + rest);
        lemma_text_round_trip(head, rest);
        lemma_texts_round_trip(ts, from + 1, tail);
        assert(seq![head] + ts.skip(from as int + 1) =~= ts.skip(from as int));
    }
}

proof fn lemma_params_round_trip(ps: Seq<ParamView>, from: nat, tail: Seq<u8>)
    requires
        from <= ps.len(),
        forall|i: int| 0 <= i < ps.len() ==> param_encodable(#[trigger] ps[i]),
    ensures
        decode_params(encode_params(ps, from) + tail, (ps.len() - from) as nat) == Some(
            (ps.skip(from as int), tail),
        ),
    decreases ps.len() - from,
{
    let s = encode_params(ps, from) + tail;
    if from == ps.len() {
        assert(s =~= tail);
        assert(ps.skip(from as int) =~= Seq::<ParamView>::empty());
    } else {
        let head = ps[from as int];
        let rest = encode_params(ps, from + 1) + tail;
        assert(s =~= encode_param(head) + rest);
        lemma_param_round_trip(head, rest);
        lemma_params_round_trip(ps, from + 1, tail);
        assert(seq![head] + ps.skip(from as int + 1) =~= ps.skip(from as int));
    }
}

proof fn lemma_text_list_round_trip(ts: Seq<Seq<u8>>, tail: Seq<u8>)
    requires
        ts.len() < length_limit(),
        forall|i: int| 0 <= i < ts.len() ==> (#[trigger] ts[i]).len() < length_limit(),
    ensures
        decode_text_list(encode_text_list(ts) + tail) == Some((ts, tail)),
{
    assert(encode_text_list(ts) + tail =~= length_bytes(ts.len()) + (encode_texts(ts, 0) + tail));
    lemma_length_round_trip(ts.len(), encode_texts(ts, 0) + tail);
    lemma_texts_round_trip(ts, 0, tail);
    assert(ts.skip(0) =~= ts);
}

proof fn lemma_param_list_round_trip(ps: Seq<ParamView>, tail: Seq<u8>)
    requires
        ps.len() < length_limit(),
        forall|i: int| 0 <= i < ps.len() ==> param_encodable(#[trigger] ps[i]),
    ensures
        decode_param_list(encode_param_list(ps) + tail) == Some((ps, tail)),
{
    assert(encode_param_list(ps) + tail =~= length_bytes(ps.len()) + (encode_params(ps, 0) + tail));
    lemma_length_round_trip(ps.len(), encode_params(ps, 0) + tail);
    lemma_params_round_trip(ps, 0, tail);
    assert(ps.skip(0) =~= ps);
}

proof fn lemma_type_list_round_trip(ts: Seq<TypeView>, tail: Seq<u8>)
    requires
        ts.len() < length_limit(),
        forall|i: int| 0 <= i < ts.len() ==> encodable(#[trigger] ts[i]),
    ensures
        decode_list(encode_type_list(ts) + tail) == Some((ts, tail)),
{
    assert(encode_type_list(ts) + tail =~= length_bytes(ts.len()) + (encode_types(ts, 0) + tail));
    lemma_list_round_trip(ts, tail);
}

/// A signature that was written is read back, whatever follows it: parsing
/// what was serialised gives an equal structured value.
pub proof fn lemma_signature_round_trip(s: SignatureView, tail: Seq<u8>)
    requires
        signature_encodable(s),
    ensures
        decode_signature(encode_signature(s) + tail) == Some((s, tail)),
{
    let a = encode_text_list(s.generics);
    let b = encode_param_list(s.params);
    let c = encode_type_list(s.returns);
    lemma_text_list_round_trip(s.generics, b + (c + tail));
    lemma_param_list_round_trip(s.params, c + tail);
    lemma_type_list_round_trip(s.returns, tail);
    lemma_regroup(a, b, c, tail);
}

proof fn lemma_regroup(a: Seq<u8>, b: Seq<u8>, c: Seq<u8>, tail: Seq<u8>)
    ensures
        (a + b + c) + tail == a + (b + (c + tail)),
{
    assert((a + b + c) + tail =~= a + (b + (c + tail)));
}

/// Appends the texts of `ts` from `from` on in their written form.
fn put_texts(out: &mut Vec<u8>, ts: &Vec<Vec<u8>>, from: usize)
    requires
        from <= ts.len(),
    ensures
        final(out)@ == old(out)@ + encode_texts(texts(ts@), from as nat),
    decreases ts.len() - from,
{
    let ghost start = out@;
    if from < ts.len() {
        put_text(out, &ts[from]);
        put_texts(out, ts, from + 1);
    }
    assert(out@ =~= start + encode_texts(texts(ts@), from as nat));
}

/// Appends a parameter in its written form.
pub fn put_wire_param(out: &mut Vec<u8>, p: &Param)
    ensures
        final(out)@ == old(out)@ + encode_param(p@),
{
    let ghost start = out@;
    put_text(out, &p.name);
    put_wire_type(out, &p.ty);
    match &p.default {
        None => {
            out.push(0u8);
        },
        Some(d) => {
            out.push(1u8);
            put_text(out, d);
        },
    }
    assert(out@ =~= start + encode_param(p@));
}

/// Appends the parameters of `ps` from `from` on in their written form.
fn put_wire_params(out: &mut Vec<u8>, ps: &Vec<Param>, from: usize)
    requires
        from <= ps.len(),
    ensures
        final(out)@ == old(out)@ + encode_params(ps.deep_view(), from as nat),
    decreases ps.len() - from,
{
    let ghost start = out@;
    if from < ps.len() {
        assert(ps.deep_view()[from as int] == ps[from as int]@);
        put_wire_param(out, &ps[from]);
        put_wire_params(out, ps, from + 1);
    }
    assert(out@ =~= start + encode_params(ps.deep_view(), from as nat));
}

/// Writes a signature.
pub fn serialize(s: &Signature) -> (bytes: Vec<u8>)
    ensures
        bytes@ == encode_signature(s@),
{
    let mut out: Vec<u8> = Vec::new();
    put_length(&mut out, s.generics.len());
    put_texts(&mut out, &s.generics, 0);
    assert(out@ =~= encode_text_list(s@.generics));
    let ghost first = out@;
    put_length(&mut out, s.params.len());
    put_wire_params(&mut out, &s.params, 0);
    assert(out@ =~= first + encode_param_list(s@.params));
    let ghost second = out@;
    put_length(&mut out, s.returns.len());
    put_wire_types(&mut out, &s.returns, 0);
    assert(out@ =~= second + encode_type_list(s@.returns));
    out
}

fn read_texts(bytes: &Vec<u8>, at: usize, count: u64, acc: Vec<Vec<u8>>) -> (r: Option<
    (Vec<Vec<u8>>, usize),
>)
    requires
        at <= bytes.len(),
    ensures
        match decode_texts(bytes@.skip(at as int), count as nat) {
            None => r is None,
            Some((ts, rest)) => r matches Some((us, next)) && texts(us@) == texts(acc@) + ts && at
                <= next <= bytes.len() && rest == bytes@.skip(next as int),
        },
    decreases count,
{
    let ghost before = texts(acc@);
    if count == 0 {
        assert(before + Seq::<Seq<u8>>::empty() =~= before);
        return Some((acc, at));
    }
    match read_text(bytes, at) {
        None => None,
        Some((t, next)) => {
            let mut acc = acc;
            acc.push(t);
            assert(texts(acc@) =~= before.push(t@));
            let r = read_texts(bytes, next, count - 1, acc);
            proof {
                match decode_texts(bytes@.skip(next as int), (count - 1) as nat) {
                    Some((ts, rest)) => {
                        assert(before.push(t@) + ts =~= before + (seq![t@] + ts));
                    },
                    None => {},
                }
            }
            r
        },
    }
}

fn read_option(bytes: &Vec<u8>, at: usize) -> (r: Option<(Option<Vec<u8>>, usize)>)
    requires
        at <= bytes.len(),
    ensures
        match decode_option(bytes@.skip(at as int)) {
            None => r is None,
            Some((o, rest)) => r matches Some((u, next)) && opt_text(u) == o && at <= next
                <= bytes.len() && rest == bytes@.skip(next as int),
        },
{
    let ghost s = bytes@.skip(at as int);
    if at == bytes.len() {
        return None;
    }
    let tag = bytes[at];
    assert(s[0] == tag);
    assert(s.skip(1) =~= bytes@.skip(at + 1));
    if tag == 0 {
        Some((None, at + 1))
    } else if tag == 1 {
        match read_text(bytes, at + 1) {
            Some((t, next)) => Some((Some(t), next)),
            None => None,
        }
    } else {
        None
    }
}

fn read_param(bytes: &Vec<u8>, at: usize) -> (r: Option<(Param, usize)>)
    requires
        at <= bytes.len(),
    ensures
        match decode_param(bytes@.skip(at as int)) {
            None => r is None,
            Some((p, rest)) => r matches Some((u, next)) && u@ == p && at <= next <= bytes.len()
                && rest == bytes@.skip(next as int),
        },
{
    match read_text(bytes, at) {
        None => None,
        Some((name, mid)) => match read_type(bytes, mid) {
            None => None,
            Some((ty, mid2)) => match read_option(bytes, mid2) {
                None => None,
                Some((default, next)) => Some((Param { name, ty, default }, next)),
            },
        },
    }
}

fn read_params(bytes: &Vec<u8>, at: usize, count: u64, acc: Vec<Param>) -> (r: Option<
    (Vec<Param>, usize),
>)
    requires
        at <= bytes.len(),
    ensures
        match decode_params(bytes@.skip(at as int), count as nat) {
            None => r is None,
            Some((ps, rest)) => r matches Some((us, next)) && us.deep_view() == acc.deep_view()
                + ps && at <= next <= bytes.len() && rest == bytes@.skip(next as int),
        },
    decreases count,
{
    let ghost before = acc.deep_view();
    if count == 0 {
        assert(before + Seq::<ParamView>::empty() =~= before);
        return Some((acc, at));
    }
    match read_param(bytes, at) {
        None => None,
        Some((p, next)) => {
            let mut acc = acc;
            acc.push(p);
            assert(acc.deep_view() =~= before.push(p@));
            let r = read_params(bytes, next, count - 1, acc);
            proof {
                match decode_params(bytes@.skip(next as int), (count - 1) as nat) {
                    Some((ps, rest)) => {
                        assert(before.push(p@) + ps =~= before + (seq![p@] + ps));
                    },
                    None => {},
                }
            }
            r
        },
    }
}

/// What `bytes` spell as a whole: a signature, if they are one signature's
/// written form and nothing more.
pub open spec fn parsed(bytes: Seq<u8>) -> Option<SignatureView> {
    match decode_signature(bytes) {
        Some((s, rest)) => if rest.len() == 0 {
            Some(s)
        } else {
            None
        },
        None => None,
    }
}

/// Reads a signature from bytes that hold its written form and nothing more.
pub fn parse(bytes: &Vec<u8>) -> (r: Option<Signature>)
    ensures
        match parsed(bytes@) {
            Some(s) => r matches Some(u) && u@ == s,
            None => r is None,
        },
{
    assert(bytes@.skip(0) =~= bytes@);
    let (g, at1) = match read_length(bytes, 0) {
        Some(x) => x,
        None => {
            return None;
        },
    };
    let none: Vec<Vec<u8>> = Vec::new();
    assert(texts(none@) =~= Seq::<Seq<u8>>::empty());
    let (generics, at2) = match read_texts(bytes, at1, g, none) {
        Some(x) => x,
        None => {
            return None;
        },
    };
    let (p, at3) = match read_length(bytes, at2) {
        Some(x) => x,
        None => {
            return None;
        },
    };
    let nobody: Vec<Param> = Vec::new();
    assert(nobody.deep_view() =~= Seq::<ParamView>::empty());
    let (params, at4) = match read_params(bytes, at3, p, nobody) {
        Some(x) => x,
        None => {
            return None;
        },
    };
    let (results, at5) = match read_list(bytes, at4) {
        Some(x) => x,
        None => {
            return None;
        },
    };
    proof {
        let (gs, _r) = decode_texts(bytes@.skip(at1 as int), g as nat).unwrap();
        assert(Seq::<Seq<u8>>::empty() + gs =~= gs);
        let (ps, _r) = decode_params(bytes@.skip(at3 as int), p as nat).unwrap();
        assert(Seq::<ParamView>::empty() + ps =~= ps);
        let (rs, _r) = decode_list(bytes@.skip(at4 as int)).unwrap();
        assert(Seq::<TypeView>::empty() + rs =~= rs);
    }
    if at5 == bytes.len() {
        Some(Signature { generics, params, returns: results })
    } else {
        None
    }
}

/// Serialising a signature and parsing the bytes gives the signature back.
pub proof fn lemma_parse_inverts_serialize(s: SignatureView)
    requires
        signature_encodable(s),
    ensures
        parsed(encode_signature(s)) == Some(s),
{
    lemma_signature_round_trip(s, Seq::empty());
    assert(encode_signature(s) + Seq::<u8>::empty() =~= encode_signature(s));
}

/// A signature that is held in memory can always be serialised.
pub proof fn lemma_exec_signature_is_encodable(s: Signature)
    ensures
        signature_encodable(s@),
{
    let v = s@;
    assert(s.generics@.len() == s.generics.len());
    assert(s.params@.len() == s.params.len());
    assert(s.returns@.len() == s.returns.len());
    assert forall|i: int| 0 <= i < v.generics.len() implies (#[trigger] v.generics[i]).len()
        < length_limit() by {
        assert(s.generics@[i]@.len() == s.generics@[i].len());
    }
    assert forall|i: int| 0 <= i < v.params.len() implies param_encodable(
        #[trigger] v.params[i],
    ) by {
        let p = s.params@[i];
        assert(v.params[i] == p@);
        assert(p.name@.len() == p.name.len());
        lemma_exec_type_is_encodable(p.ty);
        match p.default {
            Some(d) => {
                assert(d@.len() == d.len());
            },
            None => {},
        }
    }
    assert forall|i: int| 0 <= i < v.returns.len() implies encodable(#[trigger] v.returns[i]) by {
        lemma_exec_type_is_encodable(s.returns@[i]);
    }
}

/// Every signature that is held in memory parses back, from what it
/// serialises to, as an equal structured value.
pub proof fn lemma_round_trip(s: Signature)
    ensures
        parsed(encode_signature(s@)) == Some(s@),
{
    lemma_exec_signature_is_encodable(s);
    lemma_parse_inverts_serialize(s@);
}

} // verus!
