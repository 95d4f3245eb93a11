//! Reconstruction of a request's path and query string from the decoded
//! query parameters of an invocation event.
use vstd::prelude::*;
use vstd::slice::slice_to_vec;
use vstd::utf8::*;
use crate::percent::{encode_component, lemma_decode_encode, lemma_encode_shape, percent_decode, push_encoded};
use crate::text::{all_ascii, ascii_chars, lemma_ascii_utf8, lemma_encode_utf8_concat, string_from_utf8};

verus! {

broadcast use group_utf8_lib;

/// One `key=value` pair of the query, led by `?` when it is the first and by
/// `&` otherwise.
pub open spec fn query_pair(key: Seq<u8>, value: Seq<u8>, first: bool) -> Seq<u8> {
    seq![if first { 0x3fu8 } else { 0x26u8 }] + query_segment(key, value)
}

/// The encoded `key=value` text of one parameter.
pub open spec fn query_segment(key: Seq<u8>, value: Seq<u8>) -> Seq<u8> {
    encode_component(key) + seq![0x3du8] + encode_component(value)
}

/// The query string of a parameter list, `?` included; empty when there are
/// no parameters.
pub open spec fn query_bytes(params: Seq<(Seq<u8>, Seq<u8>)>) -> Seq<u8>
    decreases params.len(),
{
    if params.len() == 0 {
        seq![]
    } else {
        query_bytes(params.drop_last()) + query_pair(
            params.last().0,
            params.last().1,
            params.len() == 1,
        )
    }
}

/// The UTF-8 bytes of each key and value.
pub open spec fn param_bytes(params: Seq<(String, String)>) -> Seq<(Seq<u8>, Seq<u8>)> {
    params.map_values(|p: (String, String)| (encode_utf8(p.0@), encode_utf8(p.1@)))
}

/// The path followed by the query string of the parameters.
pub open spec fn path_and_query(path: Seq<char>, params: Seq<(String, String)>) -> Seq<char> {
    path + ascii_chars(query_bytes(param_bytes(params)))
}

/// A query string is ASCII.
pub proof fn lemma_query_ascii(params: Seq<(Seq<u8>, Seq<u8>)>)
    ensures
        all_ascii(query_bytes(params)),
    decreases params.len(),
{
    if params.len() > 0 {
        lemma_query_ascii(params.drop_last());
        let p = params.last();
        lemma_encode_shape(p.0);
        lemma_encode_shape(p.1);
        let a = query_bytes(params.drop_last());
        let e = query_pair(p.0, p.1, params.len() == 1);
        let ek = encode_component(p.0);
        let ev = encode_component(p.1);
        assert forall|i: int| 0 <= i < a.len() + e.len() implies #[trigger] (a + e)[i] < 128 by {
            if i < a.len() {
            } else if i == a.len() {
            } else if i < a.len() + 1 + ek.len() {
                assert(e[i - a.len()] == ek[i - a.len() - 1]);
            } else if i == a.len() + 1 + ek.len() {
            } else {
                assert(e[i - a.len()] == ev[i - a.len() - 2 - ek.len()]);
            }
        }
    }
}

/// The index of the last `&` of a byte sequence, or -1 where it has none.
pub open spec fn last_amp(s: Seq<u8>) -> int
    decreases s.len(),
{
    if s.len() == 0 {
        -1
    } else if s.last() == 0x26u8 {
        s.len() - 1
    } else {
        last_amp(s.drop_last())
    }
}

/// The index of the first `=` of a byte sequence, or its length where it
/// has none.
pub open spec fn first_eq(s: Seq<u8>) -> int
    decreases s.len(),
{
    if s.len() == 0 || s[0] == 0x3du8 {
        0
    } else {
        1 + first_eq(s.drop_first())
    }
}

/// The key and value that one `key=value` segment spells once decoded.
pub open spec fn parse_segment(seg: Seq<u8>) -> (Seq<u8>, Seq<u8>) {
    let k = first_eq(seg);
    if k < seg.len() {
        (percent_decode(seg.subrange(0, k)), percent_decode(seg.subrange(k + 1, seg.len() as int)))
    } else {
        (percent_decode(seg), seq![])
    }
}

/// The parameters that a query string led by `?` spells: its segments
/// between `&`s, each split at its first `=` and percent-decoded.
pub open spec fn parse_query(q: Seq<u8>) -> Seq<(Seq<u8>, Seq<u8>)>
    decreases q.len(),
{
    if q.len() == 0 {
        seq![]
    } else {
        let a = last_amp(q);
        let j = if 0 <= a < q.len() { a } else { 0 };
        parse_query(q.subrange(0, j)).push(parse_segment(q.subrange(j + 1, q.len() as int)))
    }
}

proof fn lemma_last_amp_append(s: Seq<u8>, t: Seq<u8>)
    requires
        forall|i: int| 0 <= i < t.len() ==> #[trigger] t[i] != 0x26u8,
    ensures
        last_amp(s + t) == last_amp(s),
    decreases t.len(),
{
    if t.len() > 0 {
        assert((s + t).drop_last() =~= s + t.drop_last());
        assert((s + t).last() == t[t.len() - 1]);
        lemma_last_amp_append(s, t.drop_last());
    } else {
        assert(s + t =~= s);
    }
}

proof fn lemma_first_eq_prefix(x: Seq<u8>, y: Seq<u8>)
    requires
        forall|i: int| 0 <= i < x.len() ==> #[trigger] x[i] != 0x3du8,
    ensures
        first_eq(x + seq![0x3du8] + y) == x.len(),
    decreases x.len(),
{
    let s = x + seq![0x3du8] + y;
    if x.len() > 0 {
        assert(s.drop_first() =~= x.drop_first() + seq![0x3du8] + y);
        assert(s[0] == x[0]);
        lemma_first_eq_prefix(x.drop_first(), y);
    }
}

/// Reading the query string back, by splitting it at each `&` and at the
/// first `=` of each segment and percent-decoding key and value, yields the
/// original parameters in their order, including those whose keys or values
/// hold `%`, `&` or `=`.
pub proof fn lemma_query_round_trip(params: Seq<(Seq<u8>, Seq<u8>)>)
    ensures
        parse_query(query_bytes(params)) == params,
    decreases params.len(),
{
    if params.len() > 0 {
        let prev = params.drop_last();
        let p = params.last();
        let qp = query_bytes(prev);
        let ek = encode_component(p.0);
        let ev = encode_component(p.1);
        let seg = query_segment(p.0, p.1);
        let first = params.len() == 1;
        let sep: u8 = if first { 0x3fu8 } else { 0x26u8 };
        let q = query_bytes(params);
        lemma_encode_shape(p.0);
        lemma_encode_shape(p.1);
        assert forall|i: int| 0 <= i < seg.len() implies #[trigger] seg[i] != 0x26u8 by {
            if i < ek.len() {
                assert(seg[i] == ek[i]);
            } else if i > ek.len() {
                assert(seg[i] == ev[i - ek.len() - 1]);
            }
        }
        assert(q =~= (qp + seq![sep]) + seg);
        lemma_last_amp_append(qp + seq![sep], seg);
        lemma_first_eq_prefix(ek, ev);
        lemma_decode_encode(p.0);
        lemma_decode_encode(p.1);
        assert(seg.subrange(0, ek.len() as int) =~= ek);
        assert(seg.subrange(ek.len() as int + 1, seg.len() as int) =~= ev);
        assert(parse_segment(seg) == p);
        lemma_query_round_trip(prev);
        if first {
            assert(prev.len() == 0);
            assert(qp =~= Seq::<u8>::empty());
            let e: Seq<u8> = Seq::empty();
            assert(seq![sep].drop_last() =~= e);
            assert(last_amp(seq![sep]) == -1);
            assert(qp + seq![sep] =~= seq![sep]);
            assert(q.subrange(0, 0) =~= Seq::<u8>::empty());
            assert(parse_query(q.subrange(0, 0)) =~= Seq::<(Seq<u8>, Seq<u8>)>::empty());
            assert(q.subrange(1, q.len() as int) =~= seg);
        } else {
            assert((qp + seq![sep]).last() == 0x26u8);
            assert((qp + seq![sep]).drop_last() =~= qp);
            assert(q.subrange(0, qp.len() as int) =~= qp);
            assert(q.subrange(qp.len() as int + 1, q.len() as int) =~= seg);
        }
        assert(params =~= prev.push(p));
    }
}

/// Builds the path and query string of a request: the path as it is, then
/// each parameter as `key=value`, both percent-encoded, the first led by `?`
/// and the others by `&`.
pub fn build_path_and_query(path: &str, params: &Vec<(String, String)>) -> (r: String)
    ensures
        r@ == path_and_query(path@, params@),
        params@.len() == 0 ==> r@ == path@,
{
    let mut out = slice_to_vec(path.as_bytes());
    let ghost pb = param_bytes(params@);
    let mut i: usize = 0;
    while i < params.len()
        invariant
            i <= params@.len(),
            pb == param_bytes(params@),
            out@ == encode_utf8(path@) + query_bytes(pb.subrange(0, i as int)),
        decreases params@.len() - i,
    {
        let ghost before = out@;
        if i == 0 {
            out.push(0x3fu8);
        } else {
            out.push(0x26u8);
        }
        push_encoded(&mut out, params[i].0.as_str());
        out.push(0x3du8);
        push_encoded(&mut out, params[i].1.as_str());
        proof {
            let sub = pb.subrange(0, i + 1);
            assert(sub.drop_last() =~= pb.subrange(0, i as int));
            assert(sub.last() == pb[i as int]);
            assert(out@ =~= before + query_pair(pb[i as int].0, pb[i as int].1, i == 0));
        }
        i = i + 1;
    }
    proof {
        assert(pb.subrange(0, i as int) =~= pb);
        let q = query_bytes(pb);
        lemma_query_ascii(pb);
        lemma_ascii_utf8(q);
        lemma_encode_utf8_concat(path@, ascii_chars(q));
        assert(valid_utf8(encode_utf8(path@)));
        if params@.len() == 0 {
            assert(ascii_chars(q) =~= Seq::<char>::empty());
            assert(path@ + ascii_chars(q) =~= path@);
        }
    }
    match string_from_utf8(out) {
        Some(s) => {
            proof {
                assert(decode_utf8(encode_utf8(s@)) == s@);
                assert(decode_utf8(encode_utf8(path@ + ascii_chars(query_bytes(pb)))) == path@
                    + ascii_chars(query_bytes(pb)));
            }
            s
        },
        None => String::new(),
    }
}

} // verus!
