//! Round-trip laws: a strict parse accepts the canonical encoding of every
//! well-formed value tree and returns it unchanged, and every tree a strict
//! parse produces is well-formed. Together: re-encoding a decoded value and
//! decoding again yields an equal value tree.

use vstd::prelude::*;

use crate::errors::DecodeErrorKind;
use crate::grammar::{
    bytes_lt, clamped, dec_digits, dec_value, digit_run_end, enc, enc_bytes, enc_pairs, enc_seq,
    is_digit, parse_bstr, parse_document, parse_int, parse_items, parse_pairs, parse_value,
    wf_value, DIGIT_ZERO, TOK_COLON, TOK_DICT, TOK_END, TOK_INT, TOK_LIST, TOK_MINUS,
};
use crate::value::BValue;

verus! {

broadcast use vstd::std_specs::vec::group_vec_axioms, vstd::seq::group_seq_axioms;

/// The canonical digits of `n` are digits, have no leading zero, and read
/// back as `n`.
proof fn lemma_dec_digits_props(n: int)
    requires
        n >= 0,
    ensures
        dec_digits(n).len() >= 1,
        forall|i: int| 0 <= i < dec_digits(n).len() ==> is_digit(#[trigger] dec_digits(n)[i]),
        n == 0 ==> dec_digits(n) =~= seq![DIGIT_ZERO],
        n >= 1 ==> dec_digits(n)[0] != DIGIT_ZERO,
        dec_value(dec_digits(n)) == n,
    decreases n,
{
    let dd = dec_digits(n);
    if n <= 9 {
        assert(dd =~= seq![(DIGIT_ZERO + n) as u8]);
        assert(dd.subrange(0, 0) =~= Seq::<u8>::empty());
        assert(dec_value(dd) == dec_value(dd.subrange(0, 0)) * 10 + (dd[0] - DIGIT_ZERO));
    } else {
        lemma_dec_digits_props(n / 10);
        assert(dd == dec_digits(n / 10) + seq![(DIGIT_ZERO + n % 10) as u8]);
        assert(dd.subrange(0, dd.len() - 1) =~= dec_digits(n / 10));
        assert(dd[dd.len() - 1] == (DIGIT_ZERO + n % 10) as u8);
        assert(dec_value(dd) == dec_value(dec_digits(n / 10)) * 10 + n % 10);
        assert(dd[0] == dec_digits(n / 10)[0]);
    }
}

/// A region of digits followed by a non-digit pins down `digit_run_end`.
proof fn lemma_digit_run(s: Seq<u8>, pos: int, k: int)
    requires
        0 <= pos,
        0 <= k,
        pos + k <= s.len(),
        forall|i: int| pos <= i < pos + k ==> is_digit(#[trigger] s[i]),
        pos + k == s.len() || !is_digit(s[pos + k]),
    ensures
        digit_run_end(s, pos) == pos + k,
    decreases k,
{
    if k > 0 {
        lemma_digit_run(s, pos + 1, k - 1);
    }
}

/// Every encoding is at least two bytes and opens with the byte that
/// dispatches to its own token kind.
proof fn lemma_enc_first(v: BValue)
    ensures
        enc(v).len() >= 2,
        v is Int ==> enc(v)[0] == TOK_INT,
        v is Bytes ==> is_digit(enc(v)[0]),
        v is List ==> enc(v)[0] == TOK_LIST,
        v is Dict ==> enc(v)[0] == TOK_DICT,
{
    match v {
        BValue::Int(i) => {
            if i < 0 {
                lemma_dec_digits_props(-i);
            } else {
                lemma_dec_digits_props(i);
            }
        },
        BValue::Bytes(b) => {
            lemma_dec_digits_props(b.len() as int);
            assert(enc(v)[0] == dec_digits(b.len() as int)[0]);
        },
        BValue::List(_) => {},
        BValue::Dict(_) => {},
    }
}

/// A strict or lenient parse reads the canonical encoding of a byte string
/// back as that byte string.
proof fn lemma_enc_parse_bstr(s: Seq<u8>, pos: int, b: Seq<u8>)
    requires
        0 <= pos,
        pos + enc_bytes(b).len() <= s.len(),
        s.subrange(pos, pos + enc_bytes(b).len()) == enc_bytes(b),
    ensures
        parse_bstr(s, pos) == Ok::<(Seq<u8>, int), (DecodeErrorKind, int)>(
            (b, pos + enc_bytes(b).len()),
        ),
{
    let dd = dec_digits(b.len() as int);
    lemma_dec_digits_props(b.len() as int);
    let k = dd.len() as int;
    let total = enc_bytes(b).len() as int;
    assert forall|i: int| pos <= i < pos + k implies is_digit(#[trigger] s[i]) by {
        assert(s[i] == enc_bytes(b)[i - pos]);
        assert(enc_bytes(b)[i - pos] == dd[i - pos]);
    }
    assert(s[pos + k] == enc_bytes(b)[k]);
    assert(s[pos + k] == TOK_COLON);
    lemma_digit_run(s, pos, k);
    let e = pos + k;
    assert(s.subrange(pos, e) =~= dd) by {
        assert forall|i: int| 0 <= i < k implies s.subrange(pos, e)[i] == dd[i] by {
            assert(s[pos + i] == enc_bytes(b)[i]);
        }
    }
    assert(dec_value(s.subrange(pos, e)) == b.len() as int);
    assert(s[pos] == dd[0]);
    assert(s.subrange(e + 1, e + 1 + b.len()) =~= b) by {
        assert forall|i: int| 0 <= i < b.len() implies s.subrange(e + 1, e + 1 + b.len())[i]
            == b[i] by {
            assert(s[e + 1 + i] == enc_bytes(b)[k + 1 + i]);
        }
    }
}

/// A strict or lenient parse reads the canonical encoding of an integer
/// back as that integer.
proof fn lemma_enc_parse_int(s: Seq<u8>, pos: int, i: int)
    requires
        i64::MIN as int <= i <= i64::MAX as int,
        0 <= pos,
        pos + enc(BValue::Int(i)).len() <= s.len(),
        s.subrange(pos, pos + enc(BValue::Int(i)).len()) == enc(BValue::Int(i)),
    ensures
        parse_int(s, pos) == Ok::<(BValue, int), (DecodeErrorKind, int)>(
            (BValue::Int(i), pos + enc(BValue::Int(i)).len()),
        ),
{
    let ev = enc(BValue::Int(i));
    let total = ev.len() as int;
    let mag = if i < 0 {
        -i
    } else {
        i
    };
    lemma_dec_digits_props(mag);
    let dd = dec_digits(mag);
    let k = dd.len() as int;
    let d0 = if i < 0 {
        pos + 2
    } else {
        pos + 1
    };
    assert forall|j: int| 0 <= j < total implies s[pos + j] == ev[j] by {
        assert(s.subrange(pos, pos + total)[j] == ev[j]);
    }
    assert(s[pos + 0] == ev[0]);
    if i < 0 {
        assert(ev =~= seq![TOK_INT] + (seq![TOK_MINUS] + dd) + seq![TOK_END]);
        assert(s[pos] == TOK_INT);
        assert(s[pos + 1] == ev[1]);
        assert(s[pos + 1] == TOK_MINUS);
    } else {
        assert(ev =~= seq![TOK_INT] + dd + seq![TOK_END]);
        assert(s[pos] == TOK_INT);
        assert(s[pos + 1] == ev[1]);
        assert(s[pos + 1] == dd[0]);
    }
    assert forall|j: int| d0 <= j < d0 + k implies is_digit(#[trigger] s[j]) by {
        assert(s[j] == ev[j - pos]);
        assert(ev[j - pos] == dd[j - (d0)]);
    }
    assert(s[d0 + k] == ev[d0 + k - pos]);
    assert(s[d0 + k] == TOK_END);
    lemma_digit_run(s, d0, k);
    assert(s.subrange(d0, d0 + k) =~= dd) by {
        assert forall|j: int| 0 <= j < k implies s.subrange(d0, d0 + k)[j] == dd[j] by {
            assert(s[d0 + j] == ev[d0 + j - pos]);
        }
    }
    assert(dec_value(s.subrange(d0, d0 + k)) == mag);
    assert(s[d0] == dd[0]);
}

/// A parse at any strictness reads the canonical encoding of a well-formed
/// value back as that value.
pub proof fn lemma_enc_parse_value(s: Seq<u8>, pos: int, depth: nat, strict: bool, v: BValue)
    requires
        wf_value(v, depth),
        0 <= pos,
        pos + enc(v).len() <= s.len(),
        s.subrange(pos, pos + enc(v).len()) == enc(v),
    ensures
        parse_value(s, pos, depth, strict) == Ok::<(BValue, int), (DecodeErrorKind, int)>(
            (v, pos + enc(v).len()),
        ),
    decreases v, 0int,
{
    lemma_enc_first(v);
    assert(s[pos] == enc(v)[0]) by {
        assert(s.subrange(pos, pos + enc(v).len())[0] == enc(v)[0]);
    }
    match v {
        BValue::Int(i) => {
            lemma_enc_parse_int(s, pos, i);
        },
        BValue::Bytes(b) => {
            lemma_enc_parse_bstr(s, pos, b);
        },
        BValue::List(items) => {
            let body = enc_seq(items.subrange(0, items.len() as int));
            assert(items.subrange(0, items.len() as int) =~= items);
            let total = enc(v).len() as int;
            assert(enc(v) =~= seq![TOK_LIST] + enc_seq(items) + seq![TOK_END]);
            assert(s.subrange(pos + 1, pos + 1 + enc_seq(items).len() + 1) =~= enc_seq(items)
                + seq![TOK_END]) by {
                assert forall|j: int| 0 <= j < enc_seq(items).len() + 1 implies s.subrange(
                    pos + 1,
                    pos + 1 + enc_seq(items).len() + 1,
                )[j] == (enc_seq(items) + seq![TOK_END])[j] by {
                    assert(s[pos + 1 + j] == s.subrange(pos, pos + total)[1 + j]);
                }
            }
            lemma_enc_parse_items(s, pos + 1, (depth - 1) as nat, strict, items, 0);
        },
        BValue::Dict(pairs) => {
            assert(pairs.subrange(0, pairs.len() as int) =~= pairs);
            let total = enc(v).len() as int;
            assert(enc(v) =~= seq![TOK_DICT] + enc_pairs(pairs) + seq![TOK_END]);
            assert(s.subrange(pos + 1, pos + 1 + enc_pairs(pairs).len() + 1) =~= enc_pairs(pairs)
                + seq![TOK_END]) by {
                assert forall|j: int| 0 <= j < enc_pairs(pairs).len() + 1 implies s.subrange(
                    pos + 1,
                    pos + 1 + enc_pairs(pairs).len() + 1,
                )[j] == (enc_pairs(pairs) + seq![TOK_END])[j] by {
                    assert(s[pos + 1 + j] == s.subrange(pos, pos + total)[1 + j]);
                }
            }
            lemma_enc_parse_pairs(
                s,
                pos + 1,
                (depth - 1) as nat,
                strict,
                pairs,
                0,
                Option::None,
            );
        },
    }
}

/// A parse reads the concatenated encodings of the items from `i` on, then
/// the closing `e`, back as those items.
proof fn lemma_enc_parse_items(
    s: Seq<u8>,
    pos: int,
    depth: nat,
    strict: bool,
    items: Seq<BValue>,
    i: int,
)
    requires
        0 <= i <= items.len(),
        forall|j: int| i <= j < items.len() ==> wf_value(#[trigger] items[j], depth),
        0 <= pos,
        pos + enc_seq(items.subrange(i, items.len() as int)).len() + 1 <= s.len(),
        s.subrange(pos, pos + enc_seq(items.subrange(i, items.len() as int)).len() + 1)
            == enc_seq(items.subrange(i, items.len() as int)) + seq![TOK_END],
    ensures
        parse_items(s, pos, depth, strict) == Ok::<(Seq<BValue>, int), (DecodeErrorKind, int)>(
            (
                items.subrange(i, items.len() as int),
                pos + enc_seq(items.subrange(i, items.len() as int)).len() + 1,
            ),
        ),
    decreases items, items.len() - i,
{
    let rest = items.subrange(i, items.len() as int);
    let body = enc_seq(rest);
    let total = body.len() as int + 1;
    assert forall|j: int| 0 <= j < total implies s[pos + j] == (body + seq![TOK_END])[j] by {
        assert(s.subrange(pos, pos + total)[j] == (body + seq![TOK_END])[j]);
    }
    if i == items.len() {
        assert(rest =~= Seq::<BValue>::empty());
        assert(body.len() == 0);
        assert(s[pos + 0] == (body + seq![TOK_END])[0]);
        assert(s[pos] == TOK_END);
    } else {
        let hd = items[i];
        assert(rest[0] == hd);
        assert(rest.subrange(1, rest.len() as int) =~= items.subrange(
            i + 1,
            items.len() as int,
        ));
        let tail = items.subrange(i + 1, items.len() as int);
        assert(body == enc(hd) + enc_seq(tail));
        let l0 = enc(hd).len() as int;
        lemma_enc_first(hd);
        assert(s.subrange(pos, pos + l0) =~= enc(hd)) by {
            assert forall|j: int| 0 <= j < l0 implies s.subrange(pos, pos + l0)[j] == enc(
                hd,
            )[j] by {
                assert(s[pos + j] == (body + seq![TOK_END])[j]);
            }
        }
        lemma_enc_parse_value(s, pos, depth, strict, hd);
        assert(s[pos] == enc(hd)[0]);
        assert(s[pos] != TOK_END);
        let np = pos + l0;
        assert(clamped(np, pos + 1, s.len() as int) == np);
        assert(s.subrange(np, np + enc_seq(tail).len() + 1) =~= enc_seq(tail) + seq![TOK_END])
            by {
            assert forall|j: int| 0 <= j < enc_seq(tail).len() + 1 implies s.subrange(
                np,
                np + enc_seq(tail).len() + 1,
            )[j] == (enc_seq(tail) + seq![TOK_END])[j] by {
                assert(s[np + j] == (body + seq![TOK_END])[l0 + j]);
            }
        }
        lemma_enc_parse_items(s, np, depth, strict, items, i + 1);
        assert(seq![hd] + tail =~= rest);
    }
}

/// A parse reads the concatenated encodings of the pairs from `i` on, then
/// the closing `e`, back as those pairs; in strict mode the ascending-key
/// checks pass because the keys are sorted.
proof fn lemma_enc_parse_pairs(
    s: Seq<u8>,
    pos: int,
    depth: nat,
    strict: bool,
    pairs: Seq<(Seq<u8>, BValue)>,
    i: int,
    prev: Option<Seq<u8>>,
)
    requires
        0 <= i <= pairs.len(),
        forall|j: int| i <= j < pairs.len() ==> wf_value(#[trigger] pairs[j].1, depth),
        forall|j: int|
            i <= j < pairs.len() - 1 ==> bytes_lt(#[trigger] pairs[j].0, pairs[j + 1].0),
        match prev {
            Option::None => true,
            Option::Some(pk) => i < pairs.len() ==> bytes_lt(pk, pairs[i as int].0),
        },
        0 <= pos,
        pos + enc_pairs(pairs.subrange(i, pairs.len() as int)).len() + 1 <= s.len(),
        s.subrange(pos, pos + enc_pairs(pairs.subrange(i, pairs.len() as int)).len() + 1)
            == enc_pairs(pairs.subrange(i, pairs.len() as int)) + seq![TOK_END],
    ensures
        parse_pairs(s, pos, depth, strict, prev) == Ok::<
            (Seq<(Seq<u8>, BValue)>, int),
            (DecodeErrorKind, int),
        >(
            (
                pairs.subrange(i, pairs.len() as int),
                pos + enc_pairs(pairs.subrange(i, pairs.len() as int)).len() + 1,
            ),
        ),
    decreases pairs, pairs.len() - i,
{
    let rest = pairs.subrange(i, pairs.len() as int);
    let body = enc_pairs(rest);
    let total = body.len() as int + 1;
    assert forall|j: int| 0 <= j < total implies s[pos + j] == (body + seq![TOK_END])[j] by {
        assert(s.subrange(pos, pos + total)[j] == (body + seq![TOK_END])[j]);
    }
    if i == pairs.len() {
        assert(rest =~= Seq::<(Seq<u8>, BValue)>::empty());
        assert(body.len() == 0);
        assert(s[pos + 0] == (body + seq![TOK_END])[0]);
        assert(s[pos] == TOK_END);
    } else {
        let key = pairs[i].0;
        let val = pairs[i].1;
        assert(rest[0] == pairs[i]);
        assert(rest.subrange(1, rest.len() as int) =~= pairs.subrange(
            i + 1,
            pairs.len() as int,
        ));
        let tail = pairs.subrange(i + 1, pairs.len() as int);
        assert(body == enc_bytes(key) + enc(val) + enc_pairs(tail));
        let lk = enc_bytes(key).len() as int;
        let lv = enc(val).len() as int;
        lemma_dec_digits_props(key.len() as int);
        assert(enc_bytes(key)[0] == dec_digits(key.len() as int)[0]);
        assert(s.subrange(pos, pos + lk) =~= enc_bytes(key)) by {
            assert forall|j: int| 0 <= j < lk implies s.subrange(pos, pos + lk)[j] == enc_bytes(
                key,
            )[j] by {
                assert(s[pos + j] == (body + seq![TOK_END])[j]);
            }
        }
        lemma_enc_parse_bstr(s, pos, key);
        assert(s[pos] == enc_bytes(key)[0]);
        assert(is_digit(s[pos]));
        assert(s[pos] != TOK_END);
        let vp = pos + lk;
        assert(clamped(vp, pos + 1, s.len() as int) == vp);
        lemma_enc_first(val);
        assert(s.subrange(vp, vp + lv) =~= enc(val)) by {
            assert forall|j: int| 0 <= j < lv implies s.subrange(vp, vp + lv)[j] == enc(
                val,
            )[j] by {
                assert(s[vp + j] == (body + seq![TOK_END])[lk + j]);
            }
        }
        lemma_enc_parse_value(s, vp, depth, strict, val);
        let np = vp + lv;
        assert(clamped(np, vp + 1, s.len() as int) == np);
        assert(s.subrange(np, np + enc_pairs(tail).len() + 1) =~= enc_pairs(tail)
            + seq![TOK_END]) by {
            assert forall|j: int| 0 <= j < enc_pairs(tail).len() + 1 implies s.subrange(
                np,
                np + enc_pairs(tail).len() + 1,
            )[j] == (enc_pairs(tail) + seq![TOK_END])[j] by {
                assert(s[np + j] == (body + seq![TOK_END])[lk + lv + j]);
            }
        }
        lemma_enc_parse_pairs(s, np, depth, strict, pairs, i + 1, Option::Some(key));
        assert(seq![(key, val)] + tail =~= rest);
    }
}

/// Decoding the canonical encoding of a well-formed value yields exactly
/// that value, at any strictness.
pub proof fn lemma_round_trip(v: BValue, depth: nat, strict: bool)
    requires
        wf_value(v, depth),
    ensures
        parse_document(enc(v), depth, strict) == Ok::<BValue, (DecodeErrorKind, int)>(v),
{
    let s = enc(v);
    assert(s.subrange(0, s.len() as int) =~= s);
    lemma_enc_parse_value(s, 0, depth, strict, v);
}

/// Every value a strict parse produces is well-formed within the same
/// container budget.
pub proof fn lemma_parse_value_wf(s: Seq<u8>, pos: int, depth: nat)
    ensures
        parse_value(s, pos, depth, true) matches Ok(r) ==> wf_value(r.0, depth),
    decreases depth, s.len() - pos, 0int,
{
    if 0 <= pos < s.len() {
        if s[pos] == TOK_LIST && depth > 0 {
            lemma_parse_items_wf(s, pos + 1, (depth - 1) as nat);
        }
        if s[pos] == TOK_DICT && depth > 0 {
            lemma_parse_pairs_wf(s, pos + 1, (depth - 1) as nat, Option::None);
        }
    }
}

/// Every item list a strict parse produces holds well-formed items.
proof fn lemma_parse_items_wf(s: Seq<u8>, pos: int, depth: nat)
    ensures
        parse_items(s, pos, depth, true) matches Ok(r) ==> forall|j: int|
            0 <= j < r.0.len() ==> wf_value(#[trigger] r.0[j], depth),
    decreases depth, s.len() - pos, 1int,
{
    if 0 <= pos < s.len() && s[pos] != TOK_END {
        match parse_value(s, pos, depth, true) {
            Ok((v, n)) => {
                lemma_parse_value_wf(s, pos, depth);
                let np = clamped(n, pos + 1, s.len() as int);
                lemma_parse_items_wf(s, np, depth);
                match parse_items(s, np, depth, true) {
                    Ok((rest, _)) => {
                        assert(forall|j: int|
                            0 <= j < rest.len() ==> (seq![v] + rest)[j + 1] == #[trigger] rest[j]);
                    },
                    Err(_) => {},
                }
            },
            Err(_) => {},
        }
    }
}

/// Every pair list a strict parse produces holds well-formed values under
/// strictly ascending keys, all above the key that came before.
proof fn lemma_parse_pairs_wf(s: Seq<u8>, pos: int, depth: nat, prev: Option<Seq<u8>>)
    ensures
        parse_pairs(s, pos, depth, true, prev) matches Ok(r) ==> {
            &&& forall|j: int| 0 <= j < r.0.len() ==> wf_value(#[trigger] r.0[j].1, depth)
            &&& forall|j: int|
                0 <= j < r.0.len() - 1 ==> bytes_lt(#[trigger] r.0[j].0, r.0[j + 1].0)
            &&& (prev matches Option::Some(pk) ==> (r.0.len() > 0 ==> bytes_lt(
                pk,
                r.0[0].0,
            )))
        },
    decreases depth, s.len() - pos, 1int,
{
    if 0 <= pos < s.len() && s[pos] != TOK_END && is_digit(s[pos]) {
        match parse_bstr(s, pos) {
            Ok((k, kn)) => {
                let vp = clamped(kn, pos + 1, s.len() as int);
                match parse_value(s, vp, depth, true) {
                    Ok((v, n)) => {
                        lemma_parse_value_wf(s, vp, depth);
                        let np = clamped(n, vp + 1, s.len() as int);
                        lemma_parse_pairs_wf(s, np, depth, Option::Some(k));
                        match parse_pairs(s, np, depth, true, Option::Some(k)) {
                            Ok((rest, _)) => {
                                assert(forall|j: int|
                                    0 <= j < rest.len() ==> (seq![(k, v)] + rest)[j + 1]
                                        == #[trigger] rest[j]);
                            },
                            Err(_) => {},
                        }
                    },
                    Err(_) => {},
                }
            },
            Err(_) => {},
        }
    }
}

/// Round trip for decoded documents: whatever a strict decode of some input
/// produced, encoding it canonically and strictly decoding again yields the
/// same value tree.
pub proof fn lemma_decode_encode_decode(s: Seq<u8>, depth: nat, v: BValue)
    requires
        parse_document(s, depth, true) == Ok::<BValue, (DecodeErrorKind, int)>(v),
    ensures
        parse_document(enc(v), depth, true) == Ok::<BValue, (DecodeErrorKind, int)>(v),
{
    lemma_parse_value_wf(s, 0, depth);
    lemma_round_trip(v, depth, true);
}

} // verus!
