//! The executable bencode encoder, producing the canonical encoding.

use vstd::prelude::*;

use crate::grammar::{
    dec_digits, enc, enc_bytes, enc_pairs, enc_seq, DIGIT_ZERO, TOK_COLON, TOK_DICT, TOK_END,
    TOK_INT, TOK_LIST, TOK_MINUS,
};
use crate::value::{lemma_model_dict, lemma_model_list, model, models, pair_models, Value};
use crate::value::BValue;

verus! {

broadcast use vstd::std_specs::vec::group_vec_axioms, vstd::seq::group_seq_axioms;

/// Appending one more element encodes after the prefix.
proof fn lemma_enc_seq_snoc(items: Seq<BValue>, x: BValue)
    ensures
        enc_seq(items.push(x)) == enc_seq(items) + enc(x),
    decreases items.len(),
{
    let whole = items.push(x);
    if items.len() == 0 {
        assert(whole.subrange(1, whole.len() as int) =~= Seq::<BValue>::empty());
        assert(whole[0] == x);
        assert(enc_seq(whole) == enc(x) + enc_seq(Seq::<BValue>::empty()));
        assert(enc(x) + Seq::<u8>::empty() =~= enc(x));
        assert(enc_seq(items) + enc(x) =~= enc(x));
    } else {
        assert(whole.subrange(1, whole.len() as int) =~= items.subrange(
            1,
            items.len() as int,
        ).push(x));
        lemma_enc_seq_snoc(items.subrange(1, items.len() as int), x);
        assert(enc_seq(whole) =~= enc_seq(items) + enc(x));
    }
}

/// Appending one more pair encodes after the prefix.
proof fn lemma_enc_pairs_snoc(pairs: Seq<(Seq<u8>, BValue)>, x: (Seq<u8>, BValue))
    ensures
        enc_pairs(pairs.push(x)) == enc_pairs(pairs) + enc_bytes(x.0) + enc(x.1),
    decreases pairs.len(),
{
    let whole = pairs.push(x);
    if pairs.len() == 0 {
        assert(whole.subrange(1, whole.len() as int) =~= Seq::<(Seq<u8>, BValue)>::empty());
        assert(whole[0] == x);
        assert(enc_pairs(whole) == enc_bytes(x.0) + enc(x.1) + enc_pairs(
            Seq::<(Seq<u8>, BValue)>::empty(),
        ));
        assert(enc_bytes(x.0) + enc(x.1) + Seq::<u8>::empty() =~= enc_bytes(x.0) + enc(x.1));
        assert(enc_pairs(pairs) + enc_bytes(x.0) + enc(x.1) =~= enc_bytes(x.0) + enc(x.1));
    } else {
        assert(whole.subrange(1, whole.len() as int) =~= pairs.subrange(
            1,
            pairs.len() as int,
        ).push(x));
        lemma_enc_pairs_snoc(pairs.subrange(1, pairs.len() as int), x);
        assert(enc_pairs(whole) =~= enc_pairs(pairs) + enc_bytes(x.0) + enc(x.1));
    }
}

/// Appends the canonical decimal digits of `n`.
fn push_digits(n: u64, out: &mut Vec<u8>)
    ensures
        final(out)@ == old(out)@ + dec_digits(n as int),
    decreases n,
{
    if n <= 9 {
        out.push(DIGIT_ZERO + n as u8);
        assert(out@ =~= old(out)@ + dec_digits(n as int));
    } else {
        push_digits(n / 10, out);
        out.push(DIGIT_ZERO + (n % 10) as u8);
        assert(out@ =~= old(out)@ + dec_digits(n as int));
    }
}

/// Appends the encoding of one byte string: decimal length, `:`, payload.
fn push_bytes(b: &Vec<u8>, out: &mut Vec<u8>)
    ensures
        final(out)@ == old(out)@ + enc_bytes(b@),
{
    push_digits(b.len() as u64, out);
    out.push(TOK_COLON);
    let mut j: usize = 0;
    while j < b.len()
        invariant
            0 <= j <= b@.len(),
            out@ =~= old(out)@ + dec_digits(b@.len() as int) + seq![TOK_COLON] + b@.subrange(
                0,
                j as int,
            ),
        decreases b@.len() - j,
    {
        out.push(b[j]);
        proof {
            assert(b@.subrange(0, j + 1) =~= b@.subrange(0, j as int).push(b@[j as int]));
        }
        j = j + 1;
    }
    proof {
        assert(b@.subrange(0, b@.len() as int) =~= b@);
        assert(out@ =~= old(out)@ + enc_bytes(b@));
    }
}

/// Appends the canonical encoding of `v`.
fn encode_into(v: &Value, out: &mut Vec<u8>)
    ensures
        final(out)@ == old(out)@ + enc(v@),
    decreases v,
{
    match v {
        Value::Integer(i) => {
            out.push(TOK_INT);
            let mag: u64 = if *i < 0 {
                if *i == i64::MIN {
                    9_223_372_036_854_775_808u64
                } else {
                    (-*i) as u64
                }
            } else {
                *i as u64
            };
            if *i < 0 {
                out.push(TOK_MINUS);
            }
            push_digits(mag, out);
            out.push(TOK_END);
            assert(out@ =~= old(out)@ + enc(v@));
        },
        Value::ByteString(b) => {
            push_bytes(b, out);
        },
        Value::List(l) => {
            out.push(TOK_LIST);
            let mut j: usize = 0;
            proof {
                lemma_model_list(*l);
                assert(models(l@).subrange(0, 0) =~= Seq::<BValue>::empty());
            }
            #[verifier::loop_isolation(false)]
            while j < l.len()
                invariant
                    *v == Value::List(*l),
                    0 <= j <= l@.len(),
                    out@ =~= old(out)@ + seq![TOK_LIST] + enc_seq(
                        models(l@).subrange(0, j as int),
                    ),
                decreases l@.len() - j,
            {
                encode_into(&l[j], out);
                proof {
                    assert(models(l@).subrange(0, j + 1) =~= models(l@).subrange(
                        0,
                        j as int,
                    ).push(model(l@[j as int])));
                    lemma_enc_seq_snoc(models(l@).subrange(0, j as int), model(l@[j as int]));
                }
                j = j + 1;
            }
            out.push(TOK_END);
            proof {
                assert(models(l@).subrange(0, l@.len() as int) =~= models(l@));
                assert(out@ =~= old(out)@ + enc(v@));
            }
        },
        Value::Dictionary(d) => {
            out.push(TOK_DICT);
            let mut j: usize = 0;
            proof {
                lemma_model_dict(*d);
                assert(pair_models(d@).subrange(0, 0) =~= Seq::<(Seq<u8>, BValue)>::empty());
            }
            #[verifier::loop_isolation(false)]
            while j < d.len()
                invariant
                    *v == Value::Dictionary(*d),
                    0 <= j <= d@.len(),
                    out@ =~= old(out)@ + seq![TOK_DICT] + enc_pairs(
                        pair_models(d@).subrange(0, j as int),
                    ),
                decreases d@.len() - j,
            {
                push_bytes(&d[j].0, out);
                encode_into(&d[j].1, out);
                proof {
                    assert(pair_models(d@).subrange(0, j + 1) =~= pair_models(d@).subrange(
                        0,
                        j as int,
                    ).push((d@[j as int].0@, model(d@[j as int].1))));
                    lemma_enc_pairs_snoc(
                        pair_models(d@).subrange(0, j as int),
                        (d@[j as int].0@, model(d@[j as int].1)),
                    );
                }
                j = j + 1;
            }
            out.push(TOK_END);
            proof {
                assert(pair_models(d@).subrange(0, d@.len() as int) =~= pair_models(d@));
                assert(out@ =~= old(out)@ + enc(v@));
            }
        },
    }
}

/// The canonical bencode encoding of `v`.
pub fn encode(v: &Value) -> (out: Vec<u8>)
    ensures
        out@ == enc(v@),
{
    let mut out: Vec<u8> = Vec::new();
    encode_into(v, &mut out);
    proof {
        assert(Seq::<u8>::empty() + enc(v@) =~= enc(v@));
    }
    out
}

} // verus!
