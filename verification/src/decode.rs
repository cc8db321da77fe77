//! The executable bencode decoder.
//!
//! Every function is specified exactly against the reference parser in
//! [`crate::grammar`]: it returns `Ok` with the parsed value and the
//! position after it precisely when the reference parse does, and otherwise
//! the same error kind at the same byte offset.

use vstd::prelude::*;

use crate::errors::{DecodeError, DecodeErrorKind};
use crate::grammar::{
    bytes_lt, clamped, dec_value, digit_run_end, is_digit, parse_bstr, parse_document, parse_int,
    parse_items, parse_pairs, parse_value, Parsed, DIGIT_NINE, DIGIT_ZERO, TOK_COLON, TOK_DICT,
    TOK_END, TOK_INT, TOK_LIST, TOK_MINUS,
};
use crate::value::{
    lemma_model_dict, lemma_model_list, model, models, pair_models, BValue, Value,
};

verus! {

broadcast use vstd::std_specs::vec::group_vec_axioms, vstd::seq::group_seq_axioms;

/// Decimal accumulators saturate here: one above the largest length or
/// magnitude any input held in memory could call for.
const SAT_LIM: u128 = 0x1_0000_0000_0000_0000;

/// The magnitude of the smallest 64-bit integer.
const I64_MIN_MAG: u128 = 0x8000_0000_0000_0000;

/// The magnitude of the largest 64-bit integer.
const I64_MAX_MAG: u128 = 0x7FFF_FFFF_FFFF_FFFF;

/// `digit_run_end` never moves backwards and never leaves the input.
pub proof fn lemma_digit_run_end_bounds(s: Seq<u8>, pos: int)
    requires
        0 <= pos <= s.len(),
    ensures
        pos <= digit_run_end(s, pos) <= s.len(),
        pos < s.len() && is_digit(s[pos]) ==> pos + 1 <= digit_run_end(s, pos),
    decreases s.len() - pos,
{
    if pos < s.len() && is_digit(s[pos]) {
        lemma_digit_run_end_bounds(s, pos + 1);
    }
}

/// Scans the digit run starting at `pos`, returning its end and its decimal
/// value, saturated at `SAT_LIM`.
fn scan_number(s: &[u8], pos: usize) -> (r: (usize, u128))
    requires
        pos <= s@.len(),
    ensures
        r.0 as int == digit_run_end(s@, pos as int),
        pos <= r.0 <= s@.len(),
        r.1 as int == ({
            let m = dec_value(s@.subrange(pos as int, r.0 as int));
            if m < SAT_LIM as int {
                m
            } else {
                SAT_LIM as int
            }
        }),
{
    let mut i = pos;
    let mut acc: u128 = 0;
    loop
        invariant
            pos <= i <= s@.len(),
            digit_run_end(s@, pos as int) == digit_run_end(s@, i as int),
            acc as int == ({
                let m = dec_value(s@.subrange(pos as int, i as int));
                if m < SAT_LIM as int {
                    m
                } else {
                    SAT_LIM as int
                }
            }),
        decreases s@.len() - i,
    {
        if i == s.len() || !(s[i] >= DIGIT_ZERO && s[i] <= DIGIT_NINE) {
            return (i, acc);
        }
        proof {
            let sub1 = s@.subrange(pos as int, i + 1);
            assert(sub1.subrange(0, sub1.len() - 1) =~= s@.subrange(pos as int, i as int));
            assert(sub1[sub1.len() - 1] == s@[i as int]);
        }
        let d = s[i] - DIGIT_ZERO;
        let t = acc * 10 + d as u128;
        acc = if t > SAT_LIM {
            SAT_LIM
        } else {
            t
        };
        i = i + 1;
    }
}

/// Decodes the integer token opening at `pos`.
fn decode_int(s: &[u8], pos: usize) -> (r: Result<(Value, usize), DecodeError>)
    requires
        pos < s@.len(),
        s@[pos as int] == crate::grammar::TOK_INT,
    ensures
        match r {
            Ok((v, n)) => parse_int(s@, pos as int) == Ok::<_, (DecodeErrorKind, int)>(
                (v@, n as int),
            ) && pos < n <= s@.len(),
            Err(e) => parse_int(s@, pos as int) == Err::<(BValue, int), _>(
                (e.kind, e.offset as int),
            ),
        },
{
    let slen = s.len();
    let p = pos + 1;
    if p == slen {
        return Err(DecodeError { kind: DecodeErrorKind::UnexpectedEndOfInput, offset: s.len() });
    }
    let neg = s[p] == TOK_MINUS;
    let d0 = if neg {
        p + 1
    } else {
        p
    };
    if d0 >= s.len() {
        return Err(DecodeError { kind: DecodeErrorKind::UnexpectedEndOfInput, offset: s.len() });
    }
    if !(s[d0] >= DIGIT_ZERO && s[d0] <= DIGIT_NINE) {
        return Err(DecodeError { kind: DecodeErrorKind::InvalidIntegerFormat, offset: d0 });
    }
    let (e, acc) = scan_number(s, d0);
    proof {
        lemma_digit_run_end_bounds(s@, d0 as int);
    }
    if s[d0] == DIGIT_ZERO && (e > d0 + 1 || neg) {
        return Err(DecodeError { kind: DecodeErrorKind::InvalidIntegerFormat, offset: d0 });
    }
    if acc > (if neg {
        I64_MIN_MAG
    } else {
        I64_MAX_MAG
    }) {
        return Err(DecodeError { kind: DecodeErrorKind::InvalidIntegerFormat, offset: d0 });
    }
    if e == s.len() {
        return Err(DecodeError { kind: DecodeErrorKind::UnexpectedEndOfInput, offset: s.len() });
    }
    if s[e] != TOK_END {
        return Err(DecodeError { kind: DecodeErrorKind::InvalidIntegerFormat, offset: e });
    }
    let val: i64 = if neg {
        if acc == I64_MIN_MAG {
            i64::MIN
        } else {
            -(acc as i64)
        }
    } else {
        acc as i64
    };
    Ok((Value::Integer(val), e + 1))
}

/// Decodes the byte-string token opening at `pos` (which holds a digit).
fn decode_bstr(s: &[u8], pos: usize) -> (r: Result<(Vec<u8>, usize), DecodeError>)
    requires
        pos < s@.len(),
        is_digit(s@[pos as int]),
    ensures
        match r {
            Ok((b, n)) => parse_bstr(s@, pos as int) == Ok::<_, (DecodeErrorKind, int)>(
                (b@, n as int),
            ) && pos < n <= s@.len(),
            Err(e) => parse_bstr(s@, pos as int) == Err::<(Seq<u8>, int), _>(
                (e.kind, e.offset as int),
            ),
        },
{
    let (e, acc) = scan_number(s, pos);
    proof {
        lemma_digit_run_end_bounds(s@, pos as int);
    }
    if s[pos] == DIGIT_ZERO && e > pos + 1 {
        return Err(DecodeError { kind: DecodeErrorKind::InvalidLengthPrefix, offset: pos });
    }
    if e == s.len() {
        return Err(DecodeError { kind: DecodeErrorKind::UnexpectedEndOfInput, offset: s.len() });
    }
    if s[e] != TOK_COLON {
        return Err(DecodeError { kind: DecodeErrorKind::InvalidLengthPrefix, offset: e });
    }
    let rem = s.len() - (e + 1);
    if acc > rem as u128 {
        return Err(DecodeError { kind: DecodeErrorKind::TruncatedByteString, offset: e + 1 });
    }
    let len = acc as usize;
    let stop = e + 1 + len;
    let mut out: Vec<u8> = Vec::new();
    let mut k = e + 1;
    while k < stop
        invariant
            e + 1 <= k <= stop,
            stop == e + 1 + len,
            stop <= s@.len(),
            out@ =~= s@.subrange(e + 1, k as int),
        decreases stop - k,
    {
        out.push(s[k]);
        k = k + 1;
    }
    Ok((out, e + 1 + len))
}

/// Whether the raw bytes of `a` order strictly before those of `b`.
fn bytes_less(a: &Vec<u8>, b: &Vec<u8>) -> (r: bool)
    ensures
        r == bytes_lt(a@, b@),
{
    let mut i: usize = 0;
    proof {
        assert(a@.subrange(0, a@.len() as int) =~= a@);
        assert(b@.subrange(0, b@.len() as int) =~= b@);
    }
    loop
        invariant
            0 <= i <= a@.len(),
            i <= b@.len(),
            bytes_lt(a@, b@) == bytes_lt(
                a@.subrange(i as int, a@.len() as int),
                b@.subrange(i as int, b@.len() as int),
            ),
        decreases a@.len() - i,
    {
        proof {
            let sa = a@.subrange(i as int, a@.len() as int);
            let sb = b@.subrange(i as int, b@.len() as int);
            if i < a@.len() && i < b@.len() && a@[i as int] == b@[i as int] {
                assert(sa.subrange(1, sa.len() as int) =~= a@.subrange(
                    i + 1,
                    a@.len() as int,
                ));
                assert(sb.subrange(1, sb.len() as int) =~= b@.subrange(
                    i + 1,
                    b@.len() as int,
                ));
            }
        }
        if i == b.len() {
            return false;
        }
        if i == a.len() {
            return true;
        }
        if a[i] < b[i] {
            return true;
        }
        if a[i] > b[i] {
            return false;
        }
        i = i + 1;
    }
}

/// `r` with `pre` prepended to its items on success.
pub open spec fn with_prefix_items(pre: Seq<BValue>, r: Parsed<Seq<BValue>>) -> Parsed<
    Seq<BValue>,
> {
    match r {
        Ok((rest, m)) => Ok((pre + rest, m)),
        Err(e) => Err(e),
    }
}

/// `r` with `pre` prepended to its pairs on success.
pub open spec fn with_prefix_pairs(
    pre: Seq<(Seq<u8>, BValue)>,
    r: Parsed<Seq<(Seq<u8>, BValue)>>,
) -> Parsed<Seq<(Seq<u8>, BValue)>> {
    match r {
        Ok((rest, m)) => Ok((pre + rest, m)),
        Err(e) => Err(e),
    }
}

proof fn lemma_with_prefix_items_assoc(a: Seq<BValue>, b: Seq<BValue>, r: Parsed<Seq<BValue>>)
    ensures
        with_prefix_items(a, with_prefix_items(b, r)) == with_prefix_items(a + b, r),
{
    match r {
        Ok((rest, m)) => {
            assert(a + (b + rest) =~= (a + b) + rest);
        },
        Err(_) => {},
    }
}

proof fn lemma_with_prefix_pairs_assoc(
    a: Seq<(Seq<u8>, BValue)>,
    b: Seq<(Seq<u8>, BValue)>,
    r: Parsed<Seq<(Seq<u8>, BValue)>>,
)
    ensures
        with_prefix_pairs(a, with_prefix_pairs(b, r)) == with_prefix_pairs(a + b, r),
{
    match r {
        Ok((rest, m)) => {
            assert(a + (b + rest) =~= (a + b) + rest);
        },
        Err(_) => {},
    }
}

/// Decodes one value at `pos`, with `depth` container levels still allowed.
fn decode_value(s: &[u8], pos: usize, depth: usize, strict: bool) -> (r: Result<
    (Value, usize),
    DecodeError,
>)
    requires
        pos <= s@.len(),
    ensures
        match r {
            Ok((v, n)) => parse_value(s@, pos as int, depth as nat, strict) == Ok::<
                _,
                (DecodeErrorKind, int),
            >((v@, n as int)) && pos < n <= s@.len(),
            Err(e) => parse_value(s@, pos as int, depth as nat, strict) == Err::<(BValue, int), _>(
                (e.kind, e.offset as int),
            ),
        },
    decreases depth,
{
    let slen = s.len();
    if pos == slen {
        return Err(DecodeError { kind: DecodeErrorKind::UnexpectedEndOfInput, offset: slen });
    }
    let b = s[pos];
    if b == TOK_INT {
        return decode_int(s, pos);
    }
    if b >= DIGIT_ZERO && b <= DIGIT_NINE {
        return match decode_bstr(s, pos) {
            Ok((bs, n)) => Ok((Value::ByteString(bs), n)),
            Err(e) => Err(e),
        };
    }
    if b == TOK_LIST {
        if depth == 0 {
            return Err(DecodeError { kind: DecodeErrorKind::MaxNestingDepthExceeded, offset: pos });
        }
        let d1 = depth - 1;
        let ghost d1n = d1 as nat;
        let mut elems: Vec<Value> = Vec::new();
        let mut cur = pos + 1;
        loop
            invariant
                pos < s@.len(),
                s@[pos as int] == TOK_LIST,
                depth >= 1,
                d1 == depth - 1,
                d1n == d1 as nat,
                pos + 1 <= cur <= s@.len(),
                parse_items(s@, pos + 1, d1n, strict) == with_prefix_items(
                    models(elems@),
                    parse_items(s@, cur as int, d1n, strict),
                ),
            decreases s@.len() - cur,
        {
            if cur == s.len() {
                return Err(DecodeError {
                    kind: DecodeErrorKind::UnterminatedContainer,
                    offset: s.len(),
                });
            }
            if s[cur] == TOK_END {
                proof {
                    lemma_model_list(elems);
                }
                return Ok((Value::List(elems), cur + 1));
            }
            match decode_value(s, cur, d1, strict) {
                Err(e) => {
                    return Err(e);
                },
                Ok((v, n)) => {
                    proof {
                        assert(clamped(n as int, cur + 1, s@.len() as int) == n as int);
                        assert(parse_items(s@, cur as int, d1n, strict) == with_prefix_items(
                            seq![v@],
                            parse_items(s@, n as int, d1n, strict),
                        ));
                        lemma_with_prefix_items_assoc(
                            models(elems@),
                            seq![v@],
                            parse_items(s@, n as int, d1n, strict),
                        );
                        assert(models(elems@.push(v)) =~= models(elems@) + seq![v@]);
                    }
                    elems.push(v);
                    cur = n;
                },
            }
        }
    }
    if b == TOK_DICT {
        if depth == 0 {
            return Err(DecodeError { kind: DecodeErrorKind::MaxNestingDepthExceeded, offset: pos });
        }
        let d1 = depth - 1;
        let ghost d1n = d1 as nat;
        let mut pairs: Vec<(Vec<u8>, Value)> = Vec::new();
        let mut cur = pos + 1;
        loop
            invariant
                pos < s@.len(),
                s@[pos as int] == TOK_DICT,
                depth >= 1,
                d1 == depth - 1,
                d1n == d1 as nat,
                pos + 1 <= cur <= s@.len(),
                parse_pairs(s@, pos + 1, d1n, strict, Option::None) == with_prefix_pairs(
                    pair_models(pairs@),
                    parse_pairs(
                        s@,
                        cur as int,
                        d1n,
                        strict,
                        if pairs@.len() == 0 {
                            Option::None
                        } else {
                            Option::Some(pairs@[pairs@.len() - 1].0@)
                        },
                    ),
                ),
            decreases s@.len() - cur,
        {
            let ghost prev = if pairs@.len() == 0 {
                Option::<Seq<u8>>::None
            } else {
                Option::Some(pairs@[pairs@.len() - 1].0@)
            };
            if cur == s.len() {
                return Err(DecodeError {
                    kind: DecodeErrorKind::UnterminatedContainer,
                    offset: s.len(),
                });
            }
            let kb = s[cur];
            if kb == TOK_END {
                proof {
                    lemma_model_dict(pairs);
                }
                return Ok((Value::Dictionary(pairs), cur + 1));
            }
            if !(kb >= DIGIT_ZERO && kb <= DIGIT_NINE) {
                return Err(DecodeError {
                    kind: DecodeErrorKind::NonByteStringDictionaryKey,
                    offset: cur,
                });
            }
            match decode_bstr(s, cur) {
                Err(e) => {
                    return Err(e);
                },
                Ok((k, kn)) => {
                    if strict && pairs.len() > 0 {
                        let sorted = bytes_less(&pairs[pairs.len() - 1].0, &k);
                        if !sorted {
                            return Err(DecodeError {
                                kind: DecodeErrorKind::UnsortedOrDuplicateDictionaryKeys,
                                offset: cur,
                            });
                        }
                    }
                    proof {
                        assert(clamped(kn as int, cur + 1, s@.len() as int) == kn as int);
                    }
                    match decode_value(s, kn, d1, strict) {
                        Err(e) => {
                            return Err(e);
                        },
                        Ok((v, n)) => {
                            proof {
                                assert(clamped(n as int, kn + 1, s@.len() as int) == n as int);
                                assert(parse_pairs(s@, cur as int, d1n, strict, prev)
                                    == with_prefix_pairs(
                                    seq![(k@, v@)],
                                    parse_pairs(s@, n as int, d1n, strict, Option::Some(k@)),
                                ));
                                lemma_with_prefix_pairs_assoc(
                                    pair_models(pairs@),
                                    seq![(k@, v@)],
                                    parse_pairs(s@, n as int, d1n, strict, Option::Some(k@)),
                                );
                                assert(pair_models(pairs@.push((k, v))) =~= pair_models(pairs@)
                                    + seq![(k@, v@)]);
                            }
                            pairs.push((k, v));
                            cur = n;
                        },
                    }
                },
            }
        }
    }
    Err(DecodeError { kind: DecodeErrorKind::InvalidLengthPrefix, offset: pos })
}

/// The nesting cap used by [`decode`]: generous for any real metainfo
/// document, small enough to bound stack use on adversarial input.
pub const DEFAULT_MAX_DEPTH: usize = 1000;

/// Decodes a single bencode value covering `bytes` exactly, with the given
/// strictness and nesting cap.
pub fn decode_with(bytes: &[u8], strict: bool, max_depth: usize) -> (r: Result<Value, DecodeError>)
    ensures
        match r {
            Ok(v) => parse_document(bytes@, max_depth as nat, strict) == Ok::<
                _,
                (DecodeErrorKind, int),
            >(v@),
            Err(e) => parse_document(bytes@, max_depth as nat, strict) == Err::<BValue, _>(
                (e.kind, e.offset as int),
            ),
        },
{
    match decode_value(bytes, 0, max_depth, strict) {
        Err(e) => Err(e),
        Ok((v, n)) => {
            if n == bytes.len() {
                Ok(v)
            } else {
                Err(DecodeError { kind: DecodeErrorKind::TrailingDataAfterValue, offset: n })
            }
        },
    }
}

/// Decodes the first bencode value in `bytes`, returning it together with
/// the number of bytes consumed; trailing bytes are the caller's to judge.
pub fn decode_prefix(bytes: &[u8], strict: bool, max_depth: usize) -> (r: Result<
    (Value, usize),
    DecodeError,
>)
    ensures
        match r {
            Ok((v, n)) => parse_value(bytes@, 0, max_depth as nat, strict) == Ok::<
                _,
                (DecodeErrorKind, int),
            >((v@, n as int)) && 0 < n <= bytes@.len(),
            Err(e) => parse_value(bytes@, 0, max_depth as nat, strict) == Err::<(BValue, int), _>(
                (e.kind, e.offset as int),
            ),
        },
{
    decode_value(bytes, 0, max_depth, strict)
}

/// Decodes a single bencode value covering `bytes` exactly, in strict mode
/// (canonical dictionary key order enforced) with the default nesting cap.
pub fn decode(bytes: &[u8]) -> (r: Result<Value, DecodeError>)
    ensures
        match r {
            Ok(v) => parse_document(bytes@, DEFAULT_MAX_DEPTH as nat, true) == Ok::<
                _,
                (DecodeErrorKind, int),
            >(v@),
            Err(e) => parse_document(bytes@, DEFAULT_MAX_DEPTH as nat, true) == Err::<BValue, _>(
                (e.kind, e.offset as int),
            ),
        },
{
    decode_with(bytes, true, DEFAULT_MAX_DEPTH)
}

} // verus!
