//! The bencode grammar, stated mathematically.
//!
//! This module is pure specification: a reference parser over byte
//! sequences (`parse_value`, `parse_items`, `parse_pairs`), the canonical
//! encoding of a value tree (`enc`), and well-formedness (`wf_value`).
//! The executable decoder and encoder are specified exactly against these
//! functions.

use vstd::prelude::*;

use crate::errors::DecodeErrorKind;
use crate::value::BValue;

verus! {

broadcast use vstd::std_specs::vec::group_vec_axioms, vstd::seq::group_seq_axioms;

/// `i`, opening an integer token.
pub const TOK_INT: u8 = 105;

/// `l`, opening a list.
pub const TOK_LIST: u8 = 108;

/// `d`, opening a dictionary.
pub const TOK_DICT: u8 = 100;

/// `e`, closing an integer, list or dictionary.
pub const TOK_END: u8 = 101;

/// `:`, separating a byte-string length from its payload.
pub const TOK_COLON: u8 = 58;

/// `-`, the integer sign.
pub const TOK_MINUS: u8 = 45;

/// `0`.
pub const DIGIT_ZERO: u8 = 48;

/// `9`.
pub const DIGIT_NINE: u8 = 57;

pub open spec fn is_digit(b: u8) -> bool {
    DIGIT_ZERO <= b <= DIGIT_NINE
}

/// The value of a run of decimal digit bytes, most significant first.
pub open spec fn dec_value(ds: Seq<u8>) -> int
    decreases ds.len(),
{
    if ds.len() == 0 {
        0
    } else {
        dec_value(ds.subrange(0, ds.len() - 1)) * 10 + (ds[ds.len() - 1] - DIGIT_ZERO)
    }
}

/// The first position at or after `pos` holding no decimal digit.
pub open spec fn digit_run_end(s: Seq<u8>, pos: int) -> int
    decreases s.len() - pos,
{
    if pos < 0 || pos >= s.len() || !is_digit(s[pos]) {
        pos
    } else {
        digit_run_end(s, pos + 1)
    }
}

/// Strict lexicographic order on raw bytes, the canonical bencode key order.
pub open spec fn bytes_lt(a: Seq<u8>, b: Seq<u8>) -> bool
    decreases a.len(),
{
    if b.len() == 0 {
        false
    } else if a.len() == 0 {
        true
    } else if a[0] < b[0] {
        true
    } else if a[0] > b[0] {
        false
    } else {
        bytes_lt(a.subrange(1, a.len() as int), b.subrange(1, b.len() as int))
    }
}

/// `n` forced into `[lo, hi]` (or to `hi` when the interval is empty).
///
/// The reference parser applies this to every position a sub-parse returns,
/// so that its recursion visibly advances; `lemma_parse_bounds` shows the
/// returned positions already lie in range, making every clamp the identity.
pub open spec fn clamped(n: int, lo: int, hi: int) -> int {
    if hi < lo {
        hi
    } else if n < lo {
        lo
    } else if n > hi {
        hi
    } else {
        n
    }
}

/// A parse outcome: the parsed item and the position after it, or an error
/// kind with the byte offset where it was detected.
pub type Parsed<T> = Result<(T, int), (DecodeErrorKind, int)>;

/// An integer token at `pos` (which holds `i`): `i`, an optional `-`, a
/// canonical digit run (no leading zero, no `-0`), then `e`. Values outside
/// the signed 64-bit range are rejected as malformed.
pub open spec fn parse_int(s: Seq<u8>, pos: int) -> Parsed<BValue> {
    let p = pos + 1;
    if p >= s.len() {
        Err((DecodeErrorKind::UnexpectedEndOfInput, s.len() as int))
    } else {
        let neg = s[p] == TOK_MINUS;
        let d0 = if neg {
            p + 1
        } else {
            p
        };
        if d0 >= s.len() {
            Err((DecodeErrorKind::UnexpectedEndOfInput, s.len() as int))
        } else if !is_digit(s[d0]) {
            Err((DecodeErrorKind::InvalidIntegerFormat, d0))
        } else {
            let e = digit_run_end(s, d0);
            if s[d0] == DIGIT_ZERO && (e > d0 + 1 || neg) {
                Err((DecodeErrorKind::InvalidIntegerFormat, d0))
            } else {
                let m = dec_value(s.subrange(d0, e));
                let val = if neg {
                    -m
                } else {
                    m
                };
                if val < i64::MIN as int || val > i64::MAX as int {
                    Err((DecodeErrorKind::InvalidIntegerFormat, d0))
                } else if e >= s.len() {
                    Err((DecodeErrorKind::UnexpectedEndOfInput, s.len() as int))
                } else if s[e] != TOK_END {
                    Err((DecodeErrorKind::InvalidIntegerFormat, e))
                } else {
                    Ok((BValue::Int(val), e + 1))
                }
            }
        }
    }
}

/// A byte-string token at `pos` (which holds a digit): a canonical decimal
/// length (no leading zero), `:`, then exactly that many payload bytes.
pub open spec fn parse_bstr(s: Seq<u8>, pos: int) -> Parsed<Seq<u8>> {
    let e = digit_run_end(s, pos);
    if e == pos {
        Err((DecodeErrorKind::InvalidLengthPrefix, pos))
    } else if s[pos] == DIGIT_ZERO && e > pos + 1 {
        Err((DecodeErrorKind::InvalidLengthPrefix, pos))
    } else {
        let len = dec_value(s.subrange(pos, e));
        if e >= s.len() {
            Err((DecodeErrorKind::UnexpectedEndOfInput, s.len() as int))
        } else if s[e] != TOK_COLON {
            Err((DecodeErrorKind::InvalidLengthPrefix, e))
        } else if e + 1 + len > s.len() {
            Err((DecodeErrorKind::TruncatedByteString, e + 1))
        } else {
            Ok((s.subrange(e + 1, e + 1 + len), e + 1 + len))
        }
    }
}

/// One bencode value at `pos`. `depth` is the remaining container budget:
/// opening a list or dictionary when it is zero is an error, and the
/// container's elements are parsed with one budget unit fewer. In `strict`
/// mode dictionary keys must be unique and strictly ascending. A byte that
/// opens no token is reported as an invalid length prefix, since only a
/// length prefix may begin with anything but `i`, `l` or `d`.
pub open spec fn parse_value(s: Seq<u8>, pos: int, depth: nat, strict: bool) -> Parsed<BValue>
    decreases depth, s.len() - pos, 0int,
{
    if pos < 0 || pos >= s.len() {
        Err((DecodeErrorKind::UnexpectedEndOfInput, s.len() as int))
    } else if s[pos] == TOK_INT {
        parse_int(s, pos)
    } else if is_digit(s[pos]) {
        match parse_bstr(s, pos) {
            Ok((b, n)) => Ok((BValue::Bytes(b), n)),
            Err(e) => Err(e),
        }
    } else if s[pos] == TOK_LIST {
        if depth == 0 {
            Err((DecodeErrorKind::MaxNestingDepthExceeded, pos))
        } else {
            match parse_items(s, pos + 1, (depth - 1) as nat, strict) {
                Ok((items, n)) => Ok((BValue::List(items), n)),
                Err(e) => Err(e),
            }
        }
    } else if s[pos] == TOK_DICT {
        if depth == 0 {
            Err((DecodeErrorKind::MaxNestingDepthExceeded, pos))
        } else {
            match parse_pairs(s, pos + 1, (depth - 1) as nat, strict, Option::None) {
                Ok((pairs, n)) => Ok((BValue::Dict(pairs), n)),
                Err(e) => Err(e),
            }
        }
    } else {
        Err((DecodeErrorKind::InvalidLengthPrefix, pos))
    }
}

/// The elements of a list body starting at `pos`, up to and including the
/// closing `e`.
pub open spec fn parse_items(s: Seq<u8>, pos: int, depth: nat, strict: bool) -> Parsed<
    Seq<BValue>,
>
    decreases depth, s.len() - pos, 1int,
{
    if pos < 0 || pos >= s.len() {
        Err((DecodeErrorKind::UnterminatedContainer, s.len() as int))
    } else if s[pos] == TOK_END {
        Ok((Seq::empty(), pos + 1))
    } else {
        match parse_value(s, pos, depth, strict) {
            Err(e) => Err(e),
            Ok((v, n)) => {
                let np = clamped(n, pos + 1, s.len() as int);
                match parse_items(s, np, depth, strict) {
                    Err(e) => Err(e),
                    Ok((rest, m)) => Ok((seq![v] + rest, m)),
                }
            },
        }
    }
}

/// The key-value pairs of a dictionary body starting at `pos`, up to and
/// including the closing `e`. `prev` is the previous key, against which a
/// strict parse checks ascending order.
pub open spec fn parse_pairs(
    s: Seq<u8>,
    pos: int,
    depth: nat,
    strict: bool,
    prev: Option<Seq<u8>>,
) -> Parsed<Seq<(Seq<u8>, BValue)>>
    decreases depth, s.len() - pos, 1int,
{
    if pos < 0 || pos >= s.len() {
        Err((DecodeErrorKind::UnterminatedContainer, s.len() as int))
    } else if s[pos] == TOK_END {
        Ok((Seq::empty(), pos + 1))
    } else if !is_digit(s[pos]) {
        Err((DecodeErrorKind::NonByteStringDictionaryKey, pos))
    } else {
        match parse_bstr(s, pos) {
            Err(e) => Err(e),
            Ok((k, kn)) => {
                if strict && !(match prev {
                    Option::None => true,
                    Option::Some(pk) => bytes_lt(pk, k),
                }) {
                    Err((DecodeErrorKind::UnsortedOrDuplicateDictionaryKeys, pos))
                } else {
                    let vp = clamped(kn, pos + 1, s.len() as int);
                    match parse_value(s, vp, depth, strict) {
                        Err(e) => Err(e),
                        Ok((v, n)) => {
                            let np = clamped(n, vp + 1, s.len() as int);
                            match parse_pairs(s, np, depth, strict, Option::Some(k)) {
                                Err(e) => Err(e),
                                Ok((rest, m)) => Ok((seq![(k, v)] + rest, m)),
                            }
                        },
                    }
                }
            },
        }
    }
}

/// A whole document: one value covering the entire input.
pub open spec fn parse_document(s: Seq<u8>, depth: nat, strict: bool) -> Result<
    BValue,
    (DecodeErrorKind, int),
> {
    match parse_value(s, 0, depth, strict) {
        Err(e) => Err(e),
        Ok((v, n)) => if n == s.len() {
            Ok(v)
        } else {
            Err((DecodeErrorKind::TrailingDataAfterValue, n))
        },
    }
}

/// Well-formedness of a value tree within a container budget: integers fit
/// in 64 bits, containers spend one budget unit, and dictionary keys are
/// unique and strictly ascending. Exactly the trees a strict parse with the
/// same budget can produce, and exactly those whose canonical encoding that
/// parse accepts back.
pub open spec fn wf_value(v: BValue, depth: nat) -> bool
    decreases v,
{
    match v {
        BValue::Int(i) => i64::MIN as int <= i <= i64::MAX as int,
        BValue::Bytes(b) => true,
        BValue::List(items) => depth > 0 && (forall|i: int|
            0 <= i < items.len() ==> wf_value(#[trigger] items[i], (depth - 1) as nat)),
        BValue::Dict(pairs) => depth > 0 && (forall|i: int|
            0 <= i < pairs.len() ==> wf_value(#[trigger] pairs[i].1, (depth - 1) as nat)) && (
        forall|i: int|
            0 <= i < pairs.len() - 1 ==> bytes_lt(#[trigger] pairs[i].0, pairs[i + 1].0)),
    }
}

/// The canonical decimal digits of `n`: no leading zero, `0` for zero.
pub open spec fn dec_digits(n: int) -> Seq<u8>
    decreases n,
{
    if n < 0 {
        Seq::empty()
    } else if n <= 9 {
        seq![(DIGIT_ZERO + n) as u8]
    } else {
        dec_digits(n / 10) + seq![(DIGIT_ZERO + n % 10) as u8]
    }
}

/// The encoding of a byte string: decimal length, `:`, payload.
pub open spec fn enc_bytes(b: Seq<u8>) -> Seq<u8> {
    dec_digits(b.len() as int) + seq![TOK_COLON] + b
}

/// The canonical bencode encoding of a value tree.
pub open spec fn enc(v: BValue) -> Seq<u8>
    decreases v,
{
    match v {
        BValue::Int(i) => seq![TOK_INT] + (if i < 0 {
            seq![TOK_MINUS] + dec_digits(-i)
        } else {
            dec_digits(i)
        }) + seq![TOK_END],
        BValue::Bytes(b) => enc_bytes(b),
        BValue::List(items) => seq![TOK_LIST] + enc_seq(items) + seq![TOK_END],
        BValue::Dict(pairs) => seq![TOK_DICT] + enc_pairs(pairs) + seq![TOK_END],
    }
}

/// The concatenated encodings of a sequence of values.
pub open spec fn enc_seq(items: Seq<BValue>) -> Seq<u8>
    decreases items,
{
    if items.len() == 0 {
        Seq::empty()
    } else {
        enc(items[0]) + enc_seq(items.subrange(1, items.len() as int))
    }
}

/// The concatenated encodings of a sequence of key-value pairs.
pub open spec fn enc_pairs(pairs: Seq<(Seq<u8>, BValue)>) -> Seq<u8>
    decreases pairs,
{
    if pairs.len() == 0 {
        Seq::empty()
    } else {
        enc_bytes(pairs[0].0) + enc(pairs[0].1) + enc_pairs(
            pairs.subrange(1, pairs.len() as int),
        )
    }
}

} // verus!
