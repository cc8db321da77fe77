//! The generic bencode value tree and its mathematical model.

use vstd::prelude::*;

verus! {

broadcast use vstd::std_specs::vec::group_vec_axioms, vstd::seq::group_seq_axioms;

/// A decoded bencode value.
///
/// Dictionaries keep their pairs in on-wire order; keys are raw byte strings
/// (bencode keys need not be valid text).
#[derive(Debug, PartialEq, Eq)]
pub enum Value {
    /// `i<decimal>e`
    Integer(i64),
    /// `<length>:<bytes>`
    ByteString(Vec<u8>),
    /// `l<values>e`
    List(Vec<Value>),
    /// `d<key-value pairs>e`
    Dictionary(Vec<(Vec<u8>, Value)>),
}

/// The mathematical model of a bencode value.
#[verifier::ext_equal]
pub enum BValue {
    Int(int),
    Bytes(Seq<u8>),
    List(Seq<BValue>),
    Dict(Seq<(Seq<u8>, BValue)>),
}

/// The model of a [`Value`]: integers widen to `int`, byte strings and
/// containers become sequences, recursively.
pub open spec fn model(v: Value) -> BValue
    decreases v,
{
    match v {
        Value::Integer(i) => BValue::Int(i as int),
        Value::ByteString(b) => BValue::Bytes(b@),
        Value::List(l) => BValue::List(
            Seq::new(
                l@.len(),
                |i: int|
                    if 0 <= i < l@.len() {
                        model(l@[i])
                    } else {
                        BValue::Int(0)
                    },
            ),
        ),
        Value::Dictionary(d) => BValue::Dict(
            Seq::new(
                d@.len(),
                |i: int|
                    if 0 <= i < d@.len() {
                        (d@[i].0@, model(d@[i].1))
                    } else {
                        (Seq::empty(), BValue::Int(0))
                    },
            ),
        ),
    }
}

/// The models of a sequence of values, elementwise.
pub open spec fn models(l: Seq<Value>) -> Seq<BValue> {
    Seq::new(l.len(), |i: int| model(l[i]))
}

/// The models of a sequence of key-value pairs, elementwise.
pub open spec fn pair_models(d: Seq<(Vec<u8>, Value)>) -> Seq<(Seq<u8>, BValue)> {
    Seq::new(d.len(), |i: int| (d[i].0@, model(d[i].1)))
}

/// The two spellings of a list's model agree.
pub proof fn lemma_model_list(l: Vec<Value>)
    ensures
        model(Value::List(l)) == BValue::List(models(l@)),
{
    let g = model(Value::List(l));
    assert(g is List);
    assert(g->List_0.len() == l@.len());
    assert(forall|i: int| 0 <= i < l@.len() ==> g->List_0[i] == model(l@[i]));
    assert(g->List_0 =~= models(l@));
}

/// The two spellings of a dictionary's model agree.
pub proof fn lemma_model_dict(d: Vec<(Vec<u8>, Value)>)
    ensures
        model(Value::Dictionary(d)) == BValue::Dict(pair_models(d@)),
{
    let g = model(Value::Dictionary(d));
    assert(g is Dict);
    assert(g->Dict_0.len() == d@.len());
    assert(forall|i: int|
        0 <= i < d@.len() ==> g->Dict_0[i] == (d@[i].0@, model(d@[i].1)));
    assert(g->Dict_0 =~= pair_models(d@));
}

impl View for Value {
    type V = BValue;

    open spec fn view(&self) -> BValue {
        model(*self)
    }
}

} // verus!

