//! The generic value union of the serialization format.
//!
//! A decoded value is one of four kinds: a byte string, an integer, an
//! ordered list, or a dictionary whose keys are byte strings kept in the
//! order they occur in the buffer. [`Value`] is the executable tree; its
//! mathematical counterpart is [`SpecValue`], reached through
//! [`Value::deep`].

use vstd::prelude::*;

verus! {

broadcast use vstd::std_specs::vec::group_vec_axioms, vstd::seq::group_seq_axioms;

/// A generic decoded value: the tagged union over the four primitive kinds
/// of the format.
#[derive(Debug, PartialEq, Eq)]
pub enum Value {
    /// Raw bytes, not required to be valid text.
    Bytes(Vec<u8>),
    /// A signed 64-bit integer.
    Int(i64),
    /// An ordered sequence of values.
    List(Vec<Value>),
    /// Key/value pairs in buffer order; keys are byte strings.
    Dict(Vec<(Vec<u8>, Value)>),
}

/// The mathematical shape of a generic value.
pub enum SpecValue {
    Bytes(Seq<u8>),
    Int(int),
    List(Seq<SpecValue>),
    Dict(Seq<(Seq<u8>, SpecValue)>),
}

impl Value {
    /// The mathematical value this tree stands for.
    pub open spec fn deep(self) -> SpecValue
        decreases self, 1int,
    {
        match self {
            Value::Bytes(b) => SpecValue::Bytes(b@),
            Value::Int(i) => SpecValue::Int(i as int),
            Value::List(l) => SpecValue::List(deep_elems(l@)),
            Value::Dict(ps) => SpecValue::Dict(deep_pairs(ps@)),
        }
    }
}

/// The mathematical values of a sequence of trees, element by element.
pub open spec fn deep_elems(s: Seq<Value>) -> Seq<SpecValue>
    decreases s, 0int,
{
    if s.len() == 0 {
        Seq::empty()
    } else {
        deep_elems(s.drop_last()).push(s.last().deep())
    }
}

/// The mathematical pairs of a sequence of key/value trees.
pub open spec fn deep_pairs(s: Seq<(Vec<u8>, Value)>) -> Seq<(Seq<u8>, SpecValue)>
    decreases s, 0int,
{
    if s.len() == 0 {
        Seq::empty()
    } else {
        deep_pairs(s.drop_last()).push((s.last().0@, s.last().1.deep()))
    }
}

/// `deep_elems` maps the sequence element by element.
pub broadcast proof fn lemma_deep_elems(s: Seq<Value>)
    ensures
        #[trigger] deep_elems(s).len() == s.len(),
        forall|i: int| 0 <= i < s.len() ==> deep_elems(s)[i] == s[i].deep(),
    decreases s.len(),
{
    if s.len() > 0 {
        lemma_deep_elems(s.drop_last());
    }
}

/// `deep_pairs` maps the sequence pair by pair.
pub broadcast proof fn lemma_deep_pairs(s: Seq<(Vec<u8>, Value)>)
    ensures
        #[trigger] deep_pairs(s).len() == s.len(),
        forall|i: int|
            0 <= i < s.len() ==> deep_pairs(s)[i] == (s[i].0@, s[i].1.deep()),
    decreases s.len(),
{
    if s.len() > 0 {
        lemma_deep_pairs(s.drop_last());
    }
}

/// Appending a tree appends its mathematical value.
pub proof fn lemma_deep_elems_push(s: Seq<Value>, v: Value)
    ensures
        deep_elems(s.push(v)) == deep_elems(s).push(v.deep()),
{
    assert(s.push(v).drop_last() =~= s);
    assert(s.push(v).last() == v);
}

/// Appending a pair appends its mathematical pair.
pub proof fn lemma_deep_pairs_push(s: Seq<(Vec<u8>, Value)>, p: (Vec<u8>, Value))
    ensures
        deep_pairs(s.push(p)) == deep_pairs(s).push((p.0@, p.1.deep())),
{
    assert(s.push(p).drop_last() =~= s);
    assert(s.push(p).last() == p);
}

} // verus!
