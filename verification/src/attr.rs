//! Attribute values: the tagged union a table store keeps in each column.
//!
//! `AttrValue` is the executable type; `AttrModel` is its mathematical
//! shape, used by every contract. The single-letter variant names follow
//! the store's wire names: string, number, binary, boolean, the three set
//! types, list, map and null.

use vstd::prelude::*;

verus! {

/// The mathematical shape of an attribute value.
pub enum AttrModel {
    S(Seq<char>),
    N(Seq<char>),
    B(Seq<u8>),
    Bool(bool),
    SS(Seq<Seq<char>>),
    NS(Seq<Seq<char>>),
    BS(Seq<Seq<u8>>),
    L(Seq<AttrModel>),
    M(Map<Seq<char>, AttrModel>),
    Null,
}

impl AttrModel {
    /// Key attributes must hold one of the three scalar types:
    /// string, number or binary.
    pub open spec fn is_scalar(self) -> bool {
        match self {
            AttrModel::S(_) => true,
            AttrModel::N(_) => true,
            AttrModel::B(_) => true,
            _ => false,
        }
    }
}

/// An attribute value as a program holds it. Numbers travel as their
/// decimal text, as the store transmits them.
#[derive(Debug, PartialEq, Eq)]
pub enum AttrValue {
    S(String),
    N(String),
    B(Vec<u8>),
    Bool(bool),
    SS(Vec<String>),
    NS(Vec<String>),
    BS(Vec<Vec<u8>>),
    L(Vec<AttrValue>),
    M(Vec<(String, AttrValue)>),
    Null,
}

/// The models of a sequence of values, element by element.
pub open spec fn deep_list(s: Seq<AttrValue>) -> Seq<AttrModel>
    decreases s,
{
    if s.len() == 0 {
        Seq::empty()
    } else {
        deep_list(s.subrange(0, s.len() - 1)).push(s[s.len() - 1].deep())
    }
}

/// The model of a map value's fields: name to value model, a later
/// field with the same name winning.
pub open spec fn deep_fields(s: Seq<(String, AttrValue)>) -> Map<Seq<char>, AttrModel>
    decreases s,
{
    if s.len() == 0 {
        Map::empty()
    } else {
        deep_fields(s.subrange(0, s.len() - 1)).insert(s[s.len() - 1].0@, s[s.len() - 1].1.deep())
    }
}

impl AttrValue {
    /// The mathematical value this executable value stands for.
    pub open spec fn deep(self) -> AttrModel
        decreases self,
    {
        match self {
            AttrValue::S(s) => AttrModel::S(s@),
            AttrValue::N(s) => AttrModel::N(s@),
            AttrValue::B(b) => AttrModel::B(b@),
            AttrValue::Bool(x) => AttrModel::Bool(x),
            AttrValue::SS(v) => AttrModel::SS(v@.map_values(|s: String| s@)),
            AttrValue::NS(v) => AttrModel::NS(v@.map_values(|s: String| s@)),
            AttrValue::BS(v) => AttrModel::BS(v@.map_values(|b: Vec<u8>| b@)),
            AttrValue::L(v) => AttrModel::L(deep_list(v@)),
            AttrValue::M(v) => AttrModel::M(deep_fields(v@)),
            AttrValue::Null => AttrModel::Null,
        }
    }

    /// Whether this value may stand in a key attribute.
    pub fn is_scalar(&self) -> (r: bool)
        ensures
            r == self.deep().is_scalar(),
    {
        match self {
            AttrValue::S(_) => true,
            AttrValue::N(_) => true,
            AttrValue::B(_) => true,
            _ => false,
        }
    }
}

/// Byte-string equality, element by element.
fn bytes_eq(a: &Vec<u8>, b: &Vec<u8>) -> (r: bool)
    ensures
        r == (a@ == b@),
{
    if a.len() != b.len() {
        return false;
    }
    let mut i: usize = 0;
    while i < a.len()
        invariant
            a@.len() == b@.len(),
            i <= a@.len(),
            forall|j: int| 0 <= j < i ==> a@[j] == b@[j],
        decreases a@.len() - i,
    {
        if a[i] != b[i] {
            return false;
        }
        i += 1;
    }
    proof {
        assert(a@ =~= b@);
    }
    true
}

/// Equality of two scalar values, decided by tag and payload.
pub fn scalar_eq(a: &AttrValue, b: &AttrValue) -> (r: bool)
    requires
        a.deep().is_scalar(),
        b.deep().is_scalar(),
    ensures
        r == (a.deep() == b.deep()),
{
    match (a, b) {
        (AttrValue::S(x), AttrValue::S(y)) => *x == *y,
        (AttrValue::N(x), AttrValue::N(y)) => *x == *y,
        (AttrValue::B(x), AttrValue::B(y)) => bytes_eq(x, y),
        _ => false,
    }
}

/// An owned copy of a scalar value, standing for the same model.
pub fn scalar_copy(v: &AttrValue) -> (r: AttrValue)
    requires
        v.deep().is_scalar(),
    ensures
        r.deep() == v.deep(),
{
    match v {
        AttrValue::S(x) => AttrValue::S(x.clone()),
        AttrValue::N(x) => AttrValue::N(x.clone()),
        AttrValue::B(x) => AttrValue::B(copy_bytes(x)),
        _ => AttrValue::Null,
    }
}

/// An owned copy of a byte string.
fn copy_bytes(a: &Vec<u8>) -> (r: Vec<u8>)
    ensures
        r@ == a@,
{
    let mut out: Vec<u8> = Vec::new();
    let mut i: usize = 0;
    while i < a.len()
        invariant
            i <= a@.len(),
            out@ == a@.subrange(0, i as int),
        decreases a@.len() - i,
    {
        out.push(a[i]);
        proof {
            assert(out@ =~= a@.subrange(0, i + 1));
        }
        i += 1;
    }
    proof {
        assert(a@.subrange(0, a@.len() as int) =~= a@);
    }
    out
}

} // verus!
