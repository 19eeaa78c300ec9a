//! The values that expressions are made of and evaluate to.

use crate::float::{float_equal, Float};
use vstd::prelude::*;

verus! {

/// The mathematical content of a [`Value`].
pub enum SpecValue {
    /// An integer.
    Int(int),
    /// A binary64 number, by its bits.
    Float(int),
    /// A truth value.
    Boolean(bool),
    /// A text.
    Str(Seq<char>),
    /// Values in order.
    Array(Seq<SpecValue>),
    /// Named fields in order.
    Object(Seq<SpecField>),
}

/// One named field of an object.
pub struct SpecField {
    pub name: Seq<char>,
    pub value: SpecValue,
}

/// A value of the expression language.
#[derive(Debug)]
pub enum Value {
    /// A 64-bit signed integer.
    Int(i64),
    /// A binary64 number.
    Float(Float),
    /// A truth value.
    Boolean(bool),
    /// A text.
    String(String),
    /// Values in order; the elements may be of different kinds.
    Array(Vec<Value>),
    /// A structured value: named fields in order. A name is looked up from
    /// the front, so of two fields with one name the first is found.
    Object(Vec<(String, Value)>),
}

impl View for Value {
    type V = SpecValue;

    open spec fn view(&self) -> SpecValue
        decreases self,
    {
        match self {
            Value::Int(i) => SpecValue::Int(*i as int),
            Value::Float(x) => SpecValue::Float(x.bits as int),
            Value::Boolean(b) => SpecValue::Boolean(*b),
            Value::String(s) => SpecValue::Str(s@),
            Value::Array(v) => SpecValue::Array(
                Seq::new(
                    v.len() as nat,
                    |i: int|
                        if 0 <= i < v.len() {
                            v[i].view()
                        } else {
                            SpecValue::Boolean(false)
                        },
                ),
            ),
            Value::Object(v) => SpecValue::Object(
                Seq::new(
                    v.len() as nat,
                    |i: int|
                        if 0 <= i < v.len() {
                            SpecField { name: v[i].0@, value: v[i].1.view() }
                        } else {
                            SpecField { name: Seq::empty(), value: SpecValue::Boolean(false) }
                        },
                ),
            ),
        }
    }
}

/// The contents of a sequence of values.
pub open spec fn views(values: Seq<Value>) -> Seq<SpecValue> {
    Seq::new(values.len(), |i: int| values[i]@)
}

/// The contents of a sequence of named fields.
pub open spec fn field_views(fields: Seq<(String, Value)>) -> Seq<SpecField> {
    Seq::new(fields.len(), |i: int| SpecField { name: fields[i].0@, value: fields[i].1@ })
}

/// An array's content is the contents of its elements.
pub proof fn lemma_array_view(v: Vec<Value>)
    ensures
        Value::Array(v)@ == SpecValue::Array(views(v@)),
{
    let elements = Value::Array(v)@->Array_0;
    assert(elements.len() == v.len());
    assert(elements.len() == v@.len());
    assert forall|i: int| 0 <= i < v@.len() implies elements[i] == views(v@)[i] by {}
    assert(elements =~= views(v@));
}

/// An object's content is the contents of its fields.
pub proof fn lemma_object_view(v: Vec<(String, Value)>)
    ensures
        Value::Object(v)@ == SpecValue::Object(field_views(v@)),
{
    let fields = Value::Object(v)@->Object_0;
    assert(fields.len() == v.len());
    assert(fields.len() == v@.len());
    assert forall|i: int| 0 <= i < v@.len() implies fields[i] == field_views(v@)[i] by {}
    assert(fields =~= field_views(v@));
}

/// Equality of values: the same kind and equal content. Numbers of kind
/// `Float` are equal as numbers (a NaN equals nothing, both zeros are
/// equal); arrays and objects are equal element by element; values of
/// different kinds are unequal.
pub open spec fn same(a: SpecValue, b: SpecValue) -> bool
    decreases a,
{
    match (a, b) {
        (SpecValue::Int(x), SpecValue::Int(y)) => x == y,
        (SpecValue::Float(x), SpecValue::Float(y)) => float_equal(x as u64, y as u64),
        (SpecValue::Boolean(x), SpecValue::Boolean(y)) => x == y,
        (SpecValue::Str(x), SpecValue::Str(y)) => x == y,
        (SpecValue::Array(x), SpecValue::Array(y)) => {
            &&& x.len() == y.len()
            &&& forall|i: int| 0 <= i < x.len() ==> same(#[trigger] x[i], y[i])
        },
        (SpecValue::Object(x), SpecValue::Object(y)) => {
            &&& x.len() == y.len()
            &&& forall|i: int|
                0 <= i < x.len() ==> (#[trigger] x[i]).name == y[i].name && same(x[i].value, y[i].value)
        },
        _ => false,
    }
}

impl Clone for Value {
    fn clone(&self) -> (r: Value)
        ensures
            r@ == self@,
        decreases self,
    {
        match self {
            Value::Int(i) => Value::Int(*i),
            Value::Float(x) => Value::Float(*x),
            Value::Boolean(b) => Value::Boolean(*b),
            Value::String(s) => Value::String(s.clone()),
            Value::Array(v) => {
                let mut copy: Vec<Value> = Vec::new();
                let mut i: usize = 0;
                while i < v.len()
                    invariant
                        *self == Value::Array(*v),
                        i <= v.len(),
                        copy.len() == i,
                        forall|j: int| 0 <= j < i ==> copy[j]@ == v[j]@,
                    decreases v.len() - i,
                {
                    assert(decreases_to!(*self => self->Array_0[i as int]));
                    copy.push(v[i].clone());
                    i += 1;
                }
                proof {
                    lemma_array_view(copy);
                    lemma_array_view(*v);
                    assert(views(copy@) =~= views(v@));
                }
                Value::Array(copy)
            },
            Value::Object(v) => {
                let mut copy: Vec<(String, Value)> = Vec::new();
                let mut i: usize = 0;
                while i < v.len()
                    invariant
                        *self == Value::Object(*v),
                        i <= v.len(),
                        copy.len() == i,
                        forall|j: int| 0 <= j < i ==> copy[j].0@ == v[j].0@ && copy[j].1@ == v[j].1@,
                    decreases v.len() - i,
                {
                    assert(decreases_to!(*self => self->Object_0[i as int].1));
                    copy.push((v[i].0.clone(), v[i].1.clone()));
                    i += 1;
                }
                proof {
                    lemma_object_view(copy);
                    lemma_object_view(*v);
                    assert(field_views(copy@) =~= field_views(v@));
                }
                Value::Object(copy)
            },
        }
    }
}

impl Value {
    /// Whether two values are equal: see [`same`].
    pub fn equals(&self, other: &Value) -> (r: bool)
        ensures
            r == same(self@, other@),
        decreases self,
    {
        match (self, other) {
            (Value::Int(x), Value::Int(y)) => *x == *y,
            (Value::Float(x), Value::Float(y)) => x.equal_to(*y),
            (Value::Boolean(x), Value::Boolean(y)) => *x == *y,
            (Value::String(x), Value::String(y)) => *x == *y,
            (Value::Array(x), Value::Array(y)) => {
                proof {
                    lemma_array_view(*x);
                    lemma_array_view(*y);
                }
                if x.len() != y.len() {
                    return false;
                }
                let mut i: usize = 0;
                while i < x.len()
                    invariant
                        *self == Value::Array(*x),
                        self@ == SpecValue::Array(views(x@)),
                        other@ == SpecValue::Array(views(y@)),
                        i <= x.len(),
                        x.len() == y.len(),
                        forall|j: int| 0 <= j < i ==> same(#[trigger] views(x@)[j], views(y@)[j]),
                    decreases x.len() - i,
                {
                    assert(decreases_to!(*self => self->Array_0[i as int]));
                    if !x[i].equals(&y[i]) {
                        assert(!same(views(x@)[i as int], views(y@)[i as int]));
                        return false;
                    }
                    i += 1;
                }
                true
            },
            (Value::Object(x), Value::Object(y)) => {
                proof {
                    lemma_object_view(*x);
                    lemma_object_view(*y);
                }
                if x.len() != y.len() {
                    return false;
                }
                let mut i: usize = 0;
                while i < x.len()
                    invariant
                        *self == Value::Object(*x),
                        self@ == SpecValue::Object(field_views(x@)),
                        other@ == SpecValue::Object(field_views(y@)),
                        i <= x.len(),
                        x.len() == y.len(),
                        forall|j: int|
                            0 <= j < i ==> (#[trigger] field_views(x@)[j]).name == field_views(y@)[j].name
                                && same(field_views(x@)[j].value, field_views(y@)[j].value),
                    decreases x.len() - i,
                {
                    assert(decreases_to!(*self => self->Object_0[i as int].1));
                    if !(x[i].0 == y[i].0 && x[i].1.equals(&y[i].1)) {
                        assert(!(field_views(x@)[i as int].name == field_views(y@)[i as int].name && same(
                            field_views(x@)[i as int].value,
                            field_views(y@)[i as int].value,
                        )));
                        return false;
                    }
                    i += 1;
                }
                true
            },
            _ => false,
        }
    }
}

impl PartialEq for Value {
    fn eq(&self, other: &Value) -> (r: bool) {
        self.equals(other)
    }
}

impl vstd::std_specs::cmp::PartialEqSpecImpl for Value {
    open spec fn obeys_eq_spec() -> bool {
        true
    }

    open spec fn eq_spec(&self, other: &Value) -> bool {
        same(self@, other@)
    }
}

} // verus!
