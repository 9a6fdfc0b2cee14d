//! The open, structured payload value carried by every event: a variant type
//! over integers, booleans, text, sequences and ordered key/value mappings,
//! with deep structural equality and key lookup.

use vstd::prelude::*;

verus! {

broadcast use vstd::std_specs::vec::group_vec_axioms;

/// One structured payload value. A mapping is kept as an ordered list of
/// key/value entries; two mappings are equal when their entry lists are
/// equal position by position.
#[derive(Debug)]
pub enum Value {
    Null,
    Bool(bool),
    Int(i64),
    Text(String),
    List(Vec<Value>),
    Object(Vec<(String, Value)>),
}

/// Deep structural equality of two payload values, comparing text by its
/// characters and containers element by element.
pub open spec fn val_eq(a: Value, b: Value) -> bool
    decreases a,
{
    match (a, b) {
        (Value::Null, Value::Null) => true,
        (Value::Bool(x), Value::Bool(y)) => x == y,
        (Value::Int(x), Value::Int(y)) => x == y,
        (Value::Text(x), Value::Text(y)) => x@ == y@,
        (Value::List(x), Value::List(y)) => {
            &&& x@.len() == y@.len()
            &&& forall|i: int| 0 <= i < x@.len() ==> val_eq(#[trigger] x@[i], y@[i])
        },
        (Value::Object(x), Value::Object(y)) => {
            &&& x@.len() == y@.len()
            &&& forall|i: int|
                0 <= i < x@.len() ==> (#[trigger] x@[i]).0@ == y@[i].0@ && val_eq(x@[i].1, y@[i].1)
        },
        _ => false,
    }
}

/// Executable deep equality, proved to agree with [`val_eq`].
#[verifier::loop_isolation(false)]
pub fn value_eq(a: &Value, b: &Value) -> (r: bool)
    ensures
        r == val_eq(*a, *b),
    decreases *a,
{
    match (a, b) {
        (Value::Null, Value::Null) => true,
        (Value::Bool(x), Value::Bool(y)) => *x == *y,
        (Value::Int(x), Value::Int(y)) => *x == *y,
        (Value::Text(x), Value::Text(y)) => *x == *y,
        (Value::List(x), Value::List(y)) => {
            if x.len() != y.len() {
                return false;
            }
            let mut i: usize = 0;
            while i < x.len()
                invariant
                    i <= x@.len(),
                    x@.len() == y@.len(),
                    forall|j: int| 0 <= j < i ==> val_eq(#[trigger] x@[j], y@[j]),
                decreases x@.len() - i,
            {
                proof {
                    assert(decreases_to!(*a => *x));
                    assert(decreases_to!(*x => x@[i as int]));
                    assert(decreases_to!(*a => x@[i as int]));
                }
                if !value_eq(&x[i], &y[i]) {
                    return false;
                }
                i += 1;
            }
            true
        },
        (Value::Object(x), Value::Object(y)) => {
            if x.len() != y.len() {
                return false;
            }
            let mut i: usize = 0;
            while i < x.len()
                invariant
                    i <= x@.len(),
                    x@.len() == y@.len(),
                    forall|j: int|
                        0 <= j < i ==> (#[trigger] x@[j]).0@ == y@[j].0@ && val_eq(x@[j].1, y@[j].1),
                decreases x@.len() - i,
            {
                if !(x[i].0 == y[i].0) {
                    return false;
                }
                proof {
                    assert(decreases_to!(*a => *x));
                    assert(decreases_to!(*x => x@[i as int]));
                    assert(decreases_to!(x@[i as int] => x@[i as int].1));
                    assert(decreases_to!(*a => x@[i as int].1));
                }
                if !value_eq(&x[i].1, &y[i].1) {
                    return false;
                }
                i += 1;
            }
            true
        },
        _ => false,
    }
}

impl PartialEq for Value {
    fn eq(&self, other: &Value) -> (r: bool) {
        value_eq(self, other)
    }
}

impl vstd::std_specs::cmp::PartialEqSpecImpl for Value {
    open spec fn obeys_eq_spec() -> bool {
        true
    }

    open spec fn eq_spec(&self, other: &Value) -> bool {
        val_eq(*self, *other)
    }
}

/// Deep structural equality of two entry lists, position by position.
pub open spec fn entries_eq(a: Seq<(String, Value)>, b: Seq<(String, Value)>) -> bool {
    &&& a.len() == b.len()
    &&& forall|i: int| 0 <= i < a.len() ==> (#[trigger] a[i]).0@ == b[i].0@ && val_eq(a[i].1, b[i].1)
}

/// Executable deep equality of two entry lists, proved to agree with
/// [`entries_eq`].
#[verifier::loop_isolation(false)]
pub fn entry_lists_eq(a: &Vec<(String, Value)>, b: &Vec<(String, Value)>) -> (r: bool)
    ensures
        r == entries_eq(a@, b@),
{
    if a.len() != b.len() {
        return false;
    }
    let mut i: usize = 0;
    while i < a.len()
        invariant
            i <= a@.len(),
            forall|j: int| 0 <= j < i ==> (#[trigger] a@[j]).0@ == b@[j].0@ && val_eq(a@[j].1, b@[j].1),
        decreases a@.len() - i,
    {
        if !(a[i].0 == b[i].0) {
            return false;
        }
        if !value_eq(&a[i].1, &b[i].1) {
            return false;
        }
        i += 1;
    }
    true
}

/// The value stored under key `k`: the first entry whose key is `k`, if any.
pub open spec fn lookup(d: Seq<(String, Value)>, k: Seq<char>) -> Option<Value>
    decreases d.len(),
{
    if d.len() == 0 {
        None
    } else if d[0].0@ == k {
        Some(d[0].1)
    } else {
        lookup(d.drop_first(), k)
    }
}

/// Whether the entry list holds the key `k`.
pub open spec fn has_key(d: Seq<(String, Value)>, k: Seq<char>) -> bool {
    lookup(d, k) is Some
}

proof fn lemma_lookup_skip(d: Seq<(String, Value)>, k: Seq<char>, i: int)
    requires
        0 <= i <= d.len(),
        forall|j: int| 0 <= j < i ==> (#[trigger] d[j]).0@ != k,
    ensures
        lookup(d, k) == lookup(d.skip(i), k),
    decreases i,
{
    if i > 0 {
        lemma_lookup_skip(d.drop_first(), k, i - 1);
        assert(d.drop_first().skip(i - 1) =~= d.skip(i));
    } else {
        assert(d.skip(0) =~= d);
    }
}

/// Finds the first entry whose key is `k` and returns a reference to its
/// value, in agreement with [`lookup`].
#[verifier::loop_isolation(false)]
pub fn get_value<'a>(d: &'a Vec<(String, Value)>, k: &String) -> (r: Option<&'a Value>)
    ensures
        match r {
            Some(v) => lookup(d@, k@) == Some(*v),
            None => lookup(d@, k@) is None,
        },
{
    let mut i: usize = 0;
    while i < d.len()
        invariant
            i <= d@.len(),
            forall|j: int| 0 <= j < i ==> (#[trigger] d@[j]).0@ != k@,
        decreases d@.len() - i,
    {
        if d[i].0 == *k {
            proof {
                lemma_lookup_skip(d@, k@, i as int);
                assert(d@.skip(i as int)[0] == d@[i as int]);
            }
            return Some(&d[i].1);
        }
        i += 1;
    }
    proof {
        lemma_lookup_skip(d@, k@, d@.len() as int);
        assert(d@.skip(d@.len() as int) =~= Seq::<(String, Value)>::empty());
    }
    None
}

/// A deep copy of a payload value, equal to the original under [`val_eq`].
#[verifier::loop_isolation(false)]
pub fn clone_value(v: &Value) -> (r: Value)
    ensures
        val_eq(r, *v),
    decreases *v,
{
    match v {
        Value::Null => Value::Null,
        Value::Bool(x) => Value::Bool(*x),
        Value::Int(x) => Value::Int(*x),
        Value::Text(x) => Value::Text(x.clone()),
        Value::List(x) => {
            let mut out: Vec<Value> = Vec::new();
            let mut i: usize = 0;
            while i < x.len()
                invariant
                    i <= x@.len(),
                    out@.len() == i,
                    forall|j: int| 0 <= j < i ==> val_eq(#[trigger] out@[j], x@[j]),
                decreases x@.len() - i,
            {
                proof {
                    assert(decreases_to!(*v => *x));
                    assert(decreases_to!(*x => x@[i as int]));
                    assert(decreases_to!(*v => x@[i as int]));
                }
                let c = clone_value(&x[i]);
                out.push(c);
                i += 1;
            }
            Value::List(out)
        },
        Value::Object(x) => Value::Object(clone_entries(x)),
    }
}

/// A deep copy of an entry list, equal to the original under [`entries_eq`].
#[verifier::loop_isolation(false)]
pub fn clone_entries(d: &Vec<(String, Value)>) -> (r: Vec<(String, Value)>)
    ensures
        entries_eq(r@, d@),
    decreases *d,
{
    let mut out: Vec<(String, Value)> = Vec::new();
    let mut i: usize = 0;
    while i < d.len()
        invariant
            i <= d@.len(),
            out@.len() == i,
            forall|j: int| 0 <= j < i ==> (#[trigger] out@[j]).0@ == d@[j].0@ && val_eq(out@[j].1, d@[j].1),
        decreases d@.len() - i,
    {
        proof {
            assert(decreases_to!(*d => d@[i as int]));
            assert(decreases_to!(d@[i as int] => d@[i as int].1));
            assert(decreases_to!(*d => d@[i as int].1));
        }
        let key = d[i].0.clone();
        let val = clone_value(&d[i].1);
        out.push((key, val));
        i += 1;
    }
    out
}

} // verus!
