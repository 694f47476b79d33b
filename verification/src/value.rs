//! The dynamic value model that expressions evaluate to: scalars, sequences
//! and keyed maps.
//!
//! A float scalar carries its lexical text; the library never computes with
//! floating-point numbers, it only stores, compares and prints them, so the
//! text is the canonical form.
use vstd::prelude::*;
use crate::text::{append_int_text, spec_int_text};
use vstd::string::StringExecFns;

verus! {

broadcast use vstd::seq::group_seq_axioms, vstd::std_specs::vec::group_vec_axioms;

/// Mathematical model of a scalar value.
pub enum ScalarV {
    Str(Seq<char>),
    Int(int),
    Float(Seq<char>),
    Bool(bool),
}

/// Mathematical model of a value.
pub enum ValueV {
    Scalar(ScalarV),
    Array(Seq<ValueV>),
    Object(Seq<(Seq<char>, ValueV)>),
    Nil,
}

/// A scalar: a string, a whole number, a float (kept as its lexical text) or
/// a boolean.
#[derive(Debug, Clone, PartialEq)]
pub enum Scalar {
    Str(String),
    Int(i32),
    Float(String),
    Bool(bool),
}

/// A dynamic value: a scalar, an ordered sequence, a keyed map (ordered
/// association list; lookup takes the first pair with the key) or nil.
#[derive(Debug, PartialEq)]
pub enum Value {
    Scalar(Scalar),
    Array(Vec<Value>),
    Object(Vec<(String, Value)>),
    Nil,
}

impl View for Scalar {
    type V = ScalarV;

    open spec fn view(&self) -> ScalarV {
        match self {
            Scalar::Str(s) => ScalarV::Str(s@),
            Scalar::Int(i) => ScalarV::Int(*i as int),
            Scalar::Float(t) => ScalarV::Float(t@),
            Scalar::Bool(b) => ScalarV::Bool(*b),
        }
    }
}

pub open spec fn values_view(s: Seq<Value>) -> Seq<ValueV>
    decreases s,
{
    if s.len() == 0 {
        Seq::empty()
    } else {
        seq![value_view(s[0])] + values_view(s.drop_first())
    }
}

pub open spec fn pairs_view(s: Seq<(String, Value)>) -> Seq<(Seq<char>, ValueV)>
    decreases s,
{
    if s.len() == 0 {
        Seq::empty()
    } else {
        seq![(s[0].0@, value_view(s[0].1))] + pairs_view(s.drop_first())
    }
}

pub open spec fn value_view(v: Value) -> ValueV
    decreases v,
{
    match v {
        Value::Scalar(s) => ValueV::Scalar(s@),
        Value::Array(items) => ValueV::Array(values_view(items@)),
        Value::Object(pairs) => ValueV::Object(pairs_view(pairs@)),
        Value::Nil => ValueV::Nil,
    }
}

impl View for Value {
    type V = ValueV;

    open spec fn view(&self) -> ValueV {
        value_view(*self)
    }
}

pub proof fn lemma_values_view_len(s: Seq<Value>)
    ensures
        values_view(s).len() == s.len(),
        forall|i: int| 0 <= i < s.len() ==> values_view(s)[i] == value_view(s[i]),
    decreases s,
{
    if s.len() > 0 {
        lemma_values_view_len(s.drop_first());
    }
}

pub proof fn lemma_pairs_view_len(s: Seq<(String, Value)>)
    ensures
        pairs_view(s).len() == s.len(),
        forall|i: int| 0 <= i < s.len() ==> pairs_view(s)[i] == (s[i].0@, value_view(s[i].1)),
    decreases s,
{
    if s.len() > 0 {
        lemma_pairs_view_len(s.drop_first());
    }
}

impl Value {
    /// Wraps a string scalar.
    pub fn of_str(s: &str) -> (r: Value)
        ensures
            r@ == ValueV::Scalar(ScalarV::Str(s@)),
    {
        Value::Scalar(Scalar::Str(s.to_owned()))
    }

    /// Wraps a whole-number scalar.
    pub fn of_int(i: i32) -> (r: Value)
        ensures
            r@ == ValueV::Scalar(ScalarV::Int(i as int)),
    {
        Value::Scalar(Scalar::Int(i))
    }

    /// Wraps a boolean scalar.
    pub fn of_bool(b: bool) -> (r: Value)
        ensures
            r@ == ValueV::Scalar(ScalarV::Bool(b)),
    {
        Value::Scalar(Scalar::Bool(b))
    }

    /// Wraps a float scalar given by its lexical text.
    pub fn of_float_text(t: &str) -> (r: Value)
        ensures
            r@ == ValueV::Scalar(ScalarV::Float(t@)),
    {
        Value::Scalar(Scalar::Float(t.to_owned()))
    }
}

/// The display text of a scalar: the string itself, the decimal form of a
/// whole number, the kept text of a float, `true` or `false`.
pub open spec fn spec_scalar_text(s: ScalarV) -> Seq<char> {
    match s {
        ScalarV::Str(t) => t,
        ScalarV::Int(i) => spec_int_text(i),
        ScalarV::Float(t) => t,
        ScalarV::Bool(b) => if b { "true"@ } else { "false"@ },
    }
}

impl Scalar {
    /// Produces the display text of this scalar.
    pub fn to_text(&self) -> (r: String)
        ensures
            r@ == spec_scalar_text(self@),
    {
        match self {
            Scalar::Str(s) => s.clone(),
            Scalar::Int(i) => {
                let mut out = String::new();
                append_int_text(&mut out, *i);
                out
            },
            Scalar::Float(t) => t.clone(),
            Scalar::Bool(b) => {
                if *b {
                    "true".to_owned()
                } else {
                    "false".to_owned()
                }
            },
        }
    }

    /// Produces a copy whose model equals this scalar's model.
    pub fn duplicate(&self) -> (r: Scalar)
        ensures
            r@ == self@,
    {
        match self {
            Scalar::Str(s) => Scalar::Str(s.clone()),
            Scalar::Int(i) => Scalar::Int(*i),
            Scalar::Float(t) => Scalar::Float(t.clone()),
            Scalar::Bool(b) => Scalar::Bool(*b),
        }
    }
}

/// The display text of a value: scalars as above, nil as the empty string, a
/// sequence or keyed map as its (values') texts joined by `, `.
pub open spec fn spec_value_text(v: ValueV) -> Seq<char>
    decreases v, 1int,
{
    match v {
        ValueV::Scalar(s) => spec_scalar_text(s),
        ValueV::Nil => Seq::empty(),
        ValueV::Array(items) => spec_join_texts(items),
        ValueV::Object(pairs) => spec_join_pair_texts(pairs),
    }
}

pub open spec fn spec_join_texts(items: Seq<ValueV>) -> Seq<char>
    decreases items, 0int,
{
    if items.len() == 0 {
        Seq::empty()
    } else if items.len() == 1 {
        spec_value_text(items[0])
    } else {
        spec_value_text(items[0]) + ", "@ + spec_join_texts(items.drop_first())
    }
}

pub open spec fn spec_join_pair_texts(pairs: Seq<(Seq<char>, ValueV)>) -> Seq<char>
    decreases pairs, 0int,
{
    if pairs.len() == 0 {
        Seq::empty()
    } else if pairs.len() == 1 {
        spec_value_text(pairs[0].1)
    } else {
        spec_value_text(pairs[0].1) + ", "@ + spec_join_pair_texts(pairs.drop_first())
    }
}

impl Value {
    /// Produces the display text of this value.
    pub fn to_text(&self) -> (r: String)
        ensures
            r@ == spec_value_text(self@),
        decreases *self, 1int,
    {
        match self {
            Value::Scalar(s) => s.to_text(),
            Value::Nil => String::new(),
            Value::Array(items) => {
                proof {
                    assert(decreases_to!(*self => *items));
                }
                join_value_texts(items)
            },
            Value::Object(pairs) => {
                proof {
                    assert(decreases_to!(*self => *pairs));
                }
                join_pair_texts(pairs)
            },
        }
    }

    /// Produces a copy whose model equals this value's model.
    pub fn duplicate(&self) -> (r: Value)
        ensures
            r@ == self@,
        decreases *self, 1int,
    {
        match self {
            Value::Scalar(s) => Value::Scalar(s.duplicate()),
            Value::Nil => Value::Nil,
            Value::Array(items) => {
                proof {
                    assert(decreases_to!(*self => *items));
                }
                Value::Array(duplicate_values(items))
            },
            Value::Object(pairs) => {
                proof {
                    assert(decreases_to!(*self => *pairs));
                }
                Value::Object(duplicate_pairs(pairs))
            },
        }
    }
}

/// Joins the display texts of the given values with `, `.
fn join_value_texts(items: &Vec<Value>) -> (r: String)
    ensures
        r@ == spec_join_texts(values_view(items@)),
    decreases *items, 0int,
{
    let mut out = String::new();
    let n = items.len();
    let ghost iv = values_view(items@);
    proof {
        lemma_values_view_len(items@);
    }
    if n > 0 {
        proof {
            assert(decreases_to!(*items => items@[0]));
        }
        let t0 = items[0].to_text();
        out.append(t0.as_str());
        let mut i: usize = 1;
        proof {
            lemma_join_texts_prefix(iv);
        }
        while i < n
            invariant
                1 <= i <= n,
                n == items.len(),
                iv == values_view(items@),
                iv.len() == n,
                forall|j: int| 0 <= j < n ==> iv[j] == value_view(items@[j]),
                out@ == spec_join_texts(iv.take(i as int)),
            decreases n - i,
        {
            out.append(", ");
            proof {
                assert(decreases_to!(*items => items@[i as int]));
            }
            let ti = items[i].to_text();
            out.append(ti.as_str());
            proof {
                lemma_join_texts_step(iv, i as int);
            }
            i = i + 1;
        }
        proof {
            assert(iv.take(n as int) =~= iv);
        }
    }
    out
}

/// Joins the display texts of the values of the given pairs with `, `.
fn join_pair_texts(pairs: &Vec<(String, Value)>) -> (r: String)
    ensures
        r@ == spec_join_pair_texts(pairs_view(pairs@)),
    decreases *pairs, 0int,
{
    let mut out = String::new();
    let n = pairs.len();
    let ghost pv = pairs_view(pairs@);
    proof {
        lemma_pairs_view_len(pairs@);
        lemma_join_pair_as_values(pv);
    }
    if n > 0 {
        proof {
            assert(decreases_to!(*pairs => pairs@[0]));
            assert(decreases_to!(pairs@[0] => pairs@[0].1));
        }
        let t0 = pairs[0].1.to_text();
        out.append(t0.as_str());
        let mut i: usize = 1;
        proof {
            lemma_join_texts_prefix(pv.map_values(|p: (Seq<char>, ValueV)| p.1));
        }
        while i < n
            invariant
                1 <= i <= n,
                n == pairs.len(),
                pv == pairs_view(pairs@),
                pv.len() == n,
                forall|j: int| 0 <= j < n ==> pv[j] == (pairs@[j].0@, value_view(pairs@[j].1)),
                out@ == spec_join_texts(pv.map_values(|p: (Seq<char>, ValueV)| p.1).take(i as int)),
            decreases n - i,
        {
            out.append(", ");
            proof {
                assert(decreases_to!(*pairs => pairs@[i as int]));
                assert(decreases_to!(pairs@[i as int] => pairs@[i as int].1));
            }
            let ti = pairs[i].1.to_text();
            out.append(ti.as_str());
            proof {
                lemma_join_texts_step(pv.map_values(|p: (Seq<char>, ValueV)| p.1), i as int);
                assert(pv.map_values(|p: (Seq<char>, ValueV)| p.1)[i as int] == value_view(
                    pairs@[i as int].1,
                ));
            }
            i = i + 1;
        }
        proof {
            let m = pv.map_values(|p: (Seq<char>, ValueV)| p.1);
            assert(m.take(n as int) =~= m);
        }
    }
    proof {
        if n == 0 {
            assert(pv.len() == 0);
        } else {
            assert(pv.map_values(|p: (Seq<char>, ValueV)| p.1).len() == n);
        }
    }
    out
}

/// The texts of the pair values joined equal the joined mapped sequence.
proof fn lemma_join_pair_as_values(pairs: Seq<(Seq<char>, ValueV)>)
    ensures
        spec_join_pair_texts(pairs) == spec_join_texts(
            pairs.map_values(|p: (Seq<char>, ValueV)| p.1),
        ),
    decreases pairs,
{
    let m = pairs.map_values(|p: (Seq<char>, ValueV)| p.1);
    if pairs.len() == 0 {
    } else if pairs.len() == 1 {
        assert(m.len() == 1);
        assert(m[0] == pairs[0].1);
    } else {
        lemma_join_pair_as_values(pairs.drop_first());
        assert(pairs.drop_first().map_values(|p: (Seq<char>, ValueV)| p.1) =~= m.drop_first());
        assert(m[0] == pairs[0].1);
    }
}

proof fn lemma_join_texts_prefix(items: Seq<ValueV>)
    requires
        items.len() >= 1,
    ensures
        spec_join_texts(items.take(1)) == spec_value_text(items[0]),
{
    assert(items.take(1).len() == 1);
    assert(items.take(1)[0] == items[0]);
}

proof fn lemma_join_texts_step(items: Seq<ValueV>, i: int)
    requires
        1 <= i < items.len(),
    ensures
        spec_join_texts(items.take(i + 1)) == spec_join_texts(items.take(i)) + ", "@
            + spec_value_text(items[i]),
    decreases i,
{
    let a = items.take(i + 1);
    let b = items.take(i);
    if i == 1 {
        assert(a.len() == 2);
        assert(a.drop_first() =~= seq![items[1]]);
        assert(spec_join_texts(a.drop_first()) == spec_value_text(items[1]));
        assert(b =~= seq![items[0]]);
    } else {
        assert(a.drop_first() =~= items.drop_first().take(i));
        assert(b.drop_first() =~= items.drop_first().take(i - 1));
        lemma_join_texts_step(items.drop_first(), i - 1);
        assert(a[0] == items[0]);
        assert(b[0] == items[0]);
        assert(a.len() >= 2);
        assert(b.len() >= 2);
        assert(items.drop_first()[i - 1] == items[i]);
    }
}

/// Copies each value of the sequence; the models are kept.
fn duplicate_values(items: &Vec<Value>) -> (r: Vec<Value>)
    ensures
        values_view(r@) == values_view(items@),
        r@.len() == items@.len(),
    decreases *items, 0int,
{
    let mut out: Vec<Value> = Vec::new();
    let n = items.len();
    let mut i: usize = 0;
    proof {
        lemma_values_view_len(items@);
    }
    while i < n
        invariant
            0 <= i <= n,
            n == items.len(),
            out@.len() == i,
            forall|j: int| 0 <= j < i ==> value_view(out@[j]) == values_view(items@)[j],
            values_view(items@).len() == n,
            forall|j: int| 0 <= j < n ==> values_view(items@)[j] == value_view(items@[j]),
        decreases n - i,
    {
        proof {
            assert(decreases_to!(*items => items@[i as int]));
        }
        let d = items[i].duplicate();
        out.push(d);
        i = i + 1;
    }
    proof {
        lemma_values_view_len(out@);
        assert(values_view(out@) =~= values_view(items@));
    }
    out
}

/// Copies each pair of the sequence; the models are kept.
fn duplicate_pairs(pairs: &Vec<(String, Value)>) -> (r: Vec<(String, Value)>)
    ensures
        pairs_view(r@) == pairs_view(pairs@),
        r@.len() == pairs@.len(),
    decreases *pairs, 0int,
{
    let mut out: Vec<(String, Value)> = Vec::new();
    let n = pairs.len();
    let mut i: usize = 0;
    proof {
        lemma_pairs_view_len(pairs@);
    }
    while i < n
        invariant
            0 <= i <= n,
            n == pairs.len(),
            out@.len() == i,
            forall|j: int| 0 <= j < i ==> (out@[j].0@, value_view(out@[j].1)) == pairs_view(
                pairs@,
            )[j],
            pairs_view(pairs@).len() == n,
            forall|j: int| 0 <= j < n ==> pairs_view(pairs@)[j] == (
                pairs@[j].0@,
                value_view(pairs@[j].1),
            ),
        decreases n - i,
    {
        proof {
            assert(decreases_to!(*pairs => pairs@[i as int]));
            assert(decreases_to!(pairs@[i as int] => pairs@[i as int].1));
        }
        let k = pairs[i].0.clone();
        let d = pairs[i].1.duplicate();
        out.push((k, d));
        i = i + 1;
    }
    proof {
        lemma_pairs_view_len(out@);
        assert(pairs_view(out@) =~= pairs_view(pairs@));
    }
    out
}

} // verus!
