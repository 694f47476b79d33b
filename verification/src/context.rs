//! The runtime context: global variables resolved by dotted/indexed path,
//! and named filters looked up at render time.
use vstd::prelude::*;
use crate::error::{res_view, Error, ErrorV};
use crate::expression::{expr_view, exprs_view, Expression, ExpressionV, VariableV};
use crate::value::{
    pairs_view, spec_scalar_text, spec_value_text, value_view, Scalar, ScalarV, Value, ValueV,
};

verus! {

broadcast use vstd::seq::group_seq_axioms, vstd::std_specs::vec::group_vec_axioms;

/// A named transformation applied by a filter chain: it maps an input value
/// and evaluated argument values to a value, or fails. Hosts implement this
/// for their own filter types; the library never constrains what a filter
/// returns.
pub trait Filter {
    /// Applies the transformation.
    fn filter(&self, input: &Value, arguments: &[Value]) -> Result<Value, Error>;
}

/// The runtime context: globals for variable resolution and a named filter
/// table, both ordered association lists where lookup takes the first pair
/// with the name.
pub struct Context<F> {
    pub globals: Vec<(String, Value)>,
    pub filters: Vec<(String, F)>,
}

/// First-match lookup in an association list.
pub open spec fn spec_lookup(pairs: Seq<(Seq<char>, ValueV)>, key: Seq<char>) -> Option<ValueV>
    decreases pairs,
{
    if pairs.len() == 0 {
        Option::None
    } else if pairs[0].0 == key {
        Option::Some(pairs[0].1)
    } else {
        spec_lookup(pairs.drop_first(), key)
    }
}

impl<F> Context<F> {
    /// The model of the globals table.
    pub open spec fn globals_view(&self) -> Seq<(Seq<char>, ValueV)> {
        pairs_view(self.globals@)
    }

    /// The registered filter names, in table order.
    pub open spec fn filter_names(&self) -> Seq<Seq<char>> {
        Seq::new(self.filters@.len(), |i: int| self.filters@[i].0@)
    }

    /// An empty context: no globals, no filters.
    pub fn new() -> (r: Context<F>)
        ensures
            r.globals_view() == Seq::<(Seq<char>, ValueV)>::empty(),
            r.filter_names() == Seq::<Seq<char>>::empty(),
    {
        let r = Context { globals: Vec::new(), filters: Vec::new() };
        proof {
            assert(r.globals_view() =~= Seq::<(Seq<char>, ValueV)>::empty());
            assert(r.filter_names() =~= Seq::<Seq<char>>::empty());
        }
        r
    }

    /// Binds a global; a later binding of the same name shadows an earlier
    /// one.
    pub fn set_global(&mut self, name: &str, v: Value)
        ensures
            final(self).globals_view() == seq![(name@, v@)] + old(self).globals_view(),
            final(self).filter_names() == old(self).filter_names(),
    {
        self.globals.insert(0, (name.to_owned(), v));
        proof {
            assert(self.globals@.drop_first() =~= old(self).globals@);
            assert(self.globals_view() =~= seq![(name@, value_view(v))] + pairs_view(
                old(self).globals@,
            ));
            assert(self.filter_names() =~= old(self).filter_names());
        }
    }

    /// Registers a filter under a name; a later registration of the same
    /// name shadows an earlier one.
    pub fn add_filter(&mut self, name: &str, f: F)
        ensures
            final(self).filter_names() == seq![name@] + old(self).filter_names(),
            final(self).globals_view() == old(self).globals_view(),
    {
        self.filters.insert(0, (name.to_owned(), f));
        proof {
            assert(self.filter_names() =~= seq![name@] + old(self).filter_names());
        }
    }

    /// Finds the filter registered first under the name.
    pub fn get_filter(&self, name: &str) -> (r: Option<&F>)
        ensures
            r is Some <==> self.filter_names().contains(name@),
    {
        let key = name.to_owned();
        let n = self.filters.len();
        let mut i: usize = 0;
        while i < n
            invariant
                key@ == name@,
                0 <= i <= n,
                n == self.filters@.len(),
                forall|j: int| 0 <= j < i ==> self.filter_names()[j] != name@,
            decreases n - i,
        {
            if self.filters[i].0 == key {
                proof {
                    assert(self.filter_names()[i as int] == name@);
                }
                return Option::Some(&self.filters[i].1);
            }
            i = i + 1;
        }
        proof {
            assert(forall|j: int|
                0 <= j < self.filter_names().len() ==> self.filter_names()[j] != name@);
        }
        Option::None
    }
}

/// The error raised when a variable root is not bound in the context.
pub open spec fn spec_unknown_variable(name: Seq<char>) -> ErrorV {
    ErrorV {
        msg: "Unknown variable"@,
        context: seq![("variable"@, name)],
        cause: Option::None,
    }
}

/// The error raised when an index does not reach into the value it is
/// applied to; it carries the index's display text.
pub open spec fn spec_unknown_index(text: Seq<char>) -> ErrorV {
    ErrorV { msg: "Unknown index"@, context: seq![("index"@, text)], cause: Option::None }
}

/// What one index step yields: a string key reaches into a keyed map, a
/// whole number reaches into a sequence (a negative one counts from its
/// end); everything else fails.
pub open spec fn spec_index_value(cur: ValueV, idx: ScalarV) -> Result<ValueV, ErrorV> {
    match cur {
        ValueV::Object(pairs) => match idx {
            ScalarV::Str(k) => match spec_lookup(pairs, k) {
                Option::Some(v) => Ok(v),
                Option::None => Err(spec_unknown_index(k)),
            },
            _ => Err(spec_unknown_index(spec_scalar_text(idx))),
        },
        ValueV::Array(items) => match idx {
            ScalarV::Int(i) => {
                let j = if i < 0 {
                    items.len() + i
                } else {
                    i
                };
                if 0 <= j < items.len() {
                    Ok(items[j])
                } else {
                    Err(spec_unknown_index(spec_scalar_text(idx)))
                }
            },
            _ => Err(spec_unknown_index(spec_scalar_text(idx))),
        },
        _ => Err(spec_unknown_index(spec_scalar_text(idx))),
    }
}

/// What evaluating an expression yields: a literal is its value; a path is
/// the root's binding, stepped through each accessor in order. The first
/// failure is the result.
pub open spec fn spec_eval_expr(
    e: ExpressionV,
    globals: Seq<(Seq<char>, ValueV)>,
) -> Result<ValueV, ErrorV>
    decreases e, 1int,
{
    match e {
        ExpressionV::Literal(v) => Ok(v),
        ExpressionV::Variable(var) => match spec_lookup(globals, var.root) {
            Option::None => Err(spec_unknown_variable(var.root)),
            Option::Some(v0) => spec_eval_indexes(v0, var.indexes, globals),
        },
    }
}

/// Steps a value through accessors: each accessor is evaluated, must yield a
/// scalar, and indexes into the running value.
pub open spec fn spec_eval_indexes(
    cur: ValueV,
    idxs: Seq<ExpressionV>,
    globals: Seq<(Seq<char>, ValueV)>,
) -> Result<ValueV, ErrorV>
    decreases idxs, 0int,
{
    if idxs.len() == 0 {
        Ok(cur)
    } else {
        match spec_eval_expr(idxs[0], globals) {
            Err(e) => Err(e),
            Ok(iv) => match iv {
                ValueV::Scalar(s) => match spec_index_value(cur, s) {
                    Err(e) => Err(e),
                    Ok(next) => spec_eval_indexes(next, idxs.drop_first(), globals),
                },
                _ => Err(spec_unknown_index(spec_value_text(iv))),
            },
        }
    }
}

/// Finds the first binding of the key in an association list and copies its
/// value.
fn lookup_value(pairs: &Vec<(String, Value)>, key: &str) -> (r: Option<Value>)
    ensures
        match spec_lookup(pairs_view(pairs@), key@) {
            Option::Some(v) => r is Some && r.unwrap()@ == v,
            Option::None => r is None,
        },
{
    let keyed = key.to_owned();
    let n = pairs.len();
    let mut i: usize = 0;
    proof {
        crate::value::lemma_pairs_view_len(pairs@);
        assert(pairs_view(pairs@).skip(0) =~= pairs_view(pairs@));
    }
    while i < n
        invariant
            keyed@ == key@,
            0 <= i <= n,
            n == pairs@.len(),
            pairs_view(pairs@).len() == n,
            forall|j: int| 0 <= j < n ==> pairs_view(pairs@)[j] == (
                pairs@[j].0@,
                value_view(pairs@[j].1),
            ),
            spec_lookup(pairs_view(pairs@), key@) == spec_lookup(
                pairs_view(pairs@).skip(i as int),
                key@,
            ),
        decreases n - i,
    {
        if pairs[i].0 == keyed {
            proof {
                assert(pairs_view(pairs@).skip(i as int)[0] == pairs_view(pairs@)[i as int]);
            }
            return Option::Some(pairs[i].1.duplicate());
        }
        proof {
            assert(pairs_view(pairs@).skip(i as int)[0] == pairs_view(pairs@)[i as int]);
            assert(pairs_view(pairs@).skip(i as int).drop_first() =~= pairs_view(pairs@).skip(
                i + 1,
            ));
        }
        i = i + 1;
    }
    proof {
        assert(pairs_view(pairs@).skip(n as int).len() == 0);
    }
    Option::None
}

/// Steps `cur` by one index scalar, as `spec_index_value` says.
fn index_value(cur: &Value, idx: &Scalar) -> (r: Result<Value, Error>)
    ensures
        res_view(r) == spec_index_value(cur@, idx@),
{
    proof {
        reveal_strlit("Unknown index");
        reveal_strlit("index");
    }
    match cur {
        Value::Object(pairs) => match idx {
            Scalar::Str(k) => match lookup_value(pairs, k.as_str()) {
                Option::Some(v) => Ok(v),
                Option::None => Err(
                    Error::with_msg("Unknown index".to_owned()).context("index", k.clone()),
                ),
            },
            _ => Err(
                Error::with_msg("Unknown index".to_owned()).context("index", idx.to_text()),
            ),
        },
        Value::Array(items) => match idx {
            Scalar::Int(i) => {
                proof {
                    crate::value::lemma_values_view_len(items@);
                }
                let n = items.len();
                let iv = *i;
                if iv >= 0 {
                    let j = iv as usize;
                    if j < n {
                        Ok(items[j].duplicate())
                    } else {
                        Err(
                            Error::with_msg("Unknown index".to_owned()).context(
                                "index",
                                idx.to_text(),
                            ),
                        )
                    }
                } else {
                    let k = (-(iv as i64)) as usize;
                    if k <= n {
                        let j = n - k;
                        Ok(items[j].duplicate())
                    } else {
                        Err(
                            Error::with_msg("Unknown index".to_owned()).context(
                                "index",
                                idx.to_text(),
                            ),
                        )
                    }
                }
            },
            _ => Err(
                Error::with_msg("Unknown index".to_owned()).context("index", idx.to_text()),
            ),
        },
        _ => Err(Error::with_msg("Unknown index".to_owned()).context("index", idx.to_text())),
    }
}

impl Expression {
    /// Evaluates this expression against the context's globals, as
    /// `spec_eval_expr` says.
    pub fn evaluate<F>(&self, context: &Context<F>) -> (r: Result<Value, Error>)
        ensures
            res_view(r) == spec_eval_expr(self@, context.globals_view()),
        decreases *self, 1int,
    {
        proof {
            reveal_strlit("Unknown variable");
            reveal_strlit("variable");
        }
        match self {
            Expression::Literal(v) => Ok(v.duplicate()),
            Expression::Variable(var) => {
                match lookup_value(&context.globals, var.root.as_str()) {
                    Option::None => Err(
                        Error::with_msg("Unknown variable".to_owned()).context(
                            "variable",
                            var.root.clone(),
                        ),
                    ),
                    Option::Some(v0) => {
                        proof {
                            assert(decreases_to!(*self => *var));
                            assert(decreases_to!(*var => var.indexes));
                        }
                        eval_indexes(v0, &var.indexes, context)
                    },
                }
            },
        }
    }
}

/// Steps `cur` through the accessors in order, as `spec_eval_indexes` says.
fn eval_indexes<F>(cur: Value, idxs: &Vec<Expression>, context: &Context<F>) -> (r: Result<
    Value,
    Error,
>)
    ensures
        res_view(r) == spec_eval_indexes(cur@, exprs_view(idxs@), context.globals_view()),
    decreases *idxs, 0int,
{
    proof {
        reveal_strlit("Unknown index");
        reveal_strlit("index");
        crate::expression::lemma_exprs_view_len(idxs@);
    }
    let ghost iv = exprs_view(idxs@);
    proof {
        assert(iv.skip(0) =~= iv);
    }
    let n = idxs.len();
    let mut out = cur;
    let mut i: usize = 0;
    while i < n
        invariant
            0 <= i <= n,
            n == idxs@.len(),
            iv == exprs_view(idxs@),
            iv.len() == n,
            forall|j: int| 0 <= j < n ==> iv[j] == expr_view(idxs@[j]),
            spec_eval_indexes(cur@, iv, context.globals_view()) == spec_eval_indexes(
                out@,
                iv.skip(i as int),
                context.globals_view(),
            ),
        decreases n - i,
    {
        proof {
            assert(iv.skip(i as int)[0] == iv[i as int]);
            assert(iv.skip(i as int).drop_first() =~= iv.skip(i + 1));
            assert(decreases_to!(*idxs => idxs@[i as int]));
        }
        let step = idxs[i].evaluate(context);
        match step {
            Err(e) => {
                return Err(e);
            },
            Ok(ival) => match ival {
                Value::Scalar(s) => {
                    let next = index_value(&out, &s);
                    match next {
                        Err(e) => {
                            return Err(e);
                        },
                        Ok(nv) => {
                            out = nv;
                        },
                    }
                },
                other => {
                    let txt = other.to_text();
                    return Err(
                        Error::with_msg("Unknown index".to_owned()).context("index", txt),
                    );
                },
            },
        }
        i = i + 1;
    }
    proof {
        assert(iv.skip(n as int).len() == 0);
    }
    Ok(out)
}

} // verus!
