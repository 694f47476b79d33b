//! Path expressions and general expressions: a literal value, or a variable
//! root with ordered index/field accessors, each accessor itself an
//! expression.
use vstd::prelude::*;
use crate::value::{value_view, Value, ValueV};

verus! {

broadcast use vstd::seq::group_seq_axioms, vstd::std_specs::vec::group_vec_axioms;

/// Mathematical model of a path expression.
pub struct VariableV {
    pub root: Seq<char>,
    pub indexes: Seq<ExpressionV>,
}

/// Mathematical model of an expression.
pub enum ExpressionV {
    Literal(ValueV),
    Variable(VariableV),
}

/// A path expression: a root name and ordered accessors. The root always
/// exists; an empty path cannot be built.
#[derive(Debug, PartialEq)]
pub struct Variable {
    pub root: String,
    pub indexes: Vec<Expression>,
}

/// An expression: a literal value or a path expression.
#[derive(Debug, PartialEq)]
pub enum Expression {
    Literal(Value),
    Variable(Variable),
}

pub open spec fn exprs_view(s: Seq<Expression>) -> Seq<ExpressionV>
    decreases s,
{
    if s.len() == 0 {
        Seq::empty()
    } else {
        seq![expr_view(s[0])] + exprs_view(s.drop_first())
    }
}

pub open spec fn var_view(v: Variable) -> VariableV
    decreases v,
{
    VariableV { root: v.root@, indexes: exprs_view(v.indexes@) }
}

pub open spec fn expr_view(e: Expression) -> ExpressionV
    decreases e,
{
    match e {
        Expression::Literal(v) => ExpressionV::Literal(value_view(v)),
        Expression::Variable(v) => ExpressionV::Variable(var_view(v)),
    }
}

impl View for Expression {
    type V = ExpressionV;

    open spec fn view(&self) -> ExpressionV {
        expr_view(*self)
    }
}

impl View for Variable {
    type V = VariableV;

    open spec fn view(&self) -> VariableV {
        var_view(*self)
    }
}

pub proof fn lemma_exprs_view_len(s: Seq<Expression>)
    ensures
        exprs_view(s).len() == s.len(),
        forall|i: int| 0 <= i < s.len() ==> exprs_view(s)[i] == expr_view(s[i]),
    decreases s,
{
    if s.len() > 0 {
        lemma_exprs_view_len(s.drop_first());
    }
}

impl Variable {
    /// A path consisting of the bare root name.
    pub fn with_literal(root: &str) -> (r: Variable)
        ensures
            r@ == (VariableV { root: root@, indexes: Seq::empty() }),
    {
        let r = Variable { root: root.to_owned(), indexes: Vec::new() };
        proof {
            assert(r@.indexes =~= Seq::<ExpressionV>::empty());
        }
        r
    }

    /// Appends one accessor.
    pub fn push_index(&mut self, e: Expression)
        ensures
            final(self)@ == (VariableV {
                root: old(self)@.root,
                indexes: old(self)@.indexes + seq![e@],
            }),
    {
        let ghost v0 = self.indexes@;
        self.indexes.push(e);
        proof {
            lemma_exprs_view_len(v0);
            lemma_exprs_view_len(self.indexes@);
            assert(exprs_view(self.indexes@) =~= exprs_view(v0) + seq![e@]);
        }
    }

    /// Appends the given accessors in order.
    pub fn extend(&mut self, indexes: Vec<Expression>)
        ensures
            final(self)@ == (VariableV {
                root: old(self)@.root,
                indexes: old(self)@.indexes + exprs_view(indexes@),
            }),
    {
        let mut rest = indexes;
        let n = rest.len();
        let ghost restv = exprs_view(rest@);
        let mut i: usize = 0;
        proof {
            lemma_exprs_view_len(rest@);
            assert(self@.indexes + restv.take(0) =~= self@.indexes);
        }
        while i < n
            invariant
                0 <= i <= n,
                n == rest.len(),
                restv.len() == n,
                forall|j: int| 0 <= j < n ==> restv[j] == expr_view(rest@[j]),
                self@.root == old(self)@.root,
                self@.indexes == old(self)@.indexes + restv.take(i as int),
            decreases n - i,
        {
            let e = rest[i].duplicate();
            self.push_index(e);
            proof {
                assert(old(self)@.indexes + restv.take(i as int) + seq![restv[i as int]]
                    =~= old(self)@.indexes + restv.take(i + 1));
            }
            i = i + 1;
        }
        proof {
            assert(restv.take(n as int) =~= restv);
        }
    }
}

impl Expression {
    /// A literal expression holding the given value.
    pub fn with_literal(v: Value) -> (r: Expression)
        ensures
            r@ == ExpressionV::Literal(v@),
    {
        Expression::Literal(v)
    }

    /// A literal string expression.
    pub fn str_literal(s: &str) -> (r: Expression)
        ensures
            r@ == ExpressionV::Literal(ValueV::Scalar(crate::value::ScalarV::Str(s@))),
    {
        Expression::Literal(Value::of_str(s))
    }

    /// A literal whole-number expression.
    pub fn int_literal(i: i32) -> (r: Expression)
        ensures
            r@ == ExpressionV::Literal(ValueV::Scalar(crate::value::ScalarV::Int(i as int))),
    {
        Expression::Literal(Value::of_int(i))
    }

    /// The path inside, if this is a path expression.
    pub fn into_variable(self) -> (r: Option<Variable>)
        ensures
            match self@ {
                ExpressionV::Variable(v) => r is Some && r.unwrap()@ == v,
                ExpressionV::Literal(_) => r is None,
            },
    {
        match self {
            Expression::Variable(v) => Option::Some(v),
            Expression::Literal(_) => Option::None,
        }
    }

    /// Produces a copy whose model equals this expression's model.
    pub fn duplicate(&self) -> (r: Expression)
        ensures
            r@ == self@,
        decreases *self, 1int,
    {
        match self {
            Expression::Literal(v) => Expression::Literal(v.duplicate()),
            Expression::Variable(v) => {
                proof {
                    assert(decreases_to!(*self => *v));
                    assert(decreases_to!(*v => v.indexes));
                }
                let out = duplicate_exprs(&v.indexes);
                Expression::Variable(Variable { root: v.root.clone(), indexes: out })
            },
        }
    }
}

/// Copies each expression of the sequence; the models are kept.
pub fn duplicate_exprs(items: &Vec<Expression>) -> (r: Vec<Expression>)
    ensures
        exprs_view(r@) == exprs_view(items@),
        r@.len() == items@.len(),
    decreases *items, 0int,
{
    let mut out: Vec<Expression> = Vec::new();
    let n = items.len();
    let mut i: usize = 0;
    proof {
        lemma_exprs_view_len(items@);
    }
    while i < n
        invariant
            0 <= i <= n,
            n == items.len(),
            out@.len() == i,
            forall|j: int| 0 <= j < i ==> expr_view(out@[j]) == exprs_view(items@)[j],
            exprs_view(items@).len() == n,
            forall|j: int| 0 <= j < n ==> exprs_view(items@)[j] == expr_view(items@[j]),
        decreases n - i,
    {
        proof {
            assert(decreases_to!(*items => items@[i as int]));
        }
        let d = items[i].duplicate();
        out.push(d);
        i = i + 1;
    }
    proof {
        lemma_exprs_view_len(out@);
        assert(exprs_view(out@) =~= exprs_view(items@));
    }
    out
}

} // verus!
