//! The filter chain: an entry expression piped through zero or more named
//! filters, and its evaluation against a context.
use vstd::prelude::*;
use crate::context::{
    spec_eval_expr, Context, Filter,
};
use crate::error::{res_view, Error, ErrorV};
use crate::expression::{expr_view, exprs_view, Expression, ExpressionV};
use crate::value::{spec_value_text, Value, ValueV};

verus! {

broadcast use vstd::seq::group_seq_axioms, vstd::std_specs::vec::group_vec_axioms;

/// Mathematical model of one filter call.
pub struct FilterPrototypeV {
    pub name: Seq<char>,
    pub arguments: Seq<ExpressionV>,
}

/// Mathematical model of a filter chain.
pub struct OutputV {
    pub entry: ExpressionV,
    pub filters: Seq<FilterPrototypeV>,
}

/// One filter call: a name and its ordered argument expressions.
#[derive(Debug, PartialEq)]
pub struct FilterPrototype {
    pub name: String,
    pub arguments: Vec<Expression>,
}

/// A filter chain: an entry expression and ordered filter calls, applied
/// left to right. A chain with no filters simply evaluates its entry.
#[derive(Debug, PartialEq)]
pub struct Output {
    pub entry: Expression,
    pub filters: Vec<FilterPrototype>,
}

/// A filter call, as the expression builder names it.
pub type FilterCall = FilterPrototype;

/// A filter chain, as the expression builder names it.
pub type FilterChain = Output;

pub open spec fn proto_view(p: FilterPrototype) -> FilterPrototypeV {
    FilterPrototypeV { name: p.name@, arguments: exprs_view(p.arguments@) }
}

pub open spec fn protos_view(s: Seq<FilterPrototype>) -> Seq<FilterPrototypeV>
    decreases s,
{
    if s.len() == 0 {
        Seq::empty()
    } else {
        seq![proto_view(s[0])] + protos_view(s.drop_first())
    }
}

impl View for FilterPrototype {
    type V = FilterPrototypeV;

    open spec fn view(&self) -> FilterPrototypeV {
        proto_view(*self)
    }
}

impl View for Output {
    type V = OutputV;

    open spec fn view(&self) -> OutputV {
        OutputV { entry: expr_view(self.entry), filters: protos_view(self.filters@) }
    }
}

pub proof fn lemma_protos_view_len(s: Seq<FilterPrototype>)
    ensures
        protos_view(s).len() == s.len(),
        forall|i: int| 0 <= i < s.len() ==> protos_view(s)[i] == proto_view(s[i]),
    decreases s,
{
    if s.len() > 0 {
        lemma_protos_view_len(s.drop_first());
    }
}

impl FilterPrototype {
    /// A filter call with the given name and arguments.
    pub fn new(name: &str, arguments: Vec<Expression>) -> (r: FilterPrototype)
        ensures
            r@ == (FilterPrototypeV { name: name@, arguments: exprs_view(arguments@) }),
    {
        FilterPrototype { name: name.to_owned(), arguments }
    }
}

/// The error raised when a filter name is not registered in the context.
pub open spec fn spec_unsupported_filter(name: Seq<char>) -> ErrorV {
    ErrorV {
        msg: "Unsupported filter"@,
        context: seq![("filter"@, name)],
        cause: Option::None,
    }
}

/// Evaluates each argument in order: the first failure, or all the values.
pub open spec fn spec_eval_args(
    args: Seq<ExpressionV>,
    globals: Seq<(Seq<char>, ValueV)>,
) -> Result<Seq<ValueV>, ErrorV>
    decreases args,
{
    if args.len() == 0 {
        Ok(Seq::empty())
    } else {
        match spec_eval_expr(args[0], globals) {
            Err(e) => Err(e),
            Ok(v) => match spec_eval_args(args.drop_first(), globals) {
                Err(e) => Err(e),
                Ok(rest) => Ok(seq![v] + rest),
            },
        }
    }
}

/// Everything the names and the entry determine of rendering a chain `o`
/// against globals `g` and registered filter names `fnames`: a chain with
/// no filters renders its entry's display text; an entry failure, a missing
/// first filter name and a failing first argument list are the errors they
/// raise; a success carries text and resolved every filter name and
/// argument list. Between the pinned prefix and these necessities the
/// registered filters themselves decide.
pub open spec fn spec_renders_output(
    o: OutputV,
    g: Seq<(Seq<char>, ValueV)>,
    fnames: Seq<Seq<char>>,
    r: Result<Option<String>, Error>,
) -> bool {
    &&& o.filters.len() == 0 ==> (match spec_eval_expr(o.entry, g) {
        Ok(v) => r is Ok && r->Ok_0 is Some && r->Ok_0->0@ == spec_value_text(v),
        Err(e) => r is Err && r->Err_0@ == e,
    })
    &&& spec_eval_expr(o.entry, g) is Err ==> (r is Err && r->Err_0@ == spec_eval_expr(
        o.entry,
        g,
    )->Err_0)
    &&& (spec_eval_expr(o.entry, g) is Ok && o.filters.len() > 0 && !fnames.contains(
        o.filters[0].name,
    )) ==> (r is Err && r->Err_0@ == spec_unsupported_filter(o.filters[0].name))
    &&& (spec_eval_expr(o.entry, g) is Ok && o.filters.len() > 0 && fnames.contains(
        o.filters[0].name,
    ) && spec_eval_args(o.filters[0].arguments, g) is Err) ==> (r is Err && r->Err_0@
        == spec_eval_args(o.filters[0].arguments, g)->Err_0)
    &&& r is Ok ==> (r->Ok_0 is Some && spec_eval_expr(o.entry, g) is Ok && forall|k: int|
        0 <= k < o.filters.len() ==> (#[trigger] fnames.contains(o.filters[k].name)
            && spec_eval_args(o.filters[k].arguments, g) is Ok))
}

impl Output {
    /// A chain with the given entry and filter calls.
    pub fn new(entry: Expression, filters: Vec<FilterPrototype>) -> (r: Output)
        ensures
            r@ == (OutputV { entry: entry@, filters: protos_view(filters@) }),
    {
        Output { entry, filters }
    }

    /// Resolves the entry against the context, then threads the running
    /// value through each filter in order: a missing filter name fails with
    /// `Unsupported filter`; a failing filter's error is wrapped with
    /// `Filter error`. Everything up to the first filter invocation is
    /// pinned; from there on the filters themselves decide, so for a chain
    /// with filters only the stated necessities hold of a success.
    pub fn apply_filters<F: Filter>(&self, context: &Context<F>) -> (r: Result<Value, Error>)
        ensures
            spec_eval_expr(self@.entry, context.globals_view()) is Err ==> res_view(r)
                == spec_eval_expr(self@.entry, context.globals_view()),
            self@.filters.len() == 0 ==> res_view(r) == spec_eval_expr(
                self@.entry,
                context.globals_view(),
            ),
            (spec_eval_expr(self@.entry, context.globals_view()) is Ok && self@.filters.len() > 0
                && !context.filter_names().contains(self@.filters[0].name)) ==> res_view(r)
                == Err::<ValueV, ErrorV>(spec_unsupported_filter(self@.filters[0].name)),
            (spec_eval_expr(self@.entry, context.globals_view()) is Ok && self@.filters.len() > 0
                && context.filter_names().contains(self@.filters[0].name) && spec_eval_args(
                self@.filters[0].arguments,
                context.globals_view(),
            ) is Err) ==> res_view(r) == Err::<ValueV, ErrorV>(
                spec_eval_args(self@.filters[0].arguments, context.globals_view())->Err_0,
            ),
            r is Ok ==> (spec_eval_expr(self@.entry, context.globals_view()) is Ok && forall|
                k: int,
            |
                0 <= k < self@.filters.len() ==> (#[trigger] context.filter_names().contains(
                    self@.filters[k].name,
                ) && spec_eval_args(self@.filters[k].arguments, context.globals_view()) is Ok)),
    {
        proof {
            reveal_strlit("Unsupported filter");
            reveal_strlit("filter");
            lemma_protos_view_len(self.filters@);
        }
        let entry = self.entry.evaluate(context);
        let mut value = match entry {
            Err(e) => {
                return Err(e);
            },
            Ok(v) => v,
        };
        let n = self.filters.len();
        let mut i: usize = 0;
        while i < n
            invariant
                0 <= i <= n,
                n == self.filters@.len(),
                self@.filters.len() == n,
                forall|j: int| 0 <= j < n ==> self@.filters[j] == proto_view(self.filters@[j]),
                spec_eval_expr(self@.entry, context.globals_view()) is Ok,
                n == 0 ==> value@ == spec_eval_expr(
                    self@.entry,
                    context.globals_view(),
                )->Ok_0,
                i == 0 ==> value@ == spec_eval_expr(
                    self@.entry,
                    context.globals_view(),
                )->Ok_0,
                forall|k: int|
                    0 <= k < i ==> (#[trigger] context.filter_names().contains(
                        self@.filters[k].name,
                    ) && spec_eval_args(self@.filters[k].arguments, context.globals_view())
                        is Ok),
            decreases n - i,
        {
            let proto = &self.filters[i];
            let f = match context.get_filter(proto.name.as_str()) {
                Option::Some(f) => f,
                Option::None => {
                    return Err(
                        Error::with_msg("Unsupported filter".to_owned()).context(
                            "filter",
                            proto.name.clone(),
                        ),
                    );
                },
            };
            let args = match eval_args(&proto.arguments, context) {
                Ok(vs) => vs,
                Err(e) => {
                    return Err(e);
                },
            };
            let stepped = f.filter(&value, args.as_slice());
            match stepped {
                Ok(v) => {
                    value = v;
                },
                Err(e) => {
                    return Err(Error::wrap("Filter error", e));
                },
            }
            proof {
                assert(self@.filters[i as int] == proto_view(self.filters@[i as int]));
                assert(context.filter_names().contains(self@.filters[i as int].name));
                assert(spec_eval_args(self@.filters[i as int].arguments, context.globals_view())
                    is Ok);
                assert(forall|k: int|
                    0 <= k < i + 1 ==> (#[trigger] context.filter_names().contains(
                        self@.filters[k].name,
                    ) && spec_eval_args(self@.filters[k].arguments, context.globals_view())
                        is Ok));
            }
            i = i + 1;
        }
        Ok(value)
    }

    /// Renders the chain's final value as its display text.
    pub fn render<F: Filter>(&self, context: &mut Context<F>) -> (r: Result<
        Option<String>,
        Error,
    >)
        ensures
            spec_renders_output(
                self@,
                old(context).globals_view(),
                old(context).filter_names(),
                r,
            ),
            final(context).globals_view() == old(context).globals_view(),
            final(context).filter_names() == old(context).filter_names(),
    {
        let value = self.apply_filters(context);
        match value {
            Ok(v) => Ok(Option::Some(v.to_text())),
            Err(e) => Err(e),
        }
    }
}

impl<F: Filter> crate::renderable::Renderable<F> for Output {
    fn render(&self, context: &mut Context<F>) -> (r: Result<Option<String>, Error>)
        ensures
            spec_renders_output(
                self@,
                old(context).globals_view(),
                old(context).filter_names(),
                r,
            ),
            final(context).globals_view() == old(context).globals_view(),
            final(context).filter_names() == old(context).filter_names(),
    {
        Output::render(self, context)
    }
}

/// Evaluates the argument expressions in order, as `spec_eval_args` says.
fn eval_args<F>(args: &Vec<Expression>, context: &Context<F>) -> (r: Result<Vec<Value>, Error>)
    ensures
        match spec_eval_args(exprs_view(args@), context.globals_view()) {
            Ok(vs) => r is Ok && crate::value::values_view(r->Ok_0@) == vs,
            Err(e) => r is Err && r->Err_0@ == e,
        },
{
    proof {
        crate::expression::lemma_exprs_view_len(args@);
    }
    let ghost av = exprs_view(args@);
    let n = args.len();
    let mut out: Vec<Value> = Vec::new();
    let mut i: usize = 0;
    proof {
        assert(av.skip(0) =~= av);
        assert(crate::value::values_view(out@) =~= Seq::<ValueV>::empty());
    }
    while i < n
        invariant
            0 <= i <= n,
            n == args@.len(),
            av == exprs_view(args@),
            av.len() == n,
            forall|j: int| 0 <= j < n ==> av[j] == expr_view(args@[j]),
            out@.len() == i,
            spec_eval_args(av, context.globals_view()) == (match spec_eval_args(
                av.skip(i as int),
                context.globals_view(),
            ) {
                Ok(rest) => Ok::<Seq<ValueV>, ErrorV>(
                    crate::value::values_view(out@) + rest,
                ),
                Err(e) => Err::<Seq<ValueV>, ErrorV>(e),
            }),
        decreases n - i,
    {
        proof {
            assert(av.skip(i as int)[0] == av[i as int]);
            assert(av.skip(i as int).drop_first() =~= av.skip(i + 1));
        }
        let step = args[i].evaluate(context);
        match step {
            Err(e) => {
                return Err(e);
            },
            Ok(v) => {
                let ghost out0 = out@;
                out.push(v);
                proof {
                    crate::value::lemma_values_view_len(out0);
                    crate::value::lemma_values_view_len(out@);
                    assert(crate::value::values_view(out@) =~= crate::value::values_view(out0)
                        + seq![v@]);
                    assert(forall|rest: Seq<ValueV>|
                        crate::value::values_view(out0) + (seq![v@] + rest) =~= (
                        crate::value::values_view(out0) + seq![v@]) + rest);
                }
            },
        }
        i = i + 1;
    }
    proof {
        assert(av.skip(n as int).len() == 0);
        assert(crate::value::values_view(out@) + Seq::<ValueV>::empty() =~= crate::value::values_view(out@));
    }
    Ok(out)
}

} // verus!
