//! The renderable tree: nodes that produce output against a context, or
//! fail. The tree is an ordered sequence of nodes; a node is raw text, a
//! filter-chain output, or a custom node contributed by a registered tag or
//! block handler.
use vstd::prelude::*;
use crate::context::{spec_eval_expr, Context, Filter};
use crate::error::Error;
use crate::expression::{Expression, ExpressionV, Variable, VariableV};
use crate::output::{spec_renders_output, Output, OutputV};
use crate::value::spec_value_text;

verus! {

/// The capability of producing a rendering side effect against a context.
/// `F` is the context's filter type.
pub trait Renderable<F> {
    /// Produces this node's output text, nothing, or a failure.
    fn render(&self, context: &mut Context<F>) -> Result<Option<String>, Error>;
}

/// A raw-text node: rendered verbatim.
#[derive(Debug, PartialEq)]
pub struct Text {
    pub text: String,
}

impl Text {
    /// A node that renders the given text verbatim.
    pub fn new(text: &str) -> (r: Text)
        ensures
            r.text@ == text@,
    {
        Text { text: text.to_owned() }
    }
}

impl<F> Renderable<F> for Text {
    fn render(&self, context: &mut Context<F>) -> (r: Result<Option<String>, Error>)
        ensures
            r is Ok && r->Ok_0 is Some && r->Ok_0->0@ == self.text@,
            final(context).globals_view() == old(context).globals_view(),
            final(context).filter_names() == old(context).filter_names(),
    {
        Ok(Option::Some(self.text.clone()))
    }
}

/// Mathematical model of a node; a custom node is carried as it stands.
pub enum NodeV<C> {
    Text(Seq<char>),
    Path(VariableV),
    Output(OutputV),
    Custom(C),
}

/// One node of the renderable tree: raw text, a bare path expression (the
/// fast form of an output without filters), a filter-chain output, or a
/// node built by a registered tag or block handler.
#[derive(Debug, PartialEq)]
pub enum Node<C> {
    Text(Text),
    Path(Variable),
    Output(Output),
    Custom(C),
}

impl<C> View for Node<C> {
    type V = NodeV<C>;

    open spec fn view(&self) -> NodeV<C> {
        match self {
            Node::Text(t) => NodeV::Text(t.text@),
            Node::Path(v) => NodeV::Path(v@),
            Node::Output(o) => NodeV::Output(o@),
            Node::Custom(c) => NodeV::Custom(*c),
        }
    }
}

impl<F: Filter, C: Renderable<F>> Renderable<F> for Node<C> {
    fn render(&self, context: &mut Context<F>) -> (r: Result<Option<String>, Error>)
        ensures
            self@ is Text ==> (r is Ok && r->Ok_0 is Some && r->Ok_0->0@ == self@->Text_0),
            self@ is Path ==> (match spec_eval_expr(
                ExpressionV::Variable(self@->Path_0),
                old(context).globals_view(),
            ) {
                Ok(v) => r is Ok && r->Ok_0 is Some && r->Ok_0->0@ == spec_value_text(v),
                Err(e) => r is Err && r->Err_0@ == e,
            }),
            self@ is Output ==> spec_renders_output(
                self@->Output_0,
                old(context).globals_view(),
                old(context).filter_names(),
                r,
            ),
            !(self@ is Custom) ==> (final(context).globals_view() == old(context).globals_view()
                && final(context).filter_names() == old(context).filter_names()),
    {
        match self {
            Node::Text(t) => Renderable::<F>::render(t, context),
            Node::Path(v) => {
                let e = Expression::Variable(Variable {
                    root: v.root.clone(),
                    indexes: crate::expression::duplicate_exprs(&v.indexes),
                });
                proof {
                    assert(e@ == ExpressionV::Variable(self@->Path_0));
                }
                match e.evaluate(context) {
                    Ok(val) => Ok(Option::Some(val.to_text())),
                    Err(err) => Err(err),
                }
            },
            Node::Output(o) => o.render(context),
            Node::Custom(c) => c.render(context),
        }
    }
}

/// The model of a node sequence.
pub open spec fn nodes_view<C>(s: Seq<Node<C>>) -> Seq<NodeV<C>>
    decreases s,
{
    if s.len() == 0 {
        Seq::empty()
    } else {
        seq![s[0]@] + nodes_view(s.drop_first())
    }
}

pub proof fn lemma_nodes_view_len<C>(s: Seq<Node<C>>)
    ensures
        nodes_view(s).len() == s.len(),
        forall|i: int| 0 <= i < s.len() ==> nodes_view(s)[i] == s[i]@,
    decreases s,
{
    if s.len() > 0 {
        lemma_nodes_view_len(s.drop_first());
    }
}

} // verus!
