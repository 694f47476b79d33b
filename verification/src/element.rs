//! A top-level unit of template structure, produced by the external lexer:
//! raw text, an expression fragment, or a tag fragment (each with its token
//! slice and original source text).
use vstd::prelude::*;
use crate::token::{Token, TokenV};

verus! {

broadcast use vstd::seq::group_seq_axioms, vstd::std_specs::vec::group_vec_axioms;

/// The model of a token sequence.
pub open spec fn tokens_view(s: Seq<Token>) -> Seq<TokenV> {
    s.map_values(|t: Token| t@)
}

/// Mathematical model of a fragment.
pub enum ElementV {
    /// An expression fragment: tokens and original source text.
    Expression(Seq<TokenV>, Seq<char>),
    /// A tag fragment: tokens and original source text.
    Tag(Seq<TokenV>, Seq<char>),
    /// Raw text, rendered verbatim.
    Raw(Seq<char>),
}

/// A top-level fragment of a template.
#[derive(Debug, PartialEq)]
pub enum Element {
    /// An expression fragment: tokens and original source text.
    Expression(Vec<Token>, String),
    /// A tag fragment: tokens and original source text.
    Tag(Vec<Token>, String),
    /// Raw text, rendered verbatim.
    Raw(String),
}

impl View for Element {
    type V = ElementV;

    open spec fn view(&self) -> ElementV {
        match self {
            Element::Expression(ts, raw) => ElementV::Expression(tokens_view(ts@), raw@),
            Element::Tag(ts, raw) => ElementV::Tag(tokens_view(ts@), raw@),
            Element::Raw(x) => ElementV::Raw(x@),
        }
    }
}

/// Copies each token of the sequence; the models are kept.
pub fn duplicate_tokens(ts: &Vec<Token>) -> (r: Vec<Token>)
    ensures
        tokens_view(r@) == tokens_view(ts@),
        r@.len() == ts@.len(),
{
    let mut out: Vec<Token> = Vec::new();
    let n = ts.len();
    let mut i: usize = 0;
    while i < n
        invariant
            0 <= i <= n,
            n == ts.len(),
            out@.len() == i,
            forall|j: int| 0 <= j < i ==> out@[j]@ == ts@[j]@,
        decreases n - i,
    {
        let d = ts[i].duplicate();
        out.push(d);
        i = i + 1;
    }
    proof {
        assert(tokens_view(out@) =~= tokens_view(ts@));
    }
    out
}

/// The model of a fragment sequence.
pub open spec fn elements_view(s: Seq<Element>) -> Seq<ElementV>
    decreases s,
{
    if s.len() == 0 {
        Seq::empty()
    } else {
        seq![s[0]@] + elements_view(s.drop_first())
    }
}

pub proof fn lemma_elements_view_len(s: Seq<Element>)
    ensures
        elements_view(s).len() == s.len(),
        forall|i: int| 0 <= i < s.len() ==> elements_view(s)[i] == s[i]@,
    decreases s,
{
    if s.len() > 0 {
        lemma_elements_view_len(s.drop_first());
    }
}

impl Element {
    /// Produces a copy whose model equals this fragment's model.
    pub fn duplicate(&self) -> (r: Element)
        ensures
            r@ == self@,
    {
        match self {
            Element::Expression(ts, raw) => Element::Expression(duplicate_tokens(ts), raw.clone()),
            Element::Tag(ts, raw) => Element::Tag(duplicate_tokens(ts), raw.clone()),
            Element::Raw(x) => Element::Raw(x.clone()),
        }
    }
}

} // verus!
