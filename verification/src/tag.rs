//! The extension registry's plugin surface: the tag and block parsing
//! capabilities, an adapter that registers a plain function as a handler,
//! and the registry itself.
//!
//! `O` is the registry type handed through to the handler (so a block
//! handler can parse its collected body recursively), and `N` is the custom
//! node type the handlers build.
use vstd::prelude::*;
use core::marker::PhantomData;
use crate::element::Element;
use crate::error::Error;
use crate::renderable::Node;
use crate::token::Token;

verus! {

broadcast use vstd::seq::group_seq_axioms, vstd::std_specs::vec::group_vec_axioms;

/// The capability of parsing a single tag: its name, its argument tokens and
/// the registry, to a renderable node or a failure.
pub trait ParseTag<O, N>: Sized {
    /// Parses one tag.
    fn parse(&self, tag_name: &str, arguments: &[Token], options: &O) -> Result<Node<N>, Error>;
}

/// The capability of parsing a block: its name, its argument tokens, its
/// collected body fragments and the registry, to a renderable node or a
/// failure.
pub trait ParseBlock<O, N>: Sized {
    /// Parses one block with its collected body.
    fn parse(
        &self,
        tag_name: &str,
        arguments: &[Token],
        tokens: &[Element],
        options: &O,
    ) -> Result<Node<N>, Error>;
}

/// The capability of copying a tag handler; handlers a host registers in
/// several registries implement it.
pub trait ParseTagClone: Sized {
    /// Copies the handler.
    fn clone_box(&self) -> Self;
}

impl<T: Clone> ParseTagClone for T {
    fn clone_box(&self) -> Self {
        self.clone()
    }
}

/// Adapts a plain function (or closure) without preconditions to the tag
/// capability, so stateless handlers register the same way stateful ones do.
#[verifier::reject_recursive_types(O)]
#[verifier::reject_recursive_types(N)]
pub struct FnTagParser<O, N, P> where P: Fn(&str, &[Token], &O) -> Result<Node<N>, Error> {
    parser: P,
    marker: PhantomData<(O, N)>,
}

impl<O, N, P: Fn(&str, &[Token], &O) -> Result<Node<N>, Error>> FnTagParser<O, N, P> {
    #[verifier::type_invariant]
    spec fn callable(self) -> bool {
        forall|name: &str, args: &[Token], opts: &O|
            #[trigger] call_requires(self.parser, (name, args, opts))
    }

    /// The wrapped function.
    pub closed spec fn spec_parser(&self) -> P {
        self.parser
    }

    /// Wraps the function; it must be callable on every input.
    pub fn new(parser: P) -> (r: FnTagParser<O, N, P>)
        requires
            forall|name: &str, args: &[Token], opts: &O|
                #[trigger] call_requires(parser, (name, args, opts)),
        ensures
            r.spec_parser() == parser,
    {
        FnTagParser { parser, marker: PhantomData }
    }
}

impl<O, N, P: Fn(&str, &[Token], &O) -> Result<Node<N>, Error>> ParseTag<O, N> for FnTagParser<
    O,
    N,
    P,
> {
    fn parse(&self, tag_name: &str, arguments: &[Token], options: &O) -> (r: Result<
        Node<N>,
        Error,
    >)
        ensures
            call_ensures(self.spec_parser(), (tag_name, arguments, options), r),
    {
        proof {
            use_type_invariant(self);
        }
        (self.parser)(tag_name, arguments, options)
    }
}

/// Adapts a plain function (or closure) without preconditions to the block
/// capability.
#[verifier::reject_recursive_types(O)]
#[verifier::reject_recursive_types(N)]
pub struct FnBlockParser<O, N, P> where
    P: Fn(&str, &[Token], &[Element], &O) -> Result<Node<N>, Error>,
{
    parser: P,
    marker: PhantomData<(O, N)>,
}

impl<O, N, P: Fn(&str, &[Token], &[Element], &O) -> Result<Node<N>, Error>> FnBlockParser<
    O,
    N,
    P,
> {
    #[verifier::type_invariant]
    spec fn callable(self) -> bool {
        forall|name: &str, args: &[Token], body: &[Element], opts: &O|
            #[trigger] call_requires(self.parser, (name, args, body, opts))
    }

    /// The wrapped function.
    pub closed spec fn spec_parser(&self) -> P {
        self.parser
    }

    /// Wraps the function; it must be callable on every input.
    pub fn new(parser: P) -> (r: FnBlockParser<O, N, P>)
        requires
            forall|name: &str, args: &[Token], body: &[Element], opts: &O|
                #[trigger] call_requires(parser, (name, args, body, opts)),
        ensures
            r.spec_parser() == parser,
    {
        FnBlockParser { parser, marker: PhantomData }
    }
}

impl<O, N, P: Fn(&str, &[Token], &[Element], &O) -> Result<Node<N>, Error>> ParseBlock<
    O,
    N,
> for FnBlockParser<O, N, P> {
    fn parse(
        &self,
        tag_name: &str,
        arguments: &[Token],
        tokens: &[Element],
        options: &O,
    ) -> (r: Result<Node<N>, Error>)
        ensures
            call_ensures(self.spec_parser(), (tag_name, arguments, tokens, options), r),
    {
        proof {
            use_type_invariant(self);
        }
        (self.parser)(tag_name, arguments, tokens, options)
    }
}

/// The registry for one parse session: two independent name-keyed handler
/// tables (tags and blocks), read-only during parsing. Lookup takes the
/// first pair with the name, so registering a name again overwrites.
pub struct LiquidOptions<T, B> {
    pub tags: Vec<(String, T)>,
    pub blocks: Vec<(String, B)>,
}

impl<T, B> LiquidOptions<T, B> {
    /// The registered tag names, in table order.
    pub open spec fn tag_names(&self) -> Seq<Seq<char>> {
        Seq::new(self.tags@.len(), |i: int| self.tags@[i].0@)
    }

    /// The registered block names, in table order.
    pub open spec fn block_names(&self) -> Seq<Seq<char>> {
        Seq::new(self.blocks@.len(), |i: int| self.blocks@[i].0@)
    }

    /// An empty registry.
    pub fn new() -> (r: LiquidOptions<T, B>)
        ensures
            r.tag_names() == Seq::<Seq<char>>::empty(),
            r.block_names() == Seq::<Seq<char>>::empty(),
    {
        let r = LiquidOptions { tags: Vec::new(), blocks: Vec::new() };
        proof {
            assert(r.tag_names() =~= Seq::<Seq<char>>::empty());
            assert(r.block_names() =~= Seq::<Seq<char>>::empty());
        }
        r
    }

    /// Registers a tag handler under a name, shadowing an earlier one.
    pub fn register_tag(&mut self, name: &str, handler: T)
        ensures
            final(self).tag_names() == seq![name@] + old(self).tag_names(),
            final(self).block_names() == old(self).block_names(),
    {
        self.tags.insert(0, (name.to_owned(), handler));
        proof {
            assert(self.tag_names() =~= seq![name@] + old(self).tag_names());
            assert(self.block_names() =~= old(self).block_names());
        }
    }

    /// Registers a block handler under a name, shadowing an earlier one.
    pub fn register_block(&mut self, name: &str, handler: B)
        ensures
            final(self).block_names() == seq![name@] + old(self).block_names(),
            final(self).tag_names() == old(self).tag_names(),
    {
        self.blocks.insert(0, (name.to_owned(), handler));
        proof {
            assert(self.block_names() =~= seq![name@] + old(self).block_names());
            assert(self.tag_names() =~= old(self).tag_names());
        }
    }

    /// Whether a tag handler is registered under the name.
    pub fn has_tag(&self, name: &String) -> (r: bool)
        ensures
            r == self.tag_names().contains(name@),
    {
        let n = self.tags.len();
        let mut i: usize = 0;
        while i < n
            invariant
                0 <= i <= n,
                n == self.tags@.len(),
                forall|j: int| 0 <= j < i ==> self.tag_names()[j] != name@,
            decreases n - i,
        {
            if self.tags[i].0 == *name {
                proof {
                    assert(self.tag_names()[i as int] == name@);
                }
                return true;
            }
            i = i + 1;
        }
        false
    }

    /// Whether a block handler is registered under the name.
    pub fn has_block(&self, name: &String) -> (r: bool)
        ensures
            r == self.block_names().contains(name@),
    {
        let n = self.blocks.len();
        let mut i: usize = 0;
        while i < n
            invariant
                0 <= i <= n,
                n == self.blocks@.len(),
                forall|j: int| 0 <= j < i ==> self.block_names()[j] != name@,
            decreases n - i,
        {
            if self.blocks[i].0 == *name {
                proof {
                    assert(self.block_names()[i as int] == name@);
                }
                return true;
            }
            i = i + 1;
        }
        false
    }

    /// Finds the tag handler registered first under the name.
    pub fn get_tag(&self, name: &String) -> (r: Option<&T>)
        ensures
            r is Some <==> self.tag_names().contains(name@),
    {
        let n = self.tags.len();
        let mut i: usize = 0;
        while i < n
            invariant
                0 <= i <= n,
                n == self.tags@.len(),
                forall|j: int| 0 <= j < i ==> self.tag_names()[j] != name@,
            decreases n - i,
        {
            if self.tags[i].0 == *name {
                proof {
                    assert(self.tag_names()[i as int] == name@);
                }
                return Option::Some(&self.tags[i].1);
            }
            i = i + 1;
        }
        Option::None
    }

    /// Finds the block handler registered first under the name.
    pub fn get_block(&self, name: &String) -> (r: Option<&B>)
        ensures
            r is Some <==> self.block_names().contains(name@),
    {
        let n = self.blocks.len();
        let mut i: usize = 0;
        while i < n
            invariant
                0 <= i <= n,
                n == self.blocks@.len(),
                forall|j: int| 0 <= j < i ==> self.block_names()[j] != name@,
            decreases n - i,
        {
            if self.blocks[i].0 == *name {
                proof {
                    assert(self.block_names()[i as int] == name@);
                }
                return Option::Some(&self.blocks[i].1);
            }
            i = i + 1;
        }
        Option::None
    }
}

} // verus!
