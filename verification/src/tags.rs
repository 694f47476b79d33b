//! The minimal illustrative block: a comment, whose body is collected and
//! discarded and which renders nothing.
use vstd::prelude::*;
use crate::context::{Context, Filter};
use crate::element::Element;
use crate::error::Error;
use crate::renderable::{Node, NodeV, Renderable};
use crate::token::Token;

verus! {

/// A comment node: renders nothing.
#[derive(Debug, PartialEq)]
pub struct Comment;

impl<F: Filter> Renderable<F> for Comment {
    fn render(&self, _context: &mut Context<F>) -> (r: Result<Option<String>, Error>)
        ensures
            r is Ok && r->Ok_0 is None,
    {
        Ok(Option::None)
    }
}

/// Builds a comment node for a `comment` block, discarding the collected
/// body; registered as a block handler.
pub fn comment_block<O>(
    _tag_name: &str,
    _arguments: &[Token],
    _tokens: &[Element],
    _options: &O,
) -> (r: Result<Node<Comment>, Error>)
    ensures
        r is Ok && r->Ok_0@ == NodeV::<Comment>::Custom(Comment),
{
    Ok(Node::Custom(Comment))
}

} // verus!
