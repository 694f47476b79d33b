//! The error family shared by parsing and rendering: a message, optional
//! keyed diagnostic context, and an optional wrapped cause.
use vstd::prelude::*;
use vstd::string::StringExecFns;

verus! {

broadcast use vstd::seq::group_seq_axioms, vstd::std_specs::vec::group_vec_axioms;

/// Mathematical model of an error.
pub struct ErrorV {
    pub msg: Seq<char>,
    pub context: Seq<(Seq<char>, Seq<char>)>,
    pub cause: Option<Box<ErrorV>>,
}

/// A parse- or render-time failure: a human-readable message, keyed
/// diagnostic context pairs, and an optional wrapped cause.
#[derive(Debug)]
pub struct Error {
    pub msg: String,
    pub context: Vec<(String, String)>,
    pub cause: Option<Box<Error>>,
}

pub open spec fn error_pairs_view(s: Seq<(String, String)>) -> Seq<(Seq<char>, Seq<char>)>
    decreases s,
{
    if s.len() == 0 {
        Seq::empty()
    } else {
        seq![(s[0].0@, s[0].1@)] + error_pairs_view(s.drop_first())
    }
}

pub open spec fn error_view(e: Error) -> ErrorV
    decreases e,
{
    ErrorV {
        msg: e.msg@,
        context: error_pairs_view(e.context@),
        cause: match e.cause {
            Option::None => Option::None,
            Option::Some(c) => Option::Some(Box::new(error_view(*c))),
        },
    }
}

impl View for Error {
    type V = ErrorV;

    open spec fn view(&self) -> ErrorV {
        error_view(*self)
    }
}

/// The model of a fallible result: the payload's model on success, the
/// error's model on failure.
pub open spec fn res_view<A: View>(r: Result<A, Error>) -> Result<A::V, ErrorV> {
    match r {
        Ok(a) => Ok(a@),
        Err(e) => Err(e@),
    }
}

/// The model of an error with the given message and nothing else.
pub open spec fn spec_msg_error(msg: Seq<char>) -> ErrorV {
    ErrorV { msg: msg, context: Seq::empty(), cause: Option::None }
}

pub proof fn lemma_error_pairs_view_len(s: Seq<(String, String)>)
    ensures
        error_pairs_view(s).len() == s.len(),
        forall|i: int| 0 <= i < s.len() ==> error_pairs_view(s)[i] == (s[i].0@, s[i].1@),
    decreases s,
{
    if s.len() > 0 {
        lemma_error_pairs_view_len(s.drop_first());
    }
}

impl Error {
    /// An error carrying only the given message.
    pub fn with_msg(msg: String) -> (r: Error)
        ensures
            r@ == spec_msg_error(msg@),
    {
        let r = Error { msg, context: Vec::new(), cause: Option::None };
        proof {
            assert(r@.context =~= Seq::<(Seq<char>, Seq<char>)>::empty());
        }
        r
    }

    /// Adds one keyed diagnostic pair.
    pub fn context(self, key: &str, value: String) -> (r: Error)
        ensures
            r@ == (ErrorV {
                context: self@.context + seq![(key@, value@)],
                ..self@
            }),
    {
        let Error { msg, mut context, cause } = self;
        let ghost c0 = context@;
        context.push((key.to_owned(), value));
        let r = Error { msg, context, cause };
        proof {
            lemma_error_pairs_view_len(c0);
            lemma_error_pairs_view_len(c0 + seq![(context@[c0.len() as int].0, context@[c0.len() as int].1)]);
            lemma_error_pairs_view_len(context@);
            assert(error_pairs_view(context@) =~= error_pairs_view(c0) + seq![(key@, value@)]);
        }
        r
    }

    /// Wraps `inner` as the cause of a new error with the given message.
    pub fn wrap(msg: &str, inner: Error) -> (r: Error)
        ensures
            r@ == (ErrorV {
                msg: msg@,
                context: Seq::empty(),
                cause: Option::Some(Box::new(inner@)),
            }),
    {
        let r = Error {
            msg: msg.to_owned(),
            context: Vec::new(),
            cause: Option::Some(Box::new(inner)),
        };
        proof {
            assert(r@.context =~= Seq::<(Seq<char>, Seq<char>)>::empty());
        }
        r
    }

    /// The message alone.
    pub fn message(&self) -> (r: &String)
        ensures
            r@ == self@.msg,
    {
        &self.msg
    }

    /// Produces the full display text of this error.
    pub fn to_text(&self) -> (r: String)
        ensures
            r@ == spec_error_text(self@),
        decreases *self,
    {
        let mut out = String::new();
        proof {
            reveal_strlit("liquid: ");
            reveal_strlit("\n");
            reveal_strlit("  with: ");
            reveal_strlit("=");
            reveal_strlit("cause: ");
        }
        out.append("liquid: ");
        out.append(self.msg.as_str());
        out.append("\n");
        let n = self.context.len();
        let mut i: usize = 0;
        let ghost cv = self@.context;
        proof {
            lemma_error_pairs_view_len(self.context@);
            assert(spec_ctx_text(cv.take(0)) =~= Seq::<char>::empty());
            assert(out@ =~= "liquid: "@ + self@.msg + "\n"@ + spec_ctx_text(cv.take(0)));
        }
        while i < n
            invariant
                0 <= i <= n,
                n == self.context.len(),
                cv == self@.context,
                cv.len() == n,
                forall|j: int| 0 <= j < n ==> cv[j] == (self.context@[j].0@, self.context@[j].1@),
                out@ == "liquid: "@ + self@.msg + "\n"@ + spec_ctx_text(cv.take(i as int)),
            decreases n - i,
        {
            proof {
                reveal_strlit("  with: ");
                reveal_strlit("=");
                reveal_strlit("\n");
            }
            out.append("  with: ");
            out.append(self.context[i].0.as_str());
            out.append("=");
            out.append(self.context[i].1.as_str());
            out.append("\n");
            proof {
                lemma_ctx_text_step(cv, i as int);
            }
            i = i + 1;
        }
        proof {
            assert(cv.take(n as int) =~= cv);
        }
        match &self.cause {
            Option::None => {},
            Option::Some(c) => {
                proof {
                    assert(decreases_to!(*self => self.cause));
                    assert(decreases_to!(self.cause => *c));
                }
                out.append("cause: ");
                let inner = c.to_text();
                out.append(inner.as_str());
            },
        }
        out
    }
}

/// One `  with: key=value` line for each diagnostic pair.
pub open spec fn spec_ctx_text(pairs: Seq<(Seq<char>, Seq<char>)>) -> Seq<char>
    decreases pairs,
{
    if pairs.len() == 0 {
        Seq::empty()
    } else {
        spec_ctx_text(pairs.drop_last()) + "  with: "@ + pairs.last().0 + "="@ + pairs.last().1
            + "\n"@
    }
}

/// The full display text: `liquid: ` and the message, a line per diagnostic
/// pair, then `cause: ` and the cause's text, if one is wrapped.
pub open spec fn spec_error_text(e: ErrorV) -> Seq<char>
    decreases e,
{
    let base = "liquid: "@ + e.msg + "\n"@ + spec_ctx_text(e.context);
    match e.cause {
        Option::None => base,
        Option::Some(c) => base + "cause: "@ + spec_error_text(*c),
    }
}

proof fn lemma_ctx_text_step(pairs: Seq<(Seq<char>, Seq<char>)>, i: int)
    requires
        0 <= i < pairs.len(),
    ensures
        spec_ctx_text(pairs.take(i + 1)) == spec_ctx_text(pairs.take(i)) + "  with: "@
            + pairs[i].0 + "="@ + pairs[i].1 + "\n"@,
{
    let a = pairs.take(i + 1);
    assert(a.drop_last() =~= pairs.take(i));
    assert(a.last() == pairs[i]);
}

} // verus!
