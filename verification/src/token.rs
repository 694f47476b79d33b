//! The lexical unit inside an expression or tag: punctuation and
//! value-carrying variants, with a canonical display form used verbatim in
//! error messages.
//!
//! A float literal carries its lexical text (the library never computes with
//! floats); two float literals are equal when their texts are equal.
use vstd::prelude::*;
use vstd::string::StrSliceExecFns;
use crate::text::{append_int_text, spec_int_text};
use crate::error::Error;
use crate::expression::{ExpressionV, VariableV, Expression, Variable};
use crate::parser::{spec_unexpected, unexpected_token_error};
use crate::value::{ScalarV, Value, ValueV};

verus! {

broadcast use vstd::seq::group_seq_axioms, vstd::std_specs::vec::group_vec_axioms;

/// A comparison operator token.
#[derive(Copy, Clone, Debug, PartialEq, Eq, Structural)]
pub enum ComparisonOperator {
    Equals,
    NotEquals,
    LessThan,
    GreaterThan,
    LessThanEquals,
    GreaterThanEquals,
    Contains,
}

/// The display form of a comparison operator.
pub open spec fn spec_cmp_text(op: ComparisonOperator) -> Seq<char> {
    match op {
        ComparisonOperator::Equals => "=="@,
        ComparisonOperator::NotEquals => "!="@,
        ComparisonOperator::LessThanEquals => "<="@,
        ComparisonOperator::GreaterThanEquals => ">="@,
        ComparisonOperator::LessThan => "<"@,
        ComparisonOperator::GreaterThan => ">"@,
        ComparisonOperator::Contains => "contains"@,
    }
}

impl ComparisonOperator {
    /// Produces the display form of this operator.
    pub fn to_text(&self) -> (r: String)
        ensures
            r@ == spec_cmp_text(*self),
    {
        proof {
            reveal_strlit("==");
            reveal_strlit("!=");
            reveal_strlit("<=");
            reveal_strlit(">=");
            reveal_strlit("<");
            reveal_strlit(">");
            reveal_strlit("contains");
        }
        match self {
            ComparisonOperator::Equals => "==".to_owned(),
            ComparisonOperator::NotEquals => "!=".to_owned(),
            ComparisonOperator::LessThanEquals => "<=".to_owned(),
            ComparisonOperator::GreaterThanEquals => ">=".to_owned(),
            ComparisonOperator::LessThan => "<".to_owned(),
            ComparisonOperator::GreaterThan => ">".to_owned(),
            ComparisonOperator::Contains => "contains".to_owned(),
        }
    }
}

/// Mathematical model of a token.
pub enum TokenV {
    Pipe,
    Dot,
    Colon,
    Comma,
    OpenSquare,
    CloseSquare,
    OpenRound,
    CloseRound,
    Question,
    Dash,
    Assignment,
    Identifier(Seq<char>),
    StringLiteral(Seq<char>),
    IntegerLiteral(int),
    FloatLiteral(Seq<char>),
    BooleanLiteral(bool),
    DotDot,
    Comparison(ComparisonOperator),
    And,
    Or,
}

/// A lexical unit: punctuation, or a value-carrying literal or identifier.
#[derive(Debug)]
pub enum Token {
    Pipe,
    Dot,
    Colon,
    Comma,
    OpenSquare,
    CloseSquare,
    OpenRound,
    CloseRound,
    Question,
    Dash,
    Assignment,
    Identifier(String),
    StringLiteral(String),
    IntegerLiteral(i32),
    FloatLiteral(String),
    BooleanLiteral(bool),
    DotDot,
    Comparison(ComparisonOperator),
    And,
    Or,
}

impl View for Token {
    type V = TokenV;

    open spec fn view(&self) -> TokenV {
        match self {
            Token::Pipe => TokenV::Pipe,
            Token::Dot => TokenV::Dot,
            Token::Colon => TokenV::Colon,
            Token::Comma => TokenV::Comma,
            Token::OpenSquare => TokenV::OpenSquare,
            Token::CloseSquare => TokenV::CloseSquare,
            Token::OpenRound => TokenV::OpenRound,
            Token::CloseRound => TokenV::CloseRound,
            Token::Question => TokenV::Question,
            Token::Dash => TokenV::Dash,
            Token::Assignment => TokenV::Assignment,
            Token::Identifier(x) => TokenV::Identifier(x@),
            Token::StringLiteral(x) => TokenV::StringLiteral(x@),
            Token::IntegerLiteral(x) => TokenV::IntegerLiteral(*x as int),
            Token::FloatLiteral(x) => TokenV::FloatLiteral(x@),
            Token::BooleanLiteral(x) => TokenV::BooleanLiteral(*x),
            Token::DotDot => TokenV::DotDot,
            Token::Comparison(x) => TokenV::Comparison(*x),
            Token::And => TokenV::And,
            Token::Or => TokenV::Or,
        }
    }
}

/// The canonical display form of a token, used verbatim in error messages.
pub open spec fn spec_token_text(t: TokenV) -> Seq<char> {
    match t {
        TokenV::Pipe => "|"@,
        TokenV::Dot => "."@,
        TokenV::Colon => ":"@,
        TokenV::Comma => ","@,
        TokenV::OpenSquare => "["@,
        TokenV::CloseSquare => "]"@,
        TokenV::OpenRound => "("@,
        TokenV::CloseRound => ")"@,
        TokenV::Question => "?"@,
        TokenV::Dash => "-"@,
        TokenV::DotDot => ".."@,
        TokenV::Assignment => "="@,
        TokenV::And => "and"@,
        TokenV::Or => "or"@,
        TokenV::Comparison(x) => spec_cmp_text(x),
        TokenV::Identifier(x) => x,
        TokenV::StringLiteral(x) => x,
        TokenV::IntegerLiteral(x) => spec_int_text(x),
        TokenV::FloatLiteral(x) => x,
        TokenV::BooleanLiteral(x) => if x { "true"@ } else { "false"@ },
    }
}

impl Token {
    /// Produces the canonical display form of this token.
    pub fn to_text(&self) -> (r: String)
        ensures
            r@ == spec_token_text(self@),
    {
        proof {
            reveal_strlit("|");
            reveal_strlit(".");
            reveal_strlit(":");
            reveal_strlit(",");
            reveal_strlit("[");
            reveal_strlit("]");
            reveal_strlit("(");
            reveal_strlit(")");
            reveal_strlit("?");
            reveal_strlit("-");
            reveal_strlit("..");
            reveal_strlit("=");
            reveal_strlit("and");
            reveal_strlit("or");
            reveal_strlit("true");
            reveal_strlit("false");
        }
        match self {
            Token::Pipe => "|".to_owned(),
            Token::Dot => ".".to_owned(),
            Token::Colon => ":".to_owned(),
            Token::Comma => ",".to_owned(),
            Token::OpenSquare => "[".to_owned(),
            Token::CloseSquare => "]".to_owned(),
            Token::OpenRound => "(".to_owned(),
            Token::CloseRound => ")".to_owned(),
            Token::Question => "?".to_owned(),
            Token::Dash => "-".to_owned(),
            Token::DotDot => "..".to_owned(),
            Token::Assignment => "=".to_owned(),
            Token::And => "and".to_owned(),
            Token::Or => "or".to_owned(),
            Token::Comparison(x) => x.to_text(),
            Token::Identifier(x) => x.clone(),
            Token::StringLiteral(x) => x.clone(),
            Token::IntegerLiteral(x) => {
                let mut out = String::new();
                append_int_text(&mut out, *x);
                out
            },
            Token::FloatLiteral(x) => x.clone(),
            Token::BooleanLiteral(x) => {
                if *x {
                    "true".to_owned()
                } else {
                    "false".to_owned()
                }
            },
        }
    }

    /// Produces a copy whose model equals this token's model.
    pub fn duplicate(&self) -> (r: Token)
        ensures
            r@ == self@,
    {
        match self {
            Token::Pipe => Token::Pipe,
            Token::Dot => Token::Dot,
            Token::Colon => Token::Colon,
            Token::Comma => Token::Comma,
            Token::OpenSquare => Token::OpenSquare,
            Token::CloseSquare => Token::CloseSquare,
            Token::OpenRound => Token::OpenRound,
            Token::CloseRound => Token::CloseRound,
            Token::Question => Token::Question,
            Token::Dash => Token::Dash,
            Token::Assignment => Token::Assignment,
            Token::Identifier(x) => Token::Identifier(x.clone()),
            Token::StringLiteral(x) => Token::StringLiteral(x.clone()),
            Token::IntegerLiteral(x) => Token::IntegerLiteral(*x),
            Token::FloatLiteral(x) => Token::FloatLiteral(x.clone()),
            Token::BooleanLiteral(x) => Token::BooleanLiteral(*x),
            Token::DotDot => Token::DotDot,
            Token::Comparison(x) => Token::Comparison(*x),
            Token::And => Token::And,
            Token::Or => Token::Or,
        }
    }

    /// Interprets a value-shaped literal token as a `Value`; any other token
    /// is rejected, with its display form named in the message.
    pub fn to_value(&self) -> (r: Result<Value, Error>)
        ensures
            crate::error::res_view(r) == spec_to_value(self@),
    {
        match self {
            Token::StringLiteral(x) => Ok(Value::of_str(x.as_str())),
            Token::IntegerLiteral(x) => Ok(Value::of_int(*x)),
            Token::FloatLiteral(x) => Ok(Value::of_float_text(x.as_str())),
            Token::BooleanLiteral(x) => Ok(Value::of_bool(*x)),
            _ => Err(unexpected_token_error("string | number | boolean", Some(self))),
        }
    }
}

/// What `to_value` returns: the literal's value, or the rejection naming the
/// token's display form.
pub open spec fn spec_to_value(t: TokenV) -> Result<crate::value::ValueV, crate::error::ErrorV> {
    match t {
        TokenV::StringLiteral(x) => Ok(crate::value::ValueV::Scalar(crate::value::ScalarV::Str(x))),
        TokenV::IntegerLiteral(x) => Ok(crate::value::ValueV::Scalar(
            crate::value::ScalarV::Int(x),
        )),
        TokenV::FloatLiteral(x) => Ok(crate::value::ValueV::Scalar(
            crate::value::ScalarV::Float(x),
        )),
        TokenV::BooleanLiteral(x) => Ok(crate::value::ValueV::Scalar(
            crate::value::ScalarV::Bool(x),
        )),
        _ => Err(spec_unexpected("string | number | boolean"@, Some(spec_token_text(t)))),
    }
}

/// The segments of a text split on `.`: one more segment than there are
/// dots; a dot at an end or two in a row give empty segments.
pub open spec fn spec_split_dots(s: Seq<char>) -> Seq<Seq<char>>
    decreases s.len(),
{
    if s.len() == 0 {
        seq![Seq::empty()]
    } else if s[0] == '.' {
        seq![Seq::empty()] + spec_split_dots(s.drop_first())
    } else {
        let rest = spec_split_dots(s.drop_first());
        rest.update(0, seq![s[0]] + rest[0])
    }
}

pub proof fn lemma_split_dots_nonempty(s: Seq<char>)
    ensures
        spec_split_dots(s).len() >= 1,
    decreases s.len(),
{
    if s.len() > 0 {
        lemma_split_dots_nonempty(s.drop_first());
    }
}

/// Splitting a dotless text gives the text as the one segment.
pub proof fn lemma_split_dots_none(s: Seq<char>)
    requires
        forall|j: int| 0 <= j < s.len() ==> s[j] != '.',
    ensures
        spec_split_dots(s) == seq![s],
    decreases s.len(),
{
    if s.len() == 0 {
        assert(spec_split_dots(s) =~~= seq![s]);
    } else {
        lemma_split_dots_none(s.drop_first());
        let rest = spec_split_dots(s.drop_first());
        assert(rest == seq![s.drop_first()]);
        assert(rest.update(0, seq![s[0]] + rest[0]) =~~= seq![s]);
    }
}

/// Splitting at the first dot: the prefix is the first segment; the suffix
/// after the dot splits on its own.
pub proof fn lemma_split_dots_first(s: Seq<char>, d: int)
    requires
        0 <= d < s.len(),
        s[d] == '.',
        forall|j: int| 0 <= j < d ==> s[j] != '.',
    ensures
        spec_split_dots(s) == seq![s.take(d)] + spec_split_dots(s.skip(d + 1)),
    decreases d,
{
    if d == 0 {
        assert(s.drop_first() =~= s.skip(1));
        assert(spec_split_dots(s) =~~= seq![s.take(0)] + spec_split_dots(s.skip(1)));
    } else {
        let t = s.drop_first();
        assert(t[d - 1] == '.');
        lemma_split_dots_first(t, d - 1);
        lemma_split_dots_nonempty(t.skip(d));
        let rest = spec_split_dots(t);
        assert(rest == seq![t.take(d - 1)] + spec_split_dots(t.skip(d)));
        assert(rest[0] == t.take(d - 1));
        assert(seq![s[0]] + t.take(d - 1) =~= s.take(d));
        assert(t.skip(d) =~= s.skip(d + 1));
        assert(rest.update(0, seq![s[0]] + rest[0]) =~~= seq![s.take(d)] + spec_split_dots(
            s.skip(d + 1),
        ));
    }
}

/// The model of a string sequence.
pub open spec fn strings_view(s: Seq<String>) -> Seq<Seq<char>> {
    s.map_values(|x: String| x@)
}

/// Splits a text on `.`, as `spec_split_dots` says.
fn split_dots(s: &str) -> (r: Vec<String>)
    ensures
        strings_view(r@) == spec_split_dots(s@),
        r@.len() >= 1,
{
    let n = s.unicode_len();
    let mut out: Vec<String> = Vec::new();
    let mut start: usize = 0;
    let mut i: usize = 0;
    proof {
        assert(s@.skip(0) =~= s@);
        assert(strings_view(out@) =~= Seq::<Seq<char>>::empty());
    }
    while i < n
        invariant
            0 <= start <= i <= n,
            n == s@.len(),
            forall|j: int| start <= j < i ==> s@[j] != '.',
            spec_split_dots(s@) == strings_view(out@) + spec_split_dots(s@.skip(start as int)),
        decreases n - i,
    {
        let c = s.get_char(i);
        if c == '.' {
            let seg = s.substring_char(start, i).to_owned();
            proof {
                let tail = s@.skip(start as int);
                assert(tail[i - start] == s@[i as int]);
                assert(forall|j: int| 0 <= j < i - start ==> tail[j] == s@[j + start]);
                lemma_split_dots_first(tail, i - start);
                assert(tail.take(i - start) =~= s@.subrange(start as int, i as int));
                assert(tail.skip(i - start + 1) =~= s@.skip(i + 1));
            }
            out.push(seg);
            proof {
                assert(strings_view(out@) =~= strings_view(out@.drop_last()) + seq![
                    s@.subrange(start as int, i as int),
                ]);
            }
            start = i + 1;
        }
        i = i + 1;
    }
    let last = s.substring_char(start, n).to_owned();
    proof {
        let tail = s@.skip(start as int);
        assert(forall|j: int| 0 <= j < tail.len() ==> tail[j] == s@[j + start]);
        lemma_split_dots_none(tail);
        assert(tail =~= s@.subrange(start as int, n as int));
    }
    out.push(last);
    proof {
        assert(strings_view(out@) =~= strings_view(out@.drop_last()) + seq![
            s@.subrange(start as int, n as int),
        ]);
        assert(strings_view(out@) =~= spec_split_dots(s@));
    }
    out
}

/// What `to_arg` returns: literals become literal expressions; an identifier
/// becomes a path whose root is its first dot-separated segment and whose
/// accessors are the remaining segments as literal strings; any other token
/// is rejected, with its display form named in the message.
pub open spec fn spec_to_arg(t: TokenV) -> Result<ExpressionV, crate::error::ErrorV> {
    match t {
        TokenV::IntegerLiteral(x) => Ok(ExpressionV::Literal(ValueV::Scalar(ScalarV::Int(x)))),
        TokenV::FloatLiteral(x) => Ok(ExpressionV::Literal(ValueV::Scalar(ScalarV::Float(x)))),
        TokenV::StringLiteral(x) => Ok(ExpressionV::Literal(ValueV::Scalar(ScalarV::Str(x)))),
        TokenV::BooleanLiteral(x) => Ok(ExpressionV::Literal(ValueV::Scalar(ScalarV::Bool(x)))),
        TokenV::Identifier(id) => {
            let segs = spec_split_dots(id);
            Ok(ExpressionV::Variable(VariableV {
                root: segs[0],
                indexes: segs.drop_first().map_values(
                    |x: Seq<char>| ExpressionV::Literal(ValueV::Scalar(ScalarV::Str(x))),
                ),
            }))
        },
        _ => Err(spec_unexpected(
            "string | number | boolean | identifier"@,
            Some(spec_token_text(t)),
        )),
    }
}

impl Token {
    /// Interprets this token as an expression: a literal, or a path read
    /// from a dotted identifier.
    pub fn to_arg(&self) -> (r: Result<Expression, Error>)
        ensures
            crate::error::res_view(r) == spec_to_arg(self@),
    {
        match self {
            Token::IntegerLiteral(x) => Ok(Expression::int_literal(*x)),
            Token::FloatLiteral(x) => Ok(Expression::with_literal(Value::of_float_text(
                x.as_str(),
            ))),
            Token::StringLiteral(x) => Ok(Expression::str_literal(x.as_str())),
            Token::BooleanLiteral(x) => Ok(Expression::with_literal(Value::of_bool(*x))),
            Token::Identifier(id) => {
                let segs = split_dots(id.as_str());
                let ghost segv = spec_split_dots(id@);
                let mut var = Variable::with_literal(segs[0].as_str());
                let m = segs.len();
                let mut i: usize = 1;
                proof {
                    assert(segv[0] == strings_view(segs@)[0]);
                    assert(var@.indexes =~= segv.drop_first().map_values(
                        |x: Seq<char>| ExpressionV::Literal(ValueV::Scalar(ScalarV::Str(x))),
                    ).take(0));
                }
                while i < m
                    invariant
                        1 <= i <= m,
                        m == segs@.len(),
                        segv == spec_split_dots(id@),
                        strings_view(segs@) == segv,
                        segv.len() == m,
                        var@.root == segv[0],
                        var@.indexes == segv.drop_first().map_values(
                            |x: Seq<char>| ExpressionV::Literal(ValueV::Scalar(ScalarV::Str(x))),
                        ).take(i - 1),
                    decreases m - i,
                {
                    let e = Expression::str_literal(segs[i].as_str());
                    var.push_index(e);
                    proof {
                        let mapped = segv.drop_first().map_values(
                            |x: Seq<char>| ExpressionV::Literal(ValueV::Scalar(ScalarV::Str(x))),
                        );
                        assert(segs@[i as int]@ == strings_view(segs@)[i as int]);
                        assert(mapped[i - 1] == ExpressionV::Literal(ValueV::Scalar(ScalarV::Str(
                            segv[i as int],
                        ))));
                        assert(mapped.take(i - 1) + seq![mapped[i - 1]] =~= mapped.take(i as int));
                    }
                    i = i + 1;
                }
                proof {
                    let mapped = segv.drop_first().map_values(
                        |x: Seq<char>| ExpressionV::Literal(ValueV::Scalar(ScalarV::Str(x))),
                    );
                    assert(mapped.take(m - 1) =~= mapped);
                }
                Ok(Expression::Variable(var))
            },
            _ => Err(unexpected_token_error(
                "string | number | boolean | identifier",
                Some(self),
            )),
        }
    }
}

impl PartialEq for Token {
    /// Structural equality; the float texts are compared as texts.
    fn eq(&self, other: &Token) -> (r: bool) {
        match (self, other) {
            (Token::Pipe, Token::Pipe) => true,
            (Token::Dot, Token::Dot) => true,
            (Token::Colon, Token::Colon) => true,
            (Token::Comma, Token::Comma) => true,
            (Token::OpenSquare, Token::OpenSquare) => true,
            (Token::CloseSquare, Token::CloseSquare) => true,
            (Token::OpenRound, Token::OpenRound) => true,
            (Token::CloseRound, Token::CloseRound) => true,
            (Token::Question, Token::Question) => true,
            (Token::Dash, Token::Dash) => true,
            (Token::Assignment, Token::Assignment) => true,
            (Token::Identifier(a), Token::Identifier(b)) => *a == *b,
            (Token::StringLiteral(a), Token::StringLiteral(b)) => *a == *b,
            (Token::IntegerLiteral(a), Token::IntegerLiteral(b)) => *a == *b,
            (Token::FloatLiteral(a), Token::FloatLiteral(b)) => *a == *b,
            (Token::BooleanLiteral(a), Token::BooleanLiteral(b)) => *a == *b,
            (Token::DotDot, Token::DotDot) => true,
            (Token::Comparison(a), Token::Comparison(b)) => *a == *b,
            (Token::And, Token::And) => true,
            (Token::Or, Token::Or) => true,
            _ => false,
        }
    }
}

impl vstd::std_specs::cmp::PartialEqSpecImpl for Token {
    open spec fn obeys_eq_spec() -> bool {
        true
    }

    open spec fn eq_spec(&self, other: &Token) -> bool {
        self@ == other@
    }
}

} // verus!
