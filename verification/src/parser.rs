//! The parsing core: expression and filter-chain building, tag and block
//! recognition with nesting-aware body collection, and the top-level parse
//! loop.
use vstd::prelude::*;
use vstd::string::StringExecFns;
use crate::error::{spec_msg_error, Error, ErrorV};
use crate::expression::{exprs_view, Expression, ExpressionV, VariableV};
use crate::output::{protos_view, FilterChain, FilterPrototype, FilterPrototypeV, Output, OutputV};
use crate::element::{tokens_view, Element, ElementV};
use crate::renderable::{nodes_view, Node, NodeV, Text};
use crate::tag::{LiquidOptions, ParseBlock, ParseTag};
use vstd::slice::slice_subrange;
use crate::token::{spec_to_arg, spec_token_text, Token, TokenV};
use crate::value::{ScalarV, ValueV};

verus! {

broadcast use vstd::seq::group_seq_axioms, vstd::std_specs::vec::group_vec_axioms;

/// The message a parsing function raises on a malformed token: what was
/// expected, and the display form of what stood there (or `nothing` when the
/// input was exhausted).
pub open spec fn spec_unexpected_msg(expected: Seq<char>, actual: Option<Seq<char>>) -> Seq<
    char,
> {
    "Expected "@ + expected + ", found `"@ + (match actual {
        Option::None => "nothing"@,
        Option::Some(a) => a,
    }) + "`"@
}

/// The error a parsing function raises on a malformed token.
pub open spec fn spec_unexpected(expected: Seq<char>, actual: Option<Seq<char>>) -> ErrorV {
    spec_msg_error(spec_unexpected_msg(expected, actual))
}

/// Builds the malformed-token error from the expectation and the display
/// form of the offending token, if any.
pub fn unexpected_token_error_string(expected: &str, actual: Option<String>) -> (r: Error)
    ensures
        r@ == spec_unexpected(
            expected@,
            match actual {
                Option::None => Option::None,
                Option::Some(s) => Option::Some(s@),
            },
        ),
{
    proof {
        reveal_strlit("Expected ");
        reveal_strlit(", found `");
        reveal_strlit("`");
        reveal_strlit("nothing");
    }
    let mut msg = String::new();
    msg.append("Expected ");
    msg.append(expected);
    msg.append(", found `");
    match &actual {
        Option::None => {
            msg.append("nothing");
        },
        Option::Some(s) => {
            msg.append(s.as_str());
        },
    }
    msg.append("`");
    Error::with_msg(msg)
}

/// Builds the malformed-token error from the expectation and the offending
/// token, if any.
pub fn unexpected_token_error(expected: &str, actual: Option<&Token>) -> (r: Error)
    ensures
        r@ == spec_unexpected(
            expected@,
            match actual {
                Option::None => Option::None,
                Option::Some(t) => Option::Some(spec_token_text(t@)),
            },
        ),
{
    match actual {
        Option::None => unexpected_token_error_string(expected, Option::None),
        Option::Some(t) => unexpected_token_error_string(expected, Option::Some(t.to_text())),
    }
}

/// The display form wrapped in backticks, as `expect` names a token.
pub open spec fn spec_backticked(s: Seq<char>) -> Seq<char> {
    "`"@ + s + "`"@
}

/// What `value_token` returns: the token itself if it can stand for a value
/// (a literal or an identifier), else the rejection naming its display form.
pub open spec fn spec_value_token(t: TokenV) -> Result<TokenV, ErrorV> {
    match t {
        TokenV::StringLiteral(_) => Ok(t),
        TokenV::IntegerLiteral(_) => Ok(t),
        TokenV::FloatLiteral(_) => Ok(t),
        TokenV::BooleanLiteral(_) => Ok(t),
        TokenV::Identifier(_) => Ok(t),
        _ => Err(spec_unexpected(
            "string | number | boolean | identifier"@,
            Some(spec_token_text(t)),
        )),
    }
}

/// Recognises a value token, returning an error for any other token.
pub fn value_token(t: Token) -> (r: Result<Token, Error>)
    ensures
        match spec_value_token(t@) {
            Ok(v) => r is Ok && r->Ok_0@ == v,
            Err(e) => r is Err && r->Err_0@ == e,
        },
{
    match &t {
        Token::StringLiteral(_) => Ok(t),
        Token::IntegerLiteral(_) => Ok(t),
        Token::FloatLiteral(_) => Ok(t),
        Token::BooleanLiteral(_) => Ok(t),
        Token::Identifier(_) => Ok(t),
        _ => Err(unexpected_token_error(
            "string | number | boolean | identifier",
            Some(&t),
        )),
    }
}

/// Consumes the next token from the cursor and recognises it as a value
/// token; an exhausted stream is reported as `nothing`.
pub fn consume_value_token(tokens: &[Token], pos: &mut usize) -> (r: Result<Token, Error>)
    ensures
        old(pos) >= tokens@.len() ==> (*final(pos) == *old(pos) && r is Err && r->Err_0@
            == spec_unexpected("string | number | boolean | identifier"@, Option::None)),
        old(pos) < tokens@.len() ==> (*final(pos) == *old(pos) + 1 && (match spec_value_token(
            tokens@[(*old(pos)) as int]@,
        ) {
            Ok(v) => r is Ok && r->Ok_0@ == v,
            Err(e) => r is Err && r->Err_0@ == e,
        })),
{
    if *pos >= tokens.len() {
        return Err(unexpected_token_error_string(
            "string | number | boolean | identifier",
            Option::None,
        ));
    }
    let t = tokens[*pos].duplicate();
    *pos = *pos + 1;
    value_token(t)
}

/// Consumes the next token from the cursor; it must equal the expected
/// token, else the error names the expectation in backticks and what stood
/// there (or `nothing`).
pub fn expect<'a>(tokens: &'a [Token], pos: &mut usize, expected: &Token) -> (r: Result<
    &'a Token,
    Error,
>)
    ensures
        old(pos) >= tokens@.len() ==> (*final(pos) == *old(pos) && r is Err && r->Err_0@
            == spec_unexpected(spec_backticked(spec_token_text(expected@)), Option::None)),
        (old(pos) < tokens@.len() && tokens@[(*old(pos)) as int]@ == expected@) ==> (*final(pos)
            == *old(pos) + 1 && r is Ok && r->Ok_0@ == expected@),
        (old(pos) < tokens@.len() && tokens@[(*old(pos)) as int]@ != expected@) ==> (*final(pos)
            == *old(pos) + 1 && r is Err && r->Err_0@ == spec_unexpected(
            spec_backticked(spec_token_text(expected@)),
            Option::Some(spec_token_text(tokens@[(*old(pos)) as int]@)),
        )),
{
    proof {
        reveal_strlit("`");
    }
    let mut exp_text = String::new();
    exp_text.append("`");
    let t0 = expected.to_text();
    exp_text.append(t0.as_str());
    exp_text.append("`");
    if *pos >= tokens.len() {
        return Err(unexpected_token_error_string(exp_text.as_str(), Option::None));
    }
    let t = &tokens[*pos];
    *pos = *pos + 1;
    if t == expected {
        Ok(t)
    } else {
        Err(unexpected_token_error_string(exp_text.as_str(), Option::Some(t.to_text())))
    }
}

/// What `parse_indexes` returns: the accessors read greedily from the front
/// of the tokens. `. identifier` adds the field name as a literal string;
/// `[ value ]` adds a literal (for a string or whole-number token) or a bare
/// variable (for an identifier); the first token that starts neither form
/// ends the run. A `.` not followed by an identifier, a bracket whose
/// content is not a string, whole number or identifier, and a bracket not
/// closed by `]` are errors naming the offending token — or `nothing` when
/// the input ends inside the accessor group.
pub open spec fn spec_parse_indexes(ts: Seq<TokenV>) -> Result<Seq<ExpressionV>, ErrorV>
    decreases ts.len(),
{
    if ts.len() == 0 {
        Ok(Seq::empty())
    } else {
        match ts[0] {
            TokenV::Dot => {
                if ts.len() > 1 {
                    match ts[1] {
                        TokenV::Identifier(x) => match spec_parse_indexes(ts.skip(2)) {
                            Ok(rest) => Ok(
                                seq![
                                    ExpressionV::Literal(ValueV::Scalar(ScalarV::Str(x))),
                                ] + rest,
                            ),
                            Err(e) => Err(e),
                        },
                        _ => Err(spec_unexpected(
                            "identifier"@,
                            Some(spec_token_text(ts[1])),
                        )),
                    }
                } else {
                    Err(spec_unexpected("identifier"@, Option::None))
                }
            },
            TokenV::OpenSquare => {
                if ts.len() == 1 {
                    Err(spec_unexpected(
                        "string | whole number | identifier"@,
                        Option::None,
                    ))
                } else {
                    match spec_bracket_index(ts[1]) {
                        Err(e) => Err(e),
                        Ok(idx) => {
                            if ts.len() == 2 {
                                Err(spec_unexpected("`]`"@, Option::None))
                            } else if ts[2] != TokenV::CloseSquare {
                                Err(spec_unexpected("`]`"@, Some(spec_token_text(ts[2]))))
                            } else {
                                match spec_parse_indexes(ts.skip(3)) {
                                    Ok(rest) => Ok(seq![idx] + rest),
                                    Err(e) => Err(e),
                                }
                            }
                        },
                    }
                }
            },
            _ => Ok(Seq::empty()),
        }
    }
}

/// What a bracketed index token stands for: a string or whole-number token
/// is a literal, an identifier is a bare variable; anything else is
/// rejected, naming the offending content token.
pub open spec fn spec_bracket_index(t: TokenV) -> Result<ExpressionV, ErrorV> {
    match t {
        TokenV::StringLiteral(x) => Ok(ExpressionV::Literal(ValueV::Scalar(ScalarV::Str(x)))),
        TokenV::IntegerLiteral(x) => Ok(ExpressionV::Literal(ValueV::Scalar(ScalarV::Int(x)))),
        TokenV::Identifier(x) => Ok(
            ExpressionV::Variable(VariableV { root: x, indexes: Seq::empty() }),
        ),
        _ => Err(spec_unexpected(
            "string | whole number | identifier"@,
            Some(spec_token_text(t)),
        )),
    }
}

/// Reads the accessors at the front of a token slice, as
/// `spec_parse_indexes` says.
pub fn parse_indexes(tokens: &[Token]) -> (r: Result<Vec<Expression>, Error>)
    ensures
        match spec_parse_indexes(crate::element::tokens_view(tokens@)) {
            Ok(idxs) => r is Ok && exprs_view(r->Ok_0@) == idxs,
            Err(e) => r is Err && r->Err_0@ == e,
        },
{
    proof {
        assert(crate::element::tokens_view(tokens@).subrange(0, tokens@.len() as int)
            =~= crate::element::tokens_view(tokens@));
    }
    parse_indexes_range(tokens, 0, tokens.len())
}

/// Reads the accessors at the front of `tokens[start..end]`.
pub fn parse_indexes_range(tokens: &[Token], start: usize, end: usize) -> (r: Result<
    Vec<Expression>,
    Error,
>)
    requires
        start <= end <= tokens@.len(),
    ensures
        match spec_parse_indexes(
            crate::element::tokens_view(tokens@).subrange(start as int, end as int),
        ) {
            Ok(idxs) => r is Ok && exprs_view(r->Ok_0@) == idxs,
            Err(e) => r is Err && r->Err_0@ == e,
        },
{
    let ghost tsv = crate::element::tokens_view(tokens@).subrange(start as int, end as int);
    let mut out: Vec<Expression> = Vec::new();
    let mut pos: usize = start;
    proof {
        assert(tsv.skip(0) =~= tsv);
        assert(exprs_view(out@) =~= Seq::<ExpressionV>::empty());
    }
    while pos < end
        invariant
            start <= pos <= end <= tokens@.len(),
            tsv == crate::element::tokens_view(tokens@).subrange(start as int, end as int),
            tsv.len() == end - start,
            forall|j: int| 0 <= j < tsv.len() ==> tsv[j] == tokens@[start + j]@,
            spec_parse_indexes(tsv) == (match spec_parse_indexes(tsv.skip(pos - start)) {
                Ok(rest) => Ok::<Seq<ExpressionV>, ErrorV>(exprs_view(out@) + rest),
                Err(e) => Err::<Seq<ExpressionV>, ErrorV>(e),
            }),
        decreases end - pos,
    {
        let ghost rel = pos - start;
        let ghost suffix = tsv.skip(rel);
        proof {
            assert(suffix.len() == end - pos);
            assert(forall|j: int| 0 <= j < suffix.len() ==> suffix[j] == tsv[rel + j]);
            assert(suffix[0] == tokens@[pos as int]@);
        }
        let step: usize = match &tokens[pos] {
            Token::Dot => {
                if end - pos > 1 {
                    proof {
                        assert(suffix[1] == tokens@[pos + 1]@);
                    }
                    match &tokens[pos + 1] {
                        Token::Identifier(x) => {
                            let e = Expression::str_literal(x.as_str());
                            let ghost out0 = out@;
                            out.push(e);
                            proof {
                                crate::expression::lemma_exprs_view_len(out0);
                                crate::expression::lemma_exprs_view_len(out@);
                                assert(exprs_view(out@) =~= exprs_view(out0) + seq![e@]);
                                assert(suffix.skip(2) =~= tsv.skip(rel + 2));
                                assert(forall|rest: Seq<ExpressionV>|
                                    exprs_view(out0) + (seq![e@] + rest) =~= (exprs_view(out0)
                                        + seq![e@]) + rest);
                            }
                            2
                        },
                        _ => {
                            return Err(unexpected_token_error(
                                "identifier",
                                Some(&tokens[pos + 1]),
                            ));
                        },
                    }
                } else {
                    return Err(unexpected_token_error_string("identifier", Option::None));
                }
            },
            Token::OpenSquare => {
                if end - pos == 1 {
                    return Err(unexpected_token_error_string(
                        "string | whole number | identifier",
                        Option::None,
                    ));
                } else {
                    proof {
                        assert(suffix[1] == tokens@[pos + 1]@);
                    }
                    let idx: Expression = match &tokens[pos + 1] {
                        Token::StringLiteral(x) => Expression::str_literal(x.as_str()),
                        Token::IntegerLiteral(x) => Expression::int_literal(*x),
                        Token::Identifier(x) => {
                            let v = crate::expression::Variable::with_literal(x.as_str());
                            Expression::Variable(v)
                        },
                        _ => {
                            return Err(unexpected_token_error(
                                "string | whole number | identifier",
                                Some(&tokens[pos + 1]),
                            ));
                        },
                    };
                    if end - pos == 2 {
                        return Err(unexpected_token_error_string("`]`", Option::None));
                    }
                    proof {
                        assert(suffix[2] == tokens@[pos + 2]@);
                    }
                    let close = Token::CloseSquare;
                    if !(tokens[pos + 2] == close) {
                        return Err(unexpected_token_error_string(
                            "`]`",
                            Option::Some(tokens[pos + 2].to_text()),
                        ));
                    }
                    let ghost out0 = out@;
                    out.push(idx);
                    proof {
                        crate::expression::lemma_exprs_view_len(out0);
                        crate::expression::lemma_exprs_view_len(out@);
                        assert(exprs_view(out@) =~= exprs_view(out0) + seq![idx@]);
                        assert(suffix.skip(3) =~= tsv.skip(rel + 3));
                        assert(forall|rest: Seq<ExpressionV>|
                            exprs_view(out0) + (seq![idx@] + rest) =~= (exprs_view(out0) + seq![
                                idx@,
                            ]) + rest);
                    }
                    3
                }
            },
            _ => {
                proof {
                    assert(exprs_view(out@) + Seq::<ExpressionV>::empty() =~= exprs_view(out@));
                }
                return Ok(out);
            },
        };
        pos = pos + step;
    }
    proof {
        assert(tsv.skip(end - start).len() == 0);
        assert(exprs_view(out@) + Seq::<ExpressionV>::empty() =~= exprs_view(out@));
    }
    Ok(out)
}

/// The position of the first pipe token at or after `from` (the length if
/// there is none).
pub open spec fn spec_find_pipe(ts: Seq<TokenV>, from: int) -> int
    decreases ts.len() - from,
{
    if from < 0 {
        0
    } else if from >= ts.len() {
        ts.len() as int
    } else if ts[from] == TokenV::Pipe {
        from
    } else {
        spec_find_pipe(ts, from + 1)
    }
}

pub proof fn lemma_find_pipe_bounds(ts: Seq<TokenV>, from: int)
    requires
        0 <= from <= ts.len(),
    ensures
        from <= spec_find_pipe(ts, from) <= ts.len(),
        spec_find_pipe(ts, from) < ts.len() ==> ts[spec_find_pipe(ts, from)] == TokenV::Pipe,
        forall|j: int| from <= j < spec_find_pipe(ts, from) ==> ts[j] != TokenV::Pipe,
    decreases ts.len() - from,
{
    if from < ts.len() && ts[from] != TokenV::Pipe {
        lemma_find_pipe_bounds(ts, from + 1);
    }
}

pub proof fn lemma_find_pipe_shift(ts: Seq<TokenV>, i: int, k: int)
    requires
        0 <= i,
        0 <= k,
        i + k <= ts.len(),
    ensures
        spec_find_pipe(ts.skip(i), k) == spec_find_pipe(ts, i + k) - i,
    decreases ts.len() - (i + k),
{
    if i + k < ts.len() {
        assert(ts.skip(i)[k] == ts[i + k]);
        if ts[i + k] != TokenV::Pipe {
            lemma_find_pipe_shift(ts, i, k + 1);
        }
    }
}

/// What one filter's argument list yields, read over the tokens of its
/// segment (the tokens strictly between the `:` and the next pipe or the
/// end): value tokens separated by commas, a trailing comma allowed; any
/// other separator is rejected.
pub open spec fn spec_parse_arglist(seg: Seq<TokenV>) -> Result<Seq<ExpressionV>, ErrorV>
    decreases seg.len(),
{
    if seg.len() == 0 {
        Ok(Seq::empty())
    } else {
        match spec_to_arg(seg[0]) {
            Err(e) => Err(e),
            Ok(a) => {
                if seg.len() == 1 {
                    Ok(seq![a])
                } else if seg[1] == TokenV::Comma {
                    match spec_parse_arglist(seg.skip(2)) {
                        Ok(rest) => Ok(seq![a] + rest),
                        Err(e) => Err(e),
                    }
                } else {
                    Err(spec_unexpected("`,` | `|`"@, Some(spec_token_text(seg[1]))))
                }
            },
        }
    }
}

/// What the filter section of a chain yields. `ts` starts at the first pipe
/// (or is empty). Each filter is a pipe, an identifier, and either nothing
/// (up to the next pipe or the end) or a `:` and an argument list. A missing
/// identifier, a missing `:` where arguments follow, and a malformed
/// argument list are errors.
pub open spec fn spec_parse_filters(ts: Seq<TokenV>) -> Result<Seq<FilterPrototypeV>, ErrorV>
    decreases ts.len(),
    via spec_parse_filters_dec
{
    if ts.len() == 0 {
        Ok(Seq::empty())
    } else if ts[0] != TokenV::Pipe {
        Err(spec_unexpected(spec_backticked(spec_token_text(TokenV::Pipe)), Some(
            spec_token_text(ts[0]),
        )))
    } else if ts.len() == 1 {
        Err(spec_unexpected("identifier"@, Option::None))
    } else {
        match ts[1] {
            TokenV::Identifier(name) => {
                if ts.len() == 2 || ts[2] == TokenV::Pipe {
                    match spec_parse_filters(ts.skip(2)) {
                        Ok(rest) => Ok(
                            seq![
                                FilterPrototypeV { name: name, arguments: Seq::empty() },
                            ] + rest,
                        ),
                        Err(e) => Err(e),
                    }
                } else if ts[2] != TokenV::Colon {
                    Err(spec_unexpected(spec_backticked(spec_token_text(TokenV::Colon)), Some(
                        spec_token_text(ts[2]),
                    )))
                } else {
                    let p2 = spec_find_pipe(ts, 3);
                    match spec_parse_arglist(ts.subrange(3, p2)) {
                        Err(e) => Err(e),
                        Ok(args) => match spec_parse_filters(ts.skip(p2)) {
                            Ok(rest) => Ok(
                                seq![FilterPrototypeV { name: name, arguments: args }] + rest,
                            ),
                            Err(e) => Err(e),
                        },
                    }
                }
            },
            x => Err(spec_unexpected("identifier"@, Some(spec_token_text(x)))),
        }
    }
}

#[via_fn]
proof fn spec_parse_filters_dec(ts: Seq<TokenV>) {
    if ts.len() > 2 {
        lemma_find_pipe_bounds(ts, 3);
    }
}

/// What `parse_output` returns: everything before the first top-level pipe
/// is the entry (the first token resolved as a value or path; a path also
/// takes the accessors up to the pipe); from the pipe on, the filters.
pub open spec fn spec_parse_output(ts: Seq<TokenV>) -> Result<OutputV, ErrorV> {
    let fp = spec_find_pipe(ts, 0);
    match spec_to_arg(ts[0]) {
        Err(e) => Err(e),
        Ok(entry0) => match entry0 {
            ExpressionV::Variable(var) => match spec_parse_indexes(ts.subrange(1, fp)) {
                Err(e) => Err(e),
                Ok(idxs) => match spec_parse_filters(ts.skip(fp)) {
                    Err(e) => Err(e),
                    Ok(fs) => Ok(
                        OutputV {
                            entry: ExpressionV::Variable(
                                VariableV { root: var.root, indexes: var.indexes + idxs },
                            ),
                            filters: fs,
                        },
                    ),
                },
            },
            lit => match spec_parse_filters(ts.skip(fp)) {
                Err(e) => Err(e),
                Ok(fs) => Ok(OutputV { entry: lit, filters: fs }),
            },
        },
    }
}

/// Finds the first pipe token at or after `from`.
fn find_pipe_from(tokens: &[Token], from: usize) -> (r: usize)
    requires
        from <= tokens@.len(),
    ensures
        r == spec_find_pipe(crate::element::tokens_view(tokens@), from as int),
        from <= r <= tokens@.len(),
{
    let ghost tsv = crate::element::tokens_view(tokens@);
    let n = tokens.len();
    let mut i: usize = from;
    while i < n
        invariant
            from <= i <= n,
            n == tokens@.len(),
            tsv == crate::element::tokens_view(tokens@),
            tsv.len() == n,
            forall|j: int| 0 <= j < n ==> tsv[j] == tokens@[j]@,
            spec_find_pipe(tsv, from as int) == spec_find_pipe(tsv, i as int),
        decreases n - i,
    {
        let pipe = Token::Pipe;
        if tokens[i] == pipe {
            return i;
        }
        i = i + 1;
    }
    n
}

/// Builds a filter chain from the tokens, as `spec_parse_output` says.
#[verifier::loop_isolation(false)]
#[verifier::rlimit(60)]
pub fn parse_output(tokens: &[Token]) -> (r: Result<FilterChain, Error>)
    requires
        tokens@.len() >= 1,
    ensures
        match spec_parse_output(crate::element::tokens_view(tokens@)) {
            Ok(o) => r is Ok && r->Ok_0@ == o,
            Err(e) => r is Err && r->Err_0@ == e,
        },
{
    let ghost tsv = crate::element::tokens_view(tokens@);
    proof {
        lemma_find_pipe_bounds(tsv, 0);
    }
    let len = tokens.len();
    let fp = find_pipe_from(tokens, 0);
    let entry0 = match tokens[0].to_arg() {
        Ok(e) => e,
        Err(e) => {
            return Err(e);
        },
    };
    let entry: Expression = match entry0 {
        Expression::Variable(mut var) => {
            let idxs = match parse_indexes_range(tokens, 1, fp) {
                Ok(v) => v,
                Err(e) => {
                    return Err(e);
                },
            };
            var.extend(idxs);
            Expression::Variable(var)
        },
        lit => lit,
    };
    let mut filters: Vec<FilterPrototype> = Vec::new();
    let mut i = fp;
    proof {
        assert(protos_view(filters@) =~= Seq::<FilterPrototypeV>::empty());
    }
    while i < len
        invariant
            fp <= i <= len,
            len == tokens@.len(),
            tsv == crate::element::tokens_view(tokens@),
            tsv.len() == len,
            forall|j: int| 0 <= j < len ==> tsv[j] == tokens@[j]@,
            i < len ==> tsv[i as int] == TokenV::Pipe,
            spec_parse_filters(tsv.skip(fp as int)) == (match spec_parse_filters(
                tsv.skip(i as int),
            ) {
                Ok(rest) => Ok::<Seq<FilterPrototypeV>, ErrorV>(
                    protos_view(filters@) + rest,
                ),
                Err(e) => Err::<Seq<FilterPrototypeV>, ErrorV>(e),
            }),
        decreases len - i,
    {
        let ghost suffix = tsv.skip(i as int);
        proof {
            assert(forall|j: int| 0 <= j < suffix.len() ==> suffix[j] == tsv[i + j]);
        }
        if i + 1 >= len {
            proof {
                assert(suffix.len() == 1);
                assert(suffix[0] == TokenV::Pipe);
                assert(spec_parse_filters(suffix) == Err::<Seq<FilterPrototypeV>, ErrorV>(
                    spec_unexpected("identifier"@, Option::None),
                ));
            }
            return Err(unexpected_token_error_string("identifier", Option::None));
        }
        proof {
            assert(suffix.len() >= 2);
            assert(suffix[0] == TokenV::Pipe);
            assert(suffix[1] == tsv[i + 1]);
        }
        let name: String = match &tokens[i + 1] {
            Token::Identifier(x) => x.clone(),
            other => {
                proof {
                    assert(spec_parse_filters(suffix) == Err::<Seq<FilterPrototypeV>, ErrorV>(
                        spec_unexpected("identifier"@, Some(spec_token_text(tsv[i + 1]))),
                    ));
                }
                return Err(unexpected_token_error("identifier", Some(other)));
            },
        };
        let pipe = Token::Pipe;
        if i + 2 >= len || tokens[i + 2] == pipe {
            let proto = FilterPrototype::new(name.as_str(), Vec::new());
            let ghost f0 = filters@;
            filters.push(proto);
            proof {
                crate::output::lemma_protos_view_len(f0);
                crate::output::lemma_protos_view_len(filters@);
                assert(protos_view(filters@) =~= protos_view(f0) + seq![proto@]);
                assert(proto@.arguments =~= Seq::<ExpressionV>::empty());
                assert(suffix.skip(2) =~= tsv.skip(i + 2));
                assert(forall|rest: Seq<FilterPrototypeV>|
                    protos_view(f0) + (seq![proto@] + rest) =~= (protos_view(f0) + seq![
                        proto@,
                    ]) + rest);
            }
            i = i + 2;
            proof {
                if i < len {
                    assert(tsv[i as int] == suffix[2]);
                }
            }
            continue ;
        }
        let colon = Token::Colon;
        if !(tokens[i + 2] == colon) {
            proof {
                reveal_strlit("`");
            }
            let mut exp_text = String::new();
            exp_text.append("`");
            let ct = colon.to_text();
            exp_text.append(ct.as_str());
            exp_text.append("`");
            return Err(unexpected_token_error_string(
                exp_text.as_str(),
                Option::Some(tokens[i + 2].to_text()),
            ));
        }
        let p2 = find_pipe_from(tokens, i + 3);
        proof {
            lemma_find_pipe_bounds(tsv, i + 3);
            lemma_find_pipe_shift(tsv, i as int, 3);
            assert(spec_find_pipe(suffix, 3) == p2 - i);
        }
        let ghost seg = tsv.subrange(i + 3, p2 as int);
        proof {
            assert(suffix.subrange(3, p2 - i) =~= seg);
        }
        let mut args: Vec<Expression> = Vec::new();
        let mut j = i + 3;
        proof {
            assert(exprs_view(args@) =~= Seq::<ExpressionV>::empty());
            assert(seg.skip(0) =~= seg);
        }
        while j < p2
            invariant
                i + 3 <= j <= p2,
                p2 <= len,
                len == tokens@.len(),
                tsv == crate::element::tokens_view(tokens@),
                tsv.len() == len,
                forall|jj: int| 0 <= jj < len ==> tsv[jj] == tokens@[jj]@,
                seg == tsv.subrange(i + 3, p2 as int),
                seg.len() == p2 - i - 3,
                spec_parse_arglist(seg) == (match spec_parse_arglist(seg.skip(j - i - 3)) {
                    Ok(rest) => Ok::<Seq<ExpressionV>, ErrorV>(exprs_view(args@) + rest),
                    Err(e) => Err::<Seq<ExpressionV>, ErrorV>(e),
                }),
            decreases p2 - j,
        {
            let ghost segsuf = seg.skip(j - i - 3);
            proof {
                assert(forall|jj: int|
                    0 <= jj < segsuf.len() ==> segsuf[jj] == seg[j - i - 3 + jj]);
                assert(forall|jj: int| 0 <= jj < seg.len() ==> seg[jj] == tsv[i + 3 + jj]);
            }
            let a = match tokens[j].to_arg() {
                Ok(a) => a,
                Err(e) => {
                    return Err(e);
                },
            };
            let ghost a0 = args@;
            args.push(a);
            proof {
                crate::expression::lemma_exprs_view_len(a0);
                crate::expression::lemma_exprs_view_len(args@);
                assert(exprs_view(args@) =~= exprs_view(a0) + seq![a@]);
                assert(forall|rest: Seq<ExpressionV>|
                    exprs_view(a0) + (seq![a@] + rest) =~= (exprs_view(a0) + seq![a@]) + rest);
            }
            if j + 1 >= p2 {
                proof {
                    assert(segsuf.len() == 1);
                }
                j = p2;
            } else {
                let comma = Token::Comma;
                if tokens[j + 1] == comma {
                    proof {
                        assert(segsuf[1] == tsv[j + 1]);
                        assert(segsuf.skip(2) =~= seg.skip(j + 2 - i - 3));
                    }
                    j = j + 2;
                } else {
                    proof {
                        assert(segsuf[1] == tsv[j + 1]);
                    }
                    return Err(unexpected_token_error(
                        "`,` | `|`",
                        Some(&tokens[j + 1]),
                    ));
                }
            }
        }
        proof {
            assert(seg.skip(seg.len() as int).len() == 0);
            assert(exprs_view(args@) + Seq::<ExpressionV>::empty() =~= exprs_view(args@));
            assert(spec_parse_arglist(seg) == Ok::<Seq<ExpressionV>, ErrorV>(exprs_view(args@)));
        }
        let proto = FilterPrototype::new(name.as_str(), args);
        let ghost f0 = filters@;
        filters.push(proto);
        proof {
            crate::output::lemma_protos_view_len(f0);
            crate::output::lemma_protos_view_len(filters@);
            assert(protos_view(filters@) =~= protos_view(f0) + seq![proto@]);
            assert(suffix.skip(p2 - i) =~= tsv.skip(p2 as int));
            assert(forall|rest: Seq<FilterPrototypeV>|
                protos_view(f0) + (seq![proto@] + rest) =~= (protos_view(f0) + seq![proto@])
                    + rest);
        }
        i = p2;
        proof {
            if i < len {
                assert(tsv[i as int] == TokenV::Pipe);
            }
        }
    }
    proof {
        assert(tsv.skip(len as int).len() == 0);
        assert(protos_view(filters@) + Seq::<FilterPrototypeV>::empty() =~= protos_view(
            filters@,
        ));
    }
    Ok(Output::new(entry, filters))
}

/// The error raised when a tag or block name is not registered; it carries
/// the fragment's leading token's display form.
pub open spec fn spec_unsupported_tag(t: TokenV) -> ErrorV {
    ErrorV {
        msg: "Tag is not supported"@,
        context: seq![("tag"@, spec_token_text(t))],
        cause: Option::None,
    }
}

/// Whether an expression fragment takes the bare-path fast form: an
/// identifier immediately followed by `.` or `[`, bypassing filter-chain
/// parsing.
pub open spec fn spec_is_bare(ts: Seq<TokenV>) -> bool {
    ts.len() > 1 && ts[0] is Identifier && (ts[1] == TokenV::Dot || ts[1] == TokenV::OpenSquare)
}

/// What the bare-path form yields: the identifier's path with every
/// following accessor appended.
pub open spec fn spec_parse_bare(ts: Seq<TokenV>) -> Result<VariableV, ErrorV> {
    match spec_to_arg(ts[0]) {
        Err(e) => Err(e),
        Ok(entry0) => match entry0 {
            ExpressionV::Variable(var) => match spec_parse_indexes(ts.skip(1)) {
                Err(e) => Err(e),
                Ok(idxs) => Ok(VariableV { root: var.root, indexes: var.indexes + idxs }),
            },
            _ => Err(spec_unexpected("expression"@, Option::None)),
        },
    }
}

/// Builds one renderable node from an expression fragment's tokens: the
/// bare-path fast form, a registered tag's own parse, or a filter chain.
/// Everything but the tag dispatch (whose handler decides) is pinned.
pub fn parse_expression<T, B, N>(
    tokens: &[Token],
    options: &LiquidOptions<T, B>,
) -> (r: Result<Node<N>, Error>) where
    T: ParseTag<LiquidOptions<T, B>, N>,
    B: ParseBlock<LiquidOptions<T, B>, N>,

    ensures
        tokens@.len() == 0 ==> r is Err && r->Err_0@ == spec_unexpected(
            "expression"@,
            Option::None,
        ),
        spec_is_bare(tokens_view(tokens@)) ==> (match spec_parse_bare(tokens_view(tokens@)) {
            Ok(v) => r is Ok && r->Ok_0@ == NodeV::<N>::Path(v),
            Err(e) => r is Err && r->Err_0@ == e,
        }),
        (tokens@.len() > 0 && !spec_is_bare(tokens_view(tokens@)) && !(tokens@[0]@ is Identifier
            && options.tag_names().contains(tokens@[0]@->Identifier_0))) ==> (match
            spec_parse_output(tokens_view(tokens@)) {
            Ok(o) => r is Ok && r->Ok_0@ == NodeV::<N>::Output(o),
            Err(e) => r is Err && r->Err_0@ == e,
        }),
{
    let ghost tsv = tokens_view(tokens@);
    if tokens.len() == 0 {
        return Err(unexpected_token_error_string("expression", Option::None));
    }
    let is_bare: bool = if tokens.len() > 1 {
        let dot = Token::Dot;
        let open = Token::OpenSquare;
        let first_ident = match &tokens[0] {
            Token::Identifier(_) => true,
            _ => false,
        };
        first_ident && (tokens[1] == dot || tokens[1] == open)
    } else {
        false
    };
    if is_bare {
        let entry0 = match tokens[0].to_arg() {
            Ok(e) => e,
            Err(e) => {
                return Err(e);
            },
        };
        match entry0 {
            Expression::Variable(mut var) => {
                let idxs = match parse_indexes_range(tokens, 1, tokens.len()) {
                    Ok(v) => v,
                    Err(e) => {
                        return Err(e);
                    },
                };
                var.extend(idxs);
                proof {
                    assert(tsv.subrange(1, tsv.len() as int) =~= tsv.skip(1));
                }
                Ok(Node::Path(var))
            },
            _ => Err(unexpected_token_error_string("expression", Option::None)),
        }
    } else {
        let dispatch: bool = match &tokens[0] {
            Token::Identifier(x) => options.has_tag(x),
            _ => false,
        };
        if dispatch {
            match &tokens[0] {
                Token::Identifier(x) => {
                    let handler = match options.get_tag(x) {
                        Option::Some(h) => h,
                        Option::None => {
                            return Err(unexpected_token_error_string(
                                "expression",
                                Option::None,
                            ));
                        },
                    };
                    let rest = slice_subrange(tokens, 1, tokens.len());
                    handler.parse(x.as_str(), rest, options)
                },
                _ => Err(unexpected_token_error_string("expression", Option::None)),
            }
        } else {
            match parse_output(tokens) {
                Ok(o) => Ok(Node::Output(o)),
                Err(e) => Err(e),
            }
        }
    }
}

/// The leading token of a tag fragment, if the element is one.
pub open spec fn spec_first_tag_token(e: ElementV) -> Option<TokenV> {
    match e {
        ElementV::Tag(ts, _) => if ts.len() > 0 {
            Option::Some(ts[0])
        } else {
            Option::None
        },
        _ => Option::None,
    }
}

/// Whether every tag fragment at or after `from` carries at least one
/// token; the upstream lexer guarantees it.
pub open spec fn spec_tags_nonempty(elems: Seq<ElementV>, from: int) -> bool {
    forall|j: int|
        from <= j < elems.len() ==> ((#[trigger] elems[j]) is Tag ==> elems[j]->Tag_0.len() > 0)
}

/// What body collection yields: scanning from `from`, every fragment is
/// collected until an un-nested closing tag, which is consumed but not
/// collected. A fragment opening the same-named block deepens the nesting;
/// a closing tag at depth closes one level. The result is the collected
/// body and the cursor position after the scan.
pub open spec fn spec_collect_body(
    elems: Seq<ElementV>,
    from: int,
    open_tok: TokenV,
    close_tok: TokenV,
    depth: int,
) -> (Seq<ElementV>, int)
    decreases elems.len() - from,
{
    if from < 0 || from >= elems.len() {
        (Seq::empty(), elems.len() as int)
    } else {
        let e = elems[from];
        let first = spec_first_tag_token(e);
        if first == Option::Some(close_tok) && depth == 0 && !(close_tok == open_tok) {
            (Seq::empty(), from + 1)
        } else {
            let next_depth = if first == Option::Some(open_tok) {
                depth + 1
            } else if first == Option::Some(close_tok) && depth > 0 {
                depth - 1
            } else {
                depth
            };
            let stepped = spec_collect_body(elems, from + 1, open_tok, close_tok, next_depth);
            (seq![e] + stepped.0, stepped.1)
        }
    }
}

/// Collects a block's body, as `spec_collect_body` (at depth zero) says.
#[verifier::loop_isolation(false)]
pub fn collect_block_body(
    elements: &[Element],
    pos: &mut usize,
    open_tok: &Token,
    close_tok: &Token,
) -> (r: Vec<Element>)
    requires
        *old(pos) <= elements@.len(),
        !(close_tok@ == open_tok@),
    ensures
        ({
            let sc = spec_collect_body(
                crate::element::elements_view(elements@),
                *old(pos) as int,
                open_tok@,
                close_tok@,
                0,
            );
            crate::element::elements_view(r@) == sc.0 && *final(pos) == sc.1
        }),
        *old(pos) <= *final(pos) <= elements@.len(),
{
    let ghost ev = crate::element::elements_view(elements@);
    let ghost pos0 = *pos as int;
    let len = elements.len();
    let mut children: Vec<Element> = Vec::new();
    let mut depth: usize = 0;
    proof {
        crate::element::lemma_elements_view_len(elements@);
        assert(crate::element::elements_view(children@) =~= Seq::<ElementV>::empty());
    }
    while *pos < len
        invariant
            pos0 <= *pos <= len,
            depth <= *pos - pos0,
            spec_collect_body(ev, pos0, open_tok@, close_tok@, 0) == ({
                let stepped = spec_collect_body(
                    ev,
                    *pos as int,
                    open_tok@,
                    close_tok@,
                    depth as int,
                );
                (crate::element::elements_view(children@) + stepped.0, stepped.1)
            }),
        decreases len - *pos,
    {
        let e = &elements[*pos];
        let ghost evi = ev[*pos as int];
        let ghost old_depth = depth as int;
        let ghost cur = *pos as int;
        proof {
            assert(evi == elements@[cur]@);
        }
        let mut matched_close_at_zero = false;
        match e {
            Element::Tag(ts, _) => {
                if ts.len() > 0 {
                    if ts[0] == *open_tok {
                        depth = depth + 1;
                    } else if ts[0] == *close_tok {
                        if depth > 0 {
                            depth = depth - 1;
                        } else {
                            matched_close_at_zero = true;
                        }
                    }
                }
            },
            _ => {},
        }
        proof {
            match elements@[cur] {
                Element::Tag(ts2, _) => {
                    if ts2@.len() > 0 {
                        assert(spec_first_tag_token(evi) == Option::Some(ts2@[0]@));
                    } else {
                        assert(spec_first_tag_token(evi) is None);
                    }
                },
                _ => {
                    assert(spec_first_tag_token(evi) is None);
                },
            }
        }
        if matched_close_at_zero {
            *pos = *pos + 1;
            proof {
                assert(crate::element::elements_view(children@) + Seq::<ElementV>::empty()
                    =~= crate::element::elements_view(children@));
            }
            return children;
        }
        let d = e.duplicate();
        let ghost c0 = children@;
        children.push(d);
        *pos = *pos + 1;
        proof {
            crate::element::lemma_elements_view_len(c0);
            crate::element::lemma_elements_view_len(children@);
            assert(crate::element::elements_view(children@)
                =~= crate::element::elements_view(c0) + seq![evi]);
            let stepped = spec_collect_body(ev, cur + 1, open_tok@, close_tok@, depth as int);
            assert(spec_collect_body(ev, cur, open_tok@, close_tok@, old_depth) == (
                seq![evi] + stepped.0,
                stepped.1,
            ));
            assert(forall|rest: Seq<ElementV>|
                crate::element::elements_view(c0) + (seq![evi] + rest)
                    =~= (crate::element::elements_view(c0) + seq![evi]) + rest);
        }
    }
    proof {
        assert(crate::element::elements_view(children@) + Seq::<ElementV>::empty()
            =~= crate::element::elements_view(children@));
    }
    children
}

/// Recognises the construct a tag fragment names: a registered tag is
/// dispatched at once (the cursor does not move); a registered block has
/// its body collected up to the matching un-nested `end` marker, which is
/// consumed, and is then dispatched with that body; any other name fails.
/// What a dispatched handler returns is the handler's own affair.
#[verifier::loop_isolation(false)]
pub fn parse_tag<T, B, N>(
    elements: &[Element],
    pos: &mut usize,
    tokens: &[Token],
    options: &LiquidOptions<T, B>,
) -> (r: Result<Node<N>, Error>) where
    T: ParseTag<LiquidOptions<T, B>, N>,
    B: ParseBlock<LiquidOptions<T, B>, N>,

    requires
        tokens@.len() >= 1,
        *old(pos) <= elements@.len(),
    ensures
        (tokens@[0]@ is Identifier && options.tag_names().contains(
            tokens@[0]@->Identifier_0,
        )) ==> *final(pos) == *old(pos),
        (tokens@[0]@ is Identifier && !options.tag_names().contains(tokens@[0]@->Identifier_0)
            && options.block_names().contains(tokens@[0]@->Identifier_0)) ==> *final(pos)
            == spec_collect_body(
            crate::element::elements_view(elements@),
            *old(pos) as int,
            tokens@[0]@,
            TokenV::Identifier("end"@ + tokens@[0]@->Identifier_0),
            0,
        ).1,
        (!(tokens@[0]@ is Identifier) || (!options.tag_names().contains(
            tokens@[0]@->Identifier_0,
        ) && !options.block_names().contains(tokens@[0]@->Identifier_0))) ==> (*final(pos)
            == *old(pos) && r is Err && r->Err_0@ == spec_unsupported_tag(tokens@[0]@)),
        *old(pos) <= *final(pos) <= elements@.len(),
{
    proof {
        reveal_strlit("Tag is not supported");
        reveal_strlit("tag");
        reveal_strlit("end");
    }
    match &tokens[0] {
        Token::Identifier(x) => {
            if options.has_tag(x) {
                let handler = match options.get_tag(x) {
                    Option::Some(h) => h,
                    Option::None => {
                        return Err(Error::with_msg("Tag is not supported".to_owned()).context(
                            "tag",
                            tokens[0].to_text(),
                        ));
                    },
                };
                let rest = slice_subrange(tokens, 1, tokens.len());
                handler.parse(x.as_str(), rest, options)
            } else if options.has_block(x) {
                let mut end_name = String::new();
                end_name.append("end");
                end_name.append(x.as_str());
                let close_tok = Token::Identifier(end_name);
                let children = collect_block_body(elements, pos, &tokens[0], &close_tok);
                let handler = match options.get_block(x) {
                    Option::Some(h) => h,
                    Option::None => {
                        return Err(Error::with_msg("Tag is not supported".to_owned()).context(
                            "tag",
                            tokens[0].to_text(),
                        ));
                    },
                };
                let rest = slice_subrange(tokens, 1, tokens.len());
                handler.parse(x.as_str(), rest, children.as_slice(), options)
            } else {
                Err(Error::with_msg("Tag is not supported".to_owned()).context(
                    "tag",
                    tokens[0].to_text(),
                ))
            }
        },
        _ => Err(Error::with_msg("Tag is not supported".to_owned()).context(
            "tag",
            tokens[0].to_text(),
        )),
    }
}

/// Describes the optional trailing part of a block split: the delimiter
/// name, the split fragment's own tokens, and every fragment from the split
/// point on.
pub struct BlockSplit<'a> {
    pub delimiter: String,
    pub args: &'a [Token],
    pub trailing: &'a [Element],
}

/// Where a top-level delimiter fragment stands, scanning with a stack of
/// expected closing names: a fragment opening any registered block pushes
/// its `end` name; a fragment naming the stack's top pops it; a fragment
/// naming a delimiter counts only when the stack is empty. `None` when no
/// top-level delimiter occurs.
pub open spec fn spec_split_scan(
    elems: Seq<ElementV>,
    i: int,
    stack: Seq<Seq<char>>,
    delims: Seq<Seq<char>>,
    blocks: Seq<Seq<char>>,
) -> Option<int>
    decreases elems.len() - i,
{
    if i < 0 || i >= elems.len() {
        Option::None
    } else {
        match spec_first_tag_token(elems[i]) {
            Option::Some(TokenV::Identifier(name)) => {
                if blocks.contains(name) {
                    spec_split_scan(elems, i + 1, stack.push("end"@ + name), delims, blocks)
                } else if stack.len() > 0 && stack.last() == name {
                    spec_split_scan(elems, i + 1, stack.drop_last(), delims, blocks)
                } else if stack.len() == 0 && delims.contains(name) {
                    Option::Some(i)
                } else {
                    spec_split_scan(elems, i + 1, stack, delims, blocks)
                }
            },
            _ => spec_split_scan(elems, i + 1, stack, delims, blocks),
        }
    }
}

/// The names of a delimiter list.
pub open spec fn names_view(delims: Seq<&str>) -> Seq<Seq<char>> {
    delims.map_values(|d: &str| d@)
}

/// Whether a delimiter list holds the name.
fn contains_name(delims: &[&str], name: &String) -> (r: bool)
    ensures
        r == names_view(delims@).contains(name@),
{
    let n = delims.len();
    let mut i: usize = 0;
    while i < n
        invariant
            0 <= i <= n,
            n == delims@.len(),
            forall|j: int| 0 <= j < i ==> names_view(delims@)[j] != name@,
        decreases n - i,
    {
        let d = delims[i].to_owned();
        if d == *name {
            proof {
                assert(names_view(delims@)[i as int] == name@);
            }
            return true;
        }
        i = i + 1;
    }
    proof {
        assert(forall|j: int|
            0 <= j < names_view(delims@).len() ==> names_view(delims@)[j] != name@);
    }
    false
}

/// Splits a fragment stream at the first top-level delimiter fragment, as
/// `spec_split_scan` (from the front, with an empty stack) says: fragments
/// of nested blocks of the registry's own vocabulary are not split points.
/// Returns the fragments strictly before the split point and, if one was
/// found, the delimiter name, that fragment's tokens and everything from
/// the split point on.
#[verifier::loop_isolation(false)]
pub fn split_block<'a, T, B>(
    tokens: &'a [Element],
    delimiters: &[&str],
    options: &LiquidOptions<T, B>,
) -> (r: (&'a [Element], Option<BlockSplit<'a>>))
    ensures
        ({
            let sc = spec_split_scan(
                crate::element::elements_view(tokens@),
                0,
                Seq::empty(),
                names_view(delimiters@),
                options.block_names(),
            );
            match sc {
                Option::None => r.0@ == tokens@ && r.1 is None,
                Option::Some(i) => r.0@ == tokens@.subrange(0, i) && r.1 is Some && (match
                    tokens@[i] {
                    Element::Tag(ts, _) => r.1->0.args@ == ts@ && ts@.len() > 0 && r.1->0.delimiter@
                        == ts@[0]@->Identifier_0,
                    _ => false,
                }) && r.1->0.trailing@ == tokens@.skip(i),
            }
        }),
{
    let ghost ev = crate::element::elements_view(tokens@);
    let ghost delimsv = names_view(delimiters@);
    let ghost blocksv = options.block_names();
    proof {
        crate::element::lemma_elements_view_len(tokens@);
    }
    let len = tokens.len();
    let mut stack: Vec<String> = Vec::new();
    let mut i: usize = 0;
    proof {
        assert(stack@.map_values(|x: String| x@) =~= Seq::<Seq<char>>::empty());
    }
    while i < len
        invariant
            0 <= i <= len,
            spec_split_scan(ev, 0, Seq::empty(), delimsv, blocksv) == spec_split_scan(
                ev,
                i as int,
                stack@.map_values(|x: String| x@),
                delimsv,
                blocksv,
            ),
        decreases len - i,
    {
        let ghost stv = stack@.map_values(|x: String| x@);
        let ghost cur = i as int;
        match &tokens[i] {
            Element::Tag(args, _) => {
                if args.len() > 0 {
                    match &args[0] {
                        Token::Identifier(name) => {
                            proof {
                                assert(spec_first_tag_token(ev[cur]) == Option::Some(
                                    TokenV::Identifier(name@),
                                ));
                            }
                            if options.has_block(name) {
                                let mut closer = String::new();
                                proof {
                                    reveal_strlit("end");
                                }
                                closer.append("end");
                                closer.append(name.as_str());
                                stack.push(closer);
                                proof {
                                    assert(stack@.map_values(|x: String| x@) =~= stv.push(
                                        "end"@ + name@,
                                    ));
                                }
                            } else {
                                let top_matches: bool = if stack.len() > 0 {
                                    stack[stack.len() - 1] == *name
                                } else {
                                    false
                                };
                                if top_matches {
                                    let _ = stack.pop();
                                    proof {
                                        assert(stv.last() == name@);
                                        assert(stack@.map_values(|x: String| x@)
                                            =~= stv.drop_last());
                                    }
                                } else if stack.len() == 0 && contains_name(delimiters, name) {
                                    proof {
                                        assert(stv.len() == 0);
                                        assert(spec_split_scan(ev, 0, Seq::empty(), delimsv,
                                            blocksv) == Option::Some(cur));
                                    }
                                    let leading = slice_subrange(tokens, 0, i);
                                    let trailing = slice_subrange(tokens, i, len);
                                    let split = BlockSplit {
                                        delimiter: name.clone(),
                                        args: args.as_slice(),
                                        trailing,
                                    };
                                    return (leading, Option::Some(split));
                                } else {
                                    proof {
                                        if stv.len() > 0 {
                                            assert(stv.last() != name@);
                                        }
                                    }
                                }
                            }
                        },
                        _ => {
                            proof {
                                assert(match spec_first_tag_token(ev[cur]) {
                                    Option::Some(t) => !(t is Identifier),
                                    Option::None => true,
                                });
                            }
                        },
                    }
                } else {
                    proof {
                        assert(spec_first_tag_token(ev[cur]) is None);
                    }
                }
            },
            _ => {
                proof {
                    assert(spec_first_tag_token(ev[cur]) is None);
                }
            },
        }
        i = i + 1;
    }
    (tokens, Option::None)
}

/// What one expression fragment yields when no registry entry can be
/// consulted: the bare-path fast form, or a filter chain; an empty fragment
/// is rejected.
pub open spec fn spec_parse_expression_simple<N>(ts: Seq<TokenV>) -> Result<NodeV<N>, ErrorV> {
    if ts.len() == 0 {
        Err(spec_unexpected("expression"@, Option::None))
    } else if spec_is_bare(ts) {
        match spec_parse_bare(ts) {
            Ok(v) => Ok(NodeV::Path(v)),
            Err(e) => Err(e),
        }
    } else {
        match spec_parse_output(ts) {
            Ok(o) => Ok(NodeV::Output(o)),
            Err(e) => Err(e),
        }
    }
}

/// What parsing a fragment stream yields against an empty registry: raw
/// text becomes a text node, an expression fragment becomes a path or
/// output node, and any tag fragment fails as unsupported; the first
/// failure aborts the whole parse.
pub open spec fn spec_parse_simple<N>(elems: Seq<ElementV>) -> Result<Seq<NodeV<N>>, ErrorV>
    decreases elems.len(),
{
    if elems.len() == 0 {
        Ok(Seq::empty())
    } else {
        let head: Result<NodeV<N>, ErrorV> = match elems[0] {
            ElementV::Raw(x) => Ok(NodeV::Text(x)),
            ElementV::Expression(ts, _) => spec_parse_expression_simple(ts),
            ElementV::Tag(ts, _) => Err(spec_unsupported_tag(ts[0])),
        };
        match head {
            Err(e) => Err(e),
            Ok(n) => match spec_parse_simple(elems.drop_first()) {
                Err(e) => Err(e),
                Ok(rest) => Ok(seq![n] + rest),
            },
        }
    }
}

pub proof fn lemma_collect_body_bounds(
    elems: Seq<ElementV>,
    from: int,
    open_tok: TokenV,
    close_tok: TokenV,
    depth: int,
)
    requires
        0 <= from <= elems.len(),
    ensures
        from <= spec_collect_body(elems, from, open_tok, close_tok, depth).1 <= elems.len(),
    decreases elems.len() - from,
{
    if from < elems.len() {
        let e = elems[from];
        let first = spec_first_tag_token(e);
        if !(first == Option::Some(close_tok) && depth == 0 && !(close_tok == open_tok)) {
            let next_depth = if first == Option::Some(open_tok) {
                depth + 1
            } else if first == Option::Some(close_tok) && depth > 0 {
                depth - 1
            } else {
                depth
            };
            lemma_collect_body_bounds(elems, from + 1, open_tok, close_tok, next_depth);
        }
    }
}

/// Prepends already-built nodes to the outcome of parsing the remaining
/// fragments; an error stands as it is.
pub open spec fn spec_prepend<N>(
    ns: Seq<NodeV<N>>,
    t: Result<Seq<NodeV<N>>, ErrorV>,
) -> Result<Seq<NodeV<N>>, ErrorV> {
    match t {
        Ok(rest) => Ok(ns + rest),
        Err(e) => Err(e),
    }
}

/// How one fragment's outcome `h` combines with the rest of the stream from
/// index `i`: an error is the whole result; a node stands first in a
/// successful tree whose tail parses the rest, and stands before whatever
/// error the rest raises.
pub open spec fn spec_head_rel<N>(
    h: Result<NodeV<N>, ErrorV>,
    elems: Seq<ElementV>,
    i: int,
    tags: Seq<Seq<char>>,
    blocks: Seq<Seq<char>>,
    r: Result<Seq<NodeV<N>>, ErrorV>,
) -> bool
    decreases elems.len() - i, 1int,
{
    match h {
        Err(e) => r == Err::<Seq<NodeV<N>>, ErrorV>(e),
        Ok(n) => match r {
            Err(e2) => spec_parse_rel_at(elems, i, tags, blocks, Err::<Seq<NodeV<N>>, ErrorV>(e2)),
            Ok(ns) => ns.len() > 0 && ns[0] == n && spec_parse_rel_at(
                elems,
                i,
                tags,
                blocks,
                Ok::<Seq<NodeV<N>>, ErrorV>(ns.drop_first()),
            ),
        },
    }
}

/// Whether `r` is a possible outcome when a dispatched handler decides the
/// fragment's node or error and the stream continues at index `k`: the
/// handler's error (any error) aborts the parse as the whole result, and
/// any node it returns stands first in a successful tree whose tail parses
/// the rest — or before whatever error the rest raises, which the error
/// case already covers.
pub open spec fn spec_dispatch_rel<N>(
    elems: Seq<ElementV>,
    k: int,
    tags: Seq<Seq<char>>,
    blocks: Seq<Seq<char>>,
    r: Result<Seq<NodeV<N>>, ErrorV>,
) -> bool
    decreases elems.len() - k, 2int,
{
    match r {
        Err(_) => true,
        Ok(ns) => ns.len() > 0 && spec_parse_rel_at(
            elems,
            k,
            tags,
            blocks,
            Ok::<Seq<NodeV<N>>, ErrorV>(ns.drop_first()),
        ),
    }
}

/// The registry-generic parse relation: whether `r` is a possible outcome of
/// parsing the fragments from index `i` against registries with the given
/// tag and block names. Everything the registered names determine is pinned
/// — raw text becomes its text node, a non-dispatched expression fragment
/// becomes its path or output node (or its error), an unregistered tag
/// fragment is the unsupported-tag error, and a registered block consumes
/// exactly the fragments `spec_collect_body` says — while the node or error
/// a dispatched handler returns is quantified away.
pub open spec fn spec_parse_rel_at<N>(
    elems: Seq<ElementV>,
    i: int,
    tags: Seq<Seq<char>>,
    blocks: Seq<Seq<char>>,
    r: Result<Seq<NodeV<N>>, ErrorV>,
) -> bool
    decreases elems.len() - i, 0int,
    via spec_parse_rel_at_dec::<N>
{
    if i < 0 || i >= elems.len() {
        r == Ok::<Seq<NodeV<N>>, ErrorV>(Seq::empty())
    } else {
        match elems[i] {
            ElementV::Raw(x) => spec_head_rel(
                Ok::<NodeV<N>, ErrorV>(NodeV::Text(x)),
                elems,
                i + 1,
                tags,
                blocks,
                r,
            ),
            ElementV::Expression(ts, _) => {
                if ts.len() > 0 && !spec_is_bare(ts) && ts[0] is Identifier && tags.contains(
                    ts[0]->Identifier_0,
                ) {
                    spec_dispatch_rel(elems, i + 1, tags, blocks, r)
                } else {
                    spec_head_rel(
                        spec_parse_expression_simple::<N>(ts),
                        elems,
                        i + 1,
                        tags,
                        blocks,
                        r,
                    )
                }
            },
            ElementV::Tag(ts, _) => {
                let t0 = ts[0];
                if t0 is Identifier && tags.contains(t0->Identifier_0) {
                    spec_dispatch_rel(elems, i + 1, tags, blocks, r)
                } else if t0 is Identifier && blocks.contains(t0->Identifier_0) {
                    let sc = spec_collect_body(
                        elems,
                        i + 1,
                        t0,
                        TokenV::Identifier("end"@ + t0->Identifier_0),
                        0,
                    );
                    spec_dispatch_rel(elems, sc.1, tags, blocks, r)
                } else {
                    r == Err::<Seq<NodeV<N>>, ErrorV>(spec_unsupported_tag(t0))
                }
            },
        }
    }
}

#[via_fn]
proof fn spec_parse_rel_at_dec<N>(
    elems: Seq<ElementV>,
    i: int,
    tags: Seq<Seq<char>>,
    blocks: Seq<Seq<char>>,
    r: Result<Seq<NodeV<N>>, ErrorV>,
) {
    if 0 <= i && i < elems.len() {
        match elems[i] {
            ElementV::Tag(ts, _) => {
                let t0 = ts[0];
                if t0 is Identifier && !tags.contains(t0->Identifier_0) && blocks.contains(
                    t0->Identifier_0,
                ) {
                    lemma_collect_body_bounds(
                        elems,
                        i + 1,
                        t0,
                        TokenV::Identifier("end"@ + t0->Identifier_0),
                        0,
                    );
                }
            },
            _ => {},
        }
    }
}

/// One step of the parse loop: if the fragment at `cur` combines a fixed
/// node `n` with the stream continuing at `j`, appending `n` to the nodes
/// built so far keeps the whole stream's relation.
proof fn lemma_rel_invariant_step<N>(
    elems: Seq<ElementV>,
    cur: int,
    j: int,
    tags: Seq<Seq<char>>,
    blocks: Seq<Seq<char>>,
    n: NodeV<N>,
    ns: Seq<NodeV<N>>,
)
    requires
        forall|rr: Result<Seq<NodeV<N>>, ErrorV>|
            #[trigger] spec_head_rel(Ok::<NodeV<N>, ErrorV>(n), elems, j, tags, blocks, rr)
                ==> spec_parse_rel_at(elems, cur, tags, blocks, rr),
        forall|t: Result<Seq<NodeV<N>>, ErrorV>|
            #[trigger] spec_parse_rel_at(elems, cur, tags, blocks, t) ==> spec_parse_rel_at(
                elems,
                0,
                tags,
                blocks,
                spec_prepend(ns, t),
            ),
    ensures
        forall|t: Result<Seq<NodeV<N>>, ErrorV>|
            #[trigger] spec_parse_rel_at(elems, j, tags, blocks, t) ==> spec_parse_rel_at(
                elems,
                0,
                tags,
                blocks,
                spec_prepend(ns + seq![n], t),
            ),
{
    assert forall|t: Result<Seq<NodeV<N>>, ErrorV>|
        #[trigger] spec_parse_rel_at(elems, j, tags, blocks, t) implies spec_parse_rel_at(
        elems,
        0,
        tags,
        blocks,
        spec_prepend(ns + seq![n], t),
    ) by {
        let t1: Result<Seq<NodeV<N>>, ErrorV> = match t {
            Ok(rest) => Ok(seq![n] + rest),
            Err(e) => Err(e),
        };
        match t {
            Ok(rest) => {
                assert((seq![n] + rest)[0] == n);
                assert((seq![n] + rest).drop_first() =~= rest);
                assert(spec_head_rel(Ok::<NodeV<N>, ErrorV>(n), elems, j, tags, blocks, t1));
            },
            Err(e) => {
                assert(spec_head_rel(Ok::<NodeV<N>, ErrorV>(n), elems, j, tags, blocks, t1));
            },
        }
        assert(spec_parse_rel_at(elems, cur, tags, blocks, t1));
        assert(spec_parse_rel_at(elems, 0, tags, blocks, spec_prepend(ns, t1)));
        match t {
            Ok(rest) => {
                assert(ns + (seq![n] + rest) =~= (ns + seq![n]) + rest);
                assert(spec_prepend(ns, t1) == spec_prepend(ns + seq![n], t));
            },
            Err(e) => {
                assert(spec_prepend(ns, t1) == spec_prepend(ns + seq![n], t));
            },
        }
    };
}
/// Parses the fragment stream into the renderable tree, dispatching each
/// fragment to raw-text passthrough, expression parsing or tag/block
/// recognition, failing fast on the first error. The result always stands
/// in the registry-generic relation `spec_parse_rel_at`, which pins
/// everything the registered names determine and quantifies away only what
/// dispatched handlers return; against an empty registry every outcome is
/// pinned outright by `spec_parse_simple`.
#[verifier::loop_isolation(false)]
#[verifier::rlimit(80)]
pub fn parse<T, B, N>(elements: &[Element], options: &LiquidOptions<T, B>) -> (r: Result<
    Vec<Node<N>>,
    Error,
>) where
    T: ParseTag<LiquidOptions<T, B>, N>,
    B: ParseBlock<LiquidOptions<T, B>, N>,

    requires
        spec_tags_nonempty(crate::element::elements_view(elements@), 0),
    ensures
        elements@.len() == 0 ==> (r is Ok && r->Ok_0@.len() == 0),
        (match r {
            Ok(v) => spec_parse_rel_at(
                crate::element::elements_view(elements@),
                0,
                options.tag_names(),
                options.block_names(),
                Ok::<Seq<NodeV<N>>, ErrorV>(nodes_view(v@)),
            ),
            Err(e) => spec_parse_rel_at(
                crate::element::elements_view(elements@),
                0,
                options.tag_names(),
                options.block_names(),
                Err::<Seq<NodeV<N>>, ErrorV>(e@),
            ),
        }),
        (options.tag_names().len() == 0 && options.block_names().len() == 0) ==> (match
            spec_parse_simple::<N>(crate::element::elements_view(elements@)) {
            Ok(ns) => r is Ok && nodes_view(r->Ok_0@) == ns,
            Err(e) => r is Err && r->Err_0@ == e,
        }),
{
    let ghost ev = crate::element::elements_view(elements@);
    let ghost tags = options.tag_names();
    let ghost blocks = options.block_names();
    let ghost empty_reg = tags.len() == 0 && blocks.len() == 0;
    proof {
        crate::element::lemma_elements_view_len(elements@);
    }
    let len = elements.len();
    let mut ret: Vec<Node<N>> = Vec::new();
    let mut pos: usize = 0;
    proof {
        assert(nodes_view(ret@) =~= Seq::<NodeV<N>>::empty());
        assert(ev.skip(0) =~= ev);
        assert forall|t: Result<Seq<NodeV<N>>, ErrorV>|
            #[trigger] spec_parse_rel_at(ev, 0int, tags, blocks, t) implies spec_parse_rel_at(
            ev,
            0,
            tags,
            blocks,
            spec_prepend(nodes_view(ret@), t),
        ) by {
            match t {
                Ok(ns) => {
                    assert(nodes_view(ret@) + ns =~= ns);
                    assert(spec_prepend(nodes_view(ret@), t) == t);
                },
                Err(_) => {},
            }
        };
    }
    while pos < len
        invariant
            0 <= pos <= len,
            empty_reg ==> spec_parse_simple::<N>(ev) == (match spec_parse_simple::<N>(
                ev.skip(pos as int),
            ) {
                Ok(rest) => Ok::<Seq<NodeV<N>>, ErrorV>(nodes_view(ret@) + rest),
                Err(e) => Err::<Seq<NodeV<N>>, ErrorV>(e),
            }),
            forall|t: Result<Seq<NodeV<N>>, ErrorV>|
                #[trigger] spec_parse_rel_at(ev, pos as int, tags, blocks, t)
                    ==> spec_parse_rel_at(
                    ev,
                    0,
                    tags,
                    blocks,
                    spec_prepend(nodes_view(ret@), t),
                ),
        decreases len - pos,
    {
        let ghost cur = pos as int;
        let ghost suffix = ev.skip(cur);
        proof {
            assert(forall|j: int| 0 <= j < suffix.len() ==> suffix[j] == ev[cur + j]);
            assert(suffix.skip(1) =~= ev.skip(cur + 1));
        }
        let node: Node<N> = match &elements[pos] {
            Element::Raw(x) => {
                pos = pos + 1;
                let n: Node<N> = Node::Text(Text::new(x.as_str()));
                proof {
                    assert(ev[cur] == ElementV::Raw(x@));
                    assert(n@ == NodeV::<N>::Text(x@));
                    assert forall|rr: Result<Seq<NodeV<N>>, ErrorV>|
                        #[trigger] spec_head_rel(
                            Ok::<NodeV<N>, ErrorV>(n@),
                            ev,
                            cur + 1,
                            tags,
                            blocks,
                            rr,
                        ) implies spec_parse_rel_at(ev, cur, tags, blocks, rr) by {}
                }
                n
            },
            Element::Expression(ts, _) => {
                pos = pos + 1;
                let ghost tsv2 = tokens_view(ts@);
                proof {
                    assert(ev[cur] is Expression);
                    assert(ev[cur]->Expression_0 == tsv2);
                    assert(forall|j: int| 0 <= j < tsv2.len() ==> tsv2[j] == ts@[j]@);
                }
                let ghost disp = tsv2.len() > 0 && !spec_is_bare(tsv2) && tsv2[0] is Identifier
                    && tags.contains(tsv2[0]->Identifier_0);
                let res = parse_expression(ts.as_slice(), options);
                match res {
                    Ok(n) => {
                        proof {
                            if disp {
                                assert forall|rr: Result<Seq<NodeV<N>>, ErrorV>|
                                    #[trigger] spec_head_rel(
                                        Ok::<NodeV<N>, ErrorV>(n@),
                                        ev,
                                        cur + 1,
                                        tags,
                                        blocks,
                                        rr,
                                    ) implies spec_parse_rel_at(ev, cur, tags, blocks, rr) by {
                                    assert(spec_dispatch_rel(ev, cur + 1, tags, blocks, rr));
                                }
                            } else {
                                assert(tsv2.len() > 0);
                                if spec_is_bare(tsv2) {
                                    assert(spec_parse_expression_simple::<N>(tsv2) == Ok::<
                                        NodeV<N>,
                                        ErrorV,
                                    >(n@));
                                } else {
                                    assert(spec_parse_expression_simple::<N>(tsv2) == Ok::<
                                        NodeV<N>,
                                        ErrorV,
                                    >(n@));
                                }
                                assert forall|rr: Result<Seq<NodeV<N>>, ErrorV>|
                                    #[trigger] spec_head_rel(
                                        Ok::<NodeV<N>, ErrorV>(n@),
                                        ev,
                                        cur + 1,
                                        tags,
                                        blocks,
                                        rr,
                                    ) implies spec_parse_rel_at(ev, cur, tags, blocks, rr) by {}
                            }
                        }
                        n
                    },
                    Err(e) => {
                        proof {
                            if disp {
                                assert(spec_head_rel(
                                    Err::<NodeV<N>, ErrorV>(e@),
                                    ev,
                                    cur + 1,
                                    tags,
                                    blocks,
                                    Err::<Seq<NodeV<N>>, ErrorV>(e@),
                                ));
                                assert(spec_dispatch_rel(
                                    ev,
                                    cur + 1,
                                    tags,
                                    blocks,
                                    Err::<Seq<NodeV<N>>, ErrorV>(e@),
                                ));
                            } else {
                                assert(spec_parse_expression_simple::<N>(tsv2) == Err::<
                                    NodeV<N>,
                                    ErrorV,
                                >(e@));
                            }
                            assert(spec_parse_rel_at(
                                ev,
                                cur,
                                tags,
                                blocks,
                                Err::<Seq<NodeV<N>>, ErrorV>(e@),
                            ));
                            assert(spec_parse_rel_at(
                                ev,
                                0,
                                tags,
                                blocks,
                                spec_prepend(nodes_view(ret@), Err::<Seq<NodeV<N>>, ErrorV>(e@)),
                            ));
                            assert(spec_prepend(nodes_view(ret@), Err::<Seq<NodeV<N>>, ErrorV>(e@))
                                == Err::<Seq<NodeV<N>>, ErrorV>(e@));
                        }
                        return Err(e);
                    },
                }
            },
            Element::Tag(ts, _) => {
                pos = pos + 1;
                let ghost tsv2 = tokens_view(ts@);
                proof {
                    assert(ev[cur] is Tag);
                    assert(ev[cur]->Tag_0 == tsv2);
                    assert(ev[cur]->Tag_0.len() > 0);
                    assert(tsv2[0] == ts@[0]@);
                }
                let ghost t0 = tsv2[0];
                let res = parse_tag(elements, &mut pos, ts.as_slice(), options);
                let ghost sc = spec_collect_body(
                    ev,
                    cur + 1,
                    t0,
                    TokenV::Identifier("end"@ + t0->Identifier_0),
                    0,
                );
                match res {
                    Ok(n) => {
                        proof {
                            if t0 is Identifier && tags.contains(t0->Identifier_0) {
                                assert(pos as int == cur + 1);
                                assert forall|rr: Result<Seq<NodeV<N>>, ErrorV>|
                                    #[trigger] spec_head_rel(
                                        Ok::<NodeV<N>, ErrorV>(n@),
                                        ev,
                                        cur + 1,
                                        tags,
                                        blocks,
                                        rr,
                                    ) implies spec_parse_rel_at(ev, cur, tags, blocks, rr) by {
                                    assert(spec_dispatch_rel(ev, cur + 1, tags, blocks, rr));
                                }
                            } else if t0 is Identifier && blocks.contains(t0->Identifier_0) {
                                assert(pos as int == sc.1);
                                assert forall|rr: Result<Seq<NodeV<N>>, ErrorV>|
                                    #[trigger] spec_head_rel(
                                        Ok::<NodeV<N>, ErrorV>(n@),
                                        ev,
                                        sc.1,
                                        tags,
                                        blocks,
                                        rr,
                                    ) implies spec_parse_rel_at(ev, cur, tags, blocks, rr) by {
                                    assert(spec_dispatch_rel(ev, sc.1, tags, blocks, rr));
                                }
                            } else {
                                assert(false);
                            }
                        }
                        n
                    },
                    Err(e) => {
                        proof {
                            if t0 is Identifier && tags.contains(t0->Identifier_0) {
                                assert(spec_head_rel(
                                    Err::<NodeV<N>, ErrorV>(e@),
                                    ev,
                                    cur + 1,
                                    tags,
                                    blocks,
                                    Err::<Seq<NodeV<N>>, ErrorV>(e@),
                                ));
                                assert(spec_dispatch_rel(
                                    ev,
                                    cur + 1,
                                    tags,
                                    blocks,
                                    Err::<Seq<NodeV<N>>, ErrorV>(e@),
                                ));
                            } else if t0 is Identifier && blocks.contains(t0->Identifier_0) {
                                assert(spec_head_rel(
                                    Err::<NodeV<N>, ErrorV>(e@),
                                    ev,
                                    sc.1,
                                    tags,
                                    blocks,
                                    Err::<Seq<NodeV<N>>, ErrorV>(e@),
                                ));
                                assert(spec_dispatch_rel(
                                    ev,
                                    sc.1,
                                    tags,
                                    blocks,
                                    Err::<Seq<NodeV<N>>, ErrorV>(e@),
                                ));
                            } else {
                                assert(e@ == spec_unsupported_tag(t0));
                            }
                            assert(spec_parse_rel_at(
                                ev,
                                cur,
                                tags,
                                blocks,
                                Err::<Seq<NodeV<N>>, ErrorV>(e@),
                            ));
                            assert(spec_parse_rel_at(
                                ev,
                                0,
                                tags,
                                blocks,
                                spec_prepend(nodes_view(ret@), Err::<Seq<NodeV<N>>, ErrorV>(e@)),
                            ));
                            assert(spec_prepend(nodes_view(ret@), Err::<Seq<NodeV<N>>, ErrorV>(e@))
                                == Err::<Seq<NodeV<N>>, ErrorV>(e@));
                        }
                        return Err(e);
                    },
                }
            },
        };
        proof {
            if empty_reg {
                assert(forall|x: Seq<char>| !tags.contains(x));
                assert(forall|x: Seq<char>| !blocks.contains(x));
                match ev[cur] {
                    ElementV::Raw(x) => {
                        assert(node@ == NodeV::<N>::Text(x));
                    },
                    ElementV::Expression(ts, _) => {
                        assert(spec_parse_expression_simple::<N>(ts) == Ok::<
                            NodeV<N>,
                            ErrorV,
                        >(node@));
                    },
                    ElementV::Tag(_, _) => {
                        assert(false);
                    },
                }
            }
            lemma_rel_invariant_step(ev, cur, pos as int, tags, blocks, node@, nodes_view(ret@));
        }
        let ghost r0 = ret@;
        ret.push(node);
        proof {
            crate::renderable::lemma_nodes_view_len(r0);
            crate::renderable::lemma_nodes_view_len(ret@);
            assert(nodes_view(ret@) =~= nodes_view(r0) + seq![node@]);
            assert(forall|rest: Seq<NodeV<N>>|
                nodes_view(r0) + (seq![node@] + rest) =~= (nodes_view(r0) + seq![node@])
                    + rest);
        }
    }
    proof {
        assert(ev.skip(len as int).len() == 0);
        assert(nodes_view(ret@) + Seq::<NodeV<N>>::empty() =~= nodes_view(ret@));
        assert(spec_parse_rel_at(
            ev,
            len as int,
            tags,
            blocks,
            Ok::<Seq<NodeV<N>>, ErrorV>(Seq::empty()),
        ));
        assert(spec_parse_rel_at(
            ev,
            0,
            tags,
            blocks,
            spec_prepend(nodes_view(ret@), Ok::<Seq<NodeV<N>>, ErrorV>(Seq::empty())),
        ));
        assert(spec_prepend(nodes_view(ret@), Ok::<Seq<NodeV<N>>, ErrorV>(Seq::empty()))
            == Ok::<Seq<NodeV<N>>, ErrorV>(nodes_view(ret@)));
        crate::renderable::lemma_nodes_view_len(ret@);
    }
    Ok(ret)
}

} // verus!
