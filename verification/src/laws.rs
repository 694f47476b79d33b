//! General properties of the library, stated and proved over the same spec
//! functions its contracts use.
use vstd::prelude::*;
use crate::context::{spec_eval_expr, spec_lookup};
use crate::element::ElementV;
use crate::error::ErrorV;
use crate::expression::{ExpressionV, VariableV};
use crate::parser::{
    lemma_find_pipe_bounds, spec_collect_body, spec_find_pipe, spec_first_tag_token,
    spec_head_rel, spec_parse_bare, spec_parse_filters, spec_parse_output, spec_parse_rel_at,
    spec_parse_simple, spec_split_scan,
};
use crate::renderable::NodeV;
use crate::token::{spec_split_dots, spec_to_arg, TokenV};
use crate::value::{ScalarV, ValueV};

verus! {

broadcast use vstd::seq::group_seq_axioms;

/// Path access equivalence: for an object-valued root `rn` with a field `f`
/// present on it, the dotted identifier `rn.f`, the dot form `rn . f`, the
/// bracketed string form `rn["f"]`, and the bracketed variable form
/// `rn[ix]` with `ix` bound to the string `f`, all parse to paths that
/// evaluate to the same value: the field's.
pub proof fn lemma_path_access_equivalence(
    rn: Seq<char>,
    f: Seq<char>,
    ix: Seq<char>,
    pairs: Seq<(Seq<char>, ValueV)>,
    g: Seq<(Seq<char>, ValueV)>,
)
    requires
        spec_lookup(g, rn) == Option::Some(ValueV::Object(pairs)),
        spec_lookup(pairs, f) is Some,
        spec_lookup(g, ix) == Option::Some(ValueV::Scalar(ScalarV::Str(f))),
        forall|j: int| 0 <= j < rn.len() ==> rn[j] != '.',
        forall|j: int| 0 <= j < f.len() ==> f[j] != '.',
    ensures
        spec_to_arg(TokenV::Identifier(rn + seq!['.'] + f)) == Ok::<ExpressionV, ErrorV>(
            ExpressionV::Variable(spec_field_path(rn, f)),
        ),
        spec_parse_bare(
            seq![
                TokenV::Identifier(rn),
                TokenV::Dot,
                TokenV::Identifier(f),
            ],
        ) == Ok::<VariableV, ErrorV>(spec_field_path(rn, f)),
        spec_parse_bare(
            seq![
                TokenV::Identifier(rn),
                TokenV::OpenSquare,
                TokenV::StringLiteral(f),
                TokenV::CloseSquare,
            ],
        ) == Ok::<VariableV, ErrorV>(spec_field_path(rn, f)),
        spec_parse_bare(
            seq![
                TokenV::Identifier(rn),
                TokenV::OpenSquare,
                TokenV::Identifier(ix),
                TokenV::CloseSquare,
            ],
        ) == Ok::<VariableV, ErrorV>(spec_var_path(rn, ix)),
        spec_eval_expr(ExpressionV::Variable(spec_field_path(rn, f)), g) == Ok::<
            ValueV,
            ErrorV,
        >(spec_lookup(pairs, f)->Some_0),
        spec_eval_expr(ExpressionV::Variable(spec_var_path(rn, ix)), g) == Ok::<
            ValueV,
            ErrorV,
        >(spec_lookup(pairs, f)->Some_0),
{
    let dotted = rn + seq!['.'] + f;
    assert(dotted.len() == rn.len() + 1 + f.len());
    assert(dotted[rn.len() as int] == '.');
    assert(forall|j: int| 0 <= j < rn.len() ==> dotted[j] == rn[j]);
    crate::token::lemma_split_dots_first(dotted, rn.len() as int);
    assert(dotted.take(rn.len() as int) =~= rn);
    assert(dotted.skip(rn.len() as int + 1) =~= f);
    crate::token::lemma_split_dots_none(f);
    let segs = spec_split_dots(dotted);
    assert(segs == seq![rn] + seq![f]);
    assert(segs[0] == rn);
    assert(segs.drop_first() =~= seq![f]);
    assert(segs.drop_first().map_values(
        |x: Seq<char>| ExpressionV::Literal(ValueV::Scalar(ScalarV::Str(x))),
    ) =~= seq![ExpressionV::Literal(ValueV::Scalar(ScalarV::Str(f)))]);
    crate::token::lemma_split_dots_none(rn);
    let bare_dot = seq![TokenV::Identifier(rn), TokenV::Dot, TokenV::Identifier(f)];
    assert(bare_dot.skip(1) =~= seq![TokenV::Dot, TokenV::Identifier(f)]);
    assert(bare_dot.skip(1).skip(2) =~= Seq::<TokenV>::empty());
    assert(crate::parser::spec_parse_indexes(Seq::<TokenV>::empty()) == Ok::<
        Seq<ExpressionV>,
        ErrorV,
    >(Seq::empty()));
    assert(crate::parser::spec_parse_indexes(bare_dot.skip(1)) == Ok::<Seq<ExpressionV>, ErrorV>(
        seq![ExpressionV::Literal(ValueV::Scalar(ScalarV::Str(f)))] + Seq::<
            ExpressionV,
        >::empty(),
    ));
    let bare_str = seq![
        TokenV::Identifier(rn),
        TokenV::OpenSquare,
        TokenV::StringLiteral(f),
        TokenV::CloseSquare,
    ];
    assert(bare_str.skip(1) =~= seq![
        TokenV::OpenSquare,
        TokenV::StringLiteral(f),
        TokenV::CloseSquare,
    ]);
    assert(bare_str.skip(1).skip(3) =~= Seq::<TokenV>::empty());
    let bare_var = seq![
        TokenV::Identifier(rn),
        TokenV::OpenSquare,
        TokenV::Identifier(ix),
        TokenV::CloseSquare,
    ];
    assert(bare_var.skip(1) =~= seq![
        TokenV::OpenSquare,
        TokenV::Identifier(ix),
        TokenV::CloseSquare,
    ]);
    assert(bare_var.skip(1).skip(3) =~= Seq::<TokenV>::empty());
    assert(Seq::<ExpressionV>::empty() + seq![
        ExpressionV::Literal(ValueV::Scalar(ScalarV::Str(f))),
    ] =~= seq![ExpressionV::Literal(ValueV::Scalar(ScalarV::Str(f)))]);
    assert(Seq::<ExpressionV>::empty() + (seq![
        ExpressionV::Literal(ValueV::Scalar(ScalarV::Str(f))),
    ] + Seq::<ExpressionV>::empty()) =~= seq![
        ExpressionV::Literal(ValueV::Scalar(ScalarV::Str(f))),
    ]);
    assert(Seq::<ExpressionV>::empty() + (seq![
        ExpressionV::Variable(VariableV { root: ix, indexes: Seq::empty() }),
    ] + Seq::<ExpressionV>::empty()) =~= seq![
        ExpressionV::Variable(VariableV { root: ix, indexes: Seq::empty() }),
    ]);
    let fp = spec_field_path(rn, f);
    let vv = spec_lookup(pairs, f)->Some_0;
    assert(fp.indexes[0] == ExpressionV::Literal(ValueV::Scalar(ScalarV::Str(f))));
    assert(fp.indexes.drop_first() =~= Seq::<ExpressionV>::empty());
    assert(spec_eval_expr(fp.indexes[0], g) == Ok::<ValueV, ErrorV>(
        ValueV::Scalar(ScalarV::Str(f)),
    ));
    assert(crate::context::spec_index_value(ValueV::Object(pairs), ScalarV::Str(f)) == Ok::<
        ValueV,
        ErrorV,
    >(vv));
    assert(crate::context::spec_eval_indexes(vv, fp.indexes.drop_first(), g) == Ok::<
        ValueV,
        ErrorV,
    >(vv));
    let vp = spec_var_path(rn, ix);
    assert(vp.indexes[0] == ExpressionV::Variable(VariableV { root: ix, indexes: Seq::empty() }));
    assert(vp.indexes.drop_first() =~= Seq::<ExpressionV>::empty());
    assert(crate::context::spec_eval_indexes(
        ValueV::Scalar(ScalarV::Str(f)),
        Seq::<ExpressionV>::empty(),
        g,
    ) == Ok::<ValueV, ErrorV>(ValueV::Scalar(ScalarV::Str(f))));
    assert(spec_eval_expr(vp.indexes[0], g) == Ok::<ValueV, ErrorV>(
        ValueV::Scalar(ScalarV::Str(f)),
    ));
}

/// The path reaching field `f` of root `rn`.
pub open spec fn spec_field_path(rn: Seq<char>, f: Seq<char>) -> VariableV {
    VariableV {
        root: rn,
        indexes: seq![ExpressionV::Literal(ValueV::Scalar(ScalarV::Str(f)))],
    }
}

/// The path indexing root `rn` by the variable `ix`.
pub open spec fn spec_var_path(rn: Seq<char>, ix: Seq<char>) -> VariableV {
    VariableV {
        root: rn,
        indexes: seq![ExpressionV::Variable(VariableV { root: ix, indexes: Seq::empty() })],
    }
}

/// Nesting correctness: after the outer opening fragment of block `x`, a
/// body of `open(x) close(x)` followed by the outer closing marker collects
/// exactly the inner pair; the outer closing marker is consumed but not
/// collected, and the sibling after it is not consumed.
pub proof fn lemma_nested_block_collection(elems: Seq<ElementV>, x: Seq<char>)
    requires
        elems.len() == 5,
        spec_first_tag_token(elems[1]) == Option::Some(TokenV::Identifier(x)),
        spec_first_tag_token(elems[2]) == Option::Some(TokenV::Identifier("end"@ + x)),
        spec_first_tag_token(elems[3]) == Option::Some(TokenV::Identifier("end"@ + x)),
    ensures
        spec_collect_body(
            elems,
            1,
            TokenV::Identifier(x),
            TokenV::Identifier("end"@ + x),
            0,
        ) == (seq![elems[1], elems[2]], 4int),
{
    reveal_strlit("end");
    let open_tok = TokenV::Identifier(x);
    let close_tok = TokenV::Identifier("end"@ + x);
    assert(("end"@ + x).len() == 3 + x.len());
    assert(!(close_tok == open_tok));
    assert(spec_collect_body(elems, 3, open_tok, close_tok, 0) == (
        Seq::<ElementV>::empty(),
        4int,
    ));
    assert(spec_collect_body(elems, 2, open_tok, close_tok, 1) == (
        seq![elems[2]] + Seq::<ElementV>::empty(),
        4int,
    ));
    assert(seq![elems[2]] + Seq::<ElementV>::empty() =~= seq![elems[2]]);
    assert(spec_collect_body(elems, 1, open_tok, close_tok, 0) == (
        seq![elems[1]] + seq![elems[2]],
        4int,
    ));
    assert(seq![elems[1]] + seq![elems[2]] =~= seq![elems[1], elems[2]]);
}

/// Delimiter splitting ignores nested markers: in a body holding a nested
/// block of the registry's vocabulary whose own body names the delimiter,
/// and one un-nested delimiter fragment after it, the split point is the
/// un-nested one; the nested one stays inside the leading part.
pub proof fn lemma_split_ignores_nested(
    elems: Seq<ElementV>,
    nb: Seq<char>,
    d: Seq<char>,
    delims: Seq<Seq<char>>,
    blocks: Seq<Seq<char>>,
)
    requires
        elems.len() == 7,
        spec_first_tag_token(elems[0]) is None,
        spec_first_tag_token(elems[1]) == Option::Some(TokenV::Identifier(nb)),
        spec_first_tag_token(elems[2]) is None,
        spec_first_tag_token(elems[3]) == Option::Some(TokenV::Identifier(d)),
        spec_first_tag_token(elems[4]) == Option::Some(TokenV::Identifier("end"@ + nb)),
        spec_first_tag_token(elems[5]) == Option::Some(TokenV::Identifier(d)),
        blocks.contains(nb),
        !blocks.contains(d),
        !blocks.contains("end"@ + nb),
        delims.contains(d),
        d != "end"@ + nb,
    ensures
        spec_split_scan(elems, 0, Seq::empty(), delims, blocks) == Option::Some(5int),
{
    let st0 = Seq::<Seq<char>>::empty();
    let st1 = st0.push("end"@ + nb);
    assert(st1.last() == "end"@ + nb);
    assert(st1.len() == 1);
    assert(spec_split_scan(elems, 5, st1.drop_last(), delims, blocks) == Option::Some(5int)) by {
        assert(st1.drop_last() =~= st0);
        assert(st0.len() == 0);
    }
    assert(st1.drop_last() =~= st0);
    assert(spec_split_scan(elems, 4, st1, delims, blocks) == Option::Some(5int));
    assert(spec_split_scan(elems, 3, st1, delims, blocks) == Option::Some(5int));
    assert(spec_split_scan(elems, 2, st1, delims, blocks) == Option::Some(5int));
    assert(spec_split_scan(elems, 1, st0, delims, blocks) == Option::Some(5int));
    assert(spec_split_scan(elems, 0, st0, delims, blocks) == Option::Some(5int));
}


/// The number of pipe tokens in a token sequence.
pub open spec fn spec_count_pipes(ts: Seq<TokenV>) -> int
    decreases ts.len(),
{
    if ts.len() == 0 {
        0
    } else {
        (if ts[0] == TokenV::Pipe {
            1int
        } else {
            0int
        }) + spec_count_pipes(ts.drop_first())
    }
}

proof fn lemma_count_pipes_split(ts: Seq<TokenV>, k: int)
    requires
        0 <= k <= ts.len(),
    ensures
        spec_count_pipes(ts) == spec_count_pipes(ts.take(k)) + spec_count_pipes(ts.skip(k)),
    decreases k,
{
    if k == 0 {
        assert(ts.take(0) =~= Seq::<TokenV>::empty());
        assert(ts.skip(0) =~= ts);
    } else {
        let d = ts.drop_first();
        lemma_count_pipes_split(d, k - 1);
        assert(ts.take(k).drop_first() =~= d.take(k - 1));
        assert(ts.take(k)[0] == ts[0]);
        assert(ts.take(k).len() == k);
        assert(ts.skip(k) =~= d.skip(k - 1));
    }
}

proof fn lemma_count_pipes_none(ts: Seq<TokenV>)
    requires
        forall|j: int| 0 <= j < ts.len() ==> ts[j] != TokenV::Pipe,
    ensures
        spec_count_pipes(ts) == 0,
    decreases ts.len(),
{
    if ts.len() > 0 {
        lemma_count_pipes_none(ts.drop_first());
    }
}

proof fn lemma_filters_count(ts: Seq<TokenV>)
    requires
        spec_parse_filters(ts) is Ok,
    ensures
        spec_parse_filters(ts)->Ok_0.len() == spec_count_pipes(ts),
    decreases ts.len(),
{
    if ts.len() == 0 {
        assert(spec_count_pipes(ts) == 0);
    } else {
        assert(ts[0] == TokenV::Pipe);
        assert(ts.len() >= 2);
        assert(ts[1] is Identifier);
        if ts.len() == 2 || ts[2] == TokenV::Pipe {
            lemma_filters_count(ts.skip(2));
            lemma_count_pipes_split(ts, 2);
            let head = ts.take(2);
            assert(head[0] == TokenV::Pipe);
            assert(head[1] == ts[1]);
            assert(head.drop_first() =~= seq![ts[1]]);
            assert(seq![ts[1]].drop_first() =~= Seq::<TokenV>::empty());
            assert(ts[1] != TokenV::Pipe);
            assert(spec_count_pipes(Seq::<TokenV>::empty()) == 0);
            assert(spec_count_pipes(seq![ts[1]]) == 0);
            assert(spec_count_pipes(head) == 1);
            assert(spec_parse_filters(ts)->Ok_0.len() == 1 + spec_parse_filters(
                ts.skip(2),
            )->Ok_0.len());
        } else {
            let p2 = spec_find_pipe(ts, 3);
            lemma_find_pipe_bounds(ts, 3);
            lemma_filters_count(ts.skip(p2));
            lemma_count_pipes_split(ts, p2);
            let head = ts.take(p2);
            assert(head[0] == TokenV::Pipe);
            assert(forall|j: int| 1 <= j < head.len() ==> head[j] != TokenV::Pipe);
            assert(forall|j: int|
                0 <= j < head.drop_first().len() ==> head.drop_first()[j] != TokenV::Pipe);
            lemma_count_pipes_none(head.drop_first());
            assert(spec_count_pipes(head) == 1);
            assert(spec_parse_filters(ts)->Ok_0.len() == 1 + spec_parse_filters(
                ts.skip(p2),
            )->Ok_0.len());
        }
    }
}

/// One filter call per pipe: a successfully parsed chain holds exactly as
/// many filter calls as the token sequence holds pipe tokens, in the pipes'
/// left-to-right order (the order is the sequence's own).
pub proof fn lemma_filter_per_pipe(ts: Seq<TokenV>)
    requires
        spec_parse_output(ts) is Ok,
    ensures
        spec_parse_output(ts)->Ok_0.filters.len() == spec_count_pipes(ts),
{
    let fp = spec_find_pipe(ts, 0);
    lemma_find_pipe_bounds(ts, 0);
    lemma_count_pipes_split(ts, fp);
    assert(forall|j: int| 0 <= j < ts.take(fp).len() ==> ts.take(fp)[j] != TokenV::Pipe);
    lemma_count_pipes_none(ts.take(fp));
    assert(spec_parse_filters(ts.skip(fp)) is Ok);
    lemma_filters_count(ts.skip(fp));
    assert(spec_parse_output(ts)->Ok_0.filters == spec_parse_filters(ts.skip(fp))->Ok_0);
}


proof fn lemma_raw_stream_from<N>(
    elems: Seq<ElementV>,
    i: int,
    tags: Seq<Seq<char>>,
    blocks: Seq<Seq<char>>,
    r: Result<Seq<NodeV<N>>, ErrorV>,
)
    requires
        0 <= i <= elems.len(),
        forall|j: int| 0 <= j < elems.len() ==> elems[j] is Raw,
        spec_parse_rel_at(elems, i, tags, blocks, r),
    ensures
        r is Ok,
        r->Ok_0.len() == elems.len() - i,
        forall|j: int|
            0 <= j < r->Ok_0.len() ==> r->Ok_0[j] == NodeV::<N>::Text(elems[i + j]->Raw_0),
    decreases elems.len() - i,
{
    if i < elems.len() {
        let x = elems[i]->Raw_0;
        assert(spec_head_rel(Ok::<NodeV<N>, ErrorV>(NodeV::Text(x)), elems, i + 1, tags, blocks, r));
        match r {
            Err(e) => {
                lemma_raw_stream_from(elems, i + 1, tags, blocks, Err::<Seq<NodeV<N>>, ErrorV>(e));
                assert(false);
            },
            Ok(ns) => {
                lemma_raw_stream_from(
                    elems,
                    i + 1,
                    tags,
                    blocks,
                    Ok::<Seq<NodeV<N>>, ErrorV>(ns.drop_first()),
                );
                assert(ns[0] == NodeV::<N>::Text(x));
                assert(forall|j: int|
                    0 <= j < ns.drop_first().len() ==> ns.drop_first()[j] == NodeV::<N>::Text(
                        elems[i + 1 + j]->Raw_0,
                    ));
                assert(forall|j: int|
                    1 <= j < ns.len() ==> ns[j] == ns.drop_first()[j - 1]);
            },
        }
    }
}

/// Raw text is registry-independent: against any registry, a stream made of
/// raw fragments alone parses to exactly one text node per fragment, in
/// fragment order, and never fails.
pub proof fn lemma_raw_stream_parses_to_texts<N>(
    elems: Seq<ElementV>,
    tags: Seq<Seq<char>>,
    blocks: Seq<Seq<char>>,
    r: Result<Seq<NodeV<N>>, ErrorV>,
)
    requires
        forall|j: int| 0 <= j < elems.len() ==> elems[j] is Raw,
        spec_parse_rel_at(elems, 0, tags, blocks, r),
    ensures
        r is Ok,
        r->Ok_0.len() == elems.len(),
        forall|j: int|
            0 <= j < elems.len() ==> r->Ok_0[j] == NodeV::<N>::Text(elems[j]->Raw_0),
{
    lemma_raw_stream_from(elems, 0, tags, blocks, r);
}

/// Idempotent re-parse: against an empty registry, the parsed tree is a
/// function of the fragment stream alone, so parsing the same fragments
/// twice yields structurally equal trees. (With registered handlers the
/// handlers themselves decide their nodes, and nothing general holds.)
pub proof fn lemma_reparse_equal<N>(
    elems: Seq<ElementV>,
    t1: Result<Seq<NodeV<N>>, ErrorV>,
    t2: Result<Seq<NodeV<N>>, ErrorV>,
)
    requires
        t1 == spec_parse_simple::<N>(elems),
        t2 == spec_parse_simple::<N>(elems),
    ensures
        t1 == t2,
{
}

} // verus!
