use liquid_compiler::{
    collect_block_body, comment_block, expect, parse, parse_expression, parse_indexes,
    parse_output, split_block, Comment, Context, Element, Error, Expression, Filter,
    FilterCall, FilterChain, LiquidOptions, Node, ParseBlock, ParseTag, Renderable, Scalar,
    Token, Value, Variable,
};
use liquid_compiler::consume_value_token;
use liquid_compiler::value_token;
use liquid_compiler::FnBlockParser;
use liquid_compiler::FnTagParser;
use liquid_compiler::Text;

struct NoFilter;

impl Filter for NoFilter {
    fn filter(&self, _input: &Value, _arguments: &[Value]) -> Result<Value, Error> {
        Ok(Value::Nil)
    }
}

type Opts = LiquidOptions<NullTag, NullBlock>;

struct NullTag;

impl ParseTag<Opts, Comment> for NullTag {
    fn parse(
        &self,
        _tag_name: &str,
        _arguments: &[Token],
        _options: &Opts,
    ) -> Result<Node<Comment>, Error> {
        Ok(Node::Custom(Comment))
    }
}

struct NullBlock;

impl ParseBlock<Opts, Comment> for NullBlock {
    fn parse(
        &self,
        _tag_name: &str,
        _arguments: &[Token],
        _tokens: &[Element],
        _options: &Opts,
    ) -> Result<Node<Comment>, Error> {
        Ok(Node::Custom(Comment))
    }
}

fn null_options() -> Opts {
    LiquidOptions::new()
}

fn block_options() -> Opts {
    let mut options: Opts = LiquidOptions::new();
    options.register_block("comment", NullBlock);
    options.register_block("for", NullBlock);
    options.register_block("if", NullBlock);
    options
}

fn ident(s: &str) -> Token {
    Token::Identifier(s.to_string())
}

fn render_node(node: &Node<Comment>, context: &mut Context<NoFilter>) -> Option<String> {
    node.render(context).unwrap()
}

#[test]
fn string() {
    let tokens = vec![Token::StringLiteral("hey".to_string())];
    let result = parse_expression(&tokens, &null_options()).unwrap();
    let mut context: Context<NoFilter> = Context::new();
    let result = render_node(&result, &mut context);
    assert_eq!(Some("hey".to_string()), result);
}

#[test]
fn object_dot_access() {
    let tokens = vec![ident("post"), Token::Dot, ident("number")];
    let mut context: Context<NoFilter> = Context::new();
    let post = Value::Object(vec![("number".to_string(), Value::of_int(42))]);
    context.set_global("post", post);

    let result = parse_expression(&tokens, &null_options()).unwrap();
    let result = render_node(&result, &mut context);
    assert_eq!(Some("42".to_string()), result);
}

#[test]
fn object_index_access() {
    let tokens = vec![
        ident("post"),
        Token::OpenSquare,
        Token::StringLiteral("number".to_string()),
        Token::CloseSquare,
    ];
    let mut context: Context<NoFilter> = Context::new();
    let post = Value::Object(vec![("number".to_string(), Value::of_int(42))]);
    context.set_global("post", post);

    let result = parse_expression(&tokens, &null_options()).unwrap();
    let result = render_node(&result, &mut context);
    assert_eq!(Some("42".to_string()), result);
}

#[test]
fn object_variable_access() {
    let tokens = vec![
        ident("post"),
        Token::OpenSquare,
        ident("foo"),
        Token::CloseSquare,
    ];
    let mut context: Context<NoFilter> = Context::new();
    let post = Value::Object(vec![("number".to_string(), Value::of_int(42))]);
    context.set_global("post", post);
    context.set_global("foo", Value::of_str("number"));

    let result = parse_expression(&tokens, &null_options()).unwrap();
    let result = render_node(&result, &mut context);
    assert_eq!(Some("42".to_string()), result);
}

#[test]
fn array_index_access() {
    let tokens = vec![
        ident("post"),
        Token::OpenSquare,
        Token::IntegerLiteral(0),
        Token::CloseSquare,
    ];
    let mut context: Context<NoFilter> = Context::new();
    let post = Value::Array(vec![Value::of_int(42)]);
    context.set_global("post", post);

    let result = parse_expression(&tokens, &null_options()).unwrap();
    let result = render_node(&result, &mut context);
    assert_eq!(Some("42".to_string()), result);
}

#[test]
fn mixed_access() {
    let tokens = vec![
        ident("post"),
        Token::Dot,
        ident("child"),
        Token::OpenSquare,
        Token::IntegerLiteral(0),
        Token::CloseSquare,
    ];
    let mut context: Context<NoFilter> = Context::new();
    let post = Value::Object(vec![(
        "child".to_string(),
        Value::Array(vec![Value::of_int(42)]),
    )]);
    context.set_global("post", post);

    let result = parse_expression(&tokens, &null_options()).unwrap();
    let result = render_node(&result, &mut context);
    assert_eq!(Some("42".to_string()), result);
}

fn filter_chain_tokens() -> Vec<Token> {
    vec![
        ident("abc"),
        Token::Pipe,
        ident("def"),
        Token::Colon,
        Token::StringLiteral("1".to_string()),
        Token::Comma,
        Token::FloatLiteral("2.0".to_string()),
        Token::Comma,
        Token::StringLiteral("3".to_string()),
        Token::Pipe,
        ident("blabla"),
    ]
}

#[test]
fn parses_filters() {
    let tokens = filter_chain_tokens();

    let result = parse_output(&tokens);
    assert_eq!(
        result.unwrap(),
        FilterChain::new(
            Expression::Variable(Variable::with_literal("abc")),
            vec![
                FilterCall::new(
                    "def",
                    vec![
                        Expression::Literal(Value::Scalar(Scalar::Str("1".to_string()))),
                        Expression::Literal(Value::Scalar(Scalar::Float("2.0".to_string()))),
                        Expression::Literal(Value::Scalar(Scalar::Str("3".to_string()))),
                    ],
                ),
                FilterCall::new("blabla", vec![]),
            ]
        )
    );
}

#[test]
fn parses_index() {
    let mut tokens = vec![
        ident("abc"),
        Token::OpenSquare,
        Token::IntegerLiteral(0),
        Token::CloseSquare,
    ];
    tokens.extend(filter_chain_tokens().into_iter().skip(1));

    let mut entry = Variable::with_literal("abc");
    entry.push_index(Expression::int_literal(0));

    let result = parse_output(&tokens);
    assert_eq!(
        result.unwrap(),
        FilterChain::new(
            Expression::Variable(entry),
            vec![
                FilterCall::new(
                    "def",
                    vec![
                        Expression::Literal(Value::Scalar(Scalar::Str("1".to_string()))),
                        Expression::Literal(Value::Scalar(Scalar::Float("2.0".to_string()))),
                        Expression::Literal(Value::Scalar(Scalar::Str("3".to_string()))),
                    ],
                ),
                FilterCall::new("blabla", vec![]),
            ]
        )
    );
}

#[test]
fn requires_filter_names() {
    let tokens = vec![
        ident("abc"),
        Token::Pipe,
        Token::StringLiteral("1".to_string()),
        Token::Comma,
        Token::StringLiteral("2".to_string()),
        Token::Comma,
        Token::StringLiteral("3".to_string()),
        Token::Pipe,
        ident("blabla"),
    ];

    let result = parse_output(&tokens);
    assert_eq!(
        result.unwrap_err().to_text(),
        "liquid: Expected identifier, found `1`\n"
    );
}

#[test]
fn fails_on_missing_pipes() {
    let tokens = vec![
        ident("abc"),
        Token::Pipe,
        ident("def"),
        Token::Colon,
        Token::StringLiteral("1".to_string()),
        Token::Comma,
        Token::FloatLiteral("2.0".to_string()),
        Token::Comma,
        Token::StringLiteral("3".to_string()),
        ident("blabla"),
    ];

    let result = parse_output(&tokens);
    assert_eq!(
        result.unwrap_err().to_text(),
        "liquid: Expected `,` | `|`, found `blabla`\n"
    );
}

#[test]
fn fails_on_missing_colons() {
    let tokens = vec![
        ident("abc"),
        Token::Pipe,
        ident("def"),
        Token::StringLiteral("1".to_string()),
        Token::Comma,
        Token::FloatLiteral("2.0".to_string()),
        Token::Comma,
        Token::StringLiteral("3".to_string()),
        Token::Pipe,
        ident("blabla"),
    ];

    let result = parse_output(&tokens);
    assert_eq!(
        result.unwrap_err().to_text(),
        "liquid: Expected `:`, found `1`\n"
    );
}

#[test]
fn rejects_unexpected_token() {
    let token_vec = vec![Token::Pipe, Token::Dot, Token::Colon];
    let mut pos = 0usize;

    assert!(expect(&token_vec, &mut pos, &Token::Pipe).is_ok());
    assert!(expect(&token_vec, &mut pos, &Token::Dot).is_ok());
    assert!(expect(&token_vec, &mut pos, &Token::Comma).is_err());
}

#[test]
fn parse_empty_expression() {
    let elements = vec![Element::Expression(vec![], "{{}}".to_string())];
    let template: Result<Vec<Node<Comment>>, Error> = parse(&elements, &block_options());
    assert!(template.is_err());
}

#[test]
fn handles_nonmatching_stream() {
    // A stream with `else` only in raw text, never as a top-level tag.
    let elements = vec![
        Element::Tag(vec![ident("comment")], "{% comment %}".to_string()),
        Element::Raw("A".to_string()),
        Element::Tag(vec![ident("endcomment")], "{%endcomment%}".to_string()),
        Element::Raw(" bunch of ".to_string()),
        Element::Expression(vec![ident("text")], "{{text}}".to_string()),
        Element::Raw(" with ".to_string()),
        Element::Expression(vec![ident("no")], "{{no}}".to_string()),
        Element::Raw(" else tag".to_string()),
    ];

    let options = block_options();
    let (_, trailing) = split_block(&elements, &["else"], &options);
    assert!(trailing.is_none());
}

#[test]
fn honours_nesting() {
    // Plenty of `else` fragments, but only one at the top level.
    let elements = vec![
        Element::Tag(
            vec![
                ident("for"),
                ident("x"),
                ident("in"),
                Token::OpenRound,
                Token::IntegerLiteral(1),
                Token::DotDot,
                Token::IntegerLiteral(10),
                Token::CloseRound,
            ],
            "{% for x in (1..10) %}".to_string(),
        ),
        Element::Tag(
            vec![
                ident("if"),
                ident("x"),
                Token::Comparison(liquid_compiler::ComparisonOperator::Equals),
                Token::IntegerLiteral(2),
            ],
            "{% if x == 2 %}".to_string(),
        ),
        Element::Tag(
            vec![
                ident("for"),
                ident("y"),
                Token::OpenRound,
                Token::IntegerLiteral(2),
                Token::DotDot,
                Token::IntegerLiteral(10),
                Token::CloseRound,
            ],
            "{% for y (2..10) %}".to_string(),
        ),
        Element::Expression(vec![ident("y")], "{{y}}".to_string()),
        Element::Tag(vec![ident("else")], "{% else %}".to_string()),
        Element::Raw(" zz ".to_string()),
        Element::Tag(vec![ident("endfor")], "{% endfor %}".to_string()),
        Element::Tag(vec![ident("else")], "{% else %}".to_string()),
        Element::Raw("c".to_string()),
        Element::Tag(vec![ident("endif")], "{% endif %}".to_string()),
        Element::Tag(vec![ident("else")], "{% else %}".to_string()),
        Element::Raw("something".to_string()),
        Element::Tag(vec![ident("endfor")], "{% endfor %}".to_string()),
        Element::Tag(vec![ident("else")], "{% else %}".to_string()),
        Element::Raw("trailing tags".to_string()),
    ];

    let options = block_options();
    let (_, trailing) = split_block(&elements, &["else"], &options);
    match trailing {
        Some(split) => {
            assert_eq!(split.delimiter, "else");
            assert_eq!(split.args, &[Token::Identifier("else".to_string())]);
            assert_eq!(
                split.trailing,
                &[
                    Element::Tag(
                        vec![Token::Identifier("else".to_string())],
                        "{% else %}".to_string()
                    ),
                    Element::Raw("trailing tags".to_string())
                ]
            );
        }
        None => panic!("split failed"),
    }
}

#[test]
fn test_comment() {
    let options = null_options();
    let comment = comment_block(
        "comment",
        &[],
        &[Element::Expression(vec![], "This is a test".to_string())],
        &options,
    );
    let mut context: Context<NoFilter> = Context::new();
    assert_eq!(comment.unwrap().render(&mut context).unwrap(), None);
}

#[test]
fn collects_nested_block_body() {
    // open(x) open(x) close(x) close(x) sibling: the collected body for the
    // outer open holds exactly the inner pair, the outer close is consumed,
    // and the sibling is not.
    let elements = vec![
        Element::Tag(vec![ident("for")], "open outer".to_string()),
        Element::Tag(vec![ident("for")], "open inner".to_string()),
        Element::Tag(vec![ident("endfor")], "close inner".to_string()),
        Element::Tag(vec![ident("endfor")], "close outer".to_string()),
        Element::Raw("sibling".to_string()),
    ];
    let mut pos = 1usize;
    let children = collect_block_body(&elements, &mut pos, &ident("for"), &ident("endfor"));
    assert_eq!(children, vec![elements[1].duplicate(), elements[2].duplicate()]);
    assert_eq!(pos, 4);
}

#[test]
fn unregistered_tag_is_unsupported() {
    let elements = vec![Element::Tag(vec![ident("mystery")], "{% mystery %}".to_string())];
    let result: Result<Vec<Node<Comment>>, Error> = parse(&elements, &null_options());
    assert_eq!(
        result.unwrap_err().to_text(),
        "liquid: Tag is not supported\n  with: tag=mystery\n"
    );
}

#[test]
fn empty_expression_fragment_fails() {
    let result = parse_expression(&[], &null_options());
    assert_eq!(
        result.unwrap_err().to_text(),
        "liquid: Expected expression, found `nothing`\n"
    );
}

#[test]
fn reparse_yields_equal_trees() {
    let elements = vec![
        Element::Raw("a".to_string()),
        Element::Expression(
            vec![ident("abc"), Token::Pipe, ident("up")],
            "{{abc | up}}".to_string(),
        ),
        Element::Expression(
            vec![ident("post"), Token::Dot, ident("number")],
            "{{post.number}}".to_string(),
        ),
    ];
    let options = null_options();
    let first: Result<Vec<Node<Comment>>, Error> = parse(&elements, &options);
    let second: Result<Vec<Node<Comment>>, Error> = parse(&elements, &options);
    assert_eq!(first.unwrap(), second.unwrap());
}

#[test]
fn parse_indexes_reads_greedily() {
    // `.child[0]` then a stray pipe: the run stops at the pipe.
    let tokens = vec![
        Token::Dot,
        ident("child"),
        Token::OpenSquare,
        Token::IntegerLiteral(0),
        Token::CloseSquare,
        Token::Pipe,
    ];
    let idxs = parse_indexes(&tokens).unwrap();
    assert_eq!(
        idxs,
        vec![
            Expression::Literal(Value::of_str("child")),
            Expression::Literal(Value::of_int(0)),
        ]
    );
}

#[test]
fn parse_indexes_rejects_bad_field() {
    let tokens = vec![Token::Dot, Token::IntegerLiteral(3)];
    let result = parse_indexes(&tokens);
    assert_eq!(
        result.unwrap_err().to_text(),
        "liquid: Expected identifier, found `3`\n"
    );
}

#[test]
fn parse_indexes_rejects_unclosed_bracket() {
    let tokens = vec![Token::OpenSquare, Token::IntegerLiteral(3), Token::Comma];
    let result = parse_indexes(&tokens);
    assert_eq!(
        result.unwrap_err().to_text(),
        "liquid: Expected `]`, found `,`\n"
    );
}

#[test]
fn parse_indexes_rejects_truncated_bracket() {
    let tokens = vec![Token::OpenSquare, Token::StringLiteral("k".to_string())];
    let result = parse_indexes(&tokens);
    assert_eq!(
        result.unwrap_err().to_text(),
        "liquid: Expected `]`, found `nothing`\n"
    );
}

#[test]
fn value_token_accepts_value_shaped_tokens() {
    assert_eq!(
        value_token(Token::StringLiteral("s".to_string())).unwrap(),
        Token::StringLiteral("s".to_string())
    );
    assert_eq!(value_token(ident("v")).unwrap(), ident("v"));
    assert_eq!(
        value_token(Token::Colon).unwrap_err().to_text(),
        "liquid: Expected string | number | boolean | identifier, found `:`\n"
    );
}

#[test]
fn consume_value_token_advances_cursor() {
    let tokens = vec![ident("v"), Token::Colon];
    let mut pos = 0usize;
    assert_eq!(consume_value_token(&tokens, &mut pos).unwrap(), ident("v"));
    assert_eq!(pos, 1);
    assert!(consume_value_token(&tokens, &mut pos).is_err());
    assert_eq!(pos, 2);
    assert_eq!(
        consume_value_token(&tokens, &mut pos).unwrap_err().to_text(),
        "liquid: Expected string | number | boolean | identifier, found `nothing`\n"
    );
}

fn unit_tag(
    _tag_name: &str,
    _arguments: &[Token],
    _options: &u32,
) -> Result<Node<Comment>, Error> {
    Ok(Node::Custom(Comment))
}

fn unit_block(
    _tag_name: &str,
    _arguments: &[Token],
    _tokens: &[Element],
    _options: &u32,
) -> Result<Node<Comment>, Error> {
    Ok(Node::Custom(Comment))
}

#[test]
fn fn_adapters_dispatch_plain_functions() {
    let t = FnTagParser::new(
        unit_tag as fn(&str, &[Token], &u32) -> Result<Node<Comment>, Error>,
    );
    assert_eq!(t.parse("x", &[], &0u32).unwrap(), Node::Custom(Comment));
    let b = FnBlockParser::new(
        unit_block as fn(&str, &[Token], &[Element], &u32) -> Result<Node<Comment>, Error>,
    );
    assert_eq!(b.parse("x", &[], &[], &0u32).unwrap(), Node::Custom(Comment));
}

#[test]
fn trailing_comma_in_filter_args_is_allowed() {
    let tokens = vec![
        ident("abc"),
        Token::Pipe,
        ident("def"),
        Token::Colon,
        Token::StringLiteral("1".to_string()),
        Token::Comma,
    ];
    let result = parse_output(&tokens).unwrap();
    assert_eq!(
        result,
        FilterChain::new(
            Expression::Variable(Variable::with_literal("abc")),
            vec![FilterCall::new(
                "def",
                vec![Expression::Literal(Value::of_str("1"))],
            )],
        )
    );
}

#[test]
fn lone_trailing_dot_is_rejected() {
    let tokens = vec![Token::Dot];
    assert_eq!(
        parse_indexes(&tokens).unwrap_err().to_text(),
        "liquid: Expected identifier, found `nothing`\n"
    );
}

#[test]
fn literal_entry_ignores_tokens_before_pipe() {
    let tokens = vec![
        Token::StringLiteral("v".to_string()),
        Token::Dash,
        Token::Pipe,
        ident("up"),
    ];
    let result = parse_output(&tokens).unwrap();
    assert_eq!(
        result,
        FilterChain::new(
            Expression::Literal(Value::of_str("v")),
            vec![FilterCall::new("up", vec![])],
        )
    );
}

#[test]
fn raw_fragments_parse_under_any_registry() {
    let elements = vec![Element::Raw("a".to_string()), Element::Raw("b".to_string())];
    let result: Result<Vec<Node<Comment>>, Error> = parse(&elements, &block_options());
    assert_eq!(
        result.unwrap(),
        vec![Node::Text(Text::new("a")), Node::Text(Text::new("b"))]
    );
}

#[test]
fn empty_stream_parses_to_empty_tree() {
    let elements: Vec<Element> = vec![];
    let result: Result<Vec<Node<Comment>>, Error> = parse(&elements, &block_options());
    assert_eq!(result.unwrap(), vec![]);
}
