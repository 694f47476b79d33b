use liquid_compiler::{
    Context, Error, Expression, Filter, Scalar, Token, Value,
};

struct NoFilter;

impl Filter for NoFilter {
    fn filter(&self, _input: &Value, _arguments: &[Value]) -> Result<Value, Error> {
        Ok(Value::Nil)
    }
}

fn eval(e: Expression, ctx: &Context<NoFilter>) -> Result<Value, Error> {
    e.evaluate(ctx)
}

#[test]
fn evaluate_handles_string_literals() {
    let ctx: Context<NoFilter> = Context::new();
    let t = Token::StringLiteral("hello".to_string());
    assert_eq!(
        eval(t.to_arg().unwrap(), &ctx).unwrap(),
        Value::of_str("hello")
    );
}

#[test]
fn evaluate_handles_number_literals() {
    let ctx: Context<NoFilter> = Context::new();
    assert_eq!(
        eval(Token::FloatLiteral("42".to_string()).to_arg().unwrap(), &ctx).unwrap(),
        Value::of_float_text("42")
    );

    let ctx: Context<NoFilter> = Context::new();
    assert_eq!(
        eval(Token::IntegerLiteral(42).to_arg().unwrap(), &ctx).unwrap(),
        Value::of_int(42)
    );
}

#[test]
fn evaluate_handles_boolean_literals() {
    let ctx: Context<NoFilter> = Context::new();
    assert_eq!(
        eval(Token::BooleanLiteral(true).to_arg().unwrap(), &ctx).unwrap(),
        Value::of_bool(true)
    );

    assert_eq!(
        eval(Token::BooleanLiteral(false).to_arg().unwrap(), &ctx).unwrap(),
        Value::of_bool(false)
    );
}

#[test]
fn evaluate_handles_identifiers() {
    let mut ctx: Context<NoFilter> = Context::new();
    ctx.set_global("var0", Value::of_float_text("42"));
    assert_eq!(
        eval(Token::Identifier("var0".to_string()).to_arg().unwrap(), &ctx).unwrap(),
        Value::of_float_text("42")
    );
    assert!(eval(Token::Identifier("nope".to_string()).to_arg().unwrap(), &ctx).is_err());
}

#[test]
fn evaluate_returns_none_on_invalid_token() {
    assert!(Token::DotDot.to_arg().is_err());
}

#[test]
fn to_arg_splits_dotted_identifiers() {
    let arg = Token::Identifier("post.number".to_string()).to_arg().unwrap();
    let mut ctx: Context<NoFilter> = Context::new();
    let post = Value::Object(vec![("number".to_string(), Value::of_int(42))]);
    ctx.set_global("post", post);
    assert_eq!(arg.evaluate(&ctx).unwrap(), Value::of_int(42));
}

#[test]
fn to_value_accepts_literals_only() {
    assert_eq!(
        Token::StringLiteral("x".to_string()).to_value().unwrap(),
        Value::of_str("x")
    );
    assert_eq!(Token::IntegerLiteral(-7).to_value().unwrap(), Value::of_int(-7));
    assert_eq!(Token::BooleanLiteral(true).to_value().unwrap(), Value::of_bool(true));
    let err = Token::Identifier("x".to_string()).to_value().unwrap_err();
    assert_eq!(
        err.to_text(),
        "liquid: Expected string | number | boolean, found `x`\n"
    );
}

#[test]
fn token_display_forms() {
    assert_eq!(Token::Pipe.to_text(), "|");
    assert_eq!(Token::DotDot.to_text(), "..");
    assert_eq!(Token::IntegerLiteral(-42).to_text(), "-42");
    assert_eq!(Token::IntegerLiteral(0).to_text(), "0");
    assert_eq!(Token::IntegerLiteral(2147483647).to_text(), "2147483647");
    assert_eq!(Token::IntegerLiteral(-2147483648).to_text(), "-2147483648");
    assert_eq!(Token::FloatLiteral("2.5".to_string()).to_text(), "2.5");
    assert_eq!(Token::BooleanLiteral(false).to_text(), "false");
    assert_eq!(
        Token::Comparison(liquid_compiler::ComparisonOperator::NotEquals).to_text(),
        "!="
    );
    assert_eq!(Token::Identifier("name".to_string()).to_text(), "name");
}

#[test]
fn scalar_and_value_display() {
    assert_eq!(Scalar::Int(-3).to_text(), "-3");
    assert_eq!(Scalar::Bool(true).to_text(), "true");
    assert_eq!(Value::Nil.to_text(), "");
    let arr = Value::Array(vec![Value::of_int(1), Value::of_int(2), Value::of_str("x")]);
    assert_eq!(arr.to_text(), "1, 2, x");
    let obj = Value::Object(vec![
        ("a".to_string(), Value::of_int(1)),
        ("b".to_string(), Value::of_str("y")),
    ]);
    assert_eq!(obj.to_text(), "1, y");
}

#[test]
fn error_text_with_context_and_cause() {
    let inner = Error::with_msg("boom".to_string());
    let outer = Error::wrap("Filter error", inner);
    assert_eq!(outer.to_text(), "liquid: Filter error\ncause: liquid: boom\n");
    let with_ctx = Error::with_msg("Unsupported filter".to_string())
        .context("filter", "upcase".to_string());
    assert_eq!(
        with_ctx.to_text(),
        "liquid: Unsupported filter\n  with: filter=upcase\n"
    );
}
