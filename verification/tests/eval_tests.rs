use liquid_compiler::{
    Context, Error, Expression, Filter, FilterPrototype, Output, Scalar, Value, Variable,
};

/// Appends its marker to the running value's text, recording call order.
struct AppendFilter {
    marker: String,
}

impl Filter for AppendFilter {
    fn filter(&self, input: &Value, _arguments: &[Value]) -> Result<Value, Error> {
        let mut text = input.to_text();
        text.push_str(&self.marker);
        Ok(Value::Scalar(Scalar::Str(text)))
    }
}

/// Always fails, with its own message.
struct FailingFilter;

impl Filter for FailingFilter {
    fn filter(&self, _input: &Value, _arguments: &[Value]) -> Result<Value, Error> {
        Err(Error::with_msg("broken".to_string()))
    }
}

fn entry_var(name: &str) -> Expression {
    Expression::Variable(Variable::with_literal(name))
}

#[test]
fn chain_with_no_filters_evaluates_entry() {
    let mut ctx: Context<AppendFilter> = Context::new();
    ctx.set_global("abc", Value::of_str("base"));
    let chain = Output::new(entry_var("abc"), vec![]);
    assert_eq!(chain.apply_filters(&ctx).unwrap(), Value::of_str("base"));
}

#[test]
fn filters_apply_left_to_right() {
    let mut ctx: Context<AppendFilter> = Context::new();
    ctx.set_global("abc", Value::of_str("x"));
    ctx.add_filter("def", AppendFilter { marker: "D".to_string() });
    ctx.add_filter("blabla", AppendFilter { marker: "B".to_string() });

    let chain = Output::new(
        entry_var("abc"),
        vec![
            FilterPrototype::new("def", vec![]),
            FilterPrototype::new("blabla", vec![]),
        ],
    );
    assert_eq!(chain.apply_filters(&ctx).unwrap(), Value::of_str("xDB"));

    let reordered = Output::new(
        entry_var("abc"),
        vec![
            FilterPrototype::new("blabla", vec![]),
            FilterPrototype::new("def", vec![]),
        ],
    );
    assert_eq!(reordered.apply_filters(&ctx).unwrap(), Value::of_str("xBD"));
}

#[test]
fn missing_filter_is_unsupported() {
    let mut ctx: Context<AppendFilter> = Context::new();
    ctx.set_global("abc", Value::of_str("x"));
    let chain = Output::new(entry_var("abc"), vec![FilterPrototype::new("nope", vec![])]);
    assert_eq!(
        chain.apply_filters(&ctx).unwrap_err().to_text(),
        "liquid: Unsupported filter\n  with: filter=nope\n"
    );
}

#[test]
fn failing_filter_is_wrapped() {
    let mut ctx: Context<FailingFilter> = Context::new();
    ctx.set_global("abc", Value::of_str("x"));
    ctx.add_filter("bad", FailingFilter);
    let chain = Output::new(entry_var("abc"), vec![FilterPrototype::new("bad", vec![])]);
    assert_eq!(
        chain.apply_filters(&ctx).unwrap_err().to_text(),
        "liquid: Filter error\ncause: liquid: broken\n"
    );
}

#[test]
fn unknown_variable_fails_evaluation() {
    let ctx: Context<FailingFilter> = Context::new();
    let err = entry_var("ghost").evaluate(&ctx).unwrap_err();
    assert_eq!(
        err.to_text(),
        "liquid: Unknown variable\n  with: variable=ghost\n"
    );
}

#[test]
fn out_of_range_index_fails() {
    let mut ctx: Context<FailingFilter> = Context::new();
    ctx.set_global("arr", Value::Array(vec![Value::of_int(1)]));
    let mut var = Variable::with_literal("arr");
    var.push_index(Expression::int_literal(5));
    let err = Expression::Variable(var).evaluate(&ctx).unwrap_err();
    assert_eq!(err.to_text(), "liquid: Unknown index\n  with: index=5\n");
}

#[test]
fn negative_index_counts_from_end() {
    let mut ctx: Context<FailingFilter> = Context::new();
    ctx.set_global(
        "arr",
        Value::Array(vec![Value::of_int(1), Value::of_int(2), Value::of_int(3)]),
    );
    let mut var = Variable::with_literal("arr");
    var.push_index(Expression::int_literal(-1));
    assert_eq!(
        Expression::Variable(var).evaluate(&ctx).unwrap(),
        Value::of_int(3)
    );
}

#[test]
fn later_binding_shadows_earlier() {
    let mut ctx: Context<FailingFilter> = Context::new();
    ctx.set_global("x", Value::of_int(1));
    ctx.set_global("x", Value::of_int(2));
    assert_eq!(entry_var("x").evaluate(&ctx).unwrap(), Value::of_int(2));
}

#[test]
fn filter_arguments_are_evaluated() {
    // An unknown variable inside an argument list fails the chain before
    // the filter runs.
    let mut ctx: Context<AppendFilter> = Context::new();
    ctx.set_global("abc", Value::of_str("x"));
    ctx.add_filter("def", AppendFilter { marker: "D".to_string() });
    let chain = Output::new(
        entry_var("abc"),
        vec![FilterPrototype::new("def", vec![entry_var("ghost")])],
    );
    assert_eq!(
        chain.apply_filters(&ctx).unwrap_err().to_text(),
        "liquid: Unknown variable\n  with: variable=ghost\n"
    );
}
