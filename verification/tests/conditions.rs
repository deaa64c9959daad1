use bums::common::{generate_comparison, generate_expression, AbstractExpression};
use bums::conditions::{
    binary_to_abstract_comparison, binary_to_abstract_expression, syn_expr_to_abstract_expression, BinOp, Member,
    SourceExpr,
};

fn abs(name: &str) -> AbstractExpression {
    AbstractExpression::Abstract(name.to_string())
}

fn boxed(e: SourceExpr) -> Box<SourceExpr> {
    Box::new(e)
}

#[test]
fn round_count_bound_becomes_a_comparison() {
    // keys.1 >= 10
    let cond = SourceExpr::Binary(
        BinOp::Ge,
        boxed(SourceExpr::Field(Some("keys".to_string()), Member::Unnamed(1))),
        boxed(SourceExpr::IntLit("10".to_string())),
    );
    let c = binary_to_abstract_comparison(&cond);
    assert_eq!(c, generate_comparison(">=", abs("keys_field1"), AbstractExpression::Immediate(10)));
}

#[test]
fn lengths_of_slices_become_symbols() {
    // input.len() == output.len()
    let cond = SourceExpr::Binary(
        BinOp::Eq,
        boxed(SourceExpr::MethodCall(Some("input".to_string()), "len".to_string())),
        boxed(SourceExpr::MethodCall(Some("output".to_string()), "len".to_string())),
    );
    let c = binary_to_abstract_comparison(&cond);
    assert_eq!(c, generate_comparison("==", abs("input_len"), abs("output_len")));
}

#[test]
fn pointers_paths_and_named_fields() {
    let p = syn_expr_to_abstract_expression(&SourceExpr::MethodCall(Some("a".to_string()), "as_mut_ptr".to_string()));
    assert_eq!(p, abs("a_as_mut_ptr"));
    let q = syn_expr_to_abstract_expression(&SourceExpr::MethodCall(Some("a".to_string()), "iter".to_string()));
    assert_eq!(q, abs("a"));
    let r = syn_expr_to_abstract_expression(&SourceExpr::Path("len".to_string()));
    assert_eq!(r, abs("len"));
    let f = syn_expr_to_abstract_expression(&SourceExpr::Field(Some("key".to_string()), Member::Named("rounds".to_string())));
    assert_eq!(f, abs("key_fieldrounds"));
    let s = syn_expr_to_abstract_expression(&SourceExpr::StrLit("base".to_string()));
    assert_eq!(s, abs("base"));
}

#[test]
fn arithmetic_becomes_an_expression() {
    // input.len() / 16 - 1
    let e = SourceExpr::Binary(
        BinOp::Sub,
        boxed(SourceExpr::Binary(
            BinOp::Div,
            boxed(SourceExpr::MethodCall(Some("input".to_string()), "len".to_string())),
            boxed(SourceExpr::IntLit("16".to_string())),
        )),
        boxed(SourceExpr::IntLit("1".to_string())),
    );
    let x = binary_to_abstract_expression(&e);
    assert_eq!(
        x,
        generate_expression(
            "-",
            generate_expression("/", abs("input_len"), AbstractExpression::Immediate(16)),
            AbstractExpression::Immediate(1)
        )
    );
}
