//! Conditions written as Rust expressions on an assembly function, turned
//! into symbolic expressions and comparisons.
use vstd::prelude::*;
use crate::common::{
    generate_comparison, generate_expression, int_text, int_text_spec, AbstractComparison,
    AbstractExpression, ComparisonModel, ExprModel,
};

verus! {

/// The binary operators of a condition.
#[derive(Debug, Clone, Copy, PartialEq, Eq, Structural)]
pub enum BinOp {
    Add,
    Sub,
    Mul,
    Div,
    Eq,
    Ne,
    Lt,
    Le,
    Gt,
    Ge,
    Other,
}

/// The member that a field expression names.
#[derive(Debug, Clone, PartialEq)]
pub enum Member {
    Named(String),
    Unnamed(u32),
}

/// A Rust expression in a condition, as far as its conversion reads it.
#[derive(Debug)]
pub enum SourceExpr {
    /// A string literal, by its value.
    StrLit(String),
    /// An integer literal, by its base-10 digits.
    IntLit(String),
    /// Any other literal.
    OtherLit,
    Binary(BinOp, Box<SourceExpr>, Box<SourceExpr>),
    /// A method call: the first segment of the receiver where it is a
    /// path, and the method's name.
    MethodCall(Option<String>, String),
    /// A path, by its first segment.
    Path(String),
    /// A field access: the first segment of the base where it is a path,
    /// and the member.
    Field(Option<String>, Member),
    Other,
}

/// The operator text of an arithmetic operator.
pub open spec fn arith_op_text(op: BinOp) -> Option<Seq<char>> {
    match op {
        BinOp::Add => Some(seq!['+']),
        BinOp::Sub => Some(seq!['-']),
        BinOp::Div => Some(seq!['/']),
        BinOp::Mul => Some(seq!['*']),
        _ => None,
    }
}

/// The operator text of a comparison operator.
pub open spec fn cmp_op_text(op: BinOp) -> Option<Seq<char>> {
    match op {
        BinOp::Eq => Some(seq!['=', '=']),
        BinOp::Lt => Some(seq!['<']),
        BinOp::Le => Some(seq!['<', '=']),
        BinOp::Ne => Some(seq!['!', '=']),
        BinOp::Ge => Some(seq!['>', '=']),
        BinOp::Gt => Some(seq!['>']),
        _ => None,
    }
}

/// The suffix that a method call adds to its receiver's name.
pub open spec fn method_suffix(method: Seq<char>) -> Seq<char> {
    if method == "len"@ {
        "_len"@
    } else if method == "as_ptr"@ {
        "_as_ptr"@
    } else if method == "as_mut_ptr"@ {
        "_as_mut_ptr"@
    } else {
        Seq::empty()
    }
}

/// The text of a field's member: its name, or its index in decimal.
pub open spec fn member_text(m: Member) -> Seq<char> {
    match m {
        Member::Named(n) => n@,
        Member::Unnamed(i) => int_text_spec(i as i64),
    }
}

/// The expression can be converted: its integer literals fit in `i64`,
/// its operators are arithmetic, and each field access is on a path.
pub open spec fn convertible(e: SourceExpr) -> bool
    decreases e,
{
    match e {
        SourceExpr::StrLit(_) => true,
        SourceExpr::IntLit(d) => crate::text::parse_i64(d@) is Some,
        SourceExpr::Binary(op, l, r) => arith_op_text(op) is Some && convertible(*l) && convertible(*r),
        SourceExpr::MethodCall(_, _) => true,
        SourceExpr::Path(_) => true,
        SourceExpr::Field(base, _) => base is Some,
        _ => false,
    }
}

/// The symbolic expression of a condition's expression: a string literal
/// is a symbol of its value, an integer literal a number, an arithmetic
/// operation an expression; a path is a symbol of its first segment, a
/// method call `v.len()`, `v.as_ptr()` or `v.as_mut_ptr()` the symbol `v`
/// with `_len`, `_as_ptr` or `_as_mut_ptr` added, and a field `v.f` the
/// symbol `v_fieldf`.
pub open spec fn expr_model(e: SourceExpr) -> ExprModel
    decreases e,
{
    match e {
        SourceExpr::StrLit(s) => ExprModel::Abstract(s@),
        SourceExpr::IntLit(d) => ExprModel::Immediate(crate::text::parse_i64(d@)->0),
        SourceExpr::Binary(op, l, r) => ExprModel::Expression(
            arith_op_text(op)->0,
            Box::new(expr_model(*l)),
            Box::new(expr_model(*r)),
        ),
        SourceExpr::MethodCall(recv, m) => ExprModel::Abstract(
            (match recv {
                Some(v) => v@,
                None => Seq::empty(),
            }) + method_suffix(m@),
        ),
        SourceExpr::Path(p) => ExprModel::Abstract(p@),
        SourceExpr::Field(base, m) => ExprModel::Abstract(base->0@ + "_field"@ + member_text(m)),
        _ => ExprModel::Empty,
    }
}

/// Whether `a` spells `lit`.
fn str_is(a: &String, lit: &str) -> (r: bool)
    ensures
        r == (a@ == lit@),
{
    let x = crate::text::to_chars(a.as_str());
    let y = crate::text::to_chars(lit);
    crate::text::eq_chars(x.as_slice(), y.as_slice())
}

/// The symbolic expression of `input` (see `expr_model`).
pub fn syn_expr_to_abstract_expression(input: &SourceExpr) -> (r: AbstractExpression)
    requires
        convertible(*input),
    ensures
        r@ == expr_model(*input),
    decreases input, 1nat,
{
    match input {
        SourceExpr::StrLit(s) => AbstractExpression::Abstract(s.clone()),
        SourceExpr::IntLit(d) => {
            let chars = crate::text::to_chars(d.as_str());
            match crate::text::parse_i64_exec(chars.as_slice()) {
                Some(v) => AbstractExpression::Immediate(v),
                None => AbstractExpression::Immediate(0),
            }
        },
        SourceExpr::Binary(..) => binary_to_abstract_expression(input),
        SourceExpr::MethodCall(recv, method) => {
            let mut var_name = match recv {
                Some(v) => v.clone(),
                None => String::new(),
            };
            proof {
                reveal_strlit("len");
                reveal_strlit("as_ptr");
                reveal_strlit("as_mut_ptr");
                reveal_strlit("_len");
                reveal_strlit("_as_ptr");
                reveal_strlit("_as_mut_ptr");
            }
            if str_is(method, "len") {
                var_name.append("_len");
            } else if str_is(method, "as_ptr") {
                var_name.append("_as_ptr");
            } else if str_is(method, "as_mut_ptr") {
                var_name.append("_as_mut_ptr");
            }
            proof {
                let base = match recv {
                    Some(v) => v@,
                    None => Seq::<char>::empty(),
                };
                assert(var_name@ =~= base + method_suffix(method@));
            }
            AbstractExpression::Abstract(var_name)
        },
        SourceExpr::Path(p) => AbstractExpression::Abstract(p.clone()),
        SourceExpr::Field(base, member) => {
            let mut new_name = match base {
                Some(b) => b.clone(),
                None => String::new(),
            };
            new_name.append("_field");
            match member {
                Member::Named(n) => new_name.append(n.as_str()),
                Member::Unnamed(i) => {
                    let idx = int_text(*i as i64);
                    new_name.append(idx.as_str());
                },
            }
            AbstractExpression::Abstract(new_name)
        },
        _ => AbstractExpression::Empty,
    }
}

/// The symbolic expression `left op right` of an arithmetic operation
/// `input`.
pub fn binary_to_abstract_expression(input: &SourceExpr) -> (r: AbstractExpression)
    requires
        input is Binary,
        convertible(*input),
    ensures
        r@ == expr_model(*input),
    decreases input, 0nat,
{
    match input {
        SourceExpr::Binary(op, left, right) => {
            let left_expr = syn_expr_to_abstract_expression(left);
            let right_expr = syn_expr_to_abstract_expression(right);
            proof {
                reveal_strlit("+");
                reveal_strlit("-");
                reveal_strlit("/");
                reveal_strlit("*");
                assert("+"@ =~= seq!['+']);
                assert("-"@ =~= seq!['-']);
                assert("/"@ =~= seq!['/']);
                assert("*"@ =~= seq!['*']);
            }
            match op {
                BinOp::Add => generate_expression("+", left_expr, right_expr),
                BinOp::Sub => generate_expression("-", left_expr, right_expr),
                BinOp::Div => generate_expression("/", left_expr, right_expr),
                _ => generate_expression("*", left_expr, right_expr),
            }
        },
        _ => AbstractExpression::Empty,
    }
}

/// The condition is a comparison of two convertible expressions.
pub open spec fn comparison_convertible(e: SourceExpr) -> bool {
    match e {
        SourceExpr::Binary(op, l, r) => cmp_op_text(op) is Some && convertible(*l) && convertible(*r),
        _ => false,
    }
}

/// The comparison of a condition `left op right`.
pub open spec fn comparison_model(e: SourceExpr) -> ComparisonModel {
    match e {
        SourceExpr::Binary(op, l, r) => ComparisonModel {
            op: cmp_op_text(op)->0,
            left: expr_model(*l),
            right: expr_model(*r),
        },
        _ => ComparisonModel { op: Seq::empty(), left: ExprModel::Empty, right: ExprModel::Empty },
    }
}

/// The comparison `left op right` of a condition `input`.
pub fn binary_to_abstract_comparison(input: &SourceExpr) -> (r: AbstractComparison)
    requires
        comparison_convertible(*input),
    ensures
        r@ == comparison_model(*input),
{
    match input {
        SourceExpr::Binary(op, left, right) => {
            let left_expr = syn_expr_to_abstract_expression(left);
            let right_expr = syn_expr_to_abstract_expression(right);
            proof {
                reveal_strlit("==");
                reveal_strlit("<");
                reveal_strlit("<=");
                reveal_strlit("!=");
                reveal_strlit(">=");
                reveal_strlit(">");
                assert("=="@ =~= seq!['=', '=']);
                assert("<"@ =~= seq!['<']);
                assert("<="@ =~= seq!['<', '=']);
                assert("!="@ =~= seq!['!', '=']);
                assert(">="@ =~= seq!['>', '=']);
                assert(">"@ =~= seq!['>']);
            }
            match op {
                BinOp::Eq => generate_comparison("==", left_expr, right_expr),
                BinOp::Lt => generate_comparison("<", left_expr, right_expr),
                BinOp::Le => generate_comparison("<=", left_expr, right_expr),
                BinOp::Ne => generate_comparison("!=", left_expr, right_expr),
                BinOp::Ge => generate_comparison(">=", left_expr, right_expr),
                _ => generate_comparison(">", left_expr, right_expr),
            }
        },
        _ => generate_comparison("==", AbstractExpression::Empty, AbstractExpression::Empty),
    }
}

} // verus!
