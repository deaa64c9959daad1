//! The calls into the Z3 solver that the memory-safety check makes. Terms
//! and solvers are Z3's own values; each is described by a model: the
//! formula a term stands for, the context it belongs to, and the formulas a
//! solver holds.
use vstd::prelude::*;
use crate::common::ExprModel;
use z3::ast::{Ast, Bool, Int};
use z3::{Context, SatResult, Solver};

verus! {

#[verifier::external_type_specification]
#[verifier::external_body]
pub struct ExContext(Context);

#[verifier::external_type_specification]
#[verifier::external_body]
pub struct ExSolver<'ctx>(Solver<'ctx>);

#[verifier::external_type_specification]
#[verifier::external_body]
pub struct ExInt<'ctx>(Int<'ctx>);

#[verifier::external_type_specification]
#[verifier::external_body]
pub struct ExBool<'ctx>(Bool<'ctx>);

/// The answer of a satisfiability query.
#[derive(Debug, Clone, Copy, PartialEq, Eq, Structural)]
pub enum Satisfiability {
    Unsat,
    Unknown,
    Sat,
}

/// A Z3 truth term as a formula: a comparison `op` of two integer terms,
/// or the conjunction or disjunction of two formulas.
pub enum BoolModel {
    Cmp(Seq<char>, ExprModel, ExprModel),
    And(Box<BoolModel>, Box<BoolModel>),
    Or(Box<BoolModel>, Box<BoolModel>),
}

/// The integer term that a Z3 term stands for.
pub uninterp spec fn int_term(t: &Int) -> ExprModel;

/// The formula that a Z3 truth term stands for.
pub uninterp spec fn bool_term(t: &Bool) -> BoolModel;

/// Whether the integer term `t` belongs to the context `c`.
pub uninterp spec fn int_in(t: &Int, c: &Context) -> bool;

/// Whether the truth term `t` belongs to the context `c`.
pub uninterp spec fn bool_in(t: &Bool, c: &Context) -> bool;

/// Whether the solver `s` belongs to the context `c`.
pub uninterp spec fn solver_in(s: &Solver, c: &Context) -> bool;

/// The formulas asserted to the solver `s`, in order.
pub uninterp spec fn solver_facts(s: &Solver) -> Seq<BoolModel>;

/// The value of an integer term where each constant `n` is `env(n)`, for
/// numbers, constants, `+`, `-` and `*`; none for any other term.
pub open spec fn term_value(e: ExprModel, env: spec_fn(Seq<char>) -> int) -> Option<int>
    decreases e,
{
    match e {
        ExprModel::Immediate(v) => Some(v as int),
        ExprModel::Abstract(n) => Some(env(n)),
        ExprModel::Expression(op, a, b) => match (term_value(*a, env), term_value(*b, env)) {
            (Some(x), Some(y)) => if op == seq!['+'] {
                Some(x + y)
            } else if op == seq!['-'] {
                Some(x - y)
            } else if op == seq!['*'] {
                Some(x * y)
            } else {
                None
            },
            _ => None,
        },
        _ => None,
    }
}

/// The truth of a formula where each constant `n` is `env(n)`, for
/// comparisons `< <= > >=` of terms that `term_value` covers, and their
/// conjunctions and disjunctions; none for any other formula.
pub open spec fn formula_value(f: BoolModel, env: spec_fn(Seq<char>) -> int) -> Option<bool>
    decreases f,
{
    match f {
        BoolModel::Cmp(op, a, b) => match (term_value(a, env), term_value(b, env)) {
            (Some(x), Some(y)) => if op == seq!['<'] {
                Some(x < y)
            } else if op == seq!['<', '='] {
                Some(x <= y)
            } else if op == seq!['>'] {
                Some(x > y)
            } else if op == seq!['>', '='] {
                Some(x >= y)
            } else {
                None
            },
            _ => None,
        },
        BoolModel::And(a, b) => match (formula_value(*a, env), formula_value(*b, env)) {
            (Some(x), Some(y)) => Some(x && y),
            _ => None,
        },
        BoolModel::Or(a, b) => match (formula_value(*a, env), formula_value(*b, env)) {
            (Some(x), Some(y)) => Some(x || y),
            _ => None,
        },
    }
}

/// Every formula of `fs` holds where each constant `n` is `env(n)`.
pub open spec fn all_hold(fs: Seq<BoolModel>, env: spec_fn(Seq<char>) -> int) -> bool {
    forall|i: int| 0 <= i < fs.len() ==> formula_value(#[trigger] fs[i], env) == Some(true)
}

/// No assignment of the constants that makes every formula of `fs` hold
/// makes `f` hold.
pub open spec fn refuted_by(fs: Seq<BoolModel>, f: BoolModel) -> bool {
    forall|env: spec_fn(Seq<char>) -> int| all_hold(fs, env) ==> formula_value(f, env) != Some(true)
}

/// A name Z3 can take as a constant: it holds no NUL character.
pub open spec fn z3_name(name: Seq<char>) -> bool {
    !name.contains('\0')
}

/// `Solver::new`: a solver in `ctx` with no assertions.
#[verifier::external_body]
pub(crate) fn new_solver<'ctx>(ctx: &'ctx Context) -> (r: Solver<'ctx>)
    ensures
        solver_in(&r, ctx),
        solver_facts(&r) == Seq::<BoolModel>::empty(),
{
    Solver::new(ctx)
}

/// `Solver::assert`: adds `c` to the solver's assertions.
#[verifier::external_body]
pub(crate) fn solver_assert<'ctx>(solver: &mut Solver<'ctx>, c: &Bool<'ctx>, ctx: &'ctx Context)
    requires
        solver_in(old(solver), ctx),
        bool_in(c, ctx),
    ensures
        solver_in(final(solver), ctx),
        solver_facts(final(solver)) == solver_facts(old(solver)).push(bool_term(c)),
{
    solver.assert(c)
}

/// `Solver::check_assumptions` with the one assumption `c`: whether the
/// solver's assertions together with `c` can hold. Z3 answers `Unsat` only
/// where no assignment of the constants makes them all hold; where it
/// answers otherwise, nothing is stated.
#[verifier::external_body]
pub(crate) fn check_with<'ctx>(solver: &Solver<'ctx>, c: &Bool<'ctx>, ctx: &'ctx Context) -> (r: Satisfiability)
    requires
        solver_in(solver, ctx),
        bool_in(c, ctx),
    ensures
        r == Satisfiability::Unsat ==> refuted_by(solver_facts(solver), bool_term(c)),
{
    match solver.check_assumptions(&[c.clone()]) {
        SatResult::Unsat => Satisfiability::Unsat,
        SatResult::Unknown => Satisfiability::Unknown,
        SatResult::Sat => Satisfiability::Sat,
    }
}

/// `Int::from_i64`: the integer `v`.
#[verifier::external_body]
pub(crate) fn int_value<'ctx>(ctx: &'ctx Context, v: i64) -> (r: Int<'ctx>)
    ensures
        int_in(&r, ctx),
        int_term(&r) == ExprModel::Immediate(v),
{
    Int::from_i64(ctx, v)
}

/// `Int::new_const`: the integer constant named `name`.
#[verifier::external_body]
pub(crate) fn int_const<'ctx>(ctx: &'ctx Context, name: &str) -> (r: Int<'ctx>)
    requires
        z3_name(name@),
    ensures
        int_in(&r, ctx),
        int_term(&r) == ExprModel::Abstract(name@),
{
    Int::new_const(ctx, name)
}

/// `Int::add` of two terms: `a + b`.
#[verifier::external_body]
pub(crate) fn int_add<'ctx>(ctx: &'ctx Context, a: &Int<'ctx>, b: &Int<'ctx>) -> (r: Int<'ctx>)
    requires
        int_in(a, ctx),
        int_in(b, ctx),
    ensures
        int_in(&r, ctx),
        int_term(&r) == ExprModel::Expression(seq!['+'], Box::new(int_term(a)), Box::new(int_term(b))),
{
    Int::add(ctx, &[a, b])
}

/// `Int::sub` of two terms: `a - b`.
#[verifier::external_body]
pub(crate) fn int_sub<'ctx>(ctx: &'ctx Context, a: &Int<'ctx>, b: &Int<'ctx>) -> (r: Int<'ctx>)
    requires
        int_in(a, ctx),
        int_in(b, ctx),
    ensures
        int_in(&r, ctx),
        int_term(&r) == ExprModel::Expression(seq!['-'], Box::new(int_term(a)), Box::new(int_term(b))),
{
    Int::sub(ctx, &[a, b])
}

/// `Int::mul` of two terms: `a * b`.
#[verifier::external_body]
pub(crate) fn int_mul<'ctx>(ctx: &'ctx Context, a: &Int<'ctx>, b: &Int<'ctx>) -> (r: Int<'ctx>)
    requires
        int_in(a, ctx),
        int_in(b, ctx),
    ensures
        int_in(&r, ctx),
        int_term(&r) == ExprModel::Expression(seq!['*'], Box::new(int_term(a)), Box::new(int_term(b))),
{
    Int::mul(ctx, &[a, b])
}

/// `Int::div`: a / b.
#[verifier::external_body]
pub(crate) fn int_div<'ctx>(ctx: &'ctx Context, a: &Int<'ctx>, b: &Int<'ctx>) -> (r: Int<'ctx>)
    requires
        int_in(a, ctx),
        int_in(b, ctx),
    ensures
        int_in(&r, ctx),
        int_term(&r) == ExprModel::Expression(seq!['/'], Box::new(int_term(a)), Box::new(int_term(b))),
{
    a.div(b)
}

/// `Int::modulo`: a mod b.
#[verifier::external_body]
pub(crate) fn int_modulo<'ctx>(ctx: &'ctx Context, a: &Int<'ctx>, b: &Int<'ctx>) -> (r: Int<'ctx>)
    requires
        int_in(a, ctx),
        int_in(b, ctx),
    ensures
        int_in(&r, ctx),
        int_term(&r) == ExprModel::Expression(seq!['%'], Box::new(int_term(a)), Box::new(int_term(b))),
{
    a.modulo(b)
}

/// `Int::power`: `a` to the power `b`.
#[verifier::external_body]
pub(crate) fn int_power<'ctx>(ctx: &'ctx Context, a: &Int<'ctx>, b: &Int<'ctx>) -> (r: Int<'ctx>)
    requires
        int_in(a, ctx),
        int_in(b, ctx),
    ensures
        int_in(&r, ctx),
        int_term(&r) == ExprModel::Expression(seq!['p', 'o', 'w'], Box::new(int_term(a)), Box::new(int_term(b))),
{
    a.power(b)
}

/// `Int::lt`: `a < b`.
#[verifier::external_body]
pub(crate) fn int_lt<'ctx>(ctx: &'ctx Context, a: &Int<'ctx>, b: &Int<'ctx>) -> (r: Bool<'ctx>)
    requires
        int_in(a, ctx),
        int_in(b, ctx),
    ensures
        bool_in(&r, ctx),
        bool_term(&r) == BoolModel::Cmp(seq!['<'], int_term(a), int_term(b)),
{
    a.lt(b)
}

/// `Int::le`: `a <= b`.
#[verifier::external_body]
pub(crate) fn int_le<'ctx>(ctx: &'ctx Context, a: &Int<'ctx>, b: &Int<'ctx>) -> (r: Bool<'ctx>)
    requires
        int_in(a, ctx),
        int_in(b, ctx),
    ensures
        bool_in(&r, ctx),
        bool_term(&r) == BoolModel::Cmp(seq!['<', '='], int_term(a), int_term(b)),
{
    a.le(b)
}

/// `Int::gt`: `a > b`.
#[verifier::external_body]
pub(crate) fn int_gt<'ctx>(ctx: &'ctx Context, a: &Int<'ctx>, b: &Int<'ctx>) -> (r: Bool<'ctx>)
    requires
        int_in(a, ctx),
        int_in(b, ctx),
    ensures
        bool_in(&r, ctx),
        bool_term(&r) == BoolModel::Cmp(seq!['>'], int_term(a), int_term(b)),
{
    a.gt(b)
}

/// `Int::ge`: `a >= b`.
#[verifier::external_body]
pub(crate) fn int_ge<'ctx>(ctx: &'ctx Context, a: &Int<'ctx>, b: &Int<'ctx>) -> (r: Bool<'ctx>)
    requires
        int_in(a, ctx),
        int_in(b, ctx),
    ensures
        bool_in(&r, ctx),
        bool_term(&r) == BoolModel::Cmp(seq!['>', '='], int_term(a), int_term(b)),
{
    a.ge(b)
}

/// `Bool::and` of two terms.
#[verifier::external_body]
pub(crate) fn bool_and<'ctx>(ctx: &'ctx Context, a: &Bool<'ctx>, b: &Bool<'ctx>) -> (r: Bool<'ctx>)
    requires
        bool_in(a, ctx),
        bool_in(b, ctx),
    ensures
        bool_in(&r, ctx),
        bool_term(&r) == BoolModel::And(Box::new(bool_term(a)), Box::new(bool_term(b))),
{
    Bool::and(ctx, &[a, b])
}

/// `Bool::or` of two terms.
#[verifier::external_body]
pub(crate) fn bool_or<'ctx>(ctx: &'ctx Context, a: &Bool<'ctx>, b: &Bool<'ctx>) -> (r: Bool<'ctx>)
    requires
        bool_in(a, ctx),
        bool_in(b, ctx),
    ensures
        bool_in(&r, ctx),
        bool_term(&r) == BoolModel::Or(Box::new(bool_term(a)), Box::new(bool_term(b))),
{
    Bool::or(ctx, &[a, b])
}

} // verus!
