//! The values of a symbolic AArch64 machine: registers that hold a known
//! number, an unknown number, or an address made of a symbolic base and a
//! known offset; symbolic expressions and comparisons over them; SIMD
//! registers as sixteen byte lanes; memory regions and accesses.
use vstd::prelude::*;
use std::collections::HashMap;
use crate::instruction_parser::{Operand, OperandModel};
use crate::smt::{
    bool_and, bool_or, bool_in, bool_term, int_add, int_const, int_div, int_ge, int_gt, int_in, int_le, int_lt,
    int_modulo, int_mul, int_power, int_sub, int_term, int_value, z3_name, BoolModel,
};
use z3::ast::{Bool, Int};
use z3::Context;
use crate::text::{contains_text, contains_chars, to_chars, split, trim};

verus! {

/// What a register is known to hold.
#[derive(Debug, Clone, Copy, PartialEq, Eq, Structural)]
pub enum RegisterKind {
    /// A symbolic base plus a known offset.
    RegisterBase,
    /// A number nothing is known of.
    Number,
    /// A known number.
    Immediate,
}

/// The value of a general purpose register.
#[derive(Debug, PartialEq)]
pub struct RegisterValue {
    pub kind: RegisterKind,
    pub base: Option<AbstractExpression>,
    pub offset: i64,
}

/// A symbolic expression.
#[derive(Debug, PartialEq)]
pub enum AbstractExpression {
    Empty,
    Immediate(i64),
    Abstract(String),
    Register(Box<RegisterValue>),
    Expression(String, Box<AbstractExpression>, Box<AbstractExpression>),
}

/// A symbolic expression with its texts as character sequences; a register
/// stands as its kind, base and offset.
pub enum ExprModel {
    Empty,
    Immediate(i64),
    Abstract(Seq<char>),
    Register(RegisterKind, Option<Box<ExprModel>>, i64),
    Expression(Seq<char>, Box<ExprModel>, Box<ExprModel>),
}

/// A register value with its base as a model.
pub struct RegisterModel {
    pub kind: RegisterKind,
    pub base: Option<ExprModel>,
    pub offset: i64,
}

/// The model of an expression.
pub open spec fn expr_model(e: AbstractExpression) -> ExprModel
    decreases e,
{
    match e {
        AbstractExpression::Empty => ExprModel::Empty,
        AbstractExpression::Immediate(n) => ExprModel::Immediate(n),
        AbstractExpression::Abstract(s) => ExprModel::Abstract(s@),
        AbstractExpression::Register(r) => ExprModel::Register(
            r.kind,
            match r.base {
                Some(b) => Some(Box::new(expr_model(b))),
                None => None,
            },
            r.offset,
        ),
        AbstractExpression::Expression(op, a, b) => ExprModel::Expression(
            op@,
            Box::new(expr_model(*a)),
            Box::new(expr_model(*b)),
        ),
    }
}

/// The model of an optional expression.
pub open spec fn opt_model(e: Option<AbstractExpression>) -> Option<ExprModel> {
    match e {
        Some(x) => Some(expr_model(x)),
        None => None,
    }
}

impl View for AbstractExpression {
    type V = ExprModel;

    open spec fn view(&self) -> ExprModel {
        expr_model(*self)
    }
}

impl View for RegisterValue {
    type V = RegisterModel;

    open spec fn view(&self) -> RegisterModel {
        RegisterModel { kind: self.kind, base: opt_model(self.base), offset: self.offset }
    }
}

/// A fresh copy of an expression.
pub fn copy_expression(e: &AbstractExpression) -> (r: AbstractExpression)
    ensures
        r@ == e@,
    decreases e,
{
    match e {
        AbstractExpression::Empty => AbstractExpression::Empty,
        AbstractExpression::Immediate(n) => AbstractExpression::Immediate(*n),
        AbstractExpression::Abstract(s) => AbstractExpression::Abstract(s.clone()),
        AbstractExpression::Register(reg) => {
            let base = match &reg.base {
                Some(b) => Some(copy_expression(b)),
                None => None,
            };
            AbstractExpression::Register(Box::new(RegisterValue { kind: reg.kind, base, offset: reg.offset }))
        },
        AbstractExpression::Expression(op, a, b) => {
            let a2 = copy_expression(a);
            let b2 = copy_expression(b);
            AbstractExpression::Expression(op.clone(), Box::new(a2), Box::new(b2))
        },
    }
}

/// A fresh copy of an optional expression.
pub fn copy_option(e: &Option<AbstractExpression>) -> (r: Option<AbstractExpression>)
    ensures
        opt_model(r) == opt_model(*e),
{
    match e {
        Some(x) => Some(copy_expression(x)),
        None => None,
    }
}

/// A fresh copy of a register value.
pub fn copy_register(r: &RegisterValue) -> (c: RegisterValue)
    ensures
        c@ == r@,
{
    RegisterValue { kind: r.kind, base: copy_option(&r.base), offset: r.offset }
}

/// Whether two expressions are equal.
pub fn expression_eq(a: &AbstractExpression, b: &AbstractExpression) -> (r: bool)
    ensures
        r == (a@ == b@),
    decreases a,
{
    match (a, b) {
        (AbstractExpression::Empty, AbstractExpression::Empty) => true,
        (AbstractExpression::Immediate(x), AbstractExpression::Immediate(y)) => *x == *y,
        (AbstractExpression::Abstract(x), AbstractExpression::Abstract(y)) => *x == *y,
        (AbstractExpression::Register(x), AbstractExpression::Register(y)) => {
            if x.kind != y.kind || x.offset != y.offset {
                return false;
            }
            match (&x.base, &y.base) {
                (Some(p), Some(q)) => {
                    let e = expression_eq(p, q);
                    proof {
                        if e {
                            assert(a@ == b@);
                        } else {
                            if a@ == b@ {
                                assert(Box::new(expr_model(*p)) == Box::new(expr_model(*q)));
                            }
                        }
                    }
                    e
                },
                (None, None) => true,
                _ => false,
            }
        },
        (AbstractExpression::Expression(o1, x1, y1), AbstractExpression::Expression(o2, x2, y2)) => {
            if !(*o1 == *o2) {
                return false;
            }
            let e1 = expression_eq(x1, x2);
            if !e1 {
                proof {
                    if a@ == b@ {
                        assert(Box::new(expr_model(**x1)) == Box::new(expr_model(**x2)));
                    }
                }
                return false;
            }
            let e2 = expression_eq(y1, y2);
            proof {
                if !e2 && a@ == b@ {
                    assert(Box::new(expr_model(**y1)) == Box::new(expr_model(**y2)));
                }
            }
            e2
        },
        _ => false,
    }
}

impl RegisterValue {
    pub fn new(kind: RegisterKind, base: Option<AbstractExpression>, offset: i64) -> (r: Self)
        ensures
            r.kind == kind,
            r.base == base,
            r.offset == offset,
    {
        Self { kind, base, offset }
    }

    /// A register holding the symbolic base `name` and offset zero.
    pub fn new_empty(name: &str) -> (r: Self)
        ensures
            r@ == (RegisterModel {
                kind: RegisterKind::RegisterBase,
                base: Some(ExprModel::Abstract(name@)),
                offset: 0,
            }),
    {
        Self {
            kind: RegisterKind::RegisterBase,
            base: Some(AbstractExpression::Abstract(name.to_string())),
            offset: 0,
        }
    }

    pub fn set(&mut self, kind: RegisterKind, base: Option<AbstractExpression>, offset: i64)
        ensures
            final(self).kind == kind,
            final(self).base == base,
            final(self).offset == offset,
    {
        self.kind = kind;
        self.base = base;
        self.offset = offset;
    }
}

/// The expression `a op b`.
pub fn generate_expression(op: &str, a: AbstractExpression, b: AbstractExpression) -> (r: AbstractExpression)
    ensures
        r@ == ExprModel::Expression(op@, Box::new(a@), Box::new(b@)),
{
    AbstractExpression::Expression(op.to_string(), Box::new(a), Box::new(b))
}

/// The model of `generate_expression_from_options`: `a op b`, a missing
/// side read as zero, where either side is present.
pub open spec fn expression_from_options(op: Seq<char>, a: Option<ExprModel>, b: Option<ExprModel>) -> Option<ExprModel> {
    if a is Some || b is Some {
        Some(
            ExprModel::Expression(
                op,
                Box::new(
                    match a {
                        Some(x) => x,
                        None => ExprModel::Immediate(0),
                    },
                ),
                Box::new(
                    match b {
                        Some(x) => x,
                        None => ExprModel::Immediate(0),
                    },
                ),
            ),
        )
    } else {
        None
    }
}

/// `a op b`, a missing side read as zero, where either side is present.
pub fn generate_expression_from_options(
    op: &str,
    a: Option<AbstractExpression>,
    b: Option<AbstractExpression>,
) -> (r: Option<AbstractExpression>)
    ensures
        opt_model(r) == expression_from_options(op@, opt_model(a), opt_model(b)),
{
    if a.is_some() || b.is_some() {
        let x = match a {
            Some(x) => x,
            None => AbstractExpression::Immediate(0),
        };
        let y = match b {
            Some(y) => y,
            None => AbstractExpression::Immediate(0),
        };
        return Some(generate_expression(op, x, y));
    } else {
        return None;
    }
}


/// The symbolic names in an expression, left to right.
pub open spec fn abstracts_of(e: ExprModel) -> Seq<Seq<char>>
    decreases e,
{
    match e {
        ExprModel::Abstract(v) => seq![v],
        ExprModel::Register(_, base, _) => match base {
            Some(b) => abstracts_of(*b),
            None => Seq::empty(),
        },
        ExprModel::Expression(_, a, b) => abstracts_of(*a) + abstracts_of(*b),
        _ => Seq::empty(),
    }
}

/// Some symbolic name in the expression holds `t`.
pub open spec fn expr_contains(e: ExprModel, t: Seq<char>) -> bool
    decreases e,
{
    match e {
        ExprModel::Abstract(v) => contains_text(v, t),
        ExprModel::Register(_, base, _) => match base {
            Some(b) => expr_contains(*b, t),
            None => false,
        },
        ExprModel::Expression(_, a, b) => expr_contains(*a, t) || expr_contains(*b, t),
        _ => false,
    }
}

/// `x` is `e` or a part of an operation within it.
pub open spec fn has_subexpression(e: ExprModel, x: ExprModel) -> bool
    decreases e,
{
    e == x || match e {
        ExprModel::Expression(_, a, b) => has_subexpression(*a, x) || has_subexpression(*b, x),
        _ => false,
    }
}

/// The views of some strings.
pub open spec fn names_view(v: Seq<String>) -> Seq<Seq<char>> {
    v.map_values(|s: String| s@)
}

impl AbstractExpression {
    /// The symbolic names in the expression, left to right.
    pub fn get_abstracts(&self) -> (r: Vec<String>)
        ensures
            names_view(r@) == abstracts_of(self@),
        decreases self,
    {
        let mut abstracts: Vec<String> = Vec::new();
        match self {
            AbstractExpression::Abstract(value) => {
                abstracts.push(value.clone());
                assert(names_view(abstracts@) =~= seq![value@]);
            },
            AbstractExpression::Register(reg) => {
                match &reg.base {
                    Some(b) => {
                        abstracts = b.get_abstracts();
                    },
                    None => {
                        assert(names_view(abstracts@) =~= Seq::<Seq<char>>::empty());
                    },
                }
            },
            AbstractExpression::Expression(_, arg1, arg2) => {
                let mut left = arg1.get_abstracts();
                let right = arg2.get_abstracts();
                let ghost l0 = names_view(left@);
                let mut i: usize = 0;
                while i < right.len()
                    invariant
                        i <= right@.len(),
                        names_view(left@) == l0 + names_view(right@).take(i as int),
                    decreases right@.len() - i,
                {
                    let ghost before = left@;
                    left.push(right[i].clone());
                    assert(names_view(left@) =~= names_view(before).push(right@[i as int]@));
                    assert(names_view(right@).take(i + 1) =~= names_view(right@).take(i as int).push(
                        right@[i as int]@,
                    ));
                    i = i + 1;
                }
                assert(names_view(right@).take(right@.len() as int) =~= names_view(right@));
                abstracts = left;
            },
            _ => {
                assert(names_view(abstracts@) =~= Seq::<Seq<char>>::empty());
            },
        }
        abstracts
    }
}


impl AbstractExpression {
    /// Whether some symbolic name in the expression holds `token`.
    pub fn contains(&self, token: &str) -> (r: bool)
        ensures
            r == expr_contains(self@, token@),
        decreases self,
    {
        match self {
            AbstractExpression::Abstract(value) => {
                let v = to_chars(value.as_str());
                let t = to_chars(token);
                contains_chars(v.as_slice(), t.as_slice())
            },
            AbstractExpression::Register(reg) => match &reg.base {
                Some(e) => e.contains(token),
                None => false,
            },
            AbstractExpression::Expression(_, arg1, arg2) => {
                arg1.contains(token) || arg2.contains(token)
            },
            _ => false,
        }
    }

    /// Whether `expr` is this expression or a part of an operation within
    /// it.
    pub fn contains_expression(&self, expr: &AbstractExpression) -> (r: bool)
        ensures
            r == has_subexpression(self@, expr@),
        decreases self,
    {
        if expression_eq(self, expr) {
            return true;
        }
        match self {
            AbstractExpression::Expression(_, arg1, arg2) => {
                arg1.contains_expression(expr) || arg2.contains_expression(expr)
            },
            _ => false,
        }
    }
}

/// A comparison of two expressions.
#[derive(Debug, PartialEq)]
pub struct AbstractComparison {
    pub op: String,
    pub left: Box<AbstractExpression>,
    pub right: Box<AbstractExpression>,
}

/// A comparison with its texts as character sequences.
pub struct ComparisonModel {
    pub op: Seq<char>,
    pub left: ExprModel,
    pub right: ExprModel,
}

impl View for AbstractComparison {
    type V = ComparisonModel;

    open spec fn view(&self) -> ComparisonModel {
        ComparisonModel { op: self.op@, left: expr_model(*self.left), right: expr_model(*self.right) }
    }
}

/// The comparison `a op b`.
pub fn generate_comparison(op: &str, a: AbstractExpression, b: AbstractExpression) -> (r: AbstractComparison)
    ensures
        r@ == (ComparisonModel { op: op@, left: a@, right: b@ }),
{
    AbstractComparison { op: op.to_string(), left: Box::new(a), right: Box::new(b) }
}

/// The comparison operators and their negations.
pub open spec fn negated_op(op: Seq<char>) -> Option<Seq<char>> {
    if op == seq!['<'] {
        Some(seq!['>', '='])
    } else if op == seq!['>'] {
        Some(seq!['<', '='])
    } else if op == seq!['>', '='] {
        Some(seq!['<'])
    } else if op == seq!['<', '='] {
        Some(seq!['>'])
    } else if op == seq!['=', '='] {
        Some(seq!['!', '='])
    } else if op == seq!['!', '='] {
        Some(seq!['=', '='])
    } else {
        None
    }
}

/// The negation of a comparison operator.
fn negated_op_text(op: &String) -> (r: &'static str)
    requires
        negated_op(op@) is Some,
    ensures
        r@ == negated_op(op@)->0,
{
    proof {
        reveal_strlit("<");
        reveal_strlit(">");
        reveal_strlit(">=");
        reveal_strlit("<=");
        reveal_strlit("==");
        reveal_strlit("!=");
    }
    assert("<"@ =~= seq!['<'] && ">"@ =~= seq!['>'] && ">="@ =~= seq!['>', '='] && "<="@ =~= seq![
        '<',
        '=',
    ] && "=="@ =~= seq!['=', '='] && "!="@ =~= seq!['!', '=']);
    if text_is(op, "<") {
        ">="
    } else if text_is(op, ">") {
        "<="
    } else if text_is(op, ">=") {
        "<"
    } else if text_is(op, "<=") {
        ">"
    } else if text_is(op, "==") {
        "!="
    } else {
        "=="
    }
}

pub(crate) fn text_is(s: &String, lit: &str) -> (r: bool)
    ensures
        r == (s@ == lit@),
{
    let a = to_chars(s.as_str());
    let b = to_chars(lit);
    crate::text::eq_chars(a.as_slice(), b.as_slice())
}

/// A fresh copy of a comparison.
pub fn copy_comparison(c: &AbstractComparison) -> (r: AbstractComparison)
    ensures
        r@ == c@,
{
    AbstractComparison {
        op: c.op.clone(),
        left: Box::new(copy_expression(&c.left)),
        right: Box::new(copy_expression(&c.right)),
    }
}

impl AbstractComparison {
    pub fn new(op: &str, left: AbstractExpression, right: AbstractExpression) -> (r: Self)
        ensures
            r@ == (ComparisonModel { op: op@, left: left@, right: right@ }),
    {
        Self { op: op.to_string(), left: Box::new(left), right: Box::new(right) }
    }

    /// The opposite comparison of the same two expressions.
    pub fn not(&self) -> (r: Self)
        requires
            negated_op(self@.op) is Some,
        ensures
            r@ == (ComparisonModel { op: negated_op(self@.op)->0, left: self@.left, right: self@.right }),
    {
        let left = copy_expression(&self.left);
        let right = copy_expression(&self.right);
        let op = negated_op_text(&self.op);
        Self::new(op, left, right)
    }

    /// The symbolic names on the left, then on the right.
    pub fn get_abstracts(&self) -> (r: Vec<String>)
        ensures
            names_view(r@) == abstracts_of(self@.left) + abstracts_of(self@.right),
    {
        let mut abstracts = self.left.get_abstracts();
        let right = self.right.get_abstracts();
        let ghost l0 = names_view(abstracts@);
        let mut i: usize = 0;
        while i < right.len()
            invariant
                i <= right@.len(),
                names_view(abstracts@) == l0 + names_view(right@).take(i as int),
            decreases right@.len() - i,
        {
            let ghost before = abstracts@;
            abstracts.push(right[i].clone());
            assert(names_view(abstracts@) =~= names_view(before).push(right@[i as int]@));
            assert(names_view(right@).take(i + 1) =~= names_view(right@).take(i as int).push(
                right@[i as int]@,
            ));
            i = i + 1;
        }
        assert(names_view(right@).take(right@.len() as int) =~= names_view(right@));
        abstracts
    }

    /// Whether a symbolic name on either side holds `token`.
    pub fn contains(&self, token: &str) -> (r: bool)
        ensures
            r == (expr_contains(self@.left, token@) || expr_contains(self@.right, token@)),
    {
        self.left.contains(token) || self.right.contains(token)
    }
}

/// The value of a condition flag: a known truth value, or a comparison.
#[derive(Debug, PartialEq)]
pub enum FlagValue {
    Abstract(AbstractComparison),
    Real(bool),
}

/// A flag with its comparison as a model.
pub enum FlagModel {
    Abstract(ComparisonModel),
    Real(bool),
}

impl View for FlagValue {
    type V = FlagModel;

    open spec fn view(&self) -> FlagModel {
        match self {
            FlagValue::Abstract(c) => FlagModel::Abstract(c@),
            FlagValue::Real(b) => FlagModel::Real(*b),
        }
    }
}

/// The model of a flag that may not be set.
pub open spec fn flag_model(f: Option<FlagValue>) -> Option<FlagModel> {
    match f {
        Some(v) => Some(v@),
        None => None,
    }
}

/// A fresh copy of a flag.
pub fn copy_flag(f: &Option<FlagValue>) -> (r: Option<FlagValue>)
    ensures
        flag_model(r) == flag_model(*f),
{
    match f {
        Some(FlagValue::Abstract(c)) => Some(FlagValue::Abstract(copy_comparison(c))),
        Some(FlagValue::Real(b)) => Some(FlagValue::Real(*b)),
        None => None,
    }
}

impl FlagValue {
    /// The flag as a comparison: a known truth as `Empty == Empty` or
    /// `Empty != Empty`.
    pub fn to_abstract_expression(&self) -> (r: AbstractComparison)
        ensures
            self matches FlagValue::Abstract(a) ==> r@ == a@,
            self matches FlagValue::Real(b) ==> r@ == (ComparisonModel {
                op: if *b { seq!['=', '='] } else { seq!['!', '='] },
                left: ExprModel::Empty,
                right: ExprModel::Empty,
            }),
    {
        proof {
            reveal_strlit("==");
            reveal_strlit("!=");
            assert("=="@ =~= seq!['=', '='] && "!="@ =~= seq!['!', '=']);
        }
        match self {
            FlagValue::Abstract(a) => copy_comparison(a),
            FlagValue::Real(r) => {
                if *r {
                    generate_comparison("==", AbstractExpression::Empty, AbstractExpression::Empty)
                } else {
                    generate_comparison("!=", AbstractExpression::Empty, AbstractExpression::Empty)
                }
            },
        }
    }

    /// The opposite flag.
    pub fn not(&self) -> (r: Self)
        requires
            self matches FlagValue::Abstract(a) ==> negated_op(a@.op) is Some,
        ensures
            match self {
                FlagValue::Abstract(a) => r matches FlagValue::Abstract(n) && n@ == (ComparisonModel {
                    op: negated_op(a@.op)->0,
                    left: a@.left,
                    right: a@.right,
                }),
                FlagValue::Real(b) => r == FlagValue::Real(!*b),
            },
    {
        match self {
            FlagValue::Abstract(a) => FlagValue::Abstract(a.not()),
            FlagValue::Real(r) => FlagValue::Real(!*r),
        }
    }
}

/// What a memory region may be used for.
#[derive(Debug, Clone, Copy, PartialEq, Eq, Structural)]
pub enum RegionType {
    READ,
    WRITE,
    RW,
}

impl RegionType {
    /// The name of the use.
    pub fn to_string(&self) -> (r: String)
        ensures
            r@ == (match self {
                RegionType::READ => "Read"@,
                RegionType::WRITE => "Write"@,
                RegionType::RW => "Read and Write"@,
            }),
    {
        match self {
            RegionType::READ => "Read".to_string(),
            RegionType::WRITE => "Write".to_string(),
            RegionType::RW => "Read and Write".to_string(),
        }
    }
}

/// An access to memory: its kind, the region's name and the offset.
#[derive(Debug, Clone, PartialEq, Eq)]
pub struct MemoryAccess {
    pub kind: RegionType,
    pub base: String,
    pub offset: i64,
}

/// A failed memory-safety check.
#[derive(Debug, Clone)]
pub struct MemorySafetyError {
    details: String,
}

impl MemorySafetyError {
    /// The message.
    pub closed spec fn message(self) -> Seq<char> {
        self.details@
    }

    pub fn new(msg: &str) -> (r: MemorySafetyError)
        ensures
            r.message() == msg@,
    {
        MemorySafetyError { details: msg.to_string() }
    }

    /// The message.
    pub fn to_string(&self) -> (r: String)
        ensures
            r@ == self.message(),
    {
        self.details.clone()
    }
}

/// The register name in an operand text: the text before the first comma,
/// without surrounding `[`.
pub fn get_register_name_string(r: String) -> (name: String)
    ensures
        name@ == trim(crate::text::field0(r@, seq![',']), seq!['[']),
{
    let chars = to_chars(r.as_str());
    let comma = [','];
    let open = ['['];
    assert(comma@ =~= seq![',']);
    assert(open@ =~= seq!['[']);
    let end = crate::text::find_first(chars.as_slice(), &comma);
    proof {
        crate::text::lemma_first_index_bound(r@, seq![',']);
    }
    let first = crate::text::slice_range(chars.as_slice(), 0, end);
    let (lo, hi) = crate::text::trim_bounds(first, &open);
    assert(first@ == crate::text::field0(r@, seq![',']));
    crate::text::substring(r.as_str(), lo, hi)
}

/// The outcome of `shift_imm` on the register model `r`.
pub open spec fn shifted(op: Seq<char>, r: RegisterModel, shift: i64) -> RegisterModel {
    let base = Some(
        ExprModel::Expression(
            op,
            Box::new(
                match r.base {
                    Some(b) => b,
                    None => ExprModel::Empty,
                },
            ),
            Box::new(ExprModel::Immediate(shift)),
        ),
    );
    if op == seq!['l', 's', 'l'] {
        RegisterModel { kind: r.kind, base, offset: r.offset << shift }
    } else if op == seq!['l', 's', 'r'] {
        RegisterModel { kind: r.kind, base, offset: ((r.offset as u64) >> (shift as u64)) as i64 }
    } else if op == seq!['r', 'o', 'r'] {
        RegisterModel { kind: r.kind, base, offset: r.offset >> shift }
    } else {
        RegisterModel { kind: r.kind, base: r.base, offset: (r.offset + shift) as i64 }
    }
}

/// Applies the shift `op` by `shift` to a register: the offset is shifted
/// (left for `lsl`, logically right for `lsr`, arithmetically right for
/// `ror`)
/// and the base records the shift; with no shift name the amount is added
/// to the offset.
pub fn shift_imm(op: String, register: RegisterValue, shift: i64) -> (r: RegisterValue)
    requires
        op@ == "lsl"@ || op@ == "lsr"@ || op@ == "ror"@ || op@ == ""@,
        op@ != ""@ ==> 0 <= shift < 64,
        op@ == ""@ ==> i64::MIN <= register.offset + shift <= i64::MAX,
    ensures
        r@ == shifted(op@, register@, shift),
{
    proof {
        reveal_strlit("lsl");
        reveal_strlit("lsr");
        reveal_strlit("ror");
        reveal_strlit("");
        assert("lsl"@ =~= seq!['l', 's', 'l'] && "lsr"@ =~= seq!['l', 's', 'r'] && "ror"@ =~= seq![
            'r',
            'o',
            'r',
        ] && ""@ =~= Seq::<char>::empty());
    }
    if text_is(&op, "lsl") || text_is(&op, "lsr") {
        let new_offset = if text_is(&op, "lsl") {
            register.offset.wrapping_shl(shift as u32)
        } else {
            ((register.offset as u64) >> (shift as u64)) as i64
        };
        let base = match register.base {
            Some(b) => b,
            None => AbstractExpression::Empty,
        };
        RegisterValue {
            kind: register.kind,
            base: Some(generate_expression(op.as_str(), base, AbstractExpression::Immediate(shift))),
            offset: new_offset,
        }
    } else if text_is(&op, "ror") {
        let new_offset = register.offset >> shift;
        let base = match register.base {
            Some(b) => b,
            None => AbstractExpression::Empty,
        };
        RegisterValue {
            kind: register.kind,
            base: Some(generate_expression(op.as_str(), base, AbstractExpression::Immediate(shift))),
            offset: new_offset,
        }
    } else {
        let new_offset = register.offset + shift;
        RegisterValue { kind: register.kind, base: register.base, offset: new_offset }
    }
}

/// How the execution of an instruction goes on: with the next one, at a
/// label or address, at one of them under a condition, or by choosing one of
/// two values for a destination register under a condition.
#[derive(Debug, PartialEq)]
pub enum ExecuteReturnType {
    Next,
    JumpLabel(String),
    JumpAddress(u128),
    ConditionalJumpLabel(AbstractComparison, String),
    ConditionalJumpAddress(AbstractComparison, u128),
    Select(AbstractComparison, Operand, RegisterValue, RegisterValue),
}

/// An execution outcome with its texts as character sequences.
pub enum ExecuteModel {
    Next,
    JumpLabel(Seq<char>),
    JumpAddress(u128),
    ConditionalJumpLabel(ComparisonModel, Seq<char>),
    ConditionalJumpAddress(ComparisonModel, u128),
    Select(ComparisonModel, OperandModel, RegisterModel, RegisterModel),
}

impl View for ExecuteReturnType {
    type V = ExecuteModel;

    open spec fn view(&self) -> ExecuteModel {
        match self {
            ExecuteReturnType::Next => ExecuteModel::Next,
            ExecuteReturnType::JumpLabel(l) => ExecuteModel::JumpLabel(l@),
            ExecuteReturnType::JumpAddress(a) => ExecuteModel::JumpAddress(*a),
            ExecuteReturnType::ConditionalJumpLabel(c, l) => ExecuteModel::ConditionalJumpLabel(c@, l@),
            ExecuteReturnType::ConditionalJumpAddress(c, a) => ExecuteModel::ConditionalJumpAddress(c@, *a),
            ExecuteReturnType::Select(c, d, a, b) => ExecuteModel::Select(c@, d@, a@, b@),
        }
    }
}


/// The model of a register holding an unknown number.
pub open spec fn unknown_number() -> RegisterModel {
    RegisterModel { kind: RegisterKind::Number, base: None, offset: 0 }
}

/// A region of memory that code may access: what for, how long it is in
/// bytes, and what is known of the values at its addresses.
#[derive(Debug)]
pub struct MemorySafeRegion {
    pub kind: RegionType,
    pub length: AbstractExpression,
    pub content: HashMap<i64, RegisterValue>,
}

impl MemorySafeRegion {
    /// The length the region was made with.
    pub open spec fn length_spec(self) -> ExprModel {
        self.length@
    }

    /// What the region is for.
    pub open spec fn kind_spec(self) -> RegionType {
        self.kind
    }

    /// The values recorded at its addresses.
    pub open spec fn content_spec(self) -> Map<i64, RegisterValue> {
        self.content@
    }

    /// A region of `length` bytes; where the length is known, it holds an
    /// unknown number at every fourth address below four times it.
    pub fn new(length: AbstractExpression, kind: RegionType) -> (r: Self)
        requires
            length matches AbstractExpression::Immediate(l) ==> l <= 0x2000_0000_0000_0000,
        ensures
            r.kind_spec() == kind,
            r.length_spec() == length@,
            forall|k: i64|
                #[trigger] r.content_spec().contains_key(k) <==> (length matches AbstractExpression::Immediate(
                    l,
                ) && 0 <= k < 4 * l && k % 4 == 0),
            forall|k: i64| #[trigger] r.content_spec().contains_key(k) ==> r.content_spec()[k]@ == unknown_number(),
    {
        let mut content: HashMap<i64, RegisterValue> = HashMap::new();
        assert(forall|k: i64| !(#[trigger] content@.contains_key(k)));
        match &length {
            AbstractExpression::Immediate(l) => {
                let l = *l;
                let mut i: i64 = 0;
                while i < l
                    invariant
                        0 <= i,
                        l >= 0 ==> i <= l,
                        l < 0 ==> i == 0,
                        l <= 0x2000_0000_0000_0000,
                        forall|k: i64| #[trigger] content@.contains_key(k) <==> (0 <= k < 4 * i && k % 4 == 0),
                        forall|k: i64| #[trigger] content@.contains_key(k) ==> content@[k]@ == unknown_number(),
                    decreases l - i,
                {
                    content.insert(i * 4, RegisterValue::new(RegisterKind::Number, None, 0));
                    i = i + 1;
                }
            },
            _ => (),
        }
        Self { kind, length, content }
    }

    /// Records `value` at `address`.
    pub fn insert(&mut self, address: i64, value: RegisterValue)
        ensures
            final(self).content_spec() == old(self).content_spec().insert(address, value),
            final(self).kind_spec() == old(self).kind_spec(),
            final(self).length_spec() == old(self).length_spec(),
    {
        self.content.insert(address, value);
    }

    /// What is known of the value at `address`: what was recorded there,
    /// or else an unknown number.
    pub fn get(&self, address: i64) -> (r: Option<RegisterValue>)
        ensures
            r is Some,
            self.content_spec().contains_key(address) ==> r->0@ == self.content_spec()[address]@,
            !self.content_spec().contains_key(address) ==> r->0@ == unknown_number(),
    {
        match self.content.get(&address) {
            Some(v) => Some(copy_register(v)),
            None => Some(RegisterValue::new(RegisterKind::Number, None, 0)),
        }
    }

    /// The length of the region in bytes, as it was given.
    pub fn get_length(&self) -> (r: AbstractExpression)
        ensures
            r@ == self.length_spec(),
    {
        copy_expression(&self.length)
    }
}


/// A SIMD register: sixteen byte lanes, each with a symbolic part and a
/// known part.
#[derive(Debug, PartialEq)]
pub struct SimdRegister {
    pub kind: RegisterKind,
    pub base: [Option<AbstractExpression>; 16],
    pub offset: [u8; 16],
}

/// A SIMD register with its lanes as models.
pub struct SimdModel {
    pub kind: RegisterKind,
    pub base: Seq<Option<ExprModel>>,
    pub offset: Seq<u8>,
}

/// The models of some lanes.
pub open spec fn lanes_model(b: Seq<Option<AbstractExpression>>) -> Seq<Option<ExprModel>> {
    b.map_values(|o: Option<AbstractExpression>| opt_model(o))
}

impl View for SimdRegister {
    type V = SimdModel;

    open spec fn view(&self) -> SimdModel {
        SimdModel { kind: self.kind, base: lanes_model(self.base@), offset: self.offset@ }
    }
}

/// The balanced tree of `,` expressions over the `n` lanes from `lo`.
pub open spec fn lane_tree(b: Seq<Option<ExprModel>>, lo: int, n: nat) -> Option<ExprModel>
    decreases n,
{
    if n <= 1 {
        b[lo]
    } else {
        expression_from_options(
            seq![','],
            lane_tree(b, lo, n / 2),
            lane_tree(b, lo + n / 2, n / 2),
        )
    }
}

/// The first `n` bytes of `s` as a big-endian number.
pub open spec fn be_acc64(s: Seq<u8>, n: nat) -> u64
    decreases n,
{
    if n == 0 {
        0
    } else {
        (be_acc64(s, (n - 1) as nat) << 8u64) | (s[n - 1] as u64)
    }
}

/// The decimal digits of `n`.
pub open spec fn decimal(n: nat) -> Seq<char>
    decreases n,
{
    if n < 10 {
        seq![digit_char(n)]
    } else {
        decimal(n / 10) + seq![digit_char(n % 10)]
    }
}

pub open spec fn digit_char(d: nat) -> char {
    if d == 0 {
        '0'
    } else if d == 1 {
        '1'
    } else if d == 2 {
        '2'
    } else if d == 3 {
        '3'
    } else if d == 4 {
        '4'
    } else if d == 5 {
        '5'
    } else if d == 6 {
        '6'
    } else if d == 7 {
        '7'
    } else if d == 8 {
        '8'
    } else {
        '9'
    }
}

fn digit_text(d: usize) -> (r: &'static str)
    requires
        d < 10,
    ensures
        r@ == seq![digit_char(d as nat)],
{
    proof {
        reveal_strlit("0");
        reveal_strlit("1");
        reveal_strlit("2");
        reveal_strlit("3");
        reveal_strlit("4");
        reveal_strlit("5");
        reveal_strlit("6");
        reveal_strlit("7");
        reveal_strlit("8");
        reveal_strlit("9");
    }
    let r = if d == 0 {
        "0"
    } else if d == 1 {
        "1"
    } else if d == 2 {
        "2"
    } else if d == 3 {
        "3"
    } else if d == 4 {
        "4"
    } else if d == 5 {
        "5"
    } else if d == 6 {
        "6"
    } else if d == 7 {
        "7"
    } else if d == 8 {
        "8"
    } else {
        "9"
    };
    assert(r@ =~= seq![digit_char(d as nat)]);
    r
}

/// The name of lane `i` of a register with arrangement `arrangement`: the
/// arrangement followed by the lane number.
pub(crate) fn lane_name(arrangement: &String, i: usize) -> (r: String)
    requires
        i < 100,
    ensures
        r@ == arrangement@ + decimal(i as nat),
{
    let mut r = arrangement.clone();
    if i >= 10 {
        r.append(digit_text(i / 10));
        r.append(digit_text(i % 10));
        assert(decimal((i / 10) as nat) == seq![digit_char((i / 10) as nat)]);
        assert(r@ =~= arrangement@ + decimal(i as nat));
    } else {
        r.append(digit_text(i));
    }
    r
}

fn lane_tree_exec(b: &[Option<AbstractExpression>; 16], lo: usize, n: usize) -> (r: Option<AbstractExpression>)
    requires
        n == 1 || n == 2 || n == 4 || n == 8 || n == 16,
        lo + n <= 16,
    ensures
        opt_model(r) == lane_tree(lanes_model(b@), lo as int, n as nat),
    decreases n,
{
    if n <= 1 {
        copy_option(&b[lo])
    } else {
        let left = lane_tree_exec(b, lo, n / 2);
        let right = lane_tree_exec(b, lo + n / 2, n / 2);
        proof {
            reveal_strlit(",");
            assert(","@ =~= seq![',']);
        }
        generate_expression_from_options(",", left, right)
    }
}

impl SimdRegister {
    /// A register holding unknown numbers.
    pub fn new(_name: &str) -> (r: Self)
        ensures
            r@.kind == RegisterKind::Number,
            r@.base == Seq::new(16, |i: int| None::<ExprModel>),
            r@.offset == Seq::new(16, |i: int| 0u8),
    {
        let r = Self {
            kind: RegisterKind::Number,
            base: [None, None, None, None, None, None, None, None, None, None, None, None, None, None, None, None],
            offset: [0; 16],
        };
        assert(r@.base =~= Seq::new(16, |i: int| None::<ExprModel>));
        assert(r@.offset =~= Seq::new(16, |i: int| 0u8));
        r
    }

    /// Byte lane `index`.
    pub fn get_byte(&self, index: usize) -> (r: (Option<AbstractExpression>, u8))
        requires
            index < 16,
        ensures
            opt_model(r.0) == self@.base[index as int],
            r.1 == self@.offset[index as int],
    {
        (copy_option(&self.base[index]), self.offset[index])
    }

    /// Halfword lane `index`: byte lanes `2 * index` and `2 * index + 1`.
    pub fn get_halfword(&self, index: usize) -> (r: ([Option<AbstractExpression>; 2], [u8; 2]))
        requires
            index < 8,
        ensures
            lanes_model(r.0@) == self@.base.subrange(2 * index as int, 2 * index + 2),
            r.1@ == self@.offset.subrange(2 * index as int, 2 * index + 2),
    {
        let index = index * 2;
        let base = [copy_option(&self.base[index]), copy_option(&self.base[index + 1])];
        let offset = [self.offset[index], self.offset[index + 1]];
        assert(lanes_model(base@) =~= self@.base.subrange(index as int, index + 2));
        assert(offset@ =~= self@.offset.subrange(index as int, index + 2));
        (base, offset)
    }

    /// Word lane `index`: byte lanes `4 * index` to `4 * index + 3`.
    pub fn get_word(&self, index: usize) -> (r: ([Option<AbstractExpression>; 4], [u8; 4]))
        requires
            index < 4,
        ensures
            lanes_model(r.0@) == self@.base.subrange(4 * index as int, 4 * index + 4),
            r.1@ == self@.offset.subrange(4 * index as int, 4 * index + 4),
    {
        let index = index * 4;
        let base = [
            copy_option(&self.base[index]),
            copy_option(&self.base[index + 1]),
            copy_option(&self.base[index + 2]),
            copy_option(&self.base[index + 3]),
        ];
        let offset = [self.offset[index], self.offset[index + 1], self.offset[index + 2], self.offset[index + 3]];
        assert(lanes_model(base@) =~= self@.base.subrange(index as int, index + 4));
        assert(offset@ =~= self@.offset.subrange(index as int, index + 4));
        (base, offset)
    }

    /// Doubleword lane `index`: byte lanes `8 * index` to `8 * index + 7`.
    pub fn get_double(&self, index: usize) -> (r: ([Option<AbstractExpression>; 8], [u8; 8]))
        requires
            index < 2,
        ensures
            lanes_model(r.0@) == self@.base.subrange(8 * index as int, 8 * index + 8),
            r.1@ == self@.offset.subrange(8 * index as int, 8 * index + 8),
    {
        let index = index * 8;
        let base = [
            copy_option(&self.base[index]),
            copy_option(&self.base[index + 1]),
            copy_option(&self.base[index + 2]),
            copy_option(&self.base[index + 3]),
            copy_option(&self.base[index + 4]),
            copy_option(&self.base[index + 5]),
            copy_option(&self.base[index + 6]),
            copy_option(&self.base[index + 7]),
        ];
        let mut offset = [0u8; 8];
        for i in 0..8
            invariant
                index == 8 * (index / 8),
                index <= 8,
                forall|m: int| 0 <= m < i ==> offset@[m] == self.offset@[index + m],
        {
            offset[i] = self.offset[index + i];
        }
        assert(lanes_model(base@) =~= self@.base.subrange(index as int, index + 8));
        assert(offset@ =~= self@.offset.subrange(index as int, index + 8));
        (base, offset)
    }

    /// Sets byte lane `index`.
    pub fn set_byte(&mut self, index: usize, base: Option<AbstractExpression>, offset: u8)
        requires
            index < 16,
        ensures
            final(self)@.kind == old(self)@.kind,
            final(self)@.base == old(self)@.base.update(index as int, opt_model(base)),
            final(self)@.offset == old(self)@.offset.update(index as int, offset),
    {
        let ghost b = opt_model(base);
        self.base[index] = base;
        self.offset[index] = offset;
        assert(self@.base =~= old(self)@.base.update(index as int, b));
    }

    /// Sets the `n` byte lanes from `at` to the models `base` and bytes
    /// `offset`, keeping the others.
    pub open spec fn lanes_set(self, old: SimdModel, at: int, base: Seq<Option<ExprModel>>, offset: Seq<u8>) -> bool {
        &&& self@.kind == old.kind
        &&& self@.base == old.base.subrange(0, at) + base + old.base.subrange(at + base.len(), 16)
        &&& self@.offset == old.offset.subrange(0, at) + offset + old.offset.subrange(at + offset.len(), 16)
    }

    /// Sets halfword lane `index`.
    pub fn set_halfword(&mut self, index: usize, base: [Option<AbstractExpression>; 2], offset: [u8; 2])
        requires
            index < 8,
        ensures
            final(self).lanes_set(old(self)@, 2 * index as int, lanes_model(base@), offset@),
    {
        let index = index * 2;
        for i in 0..2
            invariant
                index + 2 <= 16,
                self.kind == old(self).kind,
                forall|m: int| 0 <= m < i ==> opt_model(#[trigger] self.base@[index + m]) == opt_model(base@[m]),
                forall|m: int| 0 <= m < i ==> #[trigger] self.offset@[index + m] == offset@[m],
                forall|m: int| 0 <= m < 16 && !(index <= m < index + i) ==> #[trigger] self.base@[m] == old(self).base@[m],
                forall|m: int| 0 <= m < 16 && !(index <= m < index + i) ==> #[trigger] self.offset@[m] == old(self).offset@[m],
        {
            self.base[index + i] = copy_option(&base[i]);
            self.offset[index + i] = offset[i];
        }
        assert(self@.base =~= old(self)@.base.subrange(0, index as int) + lanes_model(base@) + old(self)@.base.subrange(index + 2, 16)) by {
            assert forall|m: int| 0 <= m < 16 implies #[trigger] self@.base[m] == (old(self)@.base.subrange(0, index as int) + lanes_model(base@) + old(self)@.base.subrange(index + 2, 16))[m] by {
                if index <= m < index + 2 {
                    assert(opt_model(self.base@[index + (m - index)]) == opt_model(base@[m - index]));
                }
            }
        }
        assert(self@.offset =~= old(self)@.offset.subrange(0, index as int) + offset@ + old(self)@.offset.subrange(index + 2, 16)) by {
            assert forall|m: int| 0 <= m < 16 implies #[trigger] self@.offset[m] == (old(self)@.offset.subrange(0, index as int) + offset@ + old(self)@.offset.subrange(index + 2, 16))[m] by {
                if index <= m < index + 2 {
                    assert(self.offset@[index + (m - index)] == offset@[m - index]);
                }
            }
        }
    }

    /// Sets word lane `index`.
    pub fn set_word(&mut self, index: usize, base: [Option<AbstractExpression>; 4], offset: [u8; 4])
        requires
            index < 4,
        ensures
            final(self).lanes_set(old(self)@, 4 * index as int, lanes_model(base@), offset@),
    {
        let index = index * 4;
        for i in 0..4
            invariant
                index + 4 <= 16,
                self.kind == old(self).kind,
                forall|m: int| 0 <= m < i ==> opt_model(#[trigger] self.base@[index + m]) == opt_model(base@[m]),
                forall|m: int| 0 <= m < i ==> #[trigger] self.offset@[index + m] == offset@[m],
                forall|m: int| 0 <= m < 16 && !(index <= m < index + i) ==> #[trigger] self.base@[m] == old(self).base@[m],
                forall|m: int| 0 <= m < 16 && !(index <= m < index + i) ==> #[trigger] self.offset@[m] == old(self).offset@[m],
        {
            self.base[index + i] = copy_option(&base[i]);
            self.offset[index + i] = offset[i];
        }
        assert(self@.base =~= old(self)@.base.subrange(0, index as int) + lanes_model(base@) + old(self)@.base.subrange(index + 4, 16)) by {
            assert forall|m: int| 0 <= m < 16 implies #[trigger] self@.base[m] == (old(self)@.base.subrange(0, index as int) + lanes_model(base@) + old(self)@.base.subrange(index + 4, 16))[m] by {
                if index <= m < index + 4 {
                    assert(opt_model(self.base@[index + (m - index)]) == opt_model(base@[m - index]));
                }
            }
        }
        assert(self@.offset =~= old(self)@.offset.subrange(0, index as int) + offset@ + old(self)@.offset.subrange(index + 4, 16)) by {
            assert forall|m: int| 0 <= m < 16 implies #[trigger] self@.offset[m] == (old(self)@.offset.subrange(0, index as int) + offset@ + old(self)@.offset.subrange(index + 4, 16))[m] by {
                if index <= m < index + 4 {
                    assert(self.offset@[index + (m - index)] == offset@[m - index]);
                }
            }
        }
    }

    /// Sets doubleword lane `index`.
    pub fn set_double(&mut self, index: usize, base: [Option<AbstractExpression>; 8], offset: [u8; 8])
        requires
            index < 2,
        ensures
            final(self).lanes_set(old(self)@, 8 * index as int, lanes_model(base@), offset@),
    {
        let index = index * 8;
        for i in 0..8
            invariant
                index + 8 <= 16,
                self.kind == old(self).kind,
                forall|m: int| 0 <= m < i ==> opt_model(#[trigger] self.base@[index + m]) == opt_model(base@[m]),
                forall|m: int| 0 <= m < i ==> #[trigger] self.offset@[index + m] == offset@[m],
                forall|m: int| 0 <= m < 16 && !(index <= m < index + i) ==> #[trigger] self.base@[m] == old(self).base@[m],
                forall|m: int| 0 <= m < 16 && !(index <= m < index + i) ==> #[trigger] self.offset@[m] == old(self).offset@[m],
        {
            self.base[index + i] = copy_option(&base[i]);
            self.offset[index + i] = offset[i];
        }
        assert(self@.base =~= old(self)@.base.subrange(0, index as int) + lanes_model(base@) + old(self)@.base.subrange(index + 8, 16)) by {
            assert forall|m: int| 0 <= m < 16 implies #[trigger] self@.base[m] == (old(self)@.base.subrange(0, index as int) + lanes_model(base@) + old(self)@.base.subrange(index + 8, 16))[m] by {
                if index <= m < index + 8 {
                    assert(opt_model(self.base@[index + (m - index)]) == opt_model(base@[m - index]));
                }
            }
        }
        assert(self@.offset =~= old(self)@.offset.subrange(0, index as int) + offset@ + old(self)@.offset.subrange(index + 8, 16)) by {
            assert forall|m: int| 0 <= m < 16 implies #[trigger] self@.offset[m] == (old(self)@.offset.subrange(0, index as int) + offset@ + old(self)@.offset.subrange(index + 8, 16))[m] by {
                if index <= m < index + 8 {
                    assert(self.offset@[index + (m - index)] == offset@[m - index]);
                }
            }
        }
    }

    /// Sets the whole register.
    pub fn set(
        &mut self,
        _arrangement: String,
        kind: RegisterKind,
        base: [Option<AbstractExpression>; 16],
        offset: [u8; 16],
    )
        ensures
            final(self).kind == kind,
            final(self).base == base,
            final(self).offset == offset,
    {
        self.kind = kind;
        self.base = base;
        self.offset = offset;
    }

    /// Sets the register from one value: with a symbolic base, lanes 0 to
    /// 14 become `lane & base`, the lane named by the arrangement and its
    /// number, and lane 15 is kept; with none, every lane's symbolic part is
    /// cleared. The known parts are the bytes of `offset`, most significant
    /// first.
    pub fn set_register(&mut self, arrangement: String, kind: RegisterKind, base: Option<AbstractExpression>, offset: u128)
        ensures
            final(self)@.kind == kind,
            final(self)@.offset == crate::ghash::be_bytes128(offset),
            base is None ==> final(self)@.base == Seq::new(16, |i: int| None::<ExprModel>),
            base matches Some(b) ==> final(self)@.base[15] == old(self)@.base[15]
                && forall|i: int| 0 <= i < 15 ==> #[trigger] final(self)@.base[i] == Some(ExprModel::Expression(
                    seq!['&'],
                    Box::new(ExprModel::Abstract(arrangement@ + decimal(i as nat))),
                    Box::new(b@),
                )),
    {
        self.kind = kind;
        proof {
            reveal_strlit("&");
            assert("&"@ =~= seq!['&']);
        }
        match &base {
            Some(b) => {
                for i in 0..15
                    invariant
                        self.kind == kind,
                        self.base@[15] == old(self).base@[15],
                        forall|m: int| 0 <= m < i ==> opt_model(#[trigger] self.base@[m]) == Some(ExprModel::Expression(
                            seq!['&'],
                            Box::new(ExprModel::Abstract(arrangement@ + decimal(m as nat))),
                            Box::new(b@),
                        )),
                {
                    let name = lane_name(&arrangement, i);
                    let ghost name_view = name@;
                    let left = AbstractExpression::Abstract(name);
                    assert(left@ == ExprModel::Abstract(name_view));
                    let right = copy_expression(b);
                    let op = "&".to_string();
                    proof {
                        reveal_strlit("&");
                        assert("&"@ =~= seq!['&']);
                    }
                    let ghost (lv, rv) = (left@, right@);
                    let lane = AbstractExpression::Expression(op, Box::new(left), Box::new(right));
                    assert(lane@ == ExprModel::Expression(seq!['&'], Box::new(lv), Box::new(rv)));
                    self.base[i] = Some(lane);
                }
            },
            None => {
                self.base = [None, None, None, None, None, None, None, None, None, None, None, None, None, None, None, None];
                assert(self@.base =~= Seq::new(16, |i: int| None::<ExprModel>));
            },
        }
        self.offset = crate::ghash::store_be128(offset);
    }

    /// The register as one value: its symbolic parts joined pairwise by
    /// `,` into a balanced tree, and its first eight known bytes read
    /// big-endian as the offset.
    pub fn get_as_register(&self) -> (r: RegisterValue)
        ensures
            r@.kind == self@.kind,
            r@.base == lane_tree(self@.base, 0, 16),
            r@.offset == be_acc64(self@.offset, 8) as i64,
    {
        let mut acc: u64 = 0;
        for i in 0..8
            invariant
                acc == be_acc64(self.offset@, i as nat),
        {
            acc = (acc << 8u64) | (self.offset[i] as u64);
        }
        let offset = acc as i64;
        let base = lane_tree_exec(&self.base, 0, 16);
        RegisterValue { kind: self.kind, base, offset }
    }
}


/// Negating a comparison twice gives it back.
pub proof fn law_negation_involutive(op: Seq<char>)
    requires
        negated_op(op) is Some,
    ensures
        negated_op(negated_op(op)->0) == Some(op),
{
    let lt = seq!['<'];
    let gt = seq!['>'];
    let ge = seq!['>', '='];
    let le = seq!['<', '='];
    let eq = seq!['=', '='];
    let ne = seq!['!', '='];
    assert(lt.len() == 1 && gt.len() == 1 && ge.len() == 2 && le.len() == 2 && eq.len() == 2 && ne.len() == 2);
    assert(lt[0] != gt[0] && ge[0] != le[0] && ge[0] != eq[0] && ge[0] != ne[0] && le[0] != eq[0] && le[0] != ne[0] && eq[0] != ne[0]);
    assert(lt != gt && ge != le && ge != eq && ge != ne && le != eq && le != ne && eq != ne);
    assert(lt != ge && lt != le && lt != eq && lt != ne && gt != ge && gt != le && gt != eq && gt != ne);
}

/// Whether `op` is an operator that Z3 terms are made for.
pub open spec fn ast_operator(op: Seq<char>) -> bool {
    op == "+"@ || op == "-"@ || op == "*"@ || op == "/"@ || op == "lsl"@ || op == ">>"@ || op == "lsr"@ || op
        == "%"@
}

/// Whether a Z3 term can be made of `e`: each of its operators is one of
/// `+ - * / lsl >> lsr %`.
pub open spec fn ast_translatable(e: ExprModel) -> bool
    decreases e,
{
    match e {
        ExprModel::Register(_, b, _) => match b {
            Some(x) => ast_translatable(*x),
            None => true,
        },
        ExprModel::Expression(op, a, b) => ast_operator(op) && ast_translatable(*a) && ast_translatable(*b),
        ExprModel::Abstract(n) => z3_name(n),
        _ => true,
    }
}

/// The term that `expression_to_ast` makes of `e`: a number as itself, a
/// name as the constant of that name, a register as its base plus its
/// offset (its offset alone where it has no base), `+ - * / %` as
/// themselves, `a lsl b` as `a * 2 pow b`, `a >> b` and `a lsr b` as
/// `a / (b / 2)`, and anything else as zero.
pub open spec fn ast_of(e: ExprModel) -> ExprModel
    decreases e,
{
    match e {
        ExprModel::Immediate(v) => ExprModel::Immediate(v),
        ExprModel::Abstract(n) => ExprModel::Abstract(n),
        ExprModel::Register(_, b, off) => match b {
            Some(x) => ExprModel::Expression(seq!['+'], Box::new(ast_of(*x)), Box::new(ExprModel::Immediate(off))),
            None => ExprModel::Immediate(off),
        },
        ExprModel::Expression(op, a, b) => {
            let x = ast_of(*a);
            let y = ast_of(*b);
            if op == "lsl"@ {
                ExprModel::Expression(
                    seq!['*'],
                    Box::new(x),
                    Box::new(ExprModel::Expression(seq!['p', 'o', 'w'], Box::new(ExprModel::Immediate(2)), Box::new(y))),
                )
            } else if op == ">>"@ || op == "lsr"@ {
                ExprModel::Expression(
                    seq!['/'],
                    Box::new(x),
                    Box::new(ExprModel::Expression(seq!['/'], Box::new(y), Box::new(ExprModel::Immediate(2)))),
                )
            } else {
                ExprModel::Expression(op, Box::new(x), Box::new(y))
            }
        },
        ExprModel::Empty => ExprModel::Immediate(0),
    }
}

/// The formula that `comparison_to_ast` makes of `c`: `< > >= <=` as
/// themselves over `ast_of` of the sides, `==` as `<=` and `>=`, and `!=`
/// as `<` or `>`.
pub open spec fn formula_of(c: ComparisonModel) -> BoolModel {
    let l = ast_of(c.left);
    let r = ast_of(c.right);
    if c.op == "=="@ {
        BoolModel::And(Box::new(BoolModel::Cmp(seq!['<', '='], l, r)), Box::new(BoolModel::Cmp(seq!['>', '='], l, r)))
    } else if c.op == "!="@ {
        BoolModel::Or(Box::new(BoolModel::Cmp(seq!['<'], l, r)), Box::new(BoolModel::Cmp(seq!['>'], l, r)))
    } else {
        BoolModel::Cmp(c.op, l, r)
    }
}

/// The Z3 integer term of an expression: a number as itself, a name as an
/// integer constant, a register as its base plus its offset, and an
/// operation as the matching term (`lsl` multiplies by two to the power of
/// the amount; `>>` and `lsr` divide by half the amount); anything else is
/// zero (see `ast_of`). The term belongs to `context`.
pub fn expression_to_ast<'ctx>(context: &'ctx Context, expression: AbstractExpression) -> (r: Option<Int<'ctx>>)
    requires
        ast_translatable(expression@),
    ensures
        r is Some,
        int_in(&r->0, context),
        int_term(&r->0) == ast_of(expression@),
    decreases expression,
{
    proof {
        reveal_strlit("+");
        reveal_strlit("-");
        reveal_strlit("*");
        reveal_strlit("/");
        reveal_strlit("lsl");
        reveal_strlit(">>");
        reveal_strlit("lsr");
        reveal_strlit("%");
        assert("+"@ =~= seq!['+']);
        assert("-"@ =~= seq!['-']);
        assert("*"@ =~= seq!['*']);
        assert("/"@ =~= seq!['/']);
        assert("%"@ =~= seq!['%']);
    }
    match expression {
        AbstractExpression::Immediate(num) => Some(int_value(context, num)),
        AbstractExpression::Abstract(a) => Some(int_const(context, a.as_str())),
        AbstractExpression::Register(reg) => {
            let reg = *reg;
            match reg.base {
                Some(base) => {
                    let base = match expression_to_ast(context, base) {
                        Some(b) => b,
                        None => int_value(context, 0),
                    };
                    let offset = int_value(context, reg.offset);
                    Some(int_add(context, &base, &offset))
                },
                None => Some(int_value(context, reg.offset)),
            }
        },
        AbstractExpression::Expression(op, old1, old2) => {
            let new1 = match expression_to_ast(context, *old1) {
                Some(t) => t,
                None => int_value(context, 0),
            };
            let new2 = match expression_to_ast(context, *old2) {
                Some(t) => t,
                None => int_value(context, 0),
            };
            if text_is(&op, "+") {
                Some(int_add(context, &new1, &new2))
            } else if text_is(&op, "-") {
                Some(int_sub(context, &new1, &new2))
            } else if text_is(&op, "*") {
                Some(int_mul(context, &new1, &new2))
            } else if text_is(&op, "/") {
                Some(int_div(context, &new1, &new2))
            } else if text_is(&op, "lsl") {
                let two = int_value(context, 2);
                let multiplier = int_power(context, &two, &new2);
                Some(int_mul(context, &new1, &multiplier))
            } else if text_is(&op, ">>") || text_is(&op, "lsr") {
                let two = int_value(context, 2);
                let divisor = int_div(context, &new2, &two);
                Some(int_div(context, &new1, &divisor))
            } else {
                Some(int_modulo(context, &new1, &new2))
            }
        },
        _ => Some(int_value(context, 0)),
    }
}

/// Whether `op` is a comparison that Z3 terms are made for.
pub open spec fn ast_comparison(op: Seq<char>) -> bool {
    op == "<"@ || op == ">"@ || op == ">="@ || op == "<="@ || op == "=="@ || op == "!="@
}

/// The Z3 truth term of a comparison; `==` is made as `<=` and `>=`, and
/// `!=` as `<` or `>` (see `formula_of`). The term belongs to `context`.
pub fn comparison_to_ast<'ctx>(context: &'ctx Context, expression: AbstractComparison) -> (r: Option<Bool<'ctx>>)
    requires
        ast_comparison(expression@.op),
        ast_translatable(expression@.left),
        ast_translatable(expression@.right),
    ensures
        r is Some,
        bool_in(&r->0, context),
        bool_term(&r->0) == formula_of(expression@),
{
    proof {
        reveal_strlit("<");
        reveal_strlit(">");
        reveal_strlit(">=");
        reveal_strlit("<=");
        reveal_strlit("==");
        reveal_strlit("!=");
        assert("<"@ =~= seq!['<']);
        assert(">"@ =~= seq!['>']);
        assert(">="@ =~= seq!['>', '=']);
        assert("<="@ =~= seq!['<', '=']);
    }
    let left = match expression_to_ast(context, *expression.left) {
        Some(t) => t,
        None => int_value(context, 0),
    };
    let right = match expression_to_ast(context, *expression.right) {
        Some(t) => t,
        None => int_value(context, 0),
    };
    let op = expression.op;
    if text_is(&op, "<") {
        Some(int_lt(context, &left, &right))
    } else if text_is(&op, ">") {
        Some(int_gt(context, &left, &right))
    } else if text_is(&op, ">=") {
        Some(int_ge(context, &left, &right))
    } else if text_is(&op, "<=") {
        Some(int_le(context, &left, &right))
    } else if text_is(&op, "==") {
        let a = int_le(context, &left, &right);
        let b = int_ge(context, &left, &right);
        Some(bool_and(context, &a, &b))
    } else {
        let a = int_lt(context, &left, &right);
        let b = int_gt(context, &left, &right);
        Some(bool_or(context, &a, &b))
    }
}

/// What `{:?}` prints of a string: the string in double quotes, with the
/// characters that `Debug` escapes escaped.
pub uninterp spec fn str_debug(s: Seq<char>) -> Seq<char>;

/// `Debug` of a `str`: the text that `{:?}` gives the string `s`.
#[verifier::external_body]
fn str_debug_text(s: &str) -> (r: String)
    ensures
        r@ == str_debug(s@),
{
    format!("{:?}", s)
}

/// The name of a register kind, as `Debug` prints it.
pub open spec fn kind_debug(k: RegisterKind) -> Seq<char> {
    match k {
        RegisterKind::RegisterBase => "RegisterBase"@,
        RegisterKind::Number => "Number"@,
        RegisterKind::Immediate => "Immediate"@,
    }
}

/// The derived `Debug` text of a register value of kind `k`, whose base
/// prints as `base` where it has one, with offset `o`.
pub open spec fn register_debug_parts(k: RegisterKind, base: Option<Seq<char>>, o: i64) -> Seq<char> {
    "RegisterValue { kind: "@ + kind_debug(k) + ", base: "@ + (match base {
        Some(t) => "Some("@ + t + ")"@,
        None => "None"@,
    }) + ", offset: "@ + int_text_spec(o) + " }"@
}

/// The derived `Debug` text of an expression: its variant, with its fields
/// in brackets; names and operators as `Debug` prints strings.
pub open spec fn expr_debug(e: ExprModel) -> Seq<char>
    decreases e,
{
    match e {
        ExprModel::Empty => "Empty"@,
        ExprModel::Immediate(v) => "Immediate("@ + int_text_spec(v) + ")"@,
        ExprModel::Abstract(n) => "Abstract("@ + str_debug(n) + ")"@,
        ExprModel::Register(k, b, o) => "Register("@ + register_debug_parts(
            k,
            match b {
                Some(x) => Some(expr_debug(*x)),
                None => None,
            },
            o,
        ) + ")"@,
        ExprModel::Expression(op, a, b) => "Expression("@ + str_debug(op) + ", "@ + expr_debug(*a) + ", "@ + expr_debug(
            *b,
        ) + ")"@,
    }
}

/// What `{:?}` prints of a register value.
pub open spec fn register_debug(r: RegisterModel) -> Seq<char> {
    register_debug_parts(
        r.kind,
        match r.base {
            Some(b) => Some(expr_debug(b)),
            None => None,
        },
        r.offset,
    )
}

/// The text that `{:?}` formatting gives a register value (see
/// `register_debug`).
pub fn register_debug_text(r: &RegisterValue) -> (s: String)
    ensures
        s@ == register_debug(r@),
    decreases r, 1nat,
{
    proof {
        reveal_strlit("RegisterValue { kind: ");
        reveal_strlit("RegisterBase");
        reveal_strlit("Number");
        reveal_strlit("Immediate");
        reveal_strlit(", base: ");
        reveal_strlit("Some(");
        reveal_strlit(")");
        reveal_strlit("None");
        reveal_strlit(", offset: ");
        reveal_strlit(" }");
    }
    let mut s = "RegisterValue { kind: ".to_string();
    let kind: &str = match r.kind {
        RegisterKind::RegisterBase => "RegisterBase",
        RegisterKind::Number => "Number",
        RegisterKind::Immediate => "Immediate",
    };
    s.append(kind);
    s.append(", base: ");
    match &r.base {
        Some(b) => {
            s.append("Some(");
            let t = expression_debug_text(b);
            s.append(t.as_str());
            s.append(")");
        },
        None => {
            s.append("None");
        },
    }
    s.append(", offset: ");
    let o = int_text(r.offset);
    s.append(o.as_str());
    s.append(" }");
    proof {
        assert(s@ =~= register_debug(r@));
    }
    s
}

/// The text that `{:?}` formatting gives an expression (see `expr_debug`).
pub fn expression_debug_text(e: &AbstractExpression) -> (s: String)
    ensures
        s@ == expr_debug(e@),
    decreases e, 0nat,
{
    proof {
        reveal_strlit("Empty");
        reveal_strlit("Immediate(");
        reveal_strlit("Abstract(");
        reveal_strlit("Register(");
        reveal_strlit("Expression(");
        reveal_strlit(", ");
        reveal_strlit(")");
    }
    match e {
        AbstractExpression::Empty => "Empty".to_string(),
        AbstractExpression::Immediate(v) => {
            let mut s = "Immediate(".to_string();
            s.append(int_text(*v).as_str());
            s.append(")");
            s
        },
        AbstractExpression::Abstract(n) => {
            let mut s = "Abstract(".to_string();
            s.append(str_debug_text(n.as_str()).as_str());
            s.append(")");
            s
        },
        AbstractExpression::Register(reg) => {
            let mut s = "Register(".to_string();
            s.append(register_debug_text(reg).as_str());
            s.append(")");
            proof {
                assert(reg@.base == match e@ {
                    ExprModel::Register(_, b, _) => match b {
                        Some(x) => Some(*x),
                        None => None,
                    },
                    _ => None,
                });
            }
            s
        },
        AbstractExpression::Expression(op, a, b) => {
            let mut s = "Expression(".to_string();
            s.append(str_debug_text(op.as_str()).as_str());
            s.append(", ");
            s.append(expression_debug_text(a).as_str());
            s.append(", ");
            s.append(expression_debug_text(b).as_str());
            s.append(")");
            s
        },
    }
}

/// The decimal digits of `n`, as a text.
fn decimal_text(n: u64) -> (r: String)
    ensures
        r@ == decimal(n as nat),
    decreases n,
{
    if n < 10 {
        digit_text(n as usize).to_string()
    } else {
        let mut r = decimal_text(n / 10);
        r.append(digit_text((n % 10) as usize));
        r
    }
}

/// A number in decimal, with a leading `-` where it is negative.
pub open spec fn int_text_spec(v: i64) -> Seq<char> {
    if v < 0 {
        seq!['-'] + decimal((-(v as int)) as nat)
    } else {
        decimal(v as nat)
    }
}

/// A number in decimal, with a leading `-` where it is negative.
pub fn int_text(v: i64) -> (r: String)
    ensures
        r@ == int_text_spec(v),
{
    if v < 0 {
        let magnitude: u64 = (0i128 - (v as i128)) as u64;
        let mut r = "-".to_string();
        proof {
            reveal_strlit("-");
        }
        r.append(decimal_text(magnitude).as_str());
        r
    } else {
        decimal_text(v as u64)
    }
}

/// The text of an expression: `Empty`, a number in decimal, a name, a
/// register as its `Debug` text in brackets, or `(a op b)`.
pub open spec fn expr_text(e: ExprModel) -> Seq<char>
    decreases e,
{
    match e {
        ExprModel::Empty => "Empty"@,
        ExprModel::Immediate(v) => int_text_spec(v),
        ExprModel::Abstract(n) => n,
        ExprModel::Register(k, b, o) => seq!['('] + register_debug(
            RegisterModel {
                kind: k,
                base: match b {
                    Some(x) => Some(*x),
                    None => None,
                },
                offset: o,
            },
        ) + seq![')'],
        ExprModel::Expression(op, a, b) => seq!['('] + expr_text(*a) + seq![' '] + op + seq![' '] + expr_text(*b)
            + seq![')'],
    }
}

impl AbstractExpression {
    /// The text of the expression (see `expr_text`).
    pub fn to_string(&self) -> (r: String)
        ensures
            r@ == expr_text(self@),
        decreases self,
    {
        proof {
            reveal_strlit("Empty");
            reveal_strlit("(");
            reveal_strlit(")");
            reveal_strlit(" ");
        }
        match self {
            AbstractExpression::Empty => "Empty".to_string(),
            AbstractExpression::Immediate(v) => int_text(*v),
            AbstractExpression::Abstract(n) => n.clone(),
            AbstractExpression::Register(reg) => {
                let mut r = "(".to_string();
                r.append(register_debug_text(reg).as_str());
                r.append(")");
                proof {
                    assert(reg@.base == match self@ {
                        ExprModel::Register(_, b, _) => match b {
                            Some(x) => Some(*x),
                            None => None,
                        },
                        _ => None,
                    });
                }
                r
            },
            AbstractExpression::Expression(op, a, b) => {
                let mut r = "(".to_string();
                r.append(a.to_string().as_str());
                r.append(" ");
                r.append(op.as_str());
                r.append(" ");
                r.append(b.to_string().as_str());
                r.append(")");
                r
            },
        }
    }
}

} // verus!
