//! Loads and stores, and the bounds check that each makes with the solver.
use vstd::prelude::*;
use crate::common::{
    AbstractExpression, ExprModel, MemoryAccess, copy_expression, MemorySafeRegion, MemorySafetyError, RegionType, RegisterKind,
    RegisterModel, RegisterValue, abstracts_of, ast_of, ast_translatable, expr_contains, expr_debug, expr_text,
    expression_debug_text, expression_to_ast, int_text, int_text_spec, names_view, opt_model,
};
use crate::computer::{ARMCORTEXA, readable, stack_facts, write_target};
use crate::instruction_parser::{Operand, OperandModel};
use crate::smt::{BoolModel, Satisfiability, check_with, int_add, int_const, int_ge, int_lt, int_value, refuted_by, z3_name};

verus! {

/// The first label from position `from` whose name is among `abs`.
pub open spec fn first_label(labels: Seq<(String, i64)>, abs: Seq<Seq<char>>, from: int) -> Option<int>
    decreases labels.len() - from,
{
    if from >= labels.len() {
        None
    } else if abs.contains(labels[from].0@) {
        Some(from)
    } else {
        first_label(labels, abs, from + 1)
    }
}

/// The search for the region of a symbolic address whose names are `abs`,
/// from region `i` on, having found `found` so far with offset `offset`: a
/// region named in the address ends it; before each other region, a label
/// named in the address makes the region `memory` (at `memory_index`) the
/// one found, with the label's address as the offset.
pub open spec fn scan_regions(
    names: Seq<Seq<char>>,
    labels: Seq<(String, i64)>,
    abs: Seq<Seq<char>>,
    memory_index: Option<int>,
    i: int,
    found: Option<int>,
    offset: i64,
) -> (Option<int>, i64)
    decreases names.len() - i,
{
    if i >= names.len() {
        (found, offset)
    } else if abs.contains(names[i]) {
        (Some(i), offset)
    } else {
        match first_label(labels, abs, 0) {
            Some(j) => scan_regions(names, labels, abs, memory_index, i + 1, memory_index, labels[j].1),
            None => scan_regions(names, labels, abs, memory_index, i + 1, found, offset),
        }
    }
}

/// Whether the search from region `i` on turns to the region `memory`.
pub open spec fn scan_needs_memory(
    names: Seq<Seq<char>>,
    labels: Seq<(String, i64)>,
    abs: Seq<Seq<char>>,
    i: int,
) -> bool
    decreases names.len() - i,
{
    if i >= names.len() {
        false
    } else if abs.contains(names[i]) {
        false
    } else {
        first_label(labels, abs, 0) is Some || scan_needs_memory(names, labels, abs, i + 1)
    }
}

/// Where the pointer `base` + `offset` points: the region `base`, or a
/// label's place in the region `memory`, or else `memory` itself.
pub open spec fn pointer_of(s: &ARMCORTEXA, base: Seq<char>, offset: i64) -> (Seq<char>, i64) {
    if s.region_index(base) is Some {
        (base, offset)
    } else {
        match s.label_address(base) {
            Some(a) => ("memory"@, vstd::wrapping::i64_specs::wrapping_add(a, offset)),
            None => ("memory"@, offset),
        }
    }
}

/// What is known of the value at `address` of a region: what was recorded
/// there, or else an unknown number.
pub open spec fn value_at(region: MemorySafeRegion, address: i64) -> RegisterModel {
    if region.content_spec().contains_key(address) {
        region.content_spec()[address]@
    } else {
        RegisterModel { kind: RegisterKind::Number, base: None, offset: 0 }
    }
}

/// The name that an access to a base is recorded under: a region's or
/// label's name, or the text of a symbolic base.
pub open spec fn access_name(base: ExprModel) -> Seq<char> {
    match base {
        ExprModel::Abstract(name) => name,
        _ => expr_text(base),
    }
}

/// Whether a load into `t` from `address` can be made: the address has a
/// base whose access can be checked, and `t` names a register.
pub open spec fn load_ok(s: &ARMCORTEXA, t: OperandModel, address: RegisterModel) -> bool {
    &&& address.base is Some
    &&& s.access_defined(address.base->0)
    &&& write_target(t) is Some
}

/// Whether a store of `register` to `address` can be made: the address has
/// a base whose access can be checked, and, for a named base, `register`
/// can be read.
pub open spec fn store_ok(s: &ARMCORTEXA, register: OperandModel, address: RegisterModel) -> bool {
    &&& address.base is Some
    &&& s.access_defined(address.base->0)
    &&& address.base->0 is Abstract ==> readable(register)
}

/// The answer of a check: `None` where it passed, else its message.
pub open spec fn outcome(r: Result<(), MemorySafetyError>) -> Option<Seq<char>> {
    match r {
        Ok(_) => None,
        Err(e) => Some(e.message()),
    }
}

/// Whether `name` is among `v`.
fn names_contain(v: &Vec<String>, name: &String) -> (r: bool)
    ensures
        r == names_view(v@).contains(name@),
{
    for i in 0..v.len()
        invariant
            forall|j: int| 0 <= j < i ==> v@[j]@ != name@,
    {
        if crate::common::text_is(&v[i], name.as_str()) {
            assert(names_view(v@)[i as int] == name@);
            return true;
        }
    }
    proof {
        if names_view(v@).contains(name@) {
            let k = choose|k: int| 0 <= k < names_view(v@).len() && names_view(v@)[k] == name@;
            assert(v@[k]@ == name@);
        }
    }
    false
}

impl<'ctx> ARMCORTEXA<'ctx> {
    /// The region an access to `base` + `offset` falls in, the offset
    /// within it, and whether the base is symbolic; `None` where no region
    /// matches.
    pub open spec fn access_target(&self, base: ExprModel, offset: i64) -> Option<(int, i64, bool)> {
        match base {
            ExprModel::Abstract(name) => match self.region_index(name) {
                Some(i) => Some((i, offset, false)),
                None => match self.label_address(name) {
                    Some(a) => Some(
                        (self.region_index("memory"@)->0, vstd::wrapping::i64_specs::wrapping_add(offset, a), false),
                    ),
                    None => None,
                },
            },
            _ => {
                let (f, off) = scan_regions(
                    self.region_names(),
                    self.memory_labels@,
                    abstracts_of(base),
                    self.region_index("memory"@),
                    0,
                    None,
                    offset,
                );
                match f {
                    Some(i) => Some((i, off, true)),
                    None => None,
                }
            },
        }
    }

    /// Whether an access to `base` can be checked: a named base is a region
    /// or a label (with the region `memory`); a symbolic base is one Z3
    /// terms can be made of, and the search finds `memory` where it turns
    /// to it.
    pub open spec fn access_defined(&self, base: ExprModel) -> bool {
        match base {
            ExprModel::Abstract(name) => z3_name(name) && (self.region_index(name) is Some || (self.label_address(
                name,
            ) is Some && self.region_index("memory"@) is Some)),
            _ => ast_translatable(base) && (scan_needs_memory(
                self.region_names(),
                self.memory_labels@,
                abstracts_of(base),
                0,
            ) ==> self.region_index("memory"@) is Some),
        }
    }

    /// Every region's length can be given to the solver, and every region
    /// and label has a name that the solver can take.
    pub open spec fn regions_ok(&self) -> bool {
        &&& forall|i: int|
            0 <= i < self.memory@.len() ==> ast_translatable((#[trigger] self.memory@[i]).1.length_spec())
        &&& forall|i: int| 0 <= i < self.memory@.len() ==> z3_name((#[trigger] self.memory@[i]).0@)
        &&& forall|i: int| 0 <= i < self.memory_labels@.len() ==> z3_name((#[trigger] self.memory_labels@[i]).0@)
    }

    /// The two queries of the bounds check, for an access whose address
    /// is the term `access_base` plus `magnitude`, in a region whose base
    /// is the constant `name` and whose length is `length`: whether the
    /// address can fall below the base, and whether it can reach the base
    /// plus the length or beyond (the region's bytes are those below it).
    pub open spec fn bound_queries(
        access_base: ExprModel,
        name: Seq<char>,
        magnitude: i64,
        length: ExprModel,
    ) -> (BoolModel, BoolModel) {
        let access = ExprModel::Expression(seq!['+'], Box::new(access_base), Box::new(ExprModel::Immediate(magnitude)));
        let low = ExprModel::Expression(seq!['+'], Box::new(ExprModel::Abstract(name)), Box::new(ExprModel::Immediate(0)));
        let up = ExprModel::Expression(seq!['+'], Box::new(ExprModel::Abstract(name)), Box::new(ast_of(length)));
        (
            BoolModel::Cmp(seq!['<'], access, low),
            BoolModel::Cmp(seq!['>', '='], access, up),
        )
    }

    /// The offset that the bounds check adds: its magnitude, for an
    /// address on the stack (a name in it holds `sp`).
    pub open spec fn access_magnitude(base: ExprModel, offset: i64) -> i64 {
        if expr_contains(base, "sp"@) && offset < 0 && offset != i64::MIN {
            (-offset) as i64
        } else {
            offset
        }
    }

    /// The solver ruled out both ways in which an access to `base` +
    /// `offset`, measured from the region base named `name`, could leave
    /// its region: below its base, and beyond its length.
    pub open spec fn bounds_refuted(&self, base: ExprModel, offset: i64, name: Seq<char>) -> bool {
        match self.access_target(base, offset) {
            Some((i, off, symbolic)) => {
                let (below, beyond) = Self::bound_queries(
                    if symbolic {
                        ast_of(base)
                    } else {
                        ExprModel::Abstract(name)
                    },
                    name,
                    Self::access_magnitude(base, off),
                    self.memory@[i].1.length_spec(),
                );
                refuted_by(stack_facts(), below) && refuted_by(stack_facts(), beyond)
            },
            None => false,
        }
    }

    /// What the bounds check answers for an access of kind `ty` to `base` +
    /// `offset` (see `access_outcome`), and that an access it allows is
    /// one whose leaving the region the solver ruled out, measured from
    /// the base named by the address where it is a name.
    pub open spec fn access_checked(&self, base: ExprModel, offset: i64, ty: RegionType, o: Option<Seq<char>>) -> bool {
        &&& self.access_outcome(base, offset, ty, o)
        &&& o is None ==> match base {
            ExprModel::Abstract(name) => self.bounds_refuted(base, offset, name),
            _ => exists|name: Seq<char>| self.bounds_refuted(base, offset, name),
        }
    }

    /// What the bounds check of an access of kind `ty` to `base` +
    /// `offset` may answer (`None` where it allows the access, else the
    /// refusal's message): no region matches; a write to a read-only
    /// region; or, as the solver finds, the access is within its region or
    /// may fall outside it.
    pub open spec fn access_outcome(&self, base: ExprModel, offset: i64, ty: RegionType, o: Option<Seq<char>>) -> bool {
        match self.access_target(base, offset) {
            None => o == Some(no_region_message(base, offset)),
            Some((i, off, _)) => if ty == RegionType::WRITE && self.memory@[i].1.kind_spec() == RegionType::READ {
                o == Some(kind_mismatch_message(self.memory@[i].1.kind_spec(), ty, base))
            } else {
                o is None || o == Some(outside_message(base, off))
            },
        }
    }

    /// `self` is `old` after a load into `t` from `address` whose bounds
    /// check answered `o`.
    pub open spec fn load_step(&self, old: &Self, t: OperandModel, address: RegisterModel, o: Option<Seq<char>>) -> bool {
        &&& old.access_outcome(address.base->0, address.offset, RegionType::READ, o)
        &&& o is None ==> self.loaded(old, t, address)
        &&& o is Some ==> *self == *old
    }

    /// `self` is `old` after a store of `register` to `address` whose
    /// bounds check answered `o`.
    pub open spec fn store_step(&self, old: &Self, register: OperandModel, address: RegisterModel, o: Option<Seq<char>>) -> bool {
        &&& old.access_outcome(address.base->0, address.offset, RegionType::WRITE, o)
        &&& o is None ==> self.stored(old, register, address)
        &&& o is Some ==> *self == *old
    }

    /// Where the pointer `base` + `offset` points (see `pointer_of`).
    fn get_memory_pointer(&self, base: String, offset: i64) -> (r: (String, i64))
        requires
            self.wf(),
        ensures
            (r.0@, r.1) == pointer_of(self, base@, offset),
    {
        if self.find_region(base.as_str()).is_some() {
            (base, offset)
        } else {
            match self.find_label(base.as_str()) {
                Some(address) => ("memory".to_string(), address.wrapping_add(offset)),
                None => ("memory".to_string(), offset),
            }
        }
    }

    /// Checks an access of kind `ty` to `base_expr` + `offset`: finds its
    /// region (see `access_target`), refuses a write to a read-only region,
    /// and asks the solver whether the access can fall below the region's
    /// base or beyond its length (at or beyond it, for a named base at
    /// offset zero); the access is safe where neither can happen. Offsets
    /// from the stack pointer count by their magnitude.
    pub fn mem_safe_access(&self, base_expr: AbstractExpression, offset: i64, ty: RegionType) -> (r: Result<(), MemorySafetyError>)
        requires
            self.wf(),
            self.regions_ok(),
            self.access_defined(base_expr@),
        ensures
            self.access_checked(base_expr@, offset, ty, outcome(r)),
    {
        let ctx = self.context;
        let ghost base_model = base_expr@;
        let ghost offset_in = offset;
        let offset0 = offset;
        let mut offset = offset;
        let mut symbolic_base = false;
        let region_index: usize;
        let base_name: String;
        match &base_expr {
            AbstractExpression::Abstract(regbase) => {
                match self.find_region(regbase.as_str()) {
                    Some(i) => {
                        region_index = i;
                    },
                    None => {
                        let address = match self.find_label(regbase.as_str()) {
                            Some(a) => a,
                            None => 0,
                        };
                        offset = offset.wrapping_add(address);
                        region_index = match self.find_region("memory") {
                            Some(m) => m,
                            None => 0,
                        };
                    },
                }
                base_name = regbase.clone();
            },
            _ => {
                symbolic_base = true;
                let abstracts = base_expr.get_abstracts();
                let ghost abs = abstracts_of(base_expr@);
                let ghost mi = self.region_index("memory"@);
                let ghost total = scan_regions(self.region_names(), self.memory_labels@, abs, mi, 0, None, offset);
                let mut found: Option<usize> = None;
                let mut name = String::new();
                let mut i: usize = 0;
                while i < self.memory.len()
                    invariant
                        self.wf(),
                        self.regions_ok(),
                        found is Some ==> z3_name(name@),
                        self.access_defined(base_expr@),
                        !(base_expr@ is Abstract),
                        names_view(abstracts@) == abs,
                        abs == abstracts_of(base_expr@),
                        mi == self.region_index("memory"@),
                        i <= self.memory@.len(),
                        total == scan_regions(
                            self.region_names(),
                            self.memory_labels@,
                            abs,
                            mi,
                            i as int,
                            match found {
                                Some(f) => Some(f as int),
                                None => None,
                            },
                            offset,
                        ),
                        scan_needs_memory(self.region_names(), self.memory_labels@, abs, i as int) ==> mi is Some,
                        found matches Some(f) ==> f < self.memory@.len(),
                    decreases self.memory@.len() - i,
                {
                    if names_contain(&abstracts, &self.memory[i].0) {
                        assert(abs.contains(self.region_names()[i as int]));
                        let ghost i0 = i as int;
                        assert(total == (Some(i0), offset));
                        found = Some(i);
                        name = self.memory[i].0.clone();
                        assert(z3_name(self.memory@[i as int].0@));
                        i = self.memory.len();
                        assert(scan_regions(self.region_names(), self.memory_labels@, abs, mi, i as int, Some(i0), offset) == (Some(i0), offset));
                    } else {
                        assert(!abs.contains(self.region_names()[i as int]));
                        let ghost first = first_label(self.memory_labels@, abs, 0);
                        let ghost found0 = found;
                        let ghost offset0 = offset;
                        assert(first is Some ==> scan_needs_memory(self.region_names(), self.memory_labels@, abs, i as int));
                        let mut j: usize = 0;
                        let mut hit = false;
                        while j < self.memory_labels.len()
                            invariant
                                self.wf(),
                                self.regions_ok(),
                                found is Some ==> z3_name(name@),
                                names_view(abstracts@) == abs,
                                mi == self.region_index("memory"@),
                                j <= self.memory_labels@.len(),
                                first == first_label(self.memory_labels@, abs, 0),
                                !hit ==> first == first_label(self.memory_labels@, abs, j as int),
                                hit ==> (first is Some && offset == self.memory_labels@[first->0].1 && match found {
                                    Some(f) => mi == Some(f as int),
                                    None => mi is None,
                                }),
                                first is Some ==> mi is Some,
                                hit ==> j == self.memory_labels@.len(),
                                !hit ==> found == found0 && offset == offset0,
                                found matches Some(f) ==> f < self.memory@.len(),
                            decreases self.memory_labels@.len() - j,
                        {
                            if names_contain(&abstracts, &self.memory_labels[j].0) {
                                assert(first_label(self.memory_labels@, abs, j as int) == Some(j as int));
                                offset = self.memory_labels[j].1;
                                found = self.find_region("memory");
                                name = self.memory_labels[j].0.clone();
                                hit = true;
                                assert(z3_name(self.memory_labels@[j as int].0@));
                                j = self.memory_labels.len();
                            } else {
                                j = j + 1;
                            }
                        }
                        proof {
                            if !hit {
                                assert(first_label(self.memory_labels@, abs, j as int) is None);
                                assert(first is None);
                            } else {
                                assert(first is Some);
                            }
                        }
                        i = i + 1;
                    }
                }
                assert(total == (
                    match found {
                        Some(f) => Some(f as int),
                        None => None,
                    },
                    offset,
                ));
                match found {
                    Some(f) => {
                        region_index = f;
                        base_name = name;
                    },
                    None => {
                        return Err(no_region_error(&base_expr, offset0));
                    },
                }
            },
        }
        assert(self.access_target(base_expr@, offset_in) == Some((region_index as int, offset, symbolic_base)));
        let region = &self.memory[region_index].1;
        if ty == RegionType::WRITE && region.kind == RegionType::READ {
            return Err(kind_mismatch_error(region.kind, ty, &base_expr));
        }
        let on_stack = base_expr_contains_sp(&base_expr);
        let ghost length_model = region.length_spec();
        let base = int_const(ctx, base_name.as_str());
        let base_access = if symbolic_base {
            match expression_to_ast(ctx, crate::common::copy_expression(&base_expr)) {
                Some(t) => t,
                None => int_value(ctx, 0),
            }
        } else {
            int_const(ctx, base_name.as_str())
        };
        let magnitude = if on_stack {
            if offset < 0 && offset != i64::MIN {
                -offset
            } else {
                offset
            }
        } else {
            offset
        };
        let abs_offset = int_value(ctx, magnitude);
        let access = int_add(ctx, &base_access, &abs_offset);
        let zero = int_value(ctx, 0);
        let low_access = int_add(ctx, &base, &zero);
        let length = region.get_length();
        let upperbound_value = match expression_to_ast(ctx, length) {
            Some(t) => t,
            None => int_value(ctx, 0),
        };
        let up_access = int_add(ctx, &base, &upperbound_value);
        let l = int_lt(ctx, &access, &low_access);
        let u = int_ge(ctx, &access, &up_access);
        let below = check_with(&self.solver, &l, ctx);
        let beyond = check_with(&self.solver, &u, ctx);
        proof {
            let (qb, qa) = Self::bound_queries(
                if symbolic_base {
                    ast_of(base_model)
                } else {
                    ExprModel::Abstract(base_name@)
                },
                base_name@,
                Self::access_magnitude(base_model, offset),
                length_model,
            );
            assert(crate::smt::bool_term(&l) == qb);
            assert(crate::smt::bool_term(&u) == qa);
            if below == Satisfiability::Unsat && beyond == Satisfiability::Unsat {
                assert(self.bounds_refuted(base_model, offset_in, base_name@));
            }
        }
        access_verdict(below, beyond, &base_expr, offset)
    }

    /// `self` is `old` with an access of kind `kind` to `base` + `offset`
    /// added to the queue.
    pub open spec fn logged(&self, old: &Self, kind: RegionType, base: Seq<char>, offset: i64) -> bool {
        &&& self.rw_queue@.len() == old.rw_queue@.len() + 1
        &&& self.rw_queue@.take(old.rw_queue@.len() as int) == old.rw_queue@
        &&& self.rw_queue@.last().kind == kind
        &&& self.rw_queue@.last().base@ == base
        &&& self.rw_queue@.last().offset == offset
    }

    /// What a load into `t` from `address` has done, where the bounds check
    /// let it: for a named base, `t` holds what is known of the value the
    /// pointer points at; for a symbolic one, an unknown number. The access
    /// is queued.
    pub open spec fn loaded(&self, old: &Self, t: OperandModel, address: RegisterModel) -> bool {
        let base = address.base->0;
        &&& self.same_but_registers_and_queue(old)
        &&& self.logged(old, RegionType::READ, access_name(base), address.offset)
        &&& match base {
            ExprModel::Abstract(name) => {
                let (rn, off) = pointer_of(old, name, address.offset);
                let v = value_at(old.memory@[old.region_index(rn)->0].1, off);
                self.register_effect(old, t, v.kind, v.base, v.offset)
            },
            _ => self.register_effect(old, t, RegisterKind::Number, None, 0),
        }
    }

    /// What a store of `register` to `address` has done, where the bounds
    /// check let it: for a named base, the value of `register` is recorded
    /// where the pointer points. The access is queued.
    pub open spec fn stored(&self, old: &Self, register: OperandModel, address: RegisterModel) -> bool {
        let base = address.base->0;
        &&& self.registers@ == old.registers@
        &&& self.simd_registers@ == old.simd_registers@
        &&& self.zero == old.zero && self.neg == old.neg && self.carry == old.carry && self.overflow == old.overflow
        &&& self.memory_labels@ == old.memory_labels@
        &&& self.alignment == old.alignment
        &&& self.context == old.context
        &&& self.solver == old.solver
        &&& self.logged(old, RegionType::WRITE, access_name(base), address.offset)
        &&& match base {
            ExprModel::Abstract(name) => {
                let (rn, off) = pointer_of(old, name, address.offset);
                self.region_stored_as(old, old.region_index(rn)->0, off, old.read(register))
            },
            _ => self.memory@ == old.memory@,
        }
    }

    /// A load or store keeps the names of the regions and the labels.
    pub proof fn lemma_step_keeps_names(&self, old: &Self, t: OperandModel, a: RegisterModel, o: Option<Seq<char>>, store: bool)
        requires
            store ==> self.store_step(old, t, a, o),
            !store ==> self.load_step(old, t, a, o),
        ensures
            self.region_names() == old.region_names(),
            self.memory_labels@ == old.memory_labels@,
    {
        if o is None && store {
            assert(self.region_names() =~= old.region_names());
        }
    }

    /// Loads into `t` from `address`, after the bounds check (see
    /// `mem_safe_access`) for reading; where it fails, nothing changes.
    pub fn load(&mut self, t: Operand, address: RegisterValue) -> (r: Result<(), MemorySafetyError>)
        requires
            old(self).wf(),
            old(self).regions_ok(),
            load_ok(old(self), t@, address@),
        ensures
            final(self).wf(),
            final(self).regions_ok(),
            final(self).load_step(old(self), t@, address@, outcome(r)),
    {
        let base_expr = match &address.base {
            Some(b) => copy_expression(b),
            None => AbstractExpression::Empty,
        };
        let res = self.mem_safe_access(base_expr, address.offset, RegionType::READ);
        match res {
            Err(e) => Err(e),
            Ok(()) => {
                match &address.base {
                    Some(AbstractExpression::Abstract(base)) => {
                        let (region_name, offset) = self.get_memory_pointer(base.clone(), address.offset);
                        match self.find_region(region_name.as_str()) {
                            Some(ri) => {
                                match self.memory[ri].1.get(offset) {
                                    Some(v) => {
                                        self.set_register(&t, v.kind, v.base, v.offset);
                                        self.rw_queue.push(
                                            MemoryAccess { kind: RegionType::READ, base: base.clone(), offset: address.offset },
                                        );
                                        proof {
                                            assert(self.rw_queue@.take(old(self).rw_queue@.len() as int) =~= old(self).rw_queue@);
                                        }
                                        Ok(())
                                    },
                                    None => Err(MemorySafetyError::new("Cannot read element at this address from region")),
                                }
                            },
                            None => Err(MemorySafetyError::new("Cannot read element at this address from region")),
                        }
                    },
                    _ => {
                        let text = match &address.base {
                            Some(b) => b.to_string(),
                            None => String::new(),
                        };
                        self.rw_queue.push(MemoryAccess { kind: RegionType::READ, base: text, offset: address.offset });
                        self.set_register(&t, RegisterKind::Number, None, 0);
                        proof {
                            assert(self.rw_queue@.take(old(self).rw_queue@.len() as int) =~= old(self).rw_queue@);
                        }
                        Ok(())
                    },
                }
            },
        }
    }

    /// Loads into the SIMD register `t` from `address`, as `load` does.
    pub fn load_vector(&mut self, t: Operand, address: RegisterValue) -> (r: Result<(), MemorySafetyError>)
        requires
            old(self).wf(),
            old(self).regions_ok(),
            load_ok(old(self), t@, address@),
        ensures
            final(self).wf(),
            final(self).regions_ok(),
            final(self).load_step(old(self), t@, address@, outcome(r)),
    {
        self.load(t, address)
    }

    /// Stores the value of `register` to `address`, after the bounds check
    /// (see `mem_safe_access`) for writing; where it fails, nothing
    /// changes.
    pub fn store(&mut self, register: Operand, address: RegisterValue) -> (r: Result<(), MemorySafetyError>)
        requires
            old(self).wf(),
            old(self).regions_ok(),
            store_ok(old(self), register@, address@),
        ensures
            final(self).wf(),
            final(self).regions_ok(),
            final(self).store_step(old(self), register@, address@, outcome(r)),
    {
        let base_expr = match &address.base {
            Some(b) => copy_expression(b),
            None => AbstractExpression::Empty,
        };
        let res = self.mem_safe_access(base_expr, address.offset, RegionType::WRITE);
        match res {
            Err(e) => Err(e),
            Ok(()) => {
                match &address.base {
                    Some(AbstractExpression::Abstract(base)) => {
                        let (region_name, offset) = self.get_memory_pointer(base.clone(), address.offset);
                        let value = self.get_register(&register);
                        match self.find_region(region_name.as_str()) {
                            Some(ri) => {
                                let ghost before = *self;
                                self.memory[ri].1.insert(offset, value);
                                self.rw_queue.push(
                                    MemoryAccess { kind: RegionType::WRITE, base: base.clone(), offset: address.offset },
                                );
                                proof {
                                    assert(self.rw_queue@.take(old(self).rw_queue@.len() as int) =~= old(self).rw_queue@);
                                    self.lemma_names_kept(old(self));
                                    assert(self.memory@[ri as int].1.content_spec().dom() =~= old(self).memory@[ri as int].1.content_spec().dom().insert(offset));
                                }
                                Ok(())
                            },
                            None => Err(MemorySafetyError::new("No region")),
                        }
                    },
                    _ => {
                        let text = match &address.base {
                            Some(b) => b.to_string(),
                            None => String::new(),
                        };
                        self.rw_queue.push(MemoryAccess { kind: RegionType::WRITE, base: text, offset: address.offset });
                        proof {
                            assert(self.rw_queue@.take(old(self).rw_queue@.len() as int) =~= old(self).rw_queue@);
                        }
                        Ok(())
                    },
                }
            },
        }
    }

    /// Stores the SIMD register `register` to `address`, as `store` does.
    pub fn store_vector(&mut self, register: Operand, address: RegisterValue) -> (r: Result<(), MemorySafetyError>)
        requires
            old(self).wf(),
            old(self).regions_ok(),
            store_ok(old(self), register@, address@),
        ensures
            final(self).wf(),
            final(self).regions_ok(),
            final(self).store_step(old(self), register@, address@, outcome(r)),
    {
        self.store(register, address)
    }
}

/// An access that the bounds check allows falls in a region, and a write
/// so allowed falls in one that may be written.
pub proof fn law_allowed_access_in_region(s: &ARMCORTEXA, base: ExprModel, offset: i64, ty: RegionType)
    requires
        s.access_outcome(base, offset, ty, None),
    ensures
        s.access_target(base, offset) is Some,
        ty == RegionType::WRITE ==> s.memory@[(s.access_target(base, offset)->0).0].1.kind_spec() != RegionType::READ,
{
}

/// An access to a named region of `n` bytes that the bounds check allows
/// lies inside the region: its offset is at least zero and below `n`, and
/// it writes only where the region may be written.
pub proof fn law_accepted_access_within_region(s: &ARMCORTEXA, r: Seq<char>, offset: i64, ty: RegionType, n: i64)
    requires
        s.region_index(r) matches Some(i) && s.memory@[i].1.length_spec() == ExprModel::Immediate(n),
        !crate::text::contains_text(r, "sp"@),
        s.access_checked(ExprModel::Abstract(r), offset, ty, None),
    ensures
        0 <= offset < n,
        ty == RegionType::WRITE ==> s.memory@[s.region_index(r)->0].1.kind_spec() != RegionType::READ,
{
    let base = ExprModel::Abstract(r);
    let i = s.region_index(r)->0;
    assert(s.access_target(base, offset) == Some((i, offset, false)));
    assert(!expr_contains(base, "sp"@));
    let env = |x: Seq<char>| if x == "MAX"@ { i64::MAX as int } else { 0int };
    reveal_with_fuel(crate::smt::term_value, 3);
    let mx = i64::MAX as int;
    assert(env("MAX"@) == mx);
    assert(crate::smt::term_value(ExprModel::Abstract("MAX"@), env) == Some(mx));
    assert(crate::smt::term_value(ExprModel::Immediate(i64::MAX), env) == Some(mx));
    let ge = seq!['>', '='];
    let lt = seq!['<'];
    let le = seq!['<', '='];
    let gt = seq!['>'];
    assert(ge.len() == 2 && lt.len() == 1 && gt.len() == 1 && le.len() == 2);
    assert(gt[0] != lt[0]);
    assert(ge != lt && ge != gt);
    assert(ge[0] != le[0]);
    assert(ge != le);
    let f = BoolModel::Cmp(ge, ExprModel::Abstract("MAX"@), ExprModel::Immediate(i64::MAX));
    assert(stack_facts()[0] == f);
    assert(crate::smt::formula_value(f, env) == Some(true));
    assert(crate::smt::all_hold(stack_facts(), env));
    assert(gt != lt);
    assert(gt != le);
    assert(ast_of(ExprModel::Immediate(n)) == ExprModel::Immediate(n));
    let (below, beyond) = ARMCORTEXA::bound_queries(base, r, offset, ExprModel::Immediate(n));
    assert(crate::smt::refuted_by(stack_facts(), below));
    assert(crate::smt::refuted_by(stack_facts(), beyond));
    assert(crate::smt::formula_value(below, env) != Some(true));
    assert(crate::smt::formula_value(beyond, env) != Some(true));
    let v = env(r);
    let acc = ExprModel::Expression(seq!['+'], Box::new(base), Box::new(ExprModel::Immediate(offset)));
    let up = ExprModel::Expression(seq!['+'], Box::new(base), Box::new(ExprModel::Immediate(n)));
    let low = ExprModel::Expression(seq!['+'], Box::new(base), Box::new(ExprModel::Immediate(0)));
    assert(crate::smt::term_value(acc, env) == Some(v + offset));
    assert(crate::smt::term_value(up, env) == Some(v + n));
    assert(crate::smt::term_value(low, env) == Some(v));
}

/// A load from a named address reads back what a store to that address
/// wrote there.
pub proof fn law_load_after_store(
    old: &ARMCORTEXA,
    mid: &ARMCORTEXA,
    new: &ARMCORTEXA,
    register: OperandModel,
    t: OperandModel,
    address: RegisterModel,
)
    requires
        old.wf(),
        address.base matches Some(ExprModel::Abstract(_)),
        old.access_defined(address.base->0),
        mid.stored(old, register, address),
        new.loaded(mid, t, address),
        write_target(t) matches Some(crate::computer::WriteTarget::General(_)),
        readable(t),
    ensures
        new.read(t) == old.read(register),
{
    assert(mid.region_names() =~= old.region_names());
    let name = address.base->0->Abstract_0;
    assert(pointer_of(mid, name, address.offset) == pointer_of(old, name, address.offset));
}

/// The verdict of the bounds check from the solver's two answers: the
/// access is allowed exactly where the solver found that it can fall
/// neither below its region nor beyond it.
/// The refusal names the address `base` + `offset`.
pub fn access_verdict(below: Satisfiability, beyond: Satisfiability, base: &AbstractExpression, offset: i64) -> (r:
    Result<(), MemorySafetyError>)
    ensures
        r is Ok <==> (below == Satisfiability::Unsat && beyond == Satisfiability::Unsat),
        r is Err ==> r->Err_0.message() == outside_message(base@, offset),
{
    if below == Satisfiability::Unsat && beyond == Satisfiability::Unsat {
        Ok(())
    } else {
        let mut m = "Accessing address outside allowable memory regions ".to_string();
        m.append(expression_debug_text(base).as_str());
        m.append(", ");
        m.append(int_text(offset).as_str());
        proof {
            reveal_strlit("Accessing address outside allowable memory regions ");
            reveal_strlit(", ");
        }
        Err(MemorySafetyError::new(m.as_str()))
    }
}

/// The refusal of an access to `base` + `offset` that no region matches.
pub open spec fn no_region_message(base: ExprModel, offset: i64) -> Seq<char> {
    "No matching region found for access "@ + expr_debug(base) + ", "@ + int_text_spec(offset)
}

/// The refusal of an access of kind `ty` to `base` in a region of kind
/// `kind` that does not allow it.
pub open spec fn kind_mismatch_message(kind: RegionType, ty: RegionType, base: ExprModel) -> Seq<char> {
    "Access does not match region type "@ + region_debug(kind) + " "@ + region_debug(ty) + " "@ + expr_debug(base)
}

/// The refusal of an access to `base` + `offset` that may leave its region.
pub open spec fn outside_message(base: ExprModel, offset: i64) -> Seq<char> {
    "Accessing address outside allowable memory regions "@ + expr_debug(base) + ", "@ + int_text_spec(offset)
}

/// The name of a region kind, as `Debug` prints it.
pub open spec fn region_debug(k: RegionType) -> Seq<char> {
    match k {
        RegionType::READ => "READ"@,
        RegionType::WRITE => "WRITE"@,
        RegionType::RW => "RW"@,
    }
}

fn no_region_error(base: &AbstractExpression, offset: i64) -> (e: MemorySafetyError)
    ensures
        e.message() == no_region_message(base@, offset),
{
    let mut m = "No matching region found for access ".to_string();
    m.append(expression_debug_text(base).as_str());
    m.append(", ");
    m.append(int_text(offset).as_str());
    proof {
        reveal_strlit("No matching region found for access ");
        reveal_strlit(", ");
    }
    MemorySafetyError::new(m.as_str())
}

fn region_debug_text(k: RegionType) -> (r: &'static str)
    ensures
        r@ == region_debug(k),
{
    proof {
        reveal_strlit("READ");
        reveal_strlit("WRITE");
        reveal_strlit("RW");
    }
    match k {
        RegionType::READ => "READ",
        RegionType::WRITE => "WRITE",
        RegionType::RW => "RW",
    }
}

fn kind_mismatch_error(kind: RegionType, ty: RegionType, base: &AbstractExpression) -> (e: MemorySafetyError)
    ensures
        e.message() == kind_mismatch_message(kind, ty, base@),
{
    let mut m = "Access does not match region type ".to_string();
    m.append(region_debug_text(kind));
    m.append(" ");
    m.append(region_debug_text(ty));
    m.append(" ");
    m.append(expression_debug_text(base).as_str());
    proof {
        reveal_strlit("Access does not match region type ");
        reveal_strlit(" ");
    }
    MemorySafetyError::new(m.as_str())
}

/// Whether a name in the expression holds `sp`.
fn base_expr_contains_sp(e: &AbstractExpression) -> (r: bool)
    ensures
        r == crate::common::expr_contains(e@, "sp"@),
{
    e.contains("sp")
}

} // verus!
