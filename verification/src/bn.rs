//! Fixed-capacity multi-precision integers: sixteen 64-bit limbs, least
//! significant first, with a sign, and addition and subtraction on them.
use vstd::prelude::*;
use crate::utils::{ms_addc_u64, ms_subc_u64, ms_memcpy, constant_time_eq, constant_time_lt,
    constant_time_select, constant_time_is_zero};

verus! {

/// The number of limbs a number can hold.
pub const BN_MAX_WORDS: usize = 16;

/// Where the limbs of a number live.
#[derive(Clone, Copy, PartialEq, Eq, Structural, Debug)]
pub enum BnFlag {
    Malloced,
    StaticData,
}

/// A signed multi-precision integer. Its magnitude is the little-endian
/// number in the first `width` limbs of `d`; `dmax` limbs are reserved.
#[derive(Clone)]
pub struct BigNumSt {
    d: [u64; 16],
    width: usize,
    dmax: usize,
    neg: bool,
    flags: BnFlag,
}

pub type BIGNUM = BigNumSt;

/// The observable state of a number.
pub struct BigNumView {
    pub d: Seq<u64>,
    pub width: nat,
    pub dmax: nat,
    pub neg: bool,
    pub flags: BnFlag,
}

impl View for BigNumSt {
    type V = BigNumView;

    closed spec fn view(&self) -> BigNumView {
        BigNumView {
            d: self.d@,
            width: self.width as nat,
            dmax: self.dmax as nat,
            neg: self.neg,
            flags: self.flags,
        }
    }
}

/// 2^64, the base of the limbs.
pub open spec fn limb_base() -> nat {
    0x1_0000_0000_0000_0000
}

/// `limb_base()` to the power `n`.
pub open spec fn pow_b(n: nat) -> nat
    decreases n,
{
    if n == 0 {
        1
    } else {
        limb_base() * pow_b((n - 1) as nat)
    }
}

/// The number that the limbs `s` spell, least significant first.
pub open spec fn limbs_value(s: Seq<u64>) -> nat
    decreases s.len(),
{
    if s.len() == 0 {
        0
    } else {
        limbs_value(s.drop_last()) + s.last() as nat * pow_b((s.len() - 1) as nat)
    }
}

impl BigNumView {
    /// Sixteen limbs, and no more in use than reserved, nor more reserved
    /// than there are.
    pub open spec fn wf(self) -> bool {
        &&& self.d.len() == 16
        &&& self.width <= self.dmax <= 16
    }

    /// The magnitude.
    pub open spec fn mag(self) -> nat {
        limbs_value(self.d.take(self.width as int))
    }
}

proof fn lemma_pow_b_pos(n: nat)
    ensures
        pow_b(n) > 0,
    decreases n,
{
    if n > 0 {
        lemma_pow_b_pos((n - 1) as nat);
        assert(limb_base() * pow_b((n - 1) as nat) > 0) by (nonlinear_arith)
            requires
                pow_b((n - 1) as nat) > 0,
        ;
    }
}

/// One more limb adds its value at its weight.
proof fn lemma_limbs_value_step(s: Seq<u64>, i: int)
    requires
        0 <= i < s.len(),
    ensures
        limbs_value(s.take(i + 1)) == limbs_value(s.take(i)) + s[i] as nat * pow_b(i as nat),
{
    assert(s.take(i + 1).drop_last() =~= s.take(i));
}

/// A number of `n` limbs is below `limb_base()^n`.
proof fn lemma_limbs_value_bound(s: Seq<u64>)
    ensures
        limbs_value(s) < pow_b(s.len()),
    decreases s.len(),
{
    if s.len() > 0 {
        let t = s.drop_last();
        lemma_limbs_value_bound(t);
        let p = pow_b(t.len());
        let v = limbs_value(t);
        let l = s.last() as nat;
        assert(v + l * p < limb_base() * p) by (nonlinear_arith)
            requires
                v < p,
                l < limb_base(),
        ;
    }
}

/// Adds the first `output.len()` limbs of `a` and `b` into `output` and
/// returns the carry out of the top limb.
pub fn bn_add_words(output: &mut [u64], a: &[u64], b: &[u64]) -> (carry: bool)
    requires
        a@.len() >= old(output)@.len(),
        b@.len() >= old(output)@.len(),
    ensures
        final(output)@.len() == old(output)@.len(),
        limbs_value(final(output)@) + (if carry { pow_b(old(output)@.len()) } else { 0 })
            == limbs_value(a@.take(old(output)@.len() as int)) + limbs_value(
            b@.take(old(output)@.len() as int),
        ),
{
    let n = output.len();
    let mut carry = false;
    let mut i: usize = 0;
    while i < n
        invariant
            n == output@.len(),
            n == old(output)@.len(),
            i <= n,
            a@.len() >= n,
            b@.len() >= n,
            limbs_value(output@.take(i as int)) + (if carry { pow_b(i as nat) } else { 0 })
                == limbs_value(a@.take(i as int)) + limbs_value(b@.take(i as int)),
        decreases n - i,
    {
        let ghost before = output@;
        let ghost c: nat = if carry { 1 } else { 0 };
        let (w, c2) = ms_addc_u64(a[i], b[i], carry);
        output[i] = w;
        carry = c2;
        proof {
            let p = pow_b(i as nat);
            assert(output@.take(i as int) =~= before.take(i as int));
            lemma_limbs_value_step(output@, i as int);
            lemma_limbs_value_step(a@, i as int);
            lemma_limbs_value_step(b@, i as int);
            let c2n: nat = if c2 { 1 } else { 0 };
            assert(w + c2n * limb_base() == a[i as int] + b[i as int] + c);
            assert(pow_b(i as nat + 1) == limb_base() * p);
            assert(w * p + c2n * (limb_base() * p) == a[i as int] * p + b[i as int] * p + c * p)
                by (nonlinear_arith)
                requires
                    w + c2n * limb_base() == a[i as int] + b[i as int] + c,
            ;
        }
        i = i + 1;
    }
    assert(output@.take(n as int) =~= output@);
    carry
}

/// Subtracts the first `output.len()` limbs of `b` from those of `a` into
/// `output` and returns the borrow out of the top limb.
pub fn bn_sub_words(output: &mut [u64], a: &[u64], b: &[u64]) -> (borrow: bool)
    requires
        a@.len() >= old(output)@.len(),
        b@.len() >= old(output)@.len(),
    ensures
        final(output)@.len() == old(output)@.len(),
        limbs_value(final(output)@) - (if borrow { pow_b(old(output)@.len()) } else { 0 })
            == limbs_value(a@.take(old(output)@.len() as int)) - limbs_value(
            b@.take(old(output)@.len() as int),
        ),
{
    let n = output.len();
    let mut borrow = false;
    let mut i: usize = 0;
    while i < n
        invariant
            n == output@.len(),
            n == old(output)@.len(),
            i <= n,
            a@.len() >= n,
            b@.len() >= n,
            limbs_value(output@.take(i as int)) - (if borrow { pow_b(i as nat) } else { 0 })
                == limbs_value(a@.take(i as int)) - limbs_value(b@.take(i as int)),
        decreases n - i,
    {
        let ghost before = output@;
        let ghost c: int = if borrow { 1 } else { 0 };
        let (w, c2) = ms_subc_u64(a[i], b[i], borrow);
        output[i] = w;
        borrow = c2;
        proof {
            let p = pow_b(i as nat);
            assert(output@.take(i as int) =~= before.take(i as int));
            lemma_limbs_value_step(output@, i as int);
            lemma_limbs_value_step(a@, i as int);
            lemma_limbs_value_step(b@, i as int);
            let c2n: int = if c2 { 1 } else { 0 };
            assert(w - c2n * limb_base() == a[i as int] - b[i as int] - c);
            assert(pow_b(i as nat + 1) == limb_base() * p);
            assert(w * p - c2n * (limb_base() * p) == a[i as int] * p - b[i as int] * p - c * p)
                by (nonlinear_arith)
                requires
                    w - c2n * limb_base() == a[i as int] - b[i as int] - c,
            ;
            assert((if borrow { pow_b(i as nat + 1) } else { 0 }) == c2n * (limb_base() * p));
            assert((if c == 1 { p } else { 0 }) == c * p);
            assert(limbs_value(before.take(i as int)) - c * p == limbs_value(a@.take(i as int))
                - limbs_value(b@.take(i as int)));
            assert(limbs_value(output@.take(i + 1)) == limbs_value(before.take(i as int)) + w * p);
        }
        i = i + 1;
    }
    assert(output@.take(n as int) =~= output@);
    borrow
}


/// The limbs after growing the reserve of a number of `width` limbs: the
/// first `8 * width` limbs are kept and the rest cleared.
pub open spec fn expand_words(d: Seq<u64>, width: nat) -> Seq<u64> {
    Seq::new(16, |i: int| if i < 8 * width { d[i] } else { 0u64 })
}

/// Growing the reserve to `words` limbs succeeds.
pub open spec fn expand_fits(v: BigNumView, words: nat) -> bool {
    words <= v.dmax || (words <= BN_MAX_WORDS && v.flags == BnFlag::Malloced)
}

/// Growing the reserve to `words` limbs does not fail on copying: it needs
/// no copy, or is refused, or copies at most the sixteen limbs there are.
pub open spec fn expand_safe(v: BigNumView, words: nat) -> bool {
    !expand_fits(v, words) || words <= v.dmax || 8 * v.width <= BN_MAX_WORDS
}

/// The number after growing its reserve to `words` limbs.
pub open spec fn expanded(v: BigNumView, words: nat) -> BigNumView {
    if words <= v.dmax || !expand_fits(v, words) {
        v
    } else {
        BigNumView {
            d: expand_words(v.d, v.width),
            width: v.width,
            dmax: words,
            neg: v.neg,
            flags: v.flags,
        }
    }
}

/// The message of a refused growth to `words` limbs.
pub open spec fn expand_error(words: nat) -> Seq<char> {
    if words > BN_MAX_WORDS {
        "too long"@
    } else {
        "expand on static"@
    }
}

/// The width with the zero limbs at the top of the first `w` dropped.
pub open spec fn minimal_width(d: Seq<u64>, w: nat) -> nat
    decreases w,
{
    if w > 0 && d[w - 1] == 0 {
        minimal_width(d, (w - 1) as nat)
    } else {
        w
    }
}

/// The number with its width shrunk to the minimal one, and a zero made
/// non-negative.
pub open spec fn minimized(v: BigNumView) -> BigNumView {
    let w = minimal_width(v.d, v.width);
    BigNumView { d: v.d, width: w, dmax: v.dmax, neg: if w == 0 { false } else { v.neg }, flags: v.flags }
}

impl BigNumSt {
    /// Zero, with no limbs reserved.
    pub fn new() -> (r: Self)
        ensures
            r@.wf(),
            r@.d == Seq::new(16, |i: int| 0u64),
            r@.width == 0,
            r@.dmax == 0,
            !r@.neg,
            r@.flags == BnFlag::Malloced,
    {
        let r = Self { d: [0; 16], width: 0, dmax: 0, neg: false, flags: BnFlag::Malloced };
        assert(r@.d =~= Seq::new(16, |i: int| 0u64));
        r
    }

    /// Sets the number to the single limb `value`, where its reserve can
    /// hold one limb; leaves it unchanged where it cannot.
    pub fn set_word(&mut self, value: u64)
        requires
            old(self)@.wf(),
        ensures
            final(self)@.wf(),
            expand_fits(old(self)@, 1) ==> final(self)@ == (BigNumView {
                d: expanded(old(self)@, 1).d.update(0, value),
                width: 1,
                dmax: expanded(old(self)@, 1).dmax,
                neg: false,
                flags: old(self)@.flags,
            }),
            !expand_fits(old(self)@, 1) ==> final(self)@ == old(self)@,
    {
        let res = bn_wexpand(self, 1);
        if res.is_err() {
            return;
        }
        self.neg = false;
        self.d[0] = value;
        self.width = 1;
    }

    /// The limbs.
    pub fn words(&self) -> (r: [u64; 16])
        ensures
            r@ == self@.d,
    {
        self.d
    }

    /// The number of limbs in use.
    pub fn width(&self) -> (r: usize)
        ensures
            r == self@.width,
    {
        self.width
    }

    /// The number of limbs reserved.
    pub fn dmax(&self) -> (r: usize)
        ensures
            r == self@.dmax,
    {
        self.dmax
    }

    /// Whether the number is negative.
    pub fn is_negative(&self) -> (r: bool)
        ensures
            r == self@.neg,
    {
        self.neg
    }

    /// Sets the number to `value`, as `set_word` does.
    pub fn set_u64(&mut self, value: u64)
        requires
            old(self)@.wf(),
        ensures
            final(self)@.wf(),
            expand_fits(old(self)@, 1) ==> final(self)@ == (BigNumView {
                d: expanded(old(self)@, 1).d.update(0, value),
                width: 1,
                dmax: expanded(old(self)@, 1).dmax,
                neg: false,
                flags: old(self)@.flags,
            }),
            !expand_fits(old(self)@, 1) ==> final(self)@ == old(self)@,
    {
        self.set_word(value);
    }
}

/// Drops the zero limbs at the top, and makes a zero non-negative.
fn bn_set_minimal_width(bn: &mut BIGNUM)
    requires
        old(bn)@.wf(),
    ensures
        final(bn)@ == minimized(old(bn)@),
        final(bn)@.wf(),
{
    let mut ret = bn.width;
    while ret > 0 && bn.d[ret - 1] == 0
        invariant
            ret <= bn.width <= 16,
            minimal_width(bn.d@, ret as nat) == minimal_width(bn.d@, bn.width as nat),
        decreases ret,
    {
        ret = ret - 1;
    }
    bn.width = ret;
    if bn.width == 0 {
        bn.neg = false;
    }
}

/// Grows the reserve of `bn` to `words` limbs, where it is smaller.
fn bn_wexpand(bn: &mut BIGNUM, words: usize) -> (res: Result<(), String>)
    requires
        old(bn)@.wf(),
        expand_safe(old(bn)@, words as nat),
    ensures
        final(bn)@ == expanded(old(bn)@, words as nat),
        final(bn)@.wf(),
        res is Ok <==> expand_fits(old(bn)@, words as nat),
        res matches Err(e) ==> e@ == expand_error(words as nat),
{
    if words <= bn.dmax {
        return Ok(());
    }
    if words > BN_MAX_WORDS {
        return Err("too long".to_string());
    }
    if bn.flags == BnFlag::StaticData {
        return Err("expand on static".to_string());
    }
    let mut a: [u64; 16] = [0; 16];
    ms_memcpy(&mut a, &bn.d, 8 * bn.width);
    bn.d = a;
    bn.dmax = words;
    assert(bn.d@ =~= expand_words(old(bn)@.d, old(bn)@.width));
    Ok(())
}

/// Whether the limbs of `bn` from `num` up to its width are all zero.
fn bn_fits_in_words(bn: &BIGNUM, num: usize) -> (r: bool)
    requires
        bn@.wf(),
    ensures
        r == (forall|i: int| num <= i < bn@.width ==> bn@.d[i] == 0),
{
    let mut mask: u64 = 0;
    let mut i: usize = num;
    while i < bn.width
        invariant
            bn.width <= 16,
            bn@.wf(),
            (mask == 0) == (forall|k: int| num <= k < i ==> bn@.d[k] == 0),
            num <= i,
            i <= bn.width || i == num,
        decreases bn.width - i,
    {
        let x = bn.d[i];
        let m2 = mask | x;
        assert((m2 == 0) == (mask == 0 && x == 0)) by (bit_vector)
            requires
                m2 == mask | x,
        ;
        mask = m2;
        i = i + 1;
    }
    mask == 0
}


/// The two operands of an unsigned addition, the wider first.
pub open spec fn add_order(a: BigNumView, b: BigNumView) -> (BigNumView, BigNumView) {
    if a.width < b.width {
        (b, a)
    } else {
        (a, b)
    }
}

/// The first `w` limbs of `r` spell `m`; its limbs above `w`, its
/// reserve and its storage are those of `e`.
pub open spec fn holds_words(e: BigNumView, r: BigNumView, w: nat, m: nat) -> bool {
    &&& r.d.len() == 16
    &&& w <= 16
    &&& r.dmax == e.dmax
    &&& r.flags == e.flags
    &&& limbs_value(r.d.take(w as int)) == m
    &&& r.d.skip(w as int) == e.d.skip(w as int)
}

/// `r` and `r0` agree in everything but the sign.
pub open spec fn same_but_neg(r: BigNumView, r0: BigNumView) -> bool {
    &&& r.d == r0.d
    &&& r.width == r0.width
    &&& r.dmax == r0.dmax
    &&& r.flags == r0.flags
}

/// The unsigned addition of `a` and `b` into `r0` left `r` and answered
/// `res`, the sign aside: the limbs of `r`, one more than the wider operand
/// has, hold the sum of the magnitudes; its width is that many limbs, or,
/// where `minimal`, that many less the zero limbs at the top. It is refused
/// where `r0` cannot reserve those limbs.
pub open spec fn uadd_body(
    r0: BigNumView,
    a: BigNumView,
    b: BigNumView,
    r: BigNumView,
    res: Result<(), String>,
    minimal: bool,
) -> bool {
    let (ta, tb) = add_order(a, b);
    let w = ta.width + 1;
    let e = expanded(r0, w);
    if expand_fits(r0, w) {
        &&& res is Ok
        &&& holds_words(e, r, w, ta.mag() + tb.mag())
        &&& r.width == (if minimal { minimal_width(r.d, w) } else { w })
    } else {
        &&& res matches Err(m) && m@ == expand_error(w)
        &&& same_but_neg(r, r0)
    }
}

/// The unsigned addition of the magnitudes of `a` and `b` into `r`, the
/// result one limb wider than the wider operand.
fn bn_uadd_consttime(r: &mut BIGNUM, a: &BIGNUM, b: &BIGNUM) -> (res: Result<(), String>)
    requires
        old(r)@.wf(),
        a@.wf(),
        b@.wf(),
        expand_safe(old(r)@, add_order(a@, b@).0.width + 1),
    ensures
        final(r)@.wf(),
        uadd_body(old(r)@, a@, b@, final(r)@, res, false),
        final(r)@.neg == old(r)@.neg,
{
    let (ta, tb) = if a.width < b.width {
        (b, a)
    } else {
        (a, b)
    };
    let max = ta.width;
    let min = tb.width;
    match bn_wexpand(r, max + 1) {
        Ok(_) => (),
        Err(e) => return Err(e),
    }
    let ghost e = r@;
    r.width = max + 1;
    let ghost d0 = r.d@;
    let (lo, hi) = r.d.split_at_mut(min);
    let mut carry = bn_add_words(lo, &ta.d[0..min], &tb.d[0..min]);
    proof {
        assert(hi@ == d0.subrange(min as int, 16));
        assert(r.d@.take(min as int) =~= lo@);
        assert(ta.d@.subrange(0, min as int).take(min as int) =~= ta.d@.take(min as int));
        assert(tb.d@.subrange(0, min as int).take(min as int) =~= tb.d@.take(min as int));
    }
    let mut i: usize = min;
    while i < max
        invariant
            min <= i <= max,
            max < r.dmax <= 16,
            max == ta.width,
            min == tb.width,
            min <= max,
            ta.d@.len() == 16,
            r.d@.len() == 16,
            r.width == max + 1,
            r.dmax == e.dmax,
            r.neg == e.neg,
            r.flags == e.flags,
            e.d.len() == 16,
            forall|k: int| i <= k < 16 ==> r.d@[k] == e.d[k],
            limbs_value(r.d@.take(i as int)) + (if carry { pow_b(i as nat) } else { 0 })
                == limbs_value(ta.d@.take(i as int)) + limbs_value(tb.d@.take(min as int)),
        decreases max - i,
    {
        let ghost before = r.d@;
        let ghost c: nat = if carry { 1 } else { 0 };
        let (w, c2) = ms_addc_u64(ta.d[i], 0, carry);
        r.d[i] = w;
        carry = c2;
        proof {
            let p = pow_b(i as nat);
            assert(r.d@.take(i as int) =~= before.take(i as int));
            lemma_limbs_value_step(r.d@, i as int);
            lemma_limbs_value_step(ta.d@, i as int);
            let c2n: nat = if c2 { 1 } else { 0 };
            assert(w + c2n * limb_base() == ta.d@[i as int] + c);
            assert(pow_b(i as nat + 1) == limb_base() * p);
            assert(w * p + c2n * (limb_base() * p) == ta.d@[i as int] * p + c * p)
                by (nonlinear_arith)
                requires
                    w + c2n * limb_base() == ta.d@[i as int] + c,
            ;
        }
        i = i + 1;
    }
    let ghost before = r.d@;
    let top: u64 = if carry { 1 } else { 0 };
    r.d[max] = top;
    proof {
        assert(i == max);
        assert(r.d@.take(max as int) =~= before.take(max as int));
        lemma_limbs_value_step(r.d@, max as int);
        assert(r.d@[max as int] == top);
        assert(top as nat * pow_b(max as nat) == (if carry { pow_b(max as nat) } else { 0 }));
        assert(ta@.mag() == limbs_value(ta.d@.take(max as int)));
        assert(tb@.mag() == limbs_value(tb.d@.take(min as int)));
        assert(r.d@.skip(max + 1) =~= e.d.skip(max + 1));
        assert(add_order(a@, b@) == (ta@, tb@));
        assert(e == expanded(old(r)@, (max + 1) as nat));
        assert(limbs_value(r.d@.take(max + 1)) == ta@.mag() + tb@.mag());
        assert(holds_words(e, r@, (max + 1) as nat, ta@.mag() + tb@.mag()));
    }
    Ok(())
}


/// The limbs of `b` at and above `a`'s width are zero.
pub open spec fn fits_below(b: BigNumView, a: BigNumView) -> bool {
    forall|i: int| a.width <= i < b.width ==> b.d[i] == 0
}

/// The unsigned subtraction of `b` from `a` into `r0` left `r` and
/// answered `res`, the sign aside. It is refused where `b` has non-zero
/// limbs above `a`'s width, or `r0` cannot reserve `a`'s width. Otherwise
/// the limbs of `r` up to `a`'s width hold the difference of the
/// magnitudes; where that is negative, they hold it plus `limb_base()` to
/// the width, the width is unchanged and the subtraction is refused; else
/// the width is `a`'s, or, where `minimal`, that less the zero limbs at the
/// top.
pub open spec fn usub_body(
    r0: BigNumView,
    a: BigNumView,
    b: BigNumView,
    r: BigNumView,
    res: Result<(), String>,
    minimal: bool,
) -> bool {
    let e = expanded(r0, a.width);
    if !fits_below(b, a) {
        &&& res matches Err(m) && m@ == "something"@
        &&& same_but_neg(r, r0)
    } else if !expand_fits(r0, a.width) {
        &&& res matches Err(m) && m@ == expand_error(a.width)
        &&& same_but_neg(r, r0)
    } else if a.mag() < b.mag() {
        &&& res matches Err(m) && m@ == "r arg2 lt arg3"@
        &&& holds_words(e, r, a.width, (a.mag() + pow_b(a.width) - b.mag()) as nat)
        &&& r.width == r0.width
    } else {
        &&& res is Ok
        &&& holds_words(e, r, a.width, (a.mag() - b.mag()) as nat)
        &&& r.width == (if minimal { minimal_width(r.d, a.width) } else { a.width })
    }
}

/// Zero limbs on top do not change a number.
proof fn lemma_limbs_value_zero_top(s: Seq<u64>, w: int, v: int)
    requires
        0 <= w <= v <= s.len(),
        forall|i: int| w <= i < v ==> s[i] == 0,
    ensures
        limbs_value(s.take(v)) == limbs_value(s.take(w)),
    decreases v - w,
{
    if v > w {
        lemma_limbs_value_zero_top(s, w, v - 1);
        lemma_limbs_value_step(s, v - 1);
    }
}

/// The unsigned subtraction of the magnitude of `b` from that of `a` into
/// `r`; refused where `b` is wider than `a` in non-zero limbs, or where it
/// borrows out of the top.
fn bn_usub_consttime(r: &mut BIGNUM, a: &BIGNUM, b: &BIGNUM) -> (res: Result<(), String>)
    requires
        old(r)@.wf(),
        a@.wf(),
        b@.wf(),
        expand_safe(old(r)@, a@.width),
    ensures
        final(r)@.wf(),
        usub_body(old(r)@, a@, b@, final(r)@, res, false),
        final(r)@.neg == (if res is Ok { false } else { old(r)@.neg }),
{
    let mut b_width = b.width;
    if b_width > a.width {
        if !bn_fits_in_words(b, a.width) {
            return Err("something".to_string());
        }
        b_width = a.width;
    }
    match bn_wexpand(r, a.width) {
        Err(e) => return Err(e),
        _ => (),
    }
    let ghost e = r@;
    let ghost d0 = r.d@;
    let (lo, hi) = r.d.split_at_mut(b_width);
    let mut borrow = bn_sub_words(lo, &a.d[0..b_width], &b.d[0..b_width]);
    proof {
        assert(hi@ == d0.subrange(b_width as int, 16));
        assert(r.d@.take(b_width as int) =~= lo@);
        assert(a.d@.subrange(0, b_width as int).take(b_width as int) =~= a.d@.take(b_width as int));
        assert(b.d@.subrange(0, b_width as int).take(b_width as int) =~= b.d@.take(b_width as int));
        lemma_limbs_value_zero_top(b.d@, b_width as int, b.width as int);
    }
    let mut i: usize = b_width;
    while i < a.width
        invariant
            b_width <= i <= a.width,
            a.width <= r.dmax <= 16,
            a.d@.len() == 16,
            r.d@.len() == 16,
            r.width == e.width,
            r.dmax == e.dmax,
            r.neg == e.neg,
            r.flags == e.flags,
            e.d.len() == 16,
            forall|k: int| i <= k < 16 ==> r.d@[k] == e.d[k],
            limbs_value(r.d@.take(i as int)) - (if borrow { pow_b(i as nat) } else { 0 })
                == limbs_value(a.d@.take(i as int)) - b@.mag(),
        decreases a.width - i,
    {
        let ghost before = r.d@;
        let ghost c: int = if borrow { 1 } else { 0 };
        let (w, c2) = ms_subc_u64(a.d[i], 0, borrow);
        r.d[i] = w;
        borrow = c2;
        proof {
            let p = pow_b(i as nat);
            assert(r.d@.take(i as int) =~= before.take(i as int));
            lemma_limbs_value_step(r.d@, i as int);
            lemma_limbs_value_step(a.d@, i as int);
            let c2n: int = if c2 { 1 } else { 0 };
            assert(w - c2n * limb_base() == a.d@[i as int] - c);
            assert(pow_b(i as nat + 1) == limb_base() * p);
            assert(w * p - c2n * (limb_base() * p) == a.d@[i as int] * p - c * p)
                by (nonlinear_arith)
                requires
                    w - c2n * limb_base() == a.d@[i as int] - c,
            ;
        }
        i = i + 1;
    }
    proof {
        assert(r.d@.skip(a.width as int) =~= e.d.skip(a.width as int));
        lemma_limbs_value_bound(r.d@.take(a.width as int));
        lemma_limbs_value_bound(a.d@.take(a.width as int));
        assert(e == expanded(old(r)@, a@.width));
    }
    if borrow {
        return Err("r arg2 lt arg3".to_string());
    }
    r.width = a.width;
    r.neg = false;
    return Ok(());
}


/// Some limb below `n` differs between `a` and `b`.
pub open spec fn words_differ(a: Seq<u64>, b: Seq<u64>, n: int) -> bool {
    exists|i: int| 0 <= i < n && a[i] != b[i]
}

/// 1 where some limb below `n` differs between `a` and `b`, else 0.
pub open spec fn differ_flag(a: Seq<u64>, b: Seq<u64>, n: usize) -> i64 {
    if words_differ(a, b, n as int) {
        1
    } else {
        0
    }
}

/// Limb `i` of `s`.
pub open spec fn limb(s: Seq<u64>, i: usize) -> u64 {
    s[i as int]
}

/// The limbs of `b` from `lo` up to `hi` are all zero.
pub open spec fn zero_between(b: Seq<u64>, lo: usize, hi: usize) -> bool {
    forall|i: int| lo <= i < hi ==> b[i] == 0
}

/// What `bn_cmp_words_consttime` answers for the first `a_len` limbs of `a`
/// and the first `b_len` of `b`: over the common limbs, 1 where some limb
/// differs and 0 where none does; then, where `b` is longer, -2 where
/// nothing differed and its extra limbs are zero, else -1; where `a` is
/// longer, 1 where its top limb is non-zero.
pub open spec fn compare_words(a: Seq<u64>, a_len: usize, b: Seq<u64>, b_len: usize) -> i64 {
    let n = if a_len < b_len { a_len } else { b_len };
    let ret = differ_flag(a, b, n);
    if a_len < b_len {
        if ret == 0 && zero_between(b, a_len, b_len) {
            -2i64
        } else {
            -1i64
        }
    } else if b_len < a_len {
        if a[a_len - 1] == 0 {
            ret
        } else {
            1
        }
    } else {
        ret
    }
}

proof fn lemma_differ_step(a: Seq<u64>, b: Seq<u64>, i: usize)
    requires
        i < a.len(),
        i < b.len(),
        i < usize::MAX,
    ensures
        differ_flag(a, b, (i + 1) as usize) == (if limb(a, i) != limb(b, i) {
            1i64
        } else {
            differ_flag(a, b, i)
        }),
{
    if limb(a, i) != limb(b, i) {
        assert(a[i as int] != b[i as int]);
    } else if words_differ(a, b, i + 1) {
        let k = choose|k: int| 0 <= k < i + 1 && a[k] != b[k];
        assert(k != i);
    }
}

proof fn lemma_zero_between_step(b: Seq<u64>, lo: usize, i: usize)
    requires
        lo <= i < b.len(),
        i < usize::MAX,
    ensures
        zero_between(b, lo, (i + 1) as usize) == (zero_between(b, lo, i) && limb(b, i) == 0),
{
}

/// 1 when the limbs `x` and `y` are equal, else 0.
fn limbs_equal(x: u64, y: u64) -> (r: i64)
    ensures
        r == (if x == y { 1i64 } else { 0i64 }),
{
    assert((x as i64 == y as i64) == (x == y)) by (bit_vector);
    constant_time_eq(x as i64, y as i64)
}

/// 1 when the limb `x` is below the limb `y`, else 0.
fn limbs_less(x: u64, y: u64) -> (r: i64)
    ensures
        r == (if x < y { 1i64 } else { 0i64 }),
{
    assert(((x as i64) as u64 == x) && ((y as i64) as u64 == y)) by (bit_vector);
    constant_time_lt(x as i64, y as i64)
}

/// 1 when the limb `x` is zero, else 0.
fn limb_is_zero(x: u64) -> (r: i64)
    ensures
        r == (if x == 0 { 1i64 } else { 0i64 }),
{
    assert((x as i64 == 0) == (x == 0)) by (bit_vector);
    constant_time_is_zero(x as i64)
}

/// Compares two runs of limbs without branching on their values.
fn bn_cmp_words_consttime(a: &[u64], a_len: usize, b: &[u64], b_len: usize) -> (r: i64)
    requires
        a_len <= a@.len(),
        b_len <= b@.len(),
    ensures
        r == compare_words(a@, a_len, b@, b_len),
{
    let mut ret: i64 = 0;
    let min = if a_len < b_len {
        a_len
    } else {
        b_len
    };
    for i in 0..min
        invariant
            min <= a_len,
            min <= b_len,
            a_len <= a@.len(),
            b_len <= b@.len(),
            ret == differ_flag(a@, b@, i),
    {
        let x = a[i];
        let y = b[i];
        let eq = limbs_equal(x, y);
        let lt = limbs_less(x, y);
        let inner = constant_time_select(lt, -1, 1);
        assert(inner == 1) by (bit_vector)
            requires
                lt == 0 || lt == 1,
                inner == (lt & -1i64) | (!lt & 1i64),
        ;
        let next = constant_time_select(eq, ret, inner);
        assert((eq == 1 ==> next == ret) && (eq == 0 ==> next == 1)) by (bit_vector)
            requires
                eq == 0 || eq == 1,
                ret == 0 || ret == 1,
                inner == 1,
                next == (eq & ret) | (!eq & inner),
        ;
        proof {
            lemma_differ_step(a@, b@, i);
        }
        ret = next;
    }
    if a_len < b_len {
        let mut mask: u64 = 0;
        for i in a_len..b_len
            invariant
                b_len <= b@.len(),
                (mask == 0) == zero_between(b@, a_len, i),
        {
            let w = b[i];
            let m2 = mask | w;
            assert((m2 == 0) == (mask == 0 && w == 0)) by (bit_vector)
                requires
                    m2 == mask | w,
            ;
            proof {
                lemma_zero_between_step(b@, a_len, i);
            }
            mask = m2;
        }
        let z = limb_is_zero(mask);
        let sel = constant_time_select(z, ret, -1);
        assert((z == 1 && ret == 0 ==> sel == -2) && (z == 1 && ret == 1 ==> sel == -1) && (z == 0
            ==> sel == -1)) by (bit_vector)
            requires
                z == 0 || z == 1,
                ret == 0 || ret == 1,
                sel == (z & ret) | (!z & -1i64),
        ;
        ret = sel;
    } else if b_len < a_len {
        let mut mask: u64 = 0;
        for i in b_len..a_len
            invariant
                a_len <= a@.len(),
                b_len < a_len,
                i > b_len ==> mask == a@[i - 1],
        {
            mask = a[i];
        }
        let z = limb_is_zero(mask);
        let sel = constant_time_select(z, ret, 1);
        assert((z == 1 ==> sel == ret) && (z == 0 ==> sel == 1)) by (bit_vector)
            requires
                z == 0 || z == 1,
                ret == 0 || ret == 1,
                sel == (z & ret) | (!z & 1i64),
        ;
        ret = sel;
    }
    return ret;
}


/// What `bn_cmp_words_consttime` answers for the limbs in use of `a` and
/// `b`.
pub open spec fn compare_mags(a: BigNumView, b: BigNumView) -> i64 {
    compare_words(a.d, a.width as usize, b.d, b.width as usize)
}

/// Succeeds where `bn_cmp_words_consttime` answers 1 for `a` and `b`.
fn bn_ucmp(a: &BIGNUM, b: &BIGNUM) -> (res: Result<(), String>)
    requires
        a@.wf(),
        b@.wf(),
    ensures
        res is Ok <==> compare_mags(a@, b@) == 1,
        res matches Err(m) ==> m@ == "something"@,
{
    if bn_cmp_words_consttime(&a.d, a.width, &b.d, b.width) == 1 {
        return Ok(());
    }
    return Err("something".to_string());
}

/// The unsigned addition, with the width of the result made minimal.
fn bn_uadd(r: &mut BIGNUM, a: &BIGNUM, b: &BIGNUM) -> (res: Result<(), String>)
    requires
        old(r)@.wf(),
        a@.wf(),
        b@.wf(),
        expand_safe(old(r)@, add_order(a@, b@).0.width + 1),
    ensures
        final(r)@.wf(),
        uadd_body(old(r)@, a@, b@, final(r)@, res, true),
        final(r)@.neg == (if res is Ok && final(r)@.width == 0 { false } else { old(r)@.neg }),
{
    let res = bn_uadd_consttime(r, a, b);
    match res {
        Ok(_) => {
            bn_set_minimal_width(r);
            Ok(())
        },
        Err(e) => return Err(e),
    }
}

/// The unsigned subtraction, with the width of the result made minimal.
fn bn_usub(r: &mut BIGNUM, a: &BIGNUM, b: &BIGNUM) -> (res: Result<(), String>)
    requires
        old(r)@.wf(),
        a@.wf(),
        b@.wf(),
        expand_safe(old(r)@, a@.width),
    ensures
        final(r)@.wf(),
        usub_body(old(r)@, a@, b@, final(r)@, res, true),
        final(r)@.neg == (if res is Ok { false } else { old(r)@.neg }),
{
    let res = bn_usub_consttime(r, a, b);
    match res {
        Ok(_) => {
            bn_set_minimal_width(r);
            Ok(())
        },
        Err(e) => return Err(e),
    }
}

/// The signed value of a number.
pub open spec fn signed_value(v: BigNumView) -> int {
    if v.neg {
        -v.mag()
    } else {
        v.mag() as int
    }
}

/// `bn_add` of `a` and `b` does not fail on copying limbs into `r`.
pub open spec fn add_safe(r: BigNumView, a: BigNumView, b: BigNumView) -> bool {
    if a.neg == b.neg {
        expand_safe(r, add_order(a, b).0.width + 1)
    } else {
        let (p, q) = if a.neg { (b, a) } else { (a, b) };
        if compare_mags(p, q) == 1 {
            expand_safe(r, q.width)
        } else {
            expand_safe(r, p.width)
        }
    }
}

/// What `bn_add` of `a` and `b` into `r0` leaves in `r` and answers. With
/// equal signs, the magnitudes are added and the sign is `a`'s. With
/// different signs, let `p` be the non-negative operand and `q` the
/// negative one: where `bn_cmp_words_consttime` answers 1 for them, `p`
/// is subtracted from `q` and the result made negative; otherwise `q` is
/// subtracted from `p` and the result made non-negative.
pub open spec fn add_outcome(r0: BigNumView, a: BigNumView, b: BigNumView, r: BigNumView, res: Result<(), String>) -> bool {
    if a.neg == b.neg {
        uadd_body(r0, a, b, r, res, true) && r.neg == a.neg
    } else {
        let (p, q) = if a.neg { (b, a) } else { (a, b) };
        if compare_mags(p, q) == 1 {
            usub_body(r0, q, p, r, res, true) && r.neg == (if res is Ok { true } else { r0.neg })
        } else {
            usub_body(r0, p, q, r, res, true) && r.neg == (if res is Ok { false } else { r0.neg })
        }
    }
}

/// Sets `r` to `a + b`.
pub fn bn_add(r: &mut BIGNUM, a: &BIGNUM, b: &BIGNUM) -> (res: Result<(), String>)
    requires
        old(r)@.wf(),
        a@.wf(),
        b@.wf(),
        add_safe(old(r)@, a@, b@),
    ensures
        final(r)@.wf(),
        add_outcome(old(r)@, a@, b@, final(r)@, res),
{
    if a.neg ^ b.neg {
        let (ta, tb) = if a.neg {
            (b, a)
        } else {
            (a, b)
        };
        if bn_ucmp(ta, tb).is_ok() {
            match bn_usub(r, tb, ta) {
                Err(e) => return Err(e),
                _ => (),
            }
            r.neg = true;
        } else {
            match bn_usub(r, ta, tb) {
                Err(e) => return Err(e),
                _ => (),
            }
            r.neg = false;
        }
        return Ok(());
    }
    let ret = bn_uadd(r, a, b);
    r.neg = a.neg;
    return ret;
}

/// `bn_sub` of `a` and `b` does not fail on copying limbs into `r`.
pub open spec fn sub_safe(r: BigNumView, a: BigNumView, b: BigNumView) -> bool {
    if a.neg != b.neg {
        expand_safe(r, add_order(a, b).0.width + 1)
    } else {
        let (p, q) = if a.neg { (b, a) } else { (a, b) };
        if compare_mags(p, q) < 0 {
            expand_safe(r, q.width)
        } else {
            expand_safe(r, p.width)
        }
    }
}

/// What `bn_sub` of `b` from `a` into `r0` leaves in `r` and answers. With
/// different signs, the magnitudes are added and the sign is `a`'s. With
/// equal signs, let `(p, q)` be `(a, b)`, or `(b, a)` where both are
/// negative: where `bn_cmp_words_consttime` answers below zero for them,
/// `p` is subtracted from `q` and the result made negative; otherwise `q`
/// is subtracted from `p` and the result made non-negative.
pub open spec fn sub_outcome(r0: BigNumView, a: BigNumView, b: BigNumView, r: BigNumView, res: Result<(), String>) -> bool {
    if a.neg != b.neg {
        uadd_body(r0, a, b, r, res, true) && r.neg == (if res is Ok { a.neg } else { r0.neg })
    } else {
        let (p, q) = if a.neg { (b, a) } else { (a, b) };
        if compare_mags(p, q) < 0 {
            usub_body(r0, q, p, r, res, true) && r.neg == (if res is Ok { true } else { r0.neg })
        } else {
            usub_body(r0, p, q, r, res, true) && r.neg == (if res is Ok { false } else { r0.neg })
        }
    }
}

/// Sets `r` to `a - b`.
pub fn bn_sub(r: &mut BIGNUM, a: &BIGNUM, b: &BIGNUM) -> (res: Result<(), String>)
    requires
        old(r)@.wf(),
        a@.wf(),
        b@.wf(),
        sub_safe(old(r)@, a@, b@),
    ensures
        final(r)@.wf(),
        sub_outcome(old(r)@, a@, b@, final(r)@, res),
{
    let mut add = false;
    let mut neg = false;
    let mut ta = a;
    let mut tb = b;
    if a.neg {
        if b.neg {
            ta = b;
            tb = a;
        } else {
            add = true;
            neg = true;
        }
    } else {
        if b.neg {
            add = true;
            neg = false;
        }
    }
    if add {
        match bn_uadd(r, ta, tb) {
            Err(e) => return Err(e),
            _ => (),
        }
        r.neg = neg;
        return Ok(());
    }
    if bn_cmp_words_consttime(&ta.d, ta.width, &tb.d, tb.width) < 0 {
        match bn_usub(r, tb, ta) {
            Err(e) => return Err(e),
            _ => (),
        }
        r.neg = true;
    } else {
        match bn_usub(r, ta, tb) {
            Err(e) => return Err(e),
            _ => (),
        }
        r.neg = false;
    }
    return Ok(());
}


/// Dropping the zero limbs at the top keeps the value.
proof fn lemma_minimal_width(d: Seq<u64>, w: nat)
    requires
        w <= d.len(),
    ensures
        minimal_width(d, w) <= w,
        limbs_value(d.take(minimal_width(d, w) as int)) == limbs_value(d.take(w as int)),
    decreases w,
{
    if w > 0 && d[w - 1] == 0 {
        lemma_minimal_width(d, (w - 1) as nat);
        lemma_limbs_value_step(d, w - 1);
    }
}

/// Whenever `bn_add` succeeds, it leaves in `r` the sum of `a` and `b`.
pub proof fn law_bn_add_sound(
    r0: BigNumView,
    a: BigNumView,
    b: BigNumView,
    r: BigNumView,
    res: Result<(), String>,
)
    requires
        r0.wf(),
        a.wf(),
        b.wf(),
        add_outcome(r0, a, b, r, res),
        res is Ok,
    ensures
        signed_value(r) == signed_value(a) + signed_value(b),
{
    if a.neg == b.neg {
        let (ta, tb) = add_order(a, b);
        lemma_minimal_width(r.d, ta.width + 1);
    } else {
        let (p, q) = if a.neg { (b, a) } else { (a, b) };
        if compare_mags(p, q) == 1 {
            lemma_minimal_width(r.d, q.width);
        } else {
            lemma_minimal_width(r.d, p.width);
        }
    }
}

/// Shrinking a number to its minimal width keeps its limbs, drops only
/// zero limbs from the top, leaves a nonzero top limb or no limb at all,
/// and makes a number without limbs non-negative.
pub proof fn law_minimized_drops_zero_top_limbs(v: BigNumView)
    requires
        v.width <= v.d.len(),
    ensures
        minimized(v).d == v.d,
        minimized(v).width <= v.width,
        minimized(v).width == 0 || v.d[minimized(v).width - 1] != 0,
        forall|i: int| minimized(v).width <= i < v.width ==> v.d[i] == 0,
        minimized(v).neg == (v.neg && minimized(v).width != 0),
    decreases v.width,
{
    if v.width > 0 && v.d[v.width - 1] == 0 {
        let u = BigNumView { width: (v.width - 1) as nat, ..v };
        law_minimized_drops_zero_top_limbs(u);
        assert(minimal_width(v.d, v.width) == minimal_width(u.d, u.width));
    }
}

/// Whenever `bn_sub` succeeds, it leaves in `r` the difference `a - b`.
pub proof fn law_bn_sub_sound(
    r0: BigNumView,
    a: BigNumView,
    b: BigNumView,
    r: BigNumView,
    res: Result<(), String>,
)
    requires
        r0.wf(),
        a.wf(),
        b.wf(),
        sub_outcome(r0, a, b, r, res),
        res is Ok,
    ensures
        signed_value(r) == signed_value(a) - signed_value(b),
{
    if a.neg != b.neg {
        let (ta, tb) = add_order(a, b);
        lemma_minimal_width(r.d, ta.width + 1);
    } else {
        let (p, q) = if a.neg { (b, a) } else { (a, b) };
        if compare_mags(p, q) < 0 {
            lemma_minimal_width(r.d, q.width);
        } else {
            lemma_minimal_width(r.d, p.width);
        }
    }
}

} // verus!
