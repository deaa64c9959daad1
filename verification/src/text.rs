//! Character-level text handling used by the assembly parser: the
//! mathematical meaning of splitting, trimming and number parsing over
//! `Seq<char>`, and executable counterparts over `&[char]`.
use vstd::prelude::*;
use vstd::string::*;

verus! {

// ---------------------------------------------------------------------------
// Basic predicates
// ---------------------------------------------------------------------------

/// `s` begins with `p`.
pub open spec fn starts_with(s: Seq<char>, p: Seq<char>) -> bool {
    p.len() <= s.len() && s.subrange(0, p.len() as int) == p
}

/// `s` ends with `p`.
pub open spec fn ends_with(s: Seq<char>, p: Seq<char>) -> bool {
    p.len() <= s.len() && s.subrange(s.len() - p.len(), s.len() as int) == p
}

/// The first character of `s` is encoded in one byte, so that a string may be
/// split after it.
pub open spec fn first_is_ascii(s: Seq<char>) -> bool {
    s.len() > 0 && (s[0] as u32) < 128
}

/// Index of the first character of `s` that belongs to `seps`, or `s.len()`.
pub open spec fn first_index(s: Seq<char>, seps: Seq<char>) -> nat
    decreases s.len(),
{
    if s.len() == 0 {
        0
    } else if seps.contains(s[0]) {
        0
    } else {
        1 + first_index(s.drop_first(), seps)
    }
}

/// The text before the first separator.
pub open spec fn field0(s: Seq<char>, seps: Seq<char>) -> Seq<char> {
    s.take(first_index(s, seps) as int)
}

/// The text between the first and the second separator (or the end).
pub open spec fn field1(s: Seq<char>, seps: Seq<char>) -> Seq<char> {
    let rest = s.skip(first_index(s, seps) as int + 1);
    rest.take(first_index(rest, seps) as int)
}

/// `s` with every leading character from `cs` removed.
pub open spec fn trim_start(s: Seq<char>, cs: Seq<char>) -> Seq<char>
    decreases s.len(),
{
    if s.len() > 0 && cs.contains(s[0]) {
        trim_start(s.drop_first(), cs)
    } else {
        s
    }
}

/// `s` with every trailing character from `cs` removed.
pub open spec fn trim_end(s: Seq<char>, cs: Seq<char>) -> Seq<char>
    decreases s.len(),
{
    if s.len() > 0 && cs.contains(s.last()) {
        trim_end(s.drop_last(), cs)
    } else {
        s
    }
}

/// `s` with the characters of `cs` removed from both ends.
pub open spec fn trim(s: Seq<char>, cs: Seq<char>) -> Seq<char> {
    trim_end(trim_start(s, cs), cs)
}

/// `s` with every character of `cs` deleted.
pub open spec fn remove_chars(s: Seq<char>, cs: Seq<char>) -> Seq<char>
    decreases s.len(),
{
    if s.len() == 0 {
        s
    } else if cs.contains(s.last()) {
        remove_chars(s.drop_last(), cs)
    } else {
        remove_chars(s.drop_last(), cs).push(s.last())
    }
}

// ---------------------------------------------------------------------------
// Numbers
// ---------------------------------------------------------------------------

pub open spec fn is_dec_digit(c: char) -> bool {
    '0' <= c && c <= '9'
}

pub open spec fn is_hex_digit(c: char) -> bool {
    ('0' <= c && c <= '9') || ('a' <= c && c <= 'f') || ('A' <= c && c <= 'F')
}

pub open spec fn hex_digit_value(c: char) -> int {
    if '0' <= c && c <= '9' {
        (c as int) - ('0' as int)
    } else if 'a' <= c && c <= 'f' {
        (c as int) - ('a' as int) + 10
    } else {
        (c as int) - ('A' as int) + 10
    }
}

/// A digit string in the given radix (10 or 16) that holds at least one digit.
pub open spec fn all_digits(s: Seq<char>, radix: int) -> bool {
    s.len() > 0 && forall|i: int|
        0 <= i < s.len() ==> (if radix == 16 {
            is_hex_digit(#[trigger] s[i])
        } else {
            is_dec_digit(s[i])
        })
}

/// The value of a digit string, most significant digit first.
pub open spec fn digits_value(s: Seq<char>, radix: int) -> int
    decreases s.len(),
{
    if s.len() == 0 {
        0
    } else {
        digits_value(s.drop_last(), radix) * radix + hex_digit_value(s.last())
    }
}

/// The sign and digits of an integer literal: a leading `+` or (when
/// `signed`) a leading `-` is taken off.
pub open spec fn sign_split(s: Seq<char>, signed: bool) -> (bool, Seq<char>) {
    if s.len() > 0 && s[0] == '+' {
        (false, s.drop_first())
    } else if signed && s.len() > 0 && s[0] == '-' {
        (true, s.drop_first())
    } else {
        (false, s)
    }
}

/// The value of an integer literal in `radix`, if it is one and lies in
/// `[lo, hi]`.
pub open spec fn parse_int(s: Seq<char>, radix: int, signed: bool, lo: int, hi: int) -> Option<int> {
    let (neg, d) = sign_split(s, signed);
    if all_digits(d, radix) {
        let v = if neg {
            -digits_value(d, radix)
        } else {
            digits_value(d, radix)
        };
        if lo <= v && v <= hi {
            Some(v)
        } else {
            None
        }
    } else {
        None
    }
}

/// What `str::parse::<usize>` gives.
pub open spec fn parse_usize(s: Seq<char>) -> Option<usize> {
    match parse_int(s, 10, false, 0, usize::MAX as int) {
        Some(v) => Some(v as usize),
        None => None,
    }
}

/// What `str::parse::<i64>` gives.
pub open spec fn parse_i64(s: Seq<char>) -> Option<i64> {
    match parse_int(s, 10, true, i64::MIN as int, i64::MAX as int) {
        Some(v) => Some(v as i64),
        None => None,
    }
}

/// What `i128::from_str_radix(s, 16)` gives.
pub open spec fn parse_hex_i128(s: Seq<char>) -> Option<i128> {
    match parse_int(s, 16, true, i128::MIN as int, i128::MAX as int) {
        Some(v) => Some(v as i128),
        None => None,
    }
}

// ---------------------------------------------------------------------------
// Lemmas
// ---------------------------------------------------------------------------

proof fn lemma_digits_value_nonneg(s: Seq<char>, radix: int)
    requires
        radix == 10 || radix == 16,
        forall|i: int| 0 <= i < s.len() ==> 0 <= hex_digit_value(#[trigger] s[i]) < radix,
    ensures
        digits_value(s, radix) >= 0,
    decreases s.len(),
{
    if s.len() > 0 {
        lemma_digits_value_nonneg(s.drop_last(), radix);
    }
}

proof fn lemma_digit_range(s: Seq<char>, radix: int)
    requires
        radix == 10 || radix == 16,
        all_digits(s, radix),
    ensures
        forall|i: int| 0 <= i < s.len() ==> 0 <= hex_digit_value(#[trigger] s[i]) < radix,
{
}

/// Appending digits never makes a value smaller.
proof fn lemma_digits_value_mono(s: Seq<char>, radix: int, i: int)
    requires
        radix == 10 || radix == 16,
        0 <= i <= s.len(),
        forall|k: int| 0 <= k < s.len() ==> 0 <= hex_digit_value(#[trigger] s[k]) < radix,
    ensures
        digits_value(s.take(i), radix) <= digits_value(s, radix),
    decreases s.len() - i,
{
    if i < s.len() {
        lemma_digits_value_mono(s, radix, i + 1);
        assert(s.take(i + 1).drop_last() =~= s.take(i));
        lemma_digits_value_nonneg(s.take(i), radix);
    } else {
        assert(s.take(i) =~= s);
    }
}

pub proof fn lemma_first_index_bound(s: Seq<char>, seps: Seq<char>)
    ensures
        first_index(s, seps) <= s.len(),
        first_index(s, seps) < s.len() ==> seps.contains(s[first_index(s, seps) as int]),
        forall|k: int| 0 <= k < first_index(s, seps) ==> !seps.contains(#[trigger] s[k]),
    decreases s.len(),
{
    if s.len() > 0 && !seps.contains(s[0]) {
        lemma_first_index_bound(s.drop_first(), seps);
        assert forall|k: int| 0 <= k < first_index(s, seps) implies !seps.contains(#[trigger] s[k]) by {
            if k > 0 {
                assert(s[k] == s.drop_first()[k - 1]);
            }
        }
    }
}

/// `first_index` is the position of the first separator.
pub proof fn lemma_first_index_is(s: Seq<char>, seps: Seq<char>, i: int)
    requires
        0 <= i <= s.len(),
        i < s.len() ==> seps.contains(s[i]),
        forall|k: int| 0 <= k < i ==> !seps.contains(#[trigger] s[k]),
    ensures
        first_index(s, seps) == i,
    decreases i,
{
    if i > 0 {
        assert(!seps.contains(s[0]));
        assert forall|k: int| 0 <= k < i - 1 implies !seps.contains(#[trigger] s.drop_first()[k]) by {
            assert(s.drop_first()[k] == s[k + 1]);
        }
        lemma_first_index_is(s.drop_first(), seps, i - 1);
    }
}

/// `s` holds a separator exactly when `first_index` falls inside it.
pub proof fn lemma_first_index_contains(s: Seq<char>, seps: Seq<char>)
    ensures
        (first_index(s, seps) < s.len()) == (exists|k: int| 0 <= k < s.len() && seps.contains(#[trigger] s[k])),
{
    lemma_first_index_bound(s, seps);
}

pub proof fn lemma_trim_start_is(s: Seq<char>, cs: Seq<char>, i: int)
    requires
        0 <= i <= s.len(),
        i < s.len() ==> !cs.contains(s[i]),
        forall|k: int| 0 <= k < i ==> cs.contains(#[trigger] s[k]),
    ensures
        trim_start(s, cs) == s.skip(i),
    decreases i,
{
    if i > 0 {
        assert(cs.contains(s[0]));
        assert forall|k: int| 0 <= k < i - 1 implies cs.contains(#[trigger] s.drop_first()[k]) by {
            assert(s.drop_first()[k] == s[k + 1]);
        }
        lemma_trim_start_is(s.drop_first(), cs, i - 1);
        assert(s.drop_first().skip(i - 1) =~= s.skip(i));
    } else {
        assert(s.skip(0) =~= s);
    }
}

pub proof fn lemma_trim_end_is(s: Seq<char>, cs: Seq<char>, j: int)
    requires
        0 <= j <= s.len(),
        j > 0 ==> !cs.contains(s[j - 1]),
        forall|k: int| j <= k < s.len() ==> cs.contains(#[trigger] s[k]),
    ensures
        trim_end(s, cs) == s.take(j),
    decreases s.len() - j,
{
    if j < s.len() {
        assert(cs.contains(s.last()));
        assert forall|k: int| j <= k < s.drop_last().len() implies cs.contains(#[trigger] s.drop_last()[k]) by {
            assert(s.drop_last()[k] == s[k]);
        }
        if j > 0 {
            assert(s.drop_last()[j - 1] == s[j - 1]);
        }
        lemma_trim_end_is(s.drop_last(), cs, j);
        assert(s.drop_last().take(j) =~= s.take(j));
    } else {
        assert(s.take(j) =~= s);
    }
}

// ---------------------------------------------------------------------------
// Executable text functions
// ---------------------------------------------------------------------------

/// The characters of `s`.
pub fn to_chars(s: &str) -> (v: Vec<char>)
    ensures
        v@ == s@,
{
    let mut v: Vec<char> = Vec::new();
    for c in it: s.chars()
        invariant
            v@ == it.seq().take(it.index() as int),
            it.seq() == s@,
    {
        v.push(c);
    }
    assert(v@ =~= s@);
    v
}

/// The characters `lo..hi` of `s` as a new `String`.
pub fn substring(s: &str, lo: usize, hi: usize) -> (r: String)
    requires
        lo <= hi <= s@.len(),
    ensures
        r@ == s@.subrange(lo as int, hi as int),
{
    s.substring_char(lo, hi).to_owned()
}

/// Whether `c` is one of `cs`.
pub fn is_one_of(c: char, cs: &[char]) -> (r: bool)
    ensures
        r == cs@.contains(c),
{
    let mut i: usize = 0;
    while i < cs.len()
        invariant
            i <= cs@.len(),
            forall|k: int| 0 <= k < i ==> cs@[k] != c,
        decreases cs@.len() - i,
    {
        if cs[i] == c {
            assert(cs@[i as int] == c);
            return true;
        }
        i = i + 1;
    }
    false
}

/// Whether `s` holds `c`.
pub fn contains_char(s: &[char], c: char) -> (r: bool)
    ensures
        r == s@.contains(c),
{
    let mut i: usize = 0;
    while i < s.len()
        invariant
            i <= s@.len(),
            forall|k: int| 0 <= k < i ==> s@[k] != c,
        decreases s@.len() - i,
    {
        if s[i] == c {
            assert(s@[i as int] == c);
            return true;
        }
        i = i + 1;
    }
    false
}

/// Whether `s` begins with `p`.
pub fn starts_with_chars(s: &[char], p: &[char]) -> (r: bool)
    ensures
        r == starts_with(s@, p@),
{
    if p.len() > s.len() {
        return false;
    }
    let mut i: usize = 0;
    while i < p.len()
        invariant
            p@.len() <= s@.len(),
            i <= p@.len(),
            forall|k: int| 0 <= k < i ==> s@[k] == p@[k],
        decreases p@.len() - i,
    {
        if s[i] != p[i] {
            assert(s@.subrange(0, p@.len() as int)[i as int] != p@[i as int]);
            return false;
        }
        i = i + 1;
    }
    assert(s@.subrange(0, p@.len() as int) =~= p@);
    true
}

/// Whether `s` ends with `p`.
pub fn ends_with_chars(s: &[char], p: &[char]) -> (r: bool)
    ensures
        r == ends_with(s@, p@),
{
    if p.len() > s.len() {
        return false;
    }
    let slen = s.len();
    let off = slen - p.len();
    let mut i: usize = 0;
    while i < p.len()
        invariant
            p@.len() <= s@.len(),
            slen == s@.len(),
            off == s@.len() - p@.len(),
            i <= p@.len(),
            forall|k: int| 0 <= k < i ==> s@[off + k] == p@[k],
        decreases p@.len() - i,
    {
        assert(off + i < slen);
        if s[off + i] != p[i] {
            assert(s@.subrange(off as int, s@.len() as int)[i as int] != p@[i as int]);
            return false;
        }
        i = i + 1;
    }
    assert(s@.subrange(off as int, s@.len() as int) =~= p@);
    true
}

/// Whether `s` and `p` hold the same characters.
pub fn eq_chars(s: &[char], p: &[char]) -> (r: bool)
    ensures
        r == (s@ == p@),
{
    if s.len() != p.len() {
        return false;
    }
    let r = starts_with_chars(s, p);
    proof {
        assert(s@ =~= s@.subrange(0, p@.len() as int));
    }
    r
}

/// Position of the first character of `s` that is one of `seps`, or `s.len()`.
pub fn find_first(s: &[char], seps: &[char]) -> (r: usize)
    ensures
        r == first_index(s@, seps@),
{
    let mut i: usize = 0;
    while i < s.len()
        invariant
            i <= s@.len(),
            forall|k: int| 0 <= k < i ==> !seps@.contains(#[trigger] s@[k]),
        decreases s@.len() - i,
    {
        if is_one_of(s[i], seps) {
            proof {
                lemma_first_index_is(s@, seps@, i as int);
            }
            return i;
        }
        i = i + 1;
    }
    proof {
        lemma_first_index_is(s@, seps@, i as int);
    }
    i
}

/// Bounds `lo..hi` of `s` that hold `trim(s, cs)`.
pub fn trim_bounds(s: &[char], cs: &[char]) -> (r: (usize, usize))
    ensures
        r.0 <= r.1 <= s@.len(),
        s@.subrange(r.0 as int, r.1 as int) == trim(s@, cs@),
{
    let mut lo: usize = 0;
    while lo < s.len() && is_one_of(s[lo], cs)
        invariant
            lo <= s@.len(),
            forall|k: int| 0 <= k < lo ==> cs@.contains(#[trigger] s@[k]),
        decreases s@.len() - lo,
    {
        lo = lo + 1;
    }
    proof {
        lemma_trim_start_is(s@, cs@, lo as int);
    }
    let mut hi: usize = s.len();
    while hi > lo && is_one_of(s[hi - 1], cs)
        invariant
            lo <= hi <= s@.len(),
            forall|k: int| hi <= k < s@.len() ==> cs@.contains(#[trigger] s@[k]),
        decreases hi,
    {
        hi = hi - 1;
    }
    proof {
        let t = s@.skip(lo as int);
        assert forall|k: int| hi - lo <= k < t.len() implies cs@.contains(#[trigger] t[k]) by {
            assert(t[k] == s@[k + lo]);
        }
        if hi > lo {
            assert(t[hi - lo - 1] == s@[hi - 1]);
        }
        lemma_trim_end_is(t, cs@, hi - lo);
        assert(t.take(hi - lo) =~= s@.subrange(lo as int, hi as int));
    }
    (lo, hi)
}

/// `s` with the characters of `cs` deleted.
pub fn remove_chars_exec(s: &[char], cs: &[char]) -> (r: Vec<char>)
    ensures
        r@ == remove_chars(s@, cs@),
{
    let mut r: Vec<char> = Vec::new();
    let mut i: usize = 0;
    while i < s.len()
        invariant
            i <= s@.len(),
            r@ == remove_chars(s@.take(i as int), cs@),
        decreases s@.len() - i,
    {
        proof {
            assert(s@.take(i + 1).drop_last() =~= s@.take(i as int));
        }
        if !is_one_of(s[i], cs) {
            r.push(s[i]);
        }
        i = i + 1;
    }
    assert(s@.take(s@.len() as int) =~= s@);
    r
}

fn digit_value_exec(c: char) -> (r: u32)
    requires
        is_hex_digit(c),
    ensures
        r as int == hex_digit_value(c),
        r < 16,
{
    let u = c as u32;
    if '0' <= c && c <= '9' {
        u - ('0' as u32)
    } else if 'a' <= c && c <= 'f' {
        u - ('a' as u32) + 10
    } else {
        u - ('A' as u32) + 10
    }
}

fn is_digit_exec(c: char, radix: u32) -> (r: bool)
    requires
        radix == 10 || radix == 16,
    ensures
        r == (if radix == 16 {
            is_hex_digit(c)
        } else {
            is_dec_digit(c)
        }),
{
    if radix == 16 {
        ('0' <= c && c <= '9') || ('a' <= c && c <= 'f') || ('A' <= c && c <= 'F')
    } else {
        '0' <= c && c <= '9'
    }
}

/// The magnitude of the digit string `d`, if all its characters are digits
/// of `radix` and it is at most `limit`.
fn magnitude(d: &[char], radix: u32, limit: u128) -> (r: Option<u128>)
    requires
        radix == 10 || radix == 16,
    ensures
        match r {
            Some(v) => all_digits(d@, radix as int) && v == digits_value(d@, radix as int) && v
                <= limit,
            None => !all_digits(d@, radix as int) || digits_value(d@, radix as int) > limit,
        },
{
    if d.len() == 0 {
        return None;
    }
    let mut v: u128 = 0;
    let mut i: usize = 0;
    while i < d.len()
        invariant
            radix == 10 || radix == 16,
            i <= d@.len(),
            d@.len() > 0,
            v <= limit,
            v == digits_value(d@.take(i as int), radix as int),
            forall|k: int|
                0 <= k < i ==> 0 <= hex_digit_value(#[trigger] d@[k]) < radix && (if radix == 16 {
                    is_hex_digit(d@[k])
                } else {
                    is_dec_digit(d@[k])
                }),
        decreases d@.len() - i,
    {
        let c = d[i];
        if !is_digit_exec(c, radix) {
            assert(!all_digits(d@, radix as int)) by {
                assert(d@[i as int] == c);
            }
            return None;
        }
        let dv = digit_value_exec(c);
        assert(d@.take(i + 1).drop_last() =~= d@.take(i as int));
        let next = match v.checked_mul(radix as u128) {
            Some(m) => m.checked_add(dv as u128),
            None => None,
        };
        match next {
            Some(n) if n <= limit => {
                v = n;
            },
            _ => {
                proof {
                    // the value of the longer prefix already exceeds the limit
                    let val = digits_value(d@.take(i + 1), radix as int);
                    assert(val > limit);
                    if all_digits(d@, radix as int) {
                        assert forall|k: int| 0 <= k < d@.len() implies 0 <= hex_digit_value(
                            #[trigger] d@[k],
                        ) < radix by {}
                        lemma_digits_value_mono(d@, radix as int, i + 1);
                    }
                }
                return None;
            },
        }
        i = i + 1;
    }
    assert(d@.take(i as int) =~= d@);
    Some(v)
}

/// Parses a signed or unsigned integer literal in `radix` whose value lies in
/// `[lo, hi]`, as `str::parse` and `from_str_radix` do.
fn parse_int_exec(s: &[char], radix: u32, signed: bool, lo: i128, hi: i128) -> (r: Option<i128>)
    requires
        radix == 10 || radix == 16,
        lo <= 0 <= hi,
        hi <= i128::MAX,
        -(hi + 1) <= lo,
        signed ==> lo < 0,
    ensures
        r matches Some(v) ==> parse_int(s@, radix as int, signed, lo as int, hi as int) == Some(v as int),
        r is None ==> parse_int(s@, radix as int, signed, lo as int, hi as int) is None,
{
    let ghost sp = sign_split(s@, signed);
    let mut neg = false;
    let mut start: usize = 0;
    if s.len() > 0 && s[0] == '+' {
        start = 1;
    } else if signed && s.len() > 0 && s[0] == '-' {
        neg = true;
        start = 1;
    }
    let d = slice_from(s, start);
    assert(sp.0 == neg && sp.1 == d@) by {
        if start == 1 {
            assert(s@.drop_first() =~= s@.subrange(1, s@.len() as int));
        } else {
            assert(s@ =~= s@.subrange(0, s@.len() as int));
        }
    }
    let limit: u128 = if neg {
        ((0 - (lo + 1)) as u128) + 1
    } else {
        hi as u128
    };
    match magnitude(d, radix, limit) {
        Some(m) => {
            proof {
                lemma_digit_range(d@, radix as int);
                lemma_digits_value_nonneg(d@, radix as int);
            }
            if neg {
                if m == 0 {
                    Some(0)
                } else {
                    Some(0 - ((m - 1) as i128) - 1)
                }
            } else {
                Some(m as i128)
            }
        },
        None => None,
    }
}

/// The characters of `s` from `start` on.
pub fn slice_from(s: &[char], start: usize) -> (r: &[char])
    requires
        start <= s@.len(),
    ensures
        r@ == s@.subrange(start as int, s@.len() as int),
{
    slice_range(s, start, s.len())
}

/// The characters `lo..hi` of `s`.
pub fn slice_range(s: &[char], lo: usize, hi: usize) -> (r: &[char])
    requires
        lo <= hi <= s@.len(),
    ensures
        r@ == s@.subrange(lo as int, hi as int),
{
    &s[lo..hi]
}

/// `str::parse::<usize>` on `s`.
pub fn parse_usize_exec(s: &[char]) -> (r: Option<usize>)
    ensures
        r == parse_usize(s@),
{
    match parse_int_exec(s, 10, false, 0, usize::MAX as i128) {
        Some(v) => Some(v as usize),
        None => None,
    }
}

/// `str::parse::<i64>` on `s`.
pub fn parse_i64_exec(s: &[char]) -> (r: Option<i64>)
    ensures
        r == parse_i64(s@),
{
    match parse_int_exec(s, 10, true, i64::MIN as i128, i64::MAX as i128) {
        Some(v) => Some(v as i64),
        None => None,
    }
}

/// `i128::from_str_radix(s, 16)`.
pub fn parse_hex_i128_exec(s: &[char]) -> (r: Option<i128>)
    ensures
        r == parse_hex_i128(s@),
{
    match parse_int_exec(s, 16, true, i128::MIN, i128::MAX) {
        Some(v) => Some(v),
        None => None,
    }
}


// ---------------------------------------------------------------------------
// Splitting into pieces
// ---------------------------------------------------------------------------

/// The pieces of `s` between characters of `seps`, empty pieces included
/// (what `str::split` yields).
pub open spec fn split(s: Seq<char>, seps: Seq<char>) -> Seq<Seq<char>>
    decreases s.len(),
{
    if s.len() == 0 {
        seq![Seq::<char>::empty()]
    } else {
        let p = split(s.drop_last(), seps);
        if seps.contains(s.last()) {
            p.push(Seq::<char>::empty())
        } else {
            p.update(p.len() - 1, p.last().push(s.last()))
        }
    }
}

/// The non-empty pieces of `p`, in order.
pub open spec fn nonempty(p: Seq<Seq<char>>) -> Seq<Seq<char>>
    decreases p.len(),
{
    if p.len() == 0 {
        p
    } else if p.last().len() > 0 {
        nonempty(p.drop_last()).push(p.last())
    } else {
        nonempty(p.drop_last())
    }
}

/// The words of `s`: its non-empty pieces between separators.
pub open spec fn words(s: Seq<char>, seps: Seq<char>) -> Seq<Seq<char>> {
    nonempty(split(s, seps))
}

/// The texts that the bounds in `r` pick out of `s`.
pub open spec fn bounds_text(s: Seq<char>, r: Seq<(usize, usize)>) -> Seq<Seq<char>> {
    r.map_values(|b: (usize, usize)| s.subrange(b.0 as int, b.1 as int))
}

pub open spec fn bounds_valid(s: Seq<char>, r: Seq<(usize, usize)>) -> bool {
    forall|k: int| 0 <= k < r.len() ==> (#[trigger] r[k]).0 <= r[k].1 <= s.len()
}

pub proof fn lemma_split_len(s: Seq<char>, seps: Seq<char>)
    ensures
        split(s, seps).len() >= 1,
    decreases s.len(),
{
    if s.len() > 0 {
        lemma_split_len(s.drop_last(), seps);
    }
}

/// Bounds of the words of `s`.
pub fn word_bounds(s: &[char], seps: &[char]) -> (r: Vec<(usize, usize)>)
    ensures
        bounds_valid(s@, r@),
        bounds_text(s@, r@) == words(s@, seps@),
{
    let mut r: Vec<(usize, usize)> = Vec::new();
    let mut start: usize = 0;
    let mut i: usize = 0;
    proof {
        assert(s@.take(0) =~= Seq::<char>::empty());
    }
    while i < s.len()
        invariant
            start <= i <= s@.len(),
            split(s@.take(i as int), seps@).len() >= 1,
            split(s@.take(i as int), seps@).last() == s@.subrange(start as int, i as int),
            bounds_valid(s@, r@),
            bounds_text(s@, r@) == nonempty(split(s@.take(i as int), seps@).drop_last()),
        decreases s@.len() - i,
    {
        let ghost p = split(s@.take(i as int), seps@);
        proof {
            assert(s@.take(i + 1).drop_last() =~= s@.take(i as int));
            assert(s@.take(i + 1).last() == s@[i as int]);
            lemma_split_len(s@.take(i as int), seps@);
        }
        if is_one_of(s[i], seps) {
            if start < i {
                r.push((start, i));
            }
            proof {
                let q = split(s@.take(i + 1), seps@);
                assert(q == p.push(Seq::<char>::empty()));
                assert(q.drop_last() =~= p);
                assert(p =~= p.drop_last().push(p.last()));
                assert(bounds_text(s@, r@) =~= nonempty(p));
            }
            start = i + 1;
            proof {
                assert(s@.subrange(start as int, i + 1) =~= Seq::<char>::empty());
            }
        } else {
            proof {
                let q = split(s@.take(i + 1), seps@);
                assert(q.drop_last() =~= p.drop_last());
                assert(s@.subrange(start as int, i + 1) =~= s@.subrange(start as int, i as int).push(s@[i as int]));
            }
        }
        i = i + 1;
    }
    proof {
        let p = split(s@.take(i as int), seps@);
        assert(s@.take(i as int) =~= s@);
        assert(p =~= p.drop_last().push(p.last()));
    }
    if start < i {
        r.push((start, i));
    }
    proof {
        assert(bounds_text(s@, r@) =~= words(s@, seps@));
    }
    r
}


/// The first two fields of `s` between characters of `seps`, and whether
/// `s` holds a separator at all.
pub fn fields01<'a>(s: &'a [char], seps: &[char]) -> (r: (&'a [char], &'a [char], bool))
    ensures
        r.0@ == field0(s@, seps@),
        r.2 == (first_index(s@, seps@) < s@.len()),
        r.2 ==> r.1@ == field1(s@, seps@),
{
    let n = s.len();
    let i0 = find_first(s, seps);
    proof {
        lemma_first_index_bound(s@, seps@);
    }
    let f0 = slice_range(s, 0, i0);
    assert(f0@ =~= field0(s@, seps@));
    if i0 < n {
        let rest = slice_from(s, i0 + 1);
        let i1 = find_first(rest, seps);
        proof {
            lemma_first_index_bound(rest@, seps@);
            assert(rest@ =~= s@.skip(i0 + 1));
        }
        let f1 = slice_range(rest, 0, i1);
        assert(f1@ =~= field1(s@, seps@));
        (f0, f1, true)
    } else {
        (f0, f0, false)
    }
}

/// Number of leading characters of `s` that belong to `cs`.
pub fn trim_start_len(s: &[char], cs: &[char]) -> (r: usize)
    ensures
        r <= s@.len(),
        s@.skip(r as int) == trim_start(s@, cs@),
{
    let mut lo: usize = 0;
    while lo < s.len() && is_one_of(s[lo], cs)
        invariant
            lo <= s@.len(),
            forall|k: int| 0 <= k < lo ==> cs@.contains(#[trigger] s@[k]),
        decreases s@.len() - lo,
    {
        lo = lo + 1;
    }
    proof {
        lemma_trim_start_is(s@, cs@, lo as int);
    }
    lo
}


/// `s` holds `p` as a contiguous part.
pub open spec fn contains_text(s: Seq<char>, p: Seq<char>) -> bool {
    exists|i: int| 0 <= i && i + p.len() <= s.len() && #[trigger] s.subrange(i, i + p.len()) == p
}

/// Whether `s` holds `p` as a contiguous part.
pub fn contains_chars(s: &[char], p: &[char]) -> (r: bool)
    ensures
        r == contains_text(s@, p@),
{
    let n = s.len();
    let m = p.len();
    if m > n {
        return false;
    }
    if m == 0 {
        assert(s@.subrange(0int, 0int + p@.len()) =~= p@);
        return true;
    }
    let mut i: usize = 0;
    while i <= n - m
        invariant
            0 < m <= n,
            n == s@.len(),
            m == p@.len(),
            i <= n - m + 1,
            forall|j: int| 0 <= j < i ==> #[trigger] s@.subrange(j, j + m) != p@,
        decreases n - m + 1 - i,
    {
        let part = slice_range(s, i, i + m);
        if eq_chars(part, p) {
            return true;
        }
        i = i + 1;
    }
    proof {
        assert forall|j: int| 0 <= j && j + p@.len() <= s@.len() implies #[trigger] s@.subrange(
            j,
            j + p@.len(),
        ) != p@ by {
            assert(j < i);
        }
    }
    false
}


/// Splitting at a separator: the pieces of `p + [c] + t` are those of `p`
/// followed by those of `t`.
pub proof fn lemma_split_at_separator(p: Seq<char>, c: char, t: Seq<char>, seps: Seq<char>)
    requires
        seps.contains(c),
    ensures
        split(p + seq![c] + t, seps) == split(p, seps) + split(t, seps),
    decreases t.len(),
{
    if t.len() == 0 {
        assert(p + seq![c] + t =~= p + seq![c]);
        assert((p + seq![c]).drop_last() =~= p);
        assert(split(p, seps).push(Seq::<char>::empty()) =~= split(p, seps) + split(t, seps));
    } else {
        let u = t.drop_last();
        let x = t.last();
        lemma_split_at_separator(p, c, u, seps);
        lemma_split_len(u, seps);
        assert((p + seq![c] + t).drop_last() =~= p + seq![c] + u);
        assert((p + seq![c] + t).last() == x);
        let a = split(p, seps);
        let b = split(u, seps);
        if seps.contains(x) {
            assert((a + b).push(Seq::<char>::empty()) =~= a + b.push(Seq::<char>::empty()));
        } else {
            assert((a + b).update((a + b).len() - 1, (a + b).last().push(x)) =~= a + b.update(
                b.len() - 1,
                b.last().push(x),
            ));
        }
    }
}

/// The non-empty pieces of two runs of pieces are those of each.
pub proof fn lemma_nonempty_concat(a: Seq<Seq<char>>, b: Seq<Seq<char>>)
    ensures
        nonempty(a + b) == nonempty(a) + nonempty(b),
    decreases b.len(),
{
    if b.len() == 0 {
        assert(a + b =~= a);
        assert(nonempty(a) + nonempty(b) =~= nonempty(a));
    } else {
        lemma_nonempty_concat(a, b.drop_last());
        assert((a + b).drop_last() =~= a + b.drop_last());
        assert((a + b).last() == b.last());
        if b.last().len() > 0 {
            assert((nonempty(a) + nonempty(b.drop_last())).push(b.last()) =~= nonempty(a) + nonempty(
                b.drop_last(),
            ).push(b.last()));
        }
    }
}

/// The words of `p + [c] + t`, `c` a separator, are those of `p` followed
/// by those of `t`.
pub proof fn lemma_words_at_separator(p: Seq<char>, c: char, t: Seq<char>, seps: Seq<char>)
    requires
        seps.contains(c),
    ensures
        words(p + seq![c] + t, seps) == words(p, seps) + words(t, seps),
{
    lemma_split_at_separator(p, c, t, seps);
    lemma_nonempty_concat(split(p, seps), split(t, seps));
}

/// A separator next to another, or at either end, changes no word.
pub proof fn lemma_words_extra_separator(p: Seq<char>, c: char, d: char, t: Seq<char>, seps: Seq<char>)
    requires
        seps.contains(c),
        seps.contains(d),
    ensures
        words(p + seq![c, d] + t, seps) == words(p + seq![c] + t, seps),
        words(seq![d] + t, seps) == words(t, seps),
        words(p + seq![d], seps) == words(p, seps),
{
    let e = Seq::<char>::empty();
    lemma_words_at_separator(p, c, seq![d] + t, seps);
    assert(p + seq![c, d] + t =~= p + seq![c] + (seq![d] + t));
    lemma_words_at_separator(e, d, t, seps);
    assert(e + seq![d] + t =~= seq![d] + t);
    assert(words(e, seps) =~= Seq::<Seq<char>>::empty()) by {
        assert(split(e, seps) == seq![e]);
        assert(seq![e].drop_last() =~= Seq::<Seq<char>>::empty());
        assert(nonempty(Seq::<Seq<char>>::empty()) == Seq::<Seq<char>>::empty());
        assert(nonempty(seq![e]) == nonempty(seq![e].drop_last()));
    }
    assert(Seq::<Seq<char>>::empty() + words(t, seps) =~= words(t, seps));
    lemma_words_at_separator(p, c, t, seps);
    lemma_words_at_separator(p, d, e, seps);
    assert(p + seq![d] + e =~= p + seq![d]);
    assert(words(p, seps) + Seq::<Seq<char>>::empty() =~= words(p, seps));
}

} // verus!
