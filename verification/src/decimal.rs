//! Decimal literals as `f64::from_str` accepts them, kept as text: the
//! library never holds a binary floating-point value. A literal is checked
//! against the grammar the standard library documents, and its integer part
//! can be read off exactly.

use vstd::prelude::*;
use crate::text::{is_digit, digit_value, string_of};

verus! {

/// Why a text is not a decimal literal, as `ParseFloatError` tells it.
#[derive(Debug, Clone, Copy, PartialEq, Eq, Structural)]
pub enum FloatErrorKind {
    Empty,
    Invalid,
}

impl FloatErrorKind {
    pub open spec fn spec_message(self) -> Seq<char> {
        match self {
            FloatErrorKind::Empty => "cannot parse float from empty string"@,
            FloatErrorKind::Invalid => "invalid float literal"@,
        }
    }

    pub fn message(&self) -> (res: String)
        ensures
            res@ == self.spec_message(),
    {
        match self {
            FloatErrorKind::Empty => string_of("cannot parse float from empty string"),
            FloatErrorKind::Invalid => string_of("invalid float literal"),
        }
    }
}

pub open spec fn all_digits(s: Seq<char>) -> bool {
    forall|i: int| 0 <= i < s.len() ==> is_digit(#[trigger] s[i])
}

pub open spec fn is_exp_marker(c: char) -> bool {
    c == 'e' || c == 'E'
}

/// Index of the first `e` or `E` in `s`, or its length when there is none.
pub open spec fn find_exp_marker(s: Seq<char>) -> int
    decreases s.len(),
{
    if s.len() == 0 {
        0
    } else if is_exp_marker(s[0]) {
        0
    } else {
        1 + find_exp_marker(s.drop_first())
    }
}

/// Index of the first `.` in `s`, or its length when there is none.
pub open spec fn find_dot(s: Seq<char>) -> int
    decreases s.len(),
{
    if s.len() == 0 {
        0
    } else if s[0] == '.' {
        0
    } else {
        1 + find_dot(s.drop_first())
    }
}

/// Digits with at most one `.` and at least one digit.
pub open spec fn is_mantissa(s: Seq<char>) -> bool {
    &&& forall|i: int| 0 <= i < s.len() ==> is_digit(#[trigger] s[i]) || s[i] == '.'
    &&& forall|i: int, j: int| 0 <= i < j < s.len() ==> !(#[trigger] s[i] == '.' && #[trigger] s[j] == '.')
    &&& (s.len() >= 2 || (s.len() == 1 && s[0] != '.'))
}

/// `s` without a leading `+` or `-`.
pub open spec fn unsigned_part(s: Seq<char>) -> Seq<char> {
    if s.len() > 0 && (s[0] == '+' || s[0] == '-') {
        s.drop_first()
    } else {
        s
    }
}

/// An optional sign followed by at least one digit.
pub open spec fn is_exponent(s: Seq<char>) -> bool {
    unsigned_part(s).len() > 0 && all_digits(unsigned_part(s))
}

/// A finite number: a mantissa, then optionally `e` or `E` and an exponent.
pub open spec fn is_number(s: Seq<char>) -> bool {
    let k = find_exp_marker(s);
    is_mantissa(s.take(k)) && (k == s.len() || is_exponent(s.skip(k + 1)))
}

/// `c` is the lower-case ASCII letter `lower` in either case.
pub open spec fn same_letter(c: char, lower: char) -> bool {
    c == lower || (c as u32) + 32 == (lower as u32)
}

pub open spec fn matches_word(s: Seq<char>, word: Seq<char>) -> bool {
    s.len() == word.len() && forall|i: int| 0 <= i < s.len() ==> same_letter(#[trigger] s[i], word[i])
}

pub open spec fn is_infinity_word(s: Seq<char>) -> bool {
    matches_word(s, seq!['i', 'n', 'f']) || matches_word(
        s,
        seq!['i', 'n', 'f', 'i', 'n', 'i', 't', 'y'],
    )
}

pub open spec fn is_nan_word(s: Seq<char>) -> bool {
    matches_word(s, seq!['n', 'a', 'n'])
}

/// What `f64::from_str` accepts: an optional sign, then a number,
/// `inf`, `infinity` or `nan` (these three in any case).
pub open spec fn float_literal_check(s: Seq<char>) -> Result<(), FloatErrorKind> {
    if s.len() == 0 {
        Err(FloatErrorKind::Empty)
    } else {
        let b = unsigned_part(s);
        if b.len() > 0 && (is_number(b) || is_infinity_word(b) || is_nan_word(b)) {
            Ok(())
        } else {
            Err(FloatErrorKind::Invalid)
        }
    }
}

pub open spec fn is_float_literal(s: Seq<char>) -> bool {
    float_literal_check(s) is Ok
}

pub proof fn lemma_find_exp_marker(s: Seq<char>, k: int)
    requires
        0 <= k <= s.len(),
        forall|i: int| 0 <= i < k ==> !is_exp_marker(#[trigger] s[i]),
        k == s.len() || is_exp_marker(s[k]),
    ensures
        find_exp_marker(s) == k,
    decreases k,
{
    if k > 0 {
        let t = s.drop_first();
        assert forall|i: int| 0 <= i < k - 1 implies !is_exp_marker(#[trigger] t[i]) by {
            assert(t[i] == s[i + 1]);
        }
        assert(!is_exp_marker(s[0]));
        lemma_find_exp_marker(t, k - 1);
    }
}

proof fn lemma_find_dot(s: Seq<char>, k: int)
    requires
        0 <= k <= s.len(),
        forall|i: int| 0 <= i < k ==> #[trigger] s[i] != '.',
        k == s.len() || s[k] == '.',
    ensures
        find_dot(s) == k,
    decreases k,
{
    if k > 0 {
        let t = s.drop_first();
        assert forall|i: int| 0 <= i < k - 1 implies #[trigger] t[i] != '.' by {
            assert(t[i] == s[i + 1]);
        }
        assert(s[0] != '.');
        lemma_find_dot(t, k - 1);
    }
}

fn is_sign(c: char) -> (res: bool)
    ensures
        res == (c == '+' || c == '-'),
{
    c == '+' || c == '-'
}

fn same_letter_exec(c: char, lower: char) -> (res: bool)
    requires
        'a' <= lower <= 'z',
    ensures
        res == same_letter(c, lower),
{
    c == lower || (c as u32) + 32 == (lower as u32)
}

/// Whether `v[lo..]` spells `word` in either case.
fn matches_word_at(v: &Vec<char>, lo: usize, word: &Vec<char>) -> (res: bool)
    requires
        lo <= v@.len(),
        forall|i: int| 0 <= i < word@.len() ==> 'a' <= #[trigger] word@[i] <= 'z',
    ensures
        res == matches_word(v@.skip(lo as int), word@),
{
    let n = v.len();
    if n - lo != word.len() {
        return false;
    }
    let mut i: usize = 0;
    while i < word.len()
        invariant
            n == v@.len(),
            lo <= n,
            n - lo == word@.len(),
            i <= word@.len(),
            forall|j: int| 0 <= j < word@.len() ==> 'a' <= #[trigger] word@[j] <= 'z',
            forall|j: int| 0 <= j < i ==> same_letter(#[trigger] v@.skip(lo as int)[j], word@[j]),
        decreases word@.len() - i,
    {
        if !same_letter_exec(v[lo + i], word[i]) {
            assert(v@.skip(lo as int)[i as int] == v@[lo + i]);
            return false;
        }
        assert(v@.skip(lo as int)[i as int] == v@[lo + i]);
        i += 1;
    }
    true
}

/// Index of the first `e`/`E` at or after `lo`, or the length.
fn find_exp_marker_from(v: &Vec<char>, lo: usize) -> (k: usize)
    requires
        lo <= v@.len(),
    ensures
        lo <= k <= v@.len(),
        k == lo + find_exp_marker(v@.skip(lo as int)),
        forall|i: int| lo <= i < k ==> !is_exp_marker(#[trigger] v@[i]),
        k == v@.len() || is_exp_marker(v@[k as int]),
{
    let mut k = lo;
    while k < v.len() && !(v[k] == 'e' || v[k] == 'E')
        invariant
            lo <= k <= v@.len(),
            forall|i: int| lo <= i < k ==> !is_exp_marker(#[trigger] v@[i]),
        decreases v@.len() - k,
    {
        k += 1;
    }
    proof {
        let t = v@.skip(lo as int);
        assert forall|i: int| 0 <= i < k - lo implies !is_exp_marker(#[trigger] t[i]) by {
            assert(t[i] == v@[lo + i]);
        }
        if k < v@.len() {
            assert(t[k - lo] == v@[k as int]);
        }
        lemma_find_exp_marker(t, k - lo);
    }
    k
}

/// Index of the first `.` in `v[lo..hi]`, or `hi`.
fn find_dot_in(v: &Vec<char>, lo: usize, hi: usize) -> (d: usize)
    requires
        lo <= hi <= v@.len(),
    ensures
        lo <= d <= hi,
        d == lo + find_dot(v@.subrange(lo as int, hi as int)),
        forall|i: int| lo <= i < d ==> #[trigger] v@[i] != '.',
        d == hi || v@[d as int] == '.',
{
    let mut d = lo;
    while d < hi && v[d] != '.'
        invariant
            lo <= d <= hi <= v@.len(),
            forall|i: int| lo <= i < d ==> #[trigger] v@[i] != '.',
        decreases hi - d,
    {
        d += 1;
    }
    proof {
        let t = v@.subrange(lo as int, hi as int);
        assert forall|i: int| 0 <= i < d - lo implies #[trigger] t[i] != '.' by {
            assert(t[i] == v@[lo + i]);
        }
        if d < hi {
            assert(t[d - lo] == v@[d as int]);
        }
        lemma_find_dot(t, d - lo);
    }
    d
}

/// Whether `v[lo..hi]` is a mantissa.
fn check_mantissa(v: &Vec<char>, lo: usize, hi: usize) -> (res: bool)
    requires
        lo <= hi <= v@.len(),
    ensures
        res == is_mantissa(v@.subrange(lo as int, hi as int)),
{
    let ghost m = v@.subrange(lo as int, hi as int);
    let mut i = lo;
    let mut dots: usize = 0;
    while i < hi
        invariant
            lo <= i <= hi <= v@.len(),
            m == v@.subrange(lo as int, hi as int),
            dots <= 1,
            forall|j: int| lo <= j < i ==> is_digit(#[trigger] v@[j]) || v@[j] == '.',
            dots == 0 ==> forall|j: int| lo <= j < i ==> #[trigger] v@[j] != '.',
            dots == 1 ==> exists|j: int| lo <= j < i && #[trigger] v@[j] == '.',
            forall|a: int, b: int| lo <= a < b < i ==> !(#[trigger] v@[a] == '.' && #[trigger] v@[b] == '.'),
        decreases hi - i,
    {
        let c = v[i];
        if c == '.' {
            if dots == 1 {
                proof {
                    let j = choose|j: int| lo <= j < i && #[trigger] v@[j] == '.';
                    assert(m[j - lo] == '.' && m[i - lo] == '.');
                }
                return false;
            }
            dots = 1;
        } else if !('0' <= c && c <= '9') {
            assert(m[i - lo] == c);
            return false;
        }
        i += 1;
    }
    proof {
        assert forall|j: int| 0 <= j < m.len() implies is_digit(#[trigger] m[j]) || m[j] == '.' by {
            assert(m[j] == v@[lo + j]);
        }
        assert forall|a: int, b: int| 0 <= a < b < m.len() implies !(#[trigger] m[a] == '.'
            && #[trigger] m[b] == '.') by {
            assert(m[a] == v@[lo + a]);
            assert(m[b] == v@[lo + b]);
        }
        if m.len() == 1 {
            assert(m[0] == v@[lo as int]);
        }
    }
    hi - lo >= 2 || (hi - lo == 1 && v[lo] != '.')
}

/// Whether `v[lo..]` is an exponent.
fn check_exponent(v: &Vec<char>, lo: usize) -> (res: bool)
    requires
        lo <= v@.len(),
    ensures
        res == is_exponent(v@.skip(lo as int)),
{
    let n = v.len();
    let ghost t = v@.skip(lo as int);
    let start = if lo < n && is_sign(v[lo]) { lo + 1 } else { lo };
    proof {
        if lo < n && (v@[lo as int] == '+' || v@[lo as int] == '-') {
            assert(unsigned_part(t) == v@.skip(start as int));
        } else {
            assert(unsigned_part(t) == v@.skip(start as int));
        }
    }
    if start == n {
        return false;
    }
    let mut i = start;
    while i < n
        invariant
            start <= i <= n == v@.len(),
            t == v@.skip(lo as int),
            unsigned_part(t) == v@.skip(start as int),
            forall|j: int| start <= j < i ==> is_digit(#[trigger] v@[j]),
        decreases n - i,
    {
        if !('0' <= v[i] && v[i] <= '9') {
            assert(v@.skip(start as int)[i - start] == v@[i as int]);
            assert(!is_digit(v@.skip(start as int)[i - start]));
            assert(unsigned_part(t) == v@.skip(start as int));
            assert(!all_digits(unsigned_part(t)));
            return false;
        }
        i += 1;
    }
    assert forall|j: int| 0 <= j < v@.skip(start as int).len() implies is_digit(
        #[trigger] v@.skip(start as int)[j],
    ) by {
        assert(v@.skip(start as int)[j] == v@[start + j]);
    }
    true
}

/// Checks `v` against the literal grammar of `f64::from_str`.
pub fn check_float_literal(v: &Vec<char>) -> (res: Result<(), FloatErrorKind>)
    ensures
        res == float_literal_check(v@),
{
    let n = v.len();
    if n == 0 {
        return Err(FloatErrorKind::Empty);
    }
    let start: usize = if is_sign(v[0]) { 1 } else { 0 };
    let ghost b = unsigned_part(v@);
    assert(b == v@.skip(start as int));
    if start == n {
        return Err(FloatErrorKind::Invalid);
    }
    let k = find_exp_marker_from(v, start);
    proof {
        assert(b.take(k - start) == v@.subrange(start as int, k as int));
        if k < n {
            assert(b.skip(k - start + 1) == v@.skip(k + 1));
        }
    }
    let number_ok = check_mantissa(v, start, k) && (k == n || check_exponent(v, k + 1));
    if number_ok {
        return Ok(());
    }
    let inf3: Vec<char> = vec!['i', 'n', 'f'];
    let inf8: Vec<char> = vec!['i', 'n', 'f', 'i', 'n', 'i', 't', 'y'];
    let nan: Vec<char> = vec!['n', 'a', 'n'];
    assert(inf3@ == seq!['i', 'n', 'f']);
    assert(inf8@ == seq!['i', 'n', 'f', 'i', 'n', 'i', 't', 'y']);
    assert(nan@ == seq!['n', 'a', 'n']);
    if matches_word_at(v, start, &inf3) || matches_word_at(v, start, &inf8) || matches_word_at(
        v,
        start,
        &nan,
    ) {
        Ok(())
    } else {
        Err(FloatErrorKind::Invalid)
    }
}


/// The value of a run of decimal digits, most significant first.
pub open spec fn digits_value(ds: Seq<char>) -> nat
    decreases ds.len(),
{
    if ds.len() == 0 {
        0
    } else {
        10 * digits_value(ds.drop_last()) + (digit_value(ds.last()) as nat)
    }
}

pub open spec fn pow10(n: nat) -> nat
    decreases n,
{
    if n == 0 {
        1
    } else {
        10 * pow10((n - 1) as nat)
    }
}

/// The value of an exponent: an optional sign and digits.
pub open spec fn exponent_value(t: Seq<char>) -> int {
    if t.len() > 0 && t[0] == '-' {
        -(digits_value(unsigned_part(t)) as int)
    } else {
        digits_value(unsigned_part(t)) as int
    }
}

/// The digits of the mantissa of the unsigned number `b`, the point left out.
pub open spec fn number_digits(b: Seq<char>) -> Seq<char> {
    let m = b.take(find_exp_marker(b));
    let d = find_dot(m);
    if d < m.len() {
        m.take(d) + m.skip(d + 1)
    } else {
        m
    }
}

/// How many of the mantissa digits of `b` stand before its point.
pub open spec fn number_int_len(b: Seq<char>) -> int {
    find_dot(b.take(find_exp_marker(b)))
}

/// The exponent of the unsigned number `b`, 0 when it has none.
pub open spec fn number_exponent(b: Seq<char>) -> int {
    let k = find_exp_marker(b);
    if k < b.len() {
        exponent_value(b.skip(k + 1))
    } else {
        0
    }
}

/// The integer part of the exact value of the unsigned number `b`: the
/// digits of the mantissa that stand before the point once the exponent has
/// moved it, padded with zeros where it moves past the last digit.
pub open spec fn number_int_part(b: Seq<char>) -> nat {
    shifted_int_part(number_digits(b), number_int_len(b) + number_exponent(b))
}

/// The integer part of `ds` with the point after position `p`, the
/// digits being padded with zeros on the right as far as needed.
pub open spec fn shifted_int_part(ds: Seq<char>, p: int) -> nat {
    if p <= 0 {
        0
    } else if p <= ds.len() {
        digits_value(ds.take(p))
    } else {
        digits_value(ds) * pow10((p - ds.len()) as nat)
    }
}

pub open spec fn clamp_i64(x: int) -> int {
    if x > i64::MAX {
        i64::MAX as int
    } else if x < i64::MIN {
        i64::MIN as int
    } else {
        x
    }
}

/// The `i64` that a decimal literal stands for, truncated toward zero and
/// saturated at the ends of the range, as `f64 as i64` does: `nan` gives 0,
/// `inf` and `infinity` the bound of their sign. The truncation is of the
/// literal's exact value; `f64` parsing would first round it to the nearest
/// binary value, which moves the integer part only for literals with more
/// significant digits than an `f64` holds.
pub open spec fn literal_to_i64_spec(s: Seq<char>) -> int {
    let neg = s.len() > 0 && s[0] == '-';
    let b = unsigned_part(s);
    if is_nan_word(b) {
        0
    } else if is_infinity_word(b) {
        if neg {
            i64::MIN as int
        } else {
            i64::MAX as int
        }
    } else {
        let m = number_int_part(b) as int;
        clamp_i64(if neg {
            -m
        } else {
            m
        })
    }
}

pub open spec fn sat(x: int, cap: int) -> int {
    if x < cap {
        x
    } else {
        cap
    }
}

proof fn lemma_sat_step(x: int, d: int, cap: int)
    requires
        cap > 0,
        x >= 0,
        0 <= d,
    ensures
        sat(10 * sat(x, cap) + d, cap) == sat(10 * x + d, cap),
{
}

proof fn lemma_pow10_ge(n: nat, k: nat)
    requires
        k <= n,
    ensures
        pow10(n) >= pow10(k),
        pow10(n) >= 1,
    decreases n,
{
    if n > k {
        lemma_pow10_ge((n - 1) as nat, k);
    } else if n > 0 {
        lemma_pow10_ge((n - 1) as nat, 0);
    }
}

proof fn lemma_pow10_19()
    ensures
        pow10(19) == 10000000000000000000,
{
    reveal_with_fuel(pow10, 20);
}

proof fn lemma_sat_mul(v: int, cap: int, p: int)
    requires
        v >= 0,
        cap > 0,
        p >= 1,
    ensures
        sat(sat(v, cap) * p, cap) == sat(v * p, cap),
{
    if v >= cap {
        assert(v * p >= cap * p) by (nonlinear_arith)
            requires
                v >= cap,
                p >= 1,
                cap > 0,
        ;
        assert(cap * p >= cap) by (nonlinear_arith)
            requires
                p >= 1,
                cap > 0,
        ;
    }
}

/// Saturating value of the digits `ds[0..count]`.
fn sat_digits(ds: &Vec<char>, count: usize, cap: u128) -> (r: u128)
    requires
        count <= ds@.len(),
        all_digits(ds@),
        0 < cap <= 0x1_0000_0000_0000_0000_0000,
    ensures
        r == sat(digits_value(ds@.take(count as int)) as int, cap as int),
{
    let mut acc: u128 = 0;
    let mut i: usize = 0;
    assert(ds@.take(0) == Seq::<char>::empty());
    while i < count
        invariant
            i <= count <= ds@.len(),
            all_digits(ds@),
            0 < cap <= 0x1_0000_0000_0000_0000_0000,
            acc == sat(digits_value(ds@.take(i as int)) as int, cap as int),
        decreases count - i,
    {
        let c = ds[i];
        assert(is_digit(ds@[i as int]));
        let dv = (c as u32 - '0' as u32) as u128;
        proof {
            assert(ds@.take(i + 1).drop_last() == ds@.take(i as int));
            assert(ds@.take(i + 1).last() == c);
            lemma_sat_step(digits_value(ds@.take(i as int)) as int, dv as int, cap as int);
        }
        let w = acc * 10 + dv;
        acc = if w < cap { w } else { cap };
        i += 1;
    }
    acc
}

fn sub_vec(v: &Vec<char>, lo: usize, hi: usize) -> (r: Vec<char>)
    requires
        lo <= hi <= v@.len(),
    ensures
        r@ == v@.subrange(lo as int, hi as int),
{
    let mut r: Vec<char> = Vec::new();
    let mut i = lo;
    while i < hi
        invariant
            lo <= i <= hi <= v@.len(),
            r@ == v@.subrange(lo as int, i as int),
        decreases hi - i,
    {
        r.push(v[i]);
        i += 1;
    }
    r
}

fn append_vec(a: &mut Vec<char>, b: &Vec<char>)
    ensures
        final(a)@ == old(a)@ + b@,
{
    let mut i: usize = 0;
    while i < b.len()
        invariant
            i <= b@.len(),
            a@ == old(a)@ + b@.take(i as int),
        decreases b@.len() - i,
    {
        a.push(b[i]);
        assert(b@.take(i + 1) == b@.take(i as int).push(b@[i as int]));
        i += 1;
    }
    assert(b@.take(b@.len() as int) == b@);
}

proof fn lemma_digits_value_zero_or_big(ds: Seq<char>, j: nat)
    requires
        j >= 19,
        digits_value(ds) >= 1,
    ensures
        digits_value(ds) * pow10(j) >= 10000000000000000000,
{
    lemma_pow10_ge(j, 19);
    lemma_pow10_19();
    let a = digits_value(ds);
    let b = pow10(j);
    assert(a * b >= b) by (nonlinear_arith)
        requires
            a >= 1,
            b >= 1,
    ;
}

/// `shifted_int_part(ds, p)`, saturated at `cap`.
fn shifted_int_part_sat(ds: &Vec<char>, p: i128, cap: u128) -> (r: u128)
    requires
        all_digits(ds@),
        0 < cap <= 0x8000_0000_0000_0000,
    ensures
        r == sat(shifted_int_part(ds@, p as int) as int, cap as int),
{
    let n = ds.len();
    if p <= 0 {
        return 0;
    }
    if p <= n as i128 {
        return sat_digits(ds, p as usize, cap);
    }
    let acc0 = sat_digits(ds, n, cap);
    let j: i128 = p - n as i128;
    let ghost dv = digits_value(ds@);
    proof {
        assert(ds@.take(n as int) == ds@);
        lemma_pow10_ge(j as nat, 0);
    }
    if acc0 == 0 {
        assert(dv == 0);
        assert(dv * pow10(j as nat) == 0);
        return 0;
    }
    if j >= 19 {
        proof {
            lemma_digits_value_zero_or_big(ds@, j as nat);
        }
        return cap;
    }
    let mut acc = acc0;
    let mut i: i128 = 0;
    assert(pow10(0) == 1);
    assert(acc0 * 1 == acc0);
    while i < j
        invariant
            0 <= i <= j < 19,
            0 < cap <= 0x8000_0000_0000_0000,
            acc0 as int == sat(dv as int, cap as int),
            acc as int == sat(acc0 * pow10(i as nat), cap as int),
        decreases j - i,
    {
        proof {
            let x = acc0 * pow10(i as nat);
            lemma_pow10_ge(i as nat, 0);
            lemma_sat_step(x as int, 0, cap as int);
            assert(pow10((i + 1) as nat) == 10 * pow10(i as nat));
            assert(10 * x == acc0 * pow10((i + 1) as nat)) by (nonlinear_arith)
                requires
                    x == acc0 * pow10(i as nat),
                    pow10((i + 1) as nat) == 10 * pow10(i as nat),
            ;
        }
        let w = acc * 10;
        acc = if w < cap { w } else { cap };
        i += 1;
    }
    proof {
        lemma_pow10_ge(j as nat, 0);
        lemma_sat_mul(dv as int, cap as int, pow10(j as nat) as int);
    }
    acc
}

/// Moving the point by an exponent saturated at `e_cap` gives the same
/// saturated integer part as the exact exponent, for any digits a vector
/// can hold.
proof fn lemma_exponent_cap(ds: Seq<char>, ilen: int, e: int, e_cap: int, cap: int)
    requires
        0 <= ilen <= ds.len() < 0x1_0000_0000_0000_0000,
        e_cap == 0x40_0000_0000_0000_0000,
        0 < cap <= 0x8000_0000_0000_0000,
    ensures
        sat(shifted_int_part(ds, ilen + e) as int, cap) == sat(
            shifted_int_part(
                ds,
                ilen + if e >= 0 {
                    sat(e, e_cap)
                } else {
                    -sat(-e, e_cap)
                },
            ) as int,
            cap,
        ),
{
    if e >= e_cap {
        let p1 = ilen + e;
        let p2 = ilen + e_cap;
        if digits_value(ds) >= 1 {
            lemma_digits_value_zero_or_big(ds, (p1 - ds.len()) as nat);
            lemma_digits_value_zero_or_big(ds, (p2 - ds.len()) as nat);
        }
    }
}

pub open spec fn cap_exponent(e: int) -> int {
    if e >= 0 {
        sat(e, 0x40_0000_0000_0000_0000)
    } else {
        -sat(-e, 0x40_0000_0000_0000_0000)
    }
}

/// The mantissa digits of the number `b` and how many stand before its point.
fn number_digits_exec(b: &Vec<char>) -> (res: (Vec<char>, usize))
    requires
        is_number(b@),
    ensures
        res.0@ == number_digits(b@),
        res.1 == number_int_len(b@),
        all_digits(res.0@),
        res.1 <= res.0@.len(),
{
    let k = find_exp_marker_from(b, 0);
    let m = sub_vec(b, 0, k);
    let d = find_dot_in(&m, 0, k);
    proof {
        assert(b@.skip(0) == b@);
        assert(m@ == b@.take(k as int));
        assert(m@.subrange(0, k as int) == m@);
    }
    let mut ds = sub_vec(&m, 0, d);
    if d < k {
        let f = sub_vec(&m, d + 1, k);
        assert(f@ == m@.skip(d + 1));
        append_vec(&mut ds, &f);
    } else {
        assert(m@.take(d as int) == m@);
    }
    proof {
        assert forall|t: int| 0 <= t < ds@.len() implies is_digit(#[trigger] ds@[t]) by {
            if t < d {
                assert(ds@[t] == m@[t]);
                assert(m@[t] != '.');
            } else {
                assert(ds@[t] == m@[t + 1]);
                assert(m@[d as int] == '.');
                assert(m@[t + 1] != '.');
            }
        }
    }
    (ds, d)
}

/// The exponent of the number `b`, saturated far beyond any length a vector
/// can have.
fn number_exponent_exec(b: &Vec<char>) -> (e: i128)
    requires
        is_number(b@),
    ensures
        e as int == cap_exponent(number_exponent(b@)),
{
    let bn = b.len();
    let k = find_exp_marker_from(b, 0);
    assert(b@.skip(0) == b@);
    if k == bn {
        return 0;
    }
    let e_cap: u128 = 0x40_0000_0000_0000_0000;
    let t = sub_vec(b, k + 1, bn);
    assert(t@ == b@.skip(k + 1));
    let t_neg = t.len() > 0 && t[0] == '-';
    let u = if t.len() > 0 && is_sign(t[0]) {
        sub_vec(&t, 1, t.len())
    } else {
        sub_vec(&t, 0, t.len())
    };
    assert(u@ == unsigned_part(t@));
    let mag = sat_digits(&u, u.len(), e_cap);
    assert(u@.take(u@.len() as int) == u@);
    if t_neg {
        -(mag as i128)
    } else {
        mag as i128
    }
}

/// The integer part of the decimal literal `v`, as `literal_to_i64_spec`
/// states it.
pub fn literal_to_i64(v: &Vec<char>) -> (r: i64)
    requires
        is_float_literal(v@),
    ensures
        r as int == literal_to_i64_spec(v@),
{
    let n = v.len();
    let neg = v[0] == '-';
    let start: usize = if is_sign(v[0]) { 1 } else { 0 };
    let b = sub_vec(v, start, n);
    assert(b@ == unsigned_part(v@));
    let nan: Vec<char> = vec!['n', 'a', 'n'];
    assert(nan@ == seq!['n', 'a', 'n']);
    assert(b@.skip(0) == b@);
    if matches_word_at(&b, 0, &nan) {
        return 0;
    }
    let inf3: Vec<char> = vec!['i', 'n', 'f'];
    let inf8: Vec<char> = vec!['i', 'n', 'f', 'i', 'n', 'i', 't', 'y'];
    assert(inf3@ == seq!['i', 'n', 'f']);
    assert(inf8@ == seq!['i', 'n', 'f', 'i', 'n', 'i', 't', 'y']);
    if matches_word_at(&b, 0, &inf3) || matches_word_at(&b, 0, &inf8) {
        return if neg { i64::MIN } else { i64::MAX };
    }
    let (ds, ilen) = number_digits_exec(&b);
    let e = number_exponent_exec(&b);
    let p: i128 = ilen as i128 + e;
    let cap: u128 = if neg { 0x8000_0000_0000_0000 } else { 0x7FFF_FFFF_FFFF_FFFF };
    let mag = shifted_int_part_sat(&ds, p, cap);
    let dl = ds.len();
    proof {
        assert(dl as int == ds@.len());
        lemma_exponent_cap(ds@, ilen as int, number_exponent(b@), 0x40_0000_0000_0000_0000, cap as int);
    }
    if neg {
        if mag == 0x8000_0000_0000_0000 {
            i64::MIN
        } else {
            -(mag as i64)
        }
    } else {
        mag as i64
    }
}

} // verus!
