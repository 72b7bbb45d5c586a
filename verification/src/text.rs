//! Character-level text helpers used throughout the library: whitespace
//! trimming, decimal integers in both directions, literal replacement and
//! HTML escaping. Every helper states its result over `Seq<char>`.

use vstd::prelude::*;

verus! {

/// `String::push` appends one character; the standard library documents it
/// as "Appends the given char to the end of this String".
pub assume_specification[ std::string::String::push ](string: &mut std::string::String, ch: char)
    ensures
        final(string)@ == old(string)@.push(ch),
;

/// Copies the characters of `s` into a vector.
pub fn chars_of(s: &str) -> (v: Vec<char>)
    ensures
        v@ == s@,
{
    let mut v: Vec<char> = Vec::new();
    for c in it: s.chars()
        invariant
            v@ == it.seq().take(it.index() as int),
            it.seq() == s@,
    {
        v.push(c);
    }
    v
}

/// Appends `chars[lo..hi]` to `out`.
pub fn push_chars(out: &mut String, chars: &Vec<char>, lo: usize, hi: usize)
    requires
        lo <= hi <= chars@.len(),
    ensures
        final(out)@ == old(out)@ + chars@.subrange(lo as int, hi as int),
{
    let mut i = lo;
    while i < hi
        invariant
            lo <= i <= hi <= chars@.len(),
            out@ == old(out)@ + chars@.subrange(lo as int, i as int),
        decreases hi - i,
    {
        out.push(chars[i]);
        assert(chars@.subrange(lo as int, i + 1) == chars@.subrange(lo as int, i as int).push(
            chars@[i as int],
        ));
        i += 1;
    }
}

/// Appends the characters of `s` to `out`.
pub fn push_str(out: &mut String, s: &str)
    ensures
        final(out)@ == old(out)@ + s@,
{
    let v = chars_of(s);
    push_chars(out, &v, 0, v.len());
    assert(v@.subrange(0, v@.len() as int) == v@);
}

/// A fresh string holding the characters of `s`.
pub fn string_of(s: &str) -> (res: String)
    ensures
        res@ == s@,
{
    let mut out = String::new();
    push_str(&mut out, s);
    out
}

/// Whether `c` has the Unicode `White_Space` property, which is what
/// `char::is_whitespace` and `str::trim` go by.
pub open spec fn is_whitespace(c: char) -> bool {
    let u = c as u32;
    ||| (0x09 <= u && u <= 0x0D)
    ||| u == 0x20
    ||| u == 0x85
    ||| u == 0xA0
    ||| u == 0x1680
    ||| (0x2000 <= u && u <= 0x200A)
    ||| u == 0x2028
    ||| u == 0x2029
    ||| u == 0x202F
    ||| u == 0x205F
    ||| u == 0x3000
}

pub fn char_is_whitespace(c: char) -> (res: bool)
    ensures
        res == is_whitespace(c),
{
    let u = c as u32;
    (0x09 <= u && u <= 0x0D) || u == 0x20 || u == 0x85 || u == 0xA0 || u == 0x1680 || (0x2000
        <= u && u <= 0x200A) || u == 0x2028 || u == 0x2029 || u == 0x202F || u == 0x205F || u
        == 0x3000
}

/// `s` without its leading whitespace.
pub open spec fn trim_start(s: Seq<char>) -> Seq<char>
    decreases s.len(),
{
    if s.len() > 0 && is_whitespace(s[0]) {
        trim_start(s.drop_first())
    } else {
        s
    }
}

/// `s` without its trailing whitespace.
pub open spec fn trim_end(s: Seq<char>) -> Seq<char>
    decreases s.len(),
{
    if s.len() > 0 && is_whitespace(s.last()) {
        trim_end(s.drop_last())
    } else {
        s
    }
}

/// `s` without leading and trailing whitespace, as `str::trim` gives it.
pub open spec fn trim(s: Seq<char>) -> Seq<char> {
    trim_end(trim_start(s))
}

proof fn lemma_trim_start_skip(s: Seq<char>, i: int)
    requires
        0 <= i <= s.len(),
        forall|j: int| 0 <= j < i ==> is_whitespace(#[trigger] s[j]),
    ensures
        trim_start(s) == trim_start(s.skip(i)),
    decreases i,
{
    if i > 0 {
        assert(is_whitespace(s[0]));
        let t = s.drop_first();
        assert forall|j: int| 0 <= j < i - 1 implies is_whitespace(#[trigger] t[j]) by {
            assert(t[j] == s[j + 1]);
        }
        lemma_trim_start_skip(t, i - 1);
        assert(t.skip(i - 1) == s.skip(i));
    } else {
        assert(s.skip(0) == s);
    }
}

proof fn lemma_trim_end_take(s: Seq<char>, k: int)
    requires
        0 <= k <= s.len(),
        forall|j: int| k <= j < s.len() ==> is_whitespace(#[trigger] s[j]),
    ensures
        trim_end(s) == trim_end(s.take(k)),
    decreases s.len() - k,
{
    if k < s.len() {
        assert(is_whitespace(s.last()));
        let t = s.drop_last();
        assert forall|j: int| k <= j < t.len() implies is_whitespace(#[trigger] t[j]) by {
            assert(t[j] == s[j]);
        }
        lemma_trim_end_take(t, k);
        assert(t.take(k) == s.take(k));
    } else {
        assert(s.take(k) == s);
    }
}

/// The characters of `s` with leading and trailing whitespace removed.
pub fn trim_chars(s: &str) -> (res: Vec<char>)
    ensures
        res@ == trim(s@),
{
    let v = chars_of(s);
    let n = v.len();
    let mut lo: usize = 0;
    while lo < n && char_is_whitespace(v[lo])
        invariant
            n == v@.len(),
            lo <= n,
            forall|j: int| 0 <= j < lo ==> is_whitespace(#[trigger] v@[j]),
        decreases n - lo,
    {
        lo += 1;
    }
    proof {
        lemma_trim_start_skip(v@, lo as int);
        if lo < n {
            assert(!is_whitespace(v@.skip(lo as int)[0]));
        }
    }
    let mut hi: usize = n;
    while hi > lo && char_is_whitespace(v[hi - 1])
        invariant
            n == v@.len(),
            lo <= hi <= n,
            forall|j: int| hi <= j < n ==> is_whitespace(#[trigger] v@[j]),
        decreases hi,
    {
        hi -= 1;
    }
    let mut out: Vec<char> = Vec::new();
    let mut i = lo;
    while i < hi
        invariant
            lo <= i <= hi <= n,
            n == v@.len(),
            out@ == v@.subrange(lo as int, i as int),
        decreases hi - i,
    {
        out.push(v[i]);
        i += 1;
    }
    proof {
        let st = v@.skip(lo as int);
        assert(trim_start(v@) == st);
        assert forall|j: int| hi - lo <= j < st.len() implies is_whitespace(#[trigger] st[j]) by {
            assert(st[j] == v@[j + lo]);
        }
        lemma_trim_end_take(st, hi - lo);
        let tk = st.take(hi - lo);
        assert(tk == v@.subrange(lo as int, hi as int));
        if hi > lo {
            assert(tk.last() == v@[hi - 1]);
        }
    }
    out
}

/// `s` with leading and trailing whitespace removed, as `str::trim` does.
pub fn trim_str(s: &str) -> (res: String)
    ensures
        res@ == trim(s@),
{
    let v = trim_chars(s);
    let mut out = String::new();
    push_chars(&mut out, &v, 0, v.len());
    assert(v@.subrange(0, v@.len() as int) == v@);
    out
}


/// Why a decimal integer could not be read, with the same kinds and in the
/// same precedence as `std::num::IntErrorKind` for `i64::from_str`.
#[derive(Debug, Clone, Copy, PartialEq, Eq, Structural)]
pub enum IntErrorKind {
    Empty,
    InvalidDigit,
    PosOverflow,
    NegOverflow,
}

impl IntErrorKind {
    /// The message `ParseIntError` displays for this kind.
    pub open spec fn spec_message(self) -> Seq<char> {
        match self {
            IntErrorKind::Empty => "cannot parse integer from empty string"@,
            IntErrorKind::InvalidDigit => "invalid digit found in string"@,
            IntErrorKind::PosOverflow => "number too large to fit in target type"@,
            IntErrorKind::NegOverflow => "number too small to fit in target type"@,
        }
    }

    pub fn message(&self) -> (res: String)
        ensures
            res@ == self.spec_message(),
    {
        let s = match self {
            IntErrorKind::Empty => "cannot parse integer from empty string",
            IntErrorKind::InvalidDigit => "invalid digit found in string",
            IntErrorKind::PosOverflow => "number too large to fit in target type",
            IntErrorKind::NegOverflow => "number too small to fit in target type",
        };
        string_of(s)
    }
}

pub open spec fn is_digit(c: char) -> bool {
    '0' <= c && c <= '9'
}

pub open spec fn digit_value(c: char) -> int {
    (c as int) - ('0' as int)
}

/// Reads the digits `ds` left to right into a signed value, reporting the
/// first position where a non-digit appears or the value leaves the `i64`
/// range (`neg` accumulates towards negative values).
pub open spec fn scan_digits(ds: Seq<char>, neg: bool) -> Result<int, IntErrorKind>
    decreases ds.len(),
{
    if ds.len() == 0 {
        Ok(0)
    } else {
        match scan_digits(ds.drop_last(), neg) {
            Err(e) => Err(e),
            Ok(v) => {
                if !is_digit(ds.last()) {
                    Err(IntErrorKind::InvalidDigit)
                } else if neg {
                    let w = 10 * v - digit_value(ds.last());
                    if w < i64::MIN {
                        Err(IntErrorKind::NegOverflow)
                    } else {
                        Ok(w)
                    }
                } else {
                    let w = 10 * v + digit_value(ds.last());
                    if w > i64::MAX {
                        Err(IntErrorKind::PosOverflow)
                    } else {
                        Ok(w)
                    }
                }
            },
        }
    }
}

/// What `i64::from_str` gives for `s`: an optional `+` or `-` followed by
/// at least one ASCII digit, within the `i64` range.
pub open spec fn parse_i64_spec(s: Seq<char>) -> Result<int, IntErrorKind> {
    if s.len() == 0 {
        Err(IntErrorKind::Empty)
    } else if s.len() == 1 && (s[0] == '+' || s[0] == '-') {
        Err(IntErrorKind::InvalidDigit)
    } else if s[0] == '+' {
        scan_digits(s.drop_first(), false)
    } else if s[0] == '-' {
        scan_digits(s.drop_first(), true)
    } else {
        scan_digits(s, false)
    }
}

proof fn lemma_scan_digits_range(ds: Seq<char>, neg: bool)
    ensures
        scan_digits(ds, neg) matches Ok(v) ==> i64::MIN <= v <= i64::MAX && (neg ==> v <= 0) && (
        !neg ==> v >= 0),
    decreases ds.len(),
{
    if ds.len() > 0 {
        lemma_scan_digits_range(ds.drop_last(), neg);
    }
}

/// Reads `s` as a decimal `i64` exactly as `i64::from_str` does.
pub fn parse_i64(s: &Vec<char>) -> (res: Result<i64, IntErrorKind>)
    ensures
        match res {
            Ok(v) => parse_i64_spec(s@) == Ok::<int, IntErrorKind>(v as int),
            Err(e) => parse_i64_spec(s@) == Err::<int, IntErrorKind>(e),
        },
{
    let n = s.len();
    if n == 0 {
        return Err(IntErrorKind::Empty);
    }
    if n == 1 && (s[0] == '+' || s[0] == '-') {
        return Err(IntErrorKind::InvalidDigit);
    }
    let neg = s[0] == '-';
    let start: usize = if s[0] == '+' || s[0] == '-' { 1 } else { 0 };
    let ghost body = s@.skip(start as int);
    proof {
        if start == 1 {
            assert(body == s@.drop_first());
        } else {
            assert(body == s@);
        }
        assert(body.take(0) == Seq::<char>::empty());
        assert(parse_i64_spec(s@) == scan_digits(body, neg));
    }
    let mut acc: i64 = 0;
    let mut i = start;
    while i < n
        invariant
            start <= i <= n,
            n == s@.len(),
            body == s@.skip(start as int),
            parse_i64_spec(s@) == scan_digits(body, neg),
            scan_digits(body.take(i - start), neg) == Ok::<int, IntErrorKind>(acc as int),
        decreases n - i,
    {
        let c = s[i];
        let ghost pre = body.take(i - start);
        let ghost cur = body.take(i - start + 1);
        proof {
            assert(cur.drop_last() == pre);
            assert(cur.last() == c);
            lemma_scan_digits_range(pre, neg);
        }
        if !('0' <= c && c <= '9') {
            proof {
                lemma_scan_prefix_error(body, (i - start + 1) as int, neg);
            }
            return Err(IntErrorKind::InvalidDigit);
        }
        let d = (c as u32 - '0' as u32) as i128;
        let w: i128 = if neg { (acc as i128) * 10 - d } else { (acc as i128) * 10 + d };
        if neg && w < i64::MIN as i128 {
            proof {
                lemma_scan_prefix_error(body, (i - start + 1) as int, neg);
            }
            return Err(IntErrorKind::NegOverflow);
        }
        if !neg && w > i64::MAX as i128 {
            proof {
                lemma_scan_prefix_error(body, (i - start + 1) as int, neg);
            }
            return Err(IntErrorKind::PosOverflow);
        }
        acc = w as i64;
        i += 1;
    }
    proof {
        assert(body.take(n - start) == body);
    }
    Ok(acc)
}

/// Once a prefix of the digits fails, the whole scan fails the same way.
proof fn lemma_scan_prefix_error(ds: Seq<char>, k: int, neg: bool)
    requires
        0 <= k <= ds.len(),
        scan_digits(ds.take(k), neg) is Err,
    ensures
        scan_digits(ds, neg) == scan_digits(ds.take(k), neg),
    decreases ds.len() - k,
{
    if k < ds.len() {
        assert(ds.take(k + 1).drop_last() == ds.take(k));
        lemma_scan_prefix_error(ds, k + 1, neg);
    } else {
        assert(ds.take(k) == ds);
    }
}

/// The character of a decimal digit.
pub open spec fn digit_char(d: int) -> char {
    if d == 0 {
        '0'
    } else if d == 1 {
        '1'
    } else if d == 2 {
        '2'
    } else if d == 3 {
        '3'
    } else if d == 4 {
        '4'
    } else if d == 5 {
        '5'
    } else if d == 6 {
        '6'
    } else if d == 7 {
        '7'
    } else if d == 8 {
        '8'
    } else {
        '9'
    }
}

/// The decimal digits of `n`, most significant first, without leading zeros.
pub open spec fn nat_text(n: nat) -> Seq<char>
    decreases n,
{
    if n < 10 {
        seq![digit_char(n as int)]
    } else {
        nat_text(n / 10).push(digit_char((n % 10) as int))
    }
}

/// The decimal text of `n` as `Display` writes an integer.
pub open spec fn int_text(n: int) -> Seq<char> {
    if n < 0 {
        seq!['-'] + nat_text((-n) as nat)
    } else {
        nat_text(n as nat)
    }
}

fn digit_of(d: u64) -> (c: char)
    requires
        d < 10,
    ensures
        c == digit_char(d as int),
{
    if d == 0 {
        '0'
    } else if d == 1 {
        '1'
    } else if d == 2 {
        '2'
    } else if d == 3 {
        '3'
    } else if d == 4 {
        '4'
    } else if d == 5 {
        '5'
    } else if d == 6 {
        '6'
    } else if d == 7 {
        '7'
    } else if d == 8 {
        '8'
    } else {
        '9'
    }
}

/// Appends the decimal digits of `n`.
pub fn push_u64(out: &mut String, n: u64)
    ensures
        final(out)@ == old(out)@ + nat_text(n as nat),
    decreases n,
{
    if n >= 10 {
        push_u64(out, n / 10);
    }
    out.push(digit_of(n % 10));
    proof {
        if n >= 10 {
            assert(nat_text(n as nat) == nat_text((n / 10) as nat).push(digit_char((n % 10) as int)));
        }
    }
}

/// Appends the decimal text of `n`.
pub fn push_i64(out: &mut String, n: i64)
    ensures
        final(out)@ == old(out)@ + int_text(n as int),
{
    if n < 0 {
        out.push('-');
        let m: u64 = if n == i64::MIN { 9223372036854775808u64 } else { (-n) as u64 };
        push_u64(out, m);
    } else {
        push_u64(out, n as u64);
    }
}

/// The decimal text of `n`, as `n.to_string()` gives it.
pub fn i64_to_string(n: i64) -> (res: String)
    ensures
        res@ == int_text(n as int),
{
    let mut out = String::new();
    push_i64(&mut out, n);
    out
}

/// The decimal text of `n`, as `n.to_string()` gives it.
pub fn usize_to_string(n: usize) -> (res: String)
    ensures
        res@ == nat_text(n as nat),
{
    let mut out = String::new();
    push_u64(&mut out, n as u64);
    out
}

pub proof fn lemma_nat_text_digits(n: nat)
    ensures
        nat_text(n).len() > 0,
        forall|i: int| 0 <= i < nat_text(n).len() ==> is_digit(#[trigger] nat_text(n)[i]),
    decreases n,
{
    if n >= 10 {
        lemma_nat_text_digits(n / 10);
    }
}

proof fn lemma_scan_nat_text(m: nat, neg: bool)
    requires
        neg ==> m <= 9223372036854775808,
        !neg ==> m <= 9223372036854775807,
    ensures
        scan_digits(nat_text(m), neg) == Ok::<int, IntErrorKind>(if neg { -m } else { m as int }),
    decreases m,
{
    let t = nat_text(m);
    if m < 10 {
        assert(t.drop_last() == Seq::<char>::empty());
        assert(scan_digits(t.drop_last(), neg) == Ok::<int, IntErrorKind>(0));
    } else {
        lemma_scan_nat_text(m / 10, neg);
        assert(t.drop_last() == nat_text(m / 10));
    }
}

/// Reading back the decimal text of any `i64` gives the same number.
pub proof fn law_parse_int_text(n: i64)
    ensures
        parse_i64_spec(int_text(n as int)) == Ok::<int, IntErrorKind>(n as int),
{
    if n < 0 {
        let m = (-n) as nat;
        lemma_nat_text_digits(m);
        lemma_scan_nat_text(m, true);
        let s = int_text(n as int);
        assert(s.drop_first() == nat_text(m));
        assert(s[0] == '-');
    } else {
        lemma_nat_text_digits(n as nat);
        lemma_scan_nat_text(n as nat, false);
        let s = nat_text(n as nat);
        assert(is_digit(s[0]));
    }
}


/// `s` with every non-overlapping occurrence of `pat`, found left to right,
/// replaced by `rep`: what `str::replace` gives for a non-empty pattern.
pub open spec fn replace_spec(s: Seq<char>, pat: Seq<char>, rep: Seq<char>) -> Seq<char>
    decreases s.len(),
{
    if pat.len() == 0 || s.len() < pat.len() {
        s
    } else if s.take(pat.len() as int) == pat {
        rep + replace_spec(s.skip(pat.len() as int), pat, rep)
    } else {
        seq![s[0]] + replace_spec(s.drop_first(), pat, rep)
    }
}

/// Whether `pat` occurs in `v` at position `i`.
fn occurs_at(v: &Vec<char>, i: usize, pat: &Vec<char>) -> (res: bool)
    requires
        i <= v@.len(),
    ensures
        res == (i + pat@.len() <= v@.len() && v@.subrange(i as int, i + pat@.len()) == pat@),
{
    let m = pat.len();
    if m > v.len() - i {
        return false;
    }
    let mut k: usize = 0;
    while k < m
        invariant
            m == pat@.len(),
            i + m <= v.len(),
            k <= m,
            forall|j: int| 0 <= j < k ==> v@[i + j] == pat@[j],
        decreases m - k,
    {
        if v[i + k] != pat[k] {
            assert(v@.subrange(i as int, i + m)[k as int] != pat@[k as int]);
            return false;
        }
        k += 1;
    }
    assert(v@.subrange(i as int, i + m) == pat@);
    true
}

/// `s` with every occurrence of the non-empty `pat` replaced by `rep`, as
/// `str::replace` does.
pub fn replace_all(s: &str, pat: &str, rep: &str) -> (res: String)
    requires
        pat@.len() > 0,
    ensures
        res@ == replace_spec(s@, pat@, rep@),
{
    let v = chars_of(s);
    let p = chars_of(pat);
    let n = v.len();
    let m = p.len();
    let mut out = String::new();
    let mut i: usize = 0;
    assert(v@.skip(0) == v@);
    while i < n
        invariant
            n == v@.len(),
            m == p@.len(),
            m > 0,
            v@ == s@,
            p@ == pat@,
            i <= n,
            out@ + replace_spec(v@.skip(i as int), p@, rep@) == replace_spec(v@, p@, rep@),
        decreases n - i,
    {
        let ghost rest = v@.skip(i as int);
        if occurs_at(&v, i, &p) {
            proof {
                assert(rest.take(m as int) == v@.subrange(i as int, i + m));
                assert(rest.skip(m as int) == v@.skip(i + m));
                assert(replace_spec(rest, p@, rep@) == rep@ + replace_spec(v@.skip(i + m), p@, rep@));
            }
            push_str(&mut out, rep);
            i = i + m;
        } else {
            proof {
                assert(rest.drop_first() == v@.skip(i + 1));
                if rest.len() >= m {
                    assert(rest.take(m as int) == v@.subrange(i as int, i + m));
                    assert(replace_spec(rest, p@, rep@) == seq![rest[0]] + replace_spec(
                        rest.drop_first(),
                        p@,
                        rep@,
                    ));
                } else {
                    assert(replace_spec(rest, p@, rep@) == rest);
                    assert(replace_spec(rest.drop_first(), p@, rep@) == rest.drop_first());
                    assert(rest == seq![rest[0]] + rest.drop_first());
                }
            }
            let ghost before = out@;
            out.push(v[i]);
            i = i + 1;
            proof {
                assert(out@ == before + seq![rest[0]]);
            }
        }
    }
    proof {
        assert(v@.skip(n as int) == Seq::<char>::empty());
        assert(replace_spec(Seq::<char>::empty(), p@, rep@) == Seq::<char>::empty());
        assert(out@ + Seq::<char>::empty() == out@);
    }
    out
}

/// What one character becomes when escaped for HTML text.
pub open spec fn escape_char(c: char) -> Seq<char> {
    if c == '&' {
        seq!['&', 'a', 'm', 'p', ';']
    } else if c == '<' {
        seq!['&', 'l', 't', ';']
    } else if c == '>' {
        seq!['&', 'g', 't', ';']
    } else {
        seq![c]
    }
}

/// `s` with `&`, `<` and `>` replaced by their HTML entities.
pub open spec fn html_escape_spec(s: Seq<char>) -> Seq<char>
    decreases s.len(),
{
    if s.len() == 0 {
        Seq::empty()
    } else {
        html_escape_spec(s.drop_last()) + escape_char(s.last())
    }
}

/// Escapes `&`, `<` and `>` so that `s` can stand in HTML text.
pub fn html_escape(s: &str) -> (res: String)
    ensures
        res@ == html_escape_spec(s@),
{
    let v = chars_of(s);
    let mut out = String::new();
    let mut i: usize = 0;
    while i < v.len()
        invariant
            i <= v@.len(),
            v@ == s@,
            out@ == html_escape_spec(v@.take(i as int)),
        decreases v@.len() - i,
    {
        let c = v[i];
        proof {
            assert(v@.take(i + 1).drop_last() == v@.take(i as int));
            assert(v@.take(i + 1).last() == c);
        }
        if c == '&' {
            out.push('&');
            out.push('a');
            out.push('m');
            out.push('p');
            out.push(';');
        } else if c == '<' {
            out.push('&');
            out.push('l');
            out.push('t');
            out.push(';');
        } else if c == '>' {
            out.push('&');
            out.push('g');
            out.push('t');
            out.push(';');
        } else {
            out.push(c);
        }
        i += 1;
    }
    assert(v@.take(v@.len() as int) == v@);
    out
}

/// Escaped text never holds `<` or `>`, so it cannot open or close a tag.
pub proof fn law_html_escape_has_no_angle_brackets(s: Seq<char>)
    ensures
        forall|i: int|
            0 <= i < html_escape_spec(s).len() ==> #[trigger] html_escape_spec(s)[i] != '<'
                && html_escape_spec(s)[i] != '>',
    decreases s.len(),
{
    if s.len() > 0 {
        law_html_escape_has_no_angle_brackets(s.drop_last());
        let a = html_escape_spec(s.drop_last());
        let b = escape_char(s.last());
        assert forall|i: int| 0 <= i < (a + b).len() implies #[trigger] (a + b)[i] != '<' && (a
            + b)[i] != '>' by {
            if i >= a.len() {
                assert((a + b)[i] == b[i - a.len()]);
            } else {
                assert((a + b)[i] == a[i]);
            }
        }
    }
}

/// Text without `&`, `<` and `>` is left as it is.
pub proof fn law_html_escape_plain_text(s: Seq<char>)
    requires
        forall|i: int| 0 <= i < s.len() ==> #[trigger] s[i] != '&' && s[i] != '<' && s[i] != '>',
    ensures
        html_escape_spec(s) == s,
    decreases s.len(),
{
    if s.len() > 0 {
        law_html_escape_plain_text(s.drop_last());
        assert(s.drop_last().push(s.last()) == s);
    }
}


/// The characters `html_escape` writes for `&`, `<` and `>`.
pub open spec fn amp_entity() -> Seq<char> {
    seq!['&', 'a', 'm', 'p', ';']
}

pub open spec fn lt_entity() -> Seq<char> {
    seq!['&', 'l', 't', ';']
}

pub open spec fn gt_entity() -> Seq<char> {
    seq!['&', 'g', 't', ';']
}

/// Resolves the three entities that escaping writes, `&amp;` last.
pub open spec fn html_unescape_spec(t: Seq<char>) -> Seq<char> {
    replace_spec(
        replace_spec(replace_spec(t, lt_entity(), seq!['<']), gt_entity(), seq!['>']),
        amp_entity(),
        seq!['&'],
    )
}

/// `f` applied to every character of `s`, the pieces joined in order.
pub open spec fn concat_map(s: Seq<char>, f: spec_fn(char) -> Seq<char>) -> Seq<char>
    decreases s.len(),
{
    if s.len() == 0 {
        Seq::empty()
    } else {
        f(s[0]) + concat_map(s.drop_first(), f)
    }
}

proof fn lemma_concat_map_push(s: Seq<char>, c: char, f: spec_fn(char) -> Seq<char>)
    ensures
        concat_map(s.push(c), f) == concat_map(s, f) + f(c),
    decreases s.len(),
{
    if s.len() == 0 {
        assert(s.push(c).drop_first() =~= Seq::<char>::empty());
        assert(s.push(c)[0] == c);
        assert(concat_map(Seq::<char>::empty(), f) == Seq::<char>::empty());
        assert(concat_map(s.push(c), f) == f(c) + concat_map(Seq::<char>::empty(), f));
        assert(concat_map(s, f) + f(c) =~= f(c));
    } else {
        lemma_concat_map_push(s.drop_first(), c, f);
        assert(s.push(c).drop_first() =~= s.drop_first().push(c));
        assert(concat_map(s.push(c), f) =~= f(s[0]) + (concat_map(s.drop_first(), f) + f(c)));
    }
}

proof fn lemma_escape_is_concat_map(s: Seq<char>)
    ensures
        html_escape_spec(s) == concat_map(s, |c: char| escape_char(c)),
    decreases s.len(),
{
    if s.len() > 0 {
        lemma_escape_is_concat_map(s.drop_last());
        lemma_concat_map_push(s.drop_last(), s.last(), |c: char| escape_char(c));
        assert(s.drop_last().push(s.last()) =~= s);
    }
}

/// No occurrence of a pattern that starts with `&` and a second character
/// `p1` can start inside `a`: an `&` in `a` is its first character and is
/// followed there by another character than `p1`.
pub open spec fn no_match_start(a: Seq<char>, p1: char) -> bool {
    forall|i: int| 0 <= i < a.len() && #[trigger] a[i] == '&' ==> i == 0 && a.len() >= 2 && a[1] != p1
}

proof fn lemma_replace_skips(a: Seq<char>, b: Seq<char>, p: Seq<char>, r: Seq<char>)
    requires
        p.len() >= 2,
        p[0] == '&',
        no_match_start(a, p[1]),
    ensures
        replace_spec(a + b, p, r) == a + replace_spec(b, p, r),
    decreases a.len(),
{
    let t = a + b;
    if a.len() == 0 {
        assert(t =~= b);
        assert(a + replace_spec(b, p, r) =~= replace_spec(b, p, r));
    } else if t.len() < p.len() {
        assert(replace_spec(b, p, r) == b);
    } else {
        assert(t.take(p.len() as int) != p) by {
            if a[0] == '&' {
                assert(t.take(p.len() as int)[1] == a[1]);
            } else {
                assert(t.take(p.len() as int)[0] == a[0]);
            }
        }
        let a1 = a.drop_first();
        assert forall|i: int| 0 <= i < a1.len() && #[trigger] a1[i] == '&' implies i == 0 && a1.len()
            >= 2 && a1[1] != p[1] by {
            assert(a[i + 1] == '&');
        }
        lemma_replace_skips(a1, b, p, r);
        assert(t.drop_first() =~= a1 + b);
        assert(seq![t[0]] + (a1 + replace_spec(b, p, r)) =~= a + replace_spec(b, p, r));
    }
}

/// One replacement pass over text made of per-character pieces, where each
/// piece either is the pattern, replaced whole, or holds no start of it.
proof fn lemma_replace_pieces(
    s: Seq<char>,
    f: spec_fn(char) -> Seq<char>,
    g: spec_fn(char) -> Seq<char>,
    p: Seq<char>,
    r: Seq<char>,
)
    requires
        p.len() >= 2,
        p[0] == '&',
        forall|c: char|
            (#[trigger] f(c) == p && g(c) == r) || (g(c) == f(c) && no_match_start(f(c), p[1])),
    ensures
        replace_spec(concat_map(s, f), p, r) == concat_map(s, g),
    decreases s.len(),
{
    if s.len() > 0 {
        let c = s[0];
        let rest = concat_map(s.drop_first(), f);
        lemma_replace_pieces(s.drop_first(), f, g, p, r);
        if f(c) == p {
            let t = p + rest;
            assert(t.take(p.len() as int) =~= p);
            assert(t.skip(p.len() as int) =~= rest);
        } else {
            lemma_replace_skips(f(c), rest, p, r);
        }
    }
}

proof fn lemma_concat_map_chars(s: Seq<char>)
    ensures
        concat_map(s, |c: char| seq![c]) == s,
    decreases s.len(),
{
    if s.len() > 0 {
        lemma_concat_map_chars(s.drop_first());
        assert(seq![s[0]] + s.drop_first() =~= s);
    }
}

/// Resolving the entities of escaped text gives the text back.
pub proof fn law_html_unescape_undoes_escape(s: Seq<char>)
    ensures
        html_unescape_spec(html_escape_spec(s)) == s,
{
    let f0 = |c: char| escape_char(c);
    let f1 = |c: char|
        if c == '<' {
            seq!['<']
        } else {
            escape_char(c)
        };
    let f2 = |c: char|
        if c == '<' || c == '>' {
            seq![c]
        } else {
            escape_char(c)
        };
    let f3 = |c: char| seq![c];
    lemma_escape_is_concat_map(s);
    assert forall|c: char|
        (#[trigger] f0(c) == lt_entity() && f1(c) == seq!['<']) || (f1(c) == f0(c) && no_match_start(
            f0(c),
            lt_entity()[1],
        )) by {
        if c == '<' {
            assert(f0(c) =~= lt_entity());
        } else if c == '&' {
            assert(f0(c)[1] == 'a');
        } else if c == '>' {
            assert(f0(c)[1] == 'g');
        }
    }
    lemma_replace_pieces(s, f0, f1, lt_entity(), seq!['<']);
    assert forall|c: char|
        (#[trigger] f1(c) == gt_entity() && f2(c) == seq!['>']) || (f2(c) == f1(c) && no_match_start(
            f1(c),
            gt_entity()[1],
        )) by {
        if c == '>' {
            assert(f1(c) =~= gt_entity());
        } else if c == '&' {
            assert(f1(c)[1] == 'a');
        }
    }
    lemma_replace_pieces(s, f1, f2, gt_entity(), seq!['>']);
    assert forall|c: char|
        (#[trigger] f2(c) == amp_entity() && f3(c) == seq!['&']) || (f3(c) == f2(c) && no_match_start(
            f2(c),
            amp_entity()[1],
        )) by {
        if c == '&' {
            assert(f2(c) =~= amp_entity());
        } else {
            assert(f2(c) =~= seq![c]);
        }
    }
    lemma_replace_pieces(s, f2, f3, amp_entity(), seq!['&']);
    lemma_concat_map_chars(s);
}

/// `s` holds no `c`.
pub open spec fn lacks(s: Seq<char>, c: char) -> bool {
    forall|i: int| 0 <= i < s.len() ==> s[i] != c
}

/// Text without the first character of the pattern passes replacement as
/// it is, and replacement goes on after it.
pub proof fn lemma_replace_plain_prefix(a: Seq<char>, b: Seq<char>, p: Seq<char>, r: Seq<char>)
    requires
        p.len() > 0,
        lacks(a, p[0]),
    ensures
        replace_spec(a + b, p, r) == a + replace_spec(b, p, r),
    decreases a.len(),
{
    let t = a + b;
    if a.len() == 0 {
        assert(t =~= b);
        assert(a + replace_spec(b, p, r) =~= replace_spec(b, p, r));
    } else if t.len() < p.len() {
        assert(replace_spec(b, p, r) == b);
    } else {
        assert(t.take(p.len() as int)[0] == a[0]);
        assert(t.take(p.len() as int) != p);
        let a1 = a.drop_first();
        assert(lacks(a1, p[0])) by {
            assert forall|i: int| 0 <= i < a1.len() implies a1[i] != p[0] by {
                assert(a1[i] == a[i + 1]);
            }
        }
        lemma_replace_plain_prefix(a1, b, p, r);
        assert(t.drop_first() =~= a1 + b);
        assert(seq![t[0]] + (a1 + replace_spec(b, p, r)) =~= a + replace_spec(b, p, r));
    }
}

/// Text without the first character of the pattern is left as it is.
pub proof fn lemma_replace_lacking(x: Seq<char>, p: Seq<char>, r: Seq<char>)
    requires
        p.len() > 0,
        lacks(x, p[0]),
    ensures
        replace_spec(x, p, r) == x,
{
    lemma_replace_plain_prefix(x, Seq::empty(), p, r);
    assert(x + Seq::<char>::empty() =~= x);
}

/// Whether `a` and `b` hold the same characters.
pub fn str_eq(a: &str, b: &str) -> (res: bool)
    ensures
        res == (a@ == b@),
{
    let x = chars_of(a);
    let y = chars_of(b);
    if x.len() != y.len() {
        return false;
    }
    let mut i: usize = 0;
    while i < x.len()
        invariant
            x@.len() == y@.len(),
            x@ == a@,
            y@ == b@,
            i <= x@.len(),
            forall|j: int| 0 <= j < i ==> x@[j] == y@[j],
        decreases x@.len() - i,
    {
        if x[i] != y[i] {
            assert(a@[i as int] != b@[i as int]);
            return false;
        }
        i += 1;
    }
    assert(x@ == y@);
    true
}

/// A copy of `s`.
pub fn copy_string(s: &String) -> (res: String)
    ensures
        res@ == s@,
{
    string_of(s.as_str())
}


/// Trimming removes whitespace padding around text that neither starts nor
/// ends with whitespace.
pub proof fn lemma_trim_padded(s: Seq<char>, pad: Seq<char>)
    requires
        s.len() > 0,
        !is_whitespace(s[0]),
        !is_whitespace(s.last()),
        forall|i: int| 0 <= i < pad.len() ==> is_whitespace(#[trigger] pad[i]),
    ensures
        trim(pad + s + pad) == s,
{
    let all = pad + s + pad;
    assert forall|j: int| 0 <= j < pad.len() implies is_whitespace(#[trigger] all[j]) by {
        assert(all[j] == pad[j]);
    }
    lemma_trim_start_skip(all, pad.len() as int);
    let rest = s + pad;
    assert(all.skip(pad.len() as int) == rest);
    assert(rest[0] == s[0]);
    assert(trim_start(rest) == rest);
    assert forall|j: int| s.len() <= j < rest.len() implies is_whitespace(#[trigger] rest[j]) by {
        assert(rest[j] == pad[j - s.len()]);
    }
    lemma_trim_end_take(rest, s.len() as int);
    assert(rest.take(s.len() as int) == s);
    assert(trim_end(s) == s);
}

/// The decimal text of an integer neither starts nor ends with whitespace.
pub proof fn lemma_int_text_unpadded(n: int)
    ensures
        int_text(n).len() > 0,
        !is_whitespace(int_text(n)[0]),
        !is_whitespace(int_text(n).last()),
{
    let m: nat = if n < 0 { (-n) as nat } else { n as nat };
    lemma_nat_text_digits(m);
    let t = nat_text(m);
    assert(is_digit(t[0]));
    assert(is_digit(t[t.len() - 1]));
    if n < 0 {
        assert(int_text(n).last() == t.last());
    }
}

} // verus!
