//! Character-level helpers shared by the command parsers and the prompt builder.
use vstd::prelude::*;
use vstd::string::*;

verus! {

/// Unicode `White_Space`, the set that `str::trim` removes.
pub open spec fn is_space(c: char) -> bool {
    let u = c as u32;
    u == 0x20 || (0x09 <= u && u <= 0x0D) || u == 0x85 || u == 0xA0 || u == 0x1680 || (0x2000
        <= u && u <= 0x200A) || u == 0x2028 || u == 0x2029 || u == 0x202F || u == 0x205F || u
        == 0x3000
}

/// ASCII lower-casing of one character, as a code point.
pub open spec fn ascii_lower(c: char) -> u32 {
    let u = c as u32;
    if 0x41 <= u && u <= 0x5A {
        (u + 32) as u32
    } else {
        u
    }
}

/// `pat` occurs in `hay` once `hay` is ASCII lower-cased (`pat` is lower case).
pub open spec fn contains_folded(hay: Seq<char>, pat: Seq<char>) -> bool {
    exists|i: int|
        0 <= i && i + pat.len() <= hay.len() && #[trigger] matches_folded_at(hay, pat, i)
}

pub open spec fn matches_folded_at(hay: Seq<char>, pat: Seq<char>, i: int) -> bool {
    forall|j: int| 0 <= j < pat.len() ==> ascii_lower(#[trigger] hay[i + j]) == pat[j] as u32
}

/// Number of leading white-space characters.
pub open spec fn lead_spaces(s: Seq<char>) -> nat
    decreases s.len(),
{
    if s.len() > 0 && is_space(s[0]) {
        1 + lead_spaces(s.drop_first())
    } else {
        0
    }
}

/// Number of trailing white-space characters.
pub open spec fn trail_spaces(s: Seq<char>) -> nat
    decreases s.len(),
{
    if s.len() > 0 && is_space(s.last()) {
        1 + trail_spaces(s.drop_last())
    } else {
        0
    }
}

/// `s` without leading and trailing white space.
pub open spec fn trimmed(s: Seq<char>) -> Seq<char> {
    let t = s.subrange(lead_spaces(s) as int, s.len() as int);
    t.subrange(0, t.len() - trail_spaces(t))
}

pub fn is_space_char(c: char) -> (r: bool)
    ensures
        r == is_space(c),
{
    let u = c as u32;
    u == 0x20 || (0x09 <= u && u <= 0x0D) || u == 0x85 || u == 0xA0 || u == 0x1680 || (0x2000
        <= u && u <= 0x200A) || u == 0x2028 || u == 0x2029 || u == 0x202F || u == 0x205F || u
        == 0x3000
}

/// The characters of `s`, in order.
pub fn chars_of(s: &str) -> (r: Vec<char>)
    ensures
        r@ == s@,
{
    let n = s.unicode_len();
    let mut r: Vec<char> = Vec::new();
    let mut i: usize = 0;
    while i < n
        invariant
            n == s@.len(),
            i <= n,
            r@ == s@.subrange(0, i as int),
        decreases n - i,
    {
        r.push(s.get_char(i));
        i += 1;
        assert(r@ =~= s@.subrange(0, i as int));
    }
    assert(r@ =~= s@);
    r
}

proof fn lemma_lead_spaces(s: Seq<char>, i: int)
    requires
        0 <= i <= s.len(),
        forall|j: int| 0 <= j < i ==> is_space(#[trigger] s[j]),
    ensures
        lead_spaces(s) >= i,
        i == s.len() || !is_space(s[i]) ==> lead_spaces(s) == i,
    decreases i,
{
    if i > 0 {
        lemma_lead_spaces(s.drop_first(), i - 1);
    }
}

proof fn lemma_trail_spaces(s: Seq<char>, i: int)
    requires
        0 <= i <= s.len(),
        forall|j: int| s.len() - i <= j < s.len() ==> is_space(#[trigger] s[j]),
    ensures
        trail_spaces(s) >= i,
        i == s.len() || !is_space(s[s.len() - i - 1]) ==> trail_spaces(s) == i,
    decreases i,
{
    if i > 0 {
        let t = s.drop_last();
        assert forall|j: int| t.len() - (i - 1) <= j < t.len() implies is_space(#[trigger] t[j]) by {
            assert(t[j] == s[j]);
        }
        lemma_trail_spaces(t, i - 1);
    }
}

/// Bounds `[lo, hi)` of `trimmed(s)` within `s`.
pub fn trim_bounds(s: &Vec<char>) -> (r: (usize, usize))
    ensures
        r.0 <= r.1 <= s@.len(),
        s@.subrange(r.0 as int, r.1 as int) == trimmed(s@),
{
    let n = s.len();
    let mut lo: usize = 0;
    while lo < n && is_space_char(s[lo])
        invariant
            lo <= n == s@.len(),
            forall|j: int| 0 <= j < lo ==> is_space(#[trigger] s@[j]),
        decreases n - lo,
    {
        lo += 1;
    }
    proof {
        lemma_lead_spaces(s@, lo as int);
    }
    let ghost t = s@.subrange(lo as int, n as int);
    let mut hi: usize = n;
    while hi > lo && is_space_char(s[hi - 1])
        invariant
            lo <= hi <= n == s@.len(),
            t == s@.subrange(lo as int, n as int),
            forall|j: int| hi <= j < n ==> is_space(#[trigger] s@[j]),
        decreases hi,
    {
        hi -= 1;
    }
    proof {
        let k = (n - hi) as int;
        assert forall|j: int| t.len() - k <= j < t.len() implies is_space(#[trigger] t[j]) by {
            assert(t[j] == s@[lo + j]);
        }
        if hi > lo {
            assert(t[t.len() - k - 1] == s@[hi - 1]);
        }
        lemma_trail_spaces(t, k);
        assert(s@.subrange(lo as int, hi as int) =~= t.subrange(0, t.len() - trail_spaces(t)));
    }
    (lo, hi)
}

/// Whether `pat` occurs in the ASCII lower-casing of `hay`.
pub fn has_folded(hay: &Vec<char>, pat: &str) -> (r: bool)
    ensures
        r == contains_folded(hay@, pat@),
{
    let p = chars_of(pat);
    let n = hay.len();
    let m = p.len();
    if m > n {
        assert(!contains_folded(hay@, pat@));
        return false;
    }
    let mut i: usize = 0;
    while i <= n - m
        invariant
            m <= n == hay@.len(),
            p@ == pat@,
            m == p@.len(),
            i <= n - m + 1,
            forall|k: int| 0 <= k < i ==> !#[trigger] matches_folded_at(hay@, pat@, k),
        decreases n + 1 - i,
    {
        let mut j: usize = 0;
        let mut ok = true;
        while j < m
            invariant
                m <= n == hay@.len(),
                i + m <= n,
                p@ == pat@,
                m == p@.len(),
                j <= m,
                ok == (forall|l: int| 0 <= l < j ==> ascii_lower(#[trigger] hay@[i + l]) == p@[l] as u32),
            decreases m - j,
        {
            let u = hay[i + j] as u32;
            let lu: u32 = if 0x41 <= u && u <= 0x5A { u + 32 } else { u };
            if lu != p[j] as u32 {
                ok = false;
            }
            j += 1;
        }
        if ok {
            assert(matches_folded_at(hay@, pat@, i as int));
            return true;
        }
        i += 1;
    }
    proof {
        assert forall|k: int| 0 <= k && k + pat@.len() <= hay@.len() implies !#[trigger] matches_folded_at(hay@, pat@, k) by {}
    }
    false
}


/// Whether `a` and `b` hold the same characters.
pub fn str_eq(a: &str, b: &str) -> (r: bool)
    ensures
        r == (a@ == b@),
{
    let x = chars_of(a);
    let y = chars_of(b);
    if x.len() != y.len() {
        return false;
    }
    let mut i: usize = 0;
    while i < x.len()
        invariant
            x@ == a@,
            y@ == b@,
            x@.len() == y@.len(),
            i <= x@.len(),
            forall|j: int| 0 <= j < i ==> x@[j] == y@[j],
        decreases x@.len() - i,
    {
        if x[i] != y[i] {
            return false;
        }
        i += 1;
    }
    assert(x@ =~= y@);
    true
}

/// Decimal digits of `n`, most significant first.
pub open spec fn decimal_of(n: nat) -> Seq<char>
    decreases n,
{
    if n < 10 {
        seq!["0123456789"@[n as int]]
    } else {
        decimal_of(n / 10).push("0123456789"@[(n % 10) as int])
    }
}

/// Appends the decimal digits of `n` to `s`.
pub fn push_decimal(s: &mut String, n: u64)
    ensures
        final(s)@ == old(s)@ + decimal_of(n as nat),
    decreases n,
{
    proof {
        reveal_strlit("0123456789");
    }
    if n >= 10 {
        push_decimal(s, n / 10);
    }
    let d = (n % 10) as usize;
    let digit = "0123456789".substring_char(d, d + 1);
    assert(digit@ =~= seq!["0123456789"@[d as int]]);
    s.append(digit);
    assert(s@ =~= old(s)@ + decimal_of(n as nat));
}

/// Largest magnitude, in millionths, that a parsed number keeps (one thousand units).
pub const AMOUNT_CAP: i64 = 1_000_000_000;

/// Largest exponent magnitude that a parsed number keeps; for any numeral
/// shorter than this many characters a larger exponent gives the same value.
pub const EXP_CAP: i128 = 1_000_000_000_000_000_000;

pub open spec fn is_digit(c: char) -> bool {
    '0' <= c && c <= '9'
}

pub open spec fn digit_of(c: char) -> int {
    c as int - '0' as int
}

pub open spec fn all_digits(s: Seq<char>) -> bool {
    forall|i: int| 0 <= i < s.len() ==> is_digit(#[trigger] s[i])
}

/// Value of a string of decimal digits, most significant first.
pub open spec fn digits_value(s: Seq<char>) -> int
    decreases s.len(),
{
    if s.len() == 0 {
        0
    } else {
        digits_value(s.drop_last()) * 10 + digit_of(s.last())
    }
}

/// Index of the first `c` in `s`, or `s.len()` if there is none.
pub open spec fn first_index(s: Seq<char>, c: char) -> nat
    decreases s.len(),
{
    if s.len() == 0 {
        0
    } else if s[0] == c {
        0
    } else {
        1 + first_index(s.drop_first(), c)
    }
}

/// Index of the first exponent mark, `e` or `E`, in `s`, or `s.len()` if there is none.
pub open spec fn first_exp_index(s: Seq<char>) -> nat
    decreases s.len(),
{
    if s.len() == 0 {
        0
    } else if s[0] == 'e' || s[0] == 'E' {
        0
    } else {
        1 + first_exp_index(s.drop_first())
    }
}

/// `s` spells `pat` (lower case) up to ASCII case.
pub open spec fn folded_eq(s: Seq<char>, pat: Seq<char>) -> bool {
    s.len() == pat.len() && matches_folded_at(s, pat, 0)
}

/// Value of an exponent `[+-]digits`, its magnitude held at `EXP_CAP`.
pub open spec fn exponent_value(t: Seq<char>) -> Option<int> {
    let signed = t.len() > 0 && (t[0] == '+' || t[0] == '-');
    let ds = if signed { t.drop_first() } else { t };
    if ds.len() > 0 && all_digits(ds) {
        let v = if digits_value(ds) > EXP_CAP { EXP_CAP as int } else { digits_value(ds) };
        Some(if t.len() > 0 && t[0] == '-' { -v } else { v })
    } else {
        None
    }
}

/// A numeral without sign as its digits and the position, among them, of the
/// point that separates whole millionths from smaller parts:
/// `digits[.digits][(e|E)[+-]digits]` or `.digits[(e|E)[+-]digits]`.
pub open spec fn numeral_parts(body: Seq<char>) -> Option<(Seq<char>, int)> {
    let x = first_exp_index(body) as int;
    let m = body.subrange(0, x);
    let d = first_index(m, '.') as int;
    let ip = m.subrange(0, d);
    let fp = if d < m.len() { m.subrange(d + 1, m.len() as int) } else { Seq::empty() };
    let e = if x < body.len() {
        exponent_value(body.subrange(x + 1, body.len() as int))
    } else {
        Some(0int)
    };
    if all_digits(ip) && all_digits(fp) && ip.len() + fp.len() > 0 && e is Some {
        Some((ip + fp, ip.len() + e->0 + 6))
    } else {
        None
    }
}

/// The first `p` digits of `dd`, followed by zeros where `dd` is shorter.
pub open spec fn padded(dd: Seq<char>, p: int) -> Seq<char> {
    Seq::new(p as nat, |i: int| if i < dd.len() { dd[i] } else { '0' })
}

/// Whole millionths of the digits `dd` with the point at `p`.
pub open spec fn shifted_whole(dd: Seq<char>, p: int) -> int {
    if p <= 0 {
        0
    } else {
        digits_value(padded(dd, p))
    }
}

/// Some nonzero digit of `dd` lies after the point at `p`.
pub open spec fn has_dropped_digits(dd: Seq<char>, p: int) -> bool {
    exists|i: int| (if p > 0 { p } else { 0 }) <= i < dd.len() && #[trigger] dd[i] != '0'
}

/// A number as `str::parse::<f32>` writes it, read in millionths: the signed
/// magnitude rounded toward zero and held at `AMOUNT_CAP`, and whether nonzero
/// digits below a millionth were dropped. `[+-]inf` and `[+-]infinity`, in any
/// case, read as `AMOUNT_CAP`.
pub open spec fn decimal_value(s: Seq<char>) -> Option<(int, bool)> {
    let signed = s.len() > 0 && (s[0] == '+' || s[0] == '-');
    let body = if signed { s.drop_first() } else { s };
    let neg = s.len() > 0 && s[0] == '-';
    if folded_eq(body, "inf"@) || folded_eq(body, "infinity"@) {
        Some((if neg { -AMOUNT_CAP } else { AMOUNT_CAP as int }, false))
    } else {
        match numeral_parts(body) {
            Some((dd, p)) => {
                let w = shifted_whole(dd, p);
                let mag = if w > AMOUNT_CAP { AMOUNT_CAP as int } else { w };
                Some((if neg { -mag } else { mag }, has_dropped_digits(dd, p)))
            },
            None => None,
        }
    }
}

pub open spec fn pow10(n: nat) -> int
    decreases n,
{
    if n == 0 {
        1
    } else {
        10 * pow10((n - 1) as nat)
    }
}

proof fn lemma_digits_value_nonneg(s: Seq<char>)
    requires
        all_digits(s),
    ensures
        digits_value(s) >= 0,
    decreases s.len(),
{
    if s.len() > 0 {
        assert(is_digit(s[s.len() - 1]));
        lemma_digits_value_nonneg(s.drop_last());
    }
}

pub proof fn lemma_first_index(s: Seq<char>, c: char, i: int)
    requires
        0 <= i <= s.len(),
        forall|j: int| 0 <= j < i ==> #[trigger] s[j] != c,
        i == s.len() || s[i] == c,
    ensures
        first_index(s, c) == i,
    decreases i,
{
    if i > 0 {
        lemma_first_index(s.drop_first(), c, i - 1);
    }
}

proof fn lemma_first_exp_index(s: Seq<char>, i: int)
    requires
        0 <= i <= s.len(),
        forall|j: int| 0 <= j < i ==> #[trigger] s[j] != 'e' && s[j] != 'E',
        i == s.len() || s[i] == 'e' || s[i] == 'E',
    ensures
        first_exp_index(s) == i,
    decreases i,
{
    if i > 0 {
        lemma_first_exp_index(s.drop_first(), i - 1);
    }
}

proof fn lemma_pow10_pos(n: nat)
    ensures
        pow10(n) >= 1,
    decreases n,
{
    if n > 0 {
        lemma_pow10_pos((n - 1) as nat);
    }
}

proof fn lemma_pow10_mono(a: nat, b: nat)
    requires
        a <= b,
    ensures
        pow10(a) <= pow10(b),
    decreases b,
{
    if a < b {
        lemma_pow10_mono(a, (b - 1) as nat);
        lemma_pow10_pos((b - 1) as nat);
    }
}

/// Zeros appended to digits multiply their value by ten each.
proof fn lemma_padded_zeros(dd: Seq<char>, z: nat)
    ensures
        digits_value(padded(dd, (dd.len() + z) as int)) == digits_value(dd) * pow10(z),
    decreases z,
{
    if z == 0 {
        assert(padded(dd, dd.len() as int) =~= dd);
    } else {
        lemma_padded_zeros(dd, (z - 1) as nat);
        let p = padded(dd, (dd.len() + z) as int);
        assert(p.drop_last() =~= padded(dd, dd.len() + z - 1));
        let v = digits_value(dd);
        let q = pow10((z - 1) as nat);
        assert(v * q * 10 == v * (10 * q)) by (nonlinear_arith);
    }
}

pub fn is_digit_char(c: char) -> (r: bool)
    ensures
        r == is_digit(c),
{
    '0' <= c && c <= '9'
}

/// Whether `s[lo..hi]` holds digits only.
fn all_digit_chars(s: &Vec<char>, lo: usize, hi: usize) -> (r: bool)
    requires
        lo <= hi <= s@.len(),
    ensures
        r == all_digits(s@.subrange(lo as int, hi as int)),
{
    let mut i: usize = lo;
    while i < hi
        invariant
            lo <= i <= hi <= s@.len(),
            forall|j: int| lo <= j < i ==> is_digit(#[trigger] s@[j]),
        decreases hi - i,
    {
        if !is_digit_char(s[i]) {
            assert(s@.subrange(lo as int, hi as int)[i - lo] == s@[i as int]);
            return false;
        }
        i += 1;
    }
    assert forall|j: int| 0 <= j < hi - lo implies is_digit(
        #[trigger] s@.subrange(lo as int, hi as int)[j],
    ) by {
        assert(s@.subrange(lo as int, hi as int)[j] == s@[lo + j]);
    }
    true
}

/// Value of `s[lo..hi]`, all digits, held at `cap`.
fn digits_capped(s: &Vec<char>, lo: usize, hi: usize, cap: u64) -> (r: u64)
    requires
        lo <= hi <= s@.len(),
        all_digits(s@.subrange(lo as int, hi as int)),
        0 < cap <= 1_000_000_000_000_000_000,
    ensures
        r == if digits_value(s@.subrange(lo as int, hi as int)) > cap {
            cap as int
        } else {
            digits_value(s@.subrange(lo as int, hi as int))
        },
{
    let mut acc: u64 = 0;
    let mut i: usize = lo;
    while i < hi
        invariant
            lo <= i <= hi <= s@.len(),
            all_digits(s@.subrange(lo as int, hi as int)),
            0 < cap <= 1_000_000_000_000_000_000,
            acc == if digits_value(s@.subrange(lo as int, i as int)) > cap {
                cap as int
            } else {
                digits_value(s@.subrange(lo as int, i as int))
            },
        decreases hi - i,
    {
        let ghost pre = s@.subrange(lo as int, i as int);
        let ghost nxt = s@.subrange(lo as int, i + 1);
        assert(s@[i as int] == s@.subrange(lo as int, hi as int)[i - lo]);
        assert(nxt.drop_last() =~= pre);
        proof {
            assert(all_digits(pre));
            lemma_digits_value_nonneg(pre);
        }
        let d = (s[i] as u32 - '0' as u32) as u64;
        let v = acc * 10 + d;
        acc = if v > cap { cap } else { v };
        i += 1;
    }
    acc
}

/// Whether `s[lo..]` spells `pat` up to ASCII case.
fn folded_equals(s: &Vec<char>, lo: usize, pat: &str) -> (r: bool)
    requires
        lo <= s@.len(),
    ensures
        r == folded_eq(s@.subrange(lo as int, s@.len() as int), pat@),
{
    let p = chars_of(pat);
    let n = s.len();
    let ghost t = s@.subrange(lo as int, n as int);
    if n - lo != p.len() {
        return false;
    }
    let mut j: usize = 0;
    while j < p.len()
        invariant
            lo <= n == s@.len(),
            t == s@.subrange(lo as int, n as int),
            p@ == pat@,
            n - lo == p@.len(),
            j <= p@.len(),
            forall|l: int| 0 <= l < j ==> ascii_lower(#[trigger] t[0 + l]) == pat@[l] as u32,
        decreases p@.len() - j,
    {
        let u = s[lo + j] as u32;
        let lu: u32 = if 0x41 <= u && u <= 0x5A { u + 32 } else { u };
        assert(t[0 + j] == s@[lo + j]);
        if lu != p[j] as u32 {
            return false;
        }
        j += 1;
    }
    true
}

/// Reads the exponent `s[lo..]` (see `exponent_value`).
fn exponent_of(s: &Vec<char>, lo: usize) -> (r: Option<i128>)
    requires
        lo <= s@.len(),
    ensures
        match exponent_value(s@.subrange(lo as int, s@.len() as int)) {
            Some(e) => r matches Some(v) && v == e,
            None => r is None,
        },
        r matches Some(v) ==> -EXP_CAP <= v <= EXP_CAP,
{
    let n = s.len();
    let ghost t = s@.subrange(lo as int, n as int);
    let signed = lo < n && (s[lo] == '+' || s[lo] == '-');
    let ds: usize = if signed { lo + 1 } else { lo };
    assert((if signed { t.drop_first() } else { t }) =~= s@.subrange(ds as int, n as int));
    if ds == n || !all_digit_chars(s, ds, n) {
        return None;
    }
    let v = digits_capped(s, ds, n, 1_000_000_000_000_000_000);
    if signed && s[lo] == '-' {
        Some(-(v as i128))
    } else {
        Some(v as i128)
    }
}

/// `shifted_whole(dd@, p)`, held at `AMOUNT_CAP`.
fn shifted_capped(dd: &Vec<char>, p: i128) -> (r: u64)
    requires
        all_digits(dd@),
    ensures
        r == if shifted_whole(dd@, p as int) > AMOUNT_CAP {
            AMOUNT_CAP as int
        } else {
            shifted_whole(dd@, p as int)
        },
{
    if p <= 0 {
        return 0;
    }
    let len = dd.len();
    let cap: u64 = 1_000_000_000;
    if p <= len as i128 {
        let m = p as usize;
        assert(padded(dd@, p as int) =~= dd@.subrange(0, m as int));
        assert(all_digits(dd@.subrange(0, m as int)));
        return digits_capped(dd, 0, m, cap);
    }
    assert(dd@.subrange(0, len as int) =~= dd@);
    let mut acc = digits_capped(dd, 0, len, cap);
    let ghost v = digits_value(dd@);
    proof {
        lemma_digits_value_nonneg(dd@);
    }
    let z: u128 = (p - len as i128) as u128;
    let mut j: u128 = 0;
    while j < z && acc != 0 && acc != cap
        invariant
            v == digits_value(dd@),
            v >= 0,
            cap == 1_000_000_000,
            j <= z,
            acc == if v * pow10(j as nat) > cap { cap as int } else { v * pow10(j as nat) },
        decreases z - j,
    {
        proof {
            assert(v * pow10((j + 1) as nat) == v * pow10(j as nat) * 10) by (nonlinear_arith)
                requires
                    pow10((j + 1) as nat) == 10 * pow10(j as nat),
            ;
        }
        let t = acc * 10;
        acc = if t > cap { cap } else { t };
        j += 1;
    }
    proof {
        lemma_padded_zeros(dd@, z as nat);
        assert(dd@.len() + z == p);
        lemma_pow10_pos(j as nat);
        lemma_pow10_mono(j as nat, z as nat);
        if j < z {
            if acc == 0 {
                assert(v == 0) by (nonlinear_arith)
                    requires
                        v * pow10(j as nat) == 0,
                        pow10(j as nat) >= 1,
                        v >= 0,
                ;
                assert(v * pow10(z as nat) == 0) by (nonlinear_arith)
                    requires
                        v == 0,
                ;
            } else {
                assert(v * pow10(z as nat) >= v * pow10(j as nat)) by (nonlinear_arith)
                    requires
                        pow10(j as nat) <= pow10(z as nat),
                        v >= 0,
                ;
            }
        }
    }
    acc
}

/// `has_dropped_digits(dd@, p)`.
fn dropped_digits(dd: &Vec<char>, p: i128) -> (r: bool)
    ensures
        r == has_dropped_digits(dd@, p as int),
{
    let len = dd.len();
    let mut i: usize = if p <= 0 {
        0
    } else if p < len as i128 {
        p as usize
    } else {
        len
    };
    let ghost lo: int = if p > 0 { p as int } else { 0 };
    while i < len
        invariant
            len == dd@.len(),
            lo == (if (p as int) > 0 { p as int } else { 0 }),
            lo <= i || i == len,
            i <= len,
            forall|j: int| lo <= j < i ==> dd@[j] == '0',
        decreases len - i,
    {
        if dd[i] != '0' {
            assert((if (p as int) > 0 { p as int } else { 0 }) <= i as int);
            assert(dd@[i as int] != '0');
            return true;
        }
        i += 1;
    }
    assert(!has_dropped_digits(dd@, p as int)) by {
        assert forall|j: int| lo <= j < dd@.len() implies !(#[trigger] dd@[j] != '0') by {}
    }
    false
}

/// The digits and point position of the unsigned numeral `s[start..]` (see `numeral_parts`).
#[verifier::rlimit(40)]
fn numeral_of(s: &Vec<char>, start: usize) -> (r: Option<(Vec<char>, i128)>)
    requires
        start <= s@.len(),
    ensures
        match numeral_parts(s@.subrange(start as int, s@.len() as int)) {
            Some((dd, p)) => r matches Some((rdd, rp)) && rdd@ == dd && rp == p,
            None => r is None,
        },
        r matches Some((rdd, rp)) ==> all_digits(rdd@),
{
    let n = s.len();
    let ghost body = s@.subrange(start as int, n as int);
    let mut x: usize = start;
    while x < n && s[x] != 'e' && s[x] != 'E'
        invariant
            start <= x <= n == s@.len(),
            body == s@.subrange(start as int, n as int),
            forall|j: int| start <= j < x ==> #[trigger] s@[j] != 'e' && s@[j] != 'E',
        decreases n - x,
    {
        x += 1;
    }
    proof {
        assert forall|j: int| 0 <= j < x - start implies #[trigger] body[j] != 'e' && body[j]
            != 'E' by {
            assert(body[j] == s@[start + j]);
        }
        if x < n {
            assert(body[x - start] == s@[x as int]);
        }
        lemma_first_exp_index(body, x - start);
    }
    let ghost m = body.subrange(0, x - start);
    assert(m =~= s@.subrange(start as int, x as int));
    let mut d: usize = start;
    while d < x && s[d] != '.'
        invariant
            start <= d <= x <= n == s@.len(),
            forall|j: int| start <= j < d ==> #[trigger] s@[j] != '.',
        decreases x - d,
    {
        d += 1;
    }
    proof {
        assert forall|j: int| 0 <= j < d - start implies #[trigger] m[j] != '.' by {
            assert(m[j] == s@[start + j]);
        }
        if d < x {
            assert(m[d - start] == s@[d as int]);
        }
        lemma_first_index(m, '.', d - start);
    }
    let fs: usize = if d < x { d + 1 } else { x };
    let ghost ip = m.subrange(0, d - start);
    let ghost fp = if d - start < m.len() {
        m.subrange(d - start + 1, m.len() as int)
    } else {
        Seq::empty()
    };
    assert(ip =~= s@.subrange(start as int, d as int));
    assert(fp =~= s@.subrange(fs as int, x as int));
    if !all_digit_chars(s, start, d) || !all_digit_chars(s, fs, x) || (d - start) + (x - fs) == 0 {
        return None;
    }
    let e: i128 = if x < n {
        assert(body.subrange(x - start + 1, body.len() as int) =~= s@.subrange(x + 1, n as int));
        match exponent_of(s, x + 1) {
            Some(e) => e,
            None => {
                return None;
            },
        }
    } else {
        0
    };
    let mut dd: Vec<char> = Vec::new();
    let mut i: usize = start;
    while i < d
        invariant
            start <= i <= d <= x <= n == s@.len(),
            dd@ == s@.subrange(start as int, i as int),
        decreases d - i,
    {
        dd.push(s[i]);
        i += 1;
        assert(dd@ =~= s@.subrange(start as int, i as int));
    }
    let mut i: usize = fs;
    while i < x
        invariant
            fs <= i <= x <= n == s@.len(),
            dd@ == s@.subrange(start as int, d as int) + s@.subrange(fs as int, i as int),
        decreases x - i,
    {
        dd.push(s[i]);
        i += 1;
        assert(dd@ =~= s@.subrange(start as int, d as int) + s@.subrange(fs as int, i as int));
    }
    assert(dd@ =~= ip + fp);
    assert(all_digits(dd@)) by {
        assert forall|j: int| 0 <= j < dd@.len() implies is_digit(#[trigger] dd@[j]) by {
            if j < ip.len() {
                assert(dd@[j] == ip[j]);
            } else {
                assert(dd@[j] == fp[j - ip.len()]);
            }
        }
    }
    let p: i128 = (d - start) as i128 + e + 6;
    Some((dd, p))
}

/// Reads the numeral `s` (see `decimal_value`).
pub fn parse_decimal(s: &Vec<char>) -> (r: Option<(i64, bool)>)
    ensures
        match decimal_value(s@) {
            Some((v, x)) => r matches Some((rv, rx)) && rv == v && rx == x,
            None => r is None,
        },
        r matches Some((v, x)) ==> -AMOUNT_CAP <= v <= AMOUNT_CAP,
{
    let n = s.len();
    let signed = n > 0 && (s[0] == '+' || s[0] == '-');
    let start: usize = if signed { 1 } else { 0 };
    let ghost body = if signed { s@.drop_first() } else { s@ };
    assert(body =~= s@.subrange(start as int, n as int));
    if folded_equals(s, start, "inf") || folded_equals(s, start, "infinity") {
        return if n > 0 && s[0] == '-' {
            Some((-1_000_000_000, false))
        } else {
            Some((1_000_000_000, false))
        };
    }
    match numeral_of(s, start) {
        None => None,
        Some((dd, p)) => {
            let whole = shifted_capped(&dd, p);
            let dropped = dropped_digits(&dd, p);
            if n > 0 && s[0] == '-' {
                Some((-(whole as i64), dropped))
            } else {
                Some((whole as i64, dropped))
            }
        },
    }
}

} // verus!
