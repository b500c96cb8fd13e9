//! Size budgets: "5M", "600kbit", "1.5G" and the like, resolved to a number of bits.
use vstd::prelude::*;
use vstd::arithmetic::div_mod::{lemma_div_denominator, lemma_div_multiples_vanish, lemma_div_multiples_vanish_fancy, lemma_hoist_over_denominator};
use crate::text::{chars_of, slice_chars, trim, trim_chars};

verus! {

/// What `char::is_numeric` answers for a character: whether its general
/// category is one of those for numbers.
pub uninterp spec fn is_numeric_char(c: char) -> bool;

/// Relies on `char::is_numeric`: the answer depends on the character alone.
#[verifier::external_body]
fn numeric_char(c: char) -> (r: bool)
    ensures
        r == is_numeric_char(c),
{
    c.is_numeric()
}

pub open spec fn is_digit(c: char) -> bool {
    '0' <= c && c <= '9'
}

pub open spec fn digit_of(c: char) -> nat {
    (c as u32 - '0' as u32) as nat
}

/// A character that may stand in the numeric part of a size: a numeric
/// character or a point. Among ASCII characters the numeric ones are the digits.
pub open spec fn in_number(c: char) -> bool {
    if (c as u32) < 128 {
        is_digit(c) || c == '.'
    } else {
        is_numeric_char(c)
    }
}

fn number_char(c: char) -> (r: bool)
    ensures
        r == in_number(c),
{
    if (c as u32) < 128 {
        ('0' <= c && c <= '9') || c == '.'
    } else {
        numeric_char(c)
    }
}

/// End of the run of number characters that starts at `i`.
pub open spec fn number_end(t: Seq<char>, i: int) -> int
    decreases t.len() - i,
{
    if 0 <= i < t.len() && in_number(t[i]) {
        number_end(t, i + 1)
    } else {
        i
    }
}

/// End of the run of ASCII digits that starts at `i`.
pub open spec fn digits_end(t: Seq<char>, i: int) -> int
    decreases t.len() - i,
{
    if 0 <= i < t.len() && is_digit(t[i]) {
        digits_end(t, i + 1)
    } else {
        i
    }
}

/// The value of a string of decimal digits.
pub open spec fn digits_value(d: Seq<char>) -> nat
    decreases d.len(),
{
    if d.len() == 0 {
        0
    } else {
        digits_value(d.drop_last()) * 10 + digit_of(d.last())
    }
}

/// The first `n` fraction digits of `f` as an integer, reading missing digits as zeros.
pub open spec fn frac_prefix(f: Seq<char>, n: nat) -> nat
    decreases n,
{
    if n == 0 {
        0
    } else {
        frac_prefix(f, (n - 1) as nat) * 10 + if n - 1 < f.len() {
            digit_of(f[n - 1])
        } else {
            0
        }
    }
}

/// Number of fraction digits that can matter: every multiplier divides 10^12.
pub const FRAC_DIGITS: usize = 12;

pub const FRAC_SCALE: u128 = 1_000_000_000_000;

/// A number written as digits with at most one decimal point and at least one
/// digit ("5", "5.", ".5", "5.25"): its integer part and its fraction digits.
pub open spec fn decimal_parts(p: Seq<char>) -> Option<(Seq<char>, Seq<char>)> {
    let a = digits_end(p, 0);
    if a == p.len() {
        if a > 0 {
            Some((p, Seq::<char>::empty()))
        } else {
            None
        }
    } else if p[a] == '.' && digits_end(p, a + 1) == p.len() && (a > 0 || p.len() > a + 1) {
        Some((p.subrange(0, a), p.subrange(a + 1, p.len() as int)))
    } else {
        None
    }
}

/// Case-insensitive match of `c` against the lower-case ASCII letter `l`.
pub open spec fn ci(c: char, l: char) -> bool {
    c == l || c as u32 + 32 == l as u32
}

/// Whether `u` spells the lower-case word `w`, ignoring ASCII case.
pub open spec fn unit_is(u: Seq<char>, w: Seq<char>) -> bool {
    u.len() == w.len() && forall|i: int| 0 <= i < u.len() ==> ci(u[i], w[i])
}

/// Bits per unit of the suffix: decimal kilo, mega and giga, in bytes unless
/// the suffix says bits; anything else counts as bytes.
pub open spec fn unit_multiplier(u: Seq<char>) -> nat {
    if unit_is(u, seq!['k']) || unit_is(u, seq!['k', 'b']) {
        8_000
    } else if unit_is(u, seq!['k', 'b', 'i', 't']) || unit_is(u, seq!['k', 'b', 'p', 's']) {
        1_000
    } else if unit_is(u, seq!['m']) || unit_is(u, seq!['m', 'b']) {
        8_000_000
    } else if unit_is(u, seq!['m', 'b', 'i', 't']) || unit_is(u, seq!['m', 'b', 'p', 's']) {
        1_000_000
    } else if unit_is(u, seq!['g']) || unit_is(u, seq!['g', 'b']) {
        8_000_000_000
    } else if unit_is(u, seq!['g', 'b', 'i', 't']) || unit_is(u, seq!['g', 'b', 'p', 's']) {
        1_000_000_000
    } else {
        8
    }
}

pub open spec fn min_u64(x: nat) -> nat {
    if x > u64::MAX {
        u64::MAX as nat
    } else {
        x
    }
}

/// The bits for integer part `ip`, fraction digits `f` and multiplier `m`:
/// `(ip + f) * m` rounded down, at most `u64::MAX`.
pub open spec fn bits_for(ip: nat, f: Seq<char>, m: nat) -> nat {
    min_u64(ip * m + frac_prefix(f, 12) * m / 1_000_000_000_000)
}

/// The bit count that a size string denotes, or `None` where its numeric
/// part is not a number.
pub open spec fn size_bits(s: Seq<char>) -> Option<nat> {
    let t = trim(s);
    let e = number_end(t, 0);
    match decimal_parts(t.subrange(0, e)) {
        Some((ip, f)) => Some(bits_for(digits_value(ip), f, unit_multiplier(t.subrange(e, t.len() as int)))),
        None => None,
    }
}


pub const INT_CAP: u128 = 0x1_0000_0000_0000_0000;

pub open spec fn cap(x: nat) -> nat {
    if x > INT_CAP {
        INT_CAP as nat
    } else {
        x
    }
}

fn number_end_exec(t: &Vec<char>) -> (e: usize)
    ensures
        e == number_end(t@, 0),
{
    let mut i: usize = 0;
    while i < t.len() && number_char(t[i])
        invariant
            i <= t@.len(),
            number_end(t@, 0) == number_end(t@, i as int),
        decreases t@.len() - i,
    {
        i = i + 1;
    }
    i
}

pub(crate) fn digits_end_exec(t: &Vec<char>, from: usize) -> (e: usize)
    requires
        from <= t@.len(),
    ensures
        e == digits_end(t@, from as int),
        from <= e <= t@.len(),
        forall|k: int| from <= k < e ==> is_digit(t@[k]),
{
    let mut i: usize = from;
    while i < t.len() && '0' <= t[i] && t[i] <= '9'
        invariant
            from <= i <= t@.len(),
            digits_end(t@, from as int) == digits_end(t@, i as int),
            forall|k: int| from <= k < i ==> is_digit(t@[k]),
        decreases t@.len() - i,
    {
        i = i + 1;
    }
    i
}

/// The value of the digits `d[from..to]`, capped at `INT_CAP`.
pub(crate) fn int_value(d: &Vec<char>, from: usize, to: usize) -> (r: u128)
    requires
        from <= to <= d@.len(),
        forall|k: int| from <= k < to ==> is_digit(d@[k]),
    ensures
        r == cap(digits_value(d@.subrange(from as int, to as int))),
{
    let mut acc: u128 = 0;
    let mut i: usize = from;
    assert(d@.subrange(from as int, from as int).len() == 0);
    while i < to
        invariant
            from <= i <= to <= d@.len(),
            forall|k: int| from <= k < to ==> is_digit(d@[k]),
            acc == cap(digits_value(d@.subrange(from as int, i as int))),
        decreases to - i,
    {
        let ghost prev = d@.subrange(from as int, i as int);
        let ghost next = d@.subrange(from as int, i + 1);
        assert(next.drop_last() =~= prev);
        assert(next.last() == d@[i as int]);
        let dg = (d[i] as u32 - '0' as u32) as u128;
        if acc >= INT_CAP {
            assert(digits_value(next) >= INT_CAP) by (nonlinear_arith)
                requires
                    digits_value(next) == digits_value(prev) * 10 + dg,
                    digits_value(prev) >= INT_CAP,
            ;
        } else {
            let v = acc * 10 + dg;
            acc = if v > INT_CAP {
                INT_CAP
            } else {
                v
            };
        }
        i = i + 1;
    }
    acc
}

/// The first twelve fraction digits of `d[from..]`, padded with zeros.
fn frac_value(d: &Vec<char>, from: usize) -> (r: u128)
    requires
        from <= d@.len(),
        forall|k: int| from <= k < d@.len() ==> is_digit(d@[k]),
    ensures
        r == frac_prefix(d@.subrange(from as int, d@.len() as int), 12),
        r < FRAC_SCALE,
{
    let ghost f = d@.subrange(from as int, d@.len() as int);
    let mut acc: u128 = 0;
    let mut i: usize = 0;
    while i < FRAC_DIGITS
        invariant
            from <= d@.len(),
            f == d@.subrange(from as int, d@.len() as int),
            forall|k: int| from <= k < d@.len() ==> is_digit(d@[k]),
            i <= FRAC_DIGITS,
            acc == frac_prefix(f, i as nat),
            acc < pow10(i as nat),
        decreases FRAC_DIGITS - i,
    {
        let dg: u128 = if i < d.len() - from {
            (d[from + i] as u32 - '0' as u32) as u128
        } else {
            0
        };
        proof {
            lemma_pow10_mono((i + 1) as nat, 12);
            reveal_with_fuel(pow10, 13);
        }
        assert(acc * 10 + dg < pow10((i + 1) as nat)) by (nonlinear_arith)
            requires
                acc < pow10(i as nat),
                dg < 10,
                pow10((i + 1) as nat) == pow10(i as nat) * 10,
        ;
        acc = acc * 10 + dg;
        i = i + 1;
    }
    assert(pow10(12) == FRAC_SCALE) by {
        reveal_with_fuel(pow10, 13);
    }
    acc
}

pub open spec fn pow10(n: nat) -> nat
    decreases n,
{
    if n == 0 {
        1
    } else {
        pow10((n - 1) as nat) * 10
    }
}

proof fn lemma_pow10_mono(i: nat, j: nat)
    requires
        i <= j,
    ensures
        pow10(i) <= pow10(j),
    decreases j,
{
    if i < j {
        lemma_pow10_mono(i, (j - 1) as nat);
    }
}

/// The integer part (capped) and the fraction units of the number `p`, where it is one.
pub(crate) fn decimal_value(p: &Vec<char>) -> (r: Option<(u128, u128)>)
    ensures
        match decimal_parts(p@) {
            None => r is None,
            Some((ip, f)) => r == Some((cap(digits_value(ip)) as u128, frac_prefix(f, 12) as u128))
                && frac_prefix(f, 12) < FRAC_SCALE,
        },
{
    let n = p.len();
    let a = digits_end_exec(p, 0);
    if a == n {
        if a > 0 {
            assert(p@.subrange(0, n as int) =~= p@);
            let ip = int_value(p, 0, n);
            let fv = frac_value(p, n);
            assert(p@.subrange(n as int, n as int) =~= Seq::<char>::empty());
            Some((ip, fv))
        } else {
            None
        }
    } else if p[a] == '.' {
        let b = digits_end_exec(p, a + 1);
        if b == n && (a > 0 || n > a + 1) {
            let ip = int_value(p, 0, a);
            let fv = frac_value(p, a + 1);
            Some((ip, fv))
        } else {
            None
        }
    } else {
        None
    }
}


fn ci_exec(c: char, l: char) -> (r: bool)
    ensures
        r == ci(c, l),
{
    c == l || (c as u32) + 32 == l as u32
}

/// Whether `u` spells the lower-case word `w`, ignoring ASCII case.
pub(crate) fn spells(u: &Vec<char>, w: &Vec<char>) -> (r: bool)
    ensures
        r == unit_is(u@, w@),
{
    if u.len() != w.len() {
        return false;
    }
    let mut i: usize = 0;
    while i < u.len()
        invariant
            u@.len() == w@.len(),
            i <= u@.len(),
            forall|k: int| 0 <= k < i ==> ci(u@[k], w@[k]),
        decreases u@.len() - i,
    {
        if !ci_exec(u[i], w[i]) {
            return false;
        }
        i = i + 1;
    }
    true
}

fn unit_multiplier_exec(u: &Vec<char>) -> (r: u64)
    ensures
        r == unit_multiplier(u@),
{
    let k = vec!['k'];
    let kb = vec!['k', 'b'];
    let kbit = vec!['k', 'b', 'i', 't'];
    let kbps = vec!['k', 'b', 'p', 's'];
    let m = vec!['m'];
    let mb = vec!['m', 'b'];
    let mbit = vec!['m', 'b', 'i', 't'];
    let mbps = vec!['m', 'b', 'p', 's'];
    let g = vec!['g'];
    let gb = vec!['g', 'b'];
    let gbit = vec!['g', 'b', 'i', 't'];
    let gbps = vec!['g', 'b', 'p', 's'];
    assert(k@ =~= seq!['k'] && kb@ =~= seq!['k', 'b'] && kbit@ =~= seq!['k', 'b', 'i', 't']
        && kbps@ =~= seq!['k', 'b', 'p', 's']);
    assert(m@ =~= seq!['m'] && mb@ =~= seq!['m', 'b'] && mbit@ =~= seq!['m', 'b', 'i', 't']
        && mbps@ =~= seq!['m', 'b', 'p', 's']);
    assert(g@ =~= seq!['g'] && gb@ =~= seq!['g', 'b'] && gbit@ =~= seq!['g', 'b', 'i', 't']
        && gbps@ =~= seq!['g', 'b', 'p', 's']);
    if spells(u, &k) || spells(u, &kb) {
        8_000
    } else if spells(u, &kbit) || spells(u, &kbps) {
        1_000
    } else if spells(u, &m) || spells(u, &mb) {
        8_000_000
    } else if spells(u, &mbit) || spells(u, &mbps) {
        1_000_000
    } else if spells(u, &g) || spells(u, &gb) {
        8_000_000_000
    } else if spells(u, &gbit) || spells(u, &gbps) {
        1_000_000_000
    } else {
        8
    }
}

/// What the suffix of a resolvable size string is. Both `Missing` and
/// `Unknown` are counted as bytes, and call for a warning.
#[derive(Clone, Copy, Debug, PartialEq, Eq)]
pub enum SizeUnit {
    /// No suffix.
    Missing,
    /// One of the unit table's spellings.
    Known,
    /// Any other suffix.
    Unknown,
}

/// Whether `u` spells one of the table's units, in any ASCII case.
pub open spec fn unit_in_table(u: Seq<char>) -> bool {
    unit_is(u, seq!['k']) || unit_is(u, seq!['k', 'b']) || unit_is(u, seq!['k', 'b', 'i', 't']) || unit_is(
        u,
        seq!['k', 'b', 'p', 's'],
    ) || unit_is(u, seq!['m']) || unit_is(u, seq!['m', 'b']) || unit_is(u, seq!['m', 'b', 'i', 't'])
        || unit_is(u, seq!['m', 'b', 'p', 's']) || unit_is(u, seq!['g']) || unit_is(u, seq!['g', 'b'])
        || unit_is(u, seq!['g', 'b', 'i', 't']) || unit_is(u, seq!['g', 'b', 'p', 's'])
}

/// The kind of suffix of a size string, or `None` where it does not resolve.
pub open spec fn size_unit_of(s: Seq<char>) -> Option<SizeUnit> {
    let t = trim(s);
    let e = number_end(t, 0);
    let u = t.subrange(e, t.len() as int);
    if decimal_parts(t.subrange(0, e)) is None {
        None
    } else if u.len() == 0 {
        Some(SizeUnit::Missing)
    } else if unit_in_table(u) {
        Some(SizeUnit::Known)
    } else {
        Some(SizeUnit::Unknown)
    }
}

pub fn size_unit(s: &str) -> (r: Option<SizeUnit>)
    ensures
        r == size_unit_of(s@),
{
    let cs = chars_of(s);
    let t = trim_chars(&cs);
    let e = number_end_exec(&t);
    proof {
        lemma_number_end_bounds(t@, 0);
    }
    let p = slice_chars(&t, 0, e);
    let u = slice_chars(&t, e, t.len());
    if decimal_value(&p).is_none() {
        None
    } else if u.len() == 0 {
        Some(SizeUnit::Missing)
    } else if unit_multiplier_exec(&u) != 8 {
        Some(SizeUnit::Known)
    } else {
        Some(SizeUnit::Unknown)
    }
}

/// Resolves a size string to a bit count: surrounding whitespace is ignored,
/// the leading run of number characters is the value and the rest the unit
/// (see `unit_multiplier`). `None` where the value is not a number.
pub fn parse_size(s: &str) -> (r: Option<u64>)
    ensures
        match size_bits(s@) {
            None => r is None,
            Some(b) => r == Some(b as u64),
        },
{
    let cs = chars_of(s);
    let t = trim_chars(&cs);
    let e = number_end_exec(&t);
    proof {
        lemma_number_end_bounds(t@, 0);
    }
    let p = slice_chars(&t, 0, e);
    let u = slice_chars(&t, e, t.len());
    match decimal_value(&p) {
        None => None,
        Some((ip, fv)) => {
            let m = unit_multiplier_exec(&u) as u128;
            let ghost f = decimal_parts(p@).unwrap().1;
            let ghost exact = digits_value(decimal_parts(p@).unwrap().0);
            assert(m <= 8_000_000_000);
            assert(fv * m < FRAC_SCALE * 8_000_000_000) by (nonlinear_arith)
                requires
                    fv < FRAC_SCALE,
                    m <= 8_000_000_000,
            ;
            assert(ip * m <= INT_CAP * 8_000_000_000) by (nonlinear_arith)
                requires
                    ip <= INT_CAP,
                    m <= 8_000_000_000,
            ;
            let total = ip * m + fv * m / FRAC_SCALE;
            proof {
                if exact > INT_CAP {
                    assert(exact * m >= INT_CAP * m) by (nonlinear_arith)
                        requires
                            exact > INT_CAP,
                            m >= 8,
                    ;
                    assert(INT_CAP * m > u64::MAX) by (nonlinear_arith)
                        requires
                            m >= 8,
                    ;
                }
            }
            if total > u64::MAX as u128 {
                Some(u64::MAX)
            } else {
                Some(total as u64)
            }
        },
    }
}

proof fn lemma_number_end_bounds(t: Seq<char>, i: int)
    requires
        0 <= i <= t.len(),
    ensures
        i <= number_end(t, i) <= t.len(),
    decreases t.len() - i,
{
    if i < t.len() && in_number(t[i]) {
        lemma_number_end_bounds(t, i + 1);
    }
}


/// A numeral: integer digits, and where there is a point, the point and the fraction digits.
pub open spec fn numeral(ip: Seq<char>, point: bool, f: Seq<char>) -> Seq<char> {
    if point {
        ip + seq!['.'] + f
    } else {
        ip
    }
}

pub open spec fn all_digits(d: Seq<char>) -> bool {
    forall|i: int| 0 <= i < d.len() ==> is_digit(#[trigger] d[i])
}

/// A text that, without surrounding whitespace, is a numeral followed by a
/// unit resolves to the numeral's value times the unit's multiplier, rounded
/// down and capped at `u64::MAX`. The value of `ip.f` is
/// `digits_value(ip + f) / 10^|f|`. The unit may be empty (bytes), one of the
/// table's, or anything else that does not start with a number character
/// (bytes again).
pub proof fn lemma_size_of_numeral(text: Seq<char>, ip: Seq<char>, point: bool, f: Seq<char>, u: Seq<char>)
    requires
        trim(text) == numeral(ip, point, f) + u,
        all_digits(ip),
        all_digits(f),
        ip.len() + f.len() > 0,
        !point ==> f.len() == 0,
        u.len() > 0 ==> !in_number(u[0]),
    ensures
        size_bits(text) == Some(
            min_u64(digits_value(ip + f) * unit_multiplier(u) / pow10(f.len())),
        ),
{
    let p = numeral(ip, point, f);
    let s = p + u;
    let m = unit_multiplier(u);
    assert(p.len() > 0);
    assert forall|j: int| 0 <= j < p.len() implies in_number(#[trigger] p[j]) by {
        if j < ip.len() {
            assert(p[j] == ip[j]);
        } else if j == ip.len() {
        } else {
            assert(p[j] == f[j - ip.len() - 1]);
        }
    }
    // the number ends where the unit starts
    lemma_number_end_at(s, p.len() as int, 0);
    assert(s.subrange(0, p.len() as int) =~= p);
    assert(s.subrange(p.len() as int, s.len() as int) =~= u);
    // the numeral's parts
    lemma_digits_end_at(p, ip.len() as int, 0);
    if point {
        lemma_digits_end_at(p, p.len() as int, ip.len() as int + 1);
        assert(p.subrange(0, ip.len() as int) =~= ip);
        assert(p.subrange(ip.len() as int + 1, p.len() as int) =~= f);
        assert(decimal_parts(p) == Some((ip, f)));
    } else {
        assert(f =~= Seq::<char>::empty());
        assert(ip + f =~= ip);
        assert(decimal_parts(p) == Some((ip, Seq::<char>::empty())));
    }
    lemma_multiplier_divides(u);
    lemma_value_of_parts(ip, f, m);
}

/// A size string whose leading run of number characters is not a numeral
/// resolves to nothing: the run holds no ASCII digit, or two points, or a
/// number character that is not an ASCII digit.
pub proof fn lemma_not_a_numeral_no_size(s: Seq<char>)
    requires
        ({
            let t = trim(s);
            let e = number_end(t, 0);
            (forall|i: int| 0 <= i < e ==> !is_digit(#[trigger] t[i])) || (exists|i: int, j: int|
                0 <= i < j < e && #[trigger] t[i] == '.' && #[trigger] t[j] == '.') || (exists|i: int|
                0 <= i < e && !is_digit(#[trigger] t[i]) && t[i] != '.')
        }),
    ensures
        size_bits(s) is None,
{
    let t = trim(s);
    lemma_number_end_bounds(t, 0);
    let e = number_end(t, 0);
    let p = t.subrange(0, e);
    lemma_digits_end_props(p, 0);
    let a = digits_end(p, 0);
    if decimal_parts(p) is Some {
        if a < p.len() {
            lemma_digits_end_props(p, a + 1);
        }
        // p is digits, or digits, a point at `a`, digits
        assert forall|i: int| 0 <= i < e && i != a implies is_digit(#[trigger] t[i]) by {
            assert(t[i] == p[i]);
        }
        if a > 0 {
            assert(is_digit(t[0]) && t[0] == p[0]);
        } else {
            assert(is_digit(t[a + 1]) && t[a + 1] == p[a + 1]);
        }
        assert(forall|i: int| 0 <= i < e ==> (#[trigger] t[i] == '.' ==> i == a));
        assert(forall|i: int| 0 <= i < e ==> (is_digit(#[trigger] t[i]) || t[i] == '.'));
    }
}

proof fn lemma_digits_end_props(p: Seq<char>, i: int)
    requires
        0 <= i <= p.len(),
    ensures
        i <= digits_end(p, i) <= p.len(),
        forall|k: int| i <= k < digits_end(p, i) ==> is_digit(#[trigger] p[k]),
        digits_end(p, i) < p.len() ==> !is_digit(p[digits_end(p, i)]),
    decreases p.len() - i,
{
    if i < p.len() && is_digit(p[i]) {
        lemma_digits_end_props(p, i + 1);
    }
}

/// A size string whose text does not begin with a digit, a point or another
/// number character does not resolve.
pub proof fn lemma_no_number_no_size(s: Seq<char>)
    requires
        trim(s).len() == 0 || !in_number(trim(s)[0]),
    ensures
        size_bits(s) is None,
{
    let t = trim(s);
    assert(number_end(t, 0) == 0);
    let p = t.subrange(0, 0);
    assert(p.len() == 0);
    assert(digits_end(p, 0) == 0);
}

proof fn lemma_number_end_at(s: Seq<char>, n: int, i: int)
    requires
        0 <= i <= n <= s.len(),
        forall|j: int| 0 <= j < n ==> in_number(#[trigger] s[j]),
        n < s.len() ==> !in_number(s[n]),
    ensures
        number_end(s, i) == n,
    decreases n - i,
{
    if i < n {
        lemma_number_end_at(s, n, i + 1);
    }
}

proof fn lemma_digits_end_at(p: Seq<char>, n: int, i: int)
    requires
        0 <= i <= n <= p.len(),
        forall|j: int| i <= j < n ==> is_digit(#[trigger] p[j]),
        n < p.len() ==> !is_digit(p[n]),
    ensures
        digits_end(p, i) == n,
    decreases n - i,
{
    if i < n {
        lemma_digits_end_at(p, n, i + 1);
    }
}

proof fn lemma_digits_concat(a: Seq<char>, b: Seq<char>)
    ensures
        digits_value(a + b) == digits_value(a) * pow10(b.len()) + digits_value(b),
    decreases b.len(),
{
    if b.len() == 0 {
        assert(a + b =~= a);
        assert(pow10(0) == 1);
        assert(digits_value(b) == 0);
        assert(pow10(b.len()) == 1);
        assert(digits_value(a) * 1 == digits_value(a));
    } else {
        assert((a + b).drop_last() =~= a + b.drop_last());
        lemma_digits_concat(a, b.drop_last());
        let x = digits_value(a);
        let y = digits_value(b.drop_last());
        let q = pow10((b.len() - 1) as nat);
        assert((a + b).last() == b.last());
        assert(pow10(b.len()) == q * 10);
        assert(digits_value(a + b) == digits_value((a + b).drop_last()) * 10 + digit_of(b.last()));
        assert(digits_value(b) == y * 10 + digit_of(b.last()));
        assert((x * q + y) * 10 == x * (q * 10) + y * 10) by (nonlinear_arith);
    }
}

proof fn lemma_digits_bound(d: Seq<char>)
    requires
        all_digits(d),
    ensures
        digits_value(d) < pow10(d.len()),
    decreases d.len(),
{
    if d.len() > 0 {
        assert(all_digits(d.drop_last()));
        lemma_digits_bound(d.drop_last());
        assert(is_digit(d[d.len() - 1]));
        let x = digits_value(d.drop_last());
        let q = pow10((d.len() - 1) as nat);
        let e = digit_of(d.last());
        assert(x * 10 + e < q * 10) by (nonlinear_arith)
            requires
                x < q,
                e < 10,
        ;
    }
}

proof fn lemma_frac_prefix_short(f: Seq<char>, n: nat)
    requires
        n <= f.len(),
    ensures
        frac_prefix(f, n) == digits_value(f.subrange(0, n as int)),
    decreases n,
{
    if n > 0 {
        lemma_frac_prefix_short(f, (n - 1) as nat);
        assert(f.subrange(0, n as int).drop_last() =~= f.subrange(0, n - 1));
    } else {
        assert(f.subrange(0, 0).len() == 0);
    }
}

proof fn lemma_frac_prefix_padded(f: Seq<char>, n: nat)
    requires
        n >= f.len(),
    ensures
        frac_prefix(f, n) == digits_value(f) * pow10((n - f.len()) as nat),
    decreases n,
{
    if n == f.len() {
        lemma_frac_prefix_short(f, n);
        assert(f.subrange(0, n as int) =~= f);
        assert((n - f.len()) as nat == 0);
        assert(pow10(0) == 1);
        assert(digits_value(f) * 1 == digits_value(f));
    } else {
        lemma_frac_prefix_padded(f, (n - 1) as nat);
        let x = digits_value(f);
        let q = pow10((n - 1 - f.len()) as nat);
        assert(pow10((n - f.len()) as nat) == q * 10);
        assert(frac_prefix(f, n) == frac_prefix(f, (n - 1) as nat) * 10);
        assert(x * q * 10 == x * (q * 10)) by (nonlinear_arith);
    }
}

proof fn lemma_pow10_add(a: nat, b: nat)
    ensures
        pow10(a + b) == pow10(a) * pow10(b),
    decreases b,
{
    if b == 0 {
        assert(pow10(0) == 1);
        assert(a + b == a);
        assert(pow10(a) * 1 == pow10(a));
    } else {
        lemma_pow10_add(a, (b - 1) as nat);
        assert((a + b - 1) as nat == a + (b - 1) as nat);
        assert(pow10(a + b) == pow10((a + b - 1) as nat) * 10);
        assert(pow10(b) == pow10((b - 1) as nat) * 10);
        assert(pow10(a) * pow10((b - 1) as nat) * 10 == pow10(a) * (pow10((b - 1) as nat) * 10)) by (nonlinear_arith);
    }
}

proof fn lemma_pow10_pos(n: nat)
    ensures
        pow10(n) > 0,
    decreases n,
{
    if n > 0 {
        lemma_pow10_pos((n - 1) as nat);
    }
}

/// Every multiplier divides 10^12.
proof fn lemma_multiplier_divides(u: Seq<char>)
    ensures
        exists|d: nat| d > 0 && #[trigger] (unit_multiplier(u) * d) == 1_000_000_000_000,
{
    let m = unit_multiplier(u);
    let d: nat = 1_000_000_000_000nat / m;
    assert(m * d == 1_000_000_000_000);
}

/// `x * m / (m * d) == (x * m + e) / (m * d)` where `e < m`.
proof fn lemma_small_addend_vanishes(x: nat, e: nat, m: nat, d: nat)
    requires
        m > 0,
        d > 0,
        e < m,
    ensures
        (x * m + e) / (m * d) == (x * m) / (m * d),
{
    lemma_div_denominator((x * m + e) as int, m as int, d as int);
    lemma_div_denominator((x * m) as int, m as int, d as int);
    lemma_div_multiples_vanish_fancy(x as int, e as int, m as int);
    lemma_div_multiples_vanish(x as int, m as int);
    assert(m * x == x * m) by (nonlinear_arith);
}

proof fn lemma_value_of_parts(ip: Seq<char>, f: Seq<char>, m: nat)
    requires
        all_digits(f),
        exists|d: nat| d > 0 && #[trigger] (m * d) == 1_000_000_000_000,
        m > 0,
    ensures
        digits_value(ip) * m + frac_prefix(f, 12) * m / 1_000_000_000_000 == digits_value(ip + f) * m / pow10(f.len()),
{
    let a = digits_value(ip);
    let k = f.len();
    let b = digits_value(f);
    lemma_digits_concat(ip, f);
    lemma_pow10_pos(k);
    let pk = pow10(k);
    assert(pow10(12) == 1_000_000_000_000) by {
        reveal_with_fuel(pow10, 13);
    }
    // (a * pk + b) * m / pk == a * m + b * m / pk
    assert((a * pk + b) * m == b * m + (a * m) * pk) by (nonlinear_arith);
    lemma_hoist_over_denominator((b * m) as int, (a * m) as int, pk);
    if k <= 12 {
        lemma_frac_prefix_padded(f, 12);
        let q = pow10((12 - k) as nat);
        lemma_pow10_pos((12 - k) as nat);
        lemma_pow10_add(k, (12 - k) as nat);
        // b * q * m / (pk * q) == b * m / pk
        lemma_div_denominator((b * m * q) as int, q as int, pk as int);
        lemma_div_multiples_vanish((b * m) as int, q as int);
        assert(b * q * m == q * (b * m)) by (nonlinear_arith);
        assert(b * m * q == q * (b * m)) by (nonlinear_arith);
        assert(q * pk == pk * q) by (nonlinear_arith);
    } else {
        let f12 = f.subrange(0, 12);
        let rest = f.subrange(12, k as int);
        assert(f =~= f12 + rest);
        lemma_frac_prefix_short(f, 12);
        lemma_digits_concat(f12, rest);
        assert(all_digits(rest));
        lemma_digits_bound(rest);
        let x = digits_value(f12);
        let r = digits_value(rest);
        let t = pow10((k - 12) as nat);
        lemma_pow10_pos((k - 12) as nat);
        lemma_pow10_add(12, (k - 12) as nat);
        let d = choose|d: nat| d > 0 && #[trigger] (m * d) == 1_000_000_000_000;
        // b * m / pk == ((b * m) / t) / 10^12
        lemma_div_denominator((b * m) as int, t as int, 1_000_000_000_000);
        assert(pk == t * 1_000_000_000_000) by (nonlinear_arith)
            requires
                pk == 1_000_000_000_000 * t,
        ;
        // (b * m) / t == x * m + (r * m) / t
        assert(b * m == (r * m) + (x * m) * t) by (nonlinear_arith)
            requires
                b == x * t + r,
        ;
        lemma_hoist_over_denominator((r * m) as int, (x * m) as int, t);
        let e = (r * m) / t;
        assert(e < m) by {
            assert(r * m < t * m) by (nonlinear_arith)
                requires
                    r < t,
                    m > 0,
            ;
            if e >= m {
                assert(e * t >= m * t) by (nonlinear_arith)
                    requires
                        e >= m,
                        t > 0,
                ;
                vstd::arithmetic::div_mod::lemma_fundamental_div_mod((r * m) as int, t as int);
                assert((r * m) as int == (t as int) * (e as int) + ((r * m) as int) % (t as int));
                assert(t * e == e * t) by (nonlinear_arith);
                assert(m * t == t * m) by (nonlinear_arith);
            }
        }
        lemma_small_addend_vanishes(x, e, m, d);
    }
}

} // verus!
