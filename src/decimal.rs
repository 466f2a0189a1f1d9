use vstd::prelude::*;
use crate::byteseq::{find, find_from, lemma_find_from, lemma_find_from_is, find_bytes_from, occurs_at};

verus! {

/// Ten to the power `k`.
pub open spec fn pow10(k: nat) -> nat
    decreases k,
{
    if k == 0 {
        1
    } else {
        10 * pow10((k - 1) as nat)
    }
}

/// Number of fractional decimal digits in a fixed-point value.
pub const SCALE_DIGITS: usize = 7;

/// One unit of a fixed-point value is `1 / FIXED_ONE`.
pub const FIXED_ONE: u64 = 10_000_000;

pub open spec fn is_digit(b: u8) -> bool {
    48 <= b <= 57
}

pub open spec fn all_digits(s: Seq<u8>) -> bool {
    forall|i: int| 0 <= i < s.len() ==> is_digit(#[trigger] s[i])
}

/// The number that the decimal digits `s` spell, most significant first.
pub open spec fn digits_value(s: Seq<u8>) -> int
    decreases s.len(),
{
    if s.len() == 0 {
        0
    } else {
        digits_value(s.drop_last()) * 10 + (s.last() - 48)
    }
}

/// The shortest decimal text of `n`.
pub open spec fn nat_text(n: nat) -> Seq<u8>
    decreases n,
{
    if n < 10 {
        seq![(48 + n) as u8]
    } else {
        nat_text(n / 10).push((48 + n % 10) as u8)
    }
}

/// `f` written with exactly `k` decimal digits (leading zeros kept).
pub open spec fn padded_text(f: nat, k: nat) -> Seq<u8>
    decreases k,
{
    if k == 0 {
        Seq::empty()
    } else {
        padded_text(f / 10, (k - 1) as nat).push((48 + f % 10) as u8)
    }
}

/// The fraction `f / 10^k` written after the point, trailing zeros dropped.
pub open spec fn frac_text(f: nat, k: nat) -> Seq<u8>
    decreases k,
{
    if k > 0 && f % 10 == 0 {
        frac_text(f / 10, (k - 1) as nat)
    } else {
        padded_text(f, k)
    }
}

/// The text of a fixed-point value with seven fractional digits: an optional
/// minus sign, the integer part, and the fraction without trailing zeros
/// (no point at all when the fraction is zero).
pub open spec fn fixed_text(v: int) -> Seq<u8> {
    let a: nat = (if v < 0 { -v } else { v }) as nat;
    let sign: Seq<u8> = if v < 0 { seq![45u8] } else { Seq::empty() };
    let ip = nat_text(a / FIXED_ONE as nat);
    let fp: nat = a % FIXED_ONE as nat;
    if fp == 0 {
        sign + ip
    } else {
        sign + ip + seq![46u8] + frac_text(fp, 7)
    }
}

/// The pieces of a decimal text: whether it starts with a minus sign, the
/// digits before the point, and the digits after it.
pub open spec fn fixed_parts(s: Seq<u8>) -> (bool, Seq<u8>, Seq<u8>) {
    let neg = s.len() > 0 && s[0] == 45u8;
    let signed = s.len() > 0 && (s[0] == 45u8 || s[0] == 43u8);
    let body = if signed { s.drop_first() } else { s };
    match find(body, seq![46u8]) {
        Some(d) => (neg, body.subrange(0, d), body.subrange(d + 1, body.len() as int)),
        None => (neg, body, Seq::<u8>::empty()),
    }
}

/// The fixed-point value that a decimal text spells: an optional sign, digits,
/// and an optional point followed by digits, with at least one digit in all.
/// Fractional digits beyond the seventh are dropped.
pub open spec fn parse_fixed(s: Seq<u8>) -> Option<int> {
    let (neg, ip, fp) = fixed_parts(s);
    if all_digits(ip) && all_digits(fp) && ip.len() + fp.len() > 0 {
        let m = digits_value(ip) * FIXED_ONE + frac_value(fp);
        Some(if neg { -m } else { m })
    } else {
        None
    }
}

pub open spec fn fits_i64(v: int) -> bool {
    i64::MIN <= v <= i64::MAX
}

/// The fixed-point value of `s` when it is one and fits in an `i64`.
pub open spec fn parse_fixed_i64(s: Seq<u8>) -> Option<i64> {
    match parse_fixed(s) {
        Some(v) => if fits_i64(v) {
            Some(v as i64)
        } else {
            None
        },
        None => None,
    }
}

proof fn lemma_pow10_pos(k: nat)
    ensures
        pow10(k) >= 1,
    decreases k,
{
    if k > 0 {
        lemma_pow10_pos((k - 1) as nat);
    }
}

proof fn lemma_nat_text(n: nat)
    ensures
        all_digits(nat_text(n)),
        nat_text(n).len() > 0,
        digits_value(nat_text(n)) == n,
    decreases n,
{
    let t = nat_text(n);
    if n >= 10 {
        lemma_nat_text(n / 10);
        assert(t.drop_last() =~= nat_text(n / 10));
        assert(t.last() == 48 + n % 10);
        vstd::arithmetic::div_mod::lemma_fundamental_div_mod(n as int, 10);
        assert(digits_value(t) == digits_value(t.drop_last()) * 10 + (t.last() - 48));
    } else {
        assert(t.drop_last() =~= Seq::<u8>::empty());
        assert(t.last() == 48 + n);
        assert(digits_value(t) == digits_value(t.drop_last()) * 10 + (t.last() - 48));
    }
}

proof fn lemma_padded_text(f: nat, k: nat)
    ensures
        all_digits(padded_text(f, k)),
        padded_text(f, k).len() == k,
        digits_value(padded_text(f, k)) == f % pow10(k),
    decreases k,
{
    if k > 0 {
        lemma_padded_text(f / 10, (k - 1) as nat);
        let t = padded_text(f, k);
        assert(t.drop_last() =~= padded_text(f / 10, (k - 1) as nat));
        lemma_pow10_pos((k - 1) as nat);
        let p = pow10((k - 1) as nat);
        assert((f / 10) % p * 10 + f % 10 == f % (10 * p)) by {
            vstd::arithmetic::div_mod::lemma_breakdown(f as int, 10, p as int);
        }
        assert(t.last() == 48 + f % 10);
        assert(digits_value(t) == digits_value(t.drop_last()) * 10 + (t.last() - 48));
    } else {
        assert(pow10(0) == 1);
    }
}

#[verifier::spinoff_prover]
proof fn lemma_frac_text(f: nat, k: nat)
    requires
        0 < f < pow10(k),
    ensures
        all_digits(frac_text(f, k)),
        0 < frac_text(f, k).len() <= k,
        digits_value(frac_text(f, k)) * pow10((k - frac_text(f, k).len()) as nat) == f,
    decreases k,
{
    if k > 0 && f % 10 == 0 {
        let p = pow10((k - 1) as nat);
        assert(0 < f / 10 < p) by {
            assert(f < 10 * p);
            vstd::arithmetic::div_mod::lemma_fundamental_div_mod(f as int, 10);
        }
        lemma_frac_text(f / 10, (k - 1) as nat);
        let t = frac_text(f / 10, (k - 1) as nat);
        let e = (k - 1 - t.len()) as nat;
        assert((k - t.len()) as nat == e + 1);
        assert(pow10(e + 1) == 10 * pow10(e));
        let dv = digits_value(t);
        assert(frac_text(f, k) == t);
        assert(dv * (10 * pow10(e)) == (dv * pow10(e)) * 10) by (nonlinear_arith);
        vstd::arithmetic::div_mod::lemma_fundamental_div_mod(f as int, 10);
        assert(dv * pow10(e) == f / 10);
        assert(f == (f / 10) * 10);
        assert(dv * pow10(e + 1) == f);
        assert(dv * pow10((k - frac_text(f, k).len()) as nat) == f);
        assert(digits_value(frac_text(f, k)) * pow10((k - frac_text(f, k).len()) as nat) == f);
    } else {
        if k == 0 {
            assert(pow10(0) == 1);
            assert(false);
        }
        lemma_padded_text(f, k);
        vstd::arithmetic::div_mod::lemma_small_mod(f, pow10(k));
        assert(frac_text(f, k) == padded_text(f, k));
        assert(pow10(0) == 1);
        assert((k - frac_text(f, k).len()) as nat == 0);
        assert(digits_value(frac_text(f, k)) == f);
        assert(digits_value(frac_text(f, k)) * pow10((k - frac_text(f, k).len()) as nat) == f);
    }
}

proof fn lemma_digits_prefix(s: Seq<u8>, j: int)
    requires
        all_digits(s),
        0 <= j <= s.len(),
    ensures
        0 <= digits_value(s.subrange(0, j)) <= digits_value(s),
    decreases s.len() - j,
{
    if j < s.len() {
        lemma_digits_prefix(s, j + 1);
        let p = s.subrange(0, j + 1);
        assert(p.drop_last() =~= s.subrange(0, j));
        assert(is_digit(s[j]));
    } else {
        assert(s.subrange(0, j) =~= s);
        lemma_digits_nonneg(s);
    }
}

proof fn lemma_digits_nonneg(s: Seq<u8>)
    requires
        all_digits(s),
    ensures
        digits_value(s) >= 0,
    decreases s.len(),
{
    if s.len() > 0 {
        assert(is_digit(s[s.len() - 1]));
        lemma_digits_nonneg(s.drop_last());
    }
}

proof fn lemma_digits_push(s: Seq<u8>, i: int)
    requires
        0 <= i < s.len(),
    ensures
        digits_value(s.subrange(0, i + 1)) == digits_value(s.subrange(0, i)) * 10 + (s[i] - 48),
{
    assert(s.subrange(0, i + 1).drop_last() =~= s.subrange(0, i));
}

/// Appends the shortest decimal text of `n`.
pub fn push_decimal(v: &mut Vec<u8>, n: u64)
    ensures
        final(v)@ == old(v)@ + nat_text(n as nat),
    decreases n,
{
    if n >= 10 {
        push_decimal(v, n / 10);
    }
    v.push((48 + n % 10) as u8);
    proof {
        if n >= 10 {
            assert(final(v)@ =~= old(v)@ + nat_text(n as nat));
        }
    }
}

fn push_padded(v: &mut Vec<u8>, f: u64, k: usize)
    ensures
        final(v)@ == old(v)@ + padded_text(f as nat, k as nat),
    decreases k,
{
    if k > 0 {
        push_padded(v, f / 10, k - 1);
        v.push((48 + f % 10) as u8);
        assert(final(v)@ =~= old(v)@ + padded_text(f as nat, k as nat));
    } else {
        assert(final(v)@ =~= old(v)@ + padded_text(f as nat, k as nat));
    }
}

/// Appends the text of the fixed-point value `x` (see `fixed_text`).
pub fn push_fixed(v: &mut Vec<u8>, x: i64)
    ensures
        final(v)@ == old(v)@ + fixed_text(x as int),
{
    let ghost v0 = v@;
    let a: u64 = if x < 0 {
        (0i128 - x as i128) as u64
    } else {
        x as u64
    };
    if x < 0 {
        v.push(45u8);
    }
    let ghost vs = v@;
    push_decimal(v, a / FIXED_ONE);
    let fp = a % FIXED_ONE;
    if fp != 0 {
        v.push(46u8);
        let mut f = fp;
        let mut k: usize = SCALE_DIGITS;
        while k > 0 && f % 10 == 0
            invariant
                k <= 7,
                frac_text(f as nat, k as nat) == frac_text(fp as nat, 7),
            decreases k,
        {
            f = f / 10;
            k = k - 1;
        }
        push_padded(v, f, k);
        proof {
            assert(frac_text(f as nat, k as nat) == padded_text(f as nat, k as nat));
        }
    }
    proof {
        let sign: Seq<u8> = if x < 0 { seq![45u8] } else { Seq::empty() };
        assert(vs =~= v0 + sign);
        assert(final(v)@ =~= old(v)@ + fixed_text(x as int));
    }
}

/// Largest integer part that a fixed-point value in an `i64` can have.
const INT_PART_MAX: u64 = 922_337_203_685;

/// Reads the digits `s[a..b]` as an integer no larger than `INT_PART_MAX`.
fn read_int_part(s: &[u8], a: usize, b: usize) -> (r: Option<u64>)
    requires
        a <= b <= s@.len(),
    ensures
        match r {
            Some(v) => all_digits(s@.subrange(a as int, b as int)) && v as int == digits_value(
                s@.subrange(a as int, b as int),
            ) && v <= INT_PART_MAX,
            None => !all_digits(s@.subrange(a as int, b as int)) || digits_value(
                s@.subrange(a as int, b as int),
            ) > INT_PART_MAX,
        },
{
    let ghost ip = s@.subrange(a as int, b as int);
    let mut v: u64 = 0;
    let mut i: usize = a;
    while i < b
        invariant
            a <= i <= b <= s@.len(),
            ip == s@.subrange(a as int, b as int),
            all_digits(s@.subrange(a as int, i as int)),
            v as int == digits_value(s@.subrange(a as int, i as int)),
            v <= INT_PART_MAX,
        decreases b - i,
    {
        let c = s[i];
        proof {
            assert(ip[i - a] == c);
        }
        if c < 48 || c > 57 {
            return None;
        }
        proof {
            lemma_digits_push(ip, i - a);
            assert(ip.subrange(0, i - a) =~= s@.subrange(a as int, i as int));
            assert(ip.subrange(0, i - a + 1) =~= s@.subrange(a as int, i + 1));
        }
        let nv: u64 = v * 10 + (c - 48) as u64;
        if nv > INT_PART_MAX {
            proof {
                if all_digits(ip) {
                    lemma_digits_prefix(ip, i - a + 1);
                }
            }
            return None;
        }
        v = nv;
        i = i + 1;
    }
    Some(v)
}

/// The value of the fractional digits `fp` in units of `10^-7`: the first seven
/// digits count, the rest are dropped.
pub open spec fn frac_value(fp: Seq<u8>) -> int {
    let k: nat = if fp.len() < 7 { fp.len() } else { 7 };
    digits_value(fp.subrange(0, k as int)) * pow10((7 - k) as nat)
}

/// Reads the digits `s[a..b]` as a fraction in units of `10^-7`.
fn read_frac_part(s: &[u8], a: usize, b: usize) -> (r: Option<u64>)
    requires
        a <= b <= s@.len(),
    ensures
        match r {
            Some(v) => all_digits(s@.subrange(a as int, b as int)) && v as int == frac_value(
                s@.subrange(a as int, b as int),
            ) && v < FIXED_ONE,
            None => !all_digits(s@.subrange(a as int, b as int)),
        },
{
    let ghost fp = s@.subrange(a as int, b as int);
    let mut v: u64 = 0;
    let mut used: usize = 0;
    let mut j: usize = a;
    proof {
        lemma_pow10_7();
    }
    while j < b
        invariant
            a <= j <= b <= s@.len(),
            fp == s@.subrange(a as int, b as int),
            used <= 7,
            used == (if j - a < 7 { j - a } else { 7 }),
            all_digits(s@.subrange(a as int, j as int)),
            v as int == digits_value(fp.subrange(0, used as int)),
            v < pow10(used as nat),
            pow10(6) == 1_000_000,
        decreases b - j,
    {
        let c = s[j];
        proof {
            assert(fp[j - a] == c);
        }
        if c < 48 || c > 57 {
            return None;
        }
        if used < 7 {
            proof {
                lemma_digits_push(fp, used as int);
                assert(pow10(used as nat + 1) == 10 * pow10(used as nat));
                lemma_pow10_mono(used as nat, 6);
            }
            v = v * 10 + (c - 48) as u64;
            used = used + 1;
        }
        j = j + 1;
        assert(s@.subrange(a as int, j as int) =~= s@.subrange(a as int, j - 1).push(c));
    }
    let mut scale: u64 = 1;
    let mut u: usize = used;
    while u < 7
        invariant
            used <= u <= 7,
            scale as nat == pow10((u - used) as nat),
            v * scale < pow10(u as nat),
            pow10(7) == 10_000_000,
        decreases 7 - u,
    {
        proof {
            assert(pow10((u + 1 - used) as nat) == 10 * pow10((u - used) as nat));
            assert(pow10((u + 1) as nat) == 10 * pow10(u as nat));
            lemma_pow10_mono((u + 1 - used) as nat, 7);
            assert(v * (scale * 10) == (v * scale) * 10) by (nonlinear_arith);
        }
        scale = scale * 10;
        u = u + 1;
    }
    Some(v * scale)
}

/// Where the pieces of `fixed_parts` lie in `s`: the sign, the start and end of
/// the integer digits, and the start of the fractional digits.
fn split_fixed(s: &[u8]) -> (r: (bool, usize, usize, usize))
    ensures
        r.1 <= r.2 <= r.3 <= s@.len(),
        fixed_parts(s@) == (r.0, s@.subrange(r.1 as int, r.2 as int), s@.subrange(
            r.3 as int,
            s@.len() as int,
        )),
{
    let n = s.len();
    let neg = n > 0 && s[0] == 45u8;
    let signed = n > 0 && (s[0] == 45u8 || s[0] == 43u8);
    let b: usize = if signed { 1 } else { 0 };
    let ghost body = if signed { s@.drop_first() } else { s@ };
    assert(body =~= s@.subrange(b as int, n as int));
    let dot: [u8; 1] = [46u8];
    let ghost dots = seq![46u8];
    assert(dot@ =~= dots);
    let found = find_bytes_from(s, &dot, b);
    proof {
        lemma_find_from(s@, dots, b as int);
    }
    let ip_end: usize = match found {
        Some(d) => d,
        None => n,
    };
    let fp_start: usize = match found {
        Some(d) => d + 1,
        None => n,
    };
    proof {
        lemma_find_from(body, dots, 0);
        match find_from(s@, dots, b as int) {
            Some(d) => {
                assert(occurs_at(body, dots, d - b)) by {
                    assert(body.subrange(d - b, d - b + 1) =~= s@.subrange(d, d + 1));
                }
                assert forall|j: int| 0 <= j < d - b implies !occurs_at(body, dots, j) by {
                    assert(body.subrange(j, j + 1) =~= s@.subrange(j + b, j + b + 1));
                    assert(!occurs_at(s@, dots, j + b));
                }
                lemma_find_from_is(body, dots, 0, d - b);
                assert(s@.subrange(b as int, ip_end as int) =~= body.subrange(0, d - b));
                assert(s@.subrange(fp_start as int, n as int) =~= body.subrange(
                    d - b + 1,
                    body.len() as int,
                ));
            },
            None => {
                match find_from(body, dots, 0) {
                    Some(e) => {
                        assert(s@.subrange(e + b, e + b + 1) =~= body.subrange(e, e + 1));
                        assert(occurs_at(s@, dots, e + b));
                    },
                    None => {},
                }
                assert(s@.subrange(b as int, ip_end as int) =~= body);
                assert(s@.subrange(fp_start as int, n as int) =~= Seq::<u8>::empty());
            },
        }
    }
    (neg, b, ip_end, fp_start)
}

/// Parses the decimal text `s` into a fixed-point value (see `parse_fixed`);
/// `None` when it is not one or does not fit in an `i64`.
pub fn parse_fixed_bytes(s: &[u8]) -> (r: Option<i64>)
    ensures
        r == parse_fixed_i64(s@),
{
    let n = s.len();
    let (neg, b, ip_end, fp_start) = split_fixed(s);
    let ghost ip = s@.subrange(b as int, ip_end as int);
    let ghost fp = s@.subrange(fp_start as int, n as int);
    if ip_end - b + (n - fp_start) == 0 {
        return None;
    }
    let fpv = match read_frac_part(s, fp_start, n) {
        Some(v) => v,
        None => {
            return None;
        },
    };
    let ipv = match read_int_part(s, b, ip_end) {
        Some(v) => v,
        None => {
            proof {
                if all_digits(ip) {
                    lemma_frac_nonneg(fp);
                    assert(digits_value(ip) * 10_000_000 >= 922_337_203_686 * 10_000_000)
                        by (nonlinear_arith)
                        requires
                            digits_value(ip) >= 922_337_203_686,
                    ;
                }
            }
            return None;
        },
    };
    let m: u64 = ipv * FIXED_ONE + fpv;
    if neg {
        if m > 9_223_372_036_854_775_808 {
            return None;
        }
        Some((0i128 - m as i128) as i64)
    } else {
        if m > 9_223_372_036_854_775_807 {
            return None;
        }
        Some(m as i64)
    }
}

proof fn lemma_frac_nonneg(fp: Seq<u8>)
    requires
        all_digits(fp),
    ensures
        frac_value(fp) >= 0,
{
    let k: nat = if fp.len() < 7 { fp.len() } else { 7 };
    let fs = fp.subrange(0, k as int);
    assert(all_digits(fs));
    lemma_digits_nonneg(fs);
    lemma_pow10_pos((7 - k) as nat);
    let dv = digits_value(fs);
    let p = pow10((7 - k) as nat);
    assert(dv * p >= 0) by (nonlinear_arith)
        requires
            dv >= 0,
            p >= 1,
    ;
}

proof fn lemma_pow10_mono(a: nat, b: nat)
    requires
        a <= b,
    ensures
        pow10(a) <= pow10(b),
    decreases b - a,
{
    if a < b {
        lemma_pow10_mono(a, (b - 1) as nat);
        lemma_pow10_pos((b - 1) as nat);
        assert(pow10(b) == 10 * pow10((b - 1) as nat));
    }
}

proof fn lemma_pow10_7()
    ensures
        pow10(6) == 1_000_000,
        pow10(7) == 10_000_000,
{
    reveal_with_fuel(pow10, 8);
}

/// Reading back the text of a fixed-point value gives the value.
pub proof fn lemma_fixed_round_trip(v: int)
    ensures
        parse_fixed(fixed_text(v)) == Some(v),
{
    let a: nat = (if v < 0 { -v } else { v }) as nat;
    let ipn: nat = a / FIXED_ONE as nat;
    let fpn: nat = a % FIXED_ONE as nat;
    let nt = nat_text(ipn);
    lemma_nat_text(ipn);
    lemma_pow10_7();
    vstd::arithmetic::div_mod::lemma_fundamental_div_mod(a as int, FIXED_ONE as int);
    let t = fixed_text(v);
    let sign: Seq<u8> = if v < 0 { seq![45u8] } else { Seq::empty() };
    let dots = seq![46u8];
    let rest: Seq<u8> = if fpn == 0 { nt } else { nt + dots + frac_text(fpn, 7) };
    assert(t =~= sign + rest);
    assert(is_digit(nt[0]));
    assert(rest[0] == nt[0]);
    let body = if t.len() > 0 && (t[0] == 45u8 || t[0] == 43u8) { t.drop_first() } else { t };
    assert(body =~= rest);
    assert forall|j: int| 0 <= j < nt.len() implies !occurs_at(rest, dots, j) by {
        assert(rest.subrange(j, j + 1)[0] == nt[j]);
        assert(is_digit(nt[j]));
    }
    if fpn == 0 {
        crate::byteseq::lemma_find_from_none(rest, dots, 0);
        assert(fixed_parts(t) == (v < 0, nt, Seq::<u8>::empty()));
        assert(frac_value(Seq::<u8>::empty()) == 0) by {
            assert(Seq::<u8>::empty().subrange(0, 0) =~= Seq::<u8>::empty());
            assert(digits_value(Seq::<u8>::empty()) == 0);
        }
    } else {
        let ft = frac_text(fpn, 7);
        lemma_frac_text(fpn, 7);
        assert(rest.subrange(nt.len() as int, nt.len() as int + 1) =~= dots);
        lemma_find_from_is(rest, dots, 0, nt.len() as int);
        assert(rest.subrange(0, nt.len() as int) =~= nt);
        assert(rest.subrange(nt.len() as int + 1, rest.len() as int) =~= ft);
        assert(fixed_parts(t) == (v < 0, nt, ft));
        assert(ft.subrange(0, ft.len() as int) =~= ft);
        assert(frac_value(ft) == fpn);
    }
}

/// The text of a fixed-point value is ASCII: a sign, digits and a point.
pub proof fn lemma_fixed_text_ascii(v: int)
    ensures
        forall|i: int| 0 <= i < fixed_text(v).len() ==> #[trigger] fixed_text(v)[i] < 128,
{
    let a: nat = (if v < 0 { -v } else { v }) as nat;
    let fpn: nat = a % FIXED_ONE as nat;
    lemma_nat_text(a / FIXED_ONE as nat);
    lemma_pow10_7();
    if fpn != 0 {
        lemma_frac_text(fpn, 7);
    }
}

/// The uppercase hexadecimal digit for `d < 16`.
pub open spec fn hex_digit(d: nat) -> u8 {
    if d < 10 {
        (48 + d) as u8
    } else {
        (55 + d) as u8
    }
}

/// `n` written with exactly `k` uppercase hexadecimal digits (leading zeros
/// kept).
pub open spec fn hex_text(n: nat, k: nat) -> Seq<u8>
    decreases k,
{
    if k == 0 {
        Seq::empty()
    } else {
        hex_text(n / 16, (k - 1) as nat).push(hex_digit(n % 16))
    }
}

fn push_hex(v: &mut Vec<u8>, n: u32, k: usize)
    ensures
        final(v)@ == old(v)@ + hex_text(n as nat, k as nat),
    decreases k,
{
    if k > 0 {
        push_hex(v, n / 16, k - 1);
        let d = n % 16;
        let c: u8 = if d < 10 {
            (48 + d) as u8
        } else {
            (55 + d) as u8
        };
        v.push(c);
        assert(final(v)@ =~= old(v)@ + hex_text(n as nat, k as nat));
    } else {
        assert(final(v)@ =~= old(v)@ + hex_text(n as nat, k as nat));
    }
}

/// Appends `n` as eight uppercase hexadecimal digits.
pub fn push_hex8(v: &mut Vec<u8>, n: u32)
    ensures
        final(v)@ == old(v)@ + hex_text(n as nat, 8),
{
    push_hex(v, n, 8);
}

/// Decimal and hexadecimal texts are ASCII.
pub proof fn lemma_number_texts_ascii(n: nat, k: nat)
    ensures
        forall|i: int| 0 <= i < nat_text(n).len() ==> #[trigger] nat_text(n)[i] < 128,
        forall|i: int| 0 <= i < hex_text(n, k).len() ==> #[trigger] hex_text(n, k)[i] < 128,
    decreases k,
{
    lemma_nat_text(n);
    if k > 0 {
        lemma_number_texts_ascii(n / 16, (k - 1) as nat);
        let h = hex_text(n, k);
        assert forall|i: int| 0 <= i < h.len() implies #[trigger] h[i] < 128 by {
            if i < h.len() - 1 {
                assert(h[i] == hex_text(n / 16, (k - 1) as nat)[i]);
            }
        }
    }
}

/// The text of a fixed-point value holds digits, a minus sign and a point
/// only.
pub proof fn lemma_fixed_text_bytes(v: int)
    ensures
        forall|i: int|
            0 <= i < fixed_text(v).len() ==> is_digit(#[trigger] fixed_text(v)[i]) || fixed_text(v)[i]
                == 45u8 || fixed_text(v)[i] == 46u8,
{
    let a: nat = (if v < 0 { -v } else { v }) as nat;
    let fpn: nat = a % FIXED_ONE as nat;
    lemma_nat_text(a / FIXED_ONE as nat);
    lemma_pow10_7();
    if fpn != 0 {
        lemma_frac_text(fpn, 7);
    }
}

} // verus!
