//! Numerals in floating-point syntax: an optional sign, digits with an optional
//! point (digits may stand on either side of it, but not on neither), and an
//! optional exponent `e`/`E` with an optional sign and digits. `-23.0`, `7`,
//! `-2.3e1`, `.5`, `-23.` are numerals; `inf`, `nan` and `1e` are not. Their
//! values are compared with ranges exactly, as fractions of integers.
use vstd::arithmetic::div_mod::{
    lemma_fundamental_div_mod_converse_div, lemma_fundamental_div_mod_converse_mod,
};
use vstd::prelude::*;

verus! {

pub open spec fn is_digit(c: char) -> bool {
    '0' <= c && c <= '9'
}

pub open spec fn has_sign(s: Seq<char>) -> bool {
    s.len() > 0 && (s[0] == '+' || s[0] == '-')
}

pub open spec fn is_negative(s: Seq<char>) -> bool {
    s.len() > 0 && s[0] == '-'
}

/// The text without its sign.
pub open spec fn magnitude(s: Seq<char>) -> Seq<char> {
    if has_sign(s) {
        s.drop_first()
    } else {
        s
    }
}

/// The end of the run of digits that starts at `i`.
pub open spec fn digit_run_end(s: Seq<char>, i: int) -> int
    decreases s.len() - i,
{
    if 0 <= i < s.len() && is_digit(s[i]) {
        digit_run_end(s, i + 1)
    } else {
        i
    }
}

pub open spec fn sign_len(s: Seq<char>) -> int {
    if has_sign(s) {
        1
    } else {
        0
    }
}

pub open spec fn int_end(s: Seq<char>) -> int {
    digit_run_end(s, sign_len(s))
}

pub open spec fn has_point(s: Seq<char>) -> bool {
    int_end(s) < s.len() && s[int_end(s)] == '.'
}

pub open spec fn frac_start(s: Seq<char>) -> int {
    if has_point(s) {
        int_end(s) + 1
    } else {
        int_end(s)
    }
}

pub open spec fn frac_end(s: Seq<char>) -> int {
    digit_run_end(s, frac_start(s))
}

/// The digits before and after the point, together.
pub open spec fn mantissa(s: Seq<char>) -> Seq<char> {
    s.subrange(sign_len(s), int_end(s)) + s.subrange(frac_start(s), frac_end(s))
}

pub open spec fn has_exponent(s: Seq<char>) -> bool {
    frac_end(s) < s.len() && (s[frac_end(s)] == 'e' || s[frac_end(s)] == 'E')
}

pub open spec fn exponent_signed(s: Seq<char>) -> bool {
    has_exponent(s) && frac_end(s) + 1 < s.len() && (s[frac_end(s) + 1] == '+' || s[frac_end(s)
        + 1] == '-')
}

pub open spec fn exponent_negative(s: Seq<char>) -> bool {
    exponent_signed(s) && s[frac_end(s) + 1] == '-'
}

pub open spec fn exp_start(s: Seq<char>) -> int {
    if exponent_signed(s) {
        frac_end(s) + 2
    } else {
        frac_end(s) + 1
    }
}

pub open spec fn exp_end(s: Seq<char>) -> int {
    digit_run_end(s, exp_start(s))
}

pub open spec fn is_decimal(s: Seq<char>) -> bool {
    &&& mantissa(s).len() > 0
    &&& if has_exponent(s) {
        exp_start(s) < exp_end(s) && exp_end(s) == s.len()
    } else {
        frac_end(s) == s.len()
    }
}

pub open spec fn digit_value(c: char) -> nat {
    (c as int - '0' as int) as nat
}

/// The natural number written by a run of digits.
pub open spec fn digits_value(s: Seq<char>) -> nat
    decreases s.len(),
{
    if s.len() == 0 {
        0
    } else {
        digits_value(s.drop_last()) * 10 + digit_value(s.last())
    }
}

pub open spec fn pow10(n: nat) -> nat
    decreases n,
{
    if n == 0 {
        1
    } else {
        10 * pow10((n - 1) as nat)
    }
}

/// The exponent written after `e`, zero when there is none.
pub open spec fn exponent(s: Seq<char>) -> int {
    if has_exponent(s) {
        let v = digits_value(s.subrange(exp_start(s), exp_end(s))) as int;
        if exponent_negative(s) {
            -v
        } else {
            v
        }
    } else {
        0
    }
}

/// The value of a numeral is `±digits_value(mantissa) * 10^scale`.
pub open spec fn scale(s: Seq<char>) -> int {
    exponent(s) - (frac_end(s) - frac_start(s))
}

pub open spec fn scaled_den(sc: int) -> nat {
    if sc >= 0 {
        1
    } else {
        pow10((-sc) as nat)
    }
}

pub open spec fn scaled_num(d: nat, sc: int) -> nat {
    if sc >= 0 {
        d * pow10(sc as nat)
    } else {
        d
    }
}

/// The value of a numeral is `numerator / denominator`, with the sign carried by
/// the numerator.
pub open spec fn denominator(s: Seq<char>) -> nat {
    scaled_den(scale(s))
}

pub open spec fn abs_numerator(s: Seq<char>) -> nat {
    scaled_num(digits_value(mantissa(s)), scale(s))
}

pub open spec fn numerator(s: Seq<char>) -> int {
    if is_negative(s) {
        -(abs_numerator(s) as int)
    } else {
        abs_numerator(s) as int
    }
}

/// `s` is a numeral whose value lies in `[lo, hi]`.
pub open spec fn decimal_within(s: Seq<char>, lo: int, hi: int) -> bool {
    is_decimal(s) && lo * denominator(s) <= numerator(s) <= hi * denominator(s)
}

/// Measured values reported by the analysis: a numeral, or an infinity (`-inf`
/// for silent input).
pub open spec fn is_measurement_text(s: Seq<char>) -> bool {
    is_decimal(s) || magnitude(s) == seq!['i', 'n', 'f']
}

/// The characters that numerals and measured values are written with.
pub open spec fn numeral_char(c: char) -> bool {
    is_digit(c) || c == '+' || c == '-' || c == '.' || c == 'e' || c == 'E' || c == 'i' || c
        == 'n' || c == 'f'
}

proof fn lemma_digit_run(s: Seq<char>, i: int)
    requires
        0 <= i <= s.len(),
    ensures
        i <= digit_run_end(s, i) <= s.len(),
        forall|j: int| i <= j < digit_run_end(s, i) ==> is_digit(#[trigger] s[j]),
        digit_run_end(s, i) < s.len() ==> !is_digit(s[digit_run_end(s, i)]),
    decreases s.len() - i,
{
    if i < s.len() && is_digit(s[i]) {
        lemma_digit_run(s, i + 1);
    }
}

pub proof fn lemma_numeral_chars(s: Seq<char>)
    requires
        is_measurement_text(s),
    ensures
        forall|i: int| 0 <= i < s.len() ==> numeral_char(#[trigger] s[i]),
{
    if is_decimal(s) {
        lemma_digit_run(s, sign_len(s));
        lemma_digit_run(s, frac_start(s));
        if has_exponent(s) {
            lemma_digit_run(s, exp_start(s));
        }
    } else {
        assert forall|i: int| 0 <= i < s.len() implies numeral_char(#[trigger] s[i]) by {
            if !(has_sign(s) && i == 0) {
                let j = if has_sign(s) { i - 1 } else { i };
                assert(magnitude(s)[j] == s[i]);
            }
        }
    }
}

proof fn lemma_pow10_positive(n: nat)
    ensures
        pow10(n) >= 1,
    decreases n,
{
    if n > 0 {
        lemma_pow10_positive((n - 1) as nat);
    }
}

proof fn lemma_digits_bound(s: Seq<char>)
    requires
        forall|i: int| 0 <= i < s.len() ==> is_digit(#[trigger] s[i]),
    ensures
        digits_value(s) < pow10(s.len()),
        digits_value(s) == 0 <==> (forall|i: int| 0 <= i < s.len() ==> #[trigger] s[i] == '0'),
    decreases s.len(),
{
    if s.len() > 0 {
        let p = s.drop_last();
        assert forall|i: int| 0 <= i < p.len() implies is_digit(#[trigger] p[i]) by {
            assert(p[i] == s[i]);
        }
        lemma_digits_bound(p);
        assert(s.last() == s[s.len() - 1]);
        if digits_value(s) == 0 {
            assert forall|i: int| 0 <= i < s.len() implies #[trigger] s[i] == '0' by {
                if i < s.len() - 1 {
                    assert(p[i] == s[i]);
                }
            }
        }
        if forall|i: int| 0 <= i < s.len() ==> #[trigger] s[i] == '0' {
            assert forall|i: int| 0 <= i < p.len() implies #[trigger] p[i] == '0' by {
                assert(p[i] == s[i]);
            }
        }
    }
}

/// With `0 <= f < den`, comparing `w * den + f` against a multiple of `den`
/// only needs `w` and whether `f` is zero.
proof fn lemma_scaled_compare(w: int, f: int, den: int, k: int)
    requires
        0 <= f < den,
    ensures
        (w * den + f <= k * den) <==> (w < k || (w == k && f == 0)),
        (k * den <= w * den + f) <==> (k <= w),
{
    if w < k {
        assert(w * den + den <= k * den) by (nonlinear_arith)
            requires
                w < k,
                den > 0,
        ;
    } else if w > k {
        assert(k * den + den <= w * den) by (nonlinear_arith)
            requires
                w > k,
                den > 0,
        ;
    }
}

proof fn lemma_pow10_mono(a: nat, b: nat)
    requires
        a <= b,
    ensures
        pow10(a) <= pow10(b),
    decreases b,
{
    if a < b {
        lemma_pow10_mono(a, (b - 1) as nat);
        lemma_pow10_positive((b - 1) as nat);
    }
}

proof fn lemma_digits_concat(a: Seq<char>, b: Seq<char>)
    ensures
        digits_value(a + b) == digits_value(a) * pow10(b.len()) + digits_value(b),
    decreases b.len(),
{
    if b.len() == 0 {
        assert(a + b =~= a);
        assert(pow10(0) == 1);
    } else {
        let b1 = b.drop_last();
        assert(pow10(b.len()) == 10 * pow10(b1.len()));
        assert((a + b).drop_last() =~= a + b1);
        assert((a + b).last() == b.last());
        lemma_digits_concat(a, b1);
        let x = digits_value(a) as int;
        let y = pow10(b1.len()) as int;
        let z = digits_value(b1) as int;
        let l = digit_value(b.last()) as int;
        assert((x * y + z) * 10 + l == x * (10 * y) + (z * 10 + l)) by (nonlinear_arith);
    }
}

pub open spec fn capped(n: nat) -> int {
    if n < WHOLE_CAP {
        n as int
    } else {
        WHOLE_CAP as int
    }
}

/// The largest whole part that the range checks below need to tell apart.
pub const WHOLE_CAP: u64 = 1000;

/// Multiplying by ten under the cap.
proof fn lemma_capped_times_ten(x: nat)
    ensures
        capped(x * 10) == if capped(x) >= 100 {
            WHOLE_CAP as int
        } else {
            capped(x) * 10
        },
{
}

/// Beyond three places the scaled value of a non-zero mantissa is past the cap.
proof fn lemma_capped_scaled(d: nat, k: nat, e: nat)
    requires
        k <= e,
        k == e || k == 3,
    ensures
        capped(d * pow10(e)) == capped(d * pow10(k)),
{
    if k < e && d > 0 {
        reveal_with_fuel(pow10, 4);
        lemma_pow10_mono(3, e);
        assert(d * pow10(e) >= pow10(e)) by (nonlinear_arith)
            requires
                d >= 1,
        ;
        assert(d * pow10(3) >= 1000) by (nonlinear_arith)
            requires
                d >= 1,
                pow10(3) == 1000,
        ;
    }
}

/// The end of the run of digits that starts at `i`.
fn digit_run(s: &Vec<char>, i: usize) -> (r: usize)
    requires
        i <= s@.len(),
    ensures
        r == digit_run_end(s@, i as int),
{
    let mut j = i;
    while j < s.len() && '0' <= s[j] && s[j] <= '9'
        invariant
            i <= j <= s@.len(),
            digit_run_end(s@, i as int) == digit_run_end(s@, j as int),
        decreases s@.len() - j,
    {
        j = j + 1;
    }
    j
}

/// Appends `s[from..to]` to `ds`.
fn append_range(ds: &mut Vec<char>, s: &Vec<char>, from: usize, to: usize)
    requires
        from <= to <= s@.len(),
    ensures
        final(ds)@ == old(ds)@ + s@.subrange(from as int, to as int),
{
    let ghost start = ds@;
    let mut j = from;
    while j < to
        invariant
            from <= j <= to <= s@.len(),
            ds@ == start + s@.subrange(from as int, j as int),
        decreases to - j,
    {
        ds.push(s[j]);
        j = j + 1;
        assert(ds@ =~= start + s@.subrange(from as int, j as int));
    }
}

/// The value of the digits `ds[from..to]`, capped at `WHOLE_CAP`.
fn capped_digits(ds: &Vec<char>, from: usize, to: usize) -> (r: u64)
    requires
        from <= to <= ds@.len(),
        forall|j: int| from <= j < to ==> is_digit(#[trigger] ds@[j]),
    ensures
        r as int == capped(digits_value(ds@.subrange(from as int, to as int))),
{
    let mut w: u64 = 0;
    let mut j = from;
    assert(ds@.subrange(from as int, from as int).len() == 0);
    while j < to
        invariant
            from <= j <= to <= ds@.len(),
            forall|k: int| from <= k < to ==> is_digit(#[trigger] ds@[k]),
            w as int == capped(digits_value(ds@.subrange(from as int, j as int))),
        decreases to - j,
    {
        proof {
            assert(ds@.subrange(from as int, j as int + 1).drop_last() =~= ds@.subrange(
                from as int,
                j as int,
            ));
        }
        let d = (ds[j] as u32 - '0' as u32) as u64;
        w = if w >= WHOLE_CAP / 10 {
            WHOLE_CAP
        } else {
            let v = w * 10 + d;
            if v > WHOLE_CAP {
                WHOLE_CAP
            } else {
                v
            }
        };
        j = j + 1;
    }
    w
}

/// Whether the digits `ds[from..to]` are all zero.
fn all_zero(ds: &Vec<char>, from: usize, to: usize) -> (r: bool)
    requires
        from <= to <= ds@.len(),
    ensures
        r == (forall|j: int| from <= j < to ==> #[trigger] ds@[j] == '0'),
{
    let mut j = from;
    while j < to
        invariant
            from <= j <= to <= ds@.len(),
            forall|k: int| from <= k < j ==> #[trigger] ds@[k] == '0',
        decreases to - j,
    {
        if ds[j] != '0' {
            return false;
        }
        j = j + 1;
    }
    true
}

pub open spec fn min_nat(a: nat, b: nat) -> nat {
    if a < b {
        a
    } else {
        b
    }
}

/// The value of the digits `s[from..to]`, capped at `cap`.
fn capped_value(s: &Vec<char>, from: usize, to: usize, cap: u128) -> (r: u128)
    requires
        from <= to <= s@.len(),
        forall|j: int| from <= j < to ==> is_digit(#[trigger] s@[j]),
        cap <= 0x3_0000_0000_0000_0000,
    ensures
        r as nat == min_nat(digits_value(s@.subrange(from as int, to as int)), cap as nat),
{
    let mut acc: u128 = 0;
    let mut j = from;
    assert(s@.subrange(from as int, from as int).len() == 0);
    while j < to
        invariant
            from <= j <= to <= s@.len(),
            forall|k: int| from <= k < to ==> is_digit(#[trigger] s@[k]),
            cap <= 0x3_0000_0000_0000_0000,
            acc as nat == min_nat(digits_value(s@.subrange(from as int, j as int)), cap as nat),
        decreases to - j,
    {
        proof {
            assert(s@.subrange(from as int, j as int + 1).drop_last() =~= s@.subrange(
                from as int,
                j as int,
            ));
        }
        let d = (s[j] as u32 - '0' as u32) as u128;
        acc = if acc >= cap {
            cap
        } else {
            let v = acc * 10 + d;
            if v > cap {
                cap
            } else {
                v
            }
        };
        j = j + 1;
    }
    acc
}

/// Reads the exponent that follows the digits ending at `fe`: its sign and its
/// value capped at `cap` (no exponent reads as a positive zero); `None` when the
/// text after `fe` is no exponent.
fn read_exponent(s: &Vec<char>, fe: usize, cap: u128) -> (r: Option<(bool, u128)>)
    requires
        fe == frac_end(s@),
        frac_start(s@) <= fe <= s@.len(),
        cap <= 0x3_0000_0000_0000_0000,
    ensures
        r is Some <==> if has_exponent(s@) {
            exp_start(s@) < exp_end(s@) && exp_end(s@) == s@.len()
        } else {
            frac_end(s@) == s@.len()
        },
        r matches Some((neg, ev)) ==> {
            &&& neg == exponent_negative(s@)
            &&& has_exponent(s@) ==> ev as nat == min_nat(
                digits_value(s@.subrange(exp_start(s@), exp_end(s@))),
                cap as nat,
            )
            &&& !has_exponent(s@) ==> ev == 0
        },
{
    let n = s.len();
    if fe == n {
        return Some((false, 0));
    }
    if s[fe] != 'e' && s[fe] != 'E' {
        return None;
    }
    let signed = fe + 1 < n && (s[fe + 1] == '+' || s[fe + 1] == '-');
    let neg = signed && s[fe + 1] == '-';
    let es = if signed {
        fe + 2
    } else {
        fe + 1
    };
    let ee = digit_run(s, es);
    proof {
        lemma_digit_run(s@, es as int);
    }
    if ee == es || ee != n {
        return None;
    }
    Some((neg, capped_value(s, es, ee, cap)))
}

/// Reads a numeral as its sign, the whole part of its absolute value (capped at
/// `WHOLE_CAP`) and whether that value is a whole number; `None` when `s` is no
/// numeral.
fn parse_number(s: &Vec<char>) -> (r: Option<(bool, u64, bool)>)
    ensures
        r is Some <==> is_decimal(s@),
        r matches Some((neg, whole, exact)) ==> {
            &&& neg == is_negative(s@)
            &&& whole as int == capped(abs_numerator(s@) / denominator(s@))
            &&& exact == (abs_numerator(s@) % denominator(s@) == 0)
        },
{
    let ghost t = s@;
    let n = s.len();
    let sl: usize = if n > 0 && (s[0] == '+' || s[0] == '-') {
        1
    } else {
        0
    };
    assert(sl == sign_len(t));
    let ie = digit_run(s, sl);
    proof {
        lemma_digit_run(t, sl as int);
    }
    let pt = ie < n && s[ie] == '.';
    let fs = if pt {
        ie + 1
    } else {
        ie
    };
    let fe = digit_run(s, fs);
    proof {
        lemma_digit_run(t, fs as int);
    }
    let mut ds: Vec<char> = Vec::new();
    append_range(&mut ds, s, sl, ie);
    append_range(&mut ds, s, fs, fe);
    assert(ds@ =~= mantissa(t));
    let nd = ds.len();
    if nd == 0 {
        return None;
    }
    proof {
        assert forall|j: int| 0 <= j < nd implies is_digit(#[trigger] ds@[j]) by {
            if j < ie - sl {
                assert(ds@[j] == t[sl + j]);
            } else {
                assert(ds@[j] == t[fs + j - (ie - sl)]);
            }
        }
    }
    let cap: u128 = nd as u128 + 4;
    let (neg_exp, ev) = match read_exponent(s, fe, cap) {
        Some(x) => x,
        None => {
            return None;
        },
    };
    let fl = fe - fs;
    let e: i128 = if neg_exp {
        -(ev as i128)
    } else {
        ev as i128
    } - fl as i128;
    let neg = n > 0 && s[0] == '-';
    let (whole, exact) = scaled_parts(&ds, e);
    proof {
        let d = digits_value(ds@);
        let sc = scale(t);
        lemma_digits_bound(ds@);
        if ev < cap {
            assert(e == sc);
        } else if neg_exp {
            assert(sc <= e);
            lemma_saturated_scale(d, nd as nat, e as int, sc);
        } else {
            assert(sc >= e);
            lemma_saturated_scale(d, nd as nat, e as int, sc);
        }
    }
    Some((neg, whole, exact))
}

/// Past three places up, or past every digit down, the scale no longer changes
/// the capped whole part or whether the value is whole.
proof fn lemma_saturated_scale(d: nat, nd: nat, e1: int, e2: int)
    requires
        d < pow10(nd),
        (e1 >= 3 && e2 >= 3) || (nd + e1 <= 0 && nd + e2 <= 0),
    ensures
        capped(scaled_num(d, e1) / scaled_den(e1)) == capped(scaled_num(d, e2) / scaled_den(e2)),
        (scaled_num(d, e1) % scaled_den(e1) == 0) == (scaled_num(d, e2) % scaled_den(e2) == 0),
{
    if e1 >= 3 {
        lemma_capped_scaled(d, 3, e1 as nat);
        lemma_capped_scaled(d, 3, e2 as nat);
        assert(scaled_num(d, e1) / 1 == scaled_num(d, e1));
        assert(scaled_num(d, e2) / 1 == scaled_num(d, e2));
        assert(scaled_num(d, e1) % 1 == 0);
        assert(scaled_num(d, e2) % 1 == 0);
    } else {
        lemma_pow10_mono(nd, (-e1) as nat);
        lemma_pow10_mono(nd, (-e2) as nat);
        lemma_fundamental_div_mod_converse_div(d as int, scaled_den(e1) as int, 0, d as int);
        lemma_fundamental_div_mod_converse_mod(d as int, scaled_den(e1) as int, 0, d as int);
        lemma_fundamental_div_mod_converse_div(d as int, scaled_den(e2) as int, 0, d as int);
        lemma_fundamental_div_mod_converse_mod(d as int, scaled_den(e2) as int, 0, d as int);
    }
}

/// The capped whole part of `digits_value(ds) * 10^e`, and whether that value is
/// a whole number.
fn scaled_parts(ds: &Vec<char>, e: i128) -> (r: (u64, bool))
    requires
        forall|j: int| 0 <= j < ds@.len() ==> is_digit(#[trigger] ds@[j]),
        ds@.len() < 0x1_0000_0000_0000_0000,
        -0x4_0000_0000_0000_0000 < e < 0x4_0000_0000_0000_0000,
    ensures
        r.0 as int == capped(scaled_num(digits_value(ds@), e as int) / scaled_den(e as int)),
        r.1 == (scaled_num(digits_value(ds@), e as int) % scaled_den(e as int) == 0),
{
    let nd = ds.len();
    let ghost d = digits_value(ds@);
    proof {
        lemma_digits_bound(ds@);
    }
    if e >= 0 {
        let k: usize = if e >= 3 {
            3
        } else {
            e as usize
        };
        let mut w = capped_digits(ds, 0, nd);
        assert(ds@.subrange(0, nd as int) =~= ds@);
        assert(pow10(0) == 1);
        assert(d * pow10(0) == d);
        let mut j: usize = 0;
        while j < k
            invariant
                j <= k <= 3,
                w as int == capped(d * pow10(j as nat)),
            decreases k - j,
        {
            proof {
                lemma_capped_times_ten(d * pow10(j as nat));
                assert(pow10((j + 1) as nat) == 10 * pow10(j as nat));
                assert(d * pow10(j as nat) * 10 == d * pow10((j + 1) as nat)) by (nonlinear_arith)
                    requires
                        pow10((j + 1) as nat) == 10 * pow10(j as nat),
                ;
            }
            w = if w >= WHOLE_CAP / 10 {
                WHOLE_CAP
            } else {
                w * 10
            };
            j = j + 1;
        }
        proof {
            lemma_capped_scaled(d, k as nat, e as nat);
            assert(scaled_num(d, e as int) / 1 == scaled_num(d, e as int));
            assert(scaled_num(d, e as int) % 1 == 0);
        }
        (w, true)
    } else {
        let q: i128 = nd as i128 + e;
        let ghost den = pow10((-e) as nat);
        if q <= 0 {
            let exact = all_zero(ds, 0, nd);
            proof {
                lemma_pow10_mono(nd as nat, (-e) as nat);
                lemma_fundamental_div_mod_converse_div(d as int, den as int, 0, d as int);
                lemma_fundamental_div_mod_converse_mod(d as int, den as int, 0, d as int);
            }
            (0, exact)
        } else {
            let qu = q as usize;
            let w = capped_digits(ds, 0, qu);
            let exact = all_zero(ds, qu, nd);
            proof {
                let a = ds@.subrange(0, qu as int);
                let b = ds@.subrange(qu as int, nd as int);
                assert(ds@ =~= a + b);
                assert(b.len() == -e);
                lemma_digits_concat(a, b);
                assert forall|j: int| 0 <= j < b.len() implies is_digit(#[trigger] b[j]) by {
                    assert(b[j] == ds@[qu + j]);
                }
                lemma_digits_bound(b);
                assert(exact == (forall|j: int| 0 <= j < b.len() ==> #[trigger] b[j] == '0')) by {
                    if exact {
                        assert forall|j: int| 0 <= j < b.len() implies #[trigger] b[j] == '0' by {
                            assert(b[j] == ds@[qu + j]);
                        }
                    } else {
                        let j = choose|j: int| qu <= j < nd && #[trigger] ds@[j] != '0';
                        assert(b[j - qu] == ds@[j]);
                    }
                }
                lemma_fundamental_div_mod_converse_div(
                    d as int,
                    den as int,
                    digits_value(a) as int,
                    digits_value(b) as int,
                );
                lemma_fundamental_div_mod_converse_mod(
                    d as int,
                    den as int,
                    digits_value(a) as int,
                    digits_value(b) as int,
                );
            }
            (w, exact)
        }
    }
}

/// Checks that `s` is a numeral and that its value lies in `[lo, hi]`.
pub(crate) fn check_decimal_within(s: &Vec<char>, lo: i64, hi: i64) -> (r: bool)
    requires
        -1000 < lo <= hi < 1000,
    ensures
        r == decimal_within(s@, lo as int, hi as int),
{
    match parse_number(s) {
        None => false,
        Some((neg, whole, exact)) => {
            proof {
                let den = denominator(s@) as int;
                if scale(s@) < 0 {
                    lemma_pow10_positive((-scale(s@)) as nat);
                }
                let w = abs_numerator(s@) as int / den;
                let f = abs_numerator(s@) as int % den;
                vstd::arithmetic::div_mod::lemma_fundamental_div_mod(abs_numerator(s@) as int, den);
                assert(abs_numerator(s@) as int == w * den + f) by (nonlinear_arith)
                    requires
                        abs_numerator(s@) as int == den * w + f,
                ;
                lemma_scaled_compare(w, f, den, lo as int);
                lemma_scaled_compare(w, f, den, hi as int);
                lemma_scaled_compare(w, f, den, -lo as int);
                lemma_scaled_compare(w, f, den, -hi as int);
                assert(-(w * den + f) <= hi * den <==> (-hi) * den <= w * den + f) by (nonlinear_arith);
                assert(lo * den <= -(w * den + f) <==> w * den + f <= (-lo) * den) by (nonlinear_arith);
            }
            let w = whole as i64;
            if !neg {
                lo <= w && (w < hi || (w == hi && exact))
            } else {
                -hi <= w && (w < -lo || (w == -lo && exact))
            }
        },
    }
}

/// Checks that `s` is the text of a measured value.
pub fn check_measurement_text(s: &Vec<char>) -> (r: bool)
    ensures
        r == is_measurement_text(s@),
{
    let n = s.len();
    let start: usize = if n > 0 && (s[0] == '+' || s[0] == '-') {
        1
    } else {
        0
    };
    let is_inf = n == start + 3 && s[start] == 'i' && s[start + 1] == 'n' && s[start + 2] == 'f';
    proof {
        let m = magnitude(s@);
        assert(m =~= s@.skip(start as int));
        if is_inf {
            assert(m =~= seq!['i', 'n', 'f']);
        } else if m.len() == 3 {
            assert(m[0] == s@[start as int] && m[1] == s@[start + 1] && m[2] == s@[start + 2]);
        }
    }
    is_inf || parse_number(s).is_some()
}

} // verus!
