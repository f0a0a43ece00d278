//! Best-effort numeric parsing of the trajectory text format: whitespace
//! separated decimal tokens, an optional sign, fraction and exponent, read
//! into fixed-point coordinates. A token that is not a number counts as
//! zero; a value too large to carry saturates at [`COORD_LIMIT`].

use vstd::arithmetic::div_mod::lemma_basic_div_specific_divisor;
use vstd::prelude::*;

use crate::fixed::COORD_LIMIT;

verus! {

/// ASCII whitespace, the token separators of the format.
pub open spec fn is_space(b: u8) -> bool {
    b == 32 || b == 9 || b == 10 || b == 11 || b == 12 || b == 13
}

pub open spec fn is_digit(b: u8) -> bool {
    48 <= b <= 57
}

/// The first position at or after `i` that does not hold a digit.
pub open spec fn scan_digits(t: Seq<u8>, i: int) -> int
    decreases t.len() - i,
{
    if i < 0 || i >= t.len() || !is_digit(t[i]) {
        i
    } else {
        scan_digits(t, i + 1)
    }
}

pub open spec fn pow10(n: nat) -> int
    decreases n,
{
    if n == 0 {
        1
    } else {
        10 * pow10((n - 1) as nat)
    }
}

/// The number written by the digits `t[i .. j)`, most significant first.
pub open spec fn digits_value(t: Seq<u8>, i: int, j: int) -> int
    decreases j - i,
{
    if i >= j {
        0
    } else {
        digits_value(t, i, j - 1) * 10 + (t[j - 1] - 48)
    }
}

/// How many leading bytes the sign takes: one for `+` or `-`, else none.
pub open spec fn sign_len(t: Seq<u8>) -> int {
    if t.len() > 0 && (t[0] == 43 || t[0] == 45) {
        1
    } else {
        0
    }
}

pub open spec fn sign_of(t: Seq<u8>) -> int {
    if t.len() > 0 && t[0] == 45 {
        -1
    } else {
        1
    }
}

/// End of the integer digit run.
pub open spec fn int_end(t: Seq<u8>) -> int {
    scan_digits(t, sign_len(t))
}

/// Start of the fraction digits: right after a decimal point, if present.
pub open spec fn frac_begin(t: Seq<u8>) -> int {
    if int_end(t) < t.len() && t[int_end(t)] == 46 {
        int_end(t) + 1
    } else {
        int_end(t)
    }
}

pub open spec fn frac_end(t: Seq<u8>) -> int {
    scan_digits(t, frac_begin(t))
}

pub open spec fn frac_len(t: Seq<u8>) -> int {
    frac_end(t) - frac_begin(t)
}

/// How many mantissa digits the token has, integer and fraction together.
pub open spec fn mantissa_digits(t: Seq<u8>) -> int {
    (int_end(t) - sign_len(t)) + frac_len(t)
}

/// The mantissa read as one integer: the digits with the point removed.
pub open spec fn mantissa_val(t: Seq<u8>) -> int {
    digits_value(t, sign_len(t), int_end(t)) * pow10(frac_len(t) as nat) + digits_value(
        t,
        frac_begin(t),
        frac_end(t),
    )
}

/// Length of the exponent's own sign, when an exponent mark is present.
pub open spec fn exp_sign_len(t: Seq<u8>) -> int {
    if frac_end(t) + 1 < t.len() && (t[frac_end(t) + 1] == 43 || t[frac_end(t) + 1] == 45) {
        1
    } else {
        0
    }
}

pub open spec fn exp_digits_start(t: Seq<u8>) -> int {
    frac_end(t) + 1 + exp_sign_len(t)
}

/// A well-formed exponent part: an `e` or `E` mark, an optional sign, then
/// digits running to the end of the token.
pub open spec fn exp_ok(t: Seq<u8>) -> bool {
    &&& frac_end(t) < t.len()
    &&& (t[frac_end(t)] == 101 || t[frac_end(t)] == 69)
    &&& exp_digits_start(t) < t.len()
    &&& scan_digits(t, exp_digits_start(t)) == t.len()
}

pub open spec fn exp_val(t: Seq<u8>) -> int {
    if t[frac_end(t) + 1] == 45 {
        -digits_value(t, exp_digits_start(t), t.len() as int)
    } else {
        digits_value(t, exp_digits_start(t), t.len() as int)
    }
}

/// How many digit-widths to the number's true scale, fixed point included:
/// positive means multiply, negative means divide.
pub open spec fn scale_pow(t: Seq<u8>) -> int {
    (if exp_ok(t) {
        exp_val(t)
    } else {
        0
    }) + 6 - frac_len(t)
}

/// A token this parser reads as a number: sign, at least one and at most 38
/// mantissa digits around an optional point, and an optional exponent; the
/// whole token consumed.
pub open spec fn well_formed_number(t: Seq<u8>) -> bool {
    &&& 1 <= mantissa_digits(t) <= 38
    &&& (frac_end(t) == t.len() || exp_ok(t))
}

pub open spec fn sat_mag(m: int) -> int {
    if m > COORD_LIMIT as int {
        COORD_LIMIT as int
    } else {
        m
    }
}

pub open spec fn magnitude_val(t: Seq<u8>) -> int {
    let m = mantissa_val(t);
    let p = scale_pow(t);
    if p >= 0 {
        m * pow10(p as nat)
    } else {
        m / pow10((-p) as nat)
    }
}

/// What a token is worth: its fixed-point value, truncated toward zero at
/// the sixth decimal, saturated at [`COORD_LIMIT`]; zero when the token is
/// not a well-formed number.
pub open spec fn token_value(t: Seq<u8>) -> int {
    if well_formed_number(t) {
        sign_of(t) * sat_mag(magnitude_val(t))
    } else {
        0
    }
}

pub proof fn lemma_pow10_pos(n: nat)
    ensures
        pow10(n) >= 1,
    decreases n,
{
    if n > 0 {
        lemma_pow10_pos((n - 1) as nat);
    }
}

pub proof fn lemma_pow10_mono(a: nat, b: nat)
    requires
        a <= b,
    ensures
        pow10(a) <= pow10(b),
    decreases b,
{
    lemma_pow10_pos(a);
    if a < b {
        lemma_pow10_mono(a, (b - 1) as nat);
        lemma_pow10_pos((b - 1) as nat);
    }
}

pub proof fn lemma_pow10_vals()
    ensures
        pow10(6) == 1_000_000,
        pow10(18) == 1_000_000_000_000_000_000,
        pow10(19) == 10_000_000_000_000_000_000,
        pow10(38) == 100_000_000_000_000_000_000_000_000_000_000_000_000,
{
    reveal_with_fuel(pow10, 40);
}

pub proof fn lemma_digits_value_bounds(t: Seq<u8>, i: int, j: int)
    requires
        forall|k: int| i <= k < j ==> is_digit(#[trigger] t[k]),
    ensures
        0 <= digits_value(t, i, j),
        j > i ==> digits_value(t, i, j) < pow10((j - i) as nat),
    decreases j - i,
{
    if i < j {
        lemma_digits_value_bounds(t, i, j - 1);
        assert(is_digit(t[j - 1]));
        assert(pow10((j - i) as nat) == 10 * pow10((j - i - 1) as nat));
        if j - 1 == i {
            assert(digits_value(t, i, j - 1) == 0);
            assert(pow10(0) == 1);
        } else {
            assert(digits_value(t, i, j) < pow10((j - i) as nat)) by (nonlinear_arith)
                requires
                    digits_value(t, i, j) == digits_value(t, i, j - 1) * 10 + (t[j - 1] - 48),
                    0 <= t[j - 1] - 48 <= 9,
                    digits_value(t, i, j - 1) < pow10((j - i - 1) as nat),
                    digits_value(t, i, j - 1) >= 0,
                    pow10((j - i) as nat) == 10 * pow10((j - i - 1) as nat),
            ;
        }
    }
}


/// The position scans never run backwards or past the end.
pub proof fn lemma_scan_digits_range(t: Seq<u8>, i: int)
    requires
        0 <= i <= t.len(),
    ensures
        i <= scan_digits(t, i) <= t.len(),
        forall|k: int| i <= k < scan_digits(t, i) ==> is_digit(#[trigger] t[k]),
    decreases t.len() - i,
{
    if i < t.len() && is_digit(t[i]) {
        lemma_scan_digits_range(t, i + 1);
    }
}


/// A nonzero mantissa pushed past the carrying range by its scale: the
/// magnitude saturates.
proof fn lemma_magnitude_saturates(t: Seq<u8>, m: int, ps: int)
    requires
        m == mantissa_val(t),
        m >= 1,
        ps == scale_pow(t),
        ps >= 0,
        m > COORD_LIMIT as int || ps > 18,
    ensures
        magnitude_val(t) > COORD_LIMIT as int,
{
    lemma_pow10_pos(ps as nat);
    if m > COORD_LIMIT as int {
        assert(m * pow10(ps as nat) >= m) by (nonlinear_arith)
            requires
                pow10(ps as nat) >= 1,
                m >= 1,
        ;
    } else {
        lemma_pow10_mono(19, ps as nat);
        lemma_pow10_vals();
        assert(m * pow10(ps as nat) >= pow10(ps as nat)) by (nonlinear_arith)
            requires
                pow10(ps as nat) >= 1,
                m >= 1,
        ;
    }
}

/// A mantissa divided by at least 38 digit-widths: nothing is left.
proof fn lemma_div_small_mag(t: Seq<u8>, m: int, ps: int)
    requires
        m == mantissa_val(t),
        0 <= m,
        m < pow10(38),
        ps == scale_pow(t),
        ps <= -38,
    ensures
        magnitude_val(t) == 0,
{
    let q = (-ps) as nat;
    lemma_pow10_mono(38, q);
    lemma_pow10_pos(q);
    lemma_basic_div_specific_divisor(pow10(q));
}

fn pow10_val(p: u64) -> (r: u128)
    requires
        p <= 38,
    ensures
        r as int == pow10(p as nat),
{
    proof {
        lemma_pow10_vals();
    }
    let mut r: u128 = 1;
    let mut k: u64 = 0;
    while k < p
        invariant
            k <= p <= 38,
            r as int == pow10(k as nat),
        decreases p - k,
    {
        proof {
            lemma_pow10_mono((k + 1) as nat, 38);
            lemma_pow10_vals();
        }
        r = r * 10;
        k = k + 1;
    }
    r
}

/// Reads one token as a number: its fixed-point value, or zero when the
/// token is not a well-formed number.
pub fn parse_token(t: &Vec<u8>) -> (v: i64)
    ensures
        v as int == token_value(t@),
{
    let n = t.len();
    let mut i: usize = 0;
    let mut neg = false;
    if n > 0 && (t[0] == 43 || t[0] == 45) {
        neg = t[0] == 45;
        i = 1;
    }
    let sl = i;
    assert(sl == sign_len(t@));
    assert(neg <==> sign_of(t@) == -1);

    proof {
        lemma_pow10_vals();
    }

    // Integer digits of the mantissa.
    let mut mv: u128 = 0;
    let mut count: usize = 0;
    while i < n && 48 <= t[i] && t[i] <= 57
        invariant
            sl <= i <= n,
            n == t@.len(),
            sl == sign_len(t@),
            count == i - sl,
            count <= 38,
            mv as int == digits_value(t@, sl as int, i as int),
            (mv as int) < pow10(count as nat),
            scan_digits(t@, sl as int) == scan_digits(t@, i as int),
        decreases n - i,
    {
        proof {
            lemma_scan_digits_range(t@, i as int);
        }
        if count == 38 {
            // A 39th mantissa digit: past this parser's precision.
            proof {
                assert(is_digit(t@[i as int]));
                assert(scan_digits(t@, i as int) == scan_digits(t@, i + 1));
                lemma_scan_digits_range(t@, i as int + 1);
                assert(int_end(t@) >= i + 1);
                lemma_scan_digits_range(t@, frac_begin(t@));
            }
            assert(!well_formed_number(t@));
            return 0;
        }
        proof {
            lemma_pow10_mono((count + 1) as nat, 38);
            lemma_pow10_vals();
            assert(pow10((count + 1) as nat) == 10 * pow10(count as nat));
        }
        mv = mv * 10 + ((t[i] - 48) as u128);
        count = count + 1;
        i = i + 1;
    }
    assert(scan_digits(t@, i as int) == i);
    assert(int_end(t@) == i);
    let ie = i;

    // Fraction digits.
    let mut flen: usize = 0;
    if i < n && t[i] == 46 {
        i = i + 1;
        let fb = i;
        assert(fb == frac_begin(t@));
        while i < n && 48 <= t[i] && t[i] <= 57
            invariant
                fb <= i <= n,
                n == t@.len(),
                sl == sign_len(t@),
                ie == int_end(t@),
                fb == frac_begin(t@),
                sl <= ie < fb,
                flen == i - fb,
                count == (ie - sl) + flen,
                count <= 38,
                mv as int == digits_value(t@, sl as int, ie as int) * pow10(flen as nat)
                    + digits_value(t@, fb as int, i as int),
                (mv as int) < pow10(count as nat),
                digits_value(t@, fb as int, i as int) >= 0,
                digits_value(t@, sl as int, ie as int) >= 0,
                scan_digits(t@, fb as int) == scan_digits(t@, i as int),
            decreases n - i,
        {
            proof {
                lemma_scan_digits_range(t@, i as int);
            }
            if count == 38 {
                proof {
                    assert(is_digit(t@[i as int]));
                    assert(scan_digits(t@, i as int) == scan_digits(t@, i + 1));
                    lemma_scan_digits_range(t@, i as int + 1);
                    assert(frac_end(t@) >= i + 1);
                }
                assert(!well_formed_number(t@));
                return 0;
            }
            proof {
                lemma_pow10_mono((count + 1) as nat, 38);
                lemma_pow10_vals();
                assert(pow10((count + 1) as nat) == 10 * pow10(count as nat));
                assert(pow10((flen + 1) as nat) == 10 * pow10(flen as nat));
                let dv1 = digits_value(t@, sl as int, ie as int);
                assert(dv1 * pow10(flen as nat) * 10 == dv1 * pow10((flen + 1) as nat))
                    by (nonlinear_arith)
                    requires
                        pow10((flen + 1) as nat) == 10 * pow10(flen as nat),
                ;
            }
            mv = mv * 10 + ((t[i] - 48) as u128);
            flen = flen + 1;
            count = count + 1;
            i = i + 1;
        }
        assert(scan_digits(t@, i as int) == i);
        assert(frac_end(t@) == i);
    } else {
        assert(frac_begin(t@) == i);
        assert(scan_digits(t@, i as int) == i);
        assert(frac_end(t@) == i);
        proof {
            assert(mv as int == digits_value(t@, sl as int, ie as int) * pow10(0) + digits_value(
                t@,
                i as int,
                i as int,
            )) by (nonlinear_arith)
                requires
                    mv as int == digits_value(t@, sl as int, ie as int),
                    pow10(0) == 1,
                    digits_value(t@, i as int, i as int) == 0,
            ;
        }
    }
    assert(flen == frac_len(t@));
    assert(mv as int == mantissa_val(t@));
    assert(count == mantissa_digits(t@));

    if count == 0 {
        assert(!well_formed_number(t@));
        return 0;
    }

    // Exponent.
    let mut eneg = false;
    let mut ev: u64 = 0;
    if i < n {
        if !(t[i] == 101 || t[i] == 69) {
            assert(!exp_ok(t@));
            assert(!well_formed_number(t@));
            return 0;
        }
        i = i + 1;
        if i < n && (t[i] == 43 || t[i] == 45) {
            eneg = t[i] == 45;
            i = i + 1;
        }
        let eds = i;
        assert(eds == exp_digits_start(t@));
        while i < n && 48 <= t[i] && t[i] <= 57
            invariant
                eds <= i <= n,
                n == t@.len(),
                ev <= 10009,
                (ev <= 1000 && ev as int == digits_value(t@, eds as int, i as int)) || (ev > 1000
                    && digits_value(t@, eds as int, i as int) > 1000),
                digits_value(t@, eds as int, i as int) >= 0,
                scan_digits(t@, eds as int) == scan_digits(t@, i as int),
            decreases n - i,
        {
            proof {
                lemma_scan_digits_range(t@, i as int);
            }
            if ev <= 1000 {
                ev = ev * 10 + ((t[i] - 48) as u64);
            }
            i = i + 1;
        }
        assert(scan_digits(t@, i as int) == i);
        if i < n {
            assert(!exp_ok(t@));
            assert(!well_formed_number(t@));
            return 0;
        }
        if eds == n {
            assert(!exp_ok(t@));
            assert(!well_formed_number(t@));
            return 0;
        }
        assert(exp_ok(t@));
        assert(eneg <==> t@[frac_end(t@) + 1] == 45);
    } else {
        assert(frac_end(t@) == t@.len());
    }
    assert(well_formed_number(t@));

    if mv == 0 {
        assert(magnitude_val(t@) == 0) by {
            let p = scale_pow(t@);
            if p >= 0 {
                assert(0 * pow10(p as nat) == 0) by (nonlinear_arith);
            } else {
                lemma_pow10_pos((-p) as nat);
                lemma_basic_div_specific_divisor(pow10((-p) as nat));
            }
        }
        return 0;
    }

    let limit: u128 = 1_000_000_000_000_000_000;
    let e_signed: i64 = if eneg {
        -(ev as i64)
    } else {
        ev as i64
    };
    let p: i64 = e_signed + 6 - (flen as i64);
    let ghost ps = scale_pow(t@);
    proof {
        if ev <= 1000 {
            assert(p as int == ps);
        } else {
            if eneg {
                assert(p <= -995 && ps <= -995);
            } else {
                assert(p >= 969 && ps >= 969);
            }
        }
    }

    let mag: u128 = if p >= 0 {
        if mv > limit || p > 18 {
            proof {
                lemma_magnitude_saturates(t@, mv as int, ps);
            }
            limit
        } else {
            let pw = pow10_val(p as u64);
            proof {
                lemma_pow10_mono(p as nat, 18);
                lemma_pow10_vals();
                assert((mv as int) * (pw as int) <= 1_000_000_000_000_000_000
                    * 1_000_000_000_000_000_000) by (nonlinear_arith)
                    requires
                        0 <= mv as int <= 1_000_000_000_000_000_000,
                        0 <= pw as int <= 1_000_000_000_000_000_000,
                ;
                assert((mv as int) * (pw as int) >= 0) by (nonlinear_arith)
                    requires
                        0 <= mv as int,
                        0 <= pw as int,
                ;
            }
            let raw = mv * pw;
            if raw > limit {
                limit
            } else {
                raw
            }
        }
    } else {
        let q = (-p) as u64;
        if q >= 38 {
            proof {
                lemma_pow10_mono(count as nat, 38);
                lemma_div_small_mag(t@, mv as int, ps);
            }
            0
        } else {
            let pw = pow10_val(q);
            proof {
                lemma_pow10_mono(q as nat, 38);
                lemma_pow10_pos(q as nat);
            }
            let raw = mv / pw;
            if raw > limit {
                limit
            } else {
                raw
            }
        }
    };
    assert(mag as int == sat_mag(magnitude_val(t@)));
    if neg {
        -(mag as i64)
    } else {
        mag as i64
    }
}


/// The first position at or after `i` holding a newline.
pub open spec fn scan_to_nl(s: Seq<u8>, i: int) -> int
    decreases s.len() - i,
{
    if i < 0 || i >= s.len() || s[i] == 10 {
        i
    } else {
        scan_to_nl(s, i + 1)
    }
}

/// The first position at or after `i` holding whitespace.
pub open spec fn scan_space(l: Seq<u8>, i: int) -> int
    decreases l.len() - i,
{
    if i < 0 || i >= l.len() || is_space(l[i]) {
        i
    } else {
        scan_space(l, i + 1)
    }
}

pub proof fn lemma_scan_space_range(l: Seq<u8>, i: int)
    requires
        0 <= i <= l.len(),
    ensures
        i <= scan_space(l, i) <= l.len(),
    decreases l.len() - i,
{
    if i < l.len() && !is_space(l[i]) {
        lemma_scan_space_range(l, i + 1);
    }
}

pub proof fn lemma_scan_to_nl_range(s: Seq<u8>, i: int)
    requires
        0 <= i <= s.len(),
    ensures
        i <= scan_to_nl(s, i) <= s.len(),
    decreases s.len() - i,
{
    if i < s.len() && s[i] != 10 {
        lemma_scan_to_nl_range(s, i + 1);
    }
}

/// The values of the whitespace-separated tokens of `l`, from position `i`
/// on, in order.
pub open spec fn vals_from(l: Seq<u8>, i: int) -> Seq<int>
    decreases l.len() - i,
    when 0 <= i
    via vals_from_dec
{
    if i >= l.len() {
        Seq::empty()
    } else if is_space(l[i]) {
        vals_from(l, i + 1)
    } else {
        seq![token_value(l.subrange(i, scan_space(l, i)))] + vals_from(l, scan_space(l, i))
    }
}

#[via_fn]
proof fn vals_from_dec(l: Seq<u8>, i: int) {
    if 0 <= i && i < l.len() && !is_space(l[i]) {
        lemma_scan_space_range(l, i + 1);
    }
}

/// Consecutive token values grouped into position triples, one body each;
/// values that do not fill a whole triple are dropped.
pub open spec fn bodies_of_vals(vs: Seq<int>) -> Seq<crate::vec3::Vec3> {
    Seq::new((vs.len() / 3) as nat, |k: int| crate::vec3::Vec3 {
        x: vs[3 * k] as i64,
        y: vs[3 * k + 1] as i64,
        z: vs[3 * k + 2] as i64,
    })
}

/// One input line read as a snapshot: its token values grouped into bodies.
pub open spec fn snapshot_of_line(l: Seq<u8>) -> Seq<crate::vec3::Vec3> {
    bodies_of_vals(vals_from(l, 0))
}

/// The snapshots of the input from position `i` on: one per newline
/// separated line.
pub open spec fn snaps_from(s: Seq<u8>, i: int) -> Seq<Seq<crate::vec3::Vec3>>
    decreases s.len() - i,
    when 0 <= i
    via snaps_from_dec
{
    if i >= s.len() {
        Seq::empty()
    } else {
        let j = scan_to_nl(s, i);
        seq![snapshot_of_line(s.subrange(i, j))] + (if j >= s.len() {
            Seq::empty()
        } else {
            snaps_from(s, j + 1)
        })
    }
}

#[via_fn]
proof fn snaps_from_dec(s: Seq<u8>, i: int) {
    if 0 <= i && i < s.len() {
        lemma_scan_to_nl_range(s, i);
    }
}

/// The whole input read as a trajectory: one snapshot per line.
pub open spec fn snapshots_of(s: Seq<u8>) -> Seq<Seq<crate::vec3::Vec3>> {
    snaps_from(s, 0)
}

pub open spec fn ints_of(vs: Seq<i64>) -> Seq<int> {
    vs.map_values(|x: i64| x as int)
}

pub open spec fn snapshot_views(ss: Seq<Vec<crate::vec3::Vec3>>) -> Seq<Seq<crate::vec3::Vec3>> {
    ss.map_values(|v: Vec<crate::vec3::Vec3>| v@)
}

/// Every token value fits the carrying range.
pub proof fn lemma_token_value_range(t: Seq<u8>)
    ensures
        -(COORD_LIMIT as int) <= token_value(t) <= COORD_LIMIT as int,
{
    if well_formed_number(t) {
        lemma_scan_digits_range(t, sign_len(t));
        lemma_scan_digits_range(t, frac_begin(t));
        lemma_digits_value_bounds(t, sign_len(t), int_end(t));
        lemma_digits_value_bounds(t, frac_begin(t), frac_end(t));
        let m = mantissa_val(t);
        assert(m >= 0) by (nonlinear_arith)
            requires
                m == digits_value(t, sign_len(t), int_end(t)) * pow10(frac_len(t) as nat)
                    + digits_value(t, frac_begin(t), frac_end(t)),
                digits_value(t, sign_len(t), int_end(t)) >= 0,
                digits_value(t, frac_begin(t), frac_end(t)) >= 0,
                pow10(frac_len(t) as nat) >= 1,
        ;
        let p = scale_pow(t);
        if p >= 0 {
            lemma_pow10_pos(p as nat);
            assert(m * pow10(p as nat) >= 0) by (nonlinear_arith)
                requires
                    m >= 0,
                    pow10(p as nat) >= 0,
            ;
        } else {
            lemma_pow10_pos((-p) as nat);
            vstd::arithmetic::div_mod::lemma_div_pos_is_pos(m, pow10((-p) as nat));
        }
    } else {
        lemma_pow10_pos(frac_len(t) as nat);
    }
}



/// The values of all tokens of one line, left to right.
pub fn tokenize_vals(l: &Vec<u8>) -> (vs: Vec<i64>)
    ensures
        ints_of(vs@) == vals_from(l@, 0),
{
    let n = l.len();
    let mut vs: Vec<i64> = Vec::new();
    let mut i: usize = 0;
    while i < n
        invariant
            i <= n,
            n == l@.len(),
            vals_from(l@, 0) == ints_of(vs@) + vals_from(l@, i as int),
        decreases n - i,
    {
        let b = l[i];
        if b == 32 || b == 9 || b == 10 || b == 11 || b == 12 || b == 13 {
            proof {
                assert(vals_from(l@, i as int) == vals_from(l@, i + 1));
            }
            i = i + 1;
        } else {
            let mut j: usize = i;
            while j < n && !(l[j] == 32 || l[j] == 9 || l[j] == 10 || l[j] == 11 || l[j] == 12
                || l[j] == 13)
                invariant
                    i <= j <= n,
                    n == l@.len(),
                    scan_space(l@, i as int) == scan_space(l@, j as int),
                decreases n - j,
            {
                proof {
                    assert(scan_space(l@, j as int) == scan_space(l@, j + 1));
                }
                j = j + 1;
            }
            proof {
                assert(scan_space(l@, j as int) == j);
            }
            let mut tok: Vec<u8> = Vec::new();
            let mut k: usize = i;
            while k < j
                invariant
                    i <= k <= j <= n,
                    n == l@.len(),
                    tok@ == l@.subrange(i as int, k as int),
                decreases j - k,
            {
                let byte = l[k];
                tok.push(byte);
                proof {
                    assert(tok@ =~= l@.subrange(i as int, k + 1));
                }
                k = k + 1;
            }
            let v = parse_token(&tok);
            let ghost vsp = vs@;
            vs.push(v);
            proof {
                assert(ints_of(vs@) =~= ints_of(vsp) + seq![v as int]);
                assert(vals_from(l@, i as int) == seq![
                    token_value(l@.subrange(i as int, scan_space(l@, i as int))),
                ] + vals_from(l@, scan_space(l@, i as int)));
                assert((ints_of(vsp) + seq![v as int]) + vals_from(l@, j as int) =~= ints_of(vsp)
                    + (seq![v as int] + vals_from(l@, j as int)));
            }
            i = j;
        }
    }
    proof {
        assert(vals_from(l@, i as int) == Seq::<int>::empty());
        assert(vals_from(l@, 0) =~= ints_of(vs@));
    }
    vs
}

/// Groups token values into bodies, three values each, dropping a dangling
/// tail.
pub fn group_triples(vs: &Vec<i64>) -> (out: Vec<crate::vec3::Vec3>)
    ensures
        out@ == bodies_of_vals(ints_of(vs@)),
{
    let n = vs.len();
    let n3 = n / 3;
    proof {
        vstd::arithmetic::div_mod::lemma_fundamental_div_mod(vs@.len() as int, 3);
        vstd::arithmetic::div_mod::lemma_mod_division_less_than_divisor(vs@.len() as int, 3);
    }
    let mut out: Vec<crate::vec3::Vec3> = Vec::new();
    let mut k: usize = 0;
    while k < n3
        invariant
            k <= n3,
            n == vs@.len(),
            n3 == vs@.len() as int / 3,
            3 * n3 <= n,
            out@.len() == k,
            forall|j: int| 0 <= j < k ==> out@[j] == bodies_of_vals(ints_of(vs@))[j],
        decreases n3 - k,
    {
        let base: usize = 3 * k;
        let body = crate::vec3::Vec3 { x: vs[base], y: vs[base + 1], z: vs[base + 2] };
        out.push(body);
        k = k + 1;
    }
    proof {
        assert(out@ =~= bodies_of_vals(ints_of(vs@)));
    }
    out
}

/// Reads the whole input into snapshots: one line, one snapshot.
pub fn parse_content(data: &Vec<u8>) -> (out: Vec<Vec<crate::vec3::Vec3>>)
    ensures
        snapshot_views(out@) == snapshots_of(data@),
{
    let n = data.len();
    let mut out: Vec<Vec<crate::vec3::Vec3>> = Vec::new();
    let mut i: usize = 0;
    while i < n
        invariant
            i <= n,
            n == data@.len(),
            snapshots_of(data@) == snapshot_views(out@) + snaps_from(data@, i as int),
        decreases n - i,
    {
        let mut j: usize = i;
        while j < n && data[j] != 10
            invariant
                i <= j <= n,
                n == data@.len(),
                scan_to_nl(data@, i as int) == scan_to_nl(data@, j as int),
            decreases n - j,
        {
            proof {
                assert(scan_to_nl(data@, j as int) == scan_to_nl(data@, j + 1));
            }
            j = j + 1;
        }
        proof {
            assert(scan_to_nl(data@, j as int) == j);
        }
        let mut line: Vec<u8> = Vec::new();
        let mut k: usize = i;
        while k < j
            invariant
                i <= k <= j <= n,
                n == data@.len(),
                line@ == data@.subrange(i as int, k as int),
            decreases j - k,
        {
            let byte = data[k];
            line.push(byte);
            proof {
                assert(line@ =~= data@.subrange(i as int, k + 1));
            }
            k = k + 1;
        }
        let vals = tokenize_vals(&line);
        let snap = group_triples(&vals);
        let ghost outp = out@;
        out.push(snap);
        proof {
            assert(snap@ == snapshot_of_line(data@.subrange(i as int, j as int)));
            assert(snapshot_views(out@) =~= snapshot_views(outp) + seq![snap@]);
            assert((snapshot_views(outp) + seq![snap@]) + (if j >= n {
                Seq::<Seq<crate::vec3::Vec3>>::empty()
            } else {
                snaps_from(data@, j + 1)
            }) =~= snapshot_views(outp) + (seq![snap@] + (if j >= n {
                Seq::<Seq<crate::vec3::Vec3>>::empty()
            } else {
                snaps_from(data@, j + 1)
            })));
        }
        if j < n {
            i = j + 1;
        } else {
            i = n;
        }
    }
    proof {
        assert(snaps_from(data@, i as int) == Seq::<Seq<crate::vec3::Vec3>>::empty());
        assert(snapshots_of(data@) =~= snapshot_views(out@));
    }
    out
}



/// Every token value of a line lies in the carrying range.
pub proof fn lemma_vals_from_in_range(l: Seq<u8>, i: int)
    requires
        0 <= i,
    ensures
        forall|k: int|
            0 <= k < vals_from(l, i).len() ==> -(COORD_LIMIT as int) <= #[trigger] vals_from(
                l,
                i,
            )[k] <= COORD_LIMIT as int,
    decreases l.len() - i,
{
    if i >= l.len() {
    } else if is_space(l[i]) {
        lemma_vals_from_in_range(l, i + 1);
        assert forall|k: int| 0 <= k < vals_from(l, i).len() implies -(COORD_LIMIT as int)
            <= #[trigger] vals_from(l, i)[k] <= COORD_LIMIT as int by {
            assert(vals_from(l, i)[k] == vals_from(l, i + 1)[k]);
        }
    } else {
        lemma_scan_space_range(l, i + 1);
        let ss = scan_space(l, i);
        lemma_token_value_range(l.subrange(i, ss));
        lemma_vals_from_in_range(l, ss);
        assert forall|k: int| 0 <= k < vals_from(l, i).len() implies -(COORD_LIMIT as int)
            <= #[trigger] vals_from(l, i)[k] <= COORD_LIMIT as int by {
            if k > 0 {
                assert(vals_from(l, i)[k] == vals_from(l, ss)[k - 1]);
            }
        }
    }
}

/// Every body parsed from a line lies in the carrying range.
pub proof fn lemma_snapshot_line_in_range(l: Seq<u8>)
    ensures
        forall|j: int|
            0 <= j < snapshot_of_line(l).len() ==> crate::vec3::in_range(
                #[trigger] snapshot_of_line(l)[j],
            ),
{
    lemma_vals_from_in_range(l, 0);
    let vs = vals_from(l, 0);
    assert forall|j: int| 0 <= j < snapshot_of_line(l).len() implies crate::vec3::in_range(
        #[trigger] snapshot_of_line(l)[j],
    ) by {
        vstd::arithmetic::div_mod::lemma_fundamental_div_mod(vs.len() as int, 3);
        vstd::arithmetic::div_mod::lemma_mod_division_less_than_divisor(vs.len() as int, 3);
        assert(3 * j + 2 < vs.len());
    }
}

/// Every body of every parsed snapshot lies in the carrying range.
pub proof fn lemma_snaps_in_range(s: Seq<u8>, i: int)
    requires
        0 <= i,
    ensures
        forall|a: int, b: int|
            0 <= a < snaps_from(s, i).len() && 0 <= b < snaps_from(s, i)[a].len()
                ==> crate::vec3::in_range(#[trigger] snaps_from(s, i)[a][b]),
    decreases s.len() - i,
{
    if i < s.len() {
        let j = scan_to_nl(s, i);
        lemma_scan_to_nl_range(s, i);
        lemma_snapshot_line_in_range(s.subrange(i, j));
        if j < s.len() {
            lemma_snaps_in_range(s, j + 1);
        }
        assert forall|a: int, b: int|
            0 <= a < snaps_from(s, i).len() && 0 <= b < snaps_from(s, i)[a].len()
                implies crate::vec3::in_range(#[trigger] snaps_from(s, i)[a][b]) by {
            if a > 0 {
                assert(snaps_from(s, i)[a] == snaps_from(s, j + 1)[a - 1]);
            } else {
                assert(snaps_from(s, i)[0] == snapshot_of_line(s.subrange(i, j)));
            }
        }
    }
}


} // verus!
