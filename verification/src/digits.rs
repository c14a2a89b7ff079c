//! Decimal text: formatting integers, and parsing numeric text with
//! round-to-nearest integer semantics (ties away from zero), used by value
//! coercion.
use vstd::prelude::*;

use crate::strutil::string_from_chars;

verus! {

pub open spec fn is_digit(c: char) -> bool {
    '0' <= c && c <= '9'
}

/// Numeric value of a digit character.
pub open spec fn digit_of(c: char) -> int {
    c as int - 48
}

/// Character for a digit value (0 to 9).
pub open spec fn digit_char(d: int) -> char {
    ((d + 48) as u8) as char
}

/// Value of a string of digit characters, most significant first.
pub open spec fn digits_val(ds: Seq<char>) -> int
    decreases ds.len(),
{
    if ds.len() == 0 {
        0
    } else {
        digits_val(ds.drop_last()) * 10 + digit_of(ds.last())
    }
}

pub open spec fn pow10(k: nat) -> int
    decreases k,
{
    if k == 0 {
        1
    } else {
        10 * pow10((k - 1) as nat)
    }
}

/// Decimal representation of a natural number, no sign, no leading zeros.
pub open spec fn dec_chars(n: nat) -> Seq<char>
    decreases n,
{
    if n < 10 {
        seq![digit_char(n as int)]
    } else {
        dec_chars(n / 10) + seq![digit_char(n as int % 10)]
    }
}

/// Decimal representation of an integer, with a leading '-' when negative.
pub open spec fn int_dec_chars(n: int) -> Seq<char> {
    if n < 0 {
        seq!['-'] + dec_chars((-n) as nat)
    } else {
        dec_chars(n as nat)
    }
}

fn push_dec_u64(n: u64, out: &mut Vec<char>)
    ensures
        final(out)@ == old(out)@ + dec_chars(n as nat),
    decreases n,
{
    if n < 10 {
        let d: u8 = (n as u8) + 48;
        out.push(d as char);
        proof {
            assert(out@ =~= old(out)@ + dec_chars(n as nat));
        }
    } else {
        push_dec_u64(n / 10, out);
        let d: u8 = ((n % 10) as u8) + 48;
        out.push(d as char);
        proof {
            assert(out@ =~= old(out)@ + dec_chars(n as nat));
        }
    }
}

/// Decimal text of an unsigned 64-bit integer.
pub fn u64_to_string(n: u64) -> (r: String)
    ensures
        r@ == dec_chars(n as nat),
{
    let mut v: Vec<char> = Vec::new();
    push_dec_u64(n, &mut v);
    string_from_chars(&v)
}

/// Decimal text of a signed 64-bit integer.
pub fn i64_to_string(n: i64) -> (r: String)
    ensures
        r@ == int_dec_chars(n as int),
{
    let mut v: Vec<char> = Vec::new();
    if n < 0 {
        v.push('-');
        let m: u64 = (-(n as i128)) as u64;
        push_dec_u64(m, &mut v);
        proof {
            assert(v@ =~= int_dec_chars(n as int));
        }
    } else {
        push_dec_u64(n as u64, &mut v);
    }
    string_from_chars(&v)
}

/// Decimal text of an i32 (used for process exit codes in messages).
pub fn i32_to_string(n: i32) -> (r: String)
    ensures
        r@ == int_dec_chars(n as int),
{
    i64_to_string(n as i64)
}

/// First position at or after `from` that does not hold a digit.
pub open spec fn scan_digits(s: Seq<char>, from: int) -> int
    decreases s.len() - from when from <= s.len()
{
    if from < s.len() && is_digit(s[from]) {
        scan_digits(s, from + 1)
    } else {
        from
    }
}

pub proof fn lemma_scan_digits(s: Seq<char>, from: int)
    requires
        0 <= from <= s.len(),
    ensures
        from <= scan_digits(s, from) <= s.len(),
        forall|j: int| from <= j < scan_digits(s, from) ==> is_digit(s[j]),
        scan_digits(s, from) < s.len() ==> !is_digit(s[scan_digits(s, from)]),
    decreases s.len() - from,
{
    if from < s.len() && is_digit(s[from]) {
        lemma_scan_digits(s, from + 1);
    }
}

// Shape of a numeric text: an optional sign, integer digits, an optional
// fraction introduced by '.', and an optional exponent introduced by 'e'
// or 'E' with its own optional sign.
pub open spec fn num_sign_len(s: Seq<char>) -> int {
    if s.len() > 0 && (s[0] == '-' || s[0] == '+') {
        1
    } else {
        0
    }
}

pub open spec fn num_neg(s: Seq<char>) -> bool {
    s.len() > 0 && s[0] == '-'
}

pub open spec fn num_ip_end(s: Seq<char>) -> int {
    scan_digits(s, num_sign_len(s))
}

pub open spec fn num_has_dot(s: Seq<char>) -> bool {
    num_ip_end(s) < s.len() && s[num_ip_end(s)] == '.'
}

pub open spec fn num_fp_end(s: Seq<char>) -> int {
    if num_has_dot(s) {
        scan_digits(s, num_ip_end(s) + 1)
    } else {
        num_ip_end(s)
    }
}

/// The mantissa digits: integer-part digits followed by fraction digits.
pub open spec fn num_mant(s: Seq<char>) -> Seq<char> {
    s.subrange(num_sign_len(s), num_ip_end(s)) + if num_has_dot(s) {
        s.subrange(num_ip_end(s) + 1, num_fp_end(s))
    } else {
        Seq::<char>::empty()
    }
}

pub open spec fn num_has_exp(s: Seq<char>) -> bool {
    num_fp_end(s) < s.len() && (s[num_fp_end(s)] == 'e' || s[num_fp_end(s)] == 'E')
}

pub open spec fn num_exp_sign_len(s: Seq<char>) -> int {
    if num_has_exp(s) && num_fp_end(s) + 1 < s.len() && (s[num_fp_end(s) + 1] == '-' || s[
        num_fp_end(s) + 1
    ] == '+') {
        1
    } else {
        0
    }
}

pub open spec fn num_exp_neg(s: Seq<char>) -> bool {
    num_has_exp(s) && num_fp_end(s) + 1 < s.len() && s[num_fp_end(s) + 1] == '-'
}

pub open spec fn num_exp_start(s: Seq<char>) -> int {
    num_fp_end(s) + 1 + num_exp_sign_len(s)
}

pub open spec fn num_exp_end(s: Seq<char>) -> int {
    scan_digits(s, num_exp_start(s))
}

/// Whether the whole text is one well-formed numeric literal.
pub open spec fn wf_numeric(s: Seq<char>) -> bool {
    &&& num_mant(s).len() > 0
    &&& if num_has_exp(s) {
        num_exp_end(s) == s.len() && num_exp_end(s) > num_exp_start(s)
    } else {
        num_fp_end(s) == s.len()
    }
}

/// Signed exponent value (0 when no exponent part is present).
pub open spec fn num_exp_val(s: Seq<char>) -> int {
    if num_has_exp(s) {
        let m = digits_val(s.subrange(num_exp_start(s), num_exp_end(s)));
        if num_exp_neg(s) {
            -m
        } else {
            m
        }
    } else {
        0
    }
}

/// Position of the decimal point within the mantissa digits, after applying
/// the exponent.
pub open spec fn num_point(s: Seq<char>) -> int {
    num_ip_end(s) - num_sign_len(s) + num_exp_val(s)
}

/// Rounds the number `0.ds * 10^p` (digits `ds`, decimal point at `p`) to the
/// nearest integer, ties away from zero.
pub open spec fn round_at(ds: Seq<char>, p: int) -> int {
    let ip = if p <= 0 {
        0
    } else if p >= ds.len() {
        digits_val(ds) * pow10((p - ds.len()) as nat)
    } else {
        digits_val(ds.subrange(0, p))
    };
    let bump: int = if 0 <= p < ds.len() && digit_of(ds[p]) >= 5 {
        1
    } else {
        0
    };
    ip + bump
}

pub proof fn lemma_digits_val_snoc(t: Seq<char>, c: char)
    ensures
        digits_val(t.push(c)) == digits_val(t) * 10 + digit_of(c),
{
    assert(t.push(c).drop_last() =~= t);
    assert(t.push(c).last() == c);
}

pub proof fn lemma_digits_val_nonneg(t: Seq<char>)
    requires
        forall|j: int| 0 <= j < t.len() ==> is_digit(t[j]),
    ensures
        digits_val(t) >= 0,
    decreases t.len(),
{
    if t.len() > 0 {
        lemma_digits_val_nonneg(t.drop_last());
    }
}

pub proof fn lemma_pow10_pos(k: nat)
    ensures
        pow10(k) >= 1,
    decreases k,
{
    if k > 0 {
        lemma_pow10_pos((k - 1) as nat);
    }
}

pub proof fn lemma_pow10_mono(a: nat, b: nat)
    requires
        a <= b,
    ensures
        pow10(a) <= pow10(b),
    decreases b,
{
    if a < b {
        lemma_pow10_mono(a, (b - 1) as nat);
        lemma_pow10_pos((b - 1) as nat);
    }
}

pub proof fn lemma_pow10_20()
    ensures
        pow10(20) == 100000000000000000000,
        pow10(19) == 10000000000000000000,
        pow10(18) == 1000000000000000000,
{
    reveal_with_fuel(pow10, 21);
}

pub open spec fn clamp_i64(v: int) -> i64 {
    if v > i64::MAX {
        i64::MAX
    } else if v < i64::MIN {
        i64::MIN
    } else {
        v as i64
    }
}

/// The 64-bit integer nearest to a well-formed numeric text, ties away from
/// zero, clamped to the i64 range.
pub open spec fn numeric_rounded(s: Seq<char>) -> i64 {
    let m = round_at(num_mant(s), num_point(s));
    clamp_i64(
        if num_neg(s) {
            -m
        } else {
            m
        },
    )
}

pub proof fn lemma_dec_chars_digits(n: nat)
    ensures
        dec_chars(n).len() >= 1,
        forall|j: int| 0 <= j < dec_chars(n).len() ==> is_digit(#[trigger] dec_chars(n)[j]),
    decreases n,
{
    if n >= 10 {
        lemma_dec_chars_digits(n / 10);
    }
}

pub proof fn lemma_dec_chars_val(n: nat)
    ensures
        digits_val(dec_chars(n)) == n,
    decreases n,
{
    if n < 10 {
        assert(dec_chars(n) =~= Seq::<char>::empty().push(digit_char(n as int)));
        lemma_digits_val_snoc(Seq::<char>::empty(), digit_char(n as int));
    } else {
        lemma_dec_chars_val(n / 10);
        assert(dec_chars(n) =~= dec_chars(n / 10).push(digit_char(n as int % 10)));
        lemma_digits_val_snoc(dec_chars(n / 10), digit_char(n as int % 10));
    }
}

pub proof fn lemma_scan_all_digits(s: Seq<char>, from: int)
    requires
        0 <= from <= s.len(),
        forall|j: int| from <= j < s.len() ==> is_digit(s[j]),
    ensures
        scan_digits(s, from) == s.len(),
    decreases s.len() - from,
{
    if from < s.len() {
        lemma_scan_all_digits(s, from + 1);
    }
}

/// The decimal text of any 64-bit integer is a well-formed numeric literal
/// and rounds back to that integer.
pub proof fn lemma_int_text_rounds(i: int)
    requires
        i64::MIN <= i <= i64::MAX,
    ensures
        wf_numeric(int_dec_chars(i)),
        numeric_rounded(int_dec_chars(i)) == i,
{
    let s = int_dec_chars(i);
    lemma_pow10_20();
    if i >= 0 {
        lemma_dec_chars_digits(i as nat);
        lemma_dec_chars_val(i as nat);
        assert(is_digit(s[0]));
        assert(num_sign_len(s) == 0);
        lemma_scan_all_digits(s, 0);
        assert(num_ip_end(s) == s.len());
        assert(!num_has_dot(s));
        assert(!num_has_exp(s));
        assert(num_mant(s) =~= s);
        assert(num_point(s) == s.len());
        assert(round_at(s, s.len() as int) == digits_val(s) * pow10(0));
        assert(digits_val(s) * 1 == digits_val(s));
        assert(!num_neg(s));
    } else {
        let d = dec_chars((-i) as nat);
        lemma_dec_chars_digits((-i) as nat);
        lemma_dec_chars_val((-i) as nat);
        assert(s[0] == '-');
        assert(num_sign_len(s) == 1);
        assert(num_neg(s));
        assert forall|j: int| 1 <= j < s.len() implies is_digit(s[j]) by {
            assert(s[j] == d[j - 1]);
        }
        lemma_scan_all_digits(s, 1);
        assert(num_ip_end(s) == s.len());
        assert(!num_has_dot(s));
        assert(!num_has_exp(s));
        assert(num_mant(s) =~= d);
        assert(num_point(s) == s.len() - 1);
        assert(num_point(s) == d.len());
        assert(round_at(d, d.len() as int) == digits_val(d) * pow10(0));
        assert(digits_val(d) * 1 == digits_val(d));
        assert(numeric_rounded(s) == clamp_i64(-digits_val(d)));
    }
}

/// Saturation bound for digit accumulation: one order of magnitude above
/// what any i64 or vector length can reach.
pub const DIGIT_SAT: u128 = 100000000000000000000;

fn scan_digits_exec(s: &Vec<char>, from: usize) -> (r: usize)
    requires
        from <= s.len(),
    ensures
        r as int == scan_digits(s@, from as int),
        from <= r <= s.len(),
{
    let n = s.len();
    let mut i = from;
    while i < n && '0' <= s[i] && s[i] <= '9'
        invariant
            from <= i <= n,
            n == s.len(),
            scan_digits(s@, from as int) == scan_digits(s@, i as int),
        decreases n - i,
    {
        i = i + 1;
    }
    i
}

/// Accumulates the value of the digits `ds[a..b]`, saturating at
/// `DIGIT_SAT`: the result is exact below the bound, and at least the bound
/// whenever the true value reaches it.
fn digits_acc(ds: &Vec<char>, a: usize, b: usize) -> (r: u128)
    requires
        a <= b <= ds.len(),
        forall|j: int| a <= j < b ==> is_digit(ds@[j]),
    ensures
        digits_val(ds@.subrange(a as int, b as int)) < DIGIT_SAT ==> r == digits_val(
            ds@.subrange(a as int, b as int),
        ),
        digits_val(ds@.subrange(a as int, b as int)) >= DIGIT_SAT ==> r >= DIGIT_SAT,
        r <= DIGIT_SAT * 10 + 9,
{
    let mut r: u128 = 0;
    let mut j = a;
    proof {
        assert(ds@.subrange(a as int, a as int) =~= Seq::<char>::empty());
    }
    while j < b
        invariant
            a <= j <= b <= ds.len(),
            forall|k: int| a <= k < b ==> is_digit(ds@[k]),
            digits_val(ds@.subrange(a as int, j as int)) < DIGIT_SAT ==> r == digits_val(
                ds@.subrange(a as int, j as int),
            ),
            digits_val(ds@.subrange(a as int, j as int)) >= DIGIT_SAT ==> r >= DIGIT_SAT,
            r <= DIGIT_SAT * 10 + 9,
        decreases b - j,
    {
        let ghost prefix = ds@.subrange(a as int, j as int);
        let ghost t = digits_val(prefix);
        let c = ds[j];
        let d: u128 = (c as u32 - 48) as u128;
        proof {
            lemma_digits_val_nonneg(prefix);
            assert(ds@.subrange(a as int, j + 1) =~= prefix.push(ds@[j as int]));
            lemma_digits_val_snoc(prefix, ds@[j as int]);
            assert(is_digit(ds@[j as int]));
            assert(0 <= digit_of(ds@[j as int]) <= 9);
            if t >= DIGIT_SAT {
                assert(t * 10 >= DIGIT_SAT * 10) by (nonlinear_arith)
                    requires
                        t >= DIGIT_SAT,
                ;
            }
        }
        if r < DIGIT_SAT {
            r = r * 10 + d;
        }
        j = j + 1;
    }
    r
}

fn pow10_mul(acc: u128, k: u64) -> (r: u128)
    requires
        acc < DIGIT_SAT,
        k <= 18,
    ensures
        r == acc * pow10(k as nat),
{
    let mut r = acc;
    let mut j: u64 = 0;
    proof {
        lemma_pow10_20();
        reveal_with_fuel(pow10, 19);
    }
    while j < k
        invariant
            j <= k <= 18,
            acc < DIGIT_SAT,
            r == acc * pow10(j as nat),
            pow10(18) == 1000000000000000000,
        decreases k - j,
    {
        proof {
            lemma_pow10_mono(j as nat, 17);
            reveal_with_fuel(pow10, 19);
            lemma_pow10_pos(j as nat);
            assert(r <= (DIGIT_SAT - 1) * pow10(17)) by (nonlinear_arith)
                requires
                    r == acc * pow10(j as nat),
                    acc <= DIGIT_SAT - 1,
                    acc >= 0,
                    0 < pow10(j as nat) <= pow10(17),
            ;
            assert(pow10((j + 1) as nat) == 10 * pow10(j as nat));
            assert(r * 10 == acc * pow10((j + 1) as nat)) by (nonlinear_arith)
                requires
                    r == acc * pow10(j as nat),
                    pow10((j + 1) as nat) == 10 * pow10(j as nat),
            ;
        }
        r = r * 10;
        j = j + 1;
    }
    r
}

/// Parses a numeric text and returns the nearest 64-bit integer (ties away
/// from zero, clamped to the i64 range), or `None` when the text is not a
/// well-formed numeric literal.
#[verifier::rlimit(100)]
pub fn round_numeric_chars(s: &Vec<char>) -> (r: Option<i64>)
    ensures
        r is Some <==> wf_numeric(s@),
        r matches Some(v) ==> v == numeric_rounded(s@),
{
    let n = s.len();
    let sign_len: usize = if n > 0 && (s[0] == '-' || s[0] == '+') {
        1
    } else {
        0
    };
    let neg: bool = n > 0 && s[0] == '-';
    let ip_end = scan_digits_exec(s, sign_len);
    let has_dot = ip_end < n && s[ip_end] == '.';
    let fp_end = if has_dot {
        scan_digits_exec(s, ip_end + 1)
    } else {
        ip_end
    };
    proof {
        assert(sign_len as int == num_sign_len(s@));
        assert(neg == num_neg(s@));
        assert(ip_end as int == num_ip_end(s@));
        assert(has_dot == num_has_dot(s@));
        assert(fp_end as int == num_fp_end(s@));
        lemma_scan_digits(s@, sign_len as int);
        if has_dot {
            lemma_scan_digits(s@, ip_end + 1);
        }
    }
    let ip_len = ip_end - sign_len;
    let fr_len = if has_dot {
        fp_end - (ip_end + 1)
    } else {
        0
    };
    proof {
        assert(num_mant(s@).len() == ip_len + fr_len);
    }
    if ip_len == 0 && fr_len == 0 {
        return None;
    }
    let has_exp = fp_end < n && (s[fp_end] == 'e' || s[fp_end] == 'E');
    proof {
        assert(has_exp == num_has_exp(s@));
    }
    let mut e_neg = false;
    let mut e_acc: u128 = 0;
    if has_exp {
        let es: usize = if fp_end + 1 < n && (s[fp_end + 1] == '-' || s[fp_end + 1] == '+') {
            1
        } else {
            0
        };
        e_neg = fp_end + 1 < n && s[fp_end + 1] == '-';
        let e_start = fp_end + 1 + es;
        let e_end = scan_digits_exec(s, e_start);
        proof {
            assert(es as int == num_exp_sign_len(s@));
            assert(e_neg == num_exp_neg(s@));
            assert(e_start as int == num_exp_start(s@));
            assert(e_end as int == num_exp_end(s@));
        }
        if !(e_end == n && e_end > e_start) {
            return None;
        }
        proof {
            lemma_scan_digits(s@, e_start as int);
        }
        e_acc = digits_acc(s, e_start, e_end);
    } else {
        if fp_end != n {
            return None;
        }
    }
    proof {
        assert(wf_numeric(s@));
    }
    // Gather the mantissa digits.
    let mut ds: Vec<char> = Vec::new();
    let mut j = sign_len;
    proof {
        assert(ds@ =~= s@.subrange(sign_len as int, sign_len as int));
    }
    while j < ip_end
        invariant
            sign_len <= j <= ip_end <= s.len(),
            ds@ == s@.subrange(sign_len as int, j as int),
        decreases ip_end - j,
    {
        ds.push(s[j]);
        j = j + 1;
        proof {
            assert(ds@ =~= s@.subrange(sign_len as int, j as int));
        }
    }
    if has_dot {
        let mut j2 = ip_end + 1;
        while j2 < fp_end
            invariant
                ip_end + 1 <= j2 <= fp_end <= s.len(),
                has_dot,
                ip_end < s.len(),
                ds@ == s@.subrange(sign_len as int, ip_end as int) + s@.subrange(
                    ip_end + 1,
                    j2 as int,
                ),
                sign_len <= ip_end,
            decreases fp_end - j2,
        {
            ds.push(s[j2]);
            j2 = j2 + 1;
            proof {
                assert(ds@ =~= s@.subrange(sign_len as int, ip_end as int) + s@.subrange(
                    ip_end + 1,
                    j2 as int,
                ));
            }
        }
    }
    proof {
        assert(ds@ =~= num_mant(s@));
        assert(forall|k: int| 0 <= k < ds@.len() ==> is_digit(ds@[k]));
    }
    let dlen = ds.len();
    let e_i: i128 = if e_neg {
        -(e_acc as i128)
    } else {
        e_acc as i128
    };
    let p: i128 = (ip_len as i128) + e_i;
    let ghost gp = num_point(s@);
    let ghost gds = num_mant(s@);
    let ghost gm = round_at(gds, gp);
    proof {
        lemma_pow10_20();
        if num_has_exp(s@) {
            lemma_digits_val_nonneg(s@.subrange(num_exp_start(s@), num_exp_end(s@)));
        }
        // Either the exponent was accumulated exactly and the computed point
        // agrees with the specification, or it saturated on both sides of
        // zero together.
        assert(p as int == gp || (p < 0 && gp < 0) || (p as int >= DIGIT_SAT && gp
            >= DIGIT_SAT));
    }
    let m: u128 = round_mant(&ds, p, Ghost(gp));
    let out: i64 = if neg {
        if m >= 9223372036854775808u128 {
            i64::MIN
        } else {
            -(m as i64)
        }
    } else {
        if m > 9223372036854775807u128 {
            i64::MAX
        } else {
            m as i64
        }
    };
    proof {
        lemma_pow10_20();
        assert(out == numeric_rounded(s@));
    }
    Some(out)
}

/// Computes the rounded magnitude for mantissa digits `ds` with the decimal
/// point at `p`, saturating at `DIGIT_SAT`; `gp` is the unclamped point, and
/// the result is exact below `pow10(19)` and at least `pow10(19)` whenever
/// the true rounded magnitude reaches it.
#[verifier::rlimit(100)]
fn round_mant(ds: &Vec<char>, p: i128, Ghost(gp): Ghost<int>) -> (m: u128)
    requires
        forall|k: int| 0 <= k < ds@.len() ==> is_digit(ds@[k]),
        ds@.len() > 0,
        p as int == gp || (p < 0 && gp < 0) || (p as int >= DIGIT_SAT && gp >= DIGIT_SAT),
    ensures
        round_at(ds@, gp) >= 0,
        round_at(ds@, gp) < pow10(19) ==> m == round_at(ds@, gp),
        round_at(ds@, gp) >= pow10(19) ==> m >= pow10(19),
        m <= DIGIT_SAT,
{
    let ghost gds = ds@;
    let ghost gm = round_at(gds, gp);
    let dlen = ds.len();
    proof {
        lemma_pow10_20();
        lemma_digits_val_nonneg(gds);
    }
    let m: u128 = if p <= 0 {
        proof {
            if p as int != gp {
                assert(gp < 0);
            }
        }
        if p == 0 && ds[0] >= '5' {
            1
        } else {
            0
        }
    } else {
        let take: usize = if p >= dlen as i128 {
            dlen
        } else {
            p as usize
        };
        proof {
            if p as int == gp {
                if gp >= dlen {
                    assert(ds@.subrange(0, take as int) =~= gds);
                } else {
                    assert(ds@.subrange(0, take as int) =~= gds.subrange(0, gp));
                }
            } else {
                assert(gp >= DIGIT_SAT > dlen);
                assert(take == dlen);
                assert(ds@.subrange(0, take as int) =~= gds);
            }
        }
        let acc = digits_acc(ds, 0, take);
        let ghost tv = digits_val(ds@.subrange(0, take as int));
        proof {
            lemma_digits_val_nonneg(ds@.subrange(0, take as int));
        }
        if acc >= DIGIT_SAT {
            proof {
                assert(tv >= DIGIT_SAT);
                if gp >= gds.len() {
                    lemma_pow10_pos((gp - gds.len()) as nat);
                    assert(digits_val(gds) * pow10((gp - gds.len()) as nat) >= tv) by (
                    nonlinear_arith)
                        requires
                            tv == digits_val(gds),
                            tv >= 0,
                            pow10((gp - gds.len()) as nat) >= 1,
                    ;
                }
                assert(gm >= pow10(19));
            }
            DIGIT_SAT
        } else if p >= dlen as i128 {
            proof {
                assert(acc == tv);
                assert(tv == digits_val(gds));
                assert(gp >= gds.len());
            }
            if acc == 0 {
                proof {
                    assert(digits_val(gds) * pow10((gp - gds.len()) as nat) == 0) by (
                    nonlinear_arith)
                        requires
                            digits_val(gds) == 0,
                    ;
                    assert(gm == 0);
                }
                0
            } else {
                let k = p - dlen as i128;
                proof {
                    lemma_pow10_pos((gp - gds.len()) as nat);
                }
                if k >= 19 {
                    proof {
                        assert(gp - gds.len() >= 19);
                        lemma_pow10_mono(19, (gp - gds.len()) as nat);
                        assert(digits_val(gds) * pow10((gp - gds.len()) as nat) >= pow10(
                            (gp - gds.len()) as nat,
                        )) by (nonlinear_arith)
                            requires
                                digits_val(gds) >= 1,
                                pow10((gp - gds.len()) as nat) >= 0,
                        ;
                        assert(gm >= pow10(19));
                    }
                    DIGIT_SAT
                } else {
                    proof {
                        assert(p as int == gp);
                    }
                    let r = pow10_mul(acc, k as u64);
                    proof {
                        assert(r == gm);
                    }
                    if r > DIGIT_SAT {
                        DIGIT_SAT
                    } else {
                        r
                    }
                }
            }
        } else {
            proof {
                assert(p as int == gp);
                assert(0 < gp < gds.len());
                assert(is_digit(gds[gp]));
            }
            let bump: u128 = if ds[p as usize] >= '5' {
                1
            } else {
                0
            };
            acc + bump
        }
    };
    m
}

} // verus!
