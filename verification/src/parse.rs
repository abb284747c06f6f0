//! Fixed-point decimal parsing.
//!
//! Coordinates and elevations arrive as decimal strings. This library stores
//! them as scaled integers (nanodegrees, millimeters), so the parser here
//! reads an optionally signed decimal literal of the shape
//! `[+|-] digits [ "." digits ]` (at least one digit overall) and returns its
//! value multiplied by a power of ten, truncating any fractional digits
//! beyond the requested scale.

use vstd::prelude::*;

verus! {

/// `c` is an ASCII decimal digit.
pub open spec fn is_digit(c: char) -> bool {
    48 <= c as u32 <= 57
}

/// Numeric value of an ASCII digit.
pub open spec fn digit_val(c: char) -> int {
    c as u32 - 48
}

/// Every character of `s` is an ASCII digit.
pub open spec fn all_digits(s: Seq<char>) -> bool {
    forall|j: int| 0 <= j < s.len() ==> is_digit(#[trigger] s[j])
}

/// Value of a digit string read in base 10 (0 for the empty string).
pub open spec fn digits_val(s: Seq<char>) -> int
    decreases s.len(),
{
    if s.len() == 0 {
        0
    } else {
        digits_val(s.drop_last()) * 10 + digit_val(s.last())
    }
}

/// Ten to the `k`.
pub open spec fn pow10(k: nat) -> int
    decreases k,
{
    if k == 0 {
        1
    } else {
        10 * pow10((k - 1) as nat)
    }
}

/// Index of the first `'.'` in `s`, or `s.len()` if there is none.
pub open spec fn first_dot(s: Seq<char>) -> int
    decreases s.len(),
{
    if s.len() == 0 {
        0
    } else if s[0] == '.' {
        0
    } else {
        1 + first_dot(s.skip(1))
    }
}

/// The digits before the first dot.
pub open spec fn int_part(s: Seq<char>) -> Seq<char> {
    s.take(first_dot(s))
}

/// The digits after the first dot (empty if there is no dot).
pub open spec fn frac_part(s: Seq<char>) -> Seq<char> {
    if first_dot(s) < s.len() {
        s.skip(first_dot(s) + 1)
    } else {
        Seq::<char>::empty()
    }
}

/// `s` is an unsigned decimal literal: digits, then optionally a dot and
/// more digits, with at least one digit in all.
pub open spec fn mag_shape(s: Seq<char>) -> bool {
    &&& all_digits(int_part(s))
    &&& all_digits(frac_part(s))
    &&& int_part(s).len() + frac_part(s).len() >= 1
}

/// The first `k` fractional digits of `fr`, read as an integer and padded
/// with zeros on the right to exactly `k` places.
pub open spec fn frac_val(fr: Seq<char>, k: nat) -> int
    decreases k,
{
    if k == 0 {
        0
    } else if fr.len() == 0 {
        0
    } else {
        digit_val(fr[0]) * pow10((k - 1) as nat) + frac_val(fr.skip(1), (k - 1) as nat)
    }
}

/// Magnitude of the unsigned decimal literal `s`, scaled by ten to the `k`
/// (fractional digits beyond the `k`th are truncated).
pub open spec fn mag_val(s: Seq<char>, k: nat) -> int {
    digits_val(int_part(s)) * pow10(k) + frac_val(frac_part(s), k)
}

/// A leading `'-'` is present.
pub open spec fn sign_of(s: Seq<char>) -> bool {
    s.len() >= 1 && s[0] == '-'
}

/// `s` with a leading sign removed.
pub open spec fn body_of(s: Seq<char>) -> Seq<char> {
    if s.len() >= 1 && (s[0] == '-' || s[0] == '+') {
        s.skip(1)
    } else {
        s
    }
}

/// Signed value of the decimal literal `s` at scale `k`, or `None` if `s`
/// is not shaped like a decimal literal.
pub open spec fn scaled_of(s: Seq<char>, k: nat) -> Option<int> {
    if mag_shape(body_of(s)) {
        if sign_of(s) {
            Some(-mag_val(body_of(s), k))
        } else {
            Some(mag_val(body_of(s), k))
        }
    } else {
        None
    }
}

proof fn lemma_pow10_pos(k: nat)
    ensures
        pow10(k) >= 1,
    decreases k,
{
    if k > 0 {
        lemma_pow10_pos((k - 1) as nat);
    }
}

proof fn lemma_digits_val_nonneg(s: Seq<char>)
    requires
        all_digits(s),
    ensures
        digits_val(s) >= 0,
    decreases s.len(),
{
    if s.len() > 0 {
        assert(all_digits(s.drop_last()));
        lemma_digits_val_nonneg(s.drop_last());
    }
}

proof fn lemma_frac_val_nonneg(fr: Seq<char>, k: nat)
    requires
        all_digits(fr),
    ensures
        frac_val(fr, k) >= 0,
    decreases k,
{
    if k > 0 && fr.len() > 0 {
        assert(all_digits(fr.skip(1)));
        lemma_frac_val_nonneg(fr.skip(1), (k - 1) as nat);
        lemma_pow10_pos((k - 1) as nat);
    }
}

/// Extending a digit string by one digit multiplies its value by ten and
/// adds the digit.
proof fn lemma_digits_val_step(s: Seq<char>, j: int)
    requires
        0 <= j < s.len(),
    ensures
        digits_val(s.take(j + 1)) == digits_val(s.take(j)) * 10 + digit_val(s[j]),
{
    let t = s.take(j + 1);
    assert(t.drop_last() =~= s.take(j));
    assert(t.last() == s[j]);
}

/// If no dot occurs before `i` and either `i` is the end or a dot, then
/// `i` is the first dot position.
proof fn lemma_first_dot_at(s: Seq<char>, i: int)
    requires
        0 <= i <= s.len(),
        forall|j: int| 0 <= j < i ==> s[j] != '.',
        i == s.len() || s[i] == '.',
    ensures
        first_dot(s) == i,
    decreases i,
{
    if s.len() == 0 {
    } else if i == 0 {
    } else {
        assert(s[0] != '.');
        let t = s.skip(1);
        assert(forall|j: int| 0 <= j < i - 1 ==> t[j] == s[j + 1] && s[j + 1] != '.');
        assert(i - 1 == t.len() || t[i - 1] == '.');
        lemma_first_dot_at(t, i - 1);
    }
}

/// The first dot position is a valid split point.
proof fn lemma_first_dot_bounds(s: Seq<char>)
    ensures
        0 <= first_dot(s) <= s.len(),
    decreases s.len(),
{
    if s.len() > 0 && s[0] != '.' {
        lemma_first_dot_bounds(s.skip(1));
    }
}

/// If no dot occurs before `i`, the first dot is at `i` or later.
proof fn lemma_first_dot_ge(s: Seq<char>, i: int)
    requires
        0 <= i <= s.len(),
        forall|j: int| 0 <= j < i ==> s[j] != '.',
    ensures
        first_dot(s) >= i,
    decreases i,
{
    if s.len() == 0 || i == 0 {
        lemma_first_dot_bounds(s);
    } else {
        assert(s[0] != '.');
        let t = s.skip(1);
        assert(forall|j: int| 0 <= j < i - 1 ==> t[j] == s[j + 1] && s[j + 1] != '.');
        lemma_first_dot_ge(t, i - 1);
    }
}

/// A digit string's value only grows as digits are appended.
proof fn lemma_digits_val_prefix_le(s: Seq<char>, j: int)
    requires
        all_digits(s),
        0 <= j <= s.len(),
    ensures
        digits_val(s.take(j)) <= digits_val(s),
    decreases s.len() - j,
{
    if j < s.len() {
        lemma_digits_val_step(s, j);
        assert(all_digits(s.take(j))) by {
            assert(forall|m: int| 0 <= m < j ==> s.take(j)[m] == s[m]);
        }
        lemma_digits_val_nonneg(s.take(j));
        lemma_digits_val_prefix_le(s, j + 1);
        assert(digits_val(s.take(j)) * 10 >= digits_val(s.take(j))) by (nonlinear_arith)
            requires digits_val(s.take(j)) >= 0;
    } else {
        assert(s.take(j) =~= s);
    }
}

proof fn lemma_pow10_mono(a: nat, b: nat)
    requires
        a <= b,
    ensures
        pow10(a) <= pow10(b),
    decreases b,
{
    if a < b {
        lemma_pow10_mono(a, (b - 1) as nat);
        lemma_pow10_pos((b - 1) as nat);
    }
}

/// `c` is an ASCII decimal digit (runtime check mirroring `is_digit`).
fn digit_at(s: &str, i: usize) -> (b: bool)
    requires
        i < s@.len(),
    ensures
        b == is_digit(s@[i as int]),
{
    let c = s.get_char(i);
    (c as u32) >= 48 && (c as u32) <= 57
}

/// First index at or after `from` whose character is not a digit.
fn scan_digits(s: &str, from: usize, len: usize) -> (end: usize)
    requires
        from <= len,
        len == s@.len(),
    ensures
        from <= end <= len,
        forall|j: int| from <= j < end ==> is_digit(#[trigger] s@[j]),
        end < len ==> !is_digit(s@[end as int]),
{
    let mut i: usize = from;
    while i < len && digit_at(s, i)
        invariant
            from <= i <= len,
            len == s@.len(),
            forall|j: int| from <= j < i ==> is_digit(#[trigger] s@[j]),
        decreases len - i,
    {
        i = i + 1;
    }
    i
}

/// Reads the digits `s[from..to]` into an accumulator, reporting overflow
/// past `u64::MAX` exactly.
fn accum_digits(s: &str, from: usize, to: usize, acc0: u64, len: usize) -> (r: Option<u64>)
    requires
        from <= to <= len,
        len == s@.len(),
        forall|j: int| from <= j < to ==> is_digit(#[trigger] s@[j]),
    ensures
        ({
            let whole = acc0 * pow10((to - from) as nat) + digits_val(s@.subrange(
                from as int,
                to as int,
            ));
            match r {
                Some(acc) => acc == whole,
                None => whole > u64::MAX,
            }
        }),
{
    let ghost digs = s@.subrange(from as int, to as int);
    let ghost n = (to - from) as int;
    proof {
        assert(all_digits(digs));
    }
    let mut acc: u64 = acc0;
    let mut i: usize = from;
    while i < to
        invariant
            from <= i <= to <= len,
            len == s@.len(),
            forall|j: int| from <= j < to ==> is_digit(#[trigger] s@[j]),
            digs == s@.subrange(from as int, to as int),
            n == to - from,
            acc == acc0 * pow10((i - from) as nat) + digits_val(digs.take(i - from)),
        decreases to - i,
    {
        let ghost a = i - from;
        proof {
            lemma_digits_val_step(digs, a);
            assert(digs[a] == s@[i as int]);
            assert(all_digits(digs.take(a)));
            lemma_digits_val_nonneg(digs.take(a));
            // next = acc0 * pow10(a + 1) + digits_val(digs.take(a + 1))
            assert(acc * 10 == acc0 * pow10((a + 1) as nat) + digits_val(digs.take(a)) * 10)
                by (nonlinear_arith)
                requires
                    acc == acc0 * pow10(a as nat) + digits_val(digs.take(a)),
                    pow10((a + 1) as nat) == 10 * pow10(a as nat),
            ;
        }
        let c = s.get_char(i);
        let d: u64 = (c as u32 as u64) - 48;
        let step = match acc.checked_mul(10) {
            Some(t) => t.checked_add(d),
            None => None,
        };
        match step {
            Some(t) => {
                acc = t;
            }
            None => {
                proof {
                    let next = acc0 * pow10((a + 1) as nat) + digits_val(digs.take(a + 1));
                    assert(next > u64::MAX);
                    lemma_digits_val_prefix_le(digs, a + 1);
                    lemma_pow10_mono((a + 1) as nat, n as nat);
                    assert(acc0 * pow10(n as nat) >= acc0 * pow10((a + 1) as nat))
                        by (nonlinear_arith)
                        requires
                            acc0 >= 0,
                            pow10(n as nat) >= pow10((a + 1) as nat),
                    ;
                }
                return None;
            }
        }
        i = i + 1;
        proof {
            assert(digs.take(a + 1) =~= digs.take(a).push(digs[a]));
        }
    }
    proof {
        assert(digs.take(n) =~= digs);
    }
    Some(acc)
}

proof fn lemma_pow10_add(a: nat, b: nat)
    ensures
        pow10(a + b) == pow10(a) * pow10(b),
    decreases a,
{
    if a == 0 {
    } else {
        lemma_pow10_add((a - 1) as nat, b);
        assert(pow10(a + b) == 10 * pow10((a + b - 1) as nat));
        assert(10 * (pow10((a - 1) as nat) * pow10(b)) == (10 * pow10((a - 1) as nat)) * pow10(b))
            by (nonlinear_arith);
    }
}

/// A digit string's value, peeling the leading digit.
proof fn lemma_digits_val_cons(s: Seq<char>)
    requires
        s.len() > 0,
    ensures
        digits_val(s) == digit_val(s[0]) * pow10((s.len() - 1) as nat) + digits_val(s.skip(1)),
    decreases s.len(),
{
    if s.len() == 1 {
        assert(s.drop_last() =~= Seq::<char>::empty());
        assert(s.skip(1) =~= Seq::<char>::empty());
    } else {
        let t = s.drop_last();
        lemma_digits_val_cons(t);
        assert(t[0] == s[0]);
        assert(s.skip(1).drop_last() =~= t.skip(1));
        assert(s.skip(1).last() == s.last());
        let m = (s.len() - 2) as nat;
        assert(digits_val(s) == (digit_val(s[0]) * pow10(m) + digits_val(t.skip(1))) * 10
            + digit_val(s.last()));
        assert((digit_val(s[0]) * pow10(m) + digits_val(t.skip(1))) * 10 == digit_val(s[0]) * (10
            * pow10(m)) + digits_val(t.skip(1)) * 10) by (nonlinear_arith);
    }
}

/// The scaled fractional value is the first `min(k, len)` digits, shifted.
proof fn lemma_frac_val_as_digits(fr: Seq<char>, k: nat)
    ensures
        ({
            let ft = if k <= fr.len() {
                k as int
            } else {
                fr.len() as int
            };
            frac_val(fr, k) == digits_val(fr.take(ft)) * pow10((k - ft) as nat)
        }),
    decreases k,
{
    let ft = if k <= fr.len() {
        k as int
    } else {
        fr.len() as int
    };
    if k == 0 {
        assert(fr.take(0) =~= Seq::<char>::empty());
    } else if fr.len() == 0 {
        assert(fr.take(0) =~= Seq::<char>::empty());
        lemma_pow10_pos(k);
    } else {
        let tail = fr.skip(1);
        lemma_frac_val_as_digits(tail, (k - 1) as nat);
        let ft1 = ft - 1;
        assert(ft1 == if k - 1 <= tail.len() {
            k - 1
        } else {
            tail.len() as int
        });
        let head = fr.take(ft);
        assert(head.len() == ft);
        lemma_digits_val_cons(head);
        assert(head[0] == fr[0]);
        assert(head.skip(1) =~= tail.take(ft1));
        // frac_val(fr, k) == d0 * pow10(k-1) + digits_val(tail.take(ft1)) * pow10(k-ft)
        lemma_pow10_add((ft1) as nat, (k - ft) as nat);
        assert(digit_val(fr[0]) * pow10((k - 1) as nat) == (digit_val(fr[0]) * pow10(
            ft1 as nat,
        )) * pow10((k - ft) as nat)) by (nonlinear_arith)
            requires
                pow10((k - 1) as nat) == pow10(ft1 as nat) * pow10((k - ft) as nat),
        ;
        assert((digit_val(fr[0]) * pow10(ft1 as nat) + digits_val(tail.take(ft1))) * pow10(
            (k - ft) as nat,
        ) == (digit_val(fr[0]) * pow10(ft1 as nat)) * pow10((k - ft) as nat) + digits_val(
            tail.take(ft1),
        ) * pow10((k - ft) as nat)) by (nonlinear_arith);
    }
}

/// Parses an optionally signed decimal literal, returning its sign and its
/// magnitude scaled by ten to the `k`. Fractional digits beyond the `k`th
/// are truncated. `None` when the string is not a decimal literal or the
/// scaled magnitude exceeds `u64::MAX`.
#[verifier::rlimit(60)]
pub fn parse_scaled(s: &str, k: usize) -> (r: Option<(bool, u64)>)
    ensures
        match r {
            Some(p) => p.0 == sign_of(s@) && mag_shape(body_of(s@)) && p.1 == mag_val(
                body_of(s@),
                k as nat,
            ),
            None => !mag_shape(body_of(s@)) || mag_val(body_of(s@), k as nat) > u64::MAX,
        },
{
    let len = s.unicode_len();
    let mut start: usize = 0;
    let mut neg = false;
    if len > 0 {
        let c0 = s.get_char(0);
        if c0 == '-' {
            neg = true;
            start = 1;
        } else if c0 == '+' {
            start = 1;
        }
    }
    let ghost body = body_of(s@);
    proof {
        assert(body =~= s@.skip(start as int));
        assert(neg == sign_of(s@));
    }
    let int_end = scan_digits(s, start, len);
    let ghost ip = s@.subrange(start as int, int_end as int);
    if int_end == len {
        // No dot: the whole body must be digits.
        if int_end == start {
            proof {
                lemma_first_dot_at(body, 0);
                assert(int_part(body) =~= Seq::<char>::empty());
                assert(frac_part(body) =~= Seq::<char>::empty());
            }
            return None;
        }
        proof {
            lemma_first_dot_at(body, body.len() as int);
            assert(int_part(body) =~= ip);
            assert(frac_part(body) =~= Seq::<char>::empty());
            assert(mag_shape(body));
        }
        let acc = match accum_digits(s, start, int_end, 0, len) {
            Some(a) => a,
            None => {
                proof {
                    lemma_pow10_pos(k as nat);
                    assert(frac_val(frac_part(body), k as nat) == 0);
                    assert(digits_val(ip) * pow10(k as nat) >= digits_val(ip) * 1)
                        by (nonlinear_arith)
                        requires
                            digits_val(ip) > 0,
                            pow10(k as nat) >= 1,
                    ;
                }
                return None;
            }
        };
        match scale_up(acc, k) {
            Some(m) => {
                proof {
                    lemma_pow10_add(0, k as nat);
                }
                Some((neg, m))
            }
            None => {
                proof {
                    assert(mag_val(body, k as nat) == digits_val(ip) * pow10(k as nat));
                }
                None
            }
        }
    } else {
        let cdot = s.get_char(int_end);
        if cdot != '.' {
            proof {
                lemma_first_dot_bounds(body);
                lemma_first_dot_ge(body, int_end - start + 1);
                assert(body[int_end - start] == s@[int_end as int]);
                assert(int_part(body).len() > int_end - start);
                assert(int_part(body)[int_end - start] == body[int_end - start]);
                assert(!is_digit(int_part(body)[int_end - start]));
            }
            return None;
        }
        let fstart = int_end + 1;
        let frac_end = scan_digits(s, fstart, len);
        let ghost fd = int_end - start;
        proof {
            lemma_first_dot_at(body, fd);
            assert(int_part(body) =~= ip);
            assert(frac_part(body) =~= s@.subrange(fstart as int, len as int));
        }
        if frac_end < len {
            proof {
                assert(frac_part(body)[frac_end - fstart] == s@[frac_end as int]);
                assert(!is_digit(frac_part(body)[frac_end - fstart]));
            }
            return None;
        }
        if int_end == start && frac_end == fstart {
            proof {
                assert(int_part(body).len() + frac_part(body).len() == 0);
            }
            return None;
        }
        let ghost fp = s@.subrange(fstart as int, len as int);
        proof {
            assert(mag_shape(body));
        }
        let frac_len = len - fstart;
        let ft: usize = if k < frac_len {
            k
        } else {
            frac_len
        };
        proof {
            lemma_frac_val_as_digits(fp, k as nat);
            assert(fp.take(ft as int) =~= s@.subrange(fstart as int, (fstart + ft) as int));
        }
        let acc = match accum_digits(s, start, int_end, 0, len) {
            Some(a) => a,
            None => {
                proof {
                    lemma_pow10_pos(k as nat);
                    lemma_frac_val_nonneg(fp, k as nat);
                    assert(digits_val(ip) * pow10(k as nat) >= digits_val(ip) * 1)
                        by (nonlinear_arith)
                        requires
                            digits_val(ip) > 0,
                            pow10(k as nat) >= 1,
                    ;
                }
                return None;
            }
        };
        let acc2 = match accum_digits(s, fstart, fstart + ft, acc, len) {
            Some(a) => a,
            None => {
                proof {
                    assert(all_digits(fp.take(ft as int)));
                    lemma_digits_val_nonneg(fp.take(ft as int));
                    lemma_digits_val_nonneg(ip);
                    lemma_overflow_with_shift(
                        digits_val(ip),
                        digits_val(fp.take(ft as int)),
                        ft as nat,
                        k as nat,
                    );
                }
                return None;
            }
        };
        proof {
            assert(acc2 == digits_val(ip) * pow10(ft as nat) + digits_val(fp.take(ft as int)));
        }
        match scale_up(acc2, k - ft) {
            Some(m) => {
                proof {
                    lemma_mag_as_shifted(
                        digits_val(ip),
                        digits_val(fp.take(ft as int)),
                        ft as nat,
                        k as nat,
                    );
                    assert(m == mag_val(body, k as nat));
                }
                Some((neg, m))
            }
            None => {
                proof {
                    lemma_mag_as_shifted(
                        digits_val(ip),
                        digits_val(fp.take(ft as int)),
                        ft as nat,
                        k as nat,
                    );
                }
                None
            }
        }
    }
}

/// `(a * 10^ft + b) * 10^(k-ft)` regroups into the scaled magnitude form.
proof fn lemma_mag_as_shifted(a: int, b: int, ft: nat, k: nat)
    requires
        ft <= k,
    ensures
        (a * pow10(ft) + b) * pow10((k - ft) as nat) == a * pow10(k) + b * pow10((k - ft) as nat),
{
    lemma_pow10_add(ft, (k - ft) as nat);
    assert((a * pow10(ft) + b) * pow10((k - ft) as nat) == a * (pow10(ft) * pow10(
        (k - ft) as nat,
    )) + b * pow10((k - ft) as nat)) by (nonlinear_arith);
}

/// If the shifted head already overflows, the full magnitude does too.
proof fn lemma_overflow_with_shift(a: int, b: int, ft: nat, k: nat)
    requires
        ft <= k,
        a >= 0,
        b >= 0,
        a * pow10(ft) + b > u64::MAX,
    ensures
        a * pow10(k) + b * pow10((k - ft) as nat) > u64::MAX,
{
    lemma_mag_as_shifted(a, b, ft, k);
    lemma_pow10_pos(ft);
    lemma_pow10_pos((k - ft) as nat);
    assert((a * pow10(ft) + b) * pow10((k - ft) as nat) >= (a * pow10(ft) + b) * 1)
        by (nonlinear_arith)
        requires
            a * pow10(ft) + b > 0,
            pow10((k - ft) as nat) >= 1,
    ;
}

/// Multiplies by ten, `k` times, reporting overflow exactly.
fn scale_up(v: u64, k: usize) -> (r: Option<u64>)
    ensures
        match r {
            Some(m) => m == v * pow10(k as nat),
            None => v * pow10(k as nat) > u64::MAX,
        },
{
    let mut acc: u64 = v;
    let mut j: usize = 0;
    while j < k
        invariant
            0 <= j <= k,
            acc == v * pow10(j as nat),
        decreases k - j,
    {
        proof {
            assert(acc * 10 == v * pow10((j + 1) as nat)) by (nonlinear_arith)
                requires
                    acc == v * pow10(j as nat),
                    pow10((j + 1) as nat) == 10 * pow10(j as nat),
            ;
        }
        match acc.checked_mul(10) {
            Some(t) => {
                acc = t;
            }
            None => {
                proof {
                    lemma_pow10_mono((j + 1) as nat, k as nat);
                    assert(v * pow10(k as nat) >= v * pow10((j + 1) as nat)) by (nonlinear_arith)
                        requires
                            v >= 0,
                            pow10(k as nat) >= pow10((j + 1) as nat),
                    ;
                }
                return None;
            }
        }
        j = j + 1;
    }
    Some(acc)
}

} // verus!
