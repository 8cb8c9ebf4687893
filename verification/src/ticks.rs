//! Fixed-point representation of times and signal samples.
//!
//! One unit of the source data (a second, a milli-g, a degree) is
//! [`TICK_SCALE`] ticks, so six decimal places are carried exactly and all
//! pipeline arithmetic stays in `i64`.

use vstd::prelude::*;

verus! {

/// Number of ticks in one unit of the source data.
pub const TICK_SCALE: i64 = 1_000_000;

/// Largest magnitude a tick value may take. Keeping values inside this
/// bound means a difference or a doubled value still fits in `i64`.
pub const TICK_LIMIT: i64 = 0x2000_0000_0000_0000;

/// Largest integer part [`parse_decimal`] accepts (so that the scaled
/// value stays inside [`TICK_LIMIT`]).
pub const MAX_WHOLE: i64 = 2_000_000_000_000;

/// A tick value the pipeline may hold.
pub open spec fn valid_tick(t: int) -> bool {
    -0x2000_0000_0000_0000 <= t <= 0x2000_0000_0000_0000
}

/// Whether `c` is a decimal digit.
pub open spec fn spec_is_digit(c: char) -> bool {
    48 <= c as u32 <= 57
}

/// Numeric value of a digit character.
pub open spec fn spec_digit(c: char) -> int {
    c as u32 - 48
}

/// Whether every character of `s` is a decimal digit.
pub open spec fn spec_all_digits(s: Seq<char>) -> bool {
    forall|i: int| 0 <= i < s.len() ==> spec_is_digit(#[trigger] s[i])
}

/// The number denoted by a digit string, most significant digit first.
pub open spec fn spec_digits_val(s: Seq<char>) -> int
    decreases s.len(),
{
    if s.len() == 0 {
        0
    } else {
        spec_digits_val(s.drop_last()) * 10 + spec_digit(s.last())
    }
}

/// Ten to the `n`.
pub open spec fn spec_pow10(n: nat) -> int
    decreases n,
{
    if n == 0 {
        1
    } else {
        10 * spec_pow10((n - 1) as nat)
    }
}

/// Powers of ten multiply by adding exponents.
pub proof fn lemma_pow10_add(a: nat, b: nat)
    ensures
        spec_pow10(a) * spec_pow10(b) == spec_pow10(a + b),
    decreases a,
{
    if a > 0 {
        lemma_pow10_add((a - 1) as nat, b);
        assert(spec_pow10(a) * spec_pow10(b) == 10 * (spec_pow10((a - 1) as nat) * spec_pow10(b)))
            by (nonlinear_arith)
            requires
                spec_pow10(a) == 10 * spec_pow10((a - 1) as nat),
        ;
    }
}

pub proof fn lemma_digits_val_nonneg(s: Seq<char>)
    requires
        spec_all_digits(s),
    ensures
        spec_digits_val(s) >= 0,
    decreases s.len(),
{
    if s.len() > 0 {
        assert(spec_all_digits(s.drop_last()));
        lemma_digits_val_nonneg(s.drop_last());
    }
}

/// Appending a digit multiplies the value by ten and adds the digit.
pub proof fn lemma_digits_val_push(s: Seq<char>, c: char)
    ensures
        spec_digits_val(s.push(c)) == spec_digits_val(s) * 10 + spec_digit(c),
{
    assert(s.push(c).drop_last() =~= s);
    assert(s.push(c).last() == c);
}

/// The value of a digit prefix never exceeds the value of the whole string.
pub proof fn lemma_digits_val_prefix_le(s: Seq<char>, n: int)
    requires
        spec_all_digits(s),
        0 <= n <= s.len(),
    ensures
        spec_digits_val(s.take(n)) <= spec_digits_val(s),
    decreases s.len() - n,
{
    if n < s.len() {
        lemma_digits_val_prefix_le(s, n + 1);
        let p = s.take(n);
        let q = s.take(n + 1);
        assert(q.drop_last() =~= p);
        assert(q.last() == s[n]);
        lemma_digits_val_nonneg(p);
        assert(spec_digits_val(q) == spec_digits_val(p) * 10 + spec_digit(s[n]));
        assert(spec_digit(s[n]) >= 0);
        assert(spec_digits_val(p) <= spec_digits_val(p) * 10 + spec_digit(s[n])) by {
            assert(spec_digits_val(p) * 10 >= spec_digits_val(p)) by (nonlinear_arith)
                requires
                    spec_digits_val(p) >= 0,
            ;
        }
    } else {
        assert(s.take(n) =~= s);
    }
}

/// Reads the digit run `s[from..to]`, failing on a non-digit or when the
/// value would exceed `bound`.
pub fn parse_digits_bounded(s: &str, from: usize, to: usize, bound: i64) -> (r: Option<i64>)
    requires
        from <= to <= s@.len(),
        0 <= bound,
    ensures
        match r {
            Some(v) => {
                &&& spec_all_digits(s@.subrange(from as int, to as int))
                &&& v == spec_digits_val(s@.subrange(from as int, to as int))
                &&& 0 <= v <= bound
            },
            None => !spec_all_digits(s@.subrange(from as int, to as int))
                || spec_digits_val(s@.subrange(from as int, to as int)) > bound,
        },
{
    let whole = Ghost(s@.subrange(from as int, to as int));
    let mut acc: i64 = 0;
    let mut i: usize = from;
    while i < to
        invariant
            from <= i <= to <= s@.len(),
            0 <= bound,
            whole@ == s@.subrange(from as int, to as int),
            spec_all_digits(whole@.take(i - from)),
            acc == spec_digits_val(whole@.take(i - from)),
            0 <= acc <= bound,
        decreases to - i,
    {
        let c = s.get_char(i);
        proof {
            assert(whole@[i - from] == s@[i as int]);
        }
        let u = c as u32;
        if u < 48 || u > 57 {
            proof {
                assert(!spec_is_digit(whole@[i - from]));
            }
            return None;
        }
        let d = (u - 48) as i64;
        let next: i128 = acc as i128 * 10 + d as i128;
        proof {
            lemma_digits_val_push(whole@.take(i - from), whole@[i - from]);
            assert(whole@.take(i - from).push(whole@[i - from]) =~= whole@.take(i - from + 1));
        }
        if next > bound as i128 {
            proof {
                assert(spec_all_digits(whole@.take(i - from + 1)));
                if spec_all_digits(whole@) {
                    lemma_digits_val_prefix_le(whole@, i - from + 1);
                }
            }
            return None;
        }
        acc = next as i64;
        i = i + 1;
    }
    proof {
        assert(whole@.take(whole@.len() as int) =~= whole@);
    }
    Some(acc)
}

/// A digit string denotes less than ten to its length.
pub proof fn lemma_digits_val_upper(s: Seq<char>)
    requires
        spec_all_digits(s),
    ensures
        spec_digits_val(s) < spec_pow10(s.len()),
    decreases s.len(),
{
    if s.len() > 0 {
        assert(spec_all_digits(s.drop_last()));
        lemma_digits_val_upper(s.drop_last());
        assert(spec_digit(s.last()) <= 9);
        assert(spec_digits_val(s.drop_last()) * 10 + 9 < spec_pow10(s.len())) by (nonlinear_arith)
            requires
                spec_digits_val(s.drop_last()) < spec_pow10((s.len() - 1) as nat),
                spec_pow10(s.len()) == 10 * spec_pow10((s.len() - 1) as nat),
        ;
    }
}

/// The tick value of a fraction-digit run: its first six digits, scaled
/// so that a full six digits count once each.
pub open spec fn spec_frac_ticks(fp: Seq<char>) -> int {
    let k = if fp.len() <= 6 {
        fp.len() as int
    } else {
        6
    };
    spec_digits_val(fp.take(k)) * spec_pow10((6 - k) as nat)
}

/// The tick value an unsigned decimal string denotes, if it is one the
/// parser accepts: digits with at most one point, at least one digit,
/// whole part at most [`MAX_WHOLE`]. Fraction digits past the sixth are
/// ignored.
pub open spec fn spec_parse_unsigned(s: Seq<char>) -> Option<int> {
    match crate::strutil::spec_find(s, '.') {
        None => if s.len() > 0 && spec_all_digits(s) && spec_digits_val(s) <= MAX_WHOLE {
            Some(spec_digits_val(s) * 1_000_000)
        } else {
            None
        },
        Some(p) => {
            let ip = s.take(p);
            let fp = s.skip(p + 1);
            if ip.len() + fp.len() > 0 && spec_all_digits(ip) && spec_all_digits(fp)
                && spec_digits_val(ip) <= MAX_WHOLE {
                Some(spec_digits_val(ip) * 1_000_000 + spec_frac_ticks(fp))
            } else {
                None
            }
        },
    }
}

/// The tick value a decimal string denotes: an optional sign followed
/// by an unsigned decimal.
pub open spec fn spec_parse_decimal(s: Seq<char>) -> Option<int> {
    if s.len() > 0 && s[0] == '-' {
        match spec_parse_unsigned(s.skip(1)) {
            Some(v) => Some(-v),
            None => None,
        }
    } else if s.len() > 0 && s[0] == '+' {
        spec_parse_unsigned(s.skip(1))
    } else {
        spec_parse_unsigned(s)
    }
}

/// Checks that `s[from..to]` holds digits only.
fn all_digits_in(s: &str, from: usize, to: usize) -> (r: bool)
    requires
        from <= to <= s@.len(),
    ensures
        r == spec_all_digits(s@.subrange(from as int, to as int)),
{
    let mut i: usize = from;
    while i < to
        invariant
            from <= i <= to <= s@.len(),
            spec_all_digits(s@.subrange(from as int, i as int)),
        decreases to - i,
    {
        let u = s.get_char(i) as u32;
        if u < 48 || u > 57 {
            proof {
                assert(s@.subrange(from as int, to as int)[i - from] == s@[i as int]);
            }
            return false;
        }
        proof {
            assert forall|k: int| 0 <= k < i + 1 - from implies spec_is_digit(
                #[trigger] s@.subrange(from as int, i + 1)[k],
            ) by {
                assert(s@.subrange(from as int, i + 1)[k] == s@[k + from]);
                if k < i - from {
                    assert(s@.subrange(from as int, i as int)[k] == s@[k + from]);
                }
            }
        }
        i = i + 1;
    }
    true
}

/// Ten to the `n`, for `n` at most six.
fn pow10_small(n: usize) -> (r: i64)
    requires
        n <= 6,
    ensures
        r == spec_pow10(n as nat),
{
    proof {
        reveal_with_fuel(spec_pow10, 7);
    }
    match n {
        0 => 1,
        1 => 10,
        2 => 100,
        3 => 1000,
        4 => 10000,
        5 => 100000,
        _ => 1000000,
    }
}

/// Reads an unsigned decimal from `s[from..]`, per
/// [`spec_parse_unsigned`].
fn parse_unsigned(s: &str, from: usize) -> (r: Option<i64>)
    requires
        from <= s@.len(),
    ensures
        match r {
            Some(v) => spec_parse_unsigned(s@.skip(from as int)) == Some(v as int),
            None => spec_parse_unsigned(s@.skip(from as int)) == Option::<int>::None,
        },
{
    let body = Ghost(s@.skip(from as int));
    let n = s.unicode_len();
    match crate::strutil::find_char(s, from, '.') {
        None => {
            if from == n {
                return None;
            }
            proof {
                assert(body@.len() == n - from);
                assert(s@.subrange(from as int, n as int) =~= body@);
            }
            match parse_digits_bounded(s, from, n, MAX_WHOLE) {
                Some(v) => {
                    proof {
                        assert(v * 1_000_000 <= 2_000_000_000_000i64 * 1_000_000)
                            by (nonlinear_arith)
                            requires
                                0 <= v <= 2_000_000_000_000i64,
                        ;
                        lemma_digits_val_nonneg(body@);
                    }
                    Some(v * 1_000_000)
                },
                None => None,
            }
        },
        Some(p) => {
            proof {
                assert(body@.take(p - from) =~= s@.subrange(from as int, p as int));
                assert(body@.skip(p - from + 1) =~= s@.subrange(p + 1, n as int));
            }
            if p == from && p + 1 == n {
                return None;
            }
            let ip = match parse_digits_bounded(s, from, p, MAX_WHOLE) {
                Some(v) => v,
                None => {
                    return None;
                },
            };
            let fstart = p + 1;
            let k = if n - fstart <= 6 {
                n - fstart
            } else {
                6
            };
            if !all_digits_in(s, fstart, n) {
                return None;
            }
            proof {
                let fp = s@.subrange(p + 1, n as int);
                assert(fp.take(k as int) =~= s@.subrange(fstart as int, (fstart + k) as int));
                assert(spec_all_digits(fp.take(k as int))) by {
                    assert forall|m: int| 0 <= m < k implies spec_is_digit(
                        #[trigger] fp.take(k as int)[m],
                    ) by {
                        assert(fp.take(k as int)[m] == fp[m]);
                    }
                }
                lemma_digits_val_upper(fp.take(k as int));
                assert(spec_pow10(k as nat) <= 1_000_000) by {
                    reveal_with_fuel(spec_pow10, 7);
                }
            }
            let fval = match parse_digits_bounded(s, fstart, fstart + k, 999_999) {
                Some(v) => v,
                None => {
                    proof {
                        let fp = s@.subrange(p + 1, n as int);
                        let sub = s@.subrange(fstart as int, (fstart + k) as int);
                        assert(sub =~= fp.take(k as int));
                        assert(spec_digits_val(sub) < spec_pow10(k as nat));
                        assert(spec_pow10(k as nat) <= 1_000_000);
                        assert(false);
                    }
                    return None;
                },
            };
            let scale = pow10_small(6 - k);
            proof {
                let fp = s@.subrange(p + 1, n as int);
                assert(spec_frac_ticks(fp) == fval * spec_pow10((6 - k) as nat));
                lemma_pow10_add(k as nat, (6 - k) as nat);
                assert(spec_pow10(6) == 1000000) by {
                    reveal_with_fuel(spec_pow10, 7);
                }
                assert(1 <= spec_pow10((6 - k) as nat)) by {
                    reveal_with_fuel(spec_pow10, 7);
                }
                assert(0 <= fval * scale < 1_000_000) by (nonlinear_arith)
                    requires
                        0 <= fval,
                        1 <= scale,
                        fval < spec_pow10((k) as nat),
                        scale == spec_pow10((6 - k) as nat),
                        spec_pow10(k as nat) * spec_pow10((6 - k) as nat) == 1_000_000,
                ;
                assert(ip * 1_000_000 <= 2_000_000_000_000i64 * 1_000_000) by (nonlinear_arith)
                    requires
                        0 <= ip <= 2_000_000_000_000i64,
                ;
            }
            Some(ip * 1_000_000 + fval * scale)
        },
    }
}

/// Reads a signed decimal string into ticks, exactly when
/// [`spec_parse_decimal`] accepts it. Every accepted value is a tick
/// value the pipeline may hold.
pub fn parse_decimal(s: &str) -> (r: Option<i64>)
    ensures
        match r {
            Some(v) => spec_parse_decimal(s@) == Some(v as int) && valid_tick(v as int),
            None => spec_parse_decimal(s@) == Option::<int>::None,
        },
{
    let n = s.unicode_len();
    if n == 0 {
        proof {
            assert(s@.skip(0) =~= s@);
        }
        return None;
    }
    let c0 = s.get_char(0);
    if c0 == '-' {
        let r0 = parse_unsigned(s, 1);
        proof {
            lemma_parse_unsigned_bounds(s@.skip(1));
        }
        match r0 {
            Some(v) => Some(-v),
            None => None,
        }
    } else if c0 == '+' {
        let r0 = parse_unsigned(s, 1);
        proof {
            lemma_parse_unsigned_bounds(s@.skip(1));
        }
        r0
    } else {
        proof {
            assert(s@.skip(0) =~= s@);
        }
        let r0 = parse_unsigned(s, 0);
        proof {
            lemma_parse_unsigned_bounds(s@);
        }
        r0
    }
}

/// The character of one decimal digit.
pub open spec fn spec_digit_char(d: int) -> char {
    ((d + 48) as u8) as char
}

/// The decimal digits of a non-negative number, most significant first.
pub open spec fn spec_dec_digits(n: int) -> Seq<char>
    decreases n,
{
    if n <= 9 {
        seq![spec_digit_char(n)]
    } else {
        spec_dec_digits(n / 10).push(spec_digit_char(n % 10))
    }
}

/// How many trailing decimal zeros a positive number carries.
pub open spec fn spec_trailing_zeros(f: int) -> int
    decreases f,
{
    if f <= 0 {
        0
    } else if f % 10 == 0 {
        1 + spec_trailing_zeros(f / 10)
    } else {
        0
    }
}

/// The decimal rendering of a tick value: optional minus sign, the whole
/// units, and, when the fractional part is not zero, a point and the
/// fraction digits with trailing zeros trimmed — as a plain decimal
/// reading of the source number would have written it.
pub open spec fn spec_format_tick(t: int) -> Seq<char> {
    let a = if t < 0 {
        -t
    } else {
        t
    };
    let whole = a / 1_000_000;
    let frac = a % 1_000_000;
    let sign: Seq<char> = if t < 0 {
        seq!['-']
    } else {
        Seq::empty()
    };
    if frac == 0 {
        sign + spec_dec_digits(whole)
    } else {
        sign + spec_dec_digits(whole) + seq!['.'] + Seq::new(
            (6 - spec_trailing_zeros(frac)) as nat,
            |i: int| spec_digit_char(frac / spec_pow10((5 - i) as nat) % 10),
        )
    }
}

/// The one-character string of a digit.
fn digit_str(d: u64) -> (r: &'static str)
    requires
        d <= 9,
    ensures
        r@ =~= seq![spec_digit_char(d as int)],
{
    proof {
        reveal_strlit("0");
        reveal_strlit("1");
        reveal_strlit("2");
        reveal_strlit("3");
        reveal_strlit("4");
        reveal_strlit("5");
        reveal_strlit("6");
        reveal_strlit("7");
        reveal_strlit("8");
        reveal_strlit("9");
    }
    match d {
        0 => "0",
        1 => "1",
        2 => "2",
        3 => "3",
        4 => "4",
        5 => "5",
        6 => "6",
        7 => "7",
        8 => "8",
        _ => "9",
    }
}

/// Appends the decimal digits of `n` to `out`.
fn push_digits(n: u64, out: &mut String)
    ensures
        final (out)@ == old(out)@ + spec_dec_digits(n as int),
    decreases n,
{
    if n <= 9 {
        out.append(digit_str(n));
    } else {
        push_digits(n / 10, out);
        let d = digit_str(n % 10);
        proof {
            assert((old(out)@ + spec_dec_digits(n as int / 10)) + seq![
                spec_digit_char(n as int % 10),
            ] =~= old(out)@ + spec_dec_digits(n as int));
        }
        out.append(d);
    }
}

/// Renders a tick value as a decimal string, per [`spec_format_tick`].
pub fn format_tick(t: i64) -> (r: String)
    requires
        valid_tick(t as int),
    ensures
        r@ == spec_format_tick(t as int),
{
    let neg = t < 0;
    let a: i64 = if neg {
        -t
    } else {
        t
    };
    let whole = a / 1_000_000;
    let frac = a % 1_000_000;
    let mut out = String::new();
    if neg {
        proof {
            reveal_strlit("-");
        }
        out.append("-");
        proof {
            assert(out@ =~= seq!['-']);
        }
    }
    push_digits(whole as u64, &mut out);
    if frac > 0 {
        proof {
            reveal_strlit(".");
        }
        out.append(".");
        let pre = Ghost(out@);
        let mut tz: usize = 0;
        let mut f = frac;
        while f % 10 == 0
            invariant
                1 <= f,
                f * spec_pow10(tz as nat) == frac,
                spec_trailing_zeros(frac as int) == tz + spec_trailing_zeros(f as int),
                tz <= 5,
                0 < frac <= 999_999,
            decreases f,
        {
            proof {
                assert(spec_pow10((tz + 1) as nat) == 10 * spec_pow10(tz as nat));
                assert((f / 10) * spec_pow10((tz + 1) as nat) == frac) by (nonlinear_arith)
                    requires
                        f % 10 == 0,
                        f >= 1,
                        f * spec_pow10(tz as nat) == frac,
                        spec_pow10((tz + 1) as nat) == 10 * spec_pow10(tz as nat),
                ;
                if tz == 5 {
                    assert(spec_pow10(5) == 100_000) by {
                        reveal_with_fuel(spec_pow10, 7);
                    }
                    assert(f >= 10);
                    assert(f * 100_000 >= 10 * 100_000) by (nonlinear_arith)
                        requires
                            f >= 10,
                    ;
                    assert(false);
                }
            }
            f = f / 10;
            tz = tz + 1;
        }
        let count = 6 - tz;
        let mut i: usize = 0;
        while i < count
            invariant
                count == 6 - spec_trailing_zeros(frac as int),
                1 <= count <= 6,
                0 < frac <= 999_999,
                i <= count,
                out@ == pre@ + Seq::new(
                    i as nat,
                    |m: int| spec_digit_char(frac as int / spec_pow10((5 - m) as nat) % 10),
                ),
            decreases count - i,
        {
            let p = pow10_small(5 - i);
            proof {
                lemma_pow10_pos((5 - i) as nat);
            }
            let d = (frac / p) % 10;
            let ds = digit_str(d as u64);
            proof {
                assert(pre@ + Seq::new(
                    i as nat,
                    |m: int| spec_digit_char(frac as int / spec_pow10((5 - m) as nat) % 10),
                ) + seq![spec_digit_char(frac as int / spec_pow10((5 - i) as nat) % 10)] =~= pre@
                    + Seq::new(
                    (i + 1) as nat,
                    |m: int| spec_digit_char(frac as int / spec_pow10((5 - m) as nat) % 10),
                ));
            }
            out.append(ds);
            i = i + 1;
        }
    }
    proof {
        assert(out@ =~= spec_format_tick(t as int));
    }
    out
}

/// The decimal digits of a non-negative number are digit characters,
/// never a space.
pub proof fn lemma_dec_digits_no_space(n: int)
    requires
        n >= 0,
    ensures
        forall|k: int|
            0 <= k < spec_dec_digits(n).len() ==> #[trigger] spec_dec_digits(n)[k] != ' ',
    decreases n,
{
    if n <= 9 {
        assert(spec_dec_digits(n)[0] == spec_digit_char(n));
        assert(spec_digit_char(n) as u32 == n + 48);
        assert(' ' as u32 == 32);
    } else {
        lemma_dec_digits_no_space(n / 10);
        let whole = spec_dec_digits(n);
        assert forall|k: int| 0 <= k < whole.len() implies #[trigger] whole[k] != ' ' by {
            if k < spec_dec_digits(n / 10).len() {
                assert(whole[k] == spec_dec_digits(n / 10)[k]);
            } else {
                assert(whole[k] == spec_digit_char(n % 10));
                assert(spec_digit_char(n % 10) as u32 == n % 10 + 48);
                assert(' ' as u32 == 32);
            }
        }
    }
}

/// A rendered tick value never contains a space.
pub proof fn lemma_format_tick_no_space(t: int)
    ensures
        forall|k: int|
            0 <= k < spec_format_tick(t).len() ==> #[trigger] spec_format_tick(t)[k] != ' ',
{
    let a = if t < 0 {
        -t
    } else {
        t
    };
    let whole = a / 1_000_000;
    let frac = a % 1_000_000;
    lemma_dec_digits_no_space(whole);
    assert(' ' as u32 == 32);
    assert('-' as u32 == 45);
    assert('.' as u32 == 46);
    let fr = Seq::new(
        (6 - spec_trailing_zeros(frac)) as nat,
        |i: int| spec_digit_char(frac / spec_pow10((5 - i) as nat) % 10),
    );
    assert forall|k: int| 0 <= k < fr.len() implies #[trigger] fr[k] != ' ' by {
        lemma_pow10_pos((5 - k) as nat);
        assert(fr[k] == spec_digit_char(frac / spec_pow10((5 - k) as nat) % 10));
        assert(0 <= frac / spec_pow10((5 - k) as nat) % 10 < 10);
        assert(spec_digit_char(frac / spec_pow10((5 - k) as nat) % 10) as u32 == frac / spec_pow10(
            (5 - k) as nat,
        ) % 10 + 48);
    }
    let sign: Seq<char> = if t < 0 {
        seq!['-']
    } else {
        Seq::empty()
    };
    assert forall|k: int| 0 <= k < spec_format_tick(t).len() implies #[trigger] spec_format_tick(
        t,
    )[k] != ' ' by {
        if frac == 0 {
            let s = sign + spec_dec_digits(whole);
            if k < sign.len() {
                assert(s[k] == '-');
            } else {
                assert(s[k] == spec_dec_digits(whole)[k - sign.len()]);
            }
        } else {
            let s = sign + spec_dec_digits(whole) + seq!['.'] + fr;
            if k < sign.len() {
                assert(s[k] == '-');
            } else if k < sign.len() + spec_dec_digits(whole).len() {
                assert(s[k] == spec_dec_digits(whole)[k - sign.len()]);
            } else if k == sign.len() + spec_dec_digits(whole).len() {
                assert(s[k] == '.');
            } else {
                assert(s[k] == fr[k - sign.len() - spec_dec_digits(whole).len() - 1]);
            }
        }
    }
}

/// Powers of ten are positive.
pub proof fn lemma_pow10_pos(n: nat)
    ensures
        spec_pow10(n) >= 1,
    decreases n,
{
    if n > 0 {
        lemma_pow10_pos((n - 1) as nat);
    }
}

/// Reads an unsigned 32-bit integer: digits only, at least one.
pub fn parse_u32(s: &str) -> (r: Option<u32>)
    ensures
        match r {
            Some(v) => s@.len() > 0 && spec_all_digits(s@) && v == spec_digits_val(s@),
            None => s@.len() == 0 || !spec_all_digits(s@) || spec_digits_val(s@) > u32::MAX,
        },
{
    let n = s.unicode_len();
    if n == 0 {
        return None;
    }
    proof {
        assert(s@.subrange(0, s@.len() as int) =~= s@);
    }
    match parse_digits_bounded(s, 0, n, 0xFFFF_FFFF) {
        Some(v) => Some(v as u32),
        None => None,
    }
}

/// Every value the unsigned parser accepts is non-negative and within
/// the tick bound.
proof fn lemma_parse_unsigned_bounds(s: Seq<char>)
    ensures
        match spec_parse_unsigned(s) {
            Some(v) => 0 <= v <= 2_000_000_000_000_999_999,
            None => true,
        },
{
    match crate::strutil::spec_find(s, '.') {
        None => {
            if s.len() > 0 && spec_all_digits(s) && spec_digits_val(s) <= MAX_WHOLE {
                lemma_digits_val_nonneg(s);
                assert(0 <= spec_digits_val(s) * 1_000_000 <= 2_000_000_000_000i64 * 1_000_000)
                    by (nonlinear_arith)
                    requires
                        0 <= spec_digits_val(s) <= 2_000_000_000_000i64,
                ;
            }
        },
        Some(p) => {
            crate::strutil::lemma_find_props(s, '.');
            let ip = s.take(p);
            let fp = s.skip(p + 1);
            if ip.len() + fp.len() > 0 && spec_all_digits(ip) && spec_all_digits(fp)
                && spec_digits_val(ip) <= MAX_WHOLE {
                lemma_digits_val_nonneg(ip);
                let k = if fp.len() <= 6 {
                    fp.len() as int
                } else {
                    6
                };
                assert(spec_all_digits(fp.take(k))) by {
                    assert forall|m: int| 0 <= m < k implies spec_is_digit(
                        #[trigger] fp.take(k)[m],
                    ) by {
                        assert(fp.take(k)[m] == fp[m]);
                    }
                }
                lemma_digits_val_nonneg(fp.take(k));
                lemma_digits_val_upper(fp.take(k));
                lemma_pow10_add(k as nat, (6 - k) as nat);
                assert(spec_pow10(6) == 1000000) by {
                    reveal_with_fuel(spec_pow10, 7);
                }
                assert(spec_pow10((6 - k) as nat) >= 1) by {
                    reveal_with_fuel(spec_pow10, 7);
                }
                assert(0 <= spec_frac_ticks(fp) < 1_000_000) by (nonlinear_arith)
                    requires
                        0 <= spec_digits_val(fp.take(k)),
                        spec_digits_val(fp.take(k)) < spec_pow10(k as nat),
                        spec_frac_ticks(fp) == spec_digits_val(fp.take(k)) * spec_pow10(
                            (6 - k) as nat,
                        ),
                        spec_pow10(k as nat) * spec_pow10((6 - k) as nat) == 1_000_000,
                        spec_pow10((6 - k) as nat) >= 1,
                ;
                assert(0 <= spec_digits_val(ip) * 1_000_000 <= 2_000_000_000_000i64 * 1_000_000)
                    by (nonlinear_arith)
                    requires
                        0 <= spec_digits_val(ip) <= 2_000_000_000_000i64,
                ;
            }
        },
    }
}

} // verus!

