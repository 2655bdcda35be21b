use vstd::prelude::*;

verus! {

/// Number of native-currency subunits in one whole human unit.
pub const UNITS_PER_WHOLE: u64 = 1000000000;

/// A human-denominated decimal amount, held exactly as parsed from the
/// document: a sign, whole units, and a fraction already truncated toward
/// zero to subunit resolution.
#[derive(Debug, Clone, Copy, PartialEq, Eq, Structural)]
pub struct Price {
    pub negative: bool,
    pub units: u64,
    pub nanos: u32,
}

pub open spec fn price_wf(p: Price) -> bool {
    p.nanos < 1000000000
}

pub open spec fn spec_is_digit(c: char) -> bool {
    48 <= c as u32 && c as u32 <= 57
}

pub open spec fn spec_digit_val(c: char) -> nat {
    (c as u32 - 48) as nat
}

pub open spec fn all_digits(s: Seq<char>) -> bool {
    forall|i: int| 0 <= i < s.len() ==> spec_is_digit(#[trigger] s[i])
}

/// The value of a string of decimal digits, most significant first.
pub open spec fn dec_val(s: Seq<char>) -> nat
    decreases s.len(),
{
    if s.len() == 0 {
        0
    } else {
        dec_val(s.drop_last()) * 10 + spec_digit_val(s.last())
    }
}

pub open spec fn pow10(n: nat) -> nat
    decreases n,
{
    if n == 0 {
        1
    } else {
        10 * pow10((n - 1) as nat)
    }
}

/// The index of the first `'.'` in `s`, or `s.len()` if there is none.
pub open spec fn first_dot(s: Seq<char>) -> int
    decreases s.len(),
{
    if s.len() == 0 {
        0
    } else if s[0] == '.' {
        0
    } else {
        1 + first_dot(s.drop_first())
    }
}

proof fn lemma_first_dot_is(s: Seq<char>, i: int)
    requires
        0 <= i <= s.len(),
        forall|j: int| 0 <= j < i ==> s[j] != '.',
        i < s.len() ==> s[i] == '.',
    ensures
        first_dot(s) == i,
    decreases i,
{
    if s.len() == 0 {
    } else if i == 0 {
    } else {
        assert(s[0] != '.');
        assert(forall|j: int| 0 <= j < i - 1 ==> s.drop_first()[j] == s[j + 1]);
        lemma_first_dot_is(s.drop_first(), i - 1);
    }
}

proof fn lemma_dec_val_bound(s: Seq<char>)
    requires
        all_digits(s),
    ensures
        dec_val(s) < pow10(s.len() as nat),
    decreases s.len(),
{
    if s.len() == 0 {
    } else {
        assert(all_digits(s.drop_last()));
        lemma_dec_val_bound(s.drop_last());
        assert(spec_digit_val(s.last()) <= 9);
        assert(dec_val(s.drop_last()) * 10 + 9 < pow10(s.len() as nat)) by {
            assert(pow10(s.len() as nat) == 10 * pow10((s.len() - 1) as nat));
            assert(dec_val(s.drop_last()) <= pow10((s.len() - 1) as nat) - 1);
            assert(dec_val(s.drop_last()) * 10 <= (pow10((s.len() - 1) as nat) - 1) * 10) by (nonlinear_arith)
                requires
                    dec_val(s.drop_last()) <= pow10((s.len() - 1) as nat) - 1,
            ;
        }
    }
}

pub open spec fn sat_u64(v: nat) -> u64 {
    if v > u64::MAX {
        u64::MAX
    } else {
        v as u64
    }
}

/// The fraction digits scaled to exactly nine places: truncated toward zero
/// past the ninth digit, padded with zeros when shorter.
pub open spec fn frac_nanos(fp: Seq<char>) -> nat {
    if fp.len() >= 9 {
        dec_val(fp.take(9))
    } else {
        dec_val(fp + Seq::new((9 - fp.len()) as nat, |i: int| '0'))
    }
}

/// The meaning of a decimal amount string: an optional leading `'-'`, one or
/// more digits, then optionally a `'.'` and one or more digits.  Whole units
/// saturate at the largest representable count; the fraction is truncated
/// toward zero at subunit resolution.
pub open spec fn spec_parse_price(s: Seq<char>) -> Option<Price> {
    let neg = s.len() > 0 && s[0] == '-';
    let body = if neg {
        s.drop_first()
    } else {
        s
    };
    let d = first_dot(body);
    let ip = body.take(d);
    if !(ip.len() >= 1 && all_digits(ip)) {
        None
    } else if d == body.len() {
        Some(Price { negative: neg, units: sat_u64(dec_val(ip)), nanos: 0 })
    } else {
        let fp = body.skip(d + 1);
        if !(fp.len() >= 1 && all_digits(fp)) {
            None
        } else {
            Some(
                Price {
                    negative: neg,
                    units: sat_u64(dec_val(ip)),
                    nanos: frac_nanos(fp) as u32,
                },
            )
        }
    }
}

/// The subunit count a price translates to: negative amounts clamp to zero
/// and amounts past the largest representable count saturate, exactly as a
/// truncating cast of the product would behave.
pub open spec fn spec_subunits(p: Price) -> u64 {
    if p.negative {
        0
    } else {
        sat_u64((p.units * 1000000000 + p.nanos) as nat)
    }
}

pub(crate) fn is_digit_char(c: char) -> (r: bool)
    ensures
        r == spec_is_digit(c),
{
    let v: u32 = c as u32;
    48 <= v && v <= 57
}

pub(crate) fn digit_of(c: char) -> (r: u64)
    requires
        spec_is_digit(c),
    ensures
        r == spec_digit_val(c),
        r <= 9,
{
    let v: u32 = c as u32;
    (v - 48) as u64
}

/// Parses a decimal amount string into a `Price`; absence means the string is
/// not a plain signed decimal number.
#[verifier::loop_isolation(false)]
#[verifier::rlimit(100)]
pub fn parse_price(s: &str) -> (r: Option<Price>)
    ensures
        r == spec_parse_price(s@),
        r is Some ==> price_wf(r->0),
{
    let n: usize = s.unicode_len();
    let neg: bool = n > 0 && s.get_char(0) == '-';
    let start: usize = if neg {
        1
    } else {
        0
    };
    let ghost body = if neg {
        s@.drop_first()
    } else {
        s@
    };
    assert(body.len() == n - start);
    assert(forall|j: int| 0 <= j < body.len() ==> body[j] == s@[j + start]);

    // Find the first dot at or after `start`.
    let mut dot: usize = n;
    let mut found: bool = false;
    let mut i: usize = start;
    while i < n
        invariant
            start <= i <= n,
            !found ==> dot == n && forall|j: int| start <= j < i ==> s@[j] != '.',
            found ==> start <= dot < i && s@[dot as int] == '.' && forall|j: int|
                start <= j < dot ==> s@[j] != '.',
        decreases n - i,
    {
        if !found {
            if s.get_char(i) == '.' {
                dot = i;
                found = true;
            }
        }
        i = i + 1;
    }
    proof {
        if dot < n {
            assert(forall|j: int| 0 <= j < dot - start ==> body[j] != '.');
            assert(body[dot - start] == '.');
            lemma_first_dot_is(body, dot - start);
        } else {
            assert(forall|j: int| 0 <= j < body.len() ==> body[j] != '.');
            lemma_first_dot_is(body, body.len() as int);
        }
    }
    let ghost ip = body.take(first_dot(body));
    assert(ip.len() == dot - start);
    assert(forall|j: int| 0 <= j < ip.len() ==> ip[j] == s@[j + start]);

    if dot == start {
        // empty integer part
        assert(ip.len() == 0);
        return None;
    }

    // Integer part: validate digits and accumulate, saturating.
    let mut units: u64 = 0;
    let mut k: usize = start;
    while k < dot
        invariant
            start <= k <= dot <= n,
            n == s@.len(),
            ip.len() == dot - start,
            forall|j: int| 0 <= j < ip.len() ==> ip[j] == s@[j + start],
            all_digits(ip.take(k - start)),
            units == sat_u64(dec_val(ip.take(k - start))),
        decreases dot - k,
    {
        let c = s.get_char(k);
        assert(c == ip[k - start]);
        if !is_digit_char(c) {
            assert(!spec_is_digit(ip[k - start]));
            assert(!all_digits(ip));
            return None;
        }
        let d: u64 = digit_of(c);
        let ghost prev = dec_val(ip.take(k - start));
        assert(ip.take(k + 1 - start).drop_last() =~= ip.take(k - start));
        assert(ip.take(k + 1 - start).last() == ip[k - start]);
        assert(dec_val(ip.take(k + 1 - start)) == prev * 10 + d);
        let stepped: Option<u64> = match units.checked_mul(10) {
            Some(m) => m.checked_add(d),
            None => None,
        };
        match stepped {
            Some(v) => {
                proof {
                    if prev > u64::MAX {
                        assert(units == u64::MAX);
                        assert(false);
                    }
                }
                units = v;
            },
            None => {
                proof {
                    if prev * 10 + d <= u64::MAX {
                        assert(units == prev);
                        assert(units * 10 + d <= u64::MAX);
                        assert(false);
                    }
                }
                units = u64::MAX;
            },
        }
        assert(all_digits(ip.take(k + 1 - start))) by {
            assert(forall|j: int|
                0 <= j < k + 1 - start ==> ip.take(k + 1 - start)[j] == ip[j]);
        }
        k = k + 1;
    }
    assert(ip.take(dot - start) =~= ip);
    assert(units == sat_u64(dec_val(ip)));
    assert(ip.len() >= 1 && all_digits(ip));

    if dot == n {
        assert(first_dot(body) == body.len());
        return Some(Price { negative: neg, units, nanos: 0 });
    }

    // Fraction part: validate digits; the first nine carry value.
    let ghost fp = body.skip(first_dot(body) + 1);
    assert(fp.len() == n - dot - 1);
    assert(forall|j: int| 0 <= j < fp.len() ==> fp[j] == s@[j + dot + 1]);
    if dot + 1 == n {
        assert(fp.len() == 0);
        return None;
    }
    let mut nanos: u64 = 0;
    let mut count: usize = 0;
    let mut k2: usize = dot + 1;
    while k2 < n
        invariant
            dot + 1 <= k2 <= n,
            n == s@.len(),
            fp.len() == n - dot - 1,
            forall|j: int| 0 <= j < fp.len() ==> fp[j] == s@[j + dot + 1],
            all_digits(fp.take(k2 - dot - 1)),
            count == if k2 - dot - 1 >= 9 {
                9int
            } else {
                k2 - dot - 1
            },
            nanos == dec_val(fp.take(count as int)),
            nanos < pow10(count as nat),
            count <= 9,
        decreases n - k2,
    {
        let c = s.get_char(k2);
        assert(c == fp[k2 - dot - 1]);
        if !is_digit_char(c) {
            assert(!all_digits(fp));
            return None;
        }
        let d: u64 = digit_of(c);
        proof {
            assert(fp.take(k2 - dot).drop_last() =~= fp.take(k2 - dot - 1));
            assert(all_digits(fp.take(k2 - dot))) by {
                assert(forall|j: int|
                    0 <= j < k2 - dot ==> fp.take(k2 - dot)[j] == fp[j]);
            }
        }
        if count < 9 {
            assert(nanos < pow10(count as nat));
            assert(pow10((count + 1) as nat) == 10 * pow10(count as nat));
            assert(nanos * 10 + d < pow10((count + 1) as nat)) by (nonlinear_arith)
                requires
                    nanos < pow10(count as nat),
                    d <= 9,
                    pow10((count + 1) as nat) == 10 * pow10(count as nat),
            ;
            proof {
                lemma_pow10_9();
                lemma_pow10_le(count as nat + 1, 9);
            }
            nanos = nanos * 10 + d;
            count = count + 1;
            assert(fp.take(count as int).drop_last() =~= fp.take(count as int - 1));
            assert(nanos == dec_val(fp.take(count as int)));
        }
        k2 = k2 + 1;
    }
    assert(fp.take(fp.len() as int) =~= fp);
    assert(fp.len() >= 1 && all_digits(fp));

    // Scale to exactly nine places.
    let missing: usize = 9 - count;
    proof {
        assert(pow10(0) == 1);
    }
    let mut scaled: u64 = nanos;
    let mut m: usize = 0;
    while m < missing
        invariant
            m <= missing,
            missing == 9 - count,
            count <= 9,
            scaled == dec_val(fp.take(count as int)) * pow10(m as nat),
            scaled < pow10((count + m) as nat),
            nanos == dec_val(fp.take(count as int)),
        decreases missing - m,
    {
        proof {
            assert(pow10((count + m + 1) as nat) == 10 * pow10((count + m) as nat));
            assert(scaled * 10 < pow10((count + m + 1) as nat)) by (nonlinear_arith)
                requires
                    scaled < pow10((count + m) as nat),
                    pow10((count + m + 1) as nat) == 10 * pow10((count + m) as nat),
            ;
            lemma_pow10_9();
            lemma_pow10_le((count + m + 1) as nat, 9);
            assert(dec_val(fp.take(count as int)) * pow10(m as nat) * 10 == dec_val(
                fp.take(count as int),
            ) * pow10((m + 1) as nat)) by (nonlinear_arith)
                requires
                    pow10((m + 1) as nat) == 10 * pow10(m as nat),
            ;
        }
        scaled = scaled * 10;
        m = m + 1;
    }
    proof {
        lemma_pow10_9();
        lemma_frac_scaled(fp, count as nat);
    }
    assert(scaled == frac_nanos(fp));
    assert(scaled < 1000000000);
    Some(Price { negative: neg, units, nanos: scaled as u32 })
}

proof fn lemma_pow10_9()
    ensures
        pow10(9) == 1000000000,
{
    reveal_with_fuel(pow10, 10);
}

proof fn lemma_pow10_le(a: nat, b: nat)
    requires
        a <= b,
    ensures
        pow10(a) <= pow10(b),
    decreases b,
{
    if a < b {
        lemma_pow10_le(a, (b - 1) as nat);
        assert(pow10(b) == 10 * pow10((b - 1) as nat));
        assert(pow10((b - 1) as nat) >= 1) by {
            lemma_pow10_pos((b - 1) as nat);
        }
    }
}

proof fn lemma_pow10_pos(n: nat)
    ensures
        pow10(n) >= 1,
    decreases n,
{
    if n > 0 {
        lemma_pow10_pos((n - 1) as nat);
    }
}

/// Appending a zero digit multiplies a decimal string's value by ten; so
/// padding the fraction to nine places multiplies by the missing power.
proof fn lemma_frac_scaled(fp: Seq<char>, count: nat)
    requires
        count == if fp.len() >= 9 {
            9nat
        } else {
            fp.len() as nat
        },
    ensures
        frac_nanos(fp) == dec_val(fp.take(count as int)) * pow10((9 - count) as nat),
    decreases 9 - count,
{
    if fp.len() >= 9 {
        assert(count == 9);
        assert((9 - count) as nat == 0nat);
        assert(pow10(0) == 1);
        assert(frac_nanos(fp) == dec_val(fp.take(9)));
        assert(dec_val(fp.take(9)) * pow10(0) == dec_val(fp.take(9)));
    } else {
        lemma_pad_val(fp, (9 - fp.len()) as nat);
        assert(fp.take(count as int) =~= fp);
    }
}

/// `dec_val` of a digit string extended with `k` zero digits is the value
/// times ten to the `k`.
proof fn lemma_pad_val(s: Seq<char>, k: nat)
    ensures
        dec_val(s + Seq::new(k, |i: int| '0')) == dec_val(s) * pow10(k),
    decreases k,
{
    if k == 0 {
        assert(pow10(0) == 1);
        assert(s + Seq::new(k, |i: int| '0') =~= s);
    } else {
        let shorter = s + Seq::new((k - 1) as nat, |i: int| '0');
        let full = s + Seq::new(k, |i: int| '0');
        assert(full.drop_last() =~= shorter);
        assert(full.last() == '0');
        assert(spec_digit_val('0') == 0);
        lemma_pad_val(s, (k - 1) as nat);
        assert(dec_val(full) == dec_val(shorter) * 10);
        assert(dec_val(s) * pow10((k - 1) as nat) * 10 == dec_val(s) * pow10(k)) by (nonlinear_arith)
            requires
                pow10(k) == 10 * pow10((k - 1) as nat),
        ;
    }
}

/// Translates a price into native-currency subunits: the whole units times
/// `UNITS_PER_WHOLE` plus the fraction, truncating toward zero, clamping
/// negative amounts to zero and saturating at the largest subunit count.
pub fn price_as_lamports(price: &Price) -> (r: u64)
    requires
        price_wf(*price),
    ensures
        r == spec_subunits(*price),
{
    if price.negative {
        return 0;
    }
    match price.units.checked_mul(UNITS_PER_WHOLE) {
        Some(base) => match base.checked_add(price.nanos as u64) {
            Some(total) => total,
            None => u64::MAX,
        },
        None => u64::MAX,
    }
}

/// Translates an optional discount price with the same unit-conversion rule
/// as a required price.
pub fn discount_price_to_lamports(discount_price: &Option<Price>) -> (r: Option<u64>)
    requires
        match *discount_price {
            Some(p) => price_wf(p),
            None => true,
        },
    ensures
        r == match *discount_price {
            Some(p) => Some(spec_subunits(p)),
            None => None::<u64>,
        },
{
    match discount_price {
        Some(p) => Some(price_as_lamports(p)),
        None => None,
    }
}

} // verus!
