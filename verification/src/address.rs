use vstd::prelude::*;

use crate::error::ConfigError;

verus! {

/// A fixed-width binary account identifier: exactly 32 bytes, big-endian in
/// the text encoding.
#[derive(Debug, Clone, PartialEq, Eq)]
pub struct Address {
    pub bytes: Vec<u8>,
}

pub open spec fn address_wf(a: Address) -> bool {
    a.bytes@.len() == 32
}

pub open spec fn pow256(n: nat) -> nat
    decreases n,
{
    if n == 0 {
        1
    } else {
        256 * pow256((n - 1) as nat)
    }
}

/// The number a big-endian byte string stands for.
pub open spec fn be_val(s: Seq<u8>) -> nat
    decreases s.len(),
{
    if s.len() == 0 {
        0
    } else {
        (be_val(s.drop_last()) * 256 + s.last()) as nat
    }
}

/// The big-endian byte string of width `n` that stands for `v`.
pub open spec fn bytes_be(v: nat, n: nat) -> Seq<u8>
    decreases n,
{
    if n == 0 {
        Seq::empty()
    } else {
        bytes_be(v / 256, (n - 1) as nat).push((v % 256) as u8)
    }
}

/// The value of the digit a character stands for in the base-58 alphabet,
/// or a negative sentinel for a character outside the alphabet.
pub open spec fn b58_digit(c: char) -> int {
    let u = c as u32;
    if 49 <= u <= 57 {
        u - 49
    } else if 65 <= u <= 72 {
        u - 65 + 9
    } else if 74 <= u <= 78 {
        u - 74 + 17
    } else if 80 <= u <= 90 {
        u - 80 + 22
    } else if 97 <= u <= 107 {
        u - 97 + 33
    } else if 109 <= u <= 122 {
        u - 109 + 44
    } else {
        -1
    }
}

/// The alphabet character that stands for digit `d`.
pub open spec fn b58_char(d: int) -> char {
    if 0 <= d <= 8 {
        ((49 + d) as u8) as char
    } else if 9 <= d <= 16 {
        ((56 + d) as u8) as char
    } else if 17 <= d <= 21 {
        ((57 + d) as u8) as char
    } else if 22 <= d <= 32 {
        ((58 + d) as u8) as char
    } else if 33 <= d <= 43 {
        ((64 + d) as u8) as char
    } else if 44 <= d <= 57 {
        ((65 + d) as u8) as char
    } else {
        ' '
    }
}

pub open spec fn valid_b58(s: Seq<char>) -> bool {
    forall|i: int| 0 <= i < s.len() ==> b58_digit(#[trigger] s[i]) >= 0
}

/// The number a base-58 digit string stands for; characters outside the
/// alphabet count as zero, so the value is meaningful under `valid_b58`.
pub open spec fn str_val(s: Seq<char>) -> nat
    decreases s.len(),
{
    if s.len() == 0 {
        0
    } else {
        (str_val(s.drop_last()) * 58 + (if b58_digit(s.last()) >= 0 {
            b58_digit(s.last())
        } else {
            0
        })) as nat
    }
}

pub open spec fn lead_ones(s: Seq<char>) -> nat
    decreases s.len(),
{
    if s.len() == 0 || s[0] != '1' {
        0
    } else {
        1 + lead_ones(s.drop_first())
    }
}

pub open spec fn lead_zero_bytes(s: Seq<u8>) -> nat
    decreases s.len(),
{
    if s.len() == 0 || s[0] != 0 {
        0
    } else {
        1 + lead_zero_bytes(s.drop_first())
    }
}

/// The base-58 digits of `v`, most significant first, with no leading zero
/// digit.
pub open spec fn digits58(v: nat) -> Seq<u8>
    decreases v,
{
    if v == 0 {
        Seq::empty()
    } else {
        digits58(v / 58).push((v % 58) as u8)
    }
}

/// The text encoding of a fixed-width binary address: one `'1'` per leading
/// zero byte, then the base-58 digits of the value.
pub open spec fn spec_encode(b: Seq<u8>) -> Seq<char> {
    Seq::new(lead_zero_bytes(b), |i: int| '1') + digits58(be_val(b)).map(
        |i: int, d: u8| b58_char(d as int),
    )
}

/// What a candidate address string decodes to: absent unless every character
/// is in the alphabet, the value fits in 32 bytes, and the leading `'1'`
/// count matches the leading zero bytes, so that the decoded byte string is
/// exactly 32 bytes wide.
pub open spec fn spec_decode(s: Seq<char>) -> Option<Seq<u8>> {
    if !valid_b58(s) {
        None
    } else if str_val(s) >= pow256(32) {
        None
    } else if lead_ones(s) != lead_zero_bytes(bytes_be(str_val(s), 32)) {
        None
    } else {
        Some(bytes_be(str_val(s), 32))
    }
}

proof fn lemma_pow256_pos(n: nat)
    ensures
        pow256(n) >= 1,
    decreases n,
{
    if n > 0 {
        lemma_pow256_pos((n - 1) as nat);
    }
}

proof fn lemma_be_val_bound(s: Seq<u8>)
    ensures
        be_val(s) < pow256(s.len() as nat),
    decreases s.len(),
{
    if s.len() == 0 {
    } else {
        lemma_be_val_bound(s.drop_last());
        assert(pow256(s.len() as nat) == 256 * pow256((s.len() - 1) as nat));
        assert(be_val(s.drop_last()) * 256 <= (pow256((s.len() - 1) as nat) - 1) * 256)
            by (nonlinear_arith)
            requires
                be_val(s.drop_last()) <= pow256((s.len() - 1) as nat) - 1,
        ;
    }
}

/// Splitting off the most significant byte of a big-endian string.
proof fn lemma_be_val_front(s: Seq<u8>)
    requires
        s.len() > 0,
    ensures
        be_val(s) == s[0] * pow256((s.len() - 1) as nat) + be_val(s.drop_first()),
    decreases s.len(),
{
    if s.len() == 1 {
        assert(s.drop_last() =~= Seq::empty());
        assert(s.drop_first() =~= Seq::empty());
        assert(pow256(0) == 1);
        assert(be_val(s) == s.last());
    } else {
        let dl = s.drop_last();
        lemma_be_val_front(dl);
        assert(dl[0] == s[0]);
        assert(dl.drop_first() =~= s.drop_first().drop_last());
        assert(s.drop_first().last() == s.last());
        assert(be_val(s) == be_val(dl) * 256 + s.last());
        assert(be_val(s.drop_first()) == be_val(dl.drop_first()) * 256 + s.last());
        assert(pow256((s.len() - 1) as nat) == 256 * pow256((s.len() - 2) as nat));
        assert(be_val(dl) * 256 == s[0] * pow256((s.len() - 1) as nat) + be_val(dl.drop_first())
            * 256) by (nonlinear_arith)
            requires
                be_val(dl) == s[0] * pow256((s.len() - 2) as nat) + be_val(dl.drop_first()),
                pow256((s.len() - 1) as nat) == 256 * pow256((s.len() - 2) as nat),
        ;
    }
}

proof fn lemma_bytes_be_props(v: nat, n: nat)
    ensures
        bytes_be(v, n).len() == n,
        v < pow256(n) ==> be_val(bytes_be(v, n)) == v,
    decreases n,
{
    if n == 0 {
    } else {
        lemma_bytes_be_props(v / 256, (n - 1) as nat);
        let b = bytes_be(v, n);
        assert(b.drop_last() =~= bytes_be(v / 256, (n - 1) as nat));
        assert(b.last() == (v % 256) as u8);
        if v < pow256(n) {
            assert(pow256(n) == 256 * pow256((n - 1) as nat));
            assert(v / 256 < pow256((n - 1) as nat)) by (nonlinear_arith)
                requires
                    v < 256 * pow256((n - 1) as nat),
            ;
            assert(be_val(b) == (v / 256) * 256 + v % 256);
            assert((v / 256) * 256 + v % 256 == v) by (nonlinear_arith);
        }
    }
}

proof fn lemma_be_val_injective(x: Seq<u8>, y: Seq<u8>)
    requires
        x.len() == y.len(),
        be_val(x) == be_val(y),
    ensures
        x =~= y,
    decreases x.len(),
{
    if x.len() == 0 {
    } else {
        assert(be_val(x) == be_val(x.drop_last()) * 256 + x.last());
        assert(be_val(y) == be_val(y.drop_last()) * 256 + y.last());
        assert(x.last() == y.last() && be_val(x.drop_last()) == be_val(y.drop_last()))
            by (nonlinear_arith)
            requires
                be_val(x.drop_last()) * 256 + x.last() == be_val(y.drop_last()) * 256 + y.last(),
                x.last() < 256,
                y.last() < 256,
        ;
        lemma_be_val_injective(x.drop_last(), y.drop_last());
        assert(forall|i: int|
            0 <= i < x.len() - 1 ==> x[i] == x.drop_last()[i] && y[i] == y.drop_last()[i]);
    }
}

proof fn lemma_str_val_take_le(s: Seq<char>, j: int)
    requires
        0 <= j <= s.len(),
    ensures
        str_val(s.take(j)) <= str_val(s),
    decreases s.len() - j,
{
    if j == s.len() {
        assert(s.take(j) =~= s);
    } else {
        assert(s.take(j + 1).drop_last() =~= s.take(j));
        assert(str_val(s.take(j)) * 58 >= str_val(s.take(j))) by (nonlinear_arith);
        lemma_str_val_take_le(s, j + 1);
    }
}

proof fn lemma_lead_ones_at(s: Seq<char>, k: int)
    requires
        0 <= k <= s.len(),
        forall|j: int| 0 <= j < k ==> s[j] == '1',
        k < s.len() ==> s[k] != '1',
    ensures
        lead_ones(s) == k,
    decreases k,
{
    if s.len() == 0 {
    } else if k == 0 {
    } else {
        assert(forall|j: int| 0 <= j < k - 1 ==> s.drop_first()[j] == s[j + 1]);
        lemma_lead_ones_at(s.drop_first(), k - 1);
    }
}

proof fn lemma_lead_zero_bytes_at(s: Seq<u8>, k: int)
    requires
        0 <= k <= s.len(),
        forall|j: int| 0 <= j < k ==> s[j] == 0,
        k < s.len() ==> s[k] != 0,
    ensures
        lead_zero_bytes(s) == k,
    decreases k,
{
    if s.len() == 0 {
    } else if k == 0 {
    } else {
        assert(forall|j: int| 0 <= j < k - 1 ==> s.drop_first()[j] == s[j + 1]);
        lemma_lead_zero_bytes_at(s.drop_first(), k - 1);
    }
}

fn b58_digit_of(c: char) -> (r: i32)
    ensures
        r == b58_digit(c),
{
    let u: u32 = c as u32;
    if 49 <= u && u <= 57 {
        (u - 49) as i32
    } else if 65 <= u && u <= 72 {
        (u - 65 + 9) as i32
    } else if 74 <= u && u <= 78 {
        (u - 74 + 17) as i32
    } else if 80 <= u && u <= 90 {
        (u - 80 + 22) as i32
    } else if 97 <= u && u <= 107 {
        (u - 97 + 33) as i32
    } else if 109 <= u && u <= 122 {
        (u - 109 + 44) as i32
    } else {
        -1
    }
}

/// Multiplies a 32-byte big-endian accumulator by 58 and adds a digit in
/// place; the returned carry is zero exactly when the new value still fits.
#[verifier::loop_isolation(false)]
#[verifier::rlimit(100)]
fn mul_add_58(bytes: &mut Vec<u8>, d: u8) -> (carry: u8)
    requires
        old(bytes)@.len() == 32,
        d < 58,
    ensures
        final(bytes)@.len() == 32,
        be_val(final(bytes)@) + carry * pow256(32) == 58 * be_val(old(bytes)@) + d,
        carry <= 58,
{
    let mut carry: u32 = d as u32;
    let mut i: usize = 32;
    proof {
        assert(bytes@.subrange(32, 32) =~= Seq::empty());
        assert(old(bytes)@.subrange(32, 32) =~= Seq::empty());
        assert(pow256(0) == 1);
        assert((d as nat) * pow256(0) == d) by (nonlinear_arith)
            requires
                pow256(0) == 1,
        ;
    }
    while i > 0
        invariant
            i <= 32,
            bytes@.len() == 32,
            carry <= 58,
            forall|t: int| 0 <= t < i ==> bytes@[t] == old(bytes)@[t],
            be_val(bytes@.subrange(i as int, 32)) + carry * pow256((32 - i) as nat) == 58
                * be_val(old(bytes)@.subrange(i as int, 32)) + d,
        decreases i,
    {
        let ghost pre = bytes@;
        let ghost c0 = carry as nat;
        i = i - 1;
        let t: u32 = bytes[i] as u32 * 58 + carry;
        let q: u8 = (t % 256) as u8;
        bytes[i] = q;
        carry = t / 256;
        proof {
            let li = i as int;
            assert(t == 58 * pre[li] + c0);
            assert(t == 256 * (carry as nat) + q);
            assert(carry <= 58) by {
                assert(t <= 58 * 255 + 58);
            }
            let ptail = pow256((31 - li) as nat);
            assert(pow256((32 - li) as nat) == 256 * ptail);
            // Old side: split the most significant byte off the suffix.
            let osub = old(bytes)@.subrange(li, 32);
            lemma_be_val_front(osub);
            assert(osub.drop_first() =~= old(bytes)@.subrange(li + 1, 32));
            assert(osub[0] == old(bytes)@[li]);
            assert(old(bytes)@[li] == pre[li]);
            // New side likewise.
            let nsub = bytes@.subrange(li, 32);
            lemma_be_val_front(nsub);
            assert(nsub.drop_first() =~= bytes@.subrange(li + 1, 32));
            assert(bytes@.subrange(li + 1, 32) =~= pre.subrange(li + 1, 32));
            assert(nsub[0] == q);
            let ohead = be_val(osub);
            let otail = be_val(old(bytes)@.subrange(li + 1, 32));
            let nhead = be_val(nsub);
            let ntail = be_val(pre.subrange(li + 1, 32));
            let hb = pre[li] as nat;
            let c1 = carry as nat;
            let qn = q as nat;
            let big = pow256((32 - li) as nat);
            assert(nhead + c1 * big == 58 * ohead + d) by (nonlinear_arith)
                requires
                    nhead == qn * ptail + ntail,
                    ohead == hb * ptail + otail,
                    ntail + c0 * ptail == 58 * otail + d,
                    58 * hb + c0 == 256 * c1 + qn,
                    big == 256 * ptail,
            ;
        }
    }
    proof {
        assert(bytes@.subrange(0, 32) =~= bytes@);
        assert(old(bytes)@.subrange(0, 32) =~= old(bytes)@);
    }
    (carry) as u8
}

/// Decodes a base-58 address string; fails unless the decoded byte string is
/// exactly the protocol's fixed 32-byte width.
#[verifier::loop_isolation(false)]
#[verifier::rlimit(100)]
pub fn parse_address(s: &str) -> (r: Result<Address, ConfigError>)
    ensures
        match r {
            Ok(a) => address_wf(a) && spec_decode(s@) == Some(a.bytes@),
            Err(e) => spec_decode(s@) is None && match e {
                ConfigError::InvalidAddress(m) => m@ == s@,
                _ => false,
            },
        },
{
    let n: usize = s.unicode_len();

    // Count the leading `'1'` characters.
    let mut ones: usize = 0;
    while ones < n && s.get_char(ones) == '1'
        invariant
            ones <= n,
            forall|j: int| 0 <= j < ones ==> s@[j] == '1',
        decreases n - ones,
    {
        ones = ones + 1;
    }
    proof {
        lemma_lead_ones_at(s@, ones as int);
    }

    // Accumulate the value, one digit at a time.
    let mut bytes: Vec<u8> = Vec::new();
    let mut z: usize = 0;
    while z < 32
        invariant
            bytes@.len() == z,
            z <= 32,
            forall|t: int| 0 <= t < z ==> bytes@[t] == 0,
        decreases 32 - z,
    {
        bytes.push(0);
        z = z + 1;
    }
    proof {
        lemma_be_val_zero_seq(bytes@);
        assert(s@.take(0) =~= Seq::<char>::empty());
    }
    let mut j: usize = 0;
    while j < n
        invariant
            j <= n,
            n == s@.len(),
            bytes@.len() == 32,
            forall|t: int| 0 <= t < j ==> b58_digit(#[trigger] s@[t]) >= 0,
            be_val(bytes@) == str_val(s@.take(j as int)),
        decreases n - j,
    {
        let c = s.get_char(j);
        let dv: i32 = b58_digit_of(c);
        if dv < 0 {
            assert(!valid_b58(s@));
            return Err(ConfigError::InvalidAddress(String::from_str(s)));
        }
        let ghost prev = bytes@;
        let carry: u8 = mul_add_58(&mut bytes, dv as u8);
        proof {
            assert(s@.take(j + 1).drop_last() =~= s@.take(j as int));
            assert(s@.take(j + 1).last() == s@[j as int]);
            assert(str_val(s@.take(j + 1)) == str_val(s@.take(j as int)) * 58 + b58_digit(
                s@[j as int],
            ));
        }
        if carry != 0 {
            proof {
                lemma_pow256_pos(32);
                assert(carry as nat * pow256(32) >= pow256(32)) by (nonlinear_arith)
                    requires
                        carry >= 1,
                        pow256(32) >= 1,
                ;
                assert(str_val(s@.take(j + 1)) >= pow256(32));
                lemma_str_val_take_le(s@, j + 1);
                assert(str_val(s@) >= pow256(32));
            }
            return Err(ConfigError::InvalidAddress(String::from_str(s)));
        }
        j = j + 1;
    }
    proof {
        assert(s@.take(n as int) =~= s@);
        lemma_be_val_bound(bytes@);
        lemma_bytes_be_props(str_val(s@), 32);
        lemma_be_val_injective(bytes@, bytes_be(str_val(s@), 32));
    }

    // The decoded width is right exactly when the leading `'1'` count matches
    // the accumulator's leading zero bytes.
    let mut zeros: usize = 0;
    while zeros < 32 && bytes[zeros] == 0
        invariant
            zeros <= 32,
            bytes@.len() == 32,
            forall|j2: int| 0 <= j2 < zeros ==> bytes@[j2] == 0,
        decreases 32 - zeros,
    {
        zeros = zeros + 1;
    }
    proof {
        lemma_lead_zero_bytes_at(bytes@, zeros as int);
    }
    if ones != zeros {
        return Err(ConfigError::InvalidAddress(String::from_str(s)));
    }
    Ok(Address { bytes })
}

proof fn lemma_be_val_zero_seq(s: Seq<u8>)
    requires
        forall|t: int| 0 <= t < s.len() ==> s[t] == 0,
    ensures
        be_val(s) == 0,
    decreases s.len(),
{
    if s.len() > 0 {
        lemma_be_val_zero_seq(s.drop_last());
    }
}

/// Attempts the same decode as `parse_address`, but treats any failure as
/// absence rather than an error: the deliberate leniency for optional
/// address fields.
pub fn parse_optional_address(s: &str) -> (r: Option<Address>)
    ensures
        match r {
            Some(a) => address_wf(a) && spec_decode(s@) == Some(a.bytes@),
            None => spec_decode(s@) is None,
        },
{
    match parse_address(s) {
        Ok(a) => Some(a),
        Err(_) => None,
    }
}


/// Divides a 32-byte big-endian accumulator by 58 in place and returns the
/// remainder digit.
#[verifier::loop_isolation(false)]
#[verifier::rlimit(100)]
fn div_58(w: &mut Vec<u8>) -> (rem: u8)
    requires
        old(w)@.len() == 32,
    ensures
        final(w)@.len() == 32,
        be_val(old(w)@) == be_val(final(w)@) * 58 + rem,
        rem < 58,
{
    let mut rem: u32 = 0;
    let mut i: usize = 0;
    proof {
        assert(w@.take(0) =~= Seq::<u8>::empty());
        assert(old(w)@.take(0) =~= Seq::<u8>::empty());
    }
    while i < 32
        invariant
            i <= 32,
            w@.len() == 32,
            rem < 58,
            forall|t: int| i <= t < 32 ==> w@[t] == old(w)@[t],
            be_val(old(w)@.take(i as int)) == be_val(w@.take(i as int)) * 58 + rem,
        decreases 32 - i,
    {
        let ghost pre = w@;
        let ghost rem0 = rem as nat;
        let cur: u32 = rem * 256 + w[i] as u32;
        let q: u32 = cur / 58;
        rem = cur % 58;
        w[i] = q as u8;
        proof {
            let li = i as int;
            assert(cur == rem0 * 256 + old(w)@[li]);
            assert(cur == 58 * q + rem);
            assert(q < 256) by {
                assert(cur <= 57 * 256 + 255);
            }
            assert(old(w)@.take(li + 1).drop_last() =~= old(w)@.take(li));
            assert(old(w)@.take(li + 1).last() == old(w)@[li]);
            assert(w@.take(li + 1).drop_last() =~= pre.take(li));
            assert(w@.take(li + 1).last() == q as u8);
            let a = be_val(old(w)@.take(li));
            let bnew = be_val(pre.take(li));
            let ob = old(w)@[li] as nat;
            let qn = q as nat;
            let rem1 = rem as nat;
            assert(be_val(old(w)@.take(li + 1)) == a * 256 + ob);
            assert(be_val(w@.take(li + 1)) == bnew * 256 + qn);
            assert(a * 256 + ob == (bnew * 256 + qn) * 58 + rem1) by (nonlinear_arith)
                requires
                    a == bnew * 58 + rem0,
                    rem0 * 256 + ob == 58 * qn + rem1,
            ;
        }
        i = i + 1;
    }
    proof {
        assert(w@.take(32) =~= w@);
        assert(old(w)@.take(32) =~= old(w)@);
    }
    (rem) as u8
}

fn b58_char_of(d: u8) -> (r: char)
    requires
        d < 58,
    ensures
        r == b58_char(d as int),
{
    let b: u8 = if d <= 8 {
        49 + d
    } else if d <= 16 {
        56 + d
    } else if d <= 21 {
        57 + d
    } else if d <= 32 {
        58 + d
    } else if d <= 43 {
        64 + d
    } else {
        65 + d
    };
    b as char
}

proof fn lemma_be_val_zero_implies(s: Seq<u8>)
    requires
        be_val(s) == 0,
    ensures
        forall|t: int| 0 <= t < s.len() ==> s[t] == 0,
    decreases s.len(),
{
    if s.len() > 0 {
        assert(be_val(s) == be_val(s.drop_last()) * 256 + s.last());
        assert(be_val(s.drop_last()) == 0) by (nonlinear_arith)
            requires
                be_val(s.drop_last()) * 256 + s.last() == 0,
        ;
        lemma_be_val_zero_implies(s.drop_last());
        assert(forall|t: int| 0 <= t < s.len() - 1 ==> s[t] == s.drop_last()[t]);
    }
}

fn all_zero(w: &Vec<u8>) -> (r: bool)
    ensures
        r == (be_val(w@) == 0),
{
    let mut i: usize = 0;
    let n: usize = w.len();
    while i < n
        invariant
            i <= n,
            n == w@.len(),
            forall|t: int| 0 <= t < i ==> w@[t] == 0,
        decreases n - i,
    {
        if w[i] != 0 {
            proof {
                if be_val(w@) == 0 {
                    lemma_be_val_zero_implies(w@);
                    assert(false);
                }
            }
            return false;
        }
        i = i + 1;
    }
    proof {
        lemma_be_val_zero_seq(w@);
    }
    true
}

proof fn lemma_digits58_props(v: nat)
    ensures
        forall|t: int| 0 <= t < digits58(v).len() ==> digits58(v)[t] < 58,
        v > 0 ==> digits58(v).len() > 0 && digits58(v)[0] != 0,
    decreases v,
{
    if v > 0 {
        assert(v / 58 < v) by (nonlinear_arith)
            requires
                v > 0,
        ;
        lemma_digits58_props(v / 58);
        let pre = digits58(v / 58);
        assert(digits58(v) =~= pre.push((v % 58) as u8));
        assert(forall|t: int| 0 <= t < pre.len() ==> digits58(v)[t] == pre[t]);
        if v / 58 == 0 {
            assert(pre.len() == 0);
            assert(digits58(v)[0] == (v % 58) as u8);
            assert(v % 58 == v) by (nonlinear_arith)
                requires
                    v > 0,
                    v / 58 == 0,
            ;
        }
    }
}

/// Encodes a fixed-width binary address: one `'1'` per leading zero byte,
/// then the base-58 digits of the value, most significant first.
#[verifier::loop_isolation(false)]
#[verifier::rlimit(100)]
pub fn encode_address(a: &Address) -> (r: Vec<char>)
    requires
        address_wf(*a),
    ensures
        r@ == spec_encode(a.bytes@),
{
    let ghost v0 = be_val(a.bytes@);

    // Count the leading zero bytes.
    let mut zeros: usize = 0;
    while zeros < 32 && a.bytes[zeros] == 0
        invariant
            zeros <= 32,
            forall|j: int| 0 <= j < zeros ==> a.bytes@[j] == 0,
        decreases 32 - zeros,
    {
        zeros = zeros + 1;
    }
    proof {
        lemma_lead_zero_bytes_at(a.bytes@, zeros as int);
    }

    // Work on a copy of the bytes.
    let mut work: Vec<u8> = Vec::new();
    let mut ci: usize = 0;
    while ci < 32
        invariant
            ci <= 32,
            work@.len() == ci,
            forall|t: int| 0 <= t < ci ==> work@[t] == a.bytes@[t],
        decreases 32 - ci,
    {
        work.push(a.bytes[ci]);
        ci = ci + 1;
    }
    proof {
        assert(work@ =~= a.bytes@);
    }

    // Extract base-58 digits, least significant first, inserting at the
    // front so the vector stays most significant first.
    let mut digits: Vec<u8> = Vec::new();
    proof {
        assert(digits58(v0) + digits@ =~= digits58(v0));
    }
    while !all_zero(&work)
        invariant
            work@.len() == 32,
            digits58(v0) =~= digits58(be_val(work@)) + digits@,
            forall|t: int| 0 <= t < digits@.len() ==> digits@[t] < 58,
        decreases be_val(work@),
    {
        let ghost cur = be_val(work@);
        let rem: u8 = div_58(&mut work);
        let ghost nv = be_val(work@);
        digits.insert(0, rem);
        proof {
            assert(cur == nv * 58 + rem);
            assert(nv == cur / 58 && rem == cur % 58) by (nonlinear_arith)
                requires
                    cur == nv * 58 + rem,
                    rem < 58,
            ;
            assert(digits58(cur) =~= digits58(cur / 58).push((cur % 58) as u8));
            assert(digits58(nv).push(rem) + digits@.drop_first() =~= digits58(nv) + digits@);
            assert(nv < cur) by (nonlinear_arith)
                requires
                    cur == nv * 58 + rem,
                    cur > 0,
                    rem < 58,
            ;
        }
    }
    proof {
        assert(digits58(0nat) =~= Seq::<u8>::empty());
        assert(digits@ =~= digits58(v0));
    }

    // Emit the leading ones, then the digit characters.
    let mut out: Vec<char> = Vec::new();
    let mut oi: usize = 0;
    while oi < zeros
        invariant
            oi <= zeros,
            out@.len() == oi,
            forall|t: int| 0 <= t < oi ==> out@[t] == '1',
        decreases zeros - oi,
    {
        out.push('1');
        oi = oi + 1;
    }
    let dn: usize = digits.len();
    let mut di: usize = 0;
    while di < dn
        invariant
            di <= dn,
            dn == digits@.len(),
            forall|t: int| 0 <= t < digits@.len() ==> digits@[t] < 58,
            out@.len() == zeros + di,
            forall|t: int| 0 <= t < zeros ==> out@[t] == '1',
            forall|t: int| zeros <= t < zeros + di ==> out@[t] == b58_char(
                digits@[t - zeros] as int,
            ),
        decreases dn - di,
    {
        let c = b58_char_of(digits[di]);
        out.push(c);
        di = di + 1;
    }
    proof {
        assert(out@ =~= spec_encode(a.bytes@));
    }
    out
}


proof fn lemma_b58_inverse(d: int)
    requires
        0 <= d < 58,
    ensures
        b58_digit(b58_char(d)) == d,
        (b58_char(d) == '1') == (d == 0),
{
}

proof fn lemma_lead_zero_bytes_le(s: Seq<u8>)
    ensures
        lead_zero_bytes(s) <= s.len(),
    decreases s.len(),
{
    if s.len() > 0 && s[0] == 0 {
        lemma_lead_zero_bytes_le(s.drop_first());
    }
}

/// A prefix of `'1'` characters carries no value.
proof fn lemma_ones_prefix_val(t: Seq<char>, k: nat)
    ensures
        str_val(Seq::new(k, |i: int| '1') + t) == str_val(t),
    decreases t.len(),
{
    let ones = Seq::new(k, |i: int| '1');
    if t.len() == 0 {
        assert(ones + t =~= ones);
        lemma_ones_val(k);
    } else {
        lemma_ones_prefix_val(t.drop_last(), k);
        assert((ones + t).drop_last() =~= ones + t.drop_last());
        assert((ones + t).last() == t.last());
    }
}

proof fn lemma_ones_val(k: nat)
    ensures
        str_val(Seq::new(k, |i: int| '1')) == 0,
    decreases k,
{
    if k > 0 {
        lemma_ones_val((k - 1) as nat);
        let ones = Seq::new(k, |i: int| '1');
        assert(ones.drop_last() =~= Seq::new((k - 1) as nat, |i: int| '1'));
        assert(ones.last() == '1');
        assert(b58_digit('1') == 0);
    }
}

/// The digit characters of a value read back as that value.
proof fn lemma_str_val_digits(v: nat)
    ensures
        str_val(digits58(v).map(|i: int, d: u8| b58_char(d as int))) == v,
    decreases v,
{
    let f = |i: int, d: u8| b58_char(d as int);
    if v == 0 {
        assert(digits58(0nat).map(f) =~= Seq::<char>::empty());
    } else {
        assert(v / 58 < v) by (nonlinear_arith)
            requires
                v > 0,
        ;
        lemma_str_val_digits(v / 58);
        let pre = digits58(v / 58);
        let full = digits58(v);
        assert(full =~= pre.push((v % 58) as u8));
        assert(full.map(f) =~= pre.map(f).push(b58_char((v % 58) as int)));
        assert(full.map(f).drop_last() =~= pre.map(f));
        assert(full.map(f).last() == b58_char((v % 58) as int));
        lemma_b58_inverse((v % 58) as int);
        assert(str_val(full.map(f)) == (v / 58) * 58 + v % 58);
        assert((v / 58) * 58 + v % 58 == v) by (nonlinear_arith);
    }
}

/// Encoding a fixed-width binary address and decoding the result recovers
/// exactly the original bytes.
pub proof fn lemma_address_round_trip(b: Seq<u8>)
    requires
        b.len() == 32,
    ensures
        spec_decode(spec_encode(b)) == Some(b),
{
    let v = be_val(b);
    let k = lead_zero_bytes(b);
    let f = |i: int, d: u8| b58_char(d as int);
    let ds = digits58(v);
    let t = ds.map(f);
    let s = spec_encode(b);
    lemma_be_val_bound(b);
    lemma_digits58_props(v);
    lemma_lead_zero_bytes_le(b);
    assert(s == Seq::new(k, |i: int| '1') + t);
    assert(s.len() == k + t.len());

    // Every character of the encoding is in the alphabet.
    assert forall|i: int| 0 <= i < s.len() implies b58_digit(#[trigger] s[i]) >= 0 by {
        if i < k {
            assert(s[i] == '1');
            assert(b58_digit('1') == 0);
        } else {
            assert(s[i] == t[i - k]);
            assert(t[i - k] == b58_char(ds[i - k] as int));
            lemma_b58_inverse(ds[i - k] as int);
        }
    }
    assert(valid_b58(s));

    // The encoding reads back as the original value.
    lemma_ones_prefix_val(t, k);
    lemma_str_val_digits(v);
    assert(str_val(s) == v);

    // The fixed-width byte string of that value is the original.
    lemma_bytes_be_props(v, 32);
    lemma_be_val_injective(bytes_be(v, 32), b);
    assert(bytes_be(str_val(s), 32) == b);

    // The leading-one count matches the leading zero bytes.
    if v == 0 {
        lemma_be_val_zero_implies(b);
        lemma_lead_zero_bytes_at(b, 32);
        assert(ds =~= Seq::<u8>::empty());
        assert(t.len() == 0);
        assert(forall|j: int| 0 <= j < s.len() ==> s[j] == '1');
        lemma_lead_ones_at(s, s.len() as int);
        assert(lead_ones(s) == k);
    } else {
        assert(ds.len() > 0 && ds[0] != 0);
        assert(t[0] == b58_char(ds[0] as int));
        lemma_b58_inverse(ds[0] as int);
        assert(s[k as int] == t[0]);
        assert(s[k as int] != '1');
        assert(forall|j: int| 0 <= j < k ==> s[j] == '1');
        lemma_lead_ones_at(s, k as int);
    }
    assert(lead_ones(s) == lead_zero_bytes(bytes_be(str_val(s), 32)));
}

} // verus!
