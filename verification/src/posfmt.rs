//! Fixed-point playback positions.
//!
//! A position is a whole number of milliseconds.  On disk and on the wire it
//! appears as a decimal number of seconds; the persisted files always carry
//! exactly three fraction digits (`83.250`), while inbound text may carry any
//! number of digits, of which the first three fraction digits are kept.

use vstd::prelude::*;

verus! {

pub const TAB: u8 = 9;
pub const NL: u8 = 10;
pub const DOT: u8 = 46;

/// ASCII digit for a value below ten.
pub open spec fn digit_byte(d: int) -> u8 {
    (48 + d) as u8
}

pub open spec fn is_digit(b: u8) -> bool {
    48 <= b <= 57
}

pub open spec fn all_digits(s: Seq<u8>) -> bool {
    forall|i: int| 0 <= i < s.len() ==> is_digit(#[trigger] s[i])
}

/// Decimal digits of `n`, most significant first, no leading zeros.
pub open spec fn dec_digits(n: int) -> Seq<u8>
    recommends
        n >= 0,
    decreases n,
{
    if n < 10 {
        seq![digit_byte(n)]
    } else {
        dec_digits(n / 10).push(digit_byte(n % 10))
    }
}

/// Numeric value of a digit string (most significant first).
pub open spec fn digits_val(s: Seq<u8>) -> int
    decreases s.len(),
{
    if s.len() == 0 {
        0
    } else {
        digits_val(s.drop_last()) * 10 + (s.last() - 48)
    }
}

/// Index of the first occurrence of `b` in `s`, if any.
pub open spec fn find_byte(s: Seq<u8>, b: u8) -> Option<int>
    decreases s.len(),
{
    if s.len() == 0 {
        None
    } else if s[0] == b {
        Some(0)
    } else {
        match find_byte(s.drop_first(), b) {
            None => None,
            Some(i) => Some(i + 1),
        }
    }
}

/// The three-digit fraction written for `r` milliseconds past the second.
pub open spec fn frac3(r: int) -> Seq<u8>
    recommends
        0 <= r < 1000,
{
    seq![digit_byte(r / 100), digit_byte((r / 10) % 10), digit_byte(r % 10)]
}

/// The canonical text of a position: seconds, a dot, three fraction digits.
pub open spec fn pos_text(ms: u64) -> Seq<u8> {
    dec_digits(ms as int / 1000) + seq![DOT] + frac3(ms as int % 1000)
}

/// Value of a fraction digit string: the first three digits count, further
/// digits are ignored, missing digits count as zero.
pub open spec fn frac_val(s: Seq<u8>) -> int {
    frac_digit(s, 0) * 100 + frac_digit(s, 1) * 10 + frac_digit(s, 2)
}

pub open spec fn frac_digit(s: Seq<u8>, i: int) -> int {
    if i < s.len() {
        s[i] - 48
    } else {
        0
    }
}

/// What a decimal seconds text denotes in milliseconds: an integer part,
/// optionally a dot and a fraction part, both non-empty digit strings, and
/// the result must fit in 64 bits.  Anything else is malformed.
pub open spec fn parse_pos(s: Seq<u8>) -> Option<u64> {
    match find_byte(s, DOT) {
        None => {
            if s.len() >= 1 && all_digits(s) && digits_val(s) * 1000 <= u64::MAX {
                Some((digits_val(s) * 1000) as u64)
            } else {
                None
            }
        },
        Some(i) => {
            let ip = s.subrange(0, i);
            let fp = s.subrange(i + 1, s.len() as int);
            if ip.len() >= 1 && fp.len() >= 1 && all_digits(ip) && all_digits(fp) && digits_val(
                ip,
            ) * 1000 + frac_val(fp) <= u64::MAX {
                Some((digits_val(ip) * 1000 + frac_val(fp)) as u64)
            } else {
                None
            }
        },
    }
}

/// Every canonical digit string is non-empty, made of digits, and names its
/// number again.
pub proof fn lemma_dec_digits(n: int)
    requires
        n >= 0,
    ensures
        dec_digits(n).len() >= 1,
        all_digits(dec_digits(n)),
        digits_val(dec_digits(n)) == n,
    decreases n,
{
    if n < 10 {
        let s = dec_digits(n);
        assert(s =~= seq![digit_byte(n)]);
        assert(s.drop_last() =~= Seq::<u8>::empty());
        assert(digits_val(s) == digits_val(s.drop_last()) * 10 + (s.last() - 48));
        assert(digits_val(Seq::<u8>::empty()) == 0);
        assert(s.last() == digit_byte(n));
        assert(digit_byte(n) - 48 == n);
    } else {
        lemma_dec_digits(n / 10);
        let pre = dec_digits(n / 10);
        let whole = pre.push(digit_byte(n % 10));
        assert(dec_digits(n) == whole);
        assert(whole.drop_last() =~= pre);
        assert(whole.last() == digit_byte(n % 10));
        assert(digits_val(whole) == digits_val(pre) * 10 + (whole.last() - 48));
        assert(digit_byte(n % 10) - 48 == n % 10);
        assert(digits_val(whole) == (n / 10) * 10 + n % 10);
        assert(forall|i: int|
            0 <= i < whole.len() ==> is_digit(#[trigger] whole[i])) by {
            assert(forall|i: int| 0 <= i < pre.len() ==> is_digit(#[trigger] pre[i]));
        }
    }
}

/// Extending a digit string can only grow its value.
pub proof fn lemma_digits_val_prefix(s: Seq<u8>, i: int)
    requires
        all_digits(s),
        0 <= i <= s.len(),
    ensures
        0 <= digits_val(s.subrange(0, i)) <= digits_val(s),
    decreases s.len() - i,
{
    lemma_digits_val_nonneg(s.subrange(0, i));
    if i == s.len() {
        assert(s.subrange(0, i) =~= s);
    } else {
        lemma_digits_val_prefix(s, i + 1);
        let a = s.subrange(0, i);
        let b = s.subrange(0, i + 1);
        assert(b.drop_last() =~= a);
        assert(digits_val(b) == digits_val(a) * 10 + (s[i] - 48));
        lemma_digits_val_nonneg(a);
    }
}

pub proof fn lemma_digits_val_nonneg(s: Seq<u8>)
    requires
        all_digits(s),
    ensures
        digits_val(s) >= 0,
    decreases s.len(),
{
    if s.len() > 0 {
        assert(all_digits(s.drop_last())) by {
            assert(forall|i: int|
                0 <= i < s.len() - 1 ==> is_digit(#[trigger] s.drop_last()[i]));
        }
        lemma_digits_val_nonneg(s.drop_last());
        assert(is_digit(s.last()));
    }
}

/// The decimal digits of `n`, most significant first.
pub fn fmt_dec(n: u64) -> (r: Vec<u8>)
    ensures
        r@ == dec_digits(n as int),
    decreases n,
{
    if n < 10 {
        let mut v: Vec<u8> = Vec::new();
        v.push(48 + n as u8);
        assert(v@ =~= dec_digits(n as int));
        v
    } else {
        let mut v = fmt_dec(n / 10);
        v.push(48 + (n % 10) as u8);
        assert(v@ =~= dec_digits(n as int));
        v
    }
}

/// The canonical text of a position in milliseconds: `pos_text(ms)`.
pub fn fmt_position(ms: u64) -> (r: Vec<u8>)
    ensures
        r@ == pos_text(ms),
{
    let mut v = fmt_dec(ms / 1000);
    let r3: u64 = ms % 1000;
    v.push(DOT);
    v.push(48 + (r3 / 100) as u8);
    v.push(48 + ((r3 / 10) % 10) as u8);
    v.push(48 + (r3 % 10) as u8);
    assert(v@ =~= pos_text(ms));
    v
}

/// `find_byte` names the first occurrence: nothing before it matches, and a
/// `None` means nothing matches at all.
pub proof fn lemma_find_byte(s: Seq<u8>, b: u8)
    ensures
        match find_byte(s, b) {
            Some(i) => 0 <= i < s.len() && s[i] == b && forall|j: int| 0 <= j < i ==> s[j] != b,
            None => forall|j: int| 0 <= j < s.len() ==> s[j] != b,
        },
    decreases s.len(),
{
    if s.len() == 0 {
    } else if s[0] == b {
    } else {
        lemma_find_byte(s.drop_first(), b);
        match find_byte(s.drop_first(), b) {
            None => {
                assert forall|j: int| 0 <= j < s.len() implies s[j] != b by {
                    if j >= 1 {
                        assert(s.drop_first()[j - 1] == s[j]);
                    }
                }
            },
            Some(i) => {
                assert(s.drop_first()[i] == s[i + 1]);
                assert forall|j: int| 0 <= j < i + 1 implies s[j] != b by {
                    if j >= 1 {
                        assert(s.drop_first()[j - 1] == s[j]);
                    }
                }
            },
        }
    }
}

/// What a bare digit string denotes, when well formed and in range.
pub open spec fn parse_digits_spec(s: Seq<u8>) -> Option<u64> {
    if s.len() >= 1 && all_digits(s) && digits_val(s) <= u64::MAX {
        Some(digits_val(s) as u64)
    } else {
        None
    }
}

/// Bytes `v[i..j]` as an owned vector.
pub fn copy_range(v: &Vec<u8>, i: usize, j: usize) -> (r: Vec<u8>)
    requires
        i <= j <= v@.len(),
    ensures
        r@ == v@.subrange(i as int, j as int),
{
    let mut r: Vec<u8> = Vec::new();
    let mut k = i;
    while k < j
        invariant
            i <= k <= j <= v@.len(),
            r@ == v@.subrange(i as int, k as int),
        decreases j - k,
    {
        r.push(v[k]);
        assert(v@.subrange(i as int, k as int).push(v@[k as int]) =~= v@.subrange(
            i as int,
            k as int + 1,
        ));
        k += 1;
    }
    assert(r@ =~= v@.subrange(i as int, j as int));
    r
}

/// Whether every byte is an ASCII digit.
pub fn check_digits(d: &Vec<u8>) -> (r: bool)
    ensures
        r == all_digits(d@),
{
    let mut i: usize = 0;
    while i < d.len()
        invariant
            0 <= i <= d@.len(),
            forall|k: int| 0 <= k < i ==> is_digit(#[trigger] d@[k]),
        decreases d@.len() - i,
    {
        let b = d[i];
        if b < 48 || b > 57 {
            return false;
        }
        i += 1;
    }
    true
}

/// Reads a digit string into a value, rejecting empty or non-digit input and
/// anything above `u64::MAX`.
pub fn parse_digits(d: &Vec<u8>) -> (r: Option<u64>)
    ensures
        r == parse_digits_spec(d@),
{
    if d.len() == 0 {
        return None;
    }
    let mut val: u64 = 0;
    let mut i: usize = 0;
    while i < d.len()
        invariant
            0 <= i <= d@.len(),
            all_digits(d@.subrange(0, i as int)),
            val == digits_val(d@.subrange(0, i as int)),
        decreases d@.len() - i,
    {
        let b = d[i];
        if b < 48 || b > 57 {
            assert(!all_digits(d@));
            return None;
        }
        let dig = (b - 48) as u64;
        let ghost pre = d@.subrange(0, i as int);
        let ghost ext = d@.subrange(0, i as int + 1);
        assert(ext.drop_last() =~= pre);
        assert(ext.last() == d@[i as int]);
        assert(digits_val(ext) == digits_val(pre) * 10 + dig);
        if val > (u64::MAX - dig) / 10 {
            proof {
                assert(u64::MAX - dig == ((u64::MAX - dig) / 10) * 10 + (u64::MAX - dig) % 10);
                assert(val * 10 + dig > u64::MAX);
                if all_digits(d@) && digits_val(d@) <= u64::MAX {
                    lemma_digits_val_prefix(d@, i as int + 1);
                }
            }
            return None;
        }
        assert(val * 10 + dig <= u64::MAX) by {
            assert(u64::MAX - dig == ((u64::MAX - dig) / 10) * 10 + (u64::MAX - dig) % 10);
        }
        val = val * 10 + dig;
        i += 1;
    }
    assert(d@.subrange(0, d@.len() as int) =~= d@);
    Some(val)
}

/// Value of the first three fraction digits.
pub fn frac_value(fp: &Vec<u8>) -> (r: u64)
    requires
        fp@.len() >= 1,
        all_digits(fp@),
    ensures
        r == frac_val(fp@),
        r < 1000,
{
    let d0 = (fp[0] - 48) as u64;
    let d1: u64 = if fp.len() > 1 {
        (fp[1] - 48) as u64
    } else {
        0
    };
    let d2: u64 = if fp.len() > 2 {
        (fp[2] - 48) as u64
    } else {
        0
    };
    d0 * 100 + d1 * 10 + d2
}

/// Reads a decimal seconds text into milliseconds: exactly `parse_pos`.
pub fn parse_position(text: &Vec<u8>) -> (r: Option<u64>)
    ensures
        r == parse_pos(text@),
{
    proof {
        lemma_find_byte(text@, DOT);
    }
    let n = text.len();
    let mut j: usize = 0;
    while j < n && text[j] != DOT
        invariant
            0 <= j <= n,
            n == text@.len(),
            forall|k: int| 0 <= k < j ==> text@[k] != DOT,
        decreases n - j,
    {
        j += 1;
    }
    if j == n {
        assert(find_byte(text@, DOT) is None);
        match parse_digits(text) {
            None => {
                proof {
                    if all_digits(text@) {
                        lemma_digits_val_nonneg(text@);
                    }
                }
                assert(parse_pos(text@) is None);
                None
            },
            Some(v) => {
                proof {
                    lemma_digits_val_nonneg(text@);
                }
                if v <= u64::MAX / 1000 {
                    assert(v * 1000 <= u64::MAX);
                    assert(parse_pos(text@) == Some((digits_val(text@) * 1000) as u64));
                    Some(v * 1000)
                } else {
                    assert(v * 1000 > u64::MAX);
                    assert(parse_pos(text@) is None);
                    None
                }
            },
        }
    } else {
        assert(text@[j as int] == DOT);
        assert(find_byte(text@, DOT) == Some(j as int));
        let ghost ip_s = text@.subrange(0, j as int);
        let ghost fp_s = text@.subrange(j as int + 1, text@.len() as int);
        let ip = copy_range(text, 0, j);
        let fp = copy_range(text, j + 1, n);
        if fp.len() == 0 {
            return None;
        }
        if !check_digits(&fp) {
            return None;
        }
        match parse_digits(&ip) {
            None => {
                proof {
                    if all_digits(ip_s) {
                        lemma_digits_val_nonneg(ip_s);
                    }
                    assert(frac_val(fp_s) >= 0) by {
                        assert(is_digit(fp_s[0]));
                        if fp_s.len() > 1 {
                            assert(is_digit(fp_s[1]));
                        }
                        if fp_s.len() > 2 {
                            assert(is_digit(fp_s[2]));
                        }
                    }
                }
                None
            },
            Some(v) => {
                proof {
                    lemma_digits_val_nonneg(ip_s);
                }
                let f = frac_value(&fp);
                if v <= (u64::MAX - f) / 1000 {
                    assert(v * 1000 + f <= u64::MAX) by {
                        assert(u64::MAX - f == ((u64::MAX - f) / 1000) * 1000 + (u64::MAX - f)
                            % 1000);
                    }
                    Some(v * 1000 + f)
                } else {
                    assert(v * 1000 + f > u64::MAX) by {
                        assert(u64::MAX - f == ((u64::MAX - f) / 1000) * 1000 + (u64::MAX - f)
                            % 1000);
                    }
                    None
                }
            },
        }
    }
}

/// A canonical position text always reads back as the same position.
pub proof fn lemma_position_roundtrip(ms: u64)
    ensures
        parse_pos(pos_text(ms)) == Some(ms),
{
    let q = ms as int / 1000;
    let r = ms as int % 1000;
    lemma_dec_digits(q);
    let ip = dec_digits(q);
    let fp = frac3(r);
    let s = pos_text(ms);
    assert(s.len() == ip.len() + 1 + 3);
    assert forall|k: int| 0 <= k < ip.len() implies s[k] != DOT by {
        assert(s[k] == ip[k]);
        assert(is_digit(ip[k]));
    }
    assert(s[ip.len() as int] == DOT);
    lemma_find_byte(s, DOT);
    match find_byte(s, DOT) {
        None => {
            assert(false);
        },
        Some(i) => {
            assert(i == ip.len());
        },
    }
    assert(s.subrange(0, ip.len() as int) =~= ip);
    assert(s.subrange(ip.len() as int + 1, s.len() as int) =~= fp);
    assert(all_digits(fp)) by {
        assert(is_digit(fp[0]));
        assert(is_digit(fp[1]));
        assert(is_digit(fp[2]));
    }
    assert(frac_val(fp) == (r / 100) * 100 + ((r / 10) % 10) * 10 + r % 10);
    assert((r / 100) * 100 + ((r / 10) % 10) * 10 + r % 10 == r) by {
        assert(r == (r / 10) * 10 + r % 10);
        assert(r / 10 == ((r / 10) / 10) * 10 + (r / 10) % 10);
        assert((r / 10) / 10 == r / 100) by {
            vstd::arithmetic::div_mod::lemma_div_denominator(r, 10, 10);
        }
    }
    assert(digits_val(ip) * 1000 + frac_val(fp) == q * 1000 + r);
    assert(q * 1000 + r == ms);
}

} // verus!
