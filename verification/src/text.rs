//! Decimal numbers as ASCII text: reading them from bytes and writing them
//! into strings, plus the few conversions between bytes and strings that the
//! FIX layer needs.

use vstd::prelude::*;
use vstd::string::StringExecFns;
use vstd::utf8::*;

verus! {

/// `b` is an ASCII digit.
pub open spec fn is_digit(b: u8) -> bool {
    48 <= b <= 57
}

/// Every byte of `s` is an ASCII digit.
pub open spec fn all_digits(s: Seq<u8>) -> bool {
    forall|i: int| 0 <= i < s.len() ==> is_digit(#[trigger] s[i])
}

/// The number that the digits of `s` spell in base ten.
pub open spec fn digits_value(s: Seq<u8>) -> nat
    decreases s.len(),
{
    if s.len() == 0 {
        0
    } else {
        digits_value(s.drop_last()) * 10 + (s.last() - 48) as nat
    }
}

/// The value of `s` when it is a nonempty run of digits whose value is at
/// most `max`.
pub open spec fn digits_within(s: Seq<u8>, max: nat) -> Option<nat> {
    if s.len() > 0 && all_digits(s) && digits_value(s) <= max {
        Some(digits_value(s))
    } else {
        None
    }
}

/// What `str::parse` gives for an unsigned type whose largest value is
/// `max`: an optional `+`, then one or more digits.
pub open spec fn unsigned_within(s: Seq<u8>, max: nat) -> Option<nat> {
    if s.len() > 0 && s[0] == 43 {
        digits_within(s.drop_first(), max)
    } else {
        digits_within(s, max)
    }
}

/// What `str::parse::<i64>` gives: an optional `+` or `-`, then one or more
/// digits, with the value inside the range of `i64`.
pub open spec fn signed_i64_text(s: Seq<u8>) -> Option<int> {
    if s.len() > 0 && s[0] == 45 {
        match digits_within(s.drop_first(), 0x8000_0000_0000_0000) {
            Some(v) => Some(-v),
            None => None,
        }
    } else if s.len() > 0 && s[0] == 43 {
        match digits_within(s.drop_first(), 0x7fff_ffff_ffff_ffff) {
            Some(v) => Some(v as int),
            None => None,
        }
    } else {
        match digits_within(s, 0x7fff_ffff_ffff_ffff) {
            Some(v) => Some(v as int),
            None => None,
        }
    }
}

/// A run of digits is worth at least as much as any of its prefixes.
pub proof fn lemma_digits_prefix(s: Seq<u8>, k: int)
    requires
        0 <= k <= s.len(),
        all_digits(s),
    ensures
        digits_value(s.subrange(0, k)) <= digits_value(s),
    decreases s.len(),
{
    if k < s.len() {
        assert(s.drop_last().subrange(0, k) =~= s.subrange(0, k));
        lemma_digits_prefix(s.drop_last(), k);
    } else {
        assert(s.subrange(0, k) =~= s);
    }
}

/// Reads `s[start..]` as a nonempty run of digits worth at most `max`.
fn parse_digits_from(s: &[u8], start: usize, max: u64) -> (r: Option<u64>)
    requires
        start <= s@.len(),
    ensures
        r == (match digits_within(s@.subrange(start as int, s@.len() as int), max as nat) {
            Some(v) => Some(v as u64),
            None => None::<u64>,
        }),
{
    let ghost body = s@.subrange(start as int, s@.len() as int);
    if start >= s.len() {
        return None;
    }
    let mut v: u64 = 0;
    let mut i: usize = start;
    while i < s.len()
        invariant
            start <= i <= s@.len(),
            body == s@.subrange(start as int, s@.len() as int),
            all_digits(s@.subrange(start as int, i as int)),
            v as nat == digits_value(s@.subrange(start as int, i as int)),
            v <= max,
        decreases s.len() - i,
    {
        let b = s[i];
        let ghost next = s@.subrange(start as int, i + 1);
        assert(next.drop_last() =~= s@.subrange(start as int, i as int));
        assert(next =~= body.subrange(0, i + 1 - start));
        if b < 48 || b > 57 {
            assert(body[i - start] == b);
            return None;
        }
        let d: u64 = (b - 48) as u64;
        if d > max || v > (max - d) / 10 {
            assert(v * 10 + d > max) by (nonlinear_arith)
                requires
                    d > max || v > (max - d) / 10,
                    d <= 9,
            ;
            assert(all_digits(next));
            assert(digits_value(next) == v * 10 + d);
            proof {
                if all_digits(body) {
                    lemma_digits_prefix(body, (i + 1 - start) as int);
                }
            }
            return None;
        }
        assert(v * 10 + d <= max) by (nonlinear_arith)
            requires
                d <= max,
                v <= (max - d) / 10,
        ;
        v = v * 10 + d;
        i = i + 1;
    }
    assert(s@.subrange(start as int, i as int) =~= body);
    Some(v)
}

/// Reads `s` as a nonempty run of digits worth at most `max`.
pub fn parse_digits(s: &[u8], max: u64) -> (r: Option<u64>)
    ensures
        r == (match digits_within(s@, max as nat) {
            Some(v) => Some(v as u64),
            None => None::<u64>,
        }),
{
    assert(s@.subrange(0, s@.len() as int) =~= s@);
    parse_digits_from(s, 0, max)
}

/// Reads `s` the way `str::parse` reads an unsigned integer whose largest
/// value is `max`.
pub fn parse_unsigned(s: &[u8], max: u64) -> (r: Option<u64>)
    ensures
        r == (match unsigned_within(s@, max as nat) {
            Some(v) => Some(v as u64),
            None => None::<u64>,
        }),
{
    if s.len() > 0 && s[0] == 43 {
        assert(s@.subrange(1, s@.len() as int) =~= s@.drop_first());
        parse_digits_from(s, 1, max)
    } else {
        parse_digits(s, max)
    }
}

/// Reads `s` the way `str::parse::<i64>` does.
pub fn parse_i64(s: &[u8]) -> (r: Option<i64>)
    ensures
        r == (match signed_i64_text(s@) {
            Some(v) => Some(v as i64),
            None => None::<i64>,
        }),
{
    if s.len() > 0 && s[0] == 45 {
        assert(s@.subrange(1, s@.len() as int) =~= s@.drop_first());
        match parse_digits_from(s, 1, 0x8000_0000_0000_0000u64) {
            Some(v) => {
                if v == 0x8000_0000_0000_0000u64 {
                    Some(i64::MIN)
                } else {
                    let m: i64 = v as i64;
                    Some(-m)
                }
            },
            None => None,
        }
    } else if s.len() > 0 && s[0] == 43 {
        assert(s@.subrange(1, s@.len() as int) =~= s@.drop_first());
        match parse_digits_from(s, 1, 0x7fff_ffff_ffff_ffffu64) {
            Some(v) => Some(v as i64),
            None => None,
        }
    } else {
        match parse_digits(s, 0x7fff_ffff_ffff_ffffu64) {
            Some(v) => Some(v as i64),
            None => None,
        }
    }
}

/// The index of the first `b` in `s`, or `s.len()` when there is none.
pub open spec fn find_byte(s: Seq<u8>, b: u8) -> int
    decreases s.len(),
{
    if s.len() == 0 {
        0
    } else if s[0] == b {
        0
    } else {
        1 + find_byte(s.drop_first(), b)
    }
}

/// `k` is the first index of `b` in `s` (or `s.len()` when `b` is absent)
/// exactly when no earlier byte is `b` and `s[k]` is.
pub proof fn lemma_find_byte(s: Seq<u8>, b: u8, k: int)
    requires
        0 <= k <= s.len(),
        forall|j: int| 0 <= j < k ==> s[j] != b,
        k == s.len() || s[k] == b,
    ensures
        find_byte(s, b) == k,
    decreases k,
{
    if k > 0 {
        lemma_find_byte(s.drop_first(), b, k - 1);
    }
}

/// `find_byte` lies within the sequence, and every byte before it differs
/// from `b`.
pub proof fn lemma_find_byte_bounds(s: Seq<u8>, b: u8)
    ensures
        0 <= find_byte(s, b) <= s.len(),
        find_byte(s, b) < s.len() ==> s[find_byte(s, b)] == b,
        forall|j: int| 0 <= j < find_byte(s, b) ==> s[j] != b,
    decreases s.len(),
{
    if s.len() > 0 && s[0] != b {
        lemma_find_byte_bounds(s.drop_first(), b);
        assert forall|j: int| 0 <= j < find_byte(s, b) implies s[j] != b by {
            if j > 0 {
                assert(s[j] == s.drop_first()[j - 1]);
            }
        }
    }
}

/// The index of the first `b` in `s` at or after `start`, or `s.len()`.
pub fn find_byte_from(s: &[u8], start: usize, b: u8) -> (r: usize)
    requires
        start <= s@.len(),
    ensures
        r as int == start + find_byte(s@.subrange(start as int, s@.len() as int), b),
        start <= r <= s@.len(),
        r < s@.len() ==> s@[r as int] == b,
        forall|j: int| start <= j < r ==> s@[j] != b,
{
    let mut i: usize = start;
    while i < s.len()
        invariant
            start <= i <= s@.len(),
            forall|j: int| start <= j < i ==> s@[j] != b,
        ensures
            start <= i <= s@.len(),
            forall|j: int| start <= j < i ==> s@[j] != b,
            i < s@.len() ==> s@[i as int] == b,
        decreases s.len() - i,
    {
        if s[i] == b {
            break;
        }
        i = i + 1;
    }
    proof {
        let t = s@.subrange(start as int, s@.len() as int);
        assert forall|j: int| 0 <= j < i - start implies t[j] != b by {
            assert(t[j] == s@[start + j]);
        }
        lemma_find_byte(t, b, i - start);
    }
    i
}

/// The ASCII bytes of the decimal digits of `n`.
pub open spec fn decimal_bytes(n: nat) -> Seq<u8>
    decreases n,
{
    if n < 10 {
        seq![((n % 10) + 48) as u8]
    } else {
        decimal_bytes(n / 10).push(((n % 10) + 48) as u8)
    }
}

/// The digits of a number read back as that number.
pub proof fn lemma_decimal_bytes_value(n: nat)
    ensures
        decimal_bytes(n).len() > 0,
        all_digits(decimal_bytes(n)),
        digits_value(decimal_bytes(n)) == n,
        decimal_bytes(n)[0] != 43,
    decreases n,
{
    if n >= 10 {
        lemma_decimal_bytes_value(n / 10);
        let s = decimal_bytes(n);
        assert(s.drop_last() =~= decimal_bytes(n / 10));
        assert(s[0] == decimal_bytes(n / 10)[0]);
        assert(s.last() == ((n % 10) + 48) as u8);
        assert((n / 10) * 10 + n % 10 == n) by (nonlinear_arith);
        assert(digits_value(s) == digits_value(s.drop_last()) * 10 + (s.last() - 48) as nat);
        assert((s.last() - 48) as nat == n % 10);
    } else {
        let s = decimal_bytes(n);
        assert(s.drop_last() =~= Seq::<u8>::empty());
        assert(n % 10 == n);
        assert(s.last() == (n + 48) as u8);
        assert(digits_value(s) == digits_value(s.drop_last()) * 10 + (s.last() - 48) as nat);
    }
}

/// A tag written in decimal is read back as that tag.
pub proof fn lemma_decimal_bytes_unsigned(n: nat, max: nat)
    requires
        n <= max,
    ensures
        unsigned_within(decimal_bytes(n), max) == Some(n),
{
    lemma_decimal_bytes_value(n);
}

/// Appends the ASCII digits of `n`.
pub fn push_decimal_bytes(v: &mut Vec<u8>, n: u64)
    ensures
        final(v)@ == old(v)@ + decimal_bytes(n as nat),
    decreases n,
{
    if n >= 10 {
        push_decimal_bytes(v, n / 10);
    }
    let d: u8 = (n % 10) as u8;
    v.push(d + 48);
    proof {
        if n >= 10 {
            assert(decimal_bytes(n as nat) == decimal_bytes((n / 10) as nat).push(
                ((n % 10) + 48) as u8,
            ));
        }
        assert(final(v)@ =~= old(v)@ + decimal_bytes(n as nat));
    }
}

/// The ASCII digits of `n`, as `n.to_string()` writes them.
pub fn decimal_bytes_of(n: u64) -> (r: Vec<u8>)
    ensures
        r@ == decimal_bytes(n as nat),
{
    let mut v: Vec<u8> = Vec::new();
    push_decimal_bytes(&mut v, n);
    assert(v@ =~= decimal_bytes(n as nat));
    v
}

/// Whether two byte strings are equal.
pub fn bytes_equal(a: &[u8], b: &[u8]) -> (r: bool)
    ensures
        r == (a@ == b@),
{
    if a.len() != b.len() {
        return false;
    }
    let mut i: usize = 0;
    while i < a.len()
        invariant
            i <= a@.len(),
            a@.len() == b@.len(),
            forall|j: int| 0 <= j < i ==> a@[j] == b@[j],
        decreases a.len() - i,
    {
        if a[i] != b[i] {
            return false;
        }
        i = i + 1;
    }
    assert(a@ =~= b@);
    true
}

/// The text of `a` followed by the text of `b`.
pub fn concat_text(a: &str, b: &str) -> (r: String)
    ensures
        r@ == a@ + b@,
{
    let mut s = a.to_owned();
    s.append(b);
    s
}

/// The number of decimal digits of `n`.
pub fn digit_count(n: u64) -> (r: u32)
    ensures
        r as nat == decimal_text(n as nat).len(),
        1 <= r <= 20,
    decreases n,
{
    if n < 10 {
        1
    } else {
        let c = digit_count(n / 10);
        proof {
            assert(decimal_text(n as nat) == decimal_text((n / 10) as nat).push(digit_char(
                (n % 10) as nat,
            )));
            lemma_digit_count_bound(n);
        }
        c + 1
    }
}

/// A `u64` has at most twenty digits.
proof fn lemma_digit_count_bound(n: u64)
    ensures
        decimal_text(n as nat).len() <= 20,
{
    assert(power_of_ten(20) == 100000000000000000000nat) by {
        reveal_with_fuel(power_of_ten, 21);
    }
    lemma_decimal_text_len_bound(n as nat, 20);
}

/// A number below `10^k` (written as repeated tenfold) has at most `k`
/// digits.
proof fn lemma_decimal_text_len_bound(n: nat, k: nat)
    requires
        k >= 1,
        n < power_of_ten(k),
    ensures
        decimal_text(n).len() <= k,
    decreases k,
{
    if n >= 10 {
        assert(n / 10 < power_of_ten((k - 1) as nat)) by (nonlinear_arith)
            requires
                n < power_of_ten(k),
                power_of_ten(k) == 10 * power_of_ten((k - 1) as nat),
        ;
        if k == 1 {
            assert(power_of_ten(0) == 1);
        } else {
            lemma_decimal_text_len_bound(n / 10, (k - 1) as nat);
        }
    }
}

/// Ten to the power `k`.
pub open spec fn power_of_ten(k: nat) -> nat
    decreases k,
{
    if k == 0 {
        1
    } else {
        10 * power_of_ten((k - 1) as nat)
    }
}

/// Appends `n` with zeros in front up to `width` characters.
pub fn push_zero_padded(s: &mut String, n: u64, width: u32)
    ensures
        final(s)@ == old(s)@ + padded_text(n as nat, width as nat),
{
    let digits = digit_count(n);
    let ghost start = s@;
    if digits < width {
        let pad = width - digits;
        let mut k: u32 = 0;
        while k < pad
            invariant
                k <= pad,
                s@ == start + Seq::new(k as nat, |i: int| '0'),
            decreases pad - k,
        {
            push_char(s, '0');
            k = k + 1;
            assert(s@ =~= start + Seq::new(k as nat, |i: int| '0'));
        }
    }
    let ghost mid = s@;
    push_decimal(s, n);
    assert(s@ =~= start + padded_text(n as nat, width as nat));
}

/// The character of the digit `d`.
pub open spec fn digit_char(d: nat) -> char {
    ((d % 10) + 48) as char
}

/// The decimal digits of `n`, most significant first, without leading zeros
/// (`0` is written as one digit).
pub open spec fn decimal_text(n: nat) -> Seq<char>
    decreases n,
{
    if n < 10 {
        seq![digit_char(n)]
    } else {
        decimal_text(n / 10).push(digit_char(n % 10))
    }
}

/// `n` as `format!("{:0w$}")` writes it: its digits, with zeros in front up
/// to `width` characters.
pub open spec fn padded_text(n: nat, width: nat) -> Seq<char> {
    let digits = decimal_text(n);
    if digits.len() < width {
        Seq::new((width - digits.len()) as nat, |i: int| '0') + digits
    } else {
        digits
    }
}

/// The text of a signed integer: a `-` in front of the digits of its
/// magnitude when it is negative.
pub open spec fn signed_text(n: int) -> Seq<char> {
    if n < 0 {
        seq!['-'] + decimal_text((-n) as nat)
    } else {
        decimal_text(n as nat)
    }
}

/// Calls `String::push`: appends one character.
#[verifier::external_body]
pub(crate) fn push_char(s: &mut String, c: char)
    ensures
        final(s)@ == old(s)@.push(c),
{
    s.push(c);
}

/// Calls `String::from_utf8`: the text that `bytes` encode, or `None` when
/// they are not valid UTF-8.
#[verifier::external_body]
pub(crate) fn string_from_utf8(bytes: Vec<u8>) -> (r: Option<String>)
    ensures
        r is Some <==> valid_utf8(bytes@),
        r matches Some(s) ==> s@ == decode_utf8(bytes@),
{
    String::from_utf8(bytes).ok()
}

/// Calls `String::from_utf8_lossy`: the text that `bytes` encode, where
/// every invalid sequence becomes U+FFFD. Only the valid case is stated:
/// which replacement characters come out otherwise is left unsaid.
#[verifier::external_body]
pub(crate) fn string_from_utf8_lossy(bytes: &[u8]) -> (r: String)
    ensures
        valid_utf8(bytes@) ==> r@ == decode_utf8(bytes@),
{
    String::from_utf8_lossy(bytes).into_owned()
}

/// The text of `bytes`, or `None` when they are not valid UTF-8.
pub fn text_of(bytes: &[u8]) -> (r: Option<String>)
    ensures
        r is Some <==> valid_utf8(bytes@),
        r matches Some(s) ==> s@ == decode_utf8(bytes@),
{
    string_from_utf8(vstd::slice::slice_to_vec(bytes))
}

/// Appends the decimal digits of `n`.
pub fn push_decimal(s: &mut String, n: u64)
    ensures
        final(s)@ == old(s)@ + decimal_text(n as nat),
    decreases n,
{
    if n >= 10 {
        push_decimal(s, n / 10);
    }
    let d: u8 = (n % 10) as u8;
    push_char(s, (d + 48) as char);
    proof {
        assert((d + 48) as char == digit_char(n as nat));
        if n >= 10 {
            assert(decimal_text(n as nat) == decimal_text((n / 10) as nat).push(digit_char(
                (n % 10) as nat,
            )));
        }
    }
}

/// The decimal digits of `n` as a new string.
pub fn decimal_string(n: u64) -> (r: String)
    ensures
        r@ == decimal_text(n as nat),
{
    let mut s = String::new();
    push_decimal(&mut s, n);
    assert(s@ =~= decimal_text(n as nat));
    s
}

/// The text of `n`, with a `-` in front when it is negative.
pub fn signed_string(n: i64) -> (r: String)
    ensures
        r@ == signed_text(n as int),
{
    let mut s = String::new();
    if n < 0 {
        push_char(&mut s, '-');
        let m: u64 = if n == i64::MIN {
            0x8000_0000_0000_0000u64
        } else {
            let p: i64 = -n;
            p as u64
        };
        push_decimal(&mut s, m);
        assert(s@ =~= seq!['-'] + decimal_text((-n) as nat));
    } else {
        push_decimal(&mut s, n as u64);
        assert(s@ =~= decimal_text(n as nat));
    }
    s
}

/// A number has at least one digit.
pub proof fn lemma_decimal_text_len(n: nat)
    ensures
        decimal_text(n).len() >= 1,
        n < 10 ==> decimal_text(n).len() == 1,
        10 <= n < 100 ==> decimal_text(n).len() == 2,
        100 <= n < 1000 ==> decimal_text(n).len() == 3,
        1000 <= n < 10000 ==> decimal_text(n).len() == 4,
        n >= 1000 ==> decimal_text(n).len() >= 4,
    decreases n,
{
    if n >= 10 {
        lemma_decimal_text_len(n / 10);
    }
}

/// Appends `n` written with at least `width` characters, zeros in front.
pub fn push_padded(s: &mut String, n: u64, width: usize)
    requires
        width <= 4,
    ensures
        final(s)@ == old(s)@ + padded_text(n as nat, width as nat),
{
    proof {
        lemma_decimal_text_len(n as nat);
    }
    let digits: usize = if n < 10 {
        1
    } else if n < 100 {
        2
    } else if n < 1000 {
        3
    } else {
        4
    };
    let ghost start = s@;
    if digits < width {
        let pad = width - digits;
        let mut k: usize = 0;
        while k < pad
            invariant
                k <= pad,
                s@ == start + Seq::new(k as nat, |i: int| '0'),
            decreases pad - k,
        {
            push_char(s, '0');
            k = k + 1;
            assert(s@ =~= start + Seq::new(k as nat, |i: int| '0'));
        }
    }
    let ghost mid = s@;
    push_decimal(s, n);
    proof {
        if digits < width {
            assert(decimal_text(n as nat).len() == digits);
            assert(s@ =~= start + padded_text(n as nat, width as nat));
        } else {
            assert(mid == start);
            assert(s@ =~= start + padded_text(n as nat, width as nat));
        }
    }
}

} // verus!
