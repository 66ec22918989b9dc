//! Numbers in text: decimal printing, hexadecimal digits and ASCII letter case.
use vstd::prelude::*;

verus! {

/// The character of a decimal digit.
pub open spec fn digit(d: nat) -> char {
    (48 + d) as char
}

/// The decimal digits of a number, without leading zeros.
pub open spec fn decimal(n: nat) -> Seq<char>
    decreases n,
{
    if n < 10 {
        seq![digit(n)]
    } else {
        decimal(n / 10).push(digit(n % 10))
    }
}

/// The decimal digits of an integer, with a minus sign before those of a negative one.
pub open spec fn signed_decimal(n: int) -> Seq<char> {
    if n < 0 {
        seq!['-'] + decimal((-n) as nat)
    } else {
        decimal(n as nat)
    }
}

fn digit_char(d: u64) -> (c: char)
    requires
        d < 10,
    ensures
        c == digit(d as nat),
{
    let b: u8 = 48 + d as u8;
    b as char
}

/// Appends the decimal digits of `n`.
pub fn push_decimal(out: &mut String, n: u64)
    ensures
        final(out)@ == old(out)@ + decimal(n as nat),
    decreases n,
{
    if n < 10 {
        out.push(digit_char(n));
        assert(out@ =~= old(out)@ + decimal(n as nat));
    } else {
        push_decimal(out, n / 10);
        out.push(digit_char(n % 10));
        assert(out@ =~= old(out)@ + decimal(n as nat));
    }
}

/// The decimal digits of `n`.
pub fn decimal_string(n: u64) -> (r: String)
    ensures
        r@ == decimal(n as nat),
{
    let mut out = String::new();
    push_decimal(&mut out, n);
    assert(out@ =~= decimal(n as nat));
    out
}

/// The decimal digits of `n`, with its sign.
pub fn signed_decimal_string(n: i64) -> (r: String)
    ensures
        r@ == signed_decimal(n as int),
{
    let mut out = String::new();
    if n < 0 {
        out.push('-');
        let m: u64 = if n == i64::MIN {
            9_223_372_036_854_775_808u64
        } else {
            (-n) as u64
        };
        push_decimal(&mut out, m);
        assert(out@ =~= signed_decimal(n as int));
    } else {
        push_decimal(&mut out, n as u64);
        assert(out@ =~= signed_decimal(n as int));
    }
    out
}

/// The lowercase hexadecimal digit of a number below sixteen.
pub open spec fn hex_digit(d: nat) -> char {
    if d < 10 {
        (48 + d) as char
    } else {
        (87 + d) as char
    }
}

/// The two lowercase hexadecimal digits of each byte.
pub open spec fn hex(bytes: Seq<u8>) -> Seq<char>
    decreases bytes.len(),
{
    if bytes.len() == 0 {
        seq![]
    } else {
        hex(bytes.drop_last()).push(hex_digit(bytes.last() as nat / 16)).push(
            hex_digit(bytes.last() as nat % 16),
        )
    }
}

fn hex_char(d: u8) -> (c: char)
    requires
        d < 16,
    ensures
        c == hex_digit(d as nat),
{
    if d < 10 {
        (48 + d) as char
    } else {
        (87 + d) as char
    }
}

/// The two lowercase hexadecimal digits of each of the first `n` bytes.
pub fn hex_prefix(bytes: &[u8], n: usize) -> (r: String)
    requires
        n <= bytes@.len(),
    ensures
        r@ == hex(bytes@.take(n as int)),
{
    let mut out = String::new();
    let mut i: usize = 0;
    assert(out@ =~= hex(bytes@.take(0)));
    while i < n
        invariant
            i <= n <= bytes@.len(),
            out@ == hex(bytes@.take(i as int)),
        decreases n - i,
    {
        let b: u8 = bytes[i];
        out.push(hex_char(b / 16));
        out.push(hex_char(b % 16));
        assert(bytes@.take(i + 1).drop_last() =~= bytes@.take(i as int));
        i += 1;
    }
    out
}

/// The ASCII capital letters in lower case, everything else as it is.
pub open spec fn ascii_lower(c: char) -> char {
    if 'A' <= c <= 'Z' {
        ((c as u32) + 32) as char
    } else {
        c
    }
}

/// Two texts differ at most in the case of ASCII letters.
pub open spec fn same_ignoring_case(a: Seq<char>, b: Seq<char>) -> bool {
    a.len() == b.len() && forall|i: int|
        0 <= i < a.len() ==> ascii_lower(#[trigger] a[i]) == ascii_lower(b[i])
}

/// The ASCII capital letters in lower case, everything else as it is.
pub fn to_ascii_lower(c: char) -> (r: char)
    ensures
        r == ascii_lower(c),
{
    if 'A' <= c && c <= 'Z' {
        let b: u8 = c as u8 + 32;
        b as char
    } else {
        c
    }
}

/// The text with its ASCII capital letters in lower case.
pub open spec fn lowered(s: Seq<char>) -> Seq<char> {
    Seq::new(s.len(), |i: int| ascii_lower(s[i]))
}

/// The text with its ASCII capital letters in lower case.
pub fn lower(s: &str) -> (r: String)
    ensures
        r@ == lowered(s@),
{
    let v = crate::text::chars_of(s);
    let mut out = String::new();
    let mut i: usize = 0;
    while i < v.len()
        invariant
            i <= v@.len(),
            v@ == s@,
            out@ == lowered(s@).take(i as int),
        decreases v@.len() - i,
    {
        out.push(to_ascii_lower(v[i]));
        i += 1;
        assert(out@ =~= lowered(s@).take(i as int));
    }
    assert(out@ =~= lowered(s@));
    out
}

/// Whether two texts differ at most in the case of ASCII letters.
pub fn equal_ignoring_case(a: &str, b: &str) -> (r: bool)
    ensures
        r == same_ignoring_case(a@, b@),
{
    let x = crate::text::chars_of(a);
    let y = crate::text::chars_of(b);
    if x.len() != y.len() {
        return false;
    }
    let mut i: usize = 0;
    while i < x.len()
        invariant
            i <= x@.len(),
            x@.len() == y@.len(),
            x@ == a@,
            y@ == b@,
            forall|k: int| 0 <= k < i ==> ascii_lower(#[trigger] x@[k]) == ascii_lower(y@[k]),
        decreases x@.len() - i,
    {
        if to_ascii_lower(x[i]) != to_ascii_lower(y[i]) {
            assert(ascii_lower(a@[i as int]) != ascii_lower(b@[i as int]));
            return false;
        }
        i += 1;
    }
    true
}

/// Every character of a decimal number is a digit, and there is at least one.
pub proof fn lemma_decimal_digits(n: nat)
    ensures
        decimal(n).len() > 0,
        forall|i: int| 0 <= i < decimal(n).len() ==> '0' <= #[trigger] decimal(n)[i] <= '9',
    decreases n,
{
    if n >= 10 {
        lemma_decimal_digits(n / 10);
    }
}

/// Hexadecimal text is twice as long as the bytes, and made of lowercase digits.
pub proof fn lemma_hex_shape(bytes: Seq<u8>)
    ensures
        hex(bytes).len() == 2 * bytes.len(),
        forall|i: int|
            0 <= i < hex(bytes).len() ==> '0' <= #[trigger] hex(bytes)[i] <= '9' || 'a'
                <= hex(bytes)[i] <= 'f',
    decreases bytes.len(),
{
    if bytes.len() > 0 {
        lemma_hex_shape(bytes.drop_last());
    }
}

// ---------------------------------------------------------------------------
// Reading numbers
// ---------------------------------------------------------------------------

/// Every character is a decimal digit.
pub open spec fn all_digits(s: Seq<char>) -> bool {
    forall|i: int| 0 <= i < s.len() ==> '0' <= #[trigger] s[i] <= '9'
}

/// The number that decimal digits write.
pub open spec fn value_of(s: Seq<char>) -> nat
    decreases s.len(),
{
    if s.len() == 0 {
        0
    } else {
        10 * value_of(s.drop_last()) + ((s.last() as u32 - 48) as nat)
    }
}

/// The number that a text writes: a sign, which may be left out, and at least one digit.
pub open spec fn integer_of(s: Seq<char>) -> Option<int> {
    let signed = s.len() > 0 && (s[0] == '-' || s[0] == '+');
    let digits = if signed {
        s.drop_first()
    } else {
        s
    };
    if digits.len() == 0 || !all_digits(digits) {
        None
    } else if signed && s[0] == '-' {
        Some(-(value_of(digits) as int))
    } else {
        Some(value_of(digits) as int)
    }
}

/// The number that a text writes, where it fits.
pub open spec fn i64_of(s: Seq<char>) -> Option<i64> {
    match integer_of(s) {
        Some(n) => if i64::MIN <= n <= i64::MAX {
            Some(n as i64)
        } else {
            None
        },
        None => None,
    }
}

proof fn lemma_value_grows(s: Seq<char>, n: int)
    requires
        0 <= n <= s.len(),
        all_digits(s),
    ensures
        value_of(s.take(n)) <= value_of(s),
    decreases s.len() - n,
{
    if n == s.len() {
        assert(s.take(n) =~= s);
    } else {
        let t = s.take(n + 1);
        assert(t.drop_last() =~= s.take(n));
        lemma_value_grows(s, n + 1);
    }
}

/// The number that a text writes, where it fits.
pub fn parse_i64(s: &str) -> (r: Option<i64>)
    ensures
        r == i64_of(s@),
{
    let v = crate::text::chars_of(s);
    let mut start: usize = 0;
    let mut negative = false;
    if v.len() > 0 && (v[0] == '-' || v[0] == '+') {
        start = 1;
        negative = v[0] == '-';
    }
    let ghost digits = s@.skip(start as int);
    proof {
        if start == 1 {
            assert(digits =~= s@.drop_first());
        } else {
            assert(digits =~= s@);
        }
    }
    let ghost whole = if digits.len() == 0 || !all_digits(digits) {
        None
    } else if negative {
        Some(-(value_of(digits) as int))
    } else {
        Some(value_of(digits) as int)
    };
    assert(integer_of(s@) == whole);
    if v.len() == start {
        return None;
    }
    let mut k: usize = start;
    while k < v.len()
        invariant
            start <= k <= v@.len(),
            v@ == s@,
            digits == s@.skip(start as int),
            !all_digits(digits) ==> integer_of(s@) is None,
            forall|i: int| 0 <= i < k - start ==> '0' <= #[trigger] digits[i] <= '9',
        decreases v@.len() - k,
    {
        assert(digits[k - start] == v@[k as int]);
        if !('0' <= v[k] && v[k] <= '9') {
            assert(!all_digits(digits));
            return None;
        }
        k += 1;
    }
    assert(all_digits(digits));
    let limit: u64 = if negative {
        9_223_372_036_854_775_808
    } else {
        9_223_372_036_854_775_807
    };
    let mut total: u64 = 0;
    let mut i: usize = start;
    assert(digits.take(0) =~= Seq::<char>::empty());
    while i < v.len()
        invariant
            start <= i <= v@.len(),
            v@ == s@,
            digits == s@.skip(start as int),
            all_digits(digits),
            total == value_of(digits.take(i - start)),
            total <= limit,
            9_223_372_036_854_775_807 <= limit <= 9_223_372_036_854_775_808,
            i64_of(s@) is Some ==> value_of(digits) <= limit,
        decreases v@.len() - i,
    {
        let c = v[i];
        proof {
            let t = digits.take(i - start + 1);
            assert(t.drop_last() =~= digits.take(i - start));
            assert(t.last() == c);
            assert('0' <= digits[i - start] <= '9');
            lemma_value_grows(digits, i - start + 1);
        }
        let d: u64 = c as u64 - 48;
        if total > (limit - d) / 10 {
            assert(10 * total + d > limit);
            return None;
        }
        total = total * 10 + d;
        i += 1;
    }
    assert(digits.take(digits.len() as int) =~= digits);
    if negative {
        if total == 9_223_372_036_854_775_808 {
            Some(i64::MIN)
        } else {
            Some(-(total as i64))
        }
    } else {
        Some(total as i64)
    }
}

// ---------------------------------------------------------------------------
// Laws
// ---------------------------------------------------------------------------

/// A number is read back from the digits that write it, with its sign.
pub proof fn law_written_numbers_are_read_back(n: int)
    ensures
        integer_of(signed_decimal(n)) == Some(n),
        n >= 0 ==> value_of(decimal(n as nat)) == n,
        i64::MIN <= n <= i64::MAX ==> i64_of(signed_decimal(n)) == Some(n as i64),
        0 <= n < 10 ==> decimal(n as nat) == seq!["0123456789"@[n]],
{
    let m = if n < 0 {
        (-n) as nat
    } else {
        n as nat
    };
    lemma_value_of_decimal(m);
    lemma_decimal_digits(m);
    let s = signed_decimal(n);
    assert(s[0] == '-' || '0' <= s[0] <= '9');
    if n < 0 {
        assert(s.drop_first() =~= decimal(m));
    }
    reveal_strlit("0123456789");
}

proof fn lemma_value_of_decimal(n: nat)
    ensures
        value_of(decimal(n)) == n,
    decreases n,
{
    if n < 10 {
        assert(seq![digit(n)].drop_last() =~= Seq::<char>::empty());
        assert(seq![digit(n)].last() == digit(n));
        assert(value_of(Seq::<char>::empty()) == 0);
    } else {
        lemma_value_of_decimal(n / 10);
        let s = decimal(n / 10).push(digit(n % 10));
        assert(s.drop_last() =~= decimal(n / 10));
    }
}

/// One more digit makes ten times the number and the digit of it; a sign before the digits
/// is read, and nothing else may stand among them.
pub proof fn law_digits_are_read_in_their_places(s: Seq<char>, c: char)
    ensures
        '0' <= c <= '9' ==> value_of(s.push(c)) == 10 * value_of(s) + (c as int - '0' as int),
        s.len() > 0 && all_digits(s) ==> {
            &&& integer_of(s) == Some(value_of(s) as int)
            &&& integer_of(seq!['+'] + s) == Some(value_of(s) as int)
            &&& integer_of(seq!['-'] + s) == Some(-(value_of(s) as int))
        },
        !('0' <= c <= '9') ==> integer_of(s.push(c)) is None,
        integer_of(seq![]) is None,
{
    assert(s.push(c).drop_last() =~= s);
    assert((seq!['+'] + s).drop_first() =~= s);
    assert((seq!['-'] + s).drop_first() =~= s);
    if s.len() > 0 && all_digits(s) {
        assert('0' <= s[0] <= '9');
    }
    if !('0' <= c <= '9') {
        let t = s.push(c);
        let rest = t.drop_first();
        assert(t[t.len() - 1] == c);
        if s.len() > 0 {
            assert(rest[rest.len() - 1] == c);
        }
    }
}

/// Every byte is shown by its upper and its lower half, in the order of the bytes.
pub proof fn law_every_byte_is_shown(bytes: Seq<u8>, i: int)
    requires
        0 <= i < bytes.len(),
    ensures
        hex(bytes).len() == 2 * bytes.len(),
        hex(bytes)[2 * i] == "0123456789abcdef"@[bytes[i] as int / 16],
        hex(bytes)[2 * i + 1] == "0123456789abcdef"@[bytes[i] as int % 16],
    decreases bytes.len(),
{
    reveal_strlit("0123456789abcdef");
    lemma_hex_shape(bytes);
    lemma_hex_shape(bytes.drop_last());
    if i < bytes.len() - 1 {
        law_every_byte_is_shown(bytes.drop_last(), i);
        assert(hex(bytes)[2 * i] == hex(bytes.drop_last())[2 * i]);
        assert(hex(bytes)[2 * i + 1] == hex(bytes.drop_last())[2 * i + 1]);
    }
}

/// A capital letter becomes the small one, 32 places on; every other character stays.
/// Texts that differ in case alone are the same in lower case.
pub proof fn law_only_capitals_are_lowered(c: char, a: Seq<char>, b: Seq<char>)
    ensures
        'A' <= c <= 'Z' ==> ascii_lower(c) as int == c as int + 32 && 'a' <= ascii_lower(c) <= 'z',
        !('A' <= c <= 'Z') ==> ascii_lower(c) == c,
        lowered(lowered(a)) == lowered(a),
        lowered(a + b) == lowered(a) + lowered(b),
        same_ignoring_case(a, b) <==> lowered(a) == lowered(b),
{
    assert(lowered(lowered(a)) =~= lowered(a));
    assert(lowered(a + b) =~= lowered(a) + lowered(b));
    if same_ignoring_case(a, b) {
        assert(lowered(a) =~= lowered(b));
    }
    if lowered(a) == lowered(b) {
        assert(lowered(a).len() == lowered(b).len());
        assert forall|i: int| 0 <= i < a.len() implies ascii_lower(#[trigger] a[i]) == ascii_lower(
            b[i],
        ) by {
            assert(lowered(a)[i] == lowered(b)[i]);
        }
    }
}

} // verus!
