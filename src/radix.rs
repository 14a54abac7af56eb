use vstd::prelude::*;

use crate::error::LinkError;

verus! {

/// The radix of short codes: digits `0`-`9`, then `a`-`z`.
pub const RADIX: u32 = 36;

/// The character that writes the digit `d` (`d < 36`).
pub open spec fn digit_char(d: nat) -> char {
    if d < 10 {
        (48 + d) as char
    } else {
        (87 + d) as char
    }
}

/// Whether `c` belongs to the alphabet of short codes.
pub open spec fn is_digit(c: char) -> bool {
    ('0' <= c && c <= '9') || ('a' <= c && c <= 'z')
}

/// The value of the digit `c` (meaningful where `is_digit(c)`).
pub open spec fn digit_value(c: char) -> nat {
    if c <= '9' {
        (c as nat - 48) as nat
    } else {
        (c as nat - 87) as nat
    }
}

/// The short code of `n`: most significant digit first, no leading zero,
/// and `0` written as the single digit `"0"`.
pub open spec fn encode_spec(n: nat) -> Seq<char>
    decreases n,
{
    if n < 36 {
        seq![digit_char(n)]
    } else {
        encode_spec(n / 36).push(digit_char(n % 36))
    }
}

/// The number that the digits of `s` denote, most significant first.
pub open spec fn decode_spec(s: Seq<char>) -> nat
    decreases s.len(),
{
    if s.len() == 0 {
        0
    } else {
        decode_spec(s.drop_last()) * 36 + digit_value(s.last())
    }
}

/// A well-formed code: non-empty, and every character in the alphabet.
pub open spec fn is_code(s: Seq<char>) -> bool {
    s.len() > 0 && forall|i: int| 0 <= i < s.len() ==> #[trigger] is_digit(s[i])
}

/// A code in canonical form: no leading zero, except the code `"0"` itself.
pub open spec fn is_canonical(s: Seq<char>) -> bool {
    is_code(s) && (s.len() == 1 || s[0] != '0')
}

proof fn lemma_digit(d: nat)
    requires
        d < 36,
    ensures
        is_digit(digit_char(d)),
        digit_value(digit_char(d)) == d,
        d == 0 <==> digit_char(d) == '0',
{
}

proof fn lemma_value_of_digit(c: char)
    requires
        is_digit(c),
    ensures
        digit_value(c) < 36,
        digit_char(digit_value(c)) == c,
{
}

/// Decoding the code of a number gives the number back, and that code is
/// canonical.
pub proof fn lemma_decode_encode(n: nat)
    ensures
        decode_spec(encode_spec(n)) == n,
        is_canonical(encode_spec(n)),
        n >= 36 ==> encode_spec(n).len() > 1,
    decreases n,
{
    if n < 36 {
        lemma_digit(n);
        let s = encode_spec(n);
        assert(s.drop_last() =~= Seq::<char>::empty());
        assert(decode_spec(Seq::<char>::empty()) == 0);
        assert(is_digit(s[0]));
        assert(s.len() == 1);
    } else {
        lemma_decode_encode(n / 36);
        lemma_digit(n % 36);
        if n / 36 < 36 {
            lemma_digit(n / 36);
        }
        let s = encode_spec(n);
        assert(s.drop_last() =~= encode_spec(n / 36));
        assert(s.last() == digit_char(n % 36));
        assert(n == (n / 36) * 36 + n % 36) by (nonlinear_arith);
        assert(s[0] == encode_spec(n / 36)[0]);
        if n / 36 < 36 {
            assert(encode_spec(n / 36) =~= seq![digit_char(n / 36)]);
        }
        assert(s[0] != '0');
        assert forall|i: int| 0 <= i < s.len() implies #[trigger] is_digit(s[i]) by {
            if i < s.len() - 1 {
                assert(is_digit(encode_spec(n / 36)[i]));
            }
        }
    }
}

proof fn lemma_decode_small(s: Seq<char>)
    requires
        is_canonical(s),
    ensures
        s.len() > 1 ==> decode_spec(s) >= 36,
        s.len() == 1 ==> decode_spec(s) < 36,
    decreases s.len(),
{
    assert(is_digit(s.last()));
    lemma_value_of_digit(s.last());
    if s.len() == 1 {
        assert(s.drop_last() =~= Seq::<char>::empty());
        assert(decode_spec(Seq::<char>::empty()) == 0);
    } else {
        let t = s.drop_last();
        assert(t[0] == s[0]);
        assert forall|i: int| 0 <= i < t.len() implies #[trigger] is_digit(t[i]) by {
            assert(is_digit(s[i]));
        }
        lemma_decode_small(t);
        if t.len() == 1 {
            assert(is_digit(t[0]));
            lemma_value_of_digit(t[0]);
            assert(t.drop_last() =~= Seq::<char>::empty());
            assert(decode_spec(t) == digit_value(t[0]));
        }
    }
}

/// Encoding the number that a canonical code denotes gives the code back.
pub proof fn lemma_encode_decode(s: Seq<char>)
    requires
        is_canonical(s),
    ensures
        encode_spec(decode_spec(s)) == s,
    decreases s.len(),
{
    let n = decode_spec(s);
    assert(is_digit(s.last()));
    lemma_value_of_digit(s.last());
    lemma_decode_small(s);
    if s.len() == 1 {
        assert(s.drop_last() =~= Seq::<char>::empty());
        assert(decode_spec(Seq::<char>::empty()) == 0);
        assert(encode_spec(n) =~= s);
    } else {
        let t = s.drop_last();
        assert(t[0] == s[0]);
        assert forall|i: int| 0 <= i < t.len() implies #[trigger] is_digit(t[i]) by {
            assert(is_digit(s[i]));
        }
        lemma_encode_decode(t);
        let m = decode_spec(t);
        assert(n / 36 == m && n % 36 == digit_value(s.last())) by (nonlinear_arith)
            requires
                n == m * 36 + digit_value(s.last()),
                digit_value(s.last()) < 36,
        ;
        assert(encode_spec(n) =~= s);
    }
}

proof fn lemma_prefix_value(s: Seq<char>, i: int)
    requires
        0 <= i <= s.len(),
    ensures
        decode_spec(s.subrange(0, i)) <= decode_spec(s),
    decreases s.len(),
{
    if i < s.len() {
        let t = s.drop_last();
        assert(t.subrange(0, i) =~= s.subrange(0, i));
        lemma_prefix_value(t, i);
    } else {
        assert(s.subrange(0, i) =~= s);
    }
}

/// Relies on `String::push`: appends one character.
#[verifier::external_body]
fn push_char(s: &mut String, c: char)
    ensures
        final(s)@ == old(s)@.push(c),
{
    s.push(c)
}

/// The character that writes the digit `d`.
fn to_digit_char(d: u32) -> (c: char)
    requires
        d < RADIX,
    ensures
        c == digit_char(d as nat),
{
    if d < 10 {
        ((48 + d) as u8) as char
    } else {
        ((87 + d) as u8) as char
    }
}

/// The value of `c` as a digit, or `None` where `c` is outside the alphabet.
fn digit_of(c: char) -> (r: Option<u32>)
    ensures
        r is Some <==> is_digit(c),
        r matches Some(d) ==> d as nat == digit_value(c) && d < RADIX,
{
    if '0' <= c && c <= '9' {
        Some((c as u32) - 48)
    } else if 'a' <= c && c <= 'z' {
        Some((c as u32) - 87)
    } else {
        None
    }
}

/// The short code of `x`.
pub fn to_d36(x: u32) -> (r: String)
    ensures
        r@ == encode_spec(x as nat),
{
    let mut digits: Vec<char> = Vec::new();
    let mut rest: u32 = x;
    while rest >= RADIX
        invariant
            encode_spec(x as nat) == encode_spec(rest as nat) + digits@,
        decreases rest,
    {
        let d = to_digit_char(rest % RADIX);
        proof {
            assert(encode_spec(rest as nat) == encode_spec((rest / RADIX) as nat).push(d));
            assert(encode_spec((rest / RADIX) as nat) + seq![d].add(digits@) =~= encode_spec(
                rest as nat,
            ) + digits@);
        }
        digits.insert(0, d);
        rest = rest / RADIX;
    }
    let first = to_digit_char(rest);
    digits.insert(0, first);
    assert(digits@ =~= encode_spec(x as nat));
    let mut r = String::new();
    let mut i: usize = 0;
    while i < digits.len()
        invariant
            i <= digits@.len(),
            r@ == digits@.subrange(0, i as int),
        decreases digits@.len() - i,
    {
        push_char(&mut r, digits[i]);
        assert(digits@.subrange(0, i as int).push(digits@[i as int]) =~= digits@.subrange(
            0,
            i + 1,
        ));
        i = i + 1;
    }
    assert(r@ =~= digits@);
    r
}


/// The identifier that the code `x` denotes.
pub fn from_d36(x: &str) -> (r: Result<u32, LinkError>)
    ensures
        r is Ok <==> is_code(x@) && decode_spec(x@) <= u32::MAX,
        r matches Ok(v) ==> v as nat == decode_spec(x@),
        r matches Err(e) ==> e == LinkError::InvalidCode,
{
    let n = x.unicode_len();
    if n == 0 {
        return Err(LinkError::InvalidCode);
    }
    let mut value: u64 = 0;
    let mut i: usize = 0;
    while i < n
        invariant
            n == x@.len(),
            i <= n,
            value as nat == decode_spec(x@.subrange(0, i as int)),
            value <= u32::MAX,
            forall|j: int| 0 <= j < i ==> #[trigger] is_digit(x@[j]),
        decreases n - i,
    {
        let c = x.get_char(i);
        let d = match digit_of(c) {
            Some(d) => d,
            None => {
                return Err(LinkError::InvalidCode);
            },
        };
        let ghost prefix = x@.subrange(0, i + 1);
        assert(prefix.drop_last() =~= x@.subrange(0, i as int));
        assert(value * 36 + d <= 0xffff_ffff * 36 + 35) by (nonlinear_arith)
            requires
                value <= 0xffff_ffff,
                d < 36,
        ;
        value = value * (RADIX as u64) + (d as u64);
        if value > u32::MAX as u64 {
            proof {
                lemma_prefix_value(x@, i + 1);
            }
            return Err(LinkError::InvalidCode);
        }
        i = i + 1;
    }
    assert(x@.subrange(0, n as int) =~= x@);
    Ok(value as u32)
}

} // verus!
