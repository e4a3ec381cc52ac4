use vstd::arithmetic::div_mod::{lemma_fundamental_div_mod, lemma_mod_multiples_vanish};
use vstd::prelude::*;

verus! {

/// The 36 digits of base 36, in order of value.
pub open spec fn digit_chars() -> Seq<char> {
    seq![
        '0', '1', '2', '3', '4', '5', '6', '7', '8', '9', 'a', 'b', 'c', 'd', 'e', 'f', 'g', 'h',
        'i', 'j', 'k', 'l', 'm', 'n', 'o', 'p', 'q', 'r', 's', 't', 'u', 'v', 'w', 'x', 'y', 'z',
    ]
}

pub open spec fn is_base36_digit(c: char) -> bool {
    ('0' <= c && c <= '9') || ('a' <= c && c <= 'z')
}

/// Value of a base-36 digit character.
pub open spec fn digit_value(c: char) -> nat {
    if c <= '9' {
        (c as int - '0' as int) as nat
    } else {
        (c as int - 'a' as int + 10) as nat
    }
}

/// Exact value of the base-36 digits of `s`, read most significant first; characters that
/// are not base-36 digits are skipped.
pub open spec fn base36_value(s: Seq<char>) -> nat
    decreases s.len(),
{
    if s.len() == 0 {
        0
    } else if is_base36_digit(s.last()) {
        base36_value(s.drop_last()) * 36 + digit_value(s.last())
    } else {
        base36_value(s.drop_last())
    }
}

/// Digits of `n` without leading zeros (empty for zero).
pub open spec fn base36_digits(n: nat) -> Seq<char>
    decreases n,
{
    if n == 0 {
        seq![]
    } else {
        base36_digits(n / 36).push(digit_chars()[(n % 36) as int])
    }
}

/// The base-36 text of `n`: `"0"` for zero, else its digits without leading zeros.
pub open spec fn base36_text(n: nat) -> Seq<char> {
    if n == 0 {
        seq!['0']
    } else {
        base36_digits(n)
    }
}

/// Relies on `String::push`: appends one character.
#[verifier::external_body]
fn push_char(s: &mut String, c: char)
    ensures
        final(s)@ == old(s)@.push(c),
{
    s.push(c)
}

fn digit_char(d: u64) -> (c: char)
    requires
        d < 36,
    ensures
        c == digit_chars()[d as int],
{
    let digits: [char; 36] = [
        '0', '1', '2', '3', '4', '5', '6', '7', '8', '9', 'a', 'b', 'c', 'd', 'e', 'f', 'g', 'h',
        'i', 'j', 'k', 'l', 'm', 'n', 'o', 'p', 'q', 'r', 's', 't', 'u', 'v', 'w', 'x', 'y', 'z',
    ];
    assert(digits@ =~= digit_chars());
    digits[d as usize]
}

proof fn lemma_digit_round_trip(c: char)
    requires
        is_base36_digit(c),
    ensures
        digit_value(c) < 36,
        digit_chars()[digit_value(c) as int] == c,
{
    let d = digit_value(c) as int;
    assert(0 <= d < 36);
    assert(digit_chars()[d] as int == c as int);
}

proof fn lemma_value_step(v: nat, d: nat)
    requires
        d < 36,
    ensures
        (v * 36 + d) / 36 == v,
        (v * 36 + d) % 36 == d,
{
    lemma_fundamental_div_mod((v * 36 + d) as int, 36);
    vstd::arithmetic::div_mod::lemma_fundamental_div_mod_converse(
        (v * 36 + d) as int,
        36,
        v as int,
        d as int,
    );
}

proof fn lemma_mod_step(v: int, d: int, m: int)
    requires
        m > 0,
        v >= 0,
    ensures
        ((v % m) * 36 + d) % m == (v * 36 + d) % m,
{
    let q = v / m;
    let r = v % m;
    lemma_fundamental_div_mod(v, m);
    assert(v * 36 + d == m * (q * 36) + (r * 36 + d)) by (nonlinear_arith)
        requires
            v == m * q + r,
    ;
    lemma_mod_multiples_vanish(q * 36, r * 36 + d, m);
}

/// Reads the base-36 digits of `input`, skipping every other character; the value wraps
/// modulo 2^64.
pub fn lossy_u64_from_base36(input: &str) -> (r: u64)
    ensures
        r as nat == base36_value(input@) % 0x1_0000_0000_0000_0000,
{
    let n = input.unicode_len();
    let mut acc: u64 = 0;
    let mut i: usize = 0;
    while i < n
        invariant
            n == input@.len(),
            i <= n,
            acc as nat == base36_value(input@.take(i as int)) % 0x1_0000_0000_0000_0000,
        decreases n - i,
    {
        let c = input.get_char(i);
        let cv = c as u32;
        let ghost s = input@.take(i as int + 1);
        assert(s.drop_last() =~= input@.take(i as int));
        assert(s.last() == c);
        if ('0' <= c && c <= '9') || ('a' <= c && c <= 'z') {
            let d: u32 = if c <= '9' {
                cv - 48
            } else {
                cv - 87
            };
            assert(d as nat == digit_value(c));
            let next: u128 = ((acc as u128) * 36 + d as u128) % 0x1_0000_0000_0000_0000;
            proof {
                lemma_mod_step(
                    base36_value(input@.take(i as int)) as int,
                    d as int,
                    0x1_0000_0000_0000_0000,
                );
            }
            acc = next as u64;
        }
        i = i + 1;
    }
    assert(input@.take(n as int) =~= input@);
    acc
}

/// Writes `input` in base 36 with the digits `0-9a-z`, without leading zeros.
pub fn base36_from_u64(input: u64) -> (r: String)
    ensures
        r@ == base36_text(input as nat),
{
    if input == 0 {
        let mut z = String::new();
        push_char(&mut z, '0');
        return z;
    }
    let mut rest: u64 = input;
    let mut low_first: Vec<char> = Vec::new();
    while rest > 0
        invariant
            base36_digits(input as nat) =~= base36_digits(rest as nat) + low_first@.reverse(),
        decreases rest,
    {
        let d = rest % 36;
        let c = digit_char(d);
        let ghost old_low = low_first@;
        low_first.push(c);
        assert(low_first@.reverse() =~= seq![c] + old_low.reverse());
        assert(base36_digits(rest as nat) == base36_digits((rest / 36) as nat).push(c));
        rest = rest / 36;
    }
    assert(base36_digits(0) =~= Seq::<char>::empty());
    let mut out = String::new();
    let mut j: usize = low_first.len();
    while j > 0
        invariant
            j <= low_first@.len(),
            out@ =~= low_first@.reverse().take((low_first@.len() - j) as int),
        decreases j,
    {
        j = j - 1;
        push_char(&mut out, low_first[j]);
    }
    assert(low_first@.reverse().take(low_first@.len() as int) =~= low_first@.reverse());
    out
}

/// Writes `input` in base 36, with a leading `-` when it is negative.
pub fn base36_from_i32(input: i32) -> (r: String)
    ensures
        r@ == (if input < 0 {
            seq!['-']
        } else {
            Seq::<char>::empty()
        }) + base36_text(if input < 0 {
            (-input) as nat
        } else {
            input as nat
        }),
{
    let magnitude: u64 = if input < 0 {
        (-(input as i64)) as u64
    } else {
        input as u64
    };
    let digits = base36_from_u64(magnitude);
    if input < 0 {
        let mut out = String::new();
        push_char(&mut out, '-');
        out.append(digits.as_str());
        out
    } else {
        digits
    }
}

proof fn lemma_leading_digit_positive(s: Seq<char>)
    requires
        s.len() > 0,
        forall|i: int| 0 <= i < s.len() ==> is_base36_digit(#[trigger] s[i]),
        s[0] != '0',
    ensures
        base36_value(s) > 0,
    decreases s.len(),
{
    if s.len() > 1 {
        let p = s.drop_last();
        assert(p[0] == s[0]);
        lemma_leading_digit_positive(p);
    } else {
        assert(s.last() == s[0]);
    }
}

proof fn lemma_digits_of_value(s: Seq<char>)
    requires
        s.len() > 0,
        forall|i: int| 0 <= i < s.len() ==> is_base36_digit(#[trigger] s[i]),
        s[0] != '0',
    ensures
        base36_digits(base36_value(s)) == s,
    decreases s.len(),
{
    let p = s.drop_last();
    let c = s.last();
    assert(is_base36_digit(c));
    lemma_digit_round_trip(c);
    let v = base36_value(s);
    let pv = base36_value(p);
    assert(v == pv * 36 + digit_value(c));
    lemma_value_step(pv, digit_value(c));
    lemma_leading_digit_positive(s);
    if s.len() > 1 {
        assert(p[0] == s[0]);
        lemma_digits_of_value(p);
    } else {
        assert(p.len() == 0);
        assert(pv == 0);
        assert(base36_digits(0) =~= Seq::<char>::empty());
    }
    assert(s =~= p.push(c));
}

/// Reading canonical base-36 text and writing the value back gives the same text: for a
/// non-empty string of digits `0-9a-z` without a leading zero (other than `"0"` itself)
/// whose value fits in 64 bits.
pub proof fn base36_text_round_trip(s: Seq<char>)
    requires
        s.len() > 0,
        forall|i: int| 0 <= i < s.len() ==> is_base36_digit(#[trigger] s[i]),
        s[0] == '0' ==> s.len() == 1,
        base36_value(s) < 0x1_0000_0000_0000_0000,
    ensures
        base36_text(base36_value(s) % 0x1_0000_0000_0000_0000) == s,
{
    assert(base36_value(s) % 0x1_0000_0000_0000_0000 == base36_value(s));
    if s[0] == '0' {
        assert(s.drop_last().len() == 0);
        assert(s.last() == '0');
        assert(base36_value(s.drop_last()) == 0);
        assert(digit_value('0') == 0);
        assert(base36_value(s) == 0);
        assert(s =~= seq!['0']);
    } else {
        lemma_leading_digit_positive(s);
        lemma_digits_of_value(s);
    }
}

/// The decimal digits of `n`, without leading zeros (`"0"` for zero).
pub open spec fn decimal_text(n: nat) -> Seq<char>
    decreases n,
{
    if n < 10 {
        seq![digit_chars()[n as int]]
    } else {
        decimal_text(n / 10).push(digit_chars()[(n % 10) as int])
    }
}

/// Writes a byte in decimal.
pub fn decimal_from_u8(v: u8) -> (r: String)
    ensures
        r@ == decimal_text(v as nat),
{
    let mut out = String::new();
    let ones = digit_char((v % 10) as u64);
    if v < 10 {
        push_char(&mut out, ones);
        assert(out@ =~= decimal_text(v as nat));
        return out;
    }
    let tens = digit_char(((v / 10) % 10) as u64);
    assert(decimal_text(v as nat) == decimal_text((v / 10) as nat).push(ones));
    if v < 100 {
        assert(decimal_text((v / 10) as nat) == seq![digit_chars()[(v / 10) as int]]);
        assert((v / 10) % 10 == v / 10);
        push_char(&mut out, tens);
        push_char(&mut out, ones);
        assert(out@ =~= decimal_text(v as nat));
        return out;
    }
    let hundreds = digit_char((v / 100) as u64);
    assert((v / 10) / 10 == v / 100);
    assert(decimal_text((v / 10) as nat) == decimal_text((v / 100) as nat).push(tens));
    assert(decimal_text((v / 100) as nat) == seq![hundreds]);
    push_char(&mut out, hundreds);
    push_char(&mut out, tens);
    push_char(&mut out, ones);
    assert(out@ =~= decimal_text(v as nat));
    out
}

} // verus!
