//! Canonical base-ten text for unsigned integers, written and read back.

use vstd::prelude::*;

verus! {

/// The character for a digit below ten.
pub open spec fn digit_char(d: nat) -> char {
    if d == 0 { '0' } else if d == 1 { '1' } else if d == 2 { '2' } else if d == 3 { '3' }
    else if d == 4 { '4' } else if d == 5 { '5' } else if d == 6 { '6' } else if d == 7 { '7' }
    else if d == 8 { '8' } else { '9' }
}

/// The canonical decimal text of `n`: no sign, no leading zero.
pub open spec fn dec(n: nat) -> Seq<char>
    decreases n,
{
    if n < 10 {
        seq![digit_char(n)]
    } else {
        dec(n / 10).push(digit_char(n % 10))
    }
}

fn digit_str(d: u64) -> (s: &'static str)
    requires
        d < 10,
    ensures
        s@ == seq![digit_char(d as nat)],
{
    proof {
        reveal_strlit("0");
        reveal_strlit("1");
        reveal_strlit("2");
        reveal_strlit("3");
        reveal_strlit("4");
        reveal_strlit("5");
        reveal_strlit("6");
        reveal_strlit("7");
        reveal_strlit("8");
        reveal_strlit("9");
    }
    if d == 0 { "0" } else if d == 1 { "1" } else if d == 2 { "2" } else if d == 3 { "3" }
    else if d == 4 { "4" } else if d == 5 { "5" } else if d == 6 { "6" } else if d == 7 { "7" }
    else if d == 8 { "8" } else { "9" }
}

/// Writes `n` in canonical decimal.
pub fn decimal_string(n: u64) -> (s: String)
    ensures
        s@ == dec(n as nat),
    decreases n,
{
    if n < 10 {
        String::from_str(digit_str(n))
    } else {
        let prefix = decimal_string(n / 10);
        prefix.concat(digit_str(n % 10))
    }
}


/// The value of a decimal digit character, or ten for any other character.
pub open spec fn digit_value(c: char) -> nat {
    if c == '0' { 0 } else if c == '1' { 1 } else if c == '2' { 2 } else if c == '3' { 3 }
    else if c == '4' { 4 } else if c == '5' { 5 } else if c == '6' { 6 } else if c == '7' { 7 }
    else if c == '8' { 8 } else if c == '9' { 9 } else { 10 }
}

/// The number a sequence of decimal digits denotes, read left to right.
pub open spec fn digits_value(s: Seq<char>) -> nat
    decreases s.len(),
{
    if s.len() == 0 {
        0
    } else {
        digits_value(s.drop_last()) * 10 + digit_value(s.last())
    }
}

/// `s` is the canonical decimal text of some number: only digits, at least
/// one, and no leading zero unless it is the single digit zero.
pub open spec fn is_canonical_decimal(s: Seq<char>) -> bool {
    &&& s.len() >= 1
    &&& forall|i: int| 0 <= i < s.len() ==> digit_value(#[trigger] s[i]) < 10
    &&& (s[0] == '0' ==> s.len() == 1)
}

proof fn lemma_digit_roundtrip(d: nat)
    requires
        d < 10,
    ensures
        digit_value(digit_char(d)) == d,
{
}

proof fn lemma_digit_char_back(c: char)
    requires
        digit_value(c) < 10,
    ensures
        digit_char(digit_value(c)) == c,
{
}

/// The text of a number is canonical and denotes that number.
pub proof fn lemma_dec_canonical(n: nat)
    ensures
        is_canonical_decimal(dec(n)),
        digits_value(dec(n)) == n,
        n >= 10 ==> dec(n).len() >= 2,
        dec(n)[0] == '0' ==> n == 0,
    decreases n,
{
    if n < 10 {
        lemma_digit_roundtrip(n);
        assert(dec(n).drop_last() =~= Seq::<char>::empty());
        assert(digits_value(Seq::<char>::empty()) == 0);
        assert(digits_value(dec(n)) == digits_value(dec(n).drop_last()) * 10 + digit_value(dec(n).last()));
    } else {
        lemma_dec_canonical(n / 10);
        lemma_digit_roundtrip(n % 10);
        let s = dec(n);
        assert(s.drop_last() =~= dec(n / 10));
        assert forall|i: int| 0 <= i < s.len() implies digit_value(#[trigger] s[i]) < 10 by {
            if i < s.len() - 1 {
                assert(s[i] == dec(n / 10)[i]);
            }
        }
        assert(s[0] == dec(n / 10)[0]);
        assert(s.last() == digit_char(n % 10));
        assert((n / 10) * 10 + n % 10 == n) by (nonlinear_arith);
        assert(digits_value(s) == digits_value(s.drop_last()) * 10 + digit_value(s.last()));
    }
}

/// The digits are the ASCII characters `0` to `9`: digit `d` is the
/// character with code `48 + d`, and a character is read as a digit exactly
/// when its code is one of those, with value its code minus 48.
pub proof fn law_digits_are_ascii(d: nat, c: char)
    ensures
        d < 10 ==> digit_char(d) as u32 == 48 + d,
        digit_value(c) < 10 <==> (48 <= c as u32 && c as u32 <= 57),
        digit_value(c) < 10 ==> digit_value(c) == c as u32 - 48,
{
}

/// Canonical text is the text of the number it denotes.
pub proof fn lemma_canonical_is_dec(s: Seq<char>)
    requires
        is_canonical_decimal(s),
    ensures
        dec(digits_value(s)) == s,
        s.len() >= 2 ==> digits_value(s) >= 10,
    decreases s.len(),
{
    if s.len() == 1 {
        lemma_digit_char_back(s[0]);
        assert(s.drop_last() =~= Seq::<char>::empty());
        assert(digits_value(Seq::<char>::empty()) == 0);
        assert(digits_value(s) == digits_value(s.drop_last()) * 10 + digit_value(s.last()));
        assert(dec(digits_value(s)) =~= s);
    } else {
        let p = s.drop_last();
        assert(p[0] == s[0]);
        assert forall|i: int| 0 <= i < p.len() implies digit_value(#[trigger] p[i]) < 10 by {
            assert(p[i] == s[i]);
        }
        lemma_canonical_is_dec(p);
        let v = digits_value(s);
        let pv = digits_value(p);
        assert(digit_value(s.last()) < 10);
        if p.len() == 1 {
            assert(p[0] != '0');
            assert(pv >= 1);
        }
        assert(pv >= 1);
        assert(v / 10 == pv && v % 10 == digit_value(s.last())) by (nonlinear_arith)
            requires
                v == pv * 10 + digit_value(s.last()),
                digit_value(s.last()) < 10,
        ;
        lemma_digit_char_back(s.last());
        assert(dec(v) =~= p.push(s.last()));
        assert(p.push(s.last()) =~= s);
    }
}

/// Distinct numbers have distinct texts.
pub proof fn lemma_dec_injective(a: nat, b: nat)
    requires
        dec(a) == dec(b),
    ensures
        a == b,
{
    lemma_dec_canonical(a);
    lemma_dec_canonical(b);
}

/// Reads canonical decimal text back into the number it denotes; `None` for
/// any other text, and for numbers beyond `u64::MAX`.
pub fn parse_decimal(s: &str) -> (r: Option<u64>)
    ensures
        match r {
            Some(n) => s@ == dec(n as nat),
            None => forall|n: u64| s@ != dec(n as nat),
        },
{
    let len = s.unicode_len();
    if len == 0 {
        proof {
            assert forall|n: u64| s@ != dec(n as nat) by {
                lemma_dec_canonical(n as nat);
            }
        }
        return None;
    }
    let mut value: u64 = 0;
    let mut i: usize = 0;
    while i < len
        invariant
            len == s@.len(),
            i <= len,
            value as nat == digits_value(s@.subrange(0, i as int)),
            forall|k: int| 0 <= k < i ==> digit_value(#[trigger] s@[k]) < 10,
        decreases len - i,
    {
        let c = s.get_char(i);
        let d: u64 = if c == '0' { 0 } else if c == '1' { 1 } else if c == '2' { 2 } else if c == '3' { 3 }
            else if c == '4' { 4 } else if c == '5' { 5 } else if c == '6' { 6 } else if c == '7' { 7 }
            else if c == '8' { 8 } else if c == '9' { 9 } else { 10 };
        assert(s@.subrange(0, i + 1).drop_last() =~= s@.subrange(0, i as int));
        if d == 10 {
            proof {
                assert forall|n: u64| s@ != dec(n as nat) by {
                    lemma_dec_canonical(n as nat);
                    if s@ == dec(n as nat) {
                        assert(digit_value(s@[i as int]) < 10);
                    }
                }
            }
            return None;
        }
        if value > (u64::MAX - d) / 10 {
            proof {
                assert forall|n: u64| s@ != dec(n as nat) by {
                    lemma_dec_canonical(n as nat);
                    if s@ == dec(n as nat) {
                        lemma_prefix_value_bound(s@, (i + 1) as int);
                        assert(digits_value(s@.subrange(0, i + 1)) == value * 10 + d);
                        assert(value * 10 + d > u64::MAX) by (nonlinear_arith)
                            requires
                                value > (u64::MAX - d) / 10,
                                d < 10,
                        ;
                    }
                }
            }
            return None;
        }
        assert(value * 10 + d <= u64::MAX) by (nonlinear_arith)
            requires
                value <= (u64::MAX - d) / 10,
                d < 10,
        ;
        value = value * 10 + d;
        i = i + 1;
    }
    assert(s@.subrange(0, len as int) =~= s@);
    if s.get_char(0) == '0' && len > 1 {
        proof {
            assert forall|n: u64| s@ != dec(n as nat) by {
                lemma_dec_canonical(n as nat);
            }
        }
        return None;
    }
    proof {
        lemma_canonical_is_dec(s@);
    }
    Some(value)
}

/// The value of a prefix of a digit sequence never exceeds the value of the
/// whole sequence.
proof fn lemma_prefix_value_bound(s: Seq<char>, k: int)
    requires
        0 <= k <= s.len(),
        forall|i: int| 0 <= i < s.len() ==> digit_value(#[trigger] s[i]) < 10,
    ensures
        digits_value(s.subrange(0, k)) <= digits_value(s),
    decreases s.len() - k,
{
    if k < s.len() {
        lemma_prefix_value_bound(s, k + 1);
        let a = s.subrange(0, k);
        let b = s.subrange(0, k + 1);
        assert(b.drop_last() =~= a);
        assert(digits_value(b) == digits_value(a) * 10 + digit_value(b.last()));
    } else {
        assert(s.subrange(0, k) =~= s);
    }
}

} // verus!
