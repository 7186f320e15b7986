//! Radix encoding and decoding of non-negative integers: bases 10 to 36,
//! digits `0`-`9` then lowercase `a`-`z`, canonical minimal-length output.
use crate::ZidError;
use vstd::arithmetic::div_mod::{lemma_fundamental_div_mod, lemma_div_is_strictly_smaller};
use vstd::arithmetic::mul::lemma_mul_inequality;
use vstd::prelude::*;
use vstd::string::StrSliceExecFns;
use vstd::string::StringExecFns;

verus! {

proof fn lemma_mul_comm(a: int, b: int)
    ensures
        a * b == b * a,
{
    assert(a * b == b * a) by (nonlinear_arith);
}

proof fn lemma_mul_succ(a: int, b: int)
    ensures
        (a + 1) * b == a * b + b,
{
    assert((a + 1) * b == a * b + b) by (nonlinear_arith);
}

/// Character for digit value `d` (0 to 35): `0`-`9` then `a`-`z`.
pub open spec fn digit_char(d: int) -> char {
    if d < 10 {
        (48 + d) as char
    } else {
        (87 + d) as char
    }
}

/// Digit value of a character: 0 to 35 for valid digits, 36 for all others.
pub open spec fn digit_val(c: char) -> int {
    if '0' <= c && c <= '9' {
        c as int - 48
    } else if 'a' <= c && c <= 'z' {
        c as int - 87
    } else {
        36
    }
}

/// `c` is a digit of the given base.
pub open spec fn is_radix_digit(c: char, base: int) -> bool {
    digit_val(c) < base
}

/// A non-empty string made of digits of the given base.
pub open spec fn all_radix_digits(s: Seq<char>, base: int) -> bool {
    s.len() > 0 && forall|i: int| 0 <= i < s.len() ==> is_radix_digit(s[i], base)
}

/// The canonical (minimal-length, no leading zero) digit string of `t`.
pub open spec fn zid_of(t: nat, base: nat) -> Seq<char>
    decreases t,
        when base >= 2
        via zid_of_decreases
{
    if t < base {
        seq![digit_char(t as int)]
    } else {
        zid_of(t / base, base).push(digit_char((t % base) as int))
    }
}

#[via_fn]
proof fn zid_of_decreases(t: nat, base: nat) {
    if base >= 2 && t >= base {
        lemma_div_is_strictly_smaller(t as int, base as int);
    }
}

/// The numeric value of a digit string read in the given base.
pub open spec fn radix_val(s: Seq<char>, base: int) -> int
    decreases s.len(),
{
    if s.len() == 0 {
        0
    } else {
        radix_val(s.drop_last(), base) * base + digit_val(s.last())
    }
}

/// Reading back the character of a digit value gives the value.
pub proof fn lemma_digit_char_val(d: int)
    requires
        0 <= d < 36,
    ensures
        digit_val(digit_char(d)) == d,
        d > 0 ==> digit_char(d) != '0',
{
}

/// The canonical digit string of `t` is made of digits of its base, does not
/// start with a zero unless it is the single digit `0`, and reads back as `t`.
pub proof fn lemma_radix_round_trip(t: nat, base: nat)
    requires
        2 <= base <= 36,
    ensures
        all_radix_digits(zid_of(t, base), base as int),
        radix_val(zid_of(t, base), base as int) == t,
        t > 0 ==> zid_of(t, base)[0] != '0',
    decreases t,
{
    if t < base {
        lemma_digit_char_val(t as int);
        let single = zid_of(t, base);
        assert(single == seq![digit_char(t as int)]);
        assert(single.drop_last() =~= Seq::<char>::empty());
        assert(radix_val(Seq::<char>::empty(), base as int) == 0);
        assert(single.last() == digit_char(t as int));
        assert(radix_val(single, base as int) == 0 * (base as int) + digit_val(
            digit_char(t as int),
        ));
    } else {
        lemma_div_is_strictly_smaller(t as int, base as int);
        lemma_fundamental_div_mod(t as int, base as int);
        lemma_radix_round_trip(t / base, base);
        lemma_digit_char_val((t % base) as int);
        let prefix = zid_of(t / base, base);
        let last = digit_char((t % base) as int);
        let whole = zid_of(t, base);
        assert(whole == prefix.push(last));
        assert(whole.drop_last() =~= prefix);
        assert(whole.last() == last);
        assert(radix_val(whole, base as int) == radix_val(prefix, base as int) * base + digit_val(
            last,
        ));
        assert(radix_val(whole, base as int) == (t / base) * base + (t % base));
        lemma_mul_comm((t / base) as int, base as int);
        assert(t / base >= 1) by {
            if t / base == 0 {
                assert(t == base * 0 + (t % base));
            }
        }
        assert(whole[0] == prefix[0]);
        assert(forall|i: int|
            0 <= i < whole.len() ==> is_radix_digit(#[trigger] whole[i], base as int)) by {
            assert(forall|i: int| 0 <= i < prefix.len() ==> whole[i] == prefix[i]);
        }
    }
}

/// The one-character string for digit value `d`.
pub(crate) fn digit_str(d: u8) -> (r: &'static str)
    requires
        d < 36,
    ensures
        r@.len() == 1,
        r@[0] == digit_char(d as int),
{
    proof {
        reveal_strlit("0");
        reveal_strlit("1");
        reveal_strlit("2");
        reveal_strlit("3");
        reveal_strlit("4");
        reveal_strlit("5");
        reveal_strlit("6");
        reveal_strlit("7");
        reveal_strlit("8");
        reveal_strlit("9");
        reveal_strlit("a");
        reveal_strlit("b");
        reveal_strlit("c");
        reveal_strlit("d");
        reveal_strlit("e");
        reveal_strlit("f");
        reveal_strlit("g");
        reveal_strlit("h");
        reveal_strlit("i");
        reveal_strlit("j");
        reveal_strlit("k");
        reveal_strlit("l");
        reveal_strlit("m");
        reveal_strlit("n");
        reveal_strlit("o");
        reveal_strlit("p");
        reveal_strlit("q");
        reveal_strlit("r");
        reveal_strlit("s");
        reveal_strlit("t");
        reveal_strlit("u");
        reveal_strlit("v");
        reveal_strlit("w");
        reveal_strlit("x");
        reveal_strlit("y");
        reveal_strlit("z");
    }
    if d == 0 {
        "0"
    } else if d == 1 {
        "1"
    } else if d == 2 {
        "2"
    } else if d == 3 {
        "3"
    } else if d == 4 {
        "4"
    } else if d == 5 {
        "5"
    } else if d == 6 {
        "6"
    } else if d == 7 {
        "7"
    } else if d == 8 {
        "8"
    } else if d == 9 {
        "9"
    } else if d == 10 {
        "a"
    } else if d == 11 {
        "b"
    } else if d == 12 {
        "c"
    } else if d == 13 {
        "d"
    } else if d == 14 {
        "e"
    } else if d == 15 {
        "f"
    } else if d == 16 {
        "g"
    } else if d == 17 {
        "h"
    } else if d == 18 {
        "i"
    } else if d == 19 {
        "j"
    } else if d == 20 {
        "k"
    } else if d == 21 {
        "l"
    } else if d == 22 {
        "m"
    } else if d == 23 {
        "n"
    } else if d == 24 {
        "o"
    } else if d == 25 {
        "p"
    } else if d == 26 {
        "q"
    } else if d == 27 {
        "r"
    } else if d == 28 {
        "s"
    } else if d == 29 {
        "t"
    } else if d == 30 {
        "u"
    } else if d == 31 {
        "v"
    } else if d == 32 {
        "w"
    } else if d == 33 {
        "x"
    } else if d == 34 {
        "y"
    } else {
        "z"
    }
}

/// Digit value of a character, executable form.
fn char_val(c: char) -> (r: u8)
    ensures
        r == digit_val(c),
{
    if '0' <= c && c <= '9' {
        (c as u8) - 48
    } else if 'a' <= c && c <= 'z' {
        (c as u8) - 87
    } else {
        36
    }
}

/// Canonical radix encoding of `t` in the given base.
pub fn encode_radix(t: u64, base: u8) -> (s: String)
    requires
        10 <= base <= 36,
    ensures
        s@ == zid_of(t as nat, base as nat),
    decreases t,
{
    let b = base as u64;
    if t < b {
        let r = String::from_str(digit_str(t as u8));
        proof {
            assert(r@ =~= zid_of(t as nat, base as nat));
        }
        r
    } else {
        proof {
            lemma_div_is_strictly_smaller(t as int, b as int);
        }
        let d = (t % b) as u8;
        let mut s = encode_radix(t / b, base);
        s.append(digit_str(d));
        proof {
            assert(s@ =~= zid_of(t as nat, base as nat));
        }
        s
    }
}

/// Reads a non-empty digit string in the given base. Rejects any other
/// character with `ParseError` and any value above `u64::MAX` with
/// `RangeError`.
pub fn parse_radix(s: &str, base: u8) -> (r: Result<u64, ZidError>)
    requires
        10 <= base <= 36,
    ensures
        match r {
            Ok(t) => all_radix_digits(s@, base as int) && t == radix_val(s@, base as int),
            Err(ZidError::ParseError) => !all_radix_digits(s@, base as int),
            Err(ZidError::RangeError) => all_radix_digits(s@, base as int) && radix_val(
                s@,
                base as int,
            ) > u64::MAX,
        },
{
    let n = s.unicode_len();
    if n == 0 {
        return Err(ZidError::ParseError);
    }
    let mut i: usize = 0;
    let mut acc: u64 = 0;
    let mut over: bool = false;
    while i < n
        invariant
            10 <= base <= 36,
            n == s@.len(),
            0 <= i <= n,
            forall|j: int| 0 <= j < i ==> is_radix_digit(s@[j], base as int),
            !over ==> acc == radix_val(s@.take(i as int), base as int),
            over ==> radix_val(s@.take(i as int), base as int) > u64::MAX,
        decreases n - i,
    {
        let c = s.get_char(i);
        let d = char_val(c);
        if d >= base {
            return Err(ZidError::ParseError);
        }
        let ghost prev = radix_val(s@.take(i as int), base as int);
        proof {
            assert(s@.take(i as int + 1).drop_last() =~= s@.take(i as int));
            assert(s@.take(i as int + 1).last() == s@[i as int]);
            assert(radix_val(s@.take(i as int + 1), base as int) == prev * (base as int)
                + digit_val(s@[i as int]));
            assert(digit_val(s@[i as int]) == d);
        }
        if over {
            proof {
                lemma_mul_inequality(1, base as int, prev);
                lemma_mul_comm(prev, base as int);
                assert(1 * prev == prev);
                assert(prev * (base as int) >= prev);
            }
        } else {
            let db = d as u64;
            let q = (u64::MAX - db) / (base as u64);
            proof {
                lemma_fundamental_div_mod(u64::MAX - db, base as int);
                assert(u64::MAX - db == (base as int) * (q as int) + ((u64::MAX - db) % (
                base as int)));
            }
            if acc > q {
                proof {
                    lemma_mul_inequality(q as int + 1, acc as int, base as int);
                    lemma_mul_succ(q as int, base as int);
                    lemma_mul_comm(q as int, base as int);
                    assert((q as int + 1) * (base as int) <= (acc as int) * (base as int));
                    assert((acc as int) * (base as int) + db > u64::MAX);
                    assert(prev * (base as int) + digit_val(s@[i as int]) > u64::MAX);
                }
                over = true;
            } else {
                proof {
                    lemma_mul_inequality(acc as int, q as int, base as int);
                    lemma_mul_comm(q as int, base as int);
                    assert((acc as int) * (base as int) <= (q as int) * (base as int));
                    assert((acc as int) * (base as int) + db <= u64::MAX);
                }
                acc = acc * (base as u64) + db;
            }
        }
        i = i + 1;
    }
    proof {
        assert(s@.take(n as int) =~= s@);
    }
    if over {
        Err(ZidError::RangeError)
    } else {
        Ok(acc)
    }
}

} // verus!
