//! Numbers as text, and text as numbers.

use vstd::prelude::*;
use vstd::string::*;

verus! {

/// The character that stands for a digit below sixteen, letters in lower case.
pub open spec fn digit_char(d: nat) -> char {
    if d < 10 {
        (48 + d) as u8 as char
    } else {
        (87 + d) as u8 as char
    }
}

/// The decimal numeral of `n`, without sign or leading zeros.
pub open spec fn decimal_text(n: nat) -> Seq<char>
    decreases n,
{
    if n < 10 {
        seq![digit_char(n)]
    } else {
        decimal_text(n / 10) + seq![digit_char(n % 10)]
    }
}

/// The numeral of a signed number: a minus sign in front of a negative one.
pub open spec fn signed_text(n: int) -> Seq<char> {
    if n < 0 {
        seq!['-'] + decimal_text((-n) as nat)
    } else {
        decimal_text(n as nat)
    }
}

/// The hexadecimal numeral of `n` in lower case, without prefix or leading zeros.
pub open spec fn hex_text(n: nat) -> Seq<char>
    decreases n,
{
    if n < 16 {
        seq![digit_char(n)]
    } else {
        hex_text(n / 16) + seq![digit_char(n % 16)]
    }
}

/// The hexadecimal numeral of `n` behind the prefix `0x`.
pub open spec fn address_text(n: nat) -> Seq<char> {
    seq!['0', 'x'] + hex_text(n)
}

/// The views of a sequence of strings, one for one.
pub open spec fn texts(lines: Seq<String>) -> Seq<Seq<char>> {
    Seq::new(lines.len(), |i: int| lines[i]@)
}

fn digit_str(d: u8) -> (s: &'static str)
    requires
        d < 16,
    ensures
        s@ == seq![digit_char(d as nat)],
{
    let s = match d {
        0 => "0",
        1 => "1",
        2 => "2",
        3 => "3",
        4 => "4",
        5 => "5",
        6 => "6",
        7 => "7",
        8 => "8",
        9 => "9",
        10 => "a",
        11 => "b",
        12 => "c",
        13 => "d",
        14 => "e",
        _ => "f",
    };
    proof {
        reveal_strlit("0");
        reveal_strlit("1");
        reveal_strlit("2");
        reveal_strlit("3");
        reveal_strlit("4");
        reveal_strlit("5");
        reveal_strlit("6");
        reveal_strlit("7");
        reveal_strlit("8");
        reveal_strlit("9");
        reveal_strlit("a");
        reveal_strlit("b");
        reveal_strlit("c");
        reveal_strlit("d");
        reveal_strlit("e");
        reveal_strlit("f");
        assert(s@ =~= seq![digit_char(d as nat)]);
    }
    s
}

/// Writes `n` in decimal.
pub fn decimal(n: u64) -> (s: String)
    ensures
        s@ == decimal_text(n as nat),
{
    let mut out = String::from_str(digit_str((n % 10) as u8));
    let mut rest: u64 = n / 10;
    proof {
        if n >= 10 {
            assert(decimal_text(n as nat) == decimal_text(rest as nat) + out@);
        }
    }
    while rest > 0
        invariant
            rest > 0 ==> decimal_text(n as nat) == decimal_text(rest as nat) + out@,
            rest == 0 ==> decimal_text(n as nat) == out@,
        decreases rest,
    {
        let head = String::from_str(digit_str((rest % 10) as u8));
        let ghost before = out@;
        out = head.concat(out.as_str());
        proof {
            let r = rest as nat;
            if r >= 10 {
                assert(decimal_text(r) + before =~= decimal_text(r / 10) + out@);
            } else {
                assert(decimal_text(r) + before =~= out@);
            }
        }
        rest = rest / 10;
    }
    out
}

/// Writes a signed number in decimal.
pub fn signed_decimal(n: i32) -> (s: String)
    ensures
        s@ == signed_text(n as int),
{
    if n < 0 {
        let magnitude: u64 = (-(n as i64)) as u64;
        let digits = decimal(magnitude);
        let out = String::from_str("-").concat(digits.as_str());
        proof {
            reveal_strlit("-");
            assert(out@ =~= seq!['-'] + decimal_text((-(n as int)) as nat));
        }
        out
    } else {
        decimal(n as u64)
    }
}

/// Writes `n` in hexadecimal behind `0x`.
pub fn address(n: u64) -> (s: String)
    ensures
        s@ == address_text(n as nat),
{
    let mut out = String::from_str(digit_str((n % 16) as u8));
    let mut rest: u64 = n / 16;
    proof {
        if n >= 16 {
            assert(hex_text(n as nat) == hex_text(rest as nat) + out@);
        }
    }
    while rest > 0
        invariant
            rest > 0 ==> hex_text(n as nat) == hex_text(rest as nat) + out@,
            rest == 0 ==> hex_text(n as nat) == out@,
        decreases rest,
    {
        let head = String::from_str(digit_str((rest % 16) as u8));
        let ghost before = out@;
        out = head.concat(out.as_str());
        proof {
            let r = rest as nat;
            if r >= 16 {
                assert(hex_text(r) + before =~= hex_text(r / 16) + out@);
            } else {
                assert(hex_text(r) + before =~= out@);
            }
        }
        rest = rest / 16;
    }
    let prefixed = String::from_str("0x").concat(out.as_str());
    proof {
        reveal_strlit("0x");
        assert(prefixed@ =~= address_text(n as nat));
    }
    prefixed
}

/// What a character is worth as a digit in the given radix, if anything.
pub open spec fn digit_value(c: char, radix: nat) -> Option<nat> {
    let code = c as u32 as nat;
    let worth: nat = if 48 <= code <= 57 {
        (code - 48) as nat
    } else if 97 <= code <= 122 {
        (code - 87) as nat
    } else if 65 <= code <= 90 {
        (code - 55) as nat
    } else {
        radix
    };
    if worth < radix {
        Some(worth)
    } else {
        None
    }
}

/// Whether every character is a digit of the radix.
pub open spec fn all_digits(s: Seq<char>, radix: nat) -> bool {
    forall|i: int| 0 <= i < s.len() ==> (#[trigger] digit_value(s[i], radix)) is Some
}

/// The number that a run of digits writes, most significant digit first.
pub open spec fn digits_value(s: Seq<char>, radix: nat) -> nat
    decreases s.len(),
{
    if s.len() == 0 {
        0
    } else {
        digits_value(s.drop_last(), radix) * radix + digit_value(s.last(), radix).unwrap_or(0)
    }
}

/// The digits of a numeral: what follows one leading plus sign, if there is one.
pub open spec fn numeral_body(s: Seq<char>) -> Seq<char> {
    if s.len() > 0 && s[0] == '+' {
        s.subrange(1, s.len() as int)
    } else {
        s
    }
}

/// The number that a numeral writes: an optional plus sign, then at least one
/// digit of the radix and nothing else, and a value that fits in 64 bits.
pub open spec fn numeral_value(s: Seq<char>, radix: nat) -> Option<u64> {
    let body = numeral_body(s);
    if body.len() > 0 && all_digits(body, radix) && digits_value(body, radix) <= u64::MAX {
        Some(digits_value(body, radix) as u64)
    } else {
        None
    }
}

proof fn lemma_digits_value_grows(s: Seq<char>, k: int, radix: nat)
    requires
        0 <= k <= s.len(),
        radix >= 1,
    ensures
        digits_value(s.subrange(0, k), radix) <= digits_value(s, radix),
    decreases s.len() - k,
{
    if k == s.len() {
        assert(s.subrange(0, k) =~= s);
    } else {
        lemma_digits_value_grows(s, k + 1, radix);
        let longer = s.subrange(0, k + 1);
        assert(longer.drop_last() =~= s.subrange(0, k));
        let shorter = digits_value(s.subrange(0, k), radix);
        assert(shorter <= shorter * radix) by (nonlinear_arith)
            requires
                radix >= 1,
        ;
    }
}

fn digit_of(c: char, radix: u32) -> (d: Option<u32>)
    requires
        radix <= 36,
    ensures
        match d {
            Some(v) => digit_value(c, radix as nat) == Some(v as nat) && v < radix,
            None => digit_value(c, radix as nat) is None,
        },
{
    let code: u32 = c as u32;
    let worth: u32 = if 48 <= code && code <= 57 {
        code - 48
    } else if 97 <= code && code <= 122 {
        code - 87
    } else if 65 <= code && code <= 90 {
        code - 55
    } else {
        radix
    };
    if worth < radix {
        Some(worth)
    } else {
        None
    }
}

/// Reads a numeral in the given radix.
pub fn parse_numeral(s: &str, radix: u32) -> (value: Option<u64>)
    requires
        2 <= radix <= 36,
    ensures
        value == numeral_value(s@, radix as nat),
{
    let len = s.unicode_len();
    if len == 0 {
        return None;
    }
    let start: usize = if s.get_char(0) == '+' {
        1
    } else {
        0
    };
    let ghost body = numeral_body(s@);
    if start == len {
        return None;
    }
    let mut acc: u64 = 0;
    let mut i: usize = start;
    while i < len
        invariant
            start <= i <= len,
            len == s@.len(),
            2 <= radix <= 36,
            body == s@.subrange(start as int, len as int),
            body == numeral_body(s@),
            all_digits(body.subrange(0, i - start), radix as nat),
            acc == digits_value(body.subrange(0, i - start), radix as nat),
        decreases len - i,
    {
        let c = s.get_char(i);
        let ghost prefix = body.subrange(0, i - start);
        let ghost longer = body.subrange(0, i - start + 1);
        proof {
            assert(longer.drop_last() =~= prefix);
            assert(longer.last() == c);
        }
        match digit_of(c, radix) {
            None => {
                proof {
                    assert(digit_value(body[i - start], radix as nat) is None);
                }
                return None;
            },
            Some(d) => {
                assert((acc as int) * (radix as int) <= 0xffff_ffff_ffff_ffff * 36)
                    by (nonlinear_arith)
                    requires
                        0 <= acc <= 0xffff_ffff_ffff_ffff,
                        0 <= radix <= 36,
                ;
                let wide: u128 = (acc as u128) * (radix as u128) + (d as u128);
                if wide > u64::MAX as u128 {
                    proof {
                        lemma_digits_value_grows(body, i - start + 1, radix as nat);
                    }
                    return None;
                }
                acc = wide as u64;
                proof {
                    assert forall|j: int| 0 <= j < longer.len() implies (#[trigger] digit_value(
                        longer[j],
                        radix as nat,
                    )) is Some by {
                        if j < prefix.len() {
                            assert(longer[j] == prefix[j]);
                        }
                    }
                }
            },
        }
        i = i + 1;
    }
    proof {
        assert(body.subrange(0, len - start) =~= body);
    }
    Some(acc)
}

/// Whether two pieces of text are the same, character for character.
pub fn same_text(a: &str, b: &str) -> (same: bool)
    ensures
        same == (a@ == b@),
{
    let x = a.to_owned();
    let y = b.to_owned();
    x == y
}

} // verus!
