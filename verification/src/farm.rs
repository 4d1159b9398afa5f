//! Factoring numbers taken from a shared queue.

use crate::text::{decimal, decimal_text, numeral_value, parse_numeral};
use std::collections::VecDeque;
use vstd::arithmetic::div_mod::{lemma_fundamental_div_mod, lemma_mod_multiples_basic};
use vstd::prelude::*;
use vstd::string::*;

verus! {

/// Whether `d` divides `n`.
pub open spec fn divides(d: nat, n: nat) -> bool {
    d != 0 && n % d == 0
}

/// Whether `n` is a prime number.
pub open spec fn is_prime_number(n: nat) -> bool {
    n >= 2 && forall|d: nat| 2 <= d < n ==> !divides(d, n)
}

/// Whether `n` passes the quick test: it is above one, and none of the
/// numbers from two up to, but not including, its integer square root
/// divides it.
pub open spec fn passes_quick_test(n: nat) -> bool {
    n > 1 && forall|d: nat| 2 <= d && (d + 1) * (d + 1) <= n ==> !divides(d, n)
}

/// The product of a list of numbers.
pub open spec fn product(s: Seq<u32>) -> nat
    decreases s.len(),
{
    if s.len() == 0 {
        1
    } else {
        product(s.drop_last()) * (s.last() as nat)
    }
}

/// Whether a list never goes down.
pub open spec fn ascending(s: Seq<u32>) -> bool {
    forall|i: int, j: int| 0 <= i <= j < s.len() ==> s[i] <= s[j]
}

/// The numbers of a list with ` * ` between them.
pub open spec fn product_text(s: Seq<u32>) -> Seq<char>
    decreases s.len(),
{
    if s.len() == 0 {
        Seq::empty()
    } else if s.len() == 1 {
        decimal_text(s[0] as nat)
    } else {
        product_text(s.drop_last()) + " * "@ + decimal_text(s.last() as nat)
    }
}

/// The line that shows a number with what it is the product of.
pub open spec fn factor_text(num: u32, factors: Seq<u32>) -> Seq<char> {
    decimal_text(num as nat) + " = "@ + product_text(factors)
}

/// Every prime number passes the quick test.
pub proof fn lemma_primes_pass_quick_test(n: nat)
    requires
        is_prime_number(n),
    ensures
        passes_quick_test(n),
{
    assert forall|d: nat| 2 <= d && (d + 1) * (d + 1) <= n implies !divides(d, n) by {
        assert(d < (d + 1) * (d + 1)) by (nonlinear_arith)
            requires
                d >= 2,
        ;
    }
}

proof fn lemma_divides_transitive(a: nat, b: nat, c: nat)
    requires
        divides(a, b),
        divides(b, c),
    ensures
        divides(a, c),
{
    lemma_fundamental_div_mod(b as int, a as int);
    lemma_fundamental_div_mod(c as int, b as int);
    let k = (b / a) as int;
    let m = (c / b) as int;
    assert(c == (m * k) * a) by (nonlinear_arith)
        requires
            b == a * k,
            c == b * m,
    ;
    lemma_mod_multiples_basic(m * k, a as int);
}

proof fn lemma_square_grows(a: nat, b: nat)
    requires
        a <= b,
    ensures
        (a + 1) * (a + 1) <= (b + 1) * (b + 1),
{
    assert((a + 1) * (a + 1) <= (b + 1) * (b + 1)) by (nonlinear_arith)
        requires
            a <= b,
    ;
}

/// Tests `num` by trial division below its integer square root.
pub fn is_prime(num: u32) -> (passed: bool)
    ensures
        passed == passes_quick_test(num as nat),
{
    if num <= 1 {
        return false;
    }
    let mut factor: u64 = 2;
    loop
        invariant
            2 <= factor <= 0x1_0000,
            num > 1,
            forall|d: nat| 2 <= d < factor ==> !divides(d, num as nat),
        ensures
            (factor + 1) * (factor + 1) > num,
        decreases 0x1_0000 - factor,
    {
        assert((factor + 1) * (factor + 1) <= 0x1_0001 * 0x1_0001) by (nonlinear_arith)
            requires
                factor <= 0x1_0000,
        ;
        if (factor + 1) * (factor + 1) > num as u64 {
            break ;
        }
        assert(factor < 0xffff) by (nonlinear_arith)
            requires
                (factor + 1) * (factor + 1) <= 0xffff_ffff,
                factor >= 0,
        ;
        if num as u64 % factor == 0 {
            assert(divides(factor as nat, num as nat));
            return false;
        }
        factor = factor + 1;
    }
    proof {
        assert forall|d: nat| 2 <= d && (d + 1) * (d + 1) <= num as nat implies !divides(
            d,
            num as nat,
        ) by {
            if d >= factor {
                lemma_square_grows(factor as nat, d);
            }
        }
    }
    true
}

/// What `factor_number` gives: for a number that is one or passes the quick
/// test, the number alone; for zero, nothing; for any other, its prime
/// factors in ascending order.
pub open spec fn is_factoring(num: u32, factors: Seq<u32>) -> bool {
    if num == 1 || passes_quick_test(num as nat) {
        factors == seq![num]
    } else if num == 0 {
        factors.len() == 0
    } else {
        &&& product(factors) == num
        &&& ascending(factors)
        &&& forall|i: int| 0 <= i < factors.len() ==> is_prime_number(#[trigger] factors[i] as nat)
    }
}

/// Splits `num` into the factors that are shown for it.
pub fn factor_number(num: u32) -> (factors: Vec<u32>)
    ensures
        is_factoring(num, factors@),
{
    let mut factors: Vec<u32> = Vec::new();
    if num == 1 || is_prime(num) {
        factors.push(num);
        assert(factors@ =~= seq![num]);
        return factors;
    }
    if num == 0 {
        return factors;
    }
    let mut curr_num: u32 = num;
    let mut factor: u32 = 2;
    assert(product(factors@) == 1);
    assert(curr_num * product(factors@) == num) by (nonlinear_arith)
        requires
            curr_num == num,
            product(factors@) == 1,
    ;
    while factor < num
        invariant
            2 <= factor <= num,
            1 <= curr_num <= num,
            curr_num * product(factors@) == num,
            forall|d: nat| 2 <= d < factor ==> !divides(d, curr_num as nat),
            ascending(factors@),
            forall|i: int| 0 <= i < factors@.len() ==> (#[trigger] factors@[i]) < factor,
            forall|i: int| 0 <= i < factors@.len() ==> is_prime_number(#[trigger] factors@[i] as nat),
        decreases num - factor,
    {
        while curr_num % factor == 0
            invariant
                2 <= factor < num,
                1 <= curr_num <= num,
                curr_num * product(factors@) == num,
                forall|d: nat| 2 <= d < factor ==> !divides(d, curr_num as nat),
                ascending(factors@),
                forall|i: int| 0 <= i < factors@.len() ==> (#[trigger] factors@[i]) <= factor,
                forall|i: int|
                    0 <= i < factors@.len() ==> is_prime_number(#[trigger] factors@[i] as nat),
            decreases curr_num,
        {
            let ghost before = factors@;
            let ghost whole = curr_num;
            proof {
                assert(divides(factor as nat, whole as nat));
                assert forall|d: nat| 2 <= d < factor implies !divides(d, factor as nat) by {
                    if divides(d, factor as nat) {
                        lemma_divides_transitive(d, factor as nat, whole as nat);
                    }
                }
                assert(is_prime_number(factor as nat));
            }
            factors.push(factor);
            curr_num = curr_num / factor;
            proof {
                lemma_fundamental_div_mod(whole as int, factor as int);
                assert(whole == factor * curr_num);
                assert(curr_num >= 1) by (nonlinear_arith)
                    requires
                        whole == factor * curr_num,
                        whole >= 1,
                        factor >= 2,
                        curr_num >= 0,
                ;
                assert(curr_num < whole) by (nonlinear_arith)
                    requires
                        whole == factor * curr_num,
                        curr_num >= 1,
                        factor >= 2,
                ;
                assert(factors@.drop_last() =~= before);
                assert(product(factors@) == product(before) * (factor as nat));
                assert(curr_num * product(factors@) == num) by (nonlinear_arith)
                    requires
                        whole * product(before) == num,
                        whole == factor * curr_num,
                        product(factors@) == product(before) * (factor as nat),
                ;
                assert forall|d: nat| 2 <= d < factor implies !divides(d, curr_num as nat) by {
                    if divides(d, curr_num as nat) {
                        lemma_mod_multiples_basic(factor as int, curr_num as int);
                        assert(factor * curr_num == whole);
                        assert(divides(curr_num as nat, whole as nat)) by {
                            assert((factor * curr_num) % (curr_num as int) == 0);
                        }
                        lemma_divides_transitive(d, curr_num as nat, whole as nat);
                    }
                }
                assert forall|i: int, j: int| 0 <= i <= j < factors@.len() implies factors@[i]
                    <= factors@[j] by {
                    if j < before.len() {
                        assert(before[i] <= before[j]);
                    } else {
                        if i < before.len() {
                            assert(before[i] <= factor);
                        }
                    }
                }
            }
        }
        factor = factor + 1;
    }
    proof {
        lemma_mod_multiples_basic(product(factors@) as int, curr_num as int);
        assert(product(factors@) * curr_num == num) by (nonlinear_arith)
            requires
                curr_num * product(factors@) == num,
        ;
        assert(divides(curr_num as nat, num as nat));
        if curr_num > 1 {
            if curr_num < num {
                assert(divides(curr_num as nat, curr_num as nat)) by {
                    lemma_mod_multiples_basic(1, curr_num as int);
                    assert(1 * curr_num == curr_num);
                }
                assert(false);
            } else {
                let d = choose|d: nat|
                    2 <= d && (d + 1) * (d + 1) <= num as nat && divides(d, num as nat);
                assert(d < (d + 1) * (d + 1)) by (nonlinear_arith)
                    requires
                        d >= 2,
                ;
                assert(false);
            }
        }
        assert(product(factors@) == num) by (nonlinear_arith)
            requires
                curr_num * product(factors@) == num,
                curr_num == 1,
        ;
    }
    factors
}

/// Writes the line that shows `num` with its factors.
pub fn factor_line(num: u32, factors: &Vec<u32>) -> (line: String)
    ensures
        line@ == factor_text(num, factors@),
{
    let mut joined = String::new();
    let mut i: usize = 0;
    while i < factors.len()
        invariant
            i <= factors@.len(),
            joined@ == product_text(factors@.subrange(0, i as int)),
        decreases factors.len() - i,
    {
        let ghost before = factors@.subrange(0, i as int);
        let ghost longer = factors@.subrange(0, i + 1);
        proof {
            assert(longer.drop_last() =~= before);
            assert(longer.last() == factors@[i as int]);
        }
        let digits = decimal(factors[i] as u64);
        if i > 0 {
            joined = joined.concat(" * ").concat(digits.as_str());
        } else {
            assert(before =~= Seq::<u32>::empty());
            joined = joined.concat(digits.as_str());
            assert(joined@ =~= decimal_text(factors@[0] as nat));
        }
        i = i + 1;
    }
    assert(factors@.subrange(0, i as int) =~= factors@);
    decimal(num as u64).concat(" = ").concat(joined.as_str())
}

/// The number that an argument writes, if it writes one that fits.
pub open spec fn argument_value(arg: Seq<char>) -> Option<u32> {
    match numeral_value(arg, 10) {
        Some(n) => if n <= u32::MAX {
            Some(n as u32)
        } else {
            None
        },
        None => None,
    }
}

/// The complaint about an argument that is no number.
pub open spec fn invalid_number_text(arg: Seq<char>) -> Seq<char> {
    arg + " is not a valid number"@
}

/// The index of the first argument that is no number.
pub open spec fn first_invalid(args: Seq<String>, from: int) -> Option<int>
    decreases args.len() - from,
{
    if from < 0 || from >= args.len() {
        None
    } else if argument_value(args[from]@) is None {
        Some(from)
    } else {
        first_invalid(args, from + 1)
    }
}

/// Reads the numbers to factor from the arguments, in their order; the first
/// argument that is no number is refused with a complaint.
pub fn get_input_numbers(args: &Vec<String>) -> (numbers: Result<VecDeque<u32>, String>)
    ensures
        match numbers {
            Ok(queue) => first_invalid(args@, 0) is None && queue@.len() == args@.len()
                && forall|i: int|
                0 <= i < args@.len() ==> argument_value(#[trigger] args@[i]@) == Some(queue@[i]),
            Err(complaint) => first_invalid(args@, 0) matches Some(i) && complaint@
                == invalid_number_text(args@[i]@),
        },
{
    let mut numbers: VecDeque<u32> = VecDeque::new();
    let mut i: usize = 0;
    while i < args.len()
        invariant
            i <= args@.len(),
            first_invalid(args@, 0) == first_invalid(args@, i as int),
            numbers@.len() == i,
            forall|k: int| 0 <= k < i ==> argument_value(#[trigger] args@[k]@) == Some(numbers@[k]),
        decreases args.len() - i,
    {
        let parsed = parse_numeral(args[i].as_str(), 10);
        let value: Option<u32> = match parsed {
            Some(n) => if n <= u32::MAX as u64 {
                Some(n as u32)
            } else {
                None
            },
            None => None,
        };
        match value {
            Some(v) => {
                numbers.push_back(v);
            },
            None => {
                let complaint = args[i].clone().concat(" is not a valid number");
                return Err(complaint);
            },
        }
        i = i + 1;
    }
    Ok(numbers)
}

/// Takes the next number off the queue.
pub fn get_number(queue: &mut VecDeque<u32>) -> (number: Option<u32>)
    ensures
        old(queue)@.len() == 0 ==> number is None && final(queue)@ == old(queue)@,
        old(queue)@.len() > 0 ==> number == Some(old(queue)@[0]) && final(queue)@ == old(
            queue,
        )@.drop_first(),
{
    let number = queue.pop_front();
    proof {
        if old(queue)@.len() > 0 {
            assert(queue@ =~= old(queue)@.drop_first());
        }
    }
    number
}

} // verus!
