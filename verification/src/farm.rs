//! Factoring numbers taken from a queue of work.

use crate::text::{chars_of, decimal, parse_unsigned, push_decimal, read_unsigned};
use std::collections::VecDeque;
use vstd::arithmetic::div_mod::{lemma_fundamental_div_mod, lemma_mod_multiples_basic};
use vstd::prelude::*;

verus! {

/// Whether `d` divides `n`.
pub open spec fn divides(d: nat, n: nat) -> bool {
    d > 0 && n % d == 0
}

/// Whether `n` is a prime number: greater than one and divisible by no
/// number between itself and one.
pub open spec fn prime(n: nat) -> bool {
    n > 1 && forall|d: nat| 1 < d < n ==> !divides(d, n)
}

/// Whether `n` passes the quick test for primes: it is greater than one and
/// divisible by no number from two up to, but not including, the whole part
/// of its square root. Every prime passes it; so does a composite number
/// whose smallest divisor is that whole part, such as a square of a prime.
pub open spec fn passes_prime_test(n: nat) -> bool {
    n > 1 && forall|d: nat| 2 <= d && (d + 1) * (d + 1) <= n ==> !divides(d, n)
}

/// The product of the numbers of `s`.
pub open spec fn product(s: Seq<u32>) -> nat
    decreases s.len(),
{
    if s.len() == 0 {
        1
    } else {
        product(s.drop_last()) * (s.last() as nat)
    }
}

/// Whether the numbers of `s` never fall from one to the next.
pub open spec fn ascending(s: Seq<u32>) -> bool {
    forall|i: int, j: int| 0 <= i <= j < s.len() ==> s[i] <= s[j]
}

/// Whether `factors` is what factoring `n` gives.
///
/// One, and every number that passes the quick test for primes, stands for
/// itself. Of any other number the factors are its prime factors in
/// ascending order, each as often as it divides the number; zero has none.
pub open spec fn factors_of(n: nat, factors: Seq<u32>) -> bool {
    if n == 1 || passes_prime_test(n) {
        factors == seq![n as u32]
    } else if n == 0 {
        factors.len() == 0
    } else {
        &&& product(factors) == n
        &&& ascending(factors)
        &&& forall|i: int| 0 <= i < factors.len() ==> prime(#[trigger] factors[i] as nat)
    }
}

/// The quick test for primes.
pub fn is_prime(num: u32) -> (passes: bool)
    ensures
        passes == passes_prime_test(num as nat),
{
    if num <= 1 {
        return false;
    }
    let n: u64 = num as u64;
    let mut factor: u64 = 2;
    loop
        invariant
            n == num,
            2 <= factor <= 0x1_0000,
            forall|d: nat| 2 <= d < factor && (d + 1) * (d + 1) <= n ==> !divides(d, n as nat),
        ensures
            2 <= factor,
            (factor + 1) * (factor + 1) > n,
            forall|d: nat| 2 <= d < factor && (d + 1) * (d + 1) <= n ==> !divides(d, n as nat),
        decreases 0x1_0000 - factor,
    {
        let next: u64 = factor + 1;
        assert(next * next <= 0x1_0001 * 0x1_0001) by (nonlinear_arith)
            requires
                next <= 0x1_0001,
        ;
        if next * next > n {
            break ;
        }
        assert(factor < 0x1_0000) by (nonlinear_arith)
            requires
                (factor + 1) * (factor + 1) <= n,
                n <= 0xffff_ffff,
        ;
        if n % factor == 0 {
            assert(divides(factor as nat, n as nat));
            return false;
        }
        factor += 1;
    }
    assert forall|d: nat| 2 <= d && (d + 1) * (d + 1) <= n implies !divides(d, n as nat) by {
        if d >= factor {
            assert((factor + 1) * (factor + 1) <= (d + 1) * (d + 1)) by (nonlinear_arith)
                requires
                    d >= factor,
                    factor >= 2,
            ;
        }
    }
    true
}

/// A prime passes the quick test.
pub proof fn law_primes_pass(n: nat)
    requires
        prime(n),
    ensures
        passes_prime_test(n),
{
    assert forall|d: nat| 2 <= d && (d + 1) * (d + 1) <= n implies !divides(d, n) by {
        assert(d < n) by (nonlinear_arith)
            requires
                2 <= d,
                (d + 1) * (d + 1) <= n,
        ;
    }
}

proof fn lemma_divides_transitive(a: nat, b: nat, c: nat)
    requires
        divides(a, b),
        divides(b, c),
    ensures
        divides(a, c),
{
    lemma_fundamental_div_mod(b as int, a as int);
    lemma_fundamental_div_mod(c as int, b as int);
    let j = b / a;
    let k = c / b;
    assert(c == a * (j * k)) by (nonlinear_arith)
        requires
            b == a * j,
            c == b * k,
    ;
    lemma_mod_multiples_basic((j * k) as int, a as int);
    assert((j * k) * a == a * (j * k)) by (nonlinear_arith);
}

proof fn lemma_product_push(s: Seq<u32>, x: u32)
    ensures
        product(s.push(x)) == product(s) * (x as nat),
{
    assert(s.push(x).drop_last() =~= s);
}

/// Factors `num`.
pub fn factor_number(num: u32) -> (factors: Vec<u32>)
    ensures
        factors_of(num as nat, factors@),
{
    let mut factors: Vec<u32> = Vec::new();
    if num == 1 || is_prime(num) {
        factors.push(num);
        assert(factors@ =~= seq![num]);
        return factors;
    }
    if num == 0 {
        return factors;
    }
    let mut curr_num: u32 = num;
    let mut factor: u32 = 2;
    assert(product(factors@) == 1);
    while factor < num
        invariant
            num > 1,
            !passes_prime_test(num as nat),
            2 <= factor <= num,
            curr_num >= 1,
            product(factors@) * curr_num == num,
            ascending(factors@),
            forall|i: int| 0 <= i < factors@.len() ==> prime(#[trigger] factors@[i] as nat),
            forall|i: int| 0 <= i < factors@.len() ==> (#[trigger] factors@[i]) < factor,
            forall|d: nat| 1 < d < factor ==> !divides(d, curr_num as nat),
        decreases num - factor,
    {
        while curr_num % factor == 0
            invariant
                num > 1,
                2 <= factor < num,
                curr_num >= 1,
                product(factors@) * curr_num == num,
                ascending(factors@),
                forall|i: int| 0 <= i < factors@.len() ==> prime(#[trigger] factors@[i] as nat),
                forall|i: int| 0 <= i < factors@.len() ==> (#[trigger] factors@[i]) <= factor,
                forall|d: nat| 1 < d < factor ==> !divides(d, curr_num as nat),
            decreases curr_num,
        {
            let ghost before = factors@;
            let ghost whole = curr_num;
            proof {
                assert(prime(factor as nat)) by {
                    assert forall|d: nat| 1 < d < factor implies !divides(d, factor as nat) by {
                        if divides(d, factor as nat) {
                            lemma_divides_transitive(d, factor as nat, whole as nat);
                        }
                    }
                }
                lemma_fundamental_div_mod(whole as int, factor as int);
                lemma_product_push(before, factor);
                let quotient = whole / factor;
                assert(product(before) * factor * quotient == num) by (nonlinear_arith)
                    requires
                        product(before) * whole == num,
                        whole == factor * quotient,
                ;
                assert(quotient >= 1 && quotient < whole) by (nonlinear_arith)
                    requires
                        whole == factor * quotient,
                        whole >= 1,
                        factor >= 2,
                        quotient >= 0,
                ;
                assert forall|d: nat| 1 < d < factor implies !divides(d, quotient as nat) by {
                    if divides(d, quotient as nat) {
                        assert(divides(quotient as nat, whole as nat)) by {
                            lemma_mod_multiples_basic(factor as int, quotient as int);
                            assert(factor * quotient == whole);
                        }
                        lemma_divides_transitive(d, quotient as nat, whole as nat);
                    }
                }
            }
            factors.push(factor);
            curr_num /= factor;
            proof {
                assert forall|i: int, j: int| 0 <= i <= j < factors@.len() implies factors@[i]
                    <= factors@[j] by {
                    if j < before.len() {
                        assert(before[i] <= before[j]);
                    } else if i < before.len() {
                        assert(before[i] <= factor);
                    }
                }
            }
        }
        factor += 1;
    }
    proof {
        // What is left of the number has no divisor below the number
        // itself, so it is one: otherwise it would be the number, a prime,
        // which has passed the quick test.
        if curr_num > 1 {
            assert(product(factors@) >= 1) by (nonlinear_arith)
                requires
                    product(factors@) * curr_num == num,
                    num > 1,
                    curr_num >= 1,
            ;
            assert(curr_num <= num) by (nonlinear_arith)
                requires
                    product(factors@) * curr_num == num,
                    product(factors@) >= 1,
                    curr_num >= 1,
            ;
            if curr_num < num {
                assert(divides(curr_num as nat, curr_num as nat)) by {
                    lemma_mod_multiples_basic(1, curr_num as int);
                }
                assert(false);
            }
            assert(prime(num as nat));
            law_primes_pass(num as nat);
            assert(false);
        }
        assert(product(factors@) == num) by (nonlinear_arith)
            requires
                product(factors@) * curr_num == num,
                curr_num == 1,
        ;
    }
    factors
}

/// Takes the next number off the front of the queue, or finds it empty.
pub fn get_factor_number(number_queue: &mut VecDeque<u32>) -> (number: Option<u32>)
    ensures
        old(number_queue)@.len() == 0 ==> number is None
            && final(number_queue)@ == old(number_queue)@,
        old(number_queue)@.len() > 0 ==> number == Some(old(number_queue)@[0])
            && final(number_queue)@ == old(number_queue)@.skip(1),
{
    if number_queue.len() == 0 {
        return None;
    }
    let number = number_queue.pop_front();
    assert(number_queue@ =~= old(number_queue)@.skip(1));
    number
}

/// Works the queue off: factors each number, front first, until the queue
/// is empty, and returns the factors of each in that order.
pub fn factor_agent(number_queue: &mut VecDeque<u32>) -> (results: Vec<Vec<u32>>)
    ensures
        final(number_queue)@.len() == 0,
        results@.len() == old(number_queue)@.len(),
        forall|i: int|
            0 <= i < results@.len() ==> factors_of(
                old(number_queue)@[i] as nat,
                (#[trigger] results@[i])@,
            ),
{
    let mut results: Vec<Vec<u32>> = Vec::new();
    let ghost all = number_queue@;
    assert(all.skip(0) =~= all);
    loop
        invariant
            results@.len() <= all.len(),
            number_queue@ == all.skip(results@.len() as int),
            forall|i: int|
                0 <= i < results@.len() ==> factors_of(all[i] as nat, (#[trigger] results@[i])@),
        ensures
            number_queue@.len() == 0,
            results@.len() == all.len(),
            forall|i: int|
                0 <= i < results@.len() ==> factors_of(all[i] as nat, (#[trigger] results@[i])@),
        decreases number_queue@.len(),
    {
        let ghost done = results@.len() as int;
        match get_factor_number(number_queue) {
            None => {
                break ;
            },
            Some(number) => {
                assert(number == all[done]);
                assert(all.skip(done).skip(1) =~= all.skip(done + 1));
                results.push(factor_number(number));
            },
        }
    }
    results
}

/// The number that `s` writes in decimal, if it fits in thirty-two bits.
pub open spec fn number_of(s: Seq<char>) -> Option<u32> {
    match parse_unsigned(s, 10) {
        Some(value) => if value <= u32::MAX {
            Some(value as u32)
        } else {
            None
        },
        None => None,
    }
}

/// Reads the numbers to factor from the arguments of the program, in
/// order. An argument that is no number ends the reading: the result is its
/// position.
pub fn get_input_numbers(args: &Vec<String>) -> (numbers: Result<VecDeque<u32>, usize>)
    ensures
        match numbers {
            Ok(queue) => {
                &&& queue@.len() == args@.len()
                &&& forall|i: int|
                    0 <= i < args@.len() ==> number_of(args@[i]@) == Some(#[trigger] queue@[i])
            },
            Err(bad) => {
                &&& bad < args@.len()
                &&& number_of(args@[bad as int]@) is None
                &&& forall|i: int| 0 <= i < bad ==> number_of(#[trigger] args@[i]@) is Some
            },
        },
{
    let mut numbers: VecDeque<u32> = VecDeque::new();
    let mut i: usize = 0;
    while i < args.len()
        invariant
            i <= args@.len(),
            numbers@.len() == i,
            forall|k: int| 0 <= k < i ==> number_of(args@[k]@) == Some(#[trigger] numbers@[k]),
            forall|k: int| 0 <= k < i ==> number_of(#[trigger] args@[k]@) is Some,
        decreases args@.len() - i,
    {
        let chars = chars_of(args[i].as_str());
        assert(chars@ == args@[i as int]@);
        match read_unsigned(&chars, 10) {
            Some(value) => {
                if value > u32::MAX as usize {
                    return Err(i);
                }
                numbers.push_back(value as u32);
            },
            None => {
                return Err(i);
            },
        }
        i += 1;
    }
    Ok(numbers)
}

/// The numbers of `factors` written as a product: their decimal numerals
/// with ` * ` between them.
pub open spec fn product_text(factors: Seq<u32>) -> Seq<char>
    decreases factors.len(),
{
    if factors.len() == 0 {
        Seq::empty()
    } else if factors.len() == 1 {
        decimal(factors[0] as nat)
    } else {
        product_text(factors.drop_last()) + seq![' ', '*', ' '] + decimal(factors.last() as nat)
    }
}

/// Writes factors as a product.
pub fn format_factors(factors: &Vec<u32>) -> (text: String)
    ensures
        text@ == product_text(factors@),
{
    let mut text = String::new();
    let mut i: usize = 0;
    proof {
        assert(factors@.take(0) =~= Seq::<u32>::empty());
    }
    while i < factors.len()
        invariant
            i <= factors@.len(),
            text@ == product_text(factors@.take(i as int)),
        decreases factors@.len() - i,
    {
        proof {
            reveal_strlit(" * ");
            assert(factors@.take(i + 1).drop_last() =~= factors@.take(i as int));
            assert(" * "@ =~= seq![' ', '*', ' ']);
        }
        if i > 0 {
            text.append(" * ");
        }
        push_decimal(&mut text, factors[i]);
        proof {
            if i == 0 {
                assert(text@ =~= decimal(factors@[0] as nat));
            }
        }
        i += 1;
    }
    proof {
        assert(factors@.take(i as int) =~= factors@);
    }
    text
}

} // verus!
