//! Prices over a common denominator, with as many bits as they may take.

use vstd::arithmetic::power2::{lemma_pow2_adds, lemma_pow2_pos, pow2};
use vstd::prelude::*;

use crate::numbers::{bits_of, divides, Natural, Rational};
use crate::price_feed::views;

verus! {

/// The most bits that any of these numbers takes.
pub open spec fn most_bits(numerators: Seq<nat>, denominator: nat) -> nat
    decreases numerators.len(),
{
    if numerators.len() == 0 {
        bits_of(denominator)
    } else {
        let rest = most_bits(numerators.drop_last(), denominator);
        if bits_of(numerators.last()) > rest {
            bits_of(numerators.last())
        } else {
            rest
        }
    }
}

/// By how many bits the longest of these numbers is too long.
pub open spec fn surplus_bits(numerators: Seq<nat>, denominator: nat, max_bits: nat) -> nat {
    if most_bits(numerators, denominator) < max_bits {
        0
    } else {
        (most_bits(numerators, denominator) - max_bits) as nat
    }
}

/// How many bits are cut off so that none of these numbers takes more than `max_bits`: one more than the longest is too
/// long by, where rounding up makes the denominator longer.
pub open spec fn excess_bits(numerators: Seq<nat>, denominator: nat, max_bits: nat) -> nat {
    let surplus = surplus_bits(numerators, denominator, max_bits);
    if max_bits > 0 && bits_of(cut_denominator(denominator, surplus)) > max_bits {
        surplus + 1
    } else {
        surplus
    }
}

/// A denominator without its lowest bits, rounded up.
pub open spec fn cut_denominator(denominator: nat, excess: nat) -> nat {
    ((denominator + pow2(excess) - 1) / (pow2(excess) as int)) as nat
}

/// A number without its lowest bits.
pub open spec fn cut(number: nat, excess: nat) -> nat {
    number / pow2(excess)
}

/// Numerators without their lowest bits.
pub open spec fn cut_numerators(numerators: Seq<nat>, excess: nat) -> Seq<nat> {
    Seq::new(numerators.len(), |i: int| cut(numerators[i], excess))
}

/// Whether a number has one of its lowest bits set.
fn has_low_bits(number: &Natural, count: u64) -> (r: bool)
    ensures
        r == (number@ % pow2(count as nat) != 0),
{
    proof {
        lemma_pow2_pos(count as nat);
    }
    match number.trailing_zeros() {
        None => false,
        Some(zeros) => {
            proof {
                if count <= zeros {
                    lemma_divisible_by_less(number@, count as nat, zeros as nat);
                } else if number@ % pow2(count as nat) == 0 {
                    lemma_divisible_by_less(number@, (zeros + 1) as nat, count as nat);
                }
            }
            zeros < count
        },
    }
}

/// What a power of two divides, a lower power does.
proof fn lemma_divisible_by_less(n: nat, low: nat, high: nat)
    requires
        low <= high,
        n % pow2(high) == 0,
    ensures
        n % pow2(low) == 0,
{
    lemma_pow2_pos(low);
    lemma_pow2_pos(high);
    lemma_pow2_adds(low, (high - low) as nat);
    let a = pow2(low) as int;
    let b = pow2((high - low) as nat) as int;
    let k = n as int / (a * b);
    assert(n == (a * b) * k) by (nonlinear_arith)
        requires
            a * b > 0,
            n as int % (a * b) == 0,
            k == n as int / (a * b),
    ;
    assert((a * b) * k == a * (b * k)) by (nonlinear_arith);
    vstd::arithmetic::div_mod::lemma_mod_multiples_basic(b * k, a);
    assert((b * k) * a == a * (b * k)) by (nonlinear_arith);
}

/// Rounding up adds one to what is left, if a bit that was set is cut off.
proof fn lemma_cut_denominator(denominator: nat, excess: nat)
    ensures
        cut_denominator(denominator, excess) == denominator / pow2(excess) + if denominator % pow2(excess) != 0 {
            1int
        } else {
            0
        },
{
    lemma_pow2_pos(excess);
    let d = denominator as int;
    let s = pow2(excess) as int;
    let q = d / s;
    let r = d % s;
    vstd::arithmetic::div_mod::lemma_fundamental_div_mod(d, s);
    assert(d == q * s + r) by (nonlinear_arith)
        requires
            d == s * q + r,
    ;
    if r != 0 {
        assert(d + s - 1 == (q + 1) * s + (r - 1)) by (nonlinear_arith)
            requires
                d == q * s + r,
        ;
        vstd::arithmetic::div_mod::lemma_fundamental_div_mod_converse(d + s - 1, s, q + 1, r - 1);
    } else {
        vstd::arithmetic::div_mod::lemma_fundamental_div_mod_converse(d + s - 1, s, q, s - 1);
    }
    assert(q >= 0) by (nonlinear_arith)
        requires
            d == q * s + r,
            d >= 0,
            0 <= r < s,
    ;
}

/// A denominator without its lowest bits, rounded up.
fn round_up(denominator: &Natural, excess: u64) -> (r: Natural)
    ensures
        r@ == cut_denominator(denominator@, excess as nat),
{
    proof {
        lemma_cut_denominator(denominator@, excess as nat);
    }
    let rest = denominator.shifted_right(excess);
    if has_low_bits(denominator, excess) {
        rest.plus(&Natural::from_u64(1))
    } else {
        rest
    }
}

/// Cuts off as many of the lowest bits as it takes for no number to have more than `max_bits`: numerators are
/// rounded down, and the denominator is rounded up.
pub fn restrict_output_size(numerators: &mut Vec<Natural>, denominator: &mut Natural, max_bits: u64)
    ensures
        views(final(numerators)@) == cut_numerators(
            views(old(numerators)@),
            excess_bits(views(old(numerators)@), old(denominator)@, max_bits as nat),
        ),
        final(denominator)@ == cut_denominator(
            old(denominator)@,
            excess_bits(views(old(numerators)@), old(denominator)@, max_bits as nat),
        ),
{
    let ghost all = views(numerators@);
    let ghost whole = denominator@;
    let mut bits: u64 = denominator.bits();
    let mut i: usize = 0;
    assert(all.take(0) =~= seq![]);
    while i < numerators.len()
        invariant
            i <= numerators.len(),
            all == views(numerators@),
            whole == denominator@,
            bits as nat == most_bits(all.take(i as int), whole),
        decreases numerators.len() - i,
    {
        let more: u64 = numerators[i].bits();
        proof {
            assert(all.take(i + 1).drop_last() =~= all.take(i as int));
            assert(all.take(i + 1).last() == numerators@[i as int]@);
        }
        if more > bits {
            bits = more;
        }
        i += 1;
    }
    assert(all.take(i as int) =~= all);
    if bits < max_bits {
        proof {
            vstd::arithmetic::power2::lemma2_to64();
            assert(cut_numerators(all, 0) =~= all);
            lemma_most_bits(all, whole);
        }
        return;
    }
    let mut excess: u64 = bits - max_bits;
    // when rounding the denominator, bias away from 0
    let mut rest = round_up(denominator, excess);
    if max_bits > 0 && rest.bits() > max_bits {
        excess += 1;
        rest = round_up(denominator, excess);
    }
    assert(excess as nat == excess_bits(all, whole, max_bits as nat));
    *denominator = rest;
    // when rounding numerators, bias towards 0
    let mut rounded: Vec<Natural> = Vec::new();
    let mut k: usize = 0;
    while k < numerators.len()
        invariant
            k <= numerators.len(),
            all == views(numerators@),
            rounded.len() == k,
            forall|j: int| 0 <= j < k ==> (#[trigger] rounded@[j])@ == cut(all[j], excess as nat),
        decreases numerators.len() - k,
    {
        rounded.push(numerators[k].shifted_right(excess));
        k += 1;
    }
    proof {
        let after = cut_numerators(all, excess as nat);
        assert(views(rounded@) =~= after);
    }
    *numerators = rounded;
}

/// A multiple of a price.
#[verifier::opaque]
pub open spec fn multiple(price: real, by: nat) -> real {
    price * (by as real)
}

/// Whether this is the numerator of a price over a denominator.
pub open spec fn is_numerator(price: real, denominator: nat, n: int) -> bool {
    multiple(price, denominator) == n as real
}

/// Whether a price has a whole numerator over a denominator.
pub open spec fn has_numerator(price: real, denominator: nat) -> bool {
    exists|n: int| is_numerator(price, denominator, n)
}

/// Whether all these prices have whole numerators over this denominator.
pub open spec fn is_denominator(prices: Seq<real>, denominator: nat) -> bool {
    &&& denominator > 0
    &&& forall|i: int| 0 <= i < prices.len() ==> has_numerator(#[trigger] prices[i], denominator)
}

/// Whether this is the least such denominator.
pub open spec fn is_least_denominator(prices: Seq<real>, denominator: nat) -> bool {
    &&& is_denominator(prices, denominator)
    &&& forall|other: nat| #[trigger] is_denominator(prices, other) ==> denominator <= other
}

/// The least denominator over which all these prices have whole numerators.
pub open spec fn least_denominator(prices: Seq<real>) -> nat {
    choose|denominator: nat| is_least_denominator(prices, denominator)
}

/// The numerator of a price over a denominator.
pub open spec fn numerator(price: real, denominator: nat) -> nat {
    choose|n: nat| is_numerator(price, denominator, n as int)
}

/// The numerators of these prices over a denominator.
pub open spec fn numerators_over(prices: Seq<real>, denominator: nat) -> Seq<nat> {
    Seq::new(prices.len(), |i: int| numerator(prices[i], denominator))
}

/// Whether each of these prices is above zero.
pub open spec fn all_positive(prices: Seq<real>) -> bool {
    forall|i: int| 0 <= i < prices.len() ==> #[trigger] prices[i] > 0real
}

/// Whole numbers multiply as fractions do.
proof fn lemma_cast_product(a: int, b: int)
    ensures
        (a * b) as real == (a as real) * (b as real),
{
    assert((a * b) as real == (a as real) * (b as real)) by (nonlinear_arith);
}

/// What is left of a multiple after taking away others.
proof fn lemma_multiple_difference(price: real, a: nat, b: nat, q: nat, x: int, y: int)
    requires
        a >= b * q,
        multiple(price, a) == x as real,
        multiple(price, b) == y as real,
    ensures
        multiple(price, (a - b * q) as nat) == (x - y * q) as real,
{
    reveal(multiple);
    let r = (a - b * q) as nat;
    let ar = a as real;
    let br = b as real;
    let qr = q as real;
    let rr = r as real;
    let yr = y as real;
    lemma_cast_product(b as int, q as int);
    lemma_cast_product(y, q as int);
    assert(rr == ar - br * qr);
    assert(price * rr == price * ar - (price * br) * qr) by (nonlinear_arith)
        requires
            rr == ar - br * qr,
    ;
    assert((price * br) * qr == yr * qr) by (nonlinear_arith)
        requires
            price * br == yr,
    ;
}

/// A multiple of a multiple.
proof fn lemma_multiple_product(price: real, a: nat, q: nat, x: int)
    requires
        multiple(price, a) == x as real,
    ensures
        multiple(price, q * a) == (q * x) as real,
{
    reveal(multiple);
    lemma_cast_product(q as int, a as int);
    lemma_cast_product(q as int, x);
    let qr = q as real;
    let ar = a as real;
    let xr = x as real;
    assert(price * (qr * ar) == qr * xr) by (nonlinear_arith)
        requires
            price * ar == xr,
    ;
}

/// Among the denominators of these prices there is a least one.
proof fn lemma_least_exists(prices: Seq<real>, denominator: nat) -> (least: nat)
    requires
        is_denominator(prices, denominator),
    ensures
        is_least_denominator(prices, least),
        least <= denominator,
    decreases denominator,
{
    if exists|other: nat| #[trigger] is_denominator(prices, other) && other < denominator {
        let other = choose|other: nat| #[trigger] is_denominator(prices, other) && other < denominator;
        lemma_least_exists(prices, other)
    } else {
        denominator
    }
}

/// Whether nothing but one divides all of these.
spec fn share_no_divisor(numerators: Seq<nat>, denominator: nat) -> bool {
    forall|q: nat| #[trigger] divides(q, denominator) && divides_all(q, numerators) ==> q == 1
}

/// Whether a number divides each of these.
spec fn divides_all(q: nat, numerators: Seq<nat>) -> bool {
    forall|i: int| 0 <= i < numerators.len() ==> divides(q, #[trigger] numerators[i])
}

/// Whether these are the prices' numerators over this denominator.
spec fn are_numerators(prices: Seq<real>, numerators: Seq<nat>, denominator: nat) -> bool {
    &&& numerators.len() == prices.len()
    &&& forall|i: int| 0 <= i < prices.len() ==> is_numerator(prices[i], denominator, #[trigger] numerators[i] as int)
}

proof fn lemma_is_denominator(prices: Seq<real>, numerators: Seq<nat>, denominator: nat)
    requires
        denominator > 0,
        are_numerators(prices, numerators, denominator),
    ensures
        is_denominator(prices, denominator),
        numerators == numerators_over(prices, denominator),
{
    assert forall|i: int| 0 <= i < prices.len() implies has_numerator(#[trigger] prices[i], denominator) by {
        assert(is_numerator(prices[i], denominator, numerators[i] as int));
    }
    assert forall|i: int| 0 <= i < prices.len() implies #[trigger] numerators[i] == numerator(prices[i], denominator) by {
        assert(is_numerator(prices[i], denominator, numerators[i] as int));
    }
    assert(numerators =~= numerators_over(prices, denominator));
}

/// What is left of a denominator after taking away others is zero or a denominator.
proof fn lemma_remaining_denominator(prices: Seq<real>, numerators: Seq<nat>, denominator: nat, other: nat, q: nat)
    requires
        are_numerators(prices, numerators, denominator),
        is_denominator(prices, other),
        denominator > other * q,
    ensures
        is_denominator(prices, (denominator - other * q) as nat),
{
    let r = (denominator - other * q) as nat;
    assert forall|i: int| 0 <= i < prices.len() implies has_numerator(#[trigger] prices[i], r) by {
        assert(is_numerator(prices[i], denominator, numerators[i] as int));
        assert(has_numerator(prices[i], other));
        let y = choose|n: int| is_numerator(prices[i], other, n);
        lemma_multiple_difference(prices[i], denominator, other, q, numerators[i] as int, y);
        assert(is_numerator(prices[i], r, numerators[i] - y * q));
    }
}

/// If a denominator is a multiple of another, the numerators are too.
proof fn lemma_numerators_divisible(prices: Seq<real>, numerators: Seq<nat>, other: nat, q: nat)
    requires
        q > 0,
        are_numerators(prices, numerators, q * other),
        is_denominator(prices, other),
    ensures
        divides_all(q, numerators),
{
    assert forall|i: int| 0 <= i < numerators.len() implies divides(q, #[trigger] numerators[i]) by {
        assert(is_numerator(prices[i], q * other, numerators[i] as int));
        assert(has_numerator(prices[i], other));
        let n = choose|n: int| is_numerator(prices[i], other, n);
        lemma_multiple_product(prices[i], other, q, n);
        let product = q * n;
        assert(numerators[i] as int == product);
        assert(n >= 0) by (nonlinear_arith)
            requires
                product == q * n,
                q > 0,
                product >= 0,
        ;
        let k = n as nat;
        assert(numerators[i] == q * k);
    }
}

/// Numerators over a denominator that share no divisor with it are over the least one.
proof fn lemma_least(prices: Seq<real>, numerators: Seq<nat>, denominator: nat)
    requires
        denominator > 0,
        are_numerators(prices, numerators, denominator),
        share_no_divisor(numerators, denominator),
    ensures
        is_least_denominator(prices, denominator),
        denominator == least_denominator(prices),
        numerators == numerators_over(prices, denominator),
{
    lemma_is_denominator(prices, numerators, denominator);
    let least = lemma_least_exists(prices, denominator);
    let q = denominator / least;
    let r = denominator % least;
    vstd::arithmetic::div_mod::lemma_fundamental_div_mod(denominator as int, least as int);
    assert(denominator == least * q + r);
    if r > 0 {
        lemma_remaining_denominator(prices, numerators, denominator, least, q);
        assert((denominator - least * q) as nat == r);
        assert(is_denominator(prices, r));
        assert(false);
    }
    assert(denominator == q * least) by (nonlinear_arith)
        requires
            denominator == least * q + r,
            r == 0,
    ;
    assert(q > 0) by (nonlinear_arith)
        requires
            denominator == q * least,
            denominator > 0,
    ;
    assert(divides(q, denominator));
    lemma_numerators_divisible(prices, numerators, least, q);
    assert(q == 1);
    assert(denominator == least) by (nonlinear_arith)
        requires
            denominator == q * least,
            q == 1,
    ;
    let chosen = least_denominator(prices);
    assert(is_least_denominator(prices, denominator));
    assert(is_least_denominator(prices, chosen));
    assert(chosen == denominator);
}

/// Dividing a number and its multiple by what divides both.
proof fn lemma_exact(n: nat, g: nat) -> (k: nat)
    requires
        g > 0,
        divides(g, n),
    ensures
        n == g * k,
        n / g == k,
{
    let k = choose|k: nat| n == #[trigger] (g * k);
    vstd::arithmetic::div_mod::lemma_div_multiples_vanish(k as int, g as int);
    k
}

/// Divides out what these numbers share.
fn reduce(numerators: Vec<Natural>, denominator: Natural, Ghost(prices): Ghost<Seq<real>>) -> (r: (
    Vec<Natural>,
    Natural,
))
    requires
        denominator@ > 0,
        are_numerators(prices, views(numerators@), denominator@),
    ensures
        is_least_denominator(prices, r.1@),
        r.1@ == least_denominator(prices),
        views(r.0@) == numerators_over(prices, r.1@),
{
    let ghost all = views(numerators@);
    let ghost whole = denominator@;
    let mut gcd = denominator.clone();
    let mut i: usize = 0;
    assert(divides(whole, whole)) by {
        assert(whole == whole * 1nat);
    }
    while i < numerators.len()
        invariant
            i <= numerators.len(),
            all == views(numerators@),
            divides(gcd@, whole),
            divides_all(gcd@, all.take(i as int)),
            forall|q: nat| #[trigger] divides(q, whole) && divides_all(q, all.take(i as int)) ==> divides(q, gcd@),
        decreases numerators.len() - i,
    {
        let ghost before = gcd@;
        let ghost front = all.take(i as int);
        let ghost now = all.take(i + 1);
        gcd = gcd.gcd(&numerators[i]);
        proof {
            let after = gcd@;
            assert(now =~= front.push(all[i as int]));
            assert(all[i as int] == numerators@[i as int]@);
            lemma_divides_transitive(after, before, whole);
            assert forall|j: int| 0 <= j < now.len() implies divides(after, #[trigger] now[j]) by {
                if j < i {
                    assert(now[j] == front[j]);
                    lemma_divides_transitive(after, before, front[j]);
                }
            }
            assert forall|q: nat| #[trigger] divides(q, whole) && divides_all(q, now) implies divides(q, after) by {
                assert forall|j: int| 0 <= j < front.len() implies divides(q, #[trigger] front[j]) by {
                    assert(now[j] == front[j]);
                }
                assert(divides_all(q, front));
                assert(divides(q, before));
                assert(divides(q, now[i as int]));
            }
        }
        i += 1;
    }
    let ghost g = gcd@;
    proof {
        assert(all.take(i as int) =~= all);
        assert(g > 0) by {
            let k = choose|k: nat| whole == #[trigger] (g * k);
            if g == 0 {
                assert(g * k == 0) by (nonlinear_arith)
                    requires
                        g == 0,
                ;
            }
        }
    }
    let reduced = denominator.over(&gcd);
    let ghost left = reduced@;
    let mut over: Vec<Natural> = Vec::new();
    let mut j: usize = 0;
    while j < numerators.len()
        invariant
            j <= numerators.len(),
            gcd@ == g,
            g > 0,
            all == views(numerators@),
            over.len() == j,
            forall|k: int| 0 <= k < j ==> (#[trigger] over@[k])@ == cut_by(all[k], g),
        decreases numerators.len() - j,
    {
        over.push(numerators[j].over(&gcd));
        j += 1;
    }
    proof {
        let found = views(over@);
        let l = lemma_exact(whole, g);
        assert(left == l);
        assert(left > 0) by (nonlinear_arith)
            requires
                whole == g * l,
                whole > 0,
                left == l,
        ;
        assert forall|i: int| 0 <= i < prices.len() implies is_numerator(prices[i], left, #[trigger] found[i] as int) by {
            assert(divides(g, all[i]));
            let k = lemma_exact(all[i], g);
            assert(found[i] == over@[i]@ && over@[i]@ == cut_by(all[i], g));
            assert(is_numerator(prices[i], whole, all[i] as int));
            lemma_reduced_fraction(prices[i], all[i], whole, g, k, l);
        }
        assert forall|q: nat| #[trigger] divides(q, left) && divides_all(q, found) implies q == 1 by {
            lemma_divides_multiple(q, left, g);
            assert(whole == left * g) by (nonlinear_arith)
                requires
                    whole == g * l,
                    left == l,
            ;
            assert forall|i: int| 0 <= i < all.len() implies divides(q * g, #[trigger] all[i]) by {
                assert(divides(g, all[i]));
                let k = lemma_exact(all[i], g);
                assert(found[i] == over@[i]@ && over@[i]@ == cut_by(all[i], g));
                assert(divides(q, found[i]));
                lemma_divides_multiple(q, found[i], g);
                assert(all[i] == found[i] * g) by (nonlinear_arith)
                    requires
                        all[i] == g * k,
                        found[i] == k,
                ;
            }
            assert(divides_all(q * g, all));
            assert(divides(q * g, g));
            let k = choose|k: nat| g == #[trigger] ((q * g) * k);
            assert(q == 1) by (nonlinear_arith)
                requires
                    g == (q * g) * k,
                    g > 0,
            ;
        }
        lemma_least(prices, found, left);
    }
    (over, reduced)
}

/// The quotient of two numbers, rounded down.
spec fn cut_by(n: nat, d: nat) -> nat {
    n / d
}

proof fn lemma_divides_transitive(a: nat, b: nat, c: nat)
    requires
        divides(a, b),
        divides(b, c),
    ensures
        divides(a, c),
{
    let x = choose|x: nat| b == #[trigger] (a * x);
    let y = choose|y: nat| c == #[trigger] (b * y);
    assert(c == a * (x * y)) by (nonlinear_arith)
        requires
            b == a * x,
            c == b * y,
    ;
}

proof fn lemma_divides_multiple(a: nat, b: nat, g: nat)
    requires
        divides(a, b),
    ensures
        divides(a * g, b * g),
{
    let x = choose|x: nat| b == #[trigger] (a * x);
    assert(b * g == (a * g) * x) by (nonlinear_arith)
        requires
            b == a * x,
    ;
}

proof fn lemma_reduced_fraction(price: real, n: nat, d: nat, g: nat, k: nat, l: nat)
    requires
        g > 0,
        n as real == multiple(price, d),
        n == g * k,
        d == g * l,
    ensures
        k as real == multiple(price, l),
{
    reveal(multiple);
    lemma_cast_product(g as int, k as int);
    lemma_cast_product(g as int, l as int);
    let gr = g as real;
    let kr = k as real;
    let lr = l as real;
    assert(kr == price * lr) by (nonlinear_arith)
        requires
            gr > 0real,
            gr * kr == price * (gr * lr),
    ;
}

/// A fraction's numerator is its numerator over its denominator.
proof fn lemma_own_numerator(price: real, n: nat, d: nat)
    requires
        d > 0,
        price == (n as real) / (d as real),
    ensures
        is_numerator(price, d, n as int),
{
    reveal(multiple);
    let nr = n as real;
    let dr = d as real;
    assert((nr / dr) * dr == nr) by (nonlinear_arith)
        requires
            dr > 0real,
    ;
}

/// The numerators and the common denominator of these prices: the least one, and then as many of the lowest bits
/// of all of them are cut off as it takes for none to have more than `max_bits`.
pub fn normalize(prices: &[Rational], max_bits: u64) -> (r: (Vec<Natural>, Natural))
    requires
        all_positive(views(prices@)),
    ensures
        ({
            let least = least_denominator(views(prices@));
            let numerators = numerators_over(views(prices@), least);
            let excess = excess_bits(numerators, least, max_bits as nat);
            &&& is_least_denominator(views(prices@), least)
            &&& views(r.0@) == cut_numerators(numerators, excess)
            &&& r.1@ == cut_denominator(least, excess)
        }),
{
    let ghost all = views(prices@);
    let mut parts: Vec<(Natural, Natural)> = Vec::new();
    let mut denominator = Natural::from_u64(1);
    let mut i: usize = 0;
    while i < prices.len()
        invariant
            i <= prices.len(),
            all == views(prices@),
            all_positive(all),
            denominator@ > 0,
            parts.len() == i,
            forall|j: int|
                0 <= j < i ==> {
                    &&& (#[trigger] parts@[j]).1@ > 0
                    &&& is_numerator(all[j], parts@[j].1@, parts@[j].0@ as int)
                    &&& divides(parts@[j].1@, denominator@)
                },
        decreases prices.len() - i,
    {
        assert(all[i as int] == prices@[i as int]@);
        let (n, d) = prices[i].to_parts();
        let ghost before = denominator@;
        denominator = denominator.times(&d);
        proof {
            lemma_own_numerator(all[i as int], n@, d@);
            assert(before * d@ > 0) by (nonlinear_arith)
                requires
                    before > 0,
                    d@ > 0,
            ;
            assert(divides(d@, before * d@)) by {
                assert(before * d@ == d@ * before) by (nonlinear_arith);
            }
            assert forall|j: int| 0 <= j < i implies divides((#[trigger] parts@[j]).1@, before * d@) by {
                lemma_divides_scaled(parts@[j].1@, before, d@);
            }
        }
        parts.push((n, d));
        i += 1;
    }
    let ghost whole = denominator@;
    let mut numerators: Vec<Natural> = Vec::new();
    let mut k: usize = 0;
    while k < parts.len()
        invariant
            k <= parts.len(),
            parts.len() == all.len(),
            whole == denominator@,
            forall|j: int|
                0 <= j < parts@.len() ==> {
                    &&& (#[trigger] parts@[j]).1@ > 0
                    &&& is_numerator(all[j], parts@[j].1@, parts@[j].0@ as int)
                    &&& divides(parts@[j].1@, whole)
                },
            numerators.len() == k,
            forall|j: int| 0 <= j < k ==> is_numerator(all[j], whole, (#[trigger] numerators@[j])@ as int),
        decreases parts.len() - k,
    {
        let part = &parts[k];
        let ghost n = part.0@;
        let ghost d = part.1@;
        let over = part.0.times(&denominator).over(&part.1);
        proof {
            assert(parts@[k as int].1@ > 0);
            let m = lemma_exact(whole, d);
            assert(n * whole == d * (n * m)) by (nonlinear_arith)
                requires
                    whole == d * m,
            ;
            vstd::arithmetic::div_mod::lemma_div_multiples_vanish((n * m) as int, d as int);
            assert(over@ == n * m);
            lemma_multiple_product(all[k as int], d, m, n as int);
            assert(m * d == whole) by (nonlinear_arith)
                requires
                    whole == d * m,
            ;
            assert(m * n == n * m) by (nonlinear_arith);
            assert(is_numerator(all[k as int], whole, over@ as int));
        }
        numerators.push(over);
        k += 1;
    }
    proof {
        let found = views(numerators@);
        assert forall|j: int| 0 <= j < all.len() implies is_numerator(all[j], whole, #[trigger] found[j] as int) by {
            assert(found[j] == numerators@[j]@);
        }
        assert(are_numerators(all, found, whole));
    }
    let (mut numerators, mut denominator) = reduce(numerators, denominator, Ghost(all));
    restrict_output_size(&mut numerators, &mut denominator, max_bits);
    (numerators, denominator)
}

proof fn lemma_divides_scaled(a: nat, b: nat, g: nat)
    requires
        divides(a, b),
    ensures
        divides(a, b * g),
{
    let x = choose|x: nat| b == #[trigger] (a * x);
    assert(b * g == a * (x * g)) by (nonlinear_arith)
        requires
            b == a * x,
    ;
}

/// No number that is left takes more than the bits that it may take, if it may take any.
pub proof fn law_output_fits(numerators: Seq<nat>, denominator: nat, max_bits: nat)
    requires
        max_bits > 0,
    ensures
        ({
            let excess = excess_bits(numerators, denominator, max_bits);
            &&& bits_of(cut_denominator(denominator, excess)) <= max_bits
            &&& forall|i: int|
                0 <= i < numerators.len() ==> bits_of(#[trigger] cut_numerators(numerators, excess)[i]) <= max_bits
        }),
{
    let excess = excess_bits(numerators, denominator, max_bits);
    let surplus = surplus_bits(numerators, denominator, max_bits);
    let bits = most_bits(numerators, denominator);
    lemma_most_bits(numerators, denominator);
    if bits < max_bits {
        vstd::arithmetic::power2::lemma2_to64();
    } else {
        lemma_bits_bound(denominator, bits);
        if excess == surplus {
            lemma_pow2_adds(surplus, max_bits);
        } else {
            lemma_pow2_adds(excess, (max_bits - 1) as nat);
            lemma_rounded_up_fits(denominator, excess, (max_bits - 1) as nat);
            vstd::arithmetic::power2::lemma_pow2_unfold(max_bits);
            lemma_pow2_pos((max_bits - 1) as nat);
            lemma_bits_within(cut_denominator(denominator, excess), max_bits);
        }
    }
    assert forall|i: int| 0 <= i < numerators.len() implies bits_of(
        #[trigger] cut_numerators(numerators, excess)[i],
    ) <= max_bits by {
        lemma_cut_bits(numerators[i], bits, excess);
    }
}

/// What is at most so many times a power of two is, rounded up, at most that many of it.
proof fn lemma_rounded_up_fits(denominator: nat, excess: nat, bits: nat)
    requires
        denominator <= pow2(excess) * pow2(bits),
    ensures
        cut_denominator(denominator, excess) <= pow2(bits),
{
    lemma_pow2_pos(excess);
    let d = denominator as int;
    let s = pow2(excess) as int;
    let b = pow2(bits) as int;
    assert((d + s - 1) / s <= b) by (nonlinear_arith)
        requires
            s > 0,
            d <= s * b,
    ;
}

proof fn lemma_most_bits(numerators: Seq<nat>, denominator: nat)
    ensures
        bits_of(denominator) <= most_bits(numerators, denominator),
        forall|i: int| 0 <= i < numerators.len() ==> bits_of(#[trigger] numerators[i]) <= most_bits(numerators, denominator),
    decreases numerators.len(),
{
    if numerators.len() > 0 {
        let front = numerators.drop_last();
        lemma_most_bits(front, denominator);
        assert forall|i: int| 0 <= i < numerators.len() implies bits_of(#[trigger] numerators[i]) <= most_bits(
            numerators,
            denominator,
        ) by {
            if i < front.len() {
                assert(front[i] == numerators[i]);
            }
        }
    }
}

/// A number of so many bits is below that power of two.
proof fn lemma_bits_bound(n: nat, bits: nat)
    requires
        bits_of(n) <= bits,
    ensures
        n < pow2(bits),
    decreases bits,
{
    lemma_pow2_pos(bits);
    if n > 0 {
        lemma_bits_bound(n / 2, (bits - 1) as nat);
        vstd::arithmetic::power2::lemma_pow2_unfold(bits);
    }
}

/// A number below a power of two takes no more bits.
proof fn lemma_bits_within(n: nat, bits: nat)
    requires
        n < pow2(bits),
    ensures
        bits_of(n) <= bits,
    decreases bits,
{
    if n > 0 {
        if bits == 0 {
            vstd::arithmetic::power2::lemma2_to64();
        } else {
            vstd::arithmetic::power2::lemma_pow2_unfold(bits);
            lemma_bits_within(n / 2, (bits - 1) as nat);
        }
    }
}

/// Cutting bits off leaves as many fewer.
proof fn lemma_cut_bits(n: nat, bits: nat, excess: nat)
    requires
        bits_of(n) <= bits,
        excess <= bits,
    ensures
        bits_of(cut(n, excess)) <= bits - excess,
{
    lemma_bits_bound(n, bits);
    lemma_pow2_pos(excess);
    lemma_pow2_adds(excess, (bits - excess) as nat);
    let a = pow2(excess) as int;
    let b = pow2((bits - excess) as nat) as int;
    assert(n as int / a < b) by (nonlinear_arith)
        requires
            a > 0,
            (n as int) < a * b,
    ;
    lemma_bits_within(cut(n, excess), (bits - excess) as nat);
}

/// Cutting bits off raises no price.
pub proof fn law_cutting_raises_no_price(numerator: nat, denominator: nat, excess: nat)
    ensures
        cut(numerator, excess) * denominator <= numerator * cut_denominator(denominator, excess),
{
    lemma_pow2_pos(excess);
    lemma_cut_denominator(denominator, excess);
    let s = pow2(excess) as int;
    let n = numerator as int;
    let d = denominator as int;
    let low = n / s;
    let high = cut_denominator(denominator, excess) as int;
    vstd::arithmetic::div_mod::lemma_fundamental_div_mod(n, s);
    vstd::arithmetic::div_mod::lemma_fundamental_div_mod(d, s);
    assert(s * low <= n);
    assert(d <= s * high) by (nonlinear_arith)
        requires
            d == s * (d / s) + d % s,
            0 <= d % s < s,
            high == d / s || high == d / s + 1,
            d % s != 0 ==> high == d / s + 1,
    ;
    assert(low * d <= n * high) by (nonlinear_arith)
        requires
            low >= 0,
            s * low <= n,
            d <= s * high,
            high >= 0,
    ;
}

/// A number with more bits has as many more when the lowest are cut off.
proof fn lemma_bits_left(n: nat, excess: nat)
    requires
        excess < bits_of(n),
    ensures
        bits_of(cut(n, excess)) == bits_of(n) - excess,
{
    lemma_cut_bits(n, bits_of(n), excess);
    lemma_pow2_pos(excess);
    let left = cut(n, excess);
    let bits = (bits_of(n) - excess) as nat;
    if bits_of(left) < bits {
        lemma_bits_bound(left, (bits - 1) as nat);
        lemma_pow2_adds(excess, (bits - 1) as nat);
        let a = pow2(excess) as int;
        let b = pow2((bits - 1) as nat) as int;
        vstd::arithmetic::div_mod::lemma_fundamental_div_mod(n as int, a);
        assert((n as int) < a * b) by (nonlinear_arith)
            requires
                a > 0,
                n as int == a * (n as int / a) + n as int % a,
                0 <= n as int % a < a,
                n as int / a + 1 <= b,
        ;
        lemma_bits_within(n, (bits_of(n) - 1) as nat);
    }
}

/// Some number takes the most bits.
proof fn lemma_longest(numerators: Seq<nat>, denominator: nat)
    ensures
        bits_of(denominator) == most_bits(numerators, denominator) || exists|i: int|
            0 <= i < numerators.len() && bits_of(#[trigger] numerators[i]) == most_bits(numerators, denominator),
    decreases numerators.len(),
{
    if numerators.len() > 0 {
        let front = numerators.drop_last();
        lemma_longest(front, denominator);
        if bits_of(numerators.last()) > most_bits(front, denominator) {
            assert(bits_of(numerators[numerators.len() - 1]) == most_bits(numerators, denominator));
        } else if bits_of(denominator) != most_bits(front, denominator) {
            let i = choose|i: int|
                0 <= i < front.len() && bits_of(#[trigger] front[i]) == most_bits(front, denominator);
            assert(bits_of(numerators[i]) == most_bits(numerators, denominator));
        }
    }
}

/// Whether none of these numbers takes more bits than it may, once some are cut off.
pub open spec fn fit_without(numerators: Seq<nat>, denominator: nat, excess: nat, max_bits: nat) -> bool {
    &&& cut_denominator(denominator, excess) < pow2(max_bits)
    &&& forall|i: int| 0 <= i < numerators.len() ==> #[trigger] numerators[i] / pow2(excess) < pow2(max_bits)
}

/// No more bits are cut off than it takes for all numbers to fit.
pub proof fn law_no_more_is_cut_off_than_must_be(numerators: Seq<nat>, denominator: nat, max_bits: nat, less: nat)
    requires
        max_bits > 0,
    ensures
        fit_without(numerators, denominator, excess_bits(numerators, denominator, max_bits), max_bits),
        less < excess_bits(numerators, denominator, max_bits) ==> !fit_without(numerators, denominator, less, max_bits),
{
    let excess = excess_bits(numerators, denominator, max_bits);
    let surplus = surplus_bits(numerators, denominator, max_bits);
    let bits = most_bits(numerators, denominator);
    law_output_fits(numerators, denominator, max_bits);
    lemma_bits_bound(cut_denominator(denominator, excess), max_bits);
    assert forall|i: int| 0 <= i < numerators.len() implies #[trigger] numerators[i] / pow2(excess) < pow2(max_bits) by {
        assert(cut_numerators(numerators, excess)[i] == numerators[i] / pow2(excess));
        lemma_bits_bound(numerators[i] / pow2(excess), max_bits);
    }
    if less < excess && fit_without(numerators, denominator, less, max_bits) {
        lemma_bits_within(cut_denominator(denominator, less), max_bits);
        if bits < max_bits {
            vstd::arithmetic::power2::lemma2_to64();
            lemma_most_bits(numerators, denominator);
        } else if less < surplus {
            lemma_longest(numerators, denominator);
            if bits_of(denominator) == bits {
                lemma_bits_left(denominator, less);
                lemma_cut_denominator(denominator, less);
                lemma_bits_bound(cut_denominator(denominator, less), max_bits);
                lemma_bits_within(cut(denominator, less), max_bits);
            } else {
                let i = choose|i: int| 0 <= i < numerators.len() && bits_of(#[trigger] numerators[i]) == bits;
                lemma_bits_left(numerators[i], less);
                lemma_bits_within(numerators[i] / pow2(less), max_bits);
            }
        }
    }
}

/// What is left of each number: a numerator is rounded down to what so many halvings leave of it, and the denominator
/// is rounded up.
pub proof fn law_cutting_rounds_numerators_down_and_denominators_up(numerator: nat, denominator: nat, excess: nat)
    ensures
        cut(numerator, excess) * pow2(excess) <= numerator < (cut(numerator, excess) + 1) * pow2(excess),
        denominator <= cut_denominator(denominator, excess) * pow2(excess) < denominator + pow2(excess),
{
    lemma_pow2_pos(excess);
    lemma_cut_denominator(denominator, excess);
    let s = pow2(excess) as int;
    let n = numerator as int;
    let d = denominator as int;
    vstd::arithmetic::div_mod::lemma_fundamental_div_mod(n, s);
    vstd::arithmetic::div_mod::lemma_fundamental_div_mod(d, s);
    let low = n / s;
    let rest = d / s;
    assert((low + 1) * s == s * low + s && low * s == s * low) by (nonlinear_arith);
    assert((rest + 1) * s == s * rest + s && rest * s == s * rest) by (nonlinear_arith);
}

/// Prices over a common denominator, of which no number is too long, stay what they are: over the least denominator
/// that they have in common, each numerator is the price times the denominator.
pub proof fn law_prices_are_exact_where_they_fit(prices: Seq<real>, max_bits: nat, numerators: Seq<nat>, denominator: nat)
    requires
        0 < denominator < pow2(max_bits),
        numerators.len() == prices.len(),
        forall|i: int|
            0 <= i < prices.len() ==> 0real < #[trigger] prices[i] && prices[i] * (denominator as real)
                == numerators[i] as real && numerators[i] < pow2(max_bits),
    ensures
        ({
            let least = least_denominator(prices);
            let over = numerators_over(prices, least);
            let excess = excess_bits(over, least, max_bits);
            &&& 0 < least <= denominator
            &&& over.len() == prices.len()
            &&& forall|i: int| 0 <= i < prices.len() ==> prices[i] * (least as real) == #[trigger] over[i] as real
            &&& cut_numerators(over, excess) == over
            &&& cut_denominator(least, excess) == least
        }),
{
    reveal(multiple);
    assert forall|i: int| 0 <= i < prices.len() implies has_numerator(#[trigger] prices[i], denominator) by {
        assert(is_numerator(prices[i], denominator, numerators[i] as int));
    }
    assert(is_denominator(prices, denominator));
    let found = lemma_least_exists(prices, denominator);
    let least = least_denominator(prices);
    assert(is_least_denominator(prices, least));
    let over = numerators_over(prices, least);
    assert forall|i: int| 0 <= i < prices.len() implies prices[i] * (least as real) == #[trigger] over[i] as real
        && over[i] <= numerators[i] by {
        let price = prices[i];
        assert(has_numerator(price, least));
        let n = choose|n: int| is_numerator(price, least, n);
        assert(n as real >= 0real) by (nonlinear_arith)
            requires
                n as real == price * (least as real),
                price > 0real,
                least as real >= 0real,
        ;
        assert(is_numerator(price, least, n as nat as int));
        assert(is_numerator(price, least, over[i] as int));
        assert(price * (least as real) <= price * (denominator as real)) by (nonlinear_arith)
            requires
                price > 0real,
                least as real <= denominator as real,
        ;
    }
    assert forall|i: int| 0 <= i < over.len() implies #[trigger] over[i] < pow2(max_bits) by {
        assert(prices[i] > 0real);
    }
    law_fitting_numbers_stay(over, least, max_bits);
}

/// Nothing is cut off numbers that all take no more bits than they may.
pub proof fn law_fitting_numbers_stay(numerators: Seq<nat>, denominator: nat, max_bits: nat)
    requires
        denominator < pow2(max_bits),
        forall|i: int| 0 <= i < numerators.len() ==> #[trigger] numerators[i] < pow2(max_bits),
    ensures
        cut_numerators(numerators, excess_bits(numerators, denominator, max_bits)) == numerators,
        cut_denominator(denominator, excess_bits(numerators, denominator, max_bits)) == denominator,
{
    lemma_bits_within(denominator, max_bits);
    assert forall|i: int| 0 <= i < numerators.len() implies bits_of(#[trigger] numerators[i]) <= max_bits by {
        lemma_bits_within(numerators[i], max_bits);
    }
    lemma_all_within(numerators, denominator, max_bits);
    vstd::arithmetic::power2::lemma2_to64();
    assert(cut_denominator(denominator, 0) == denominator);
    assert(excess_bits(numerators, denominator, max_bits) == 0);
    assert(cut_numerators(numerators, 0) =~= numerators);
}

proof fn lemma_all_within(numerators: Seq<nat>, denominator: nat, max_bits: nat)
    requires
        bits_of(denominator) <= max_bits,
        forall|i: int| 0 <= i < numerators.len() ==> bits_of(#[trigger] numerators[i]) <= max_bits,
    ensures
        most_bits(numerators, denominator) <= max_bits,
    decreases numerators.len(),
{
    if numerators.len() > 0 {
        assert(bits_of(numerators[numerators.len() - 1]) <= max_bits);
        assert forall|i: int| 0 <= i < numerators.len() - 1 implies bits_of(
            #[trigger] numerators.drop_last()[i],
        ) <= max_bits by {
            assert(numerators.drop_last()[i] == numerators[i]);
        }
        lemma_all_within(numerators.drop_last(), denominator, max_bits);
    }
}

/// The denominator of prices is no greater than any that they have in common.
pub proof fn law_denominator_is_the_least(prices: Seq<real>, numerators: Seq<nat>, denominator: nat)
    requires
        denominator > 0,
        numerators.len() == prices.len(),
        forall|i: int|
            0 <= i < prices.len() ==> #[trigger] prices[i] * (denominator as real) == numerators[i] as real,
    ensures
        0 < least_denominator(prices) <= denominator,
{
    reveal(multiple);
    assert forall|i: int| 0 <= i < prices.len() implies has_numerator(#[trigger] prices[i], denominator) by {
        assert(prices[i] * (denominator as real) == numerators[i] as real);
        assert(is_numerator(prices[i], denominator, numerators[i] as int));
    }
    assert(is_denominator(prices, denominator));
    let found = lemma_least_exists(prices, denominator);
    assert(is_least_denominator(prices, least_denominator(prices)));
}

} // verus!
