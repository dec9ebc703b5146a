use vstd::prelude::*;

use crate::price::PRICE_SCALE;

verus! {

/// The product of a sequence of prices in thousandths.
pub open spec fn product(s: Seq<u64>) -> int
    decreases s.len(),
{
    if s.len() == 0 {
        1
    } else {
        product(s.drop_last()) * s.last()
    }
}

/// Partial slot `j` of a calculator of `size` outcomes after `prices` were added, at the
/// scale of the full product: the product of every added price but the one that slot
/// leaves out (the price added as number `size - 2 - j`), or of all of them while that
/// price has not come.
pub open spec fn partial_slot(size: nat, prices: Seq<u64>, j: int) -> int {
    let e = size - 2 - j;
    if 0 <= e < prices.len() {
        PRICE_SCALE * product(prices.remove(e))
    } else {
        product(prices)
    }
}

/// The sum of the first `n` partial slots.
pub open spec fn partial_sum(size: nat, prices: Seq<u64>, n: int) -> int
    decreases n,
{
    if n <= 0 {
        0
    } else {
        partial_sum(size, prices, n - 1) + partial_slot(size, prices, n - 1)
    }
}

/// The denominator of the cross price, at the scale of the full product: the product
/// less every partial product.
pub open spec fn cross_denominator(size: nat, prices: Seq<u64>) -> int {
    product(prices) - partial_sum(size, prices, size - 1)
}

/// The implied price of the remaining outcome, in thousandths, when the exact quotient
/// of the full product by the denominator is a positive whole number of thousandths
/// that fits in `u64`; `None` otherwise.
pub open spec fn cross_price_spec(size: nat, prices: Seq<u64>) -> Option<u64> {
    let num = PRICE_SCALE * product(prices);
    let den = cross_denominator(size, prices);
    if den <= 0 || num % den != 0 || num / den > u64::MAX {
        None
    } else {
        Some((num / den) as u64)
    }
}

/// Why a price was not taken.
#[derive(Clone, Copy, Debug, PartialEq, Eq, Structural)]
pub enum CrossPriceError {
    /// All `size - 1` known prices were added already.
    TooManyPrices,
    /// A price of zero.
    InvalidPrice,
    /// The products would not fit in 128 bits.
    Overflow,
}

/// Derives the price of one outcome of a market of `size` mutually exclusive outcomes
/// from the prices of the others.
pub struct CrossPriceCalculator {
    size: usize,
    full: u128,
    partials: Vec<u128>,
    partials_index: usize,
    prices: Ghost<Seq<u64>>,
}

impl CrossPriceCalculator {
    /// The number of outcomes.
    pub closed spec fn size(&self) -> nat {
        self.size as nat
    }

    /// The prices added so far, in order.
    pub closed spec fn prices(&self) -> Seq<u64> {
        self.prices@
    }

    /// The accumulators hold the full product and the partial products of the prices
    /// added, and fit the bounds that keep `add` and `result` free of overflow.
    pub closed spec fn wf(&self) -> bool {
        &&& self.size >= 2
        &&& self.prices@.len() < self.size
        &&& self.partials@.len() == self.size - 1
        &&& self.partials_index == self.size - 1 - self.prices@.len()
        &&& self.full == product(self.prices@)
        &&& self.full * PRICE_SCALE <= u128::MAX
        &&& self.full >= 1
        &&& forall|j: int|
            0 <= j < self.partials@.len() ==> {
                &&& #[trigger] self.partials@[j] == partial_slot(self.size as nat, self.prices@, j)
                &&& self.partials@[j] <= PRICE_SCALE * self.full
            }
    }

    /// A calculator for a market of `size` outcomes, with no price added.
    pub fn new(size: usize) -> (r: CrossPriceCalculator)
        requires
            size >= 2,
        ensures
            r.wf(),
            r.size() == size,
            r.prices() == Seq::<u64>::empty(),
    {
        let n = size - 1;
        let mut partials: Vec<u128> = Vec::new();
        let mut i: usize = 0;
        while i < n
            invariant
                i <= n,
                n == size - 1,
                partials@.len() == i,
                forall|j: int| 0 <= j < i ==> #[trigger] partials@[j] == 1,
            decreases n - i,
        {
            partials.push(1);
            i = i + 1;
        }
        let r = CrossPriceCalculator {
            size,
            full: 1,
            partials,
            partials_index: n,
            prices: Ghost(Seq::empty()),
        };
        proof {
            assert forall|j: int| 0 <= j < r.partials@.len() implies {
                &&& #[trigger] r.partials@[j] == partial_slot(size as nat, r.prices@, j)
                &&& r.partials@[j] <= PRICE_SCALE * r.full
            } by {
                assert(product(Seq::<u64>::empty()) == 1);
            }
        }
        r
    }

    /// Adds the next known price, in thousandths. Refused, leaving the calculator as it
    /// was, when all `size - 1` prices are in, for a price of zero, or when the products
    /// would overflow.
    pub fn add(&mut self, price: u64) -> (r: Result<(), CrossPriceError>)
        requires
            old(self).wf(),
        ensures
            final(self).wf(),
            final(self).size() == old(self).size(),
            r is Ok ==> final(self).prices() == old(self).prices().push(price),
            r is Ok ==> product(final(self).prices()) * PRICE_SCALE <= u128::MAX,
            r is Err ==> final(self).prices() == old(self).prices(),
            r is Ok <==> (old(self).prices().len() < old(self).size() - 1 && price > 0 && product(
                old(self).prices(),
            ) * price * PRICE_SCALE <= u128::MAX),
            (r == Err::<(), CrossPriceError>(CrossPriceError::TooManyPrices)) <==> old(
                self,
            ).prices().len() == old(self).size() - 1,
            (r == Err::<(), CrossPriceError>(CrossPriceError::InvalidPrice)) <==> (old(
                self,
            ).prices().len() < old(self).size() - 1 && price == 0),
            (r == Err::<(), CrossPriceError>(CrossPriceError::Overflow)) <==> (old(
                self,
            ).prices().len() < old(self).size() - 1 && price > 0 && product(old(self).prices())
                * price * PRICE_SCALE > u128::MAX),
    {
        if self.partials_index == 0 {
            return Err(CrossPriceError::TooManyPrices);
        }
        if price == 0 {
            return Err(CrossPriceError::InvalidPrice);
        }
        let m = price as u128;
        let full_new = match self.full.checked_mul(m) {
            Some(v) => v,
            None => {
                proof {
                    lemma_scaled_product_overflows(self.full as int, m as int);
                }
                return Err(CrossPriceError::Overflow);
            },
        };
        if full_new.checked_mul(PRICE_SCALE as u128).is_none() {
            return Err(CrossPriceError::Overflow);
        }
        let ghost old_prices = self.prices@;
        let ghost new_prices = old_prices.push(price);
        let ghost old_partials = self.partials@;
        let ghost full_old = self.full;
        let ghost size = self.size as nat;
        let idx = self.partials_index - 1;
        proof {
            assert(new_prices.drop_last() =~= old_prices);
        }
        let mut j: usize = 0;
        while j < self.partials.len()
            invariant
                self.size == size,
                self.partials@.len() == old_partials.len(),
                old_partials.len() == size - 1,
                idx == size - 2 - old_prices.len(),
                new_prices == old_prices.push(price),
                full_old == product(old_prices),
                full_new == full_old * m,
                m == price,
                m >= 1,
                full_new * PRICE_SCALE <= u128::MAX,
                0 <= j <= old_partials.len(),
                forall|t: int|
                    0 <= t < old_partials.len() ==> {
                        &&& #[trigger] old_partials[t] == partial_slot(size, old_prices, t)
                        &&& old_partials[t] <= PRICE_SCALE * full_old
                    },
                forall|t: int|
                    0 <= t < j ==> {
                        &&& #[trigger] self.partials@[t] == partial_slot(size, new_prices, t)
                        &&& self.partials@[t] <= PRICE_SCALE * full_new
                    },
                forall|t: int| j <= t < old_partials.len() ==> #[trigger] self.partials@[t]
                    == old_partials[t],
            decreases old_partials.len() - j,
        {
            let v = self.partials[j];
            proof {
                lemma_slot_step(size, old_prices, price, j as int);
                lemma_le_mul(v as int, PRICE_SCALE * full_old, m as int);
                lemma_le_mul(PRICE_SCALE * full_old, PRICE_SCALE * full_old, m as int);
                lemma_le_mul(full_old as int, full_old as int, m as int);
                assert((PRICE_SCALE * full_old) * m == PRICE_SCALE * full_new) by (nonlinear_arith)
                    requires
                        full_new == full_old * m,
                ;
            }
            let nv = if j != idx {
                v * m
            } else {
                v * (PRICE_SCALE as u128)
            };
            self.partials[j] = nv;
            j = j + 1;
        }
        proof {
            lemma_le_mul(full_old as int, full_old as int, m as int);
            lemma_product_push(old_prices, price);
        }
        self.partials_index = idx;
        self.full = full_new;
        self.prices = Ghost(new_prices);
        Ok(())
    }
}

proof fn lemma_product_nonneg(s: Seq<u64>)
    ensures
        product(s) >= 0,
    decreases s.len(),
{
    if s.len() > 0 {
        lemma_product_nonneg(s.drop_last());
        let a = product(s.drop_last());
        let b = s.last() as int;
        assert(a * b >= 0) by (nonlinear_arith)
            requires
                a >= 0,
                b >= 0,
        ;
    }
}

proof fn lemma_partial_sum_mono(size: nat, prices: Seq<u64>, i: int, n: int)
    requires
        0 <= i <= n,
    ensures
        partial_sum(size, prices, i) <= partial_sum(size, prices, n),
    decreases n - i,
{
    if i < n {
        lemma_partial_sum_mono(size, prices, i, n - 1);
        lemma_product_nonneg(prices);
        let e = size - 2 - (n - 1);
        if 0 <= e < prices.len() {
            lemma_product_nonneg(prices.remove(e));
        }
    }
}

impl CrossPriceCalculator {
    /// The implied price of the remaining outcome, in thousandths: the full product
    /// divided by itself less the sum of the partial products. `None` when that quotient is not a positive whole number of
    /// thousandths within `u64`.
    pub fn result(&self) -> (r: Option<u64>)
        requires
            self.wf(),
        ensures
            r == cross_price_spec(self.size(), self.prices()),
            r matches Some(q) ==> q >= 1,
    {
        let ghost size = self.size as nat;
        let ghost prices = self.prices@;
        let mut sum: u128 = 0;
        let mut i: usize = 0;
        while i < self.partials.len()
            invariant
                self.wf(),
                size == self.size,
                prices == self.prices@,
                0 <= i <= self.partials@.len(),
                sum == partial_sum(size, prices, i as int),
            decreases self.partials@.len() - i,
        {
            proof {
                lemma_partial_sum_mono(size, prices, i + 1, size - 1);
            }
            match sum.checked_add(self.partials[i]) {
                Some(v) => {
                    sum = v;
                },
                None => {
                    proof {
                        assert(partial_sum(size, prices, i + 1) == sum + self.partials@[i as int]);
                    }
                    return None;
                },
            }
            i = i + 1;
        }
        if sum >= self.full {
            return None;
        }
        let den = self.full - sum;
        assert(den <= self.full);
        let num = self.full * (PRICE_SCALE as u128);
        assert(num == PRICE_SCALE * product(prices));
        assert(den == cross_denominator(size, prices));
        if num % den != 0 {
            return None;
        }
        let q = num / den;
        assert(q >= 1) by (nonlinear_arith)
            requires
                q == num / den,
                num >= den,
                den > 0,
        ;
        if q > u64::MAX as u128 {
            return None;
        }
        Some(q as u64)
    }
}

proof fn lemma_le_mul(a: int, b: int, m: int)
    requires
        0 <= a <= b,
        m >= 1,
    ensures
        a * m <= b * m,
        a <= a * m,
{
    assert(a * m <= b * m) by (nonlinear_arith)
        requires
            0 <= a <= b,
            m >= 1,
    ;
    assert(a <= a * m) by (nonlinear_arith)
        requires
            0 <= a,
            m >= 1,
    ;
}

proof fn lemma_scaled_product_overflows(f: int, m: int)
    requires
        f >= 1,
        m >= 1,
        f * m > u128::MAX,
    ensures
        f * m * PRICE_SCALE > u128::MAX,
{
    assert(f * m * PRICE_SCALE >= f * m) by (nonlinear_arith)
        requires
            f * m >= 0,
    ;
}

proof fn lemma_product_push(s: Seq<u64>, m: u64)
    ensures
        product(s.push(m)) == product(s) * m,
{
    assert(s.push(m).drop_last() =~= s);
}

/// How partial slot `j` changes when `price` is added after `prices`.
proof fn lemma_slot_step(size: nat, prices: Seq<u64>, price: u64, j: int)
    requires
        size >= 2,
        prices.len() < size - 1,
        0 <= j < size - 1,
    ensures
        ({
            let e = size - 2 - j;
            let now = partial_slot(size, prices, j);
            let next = partial_slot(size, prices.push(price), j);
            &&& e < prices.len() ==> next == now * price
            &&& e == prices.len() ==> next == now * PRICE_SCALE && now == product(prices)
            &&& e > prices.len() ==> next == now * price && now == product(prices)
        }),
{
    let e = size - 2 - j;
    let t = prices.push(price);
    lemma_product_push(prices, price);
    if e < prices.len() {
        assert(t.remove(e) =~= prices.remove(e).push(price));
        lemma_product_push(prices.remove(e), price);
        assert(PRICE_SCALE * (product(prices.remove(e)) * price) == (PRICE_SCALE * product(
            prices.remove(e),
        )) * price) by (nonlinear_arith);
    } else if e == prices.len() {
        assert(t.remove(e) =~= prices);
    }
}

} // verus!
