//! The swap engine: converts an amount of one allowed asset into another at
//! the ratio of their prices.

use vstd::prelude::*;
use crate::asset::{AssetId, Bucket};
use crate::decimal::{
    checked_div, checked_mul, checked_round_to_zero, div_toward_zero, fits_i128, magnitude,
    pow10, product_attos, quotient_attos, Decimal, ATTOS_PER_UNIT, MAX_DIVISIBILITY,
};
use crate::error::CompetitionError;
use crate::oracle::SimpleOracle;
use vstd::arithmetic::div_mod::{lemma_div_pos_is_pos, lemma_fundamental_div_mod, lemma_mod_pos_bound};

verus! {

/// Attos obtained for `amount` attos of an asset priced `from_price`, in an
/// asset priced `to_price`: the amount times the price ratio, where the ratio
/// and the product are each rounded toward zero to eighteen fractional digits.
pub open spec fn swap_output(amount: int, from_price: int, to_price: int) -> int {
    product_attos(amount, quotient_attos(from_price, to_price))
}

/// What converting `amount` of `from` into `to` yields at `prices`.
pub open spec fn swap_result(
    prices: Map<AssetId, Decimal>,
    amount: Decimal,
    from: AssetId,
    to: AssetId,
) -> Result<Decimal, CompetitionError> {
    if !prices.contains_key(from) {
        Err(CompetitionError::PriceNotFound { asset: from })
    } else if !prices.contains_key(to) {
        Err(CompetitionError::PriceNotFound { asset: to })
    } else if prices[to].attos == 0 {
        Err(CompetitionError::DivisionByZero)
    } else if !fits_i128(quotient_attos(prices[from].attos as int, prices[to].attos as int)) {
        Err(CompetitionError::Overflow)
    } else if !fits_i128(
        swap_output(amount.attos as int, prices[from].attos as int, prices[to].attos as int),
    ) {
        Err(CompetitionError::Overflow)
    } else {
        Ok(
            Decimal {
                attos: swap_output(
                    amount.attos as int,
                    prices[from].attos as int,
                    prices[to].attos as int,
                ) as i128,
            },
        )
    }
}

/// What trading `from_token` for `to` yields, given the allow-list `allowed`.
pub open spec fn trade_result(
    allowed: Set<AssetId>,
    prices: Map<AssetId, Decimal>,
    from_token: Bucket,
    to: AssetId,
) -> Result<Bucket, CompetitionError> {
    if !allowed.contains(from_token.resource) {
        Err(CompetitionError::AssetNotAllowed { asset: from_token.resource })
    } else {
        match swap_result(prices, from_token.amount, from_token.resource, to) {
            Ok(d) => Ok(Bucket { resource: to, amount: d }),
            Err(e) => Err(e),
        }
    }
}

/// Floor division of naturals: the quotient is not negative and times the
/// divisor does not exceed the dividend.
proof fn lemma_floor_div(a: int, b: int)
    requires
        0 <= a,
        0 < b,
    ensures
        0 <= a / b,
        (a / b) * b <= a,
        div_toward_zero(a, b) == a / b,
{
    lemma_div_pos_is_pos(a, b);
    lemma_fundamental_div_mod(a, b);
    lemma_mod_pos_bound(a, b);
    assert((a / b) * b <= a) by (nonlinear_arith)
        requires
            a == b * (a / b) + (a % b),
            0 <= a % b,
    ;
}

/// Converting an amount that is not negative, at prices that are not
/// negative, yields an amount that is not negative.
pub proof fn lemma_swap_output_nonnegative(amount: int, from_price: int, to_price: int)
    requires
        0 <= amount,
        0 <= from_price,
        0 < to_price,
    ensures
        0 <= swap_output(amount, from_price, to_price),
{
    let s = ATTOS_PER_UNIT as int;
    assert(0 <= from_price * s) by (nonlinear_arith)
        requires
            0 <= from_price,
            s == 1_000_000_000_000_000_000,
    ;
    lemma_floor_div(from_price * s, to_price);
    let q = (from_price * s) / to_price;
    assert(0 <= amount * q) by (nonlinear_arith)
        requires
            0 <= amount,
            0 <= q,
    ;
    lemma_floor_div(amount * q, s);
}

/// Converting an amount at positive prices and converting the result back at
/// the same prices never yields more than the amount: each conversion rounds
/// toward zero, so it can only lose value.
pub proof fn lemma_swap_round_trip(amount: int, from_price: int, to_price: int)
    requires
        0 <= amount,
        0 < from_price,
        0 < to_price,
    ensures
        0 <= swap_output(amount, from_price, to_price),
        swap_output(swap_output(amount, from_price, to_price), to_price, from_price) <= amount,
{
    let s = ATTOS_PER_UNIT as int;
    assert(0 <= from_price * s) by (nonlinear_arith)
        requires
            0 < from_price,
            s == 1_000_000_000_000_000_000,
    ;
    assert(0 <= to_price * s) by (nonlinear_arith)
        requires
            0 < to_price,
            s == 1_000_000_000_000_000_000,
    ;
    lemma_floor_div(from_price * s, to_price);
    lemma_floor_div(to_price * s, from_price);
    let q1 = (from_price * s) / to_price;
    let q2 = (to_price * s) / from_price;
    assert(0 <= amount * q1) by (nonlinear_arith)
        requires
            0 <= amount,
            0 <= q1,
    ;
    lemma_floor_div(amount * q1, s);
    let x = (amount * q1) / s;
    assert(0 <= x * q2) by (nonlinear_arith)
        requires
            0 <= x,
            0 <= q2,
    ;
    lemma_floor_div(x * q2, s);
    let y = (x * q2) / s;
    assert(swap_output(amount, from_price, to_price) == x);
    assert(swap_output(x, to_price, from_price) == y);
    assert(q1 * q2 <= s * s) by (nonlinear_arith)
        requires
            q1 * to_price <= from_price * s,
            q2 * from_price <= to_price * s,
            0 <= q1,
            0 <= q2,
            0 < from_price,
            0 < to_price,
    ;
    assert(x * q2 <= amount * s) by (nonlinear_arith)
        requires
            x * s <= amount * q1,
            q1 * q2 <= s * s,
            0 <= x,
            0 <= q2,
            0 <= amount,
            s > 0,
    ;
    assert(y <= amount) by (nonlinear_arith)
        requires
            y * s <= x * q2,
            x * q2 <= amount * s,
            s > 0,
    ;
}

/// The swap engine, with the allow-list of assets it accepts as input.
pub struct TradeSimulator {
    allowed_resources: Vec<AssetId>,
}

impl View for TradeSimulator {
    type V = Set<AssetId>;

    closed spec fn view(&self) -> Set<AssetId> {
        self.allowed_resources@.to_set()
    }
}

impl TradeSimulator {
    /// A swap engine that accepts no asset yet.
    pub fn instantiate() -> (r: TradeSimulator)
        ensures
            r@ == Set::<AssetId>::empty(),
    {
        let r = TradeSimulator { allowed_resources: Vec::new() };
        assert(r@ =~= Set::<AssetId>::empty());
        r
    }

    /// Whether `address` is on the allow-list.
    pub fn is_allowed(&self, address: AssetId) -> (r: bool)
        ensures
            r == self@.contains(address),
    {
        let mut i: usize = 0;
        while i < self.allowed_resources.len()
            invariant
                i <= self.allowed_resources@.len(),
                forall|j: int| 0 <= j < i ==> self.allowed_resources@[j] != address,
            decreases self.allowed_resources@.len() - i,
        {
            if self.allowed_resources[i] == address {
                assert(self.allowed_resources@.contains(address));
                return true;
            }
            i = i + 1;
        }
        false
    }

    /// Puts `address` on the allow-list; adding it again changes nothing.
    pub fn add_new_resource(&mut self, address: AssetId)
        ensures
            final(self)@ == old(self)@.insert(address),
    {
        if !self.is_allowed(address) {
            self.allowed_resources.push(address);
            proof {
                let before = old(self).allowed_resources@;
                let after = self.allowed_resources@;
                assert forall|a: AssetId|
                    #![auto]
                    after.contains(a) == (before.contains(a) || a == address) by {
                    if before.contains(a) {
                        let j = choose|j: int| 0 <= j < before.len() && before[j] == a;
                        assert(after[j] == a);
                    }
                    if a == address {
                        assert(after[before.len() as int] == a);
                    }
                    if after.contains(a) && a != address {
                        let j = choose|j: int| 0 <= j < after.len() && after[j] == a;
                        assert(before[j] == a);
                    }
                }
                assert(self@ =~= old(self)@.insert(address));
            }
        } else {
            assert(old(self)@.insert(address) =~= old(self)@);
        }
    }

    /// The amount of `to_token_address` that `from_token_amount` of
    /// `from_token_address` converts into at the oracle's prices.
    pub fn calculate_amount_to_mint(
        &self,
        oracle: &SimpleOracle,
        from_token_amount: Decimal,
        from_token_address: AssetId,
        to_token_address: AssetId,
    ) -> (r: Result<Decimal, CompetitionError>)
        requires
            oracle.wf(),
        ensures
            r == swap_result(oracle@, from_token_amount, from_token_address, to_token_address),
    {
        let from_token_price = oracle.get_price(from_token_address)?;
        let to_token_price = oracle.get_price(to_token_address)?;
        if to_token_price.attos == 0 {
            return Err(CompetitionError::DivisionByZero);
        }
        let price_ratio = match checked_div(from_token_price, to_token_price) {
            Some(ratio) => ratio,
            None => return Err(CompetitionError::Overflow),
        };
        let product = match checked_mul(from_token_amount, price_ratio) {
            Some(product) => product,
            None => return Err(CompetitionError::Overflow),
        };
        let rounded = match checked_round_to_zero(product, MAX_DIVISIBILITY) {
            Some(rounded) => rounded,
            None => return Err(CompetitionError::Overflow),
        };
        proof {
            assert(pow10(0) == 1);
            assert(div_toward_zero(product.attos as int, 1) == product.attos) by {
                assert(magnitude(product.attos as int) / 1 == magnitude(product.attos as int));
            }
            assert(rounded.attos == product.attos);
            assert(price_ratio.attos == quotient_attos(from_token_price.attos as int, to_token_price.attos as int));
            assert(product.attos == swap_output(from_token_amount.attos as int, from_token_price.attos as int, to_token_price.attos as int));
        }
        Ok(rounded)
    }

    /// Converts `from_token` into `to_token_address`: the input is consumed
    /// and the converted amount comes back in a new bucket.
    pub fn trade(&self, oracle: &SimpleOracle, from_token: Bucket, to_token_address: AssetId) -> (r:
        Result<Bucket, CompetitionError>)
        requires
            oracle.wf(),
        ensures
            r == trade_result(self@, oracle@, from_token, to_token_address),
    {
        if !self.is_allowed(from_token.resource_address()) {
            return Err(CompetitionError::AssetNotAllowed { asset: from_token.resource });
        }
        let to_token_amount = self.calculate_amount_to_mint(
            oracle,
            from_token.amount(),
            from_token.resource_address(),
            to_token_address,
        )?;
        Ok(Bucket { resource: to_token_address, amount: to_token_amount })
    }
}

/// Trading a bucket into another asset and trading what came back into the
/// first asset again, with the prices unchanged, never yields more than the
/// bucket held.
pub proof fn lemma_trade_round_trip(
    engine: TradeSimulator,
    oracle: SimpleOracle,
    from_token: Bucket,
    to: AssetId,
)
    requires
        oracle.wf(),
        0 <= from_token.amount.attos,
        trade_result(engine@, oracle@, from_token, to) is Ok,
        trade_result(
            engine@,
            oracle@,
            trade_result(engine@, oracle@, from_token, to)->Ok_0,
            from_token.resource,
        ) is Ok,
    ensures
        trade_result(
            engine@,
            oracle@,
            trade_result(engine@, oracle@, from_token, to)->Ok_0,
            from_token.resource,
        )->Ok_0.amount.attos <= from_token.amount.attos,
{
    oracle.lemma_prices_nonnegative();
    let prices = oracle@;
    let from = from_token.resource;
    assert(prices.contains_key(from) && prices.contains_key(to));
    assert(prices[from].attos >= 0 && prices[to].attos >= 0);
    lemma_swap_round_trip(
        from_token.amount.attos as int,
        prices[from].attos as int,
        prices[to].attos as int,
    );
}

} // verus!
