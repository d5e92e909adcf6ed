//! Requests to the market-data source, its answers, and the best buy order
//! of an answer.

use vstd::prelude::*;
use crate::binary64::{order, order_bits, Order};

verus! {

/// A request for the orders on one item type in one market.
#[derive(Debug)]
pub struct MarketOrdersReq {
    pub type_id: i32,
    pub market: String,
    /// `true` asks for buy orders. Every request of this library does.
    pub buy: bool,
}

/// What a `MarketOrdersReq` is.
pub struct RequestView {
    pub type_id: i32,
    pub market: Seq<char>,
    pub buy: bool,
}

impl View for MarketOrdersReq {
    type V = RequestView;

    open spec fn view(&self) -> RequestView {
        RequestView { type_id: self.type_id, market: self.market@, buy: self.buy }
    }
}

impl DeepView for MarketOrdersReq {
    type V = RequestView;

    open spec fn deep_view(&self) -> RequestView {
        self@
    }
}

impl Clone for MarketOrdersReq {
    fn clone(&self) -> (req: MarketOrdersReq)
        ensures
            req == *self,
    {
        MarketOrdersReq { type_id: self.type_id, market: self.market.clone(), buy: self.buy }
    }
}

impl RequestView {
    /// The request is the one for `type_id` in `market`. A request is known
    /// by these two, whatever the position of its answer among the answers.
    pub open spec fn is_for(self, type_id: i32, market: Seq<char>) -> bool {
        self.type_id == type_id && self.market == market
    }
}

impl MarketOrdersReq {
    /// Tells whether this is the request for `type_id` in `market`.
    pub fn is_for(&self, type_id: i32, market: &String) -> (r: bool)
        ensures
            r == self@.is_for(type_id, market@),
    {
        self.type_id == type_id && self.market == *market
    }
}

/// A standing order. `price` is a binary64 bit pattern.
#[derive(Clone, Copy, Debug)]
pub struct MarketOrder {
    pub price: u64,
}

/// The answer to one request: the orders that stand.
#[derive(Debug)]
pub struct MarketOrdersRep {
    pub market_orders: Vec<MarketOrder>,
}

impl View for MarketOrdersRep {
    type V = Seq<u64>;

    /// The prices of the orders, in the order of the answer.
    open spec fn view(&self) -> Seq<u64> {
        Seq::new(self.market_orders@.len(), |i: int| self.market_orders@[i].price)
    }
}

impl DeepView for MarketOrdersRep {
    type V = Seq<u64>;

    open spec fn deep_view(&self) -> Seq<u64> {
        self@
    }
}

/// The best of `prices`: none where there is no price; else the first price,
/// replaced in turn by each later price that it is not greater than. So no
/// price is greater than the best one, and of several equally good prices
/// the last one is the best.
pub open spec fn best_price(prices: Seq<u64>) -> Option<u64>
    decreases prices.len(),
{
    if prices.len() == 0 {
        None
    } else {
        match best_price(prices.drop_last()) {
            None => Some(prices.last()),
            Some(best) => if order(best, prices.last()) == Order::Greater {
                Some(best)
            } else {
                Some(prices.last())
            },
        }
    }
}

/// There is a best price exactly where there is a price, and it is one of
/// the prices.
pub proof fn lemma_best_price_is_one(prices: Seq<u64>)
    ensures
        best_price(prices) is None <==> prices.len() == 0,
        best_price(prices) matches Some(best) ==> prices.contains(best),
    decreases prices.len(),
{
    if prices.len() > 0 {
        let front = prices.drop_last();
        lemma_best_price_is_one(front);
        let last = prices.last();
        assert(prices[prices.len() - 1] == last);
        match best_price(front) {
            None => {},
            Some(best) => {
                let i = choose|i: int| 0 <= i < front.len() && front[i] == best;
                assert(prices[i] == best);
            },
        }
    }
}

impl MarketOrdersRep {
    /// The best buy price among the orders of this answer.
    pub fn best_price(&self) -> (best: Option<u64>)
        ensures
            best == best_price(self@),
    {
        let mut best: Option<u64> = None;
        let mut i: usize = 0;
        while i < self.market_orders.len()
            invariant
                i <= self.market_orders@.len(),
                best == best_price(self@.take(i as int)),
            decreases self.market_orders@.len() - i,
        {
            let price: u64 = self.market_orders[i].price;
            proof {
                assert(self@.take(i + 1).drop_last() =~= self@.take(i as int));
                assert(self@.take(i + 1).last() == price);
            }
            best = match best {
                None => Some(price),
                Some(b) => match order_bits(b, price) {
                    Order::Greater => Some(b),
                    _ => Some(price),
                },
            };
            i += 1;
        }
        proof {
            assert(self@.take(i as int) =~= self@);
        }
        best
    }
}

/// What has come back for a set of requests: the answers in the order in
/// which they came, where every request was answered, and else the first
/// failure. One request that fails leaves nothing to make a price of.
pub fn answers_or_failure<E>(results: Vec<Result<(MarketOrdersReq, MarketOrdersRep), E>>) -> (outcome: Result<
    Vec<(MarketOrdersReq, MarketOrdersRep)>,
    E,
>)
    ensures
        match outcome {
            Ok(answers) => {
                &&& answers@.len() == results@.len()
                &&& forall|i: int|
                    0 <= i < results@.len() ==> #[trigger] results@[i] == Ok::<
                        (MarketOrdersReq, MarketOrdersRep),
                        E,
                    >(answers@[i])
            },
            Err(e) => exists|i: int|
                {
                    &&& 0 <= i < results@.len()
                    &&& #[trigger] results@[i] == Err::<(MarketOrdersReq, MarketOrdersRep), E>(e)
                    &&& forall|j: int| 0 <= j < i ==> (#[trigger] results@[j]) is Ok
                },
        },
{
    let ghost all = results@;
    let mut rest = results;
    proof {
        assert(rest@ =~= all.take(rest@.len() as int));
    }
    let mut waiting: Vec<Result<(MarketOrdersReq, MarketOrdersRep), E>> = Vec::new();
    loop
        invariant
            all == results@,
            rest@.len() + waiting@.len() == all.len(),
            rest@ == all.take(rest@.len() as int),
            forall|k: int| 0 <= k < waiting@.len() ==> #[trigger] waiting@[k] == all[all.len() - 1 - k],
        ensures
            waiting@.len() == all.len(),
            forall|k: int| 0 <= k < waiting@.len() ==> #[trigger] waiting@[k] == all[all.len() - 1 - k],
        decreases rest@.len(),
    {
        let ghost before = rest@;
        match rest.pop() {
            Some(result) => {
                proof {
                    assert(result == all[before.len() - 1]);
                    assert(rest@ =~= all.take(rest@.len() as int));
                }
                waiting.push(result);
            },
            None => {
                break;
            },
        }
    }
    let mut answers: Vec<(MarketOrdersReq, MarketOrdersRep)> = Vec::new();
    loop
        invariant
            all == results@,
            answers@.len() + waiting@.len() == all.len(),
            forall|k: int| 0 <= k < waiting@.len() ==> #[trigger] waiting@[k] == all[all.len() - 1 - k],
            forall|i: int|
                0 <= i < answers@.len() ==> #[trigger] all[i] == Ok::<
                    (MarketOrdersReq, MarketOrdersRep),
                    E,
                >(answers@[i]),
        ensures
            answers@.len() == all.len(),
            forall|i: int|
                0 <= i < answers@.len() ==> #[trigger] all[i] == Ok::<
                    (MarketOrdersReq, MarketOrdersRep),
                    E,
                >(answers@[i]),
        decreases waiting@.len(),
    {
        let ghost next = answers@.len() as int;
        let ghost left = waiting@;
        match waiting.pop() {
            Some(Ok(answer)) => {
                proof {
                    assert(left[left.len() - 1] == all[next]);
                }
                answers.push(answer);
            },
            Some(Err(e)) => {
                proof {
                    assert(left[left.len() - 1] == all[next]);
                    assert(results@[next] == Err::<(MarketOrdersReq, MarketOrdersRep), E>(e));
                    assert forall|j: int| 0 <= j < next implies (#[trigger] results@[j]) is Ok by {}
                }
                return Err(e);
            },
            None => {
                break;
            },
        }
    }
    Ok(answers)
}

} // verus!
