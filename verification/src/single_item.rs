//! The strategy for one item type in one market.

use vstd::prelude::*;
use crate::amount::Amount;
use crate::market::{best_price, MarketOrdersRep, MarketOrdersReq, RequestView};
use crate::pricing::{Answers, Price, PriceMod, TypeId};

verus! {

/// One item type in one market: the best buy price times a factor.
///
/// The fields are the item type, the market, the factor and the label that
/// names where the price comes from.
#[derive(Debug)]
pub struct SingleMarketSingleItemMaxBuy(pub TypeId, pub String, pub PriceMod, pub String);

/// What a `SingleMarketSingleItemMaxBuy` is.
pub struct SingleView {
    pub type_id: TypeId,
    pub market: Seq<char>,
    pub multiplier: PriceMod,
    pub source: Seq<char>,
}

impl View for SingleMarketSingleItemMaxBuy {
    type V = SingleView;

    open spec fn view(&self) -> SingleView {
        SingleView { type_id: self.0, market: self.1@, multiplier: self.2, source: self.3@ }
    }
}

impl SingleView {
    /// The one request of the strategy.
    pub open spec fn request(self) -> RequestView {
        RequestView { type_id: self.type_id, market: self.market, buy: true }
    }

    /// The price that the strategy makes of the orders that answer its
    /// request: the best price times the factor, or no price where there is
    /// no order.
    pub open spec fn quote(self, prices: Seq<u64>) -> Price {
        match best_price(prices) {
            Some(best) => Price::Accepted(
                Amount::times(Amount::Value(best), Amount::Value(self.multiplier)),
            ),
            None => Price::Rejected,
        }
    }

    /// The price that the strategy makes of `answers`: the quote on the first
    /// answer to its own request, and no price where none answers it.
    pub open spec fn price(self, answers: Answers) -> Price
        decreases answers.len(),
    {
        if answers.len() == 0 {
            Price::Rejected
        } else if answers[0].0.is_for(self.type_id, self.market) {
            self.quote(answers[0].1)
        } else {
            self.price(answers.skip(1))
        }
    }
}

impl SingleMarketSingleItemMaxBuy {
    /// The request for the item type in the market, on the buy side.
    pub fn to_reqs(&self) -> (reqs: Vec<MarketOrdersReq>)
        ensures
            reqs.deep_view() == seq![self@.request()],
    {
        let mut reqs: Vec<MarketOrdersReq> = Vec::new();
        reqs.push(MarketOrdersReq { type_id: self.0, market: self.1.clone(), buy: true });
        proof {
            assert(reqs.deep_view() =~= seq![self@.request()]);
        }
        reqs
    }

    /// The price made of the orders of one answer to this strategy's request.
    pub fn quote(&self, rep: &MarketOrdersRep) -> (price: Price)
        ensures
            price == self@.quote(rep@),
    {
        match rep.best_price() {
            Some(best) => Price::Accepted(
                Amount::product(Amount::value(best), Amount::value(self.2)),
            ),
            None => Price::Rejected,
        }
    }

    /// The price made of the answers that came back.
    pub fn get_price(&self, reps: &Vec<(MarketOrdersReq, MarketOrdersRep)>) -> (price: Price)
        ensures
            price == self@.price(reps.deep_view()),
    {
        let ghost answers = reps.deep_view();
        proof {
            assert(answers.skip(0) =~= answers);
        }
        let mut i: usize = 0;
        while i < reps.len()
            invariant
                i <= reps@.len(),
                answers == reps.deep_view(),
                self@.price(answers) == self@.price(answers.skip(i as int)),
            decreases reps@.len() - i,
        {
            proof {
                assert(answers.skip(i as int)[0] == answers[i as int]);
                assert(answers.skip(i as int).skip(1) =~= answers.skip(i + 1));
            }
            if reps[i].0.is_for(self.0, &self.1) {
                return self.quote(&reps[i].1);
            }
            i += 1;
        }
        Price::Rejected
    }

    /// The label of the strategy.
    pub fn price_source(&self) -> (source: String)
        ensures
            source@ == self@.source,
    {
        self.3.clone()
    }
}

impl Clone for SingleMarketSingleItemMaxBuy {
    fn clone(&self) -> (copy: SingleMarketSingleItemMaxBuy)
        ensures
            copy@ == self@,
    {
        SingleMarketSingleItemMaxBuy(self.0, self.1.clone(), self.2, self.3.clone())
    }
}

} // verus!
