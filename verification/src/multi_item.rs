//! The strategy for several item types in one market.

use vstd::prelude::*;
use crate::amount::Amount;
use crate::binary64::ZERO;
use crate::market::{best_price, lemma_best_price_is_one, MarketOrdersRep, MarketOrdersReq, RequestView};
use crate::pricing::{Answers, Price, PriceMod, Quantity, TypeId, MAX_MULTI_ITEM};

verus! {

/// Several item types in one market: the best buy price of each type times
/// its quantity, added up, times a factor.
///
/// The fields are the entries, the market, the factor and the label that
/// names where the price comes from. An entry is an item type with its
/// quantity, or an empty slot.
#[derive(Debug)]
pub struct SingleMarketMultiItemMaxBuy(
    pub Vec<Option<(TypeId, Quantity)>>,
    pub String,
    pub PriceMod,
    pub String,
);

/// What a `SingleMarketMultiItemMaxBuy` is.
pub struct MultiView {
    pub entries: Seq<Option<(TypeId, Quantity)>>,
    pub market: Seq<char>,
    pub multiplier: PriceMod,
    pub source: Seq<char>,
}

impl View for SingleMarketMultiItemMaxBuy {
    type V = MultiView;

    open spec fn view(&self) -> MultiView {
        MultiView { entries: self.0@, market: self.1@, multiplier: self.2, source: self.3@ }
    }
}

impl MultiView {
    /// The strategy carries no more entries than it may.
    pub open spec fn within_bounds(self) -> bool {
        self.entries.len() <= MAX_MULTI_ITEM
    }

    /// The requests of the first `n` entries: one for each entry that is not
    /// an empty slot, in the order of the entries.
    pub open spec fn requests_upto(self, n: int) -> Seq<RequestView>
        decreases n,
    {
        if n <= 0 {
            Seq::empty()
        } else {
            let before = self.requests_upto(n - 1);
            match self.entries[n - 1] {
                Some((type_id, _)) => before.push(
                    RequestView { type_id: type_id, market: self.market, buy: true },
                ),
                None => before,
            }
        }
    }

    /// The requests of the strategy.
    pub open spec fn requests(self) -> Seq<RequestView> {
        self.requests_upto(self.entries.len() as int)
    }

    /// Entry `j` is an item type whose request is `req`.
    pub open spec fn takes(self, j: int, req: RequestView) -> bool {
        &&& 0 <= j < self.entries.len()
        &&& self.entries[j] matches Some((type_id, _))
        &&& req.is_for(type_id, self.market)
    }

    /// Some answer that an entry takes holds no order.
    pub open spec fn rejects(self, answers: Answers) -> bool {
        exists|i: int, j: int|
            0 <= i < answers.len() && #[trigger] self.takes(j, answers[i].0)
                && answers[i].1.len() == 0
    }

    /// `acc` after one answer has been held against the first `n` entries in
    /// their order: each entry that takes the answer adds the best price
    /// times the entry's quantity.
    pub open spec fn add_answer(self, acc: Amount, n: int, req: RequestView, prices: Seq<u64>) -> Amount
        decreases n,
    {
        if n <= 0 {
            acc
        } else {
            let before = self.add_answer(acc, n - 1, req, prices);
            if self.takes(n - 1, req) && best_price(prices) is Some {
                Amount::plus(
                    before,
                    Amount::times(
                        Amount::Value(best_price(prices)->Some_0),
                        Amount::Value(self.entries[n - 1]->Some_0.1),
                    ),
                )
            } else {
                before
            }
        }
    }

    /// The sum over the answers in their order, from zero.
    pub open spec fn total(self, answers: Answers) -> Amount
        decreases answers.len(),
    {
        if answers.len() == 0 {
            Amount::zero()
        } else {
            self.add_answer(
                self.total(answers.drop_last()),
                self.entries.len() as int,
                answers.last().0,
                answers.last().1,
            )
        }
    }

    /// The price that the strategy makes of `answers`: none where an entry
    /// takes an answer without orders; else the total times the factor.
    pub open spec fn price(self, answers: Answers) -> Price {
        if self.rejects(answers) {
            Price::Rejected
        } else {
            Price::Accepted(Amount::times(self.total(answers), Amount::Value(self.multiplier)))
        }
    }
}

impl SingleMarketMultiItemMaxBuy {
    /// A strategy with these fields, unless there are more entries than a
    /// strategy may carry.
    pub fn new(entries: Vec<Option<(TypeId, Quantity)>>, market: String, multiplier: PriceMod, source: String) -> (made: Option<SingleMarketMultiItemMaxBuy>)
        ensures
            made is Some <==> entries@.len() <= MAX_MULTI_ITEM,
            made matches Some(m) ==> m.0 == entries && m.1 == market && m.2 == multiplier && m.3
                == source && m@.within_bounds(),
    {
        if entries.len() <= MAX_MULTI_ITEM {
            Some(SingleMarketMultiItemMaxBuy(entries, market, multiplier, source))
        } else {
            None
        }
    }

    /// One request for each entry that is not an empty slot.
    pub fn to_reqs(&self) -> (reqs: Vec<MarketOrdersReq>)
        ensures
            reqs.deep_view() == self@.requests(),
    {
        let mut reqs: Vec<MarketOrdersReq> = Vec::new();
        let mut j: usize = 0;
        proof {
            assert(reqs.deep_view() =~= self@.requests_upto(0));
        }
        while j < self.0.len()
            invariant
                j <= self.0@.len(),
                reqs.deep_view() == self@.requests_upto(j as int),
            decreases self.0@.len() - j,
        {
            let ghost before = reqs.deep_view();
            match self.0[j] {
                Some((type_id, _)) => {
                    reqs.push(MarketOrdersReq { type_id: type_id, market: self.1.clone(), buy: true });
                    proof {
                        assert(reqs.deep_view() =~= before.push(
                            RequestView { type_id: type_id, market: self@.market, buy: true },
                        ));
                    }
                },
                None => {},
            }
            j += 1;
        }
        reqs
    }

    /// The price made of the answers that came back.
    pub fn get_price(&self, reps: &Vec<(MarketOrdersReq, MarketOrdersRep)>) -> (price: Price)
        ensures
            price == self@.price(reps.deep_view()),
    {
        let ghost answers = reps.deep_view();
        let mut acc: Amount = Amount::value(ZERO);
        let mut i: usize = 0;
        proof {
            assert(answers.take(0).len() == 0);
        }
        while i < reps.len()
            invariant
                i <= reps@.len(),
                answers == reps.deep_view(),
                acc == self@.total(answers.take(i as int)),
                forall|a: int, b: int|
                    0 <= a < i && #[trigger] self@.takes(b, answers[a].0) ==> answers[a].1.len()
                        > 0,
            decreases reps@.len() - i,
        {
            let best: Option<u64> = reps[i].1.best_price();
            let ghost req = answers[i as int].0;
            let ghost prices = answers[i as int].1;
            let ghost start = acc;
            proof {
                lemma_best_price_is_one(prices);
                assert(answers.take(i + 1).drop_last() =~= answers.take(i as int));
                assert(answers.take(i + 1).last() == answers[i as int]);
            }
            let mut j: usize = 0;
            while j < self.0.len()
                invariant
                    j <= self.0@.len(),
                    i < reps@.len(),
                    answers == reps.deep_view(),
                    req == answers[i as int].0,
                    prices == answers[i as int].1,
                    req == reps@[i as int].0@,
                    best == best_price(prices),
                    best is None <==> prices.len() == 0,
                    acc == self@.add_answer(start, j as int, req, prices),
                    forall|b: int| 0 <= b < j && #[trigger] self@.takes(b, req) ==> prices.len() > 0,
                decreases self.0@.len() - j,
            {
                match self.0[j] {
                    Some((type_id, quantity)) => {
                        if reps[i].0.is_for(type_id, &self.1) {
                            match best {
                                Some(b) => {
                                    acc = Amount::sum(
                                        acc,
                                        Amount::product(Amount::value(b), Amount::value(quantity)),
                                    );
                                },
                                None => {
                                    proof {
                                        assert(self@.takes(j as int, answers[i as int].0));
                                    }
                                    return Price::Rejected;
                                },
                            }
                        }
                    },
                    None => {},
                }
                j += 1;
            }
            i += 1;
        }
        proof {
            assert(answers.take(i as int) =~= answers);
            assert(!self@.rejects(answers)) by {
                if self@.rejects(answers) {
                    let (a, b) = choose|a: int, b: int|
                        0 <= a < answers.len() && #[trigger] self@.takes(b, answers[a].0)
                            && answers[a].1.len() == 0;
                    assert(answers[a].1.len() > 0);
                }
            }
        }
        Price::Accepted(Amount::product(acc, Amount::value(self.2)))
    }

    /// The label of the strategy.
    pub fn price_source(&self) -> (source: String)
        ensures
            source@ == self@.source,
    {
        self.3.clone()
    }
}

impl Clone for SingleMarketMultiItemMaxBuy {
    fn clone(&self) -> (copy: SingleMarketMultiItemMaxBuy)
        ensures
            copy@ == self@,
    {
        let mut entries: Vec<Option<(TypeId, Quantity)>> = Vec::new();
        let mut j: usize = 0;
        while j < self.0.len()
            invariant
                j <= self.0@.len(),
                entries@ == self.0@.take(j as int),
            decreases self.0@.len() - j,
        {
            entries.push(self.0[j]);
            proof {
                assert(entries@ =~= self.0@.take(j + 1));
            }
            j += 1;
        }
        proof {
            assert(entries@ =~= self.0@);
        }
        SingleMarketMultiItemMaxBuy(entries, self.1.clone(), self.2, self.3.clone())
    }
}

} // verus!
