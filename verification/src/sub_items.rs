//! The strategy that prices an item as the sum of other items.

use vstd::prelude::*;
use vstd::pervasive::unreached;
use crate::amount::Amount;
use crate::binary64::ZERO;
use crate::error::{Error, ErrorView};
use crate::market::{best_price, lemma_best_price_is_one, MarketOrdersRep, MarketOrdersReq, RequestView};
use crate::pricing::{Answers, ModelView, Price, PricingModel, Quantity, MAX_SUB_ITEM};
use crate::render::{can_render, renders_one_text, show, shows, shows_all};
use crate::table::{resolve, PricingTable, TableView};

verus! {

/// The items that make up one item: the sum, over the named items, of the
/// price of each times its quantity.
///
/// The fields are the entries, the location at which the names are looked
/// up, and a description. An entry is the name of an item with its quantity;
/// an entry with an empty name is an empty slot.
#[derive(Debug)]
pub struct SubSingleItemsMaxBuy(pub Vec<(String, Quantity)>, pub String, pub String);

/// What a `SubSingleItemsMaxBuy` is.
pub struct CompositeView {
    pub entries: Seq<(Seq<char>, Quantity)>,
    pub location: Seq<char>,
    pub source: Seq<char>,
}

impl View for SubSingleItemsMaxBuy {
    type V = CompositeView;

    open spec fn view(&self) -> CompositeView {
        CompositeView { entries: self.0.deep_view(), location: self.1@, source: self.2@ }
    }
}

/// A named item of a composite with the strategy that the table gives it.
pub struct SubItem {
    pub model: ModelView,
    pub name: Seq<char>,
    pub quantity: Quantity,
}

/// A `SubItem` as the library holds it: the strategy is borrowed from the
/// table, and is absent where the table has none for the name.
pub struct SubItemRef<'a> {
    pub model: Option<&'a PricingModel>,
    pub name: &'a String,
    pub quantity: Quantity,
}

impl<'a> View for SubItemRef<'a> {
    type V = SubItem;

    open spec fn view(&self) -> SubItem {
        SubItem {
            model: match self.model {
                Some(model) => model@,
                None => ModelView::Rejected,
            },
            name: self.name@,
            quantity: self.quantity,
        }
    }
}

impl<'a> DeepView for SubItemRef<'a> {
    type V = SubItem;

    open spec fn deep_view(&self) -> SubItem {
        self@
    }
}

/// A strategy that a composite can be made of: one item type in one market,
/// or none at all.
pub open spec fn is_leaf(model: ModelView) -> bool {
    model is SingleMarketSingleItemMaxBuy || model is Rejected
}

/// Every sub-item has a strategy that a composite can be made of.
pub open spec fn all_leaves(subs: Seq<SubItem>) -> bool {
    forall|k: int| 0 <= k < subs.len() ==> is_leaf((#[trigger] subs[k]).model)
}

/// The first sub-item from `from` on whose strategy a composite cannot be
/// made of.
pub open spec fn first_non_leaf(subs: Seq<SubItem>, from: int) -> Option<int>
    decreases subs.len() - from,
{
    if from < 0 || from >= subs.len() {
        None
    } else if !is_leaf(subs[from].model) {
        Some(from)
    } else {
        first_non_leaf(subs, from + 1)
    }
}

/// Every sub-item from `from` on has a strategy that a composite can be made
/// of exactly where none of them is the first that has not.
pub proof fn lemma_first_non_leaf(subs: Seq<SubItem>, from: int)
    requires
        0 <= from,
    ensures
        first_non_leaf(subs, from) is None <==> forall|k: int|
            from <= k < subs.len() ==> is_leaf((#[trigger] subs[k]).model),
        first_non_leaf(subs, from) matches Some(k) ==> from <= k < subs.len() && !is_leaf(
            subs[k].model,
        ),
    decreases subs.len() - from,
{
    if from < subs.len() {
        lemma_first_non_leaf(subs, from + 1);
        if is_leaf(subs[from].model) {
            if first_non_leaf(subs, from + 1) is None {
                assert forall|k: int| from <= k < subs.len() implies is_leaf(
                    (#[trigger] subs[k]).model,
                ) by {
                    if k > from {
                    }
                }
            }
        }
    }
}

/// Some sub-item is not bought.
pub open spec fn any_rejected(subs: Seq<SubItem>) -> bool {
    exists|k: int| 0 <= k < subs.len() && (#[trigger] subs[k]).model is Rejected
}

/// The requests of the first `n` sub-items, in their order.
pub open spec fn leaf_requests(subs: Seq<SubItem>, n: int) -> Seq<RequestView>
    decreases n,
{
    if n <= 0 {
        Seq::empty()
    } else {
        let before = leaf_requests(subs, n - 1);
        match subs[n - 1].model {
            ModelView::SingleMarketSingleItemMaxBuy(single) => before.push(single.request()),
            _ => before,
        }
    }
}

/// Sub-item `k` has a strategy whose request is `req`.
pub open spec fn sub_takes(subs: Seq<SubItem>, k: int, req: RequestView) -> bool {
    &&& 0 <= k < subs.len()
    &&& subs[k].model matches ModelView::SingleMarketSingleItemMaxBuy(single)
    &&& req.is_for(single.type_id, single.market)
}

/// The first sub-item from `from` on that takes `req`.
pub open spec fn taker(subs: Seq<SubItem>, req: RequestView, from: int) -> Option<int>
    decreases subs.len() - from,
{
    if from < 0 || from >= subs.len() {
        None
    } else if sub_takes(subs, from, req) {
        Some(from)
    } else {
        taker(subs, req, from + 1)
    }
}

/// Some answer that a sub-item takes holds no order.
pub open spec fn sub_rejects(subs: Seq<SubItem>, answers: Answers) -> bool {
    exists|i: int, k: int|
        0 <= i < answers.len() && #[trigger] sub_takes(subs, k, answers[i].0) && answers[i].1.len()
            == 0
}

/// `acc` after one answer: the first sub-item that takes it adds the best
/// price times its factor, times its quantity.
pub open spec fn sub_add(subs: Seq<SubItem>, acc: Amount, req: RequestView, prices: Seq<u64>) -> Amount {
    match (taker(subs, req, 0), best_price(prices)) {
        (Some(k), Some(best)) => Amount::plus(
            acc,
            Amount::times(
                Amount::times(
                    Amount::Value(best),
                    Amount::Value(subs[k].model->SingleMarketSingleItemMaxBuy_0.multiplier),
                ),
                Amount::Value(subs[k].quantity),
            ),
        ),
        _ => acc,
    }
}

/// The quantities of the sub-items, in their order.
pub open spec fn sub_quantities(subs: Seq<SubItem>) -> Seq<Amount> {
    Seq::new(subs.len(), |k: int| Amount::Value(subs[k].quantity))
}

/// What the label of a composite says of one sub-item: its name, the text of
/// its quantity and the label of its strategy.
pub open spec fn sub_entry(sub: SubItem, text: Seq<char>) -> Seq<char> {
    "{\"item\":\""@ + sub.name + "\",\"quantity\":"@ + text + ",\"description\":\""@
        + sub.model.label() + "\"}"@
}

/// What the label of a composite says of its first `n` sub-items: the entry
/// of each, with a comma between two.
pub open spec fn sub_entries(subs: Seq<SubItem>, texts: Seq<Seq<char>>, n: int) -> Seq<char>
    decreases n,
{
    if n <= 0 {
        Seq::empty()
    } else if n == 1 {
        sub_entry(subs[0], texts[0])
    } else {
        sub_entries(subs, texts, n - 1) + ","@ + sub_entry(subs[n - 1], texts[n - 1])
    }
}

/// The sum over the answers in their order, from zero.
pub open spec fn sub_total(subs: Seq<SubItem>, answers: Answers) -> Amount
    decreases answers.len(),
{
    if answers.len() == 0 {
        Amount::zero()
    } else {
        sub_add(subs, sub_total(subs, answers.drop_last()), answers.last().0, answers.last().1)
    }
}

impl CompositeView {
    /// The strategy carries no more entries than it may.
    pub open spec fn within_bounds(self) -> bool {
        self.entries.len() <= MAX_SUB_ITEM
    }

    /// The sub-items among the first `n` entries: each entry that is not an
    /// empty slot, with the strategy for its name at the composite's location.
    pub open spec fn sub_items_upto(self, table: TableView, n: int) -> Seq<SubItem>
        decreases n,
    {
        if n <= 0 {
            Seq::empty()
        } else {
            let before = self.sub_items_upto(table, n - 1);
            let entry = self.entries[n - 1];
            if entry.0.len() == 0 {
                before
            } else {
                before.push(
                    SubItem {
                        model: resolve(table, self.location, entry.0),
                        name: entry.0,
                        quantity: entry.1,
                    },
                )
            }
        }
    }

    /// The sub-items of the composite.
    pub open spec fn sub_items(self, table: TableView) -> Seq<SubItem> {
        self.sub_items_upto(table, self.entries.len() as int)
    }

    /// The table gives every sub-item a strategy that a composite can be made
    /// of. A composite is priced against such a table only.
    pub open spec fn supported(self, table: TableView) -> bool {
        all_leaves(self.sub_items(table))
    }

    /// What is wrong with the composite at `table`: nothing where the table
    /// supports it; else the fault that names the first sub-item whose
    /// strategy a composite cannot be made of.
    pub open spec fn fault(self, table: TableView) -> Option<ErrorView> {
        let subs = self.sub_items(table);
        match first_non_leaf(subs, 0) {
            Some(k) => Some(
                ErrorView::InvalidPricingModel { item: subs[k].name, location: self.location },
            ),
            None => None,
        }
    }

    /// The requests of the composite: none where a sub-item is not bought,
    /// else those of the sub-items in their order.
    pub open spec fn requests(self, table: TableView) -> Seq<RequestView> {
        let subs = self.sub_items(table);
        if any_rejected(subs) {
            Seq::empty()
        } else {
            leaf_requests(subs, subs.len() as int)
        }
    }

    /// The label of the composite, where `texts` are the texts of the
    /// quantities of its sub-items: its description and the entries of its
    /// sub-items.
    pub open spec fn label(self, table: TableView, texts: Seq<Seq<char>>) -> Seq<char> {
        let subs = self.sub_items(table);
        "MP{\"description\":\""@ + self.source + "\",\"values\":["@ + sub_entries(
            subs,
            texts,
            subs.len() as int,
        ) + "]}"@
    }

    /// `source` is the label of the composite for some texts that `render`
    /// gives for the quantities of its sub-items.
    pub open spec fn names_source<F: Fn(&Amount) -> String>(
        self,
        table: TableView,
        render: &F,
        source: Seq<char>,
    ) -> bool {
        exists|texts: Seq<Seq<char>>|
            shows_all(render, sub_quantities(self.sub_items(table)), texts) && source
                == #[trigger] self.label(table, texts)
    }

    /// The price that the composite makes of `answers`: none where a sub-item
    /// is not bought or takes an answer without orders; else the total.
    pub open spec fn price(self, table: TableView, answers: Answers) -> Price {
        let subs = self.sub_items(table);
        if any_rejected(subs) || sub_rejects(subs, answers) {
            Price::Rejected
        } else {
            Price::Accepted(sub_total(subs, answers))
        }
    }
}

impl SubSingleItemsMaxBuy {
    /// A strategy with these fields, unless there are more entries than a
    /// strategy may carry.
    pub fn new(entries: Vec<(String, Quantity)>, location: String, source: String) -> (made: Option<SubSingleItemsMaxBuy>)
        ensures
            made is Some <==> entries@.len() <= MAX_SUB_ITEM,
            made matches Some(m) ==> m.0 == entries && m.1 == location && m.2 == source
                && m@.within_bounds(),
    {
        if entries.len() <= MAX_SUB_ITEM {
            Some(SubSingleItemsMaxBuy(entries, location, source))
        } else {
            None
        }
    }

    /// The sub-items with the strategies that `table` gives them.
    pub fn sub_items<'a>(&'a self, table: &'a PricingTable) -> (subs: Vec<SubItemRef<'a>>)
        ensures
            subs.deep_view() == self@.sub_items(table@),
    {
        let mut subs: Vec<SubItemRef<'a>> = Vec::new();
        let mut j: usize = 0;
        proof {
            assert(subs.deep_view() =~= self@.sub_items_upto(table@, 0));
        }
        while j < self.0.len()
            invariant
                j <= self.0@.len(),
                subs.deep_view() == self@.sub_items_upto(table@, j as int),
            decreases self.0@.len() - j,
        {
            let ghost before = subs.deep_view();
            let entry = &self.0[j];
            proof {
                assert(self@.entries[j as int] == (entry.0@, entry.1));
            }
            if !entry.0.as_str().is_empty() {
                let sub = SubItemRef {
                    model: table.get(&self.1, &entry.0),
                    name: &entry.0,
                    quantity: entry.1,
                };
                subs.push(sub);
                proof {
                    assert(subs.deep_view() =~= before.push(sub@));
                }
            }
            j += 1;
        }
        subs
    }

    /// Holds the composite against `table`: it is supported, or the fault
    /// names the first sub-item whose strategy a composite cannot be made of.
    pub fn check(&self, table: &PricingTable) -> (checked: Result<(), Error>)
        ensures
            checked is Ok <==> self@.supported(table@),
            match checked {
                Ok(_) => self@.fault(table@) is None,
                Err(e) => self@.fault(table@) == Some(e@),
            },
    {
        let subs = self.sub_items(table);
        let ghost specs = subs.deep_view();
        let mut k: usize = 0;
        proof {
            lemma_first_non_leaf(specs, 0);
        }
        while k < subs.len()
            invariant
                k <= subs@.len(),
                specs == subs.deep_view(),
                specs == self@.sub_items(table@),
                first_non_leaf(specs, 0) == first_non_leaf(specs, k as int),
            decreases subs@.len() - k,
        {
            proof {
                assert(specs[k as int] == subs@[k as int]@);
            }
            match subs[k].model {
                Some(PricingModel::SingleMarketSingleItemMaxBuy(_)) => {},
                Some(PricingModel::Rejected) => {},
                None => {},
                Some(_) => {
                    return Err(
                        Error::InvalidPricingModel {
                            item: subs[k].name.clone(),
                            location: self.1.clone(),
                        },
                    );
                },
            }
            k += 1;
        }
        Ok(())
    }

    /// Tells whether `table` gives every sub-item a strategy that a composite
    /// can be made of.
    pub fn is_supported(&self, table: &PricingTable) -> (ok: bool)
        ensures
            ok == self@.supported(table@),
    {
        match self.check(table) {
            Ok(_) => true,
            Err(_) => false,
        }
    }

    /// The requests of the composite.
    pub fn to_reqs(&self, table: &PricingTable) -> (reqs: Vec<MarketOrdersReq>)
        requires
            self@.supported(table@),
        ensures
            reqs.deep_view() == self@.requests(table@),
    {
        let subs = self.sub_items(table);
        let ghost specs = subs.deep_view();
        let mut reqs: Vec<MarketOrdersReq> = Vec::new();
        let mut k: usize = 0;
        proof {
            assert(reqs.deep_view() =~= leaf_requests(specs, 0));
        }
        while k < subs.len()
            invariant
                k <= subs@.len(),
                specs == subs.deep_view(),
                specs == self@.sub_items(table@),
                all_leaves(specs),
                forall|m: int| 0 <= m < k ==> !((#[trigger] specs[m]).model is Rejected),
                reqs.deep_view() == leaf_requests(specs, k as int),
            decreases subs@.len() - k,
        {
            let ghost before = reqs.deep_view();
            proof {
                assert(specs[k as int] == subs@[k as int]@);
                assert(is_leaf(specs[k as int].model));
            }
            match subs[k].model {
                Some(PricingModel::SingleMarketSingleItemMaxBuy(single)) => {
                    reqs.push(
                        MarketOrdersReq { type_id: single.0, market: single.1.clone(), buy: true },
                    );
                    proof {
                        assert(reqs.deep_view() =~= before.push(single@.request()));
                    }
                },
                Some(PricingModel::Rejected) => {
                    let none: Vec<MarketOrdersReq> = Vec::new();
                    proof {
                        assert(none.deep_view() =~= Seq::<RequestView>::empty());
                    }
                    return none;
                },
                None => {
                    let none: Vec<MarketOrdersReq> = Vec::new();
                    proof {
                        assert(none.deep_view() =~= Seq::<RequestView>::empty());
                    }
                    return none;
                },
                Some(_) => {
                    proof {
                        assert(false);
                    }
                    return unreached();
                },
            }
            k += 1;
        }
        reqs
    }

    /// The price made of the answers that came back.
    pub fn get_price(&self, table: &PricingTable, reps: &Vec<(MarketOrdersReq, MarketOrdersRep)>) -> (price: Price)
        requires
            self@.supported(table@),
        ensures
            price == self@.price(table@, reps.deep_view()),
    {
        let subs = self.sub_items(table);
        let ghost specs = subs.deep_view();
        let ghost answers = reps.deep_view();
        let mut k: usize = 0;
        while k < subs.len()
            invariant
                k <= subs@.len(),
                specs == subs.deep_view(),
                specs == self@.sub_items(table@),
                forall|m: int| 0 <= m < k ==> !((#[trigger] specs[m]).model is Rejected),
            decreases subs@.len() - k,
        {
            proof {
                assert(specs[k as int] == subs@[k as int]@);
            }
            match subs[k].model {
                Some(PricingModel::Rejected) => {
                    proof {
                        assert(specs[k as int].model is Rejected);
                    }
                    return Price::Rejected;
                },
                None => {
                    proof {
                        assert(specs[k as int].model is Rejected);
                    }
                    return Price::Rejected;
                },
                Some(_) => {},
            }
            k += 1;
        }
        let mut acc: Amount = Amount::value(ZERO);
        let mut i: usize = 0;
        proof {
            assert(answers.take(0).len() == 0);
        }
        while i < reps.len()
            invariant
                i <= reps@.len(),
                answers == reps.deep_view(),
                specs == subs.deep_view(),
                specs == self@.sub_items(table@),
                all_leaves(specs),
                !any_rejected(specs),
                acc == sub_total(specs, answers.take(i as int)),
                forall|a: int, b: int|
                    0 <= a < i && #[trigger] sub_takes(specs, b, answers[a].0) ==> answers[a].1.len()
                        > 0,
            decreases reps@.len() - i,
        {
            let ghost req = answers[i as int].0;
            let ghost prices = answers[i as int].1;
            proof {
                lemma_best_price_is_one(prices);
                assert(answers.take(i + 1).drop_last() =~= answers.take(i as int));
                assert(answers.take(i + 1).last() == answers[i as int]);
            }
            let mut k: usize = 0;
            let mut taken: bool = false;
            while k < subs.len() && !taken
                invariant
                    k <= subs@.len(),
                    i < reps@.len(),
                    answers == reps.deep_view(),
                    specs == subs.deep_view(),
                    specs == self@.sub_items(table@),
                    all_leaves(specs),
                    !any_rejected(specs),
                    req == answers[i as int].0,
                    prices == answers[i as int].1,
                    req == reps@[i as int].0@,
                    prices == reps@[i as int].1@,
                    best_price(prices) is None <==> prices.len() == 0,
                    !taken ==> taker(specs, req, 0) == taker(specs, req, k as int),
                    !taken ==> acc == sub_total(specs, answers.take(i as int)),
                    taken ==> acc == sub_total(specs, answers.take(i + 1)),
                    taken ==> prices.len() > 0,
                    !taken ==> forall|b: int| 0 <= b < k ==> !sub_takes(specs, b, req),
                decreases subs@.len() - k + (if taken { 0int } else { 1int }),
            {
                proof {
                    assert(specs[k as int] == subs@[k as int]@);
                    assert(is_leaf(specs[k as int].model));
                }
                match subs[k].model {
                    Some(PricingModel::SingleMarketSingleItemMaxBuy(single)) => {
                        if reps[i].0.is_for(single.0, &single.1) {
                            proof {
                                assert(sub_takes(specs, k as int, answers[i as int].0));
                                assert(taker(specs, req, 0) == Some(k as int));
                                assert(answers.take(i + 1).drop_last() =~= answers.take(i as int));
                                assert(answers.take(i + 1).last() == answers[i as int]);
                            }
                            match single.quote(&reps[i].1) {
                                Price::Rejected => {
                                    return Price::Rejected;
                                },
                                Price::Accepted(unit) => {
                                    acc = Amount::sum(
                                        acc,
                                        Amount::product(unit, Amount::value(subs[k].quantity)),
                                    );
                                    taken = true;
                                },
                            }
                        } else {
                            k += 1;
                        }
                    },
                    _ => {
                        proof {
                            assert(specs[k as int].model is Rejected);
                        }
                        return unreached();
                    },
                }
            }
            proof {
                if !taken {
                    assert(taker(specs, req, 0) is None);
                }
            }
            i += 1;
        }
        proof {
            assert(answers.take(i as int) =~= answers);
            assert(!sub_rejects(specs, answers)) by {
                if sub_rejects(specs, answers) {
                    let (a, b) = choose|a: int, b: int|
                        0 <= a < answers.len() && #[trigger] sub_takes(specs, b, answers[a].0)
                            && answers[a].1.len() == 0;
                    assert(answers[a].1.len() > 0);
                }
            }
        }
        Price::Accepted(acc)
    }

    /// The label of the composite. `render` gives the text of each quantity.
    pub fn price_source<F: Fn(&Amount) -> String>(&self, table: &PricingTable, render: &F) -> (source: String)
        requires
            self@.supported(table@),
            can_render(render),
        ensures
            self@.names_source(table@, render, source@),
            renders_one_text(render) ==> forall|texts: Seq<Seq<char>>|
                shows_all(render, sub_quantities(self@.sub_items(table@)), texts) ==> source@
                    == #[trigger] self@.label(table@, texts),
    {
        let subs = self.sub_items(table);
        let ghost specs = subs.deep_view();
        let ghost mut texts: Seq<Seq<char>> = Seq::empty();
        let mut values: String = String::new();
        let mut k: usize = 0;
        while k < subs.len()
            invariant
                k <= subs@.len(),
                can_render(render),
                specs == subs.deep_view(),
                texts.len() == k,
                forall|m: int|
                    0 <= m < k ==> shows(
                        render,
                        Amount::Value(specs[m].quantity),
                        #[trigger] texts[m],
                    ),
                values@ == sub_entries(specs, texts, k as int),
            decreases subs@.len() - k,
        {
            let ghost before = values@;
            let ghost shown = texts;
            proof {
                assert(specs[k as int] == subs@[k as int]@);
            }
            let quantity = Amount::value(subs[k].quantity);
            let text: String = show(render, &quantity);
            let model_label: String = match subs[k].model {
                Some(model) => model.label(),
                None => String::new(),
            };
            if k > 0 {
                values.append(",");
            }
            values.append("{\"item\":\"");
            values.append(subs[k].name.as_str());
            values.append("\",\"quantity\":");
            values.append(text.as_str());
            values.append(",\"description\":\"");
            values.append(model_label.as_str());
            values.append("\"}");
            proof {
                texts = texts.push(text@);
                let entry = sub_entry(specs[k as int], text@);
                assert(model_label@ == specs[k as int].model.label());
                lemma_sub_entries_extend(specs, shown, texts, k as int);
                if k > 0 {
                    assert(values@ =~= before + ","@ + entry);
                } else {
                    assert(before =~= Seq::<char>::empty());
                    assert(values@ =~= entry);
                }
            }
            k += 1;
        }
        let mut source: String = "MP{\"description\":\"".to_owned();
        source.append(self.2.as_str());
        source.append("\",\"values\":[");
        source.append(values.as_str());
        source.append("]}");
        proof {
            assert(shows_all(render, sub_quantities(specs), texts));
            assert(source@ =~= self@.label(table@, texts));
            if renders_one_text(render) {
                assert forall|other: Seq<Seq<char>>|
                    shows_all(render, sub_quantities(specs), other) implies source@
                    == #[trigger] self@.label(table@, other) by {
                    assert forall|k: int| 0 <= k < texts.len() implies other[k] == texts[k] by {
                        assert(shows(render, sub_quantities(specs)[k], other[k]));
                        assert(shows(render, sub_quantities(specs)[k], texts[k]));
                    }
                    assert(other =~= texts);
                }
            }
        }
        source
    }
}

/// The entries of the first `n` sub-items depend on the first `n` texts only.
pub proof fn lemma_sub_entries_extend(
    subs: Seq<SubItem>,
    texts: Seq<Seq<char>>,
    more: Seq<Seq<char>>,
    n: int,
)
    requires
        0 <= n <= texts.len() <= more.len(),
        forall|k: int| 0 <= k < n ==> texts[k] == more[k],
    ensures
        sub_entries(subs, texts, n) == sub_entries(subs, more, n),
    decreases n,
{
    if n > 1 {
        lemma_sub_entries_extend(subs, texts, more, n - 1);
    }
}

impl Clone for SubSingleItemsMaxBuy {
    fn clone(&self) -> (copy: SubSingleItemsMaxBuy)
        ensures
            copy@ == self@,
    {
        let mut entries: Vec<(String, Quantity)> = Vec::new();
        let mut j: usize = 0;
        proof {
            assert(entries.deep_view() =~= self.0.deep_view().take(0));
        }
        while j < self.0.len()
            invariant
                j <= self.0@.len(),
                entries.deep_view() == self.0.deep_view().take(j as int),
            decreases self.0@.len() - j,
        {
            let ghost before = entries.deep_view();
            let name: String = self.0[j].0.clone();
            let quantity: Quantity = self.0[j].1;
            entries.push((name, quantity));
            proof {
                assert(self.0.deep_view()[j as int] == (name@, quantity));
                assert(entries.deep_view() =~= before.push((name@, quantity)));
                assert(entries.deep_view() =~= self.0.deep_view().take(j + 1));
            }
            j += 1;
        }
        proof {
            assert(entries.deep_view() =~= self.0.deep_view());
        }
        SubSingleItemsMaxBuy(entries, self.1.clone(), self.2.clone())
    }
}

} // verus!
