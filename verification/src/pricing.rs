//! Pricing strategies: which requests a strategy makes and how it turns the
//! answers into a price.

use vstd::prelude::*;
use crate::amount::Amount;
use crate::error::{Error, ErrorView};
use crate::market::{MarketOrdersRep, MarketOrdersReq, RequestView};
use crate::render::{can_render, renders_one_text, shows_all};
use crate::sub_items::sub_quantities;
use crate::table::{PricingTable, TableView};
use crate::multi_item::{MultiView, SingleMarketMultiItemMaxBuy};
use crate::single_item::{SingleMarketSingleItemMaxBuy, SingleView};
use crate::sub_items::{lemma_first_non_leaf, CompositeView, SubSingleItemsMaxBuy};

verus! {

/// The identifier of an item type at the market-data source.
pub type TypeId = i32;

/// A quantity, as a binary64 bit pattern.
pub type Quantity = u64;

/// A factor applied to a market price, as a binary64 bit pattern.
pub type PriceMod = u64;

/// The most entries a `SingleMarketMultiItemMaxBuy` carries.
pub const MAX_MULTI_ITEM: usize = 8;

/// The most entries a `SubSingleItemsMaxBuy` carries.
pub const MAX_SUB_ITEM: usize = 8;

/// The outcome of pricing one item.
#[derive(Debug)]
pub enum Price {
    /// The price of one unit.
    Accepted(Amount),
    /// No price can be had.
    Rejected,
}

impl Clone for Price {
    fn clone(&self) -> (price: Price)
        ensures
            price == *self,
    {
        match self {
            Price::Accepted(amount) => Price::Accepted(amount.clone()),
            Price::Rejected => Price::Rejected,
        }
    }
}

/// The answers to a set of requests, each with the request it answers, as
/// the strategies see them: the request and the prices of the orders.
pub type Answers = Seq<(RequestView, Seq<u64>)>;

/// A pricing strategy.
#[derive(Debug)]
pub enum PricingModel {
    SingleMarketSingleItemMaxBuy(SingleMarketSingleItemMaxBuy),
    SingleMarketMultiItemMaxBuy(SingleMarketMultiItemMaxBuy),
    SubSingleItemsMaxBuy(SubSingleItemsMaxBuy),
    /// The item is not bought: no request, no price.
    Rejected,
}

/// What a `PricingModel` is.
pub enum ModelView {
    SingleMarketSingleItemMaxBuy(SingleView),
    SingleMarketMultiItemMaxBuy(MultiView),
    SubSingleItemsMaxBuy(CompositeView),
    Rejected,
}

impl View for PricingModel {
    type V = ModelView;

    open spec fn view(&self) -> ModelView {
        match self {
            PricingModel::SingleMarketSingleItemMaxBuy(p) => ModelView::SingleMarketSingleItemMaxBuy(p@),
            PricingModel::SingleMarketMultiItemMaxBuy(p) => ModelView::SingleMarketMultiItemMaxBuy(p@),
            PricingModel::SubSingleItemsMaxBuy(p) => ModelView::SubSingleItemsMaxBuy(p@),
            PricingModel::Rejected => ModelView::Rejected,
        }
    }
}

impl DeepView for PricingModel {
    type V = ModelView;

    open spec fn deep_view(&self) -> ModelView {
        self@
    }
}

impl ModelView {
    /// `table` gives the strategy what it needs to be priced: for a composite,
    /// sub-items that a composite can be made of. Any other strategy needs
    /// nothing of the table.
    pub open spec fn supported(self, table: TableView) -> bool {
        match self {
            ModelView::SubSingleItemsMaxBuy(p) => p.supported(table),
            _ => true,
        }
    }

    /// What is wrong with the strategy at `table`, if anything.
    pub open spec fn fault(self, table: TableView) -> Option<ErrorView> {
        match self {
            ModelView::SubSingleItemsMaxBuy(p) => p.fault(table),
            _ => None,
        }
    }

    /// The requests that the strategy makes.
    pub open spec fn requests(self, table: TableView) -> Seq<RequestView> {
        match self {
            ModelView::SingleMarketSingleItemMaxBuy(p) => seq![p.request()],
            ModelView::SingleMarketMultiItemMaxBuy(p) => p.requests(),
            ModelView::SubSingleItemsMaxBuy(p) => p.requests(table),
            ModelView::Rejected => Seq::empty(),
        }
    }

    /// The price that the strategy makes of `answers`.
    pub open spec fn price(self, table: TableView, answers: Answers) -> Price {
        match self {
            ModelView::SingleMarketSingleItemMaxBuy(p) => p.price(answers),
            ModelView::SingleMarketMultiItemMaxBuy(p) => p.price(answers),
            ModelView::SubSingleItemsMaxBuy(p) => p.price(table, answers),
            ModelView::Rejected => Price::Rejected,
        }
    }

    /// The label that the strategy carries: its source, or the description of
    /// a composite. The strategy that buys nothing carries none: its label is
    /// empty.
    pub open spec fn label(self) -> Seq<char> {
        match self {
            ModelView::SingleMarketSingleItemMaxBuy(p) => p.source,
            ModelView::SingleMarketMultiItemMaxBuy(p) => p.source,
            ModelView::SubSingleItemsMaxBuy(p) => p.source,
            ModelView::Rejected => Seq::empty(),
        }
    }

    /// `source` names where a price of the strategy comes from: the label
    /// that the strategy carries or, for a composite, the label made of its
    /// sub-items with some texts that `render` gives for their quantities.
    pub open spec fn names_source<F: Fn(&Amount) -> String>(
        self,
        table: TableView,
        render: &F,
        source: Seq<char>,
    ) -> bool {
        match self {
            ModelView::SubSingleItemsMaxBuy(p) => p.names_source(table, render, source),
            _ => source == self.label(),
        }
    }
}

impl PricingModel {
    /// Tells whether this is the strategy that buys nothing.
    pub fn is_rejected(&self) -> (r: bool)
        ensures
            r == (self@ is Rejected),
    {
        match self {
            PricingModel::Rejected => true,
            _ => false,
        }
    }

    /// Holds the strategy against `table`: it is supported, or the fault says
    /// why it is not.
    pub fn check(&self, table: &PricingTable) -> (checked: Result<(), Error>)
        ensures
            checked is Ok <==> self@.supported(table@),
            match checked {
                Ok(_) => self@.fault(table@) is None,
                Err(e) => self@.fault(table@) == Some(e@),
            },
    {
        match self {
            PricingModel::SubSingleItemsMaxBuy(p) => p.check(table),
            _ => Ok(()),
        }
    }

    /// Tells whether `table` gives the strategy what it needs to be priced.
    pub fn is_supported(&self, table: &PricingTable) -> (ok: bool)
        ensures
            ok == self@.supported(table@),
    {
        match self {
            PricingModel::SubSingleItemsMaxBuy(p) => p.is_supported(table),
            _ => true,
        }
    }

    /// The label that the strategy carries.
    pub fn label(&self) -> (label: String)
        ensures
            label@ == self@.label(),
    {
        match self {
            PricingModel::SingleMarketSingleItemMaxBuy(p) => p.price_source(),
            PricingModel::SingleMarketMultiItemMaxBuy(p) => p.price_source(),
            PricingModel::SubSingleItemsMaxBuy(p) => p.2.clone(),
            PricingModel::Rejected => String::new(),
        }
    }

    /// The requests to send for the strategy. The strategy that buys nothing
    /// sends none.
    pub fn to_reqs(&self, table: &PricingTable) -> (reqs: Vec<MarketOrdersReq>)
        requires
            self@.supported(table@),
        ensures
            reqs.deep_view() == self@.requests(table@),
    {
        match self {
            PricingModel::SingleMarketSingleItemMaxBuy(p) => p.to_reqs(),
            PricingModel::SingleMarketMultiItemMaxBuy(p) => p.to_reqs(),
            PricingModel::SubSingleItemsMaxBuy(p) => p.to_reqs(table),
            PricingModel::Rejected => {
                let none: Vec<MarketOrdersReq> = Vec::new();
                proof {
                    assert(none.deep_view() =~= Seq::<RequestView>::empty());
                }
                none
            },
        }
    }

    /// The price that the strategy makes of the answers to its requests,
    /// each with the request it answers, in the order in which they came.
    pub fn get_price(&self, table: &PricingTable, reps: Vec<(MarketOrdersReq, MarketOrdersRep)>) -> (price: Price)
        requires
            self@.supported(table@),
        ensures
            price == self@.price(table@, reps.deep_view()),
    {
        match self {
            PricingModel::SingleMarketSingleItemMaxBuy(p) => p.get_price(&reps),
            PricingModel::SingleMarketMultiItemMaxBuy(p) => p.get_price(&reps),
            PricingModel::SubSingleItemsMaxBuy(p) => p.get_price(table, &reps),
            PricingModel::Rejected => Price::Rejected,
        }
    }

    /// The text that names where a price of the strategy comes from.
    pub fn price_source<F: Fn(&Amount) -> String>(&self, table: &PricingTable, render: &F) -> (source: String)
        requires
            self@.supported(table@),
            can_render(render),
        ensures
            self@.names_source(table@, render, source@),
            renders_one_text(render) ==> (self@ matches ModelView::SubSingleItemsMaxBuy(p)
                ==> forall|texts: Seq<Seq<char>>|
                shows_all(render, sub_quantities(p.sub_items(table@)), texts) ==> source@
                    == #[trigger] p.label(table@, texts)),
    {
        match self {
            PricingModel::SubSingleItemsMaxBuy(p) => p.price_source(table, render),
            _ => self.label(),
        }
    }
}

impl Clone for PricingModel {
    fn clone(&self) -> (copy: PricingModel)
        ensures
            copy@ == self@,
    {
        match self {
            PricingModel::SingleMarketSingleItemMaxBuy(p) => PricingModel::SingleMarketSingleItemMaxBuy(
                p.clone(),
            ),
            PricingModel::SingleMarketMultiItemMaxBuy(p) => PricingModel::SingleMarketMultiItemMaxBuy(
                p.clone(),
            ),
            PricingModel::SubSingleItemsMaxBuy(p) => PricingModel::SubSingleItemsMaxBuy(p.clone()),
            PricingModel::Rejected => PricingModel::Rejected,
        }
    }
}

/// A strategy has a fault at a table exactly where the table does not
/// support it.
pub proof fn lemma_fault_is_not_supported(model: ModelView, table: TableView)
    ensures
        model.fault(table) is None <==> model.supported(table),
{
    match model {
        ModelView::SubSingleItemsMaxBuy(p) => {
            lemma_first_non_leaf(p.sub_items(table), 0);
        },
        _ => {},
    }
}

} // verus!
