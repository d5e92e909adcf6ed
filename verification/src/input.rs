//! What a caller asks for: an answer stored under a key, or the pricing of
//! a basket at a location.

use vstd::prelude::*;
use crate::item::{Item, ItemView};
use crate::pricing::{ModelView, PricingModel};
use crate::table::{resolve, PricingTable, TableView};

verus! {

/// A request as it comes in, once its shape has been read.
#[derive(Debug)]
pub enum Input {
    /// The answer stored under this key is asked for.
    Hash(String),
    /// These items are to be priced at this location.
    Items { location: String, items: Vec<Item> },
}

/// A request with, for each item, the strategy by which it is priced.
#[derive(Debug)]
pub enum ParsedInput {
    /// The items, each with its strategy, and the location.
    Items((Vec<(Item, PricingModel)>, String)),
    /// The key of a stored answer.
    Hash(String),
}

/// What a `ParsedInput` is.
pub enum ParsedView {
    Items(Seq<(ItemView, ModelView)>, Seq<char>),
    Hash(Seq<char>),
}

impl View for ParsedInput {
    type V = ParsedView;

    open spec fn view(&self) -> ParsedView {
        match self {
            ParsedInput::Items(pair) => ParsedView::Items(pair.0.deep_view(), pair.1@),
            ParsedInput::Hash(key) => ParsedView::Hash(key@),
        }
    }
}

/// Each item with the strategy that `table` gives for its name at
/// `location`; an item that the table does not know is not bought.
pub open spec fn with_strategies(items: Seq<ItemView>, location: Seq<char>, table: TableView) -> Seq<(ItemView, ModelView)> {
    Seq::new(items.len(), |i: int| (items[i], resolve(table, location, items[i].name)))
}

impl ParsedInput {
    /// Gives each item of a request its strategy from `table`. A request for
    /// a stored answer passes through.
    pub fn from_input(input: Input, table: &PricingTable) -> (parsed: ParsedInput)
        ensures
            parsed@ == match input {
                Input::Hash(key) => ParsedView::Hash(key@),
                Input::Items { location, items } => ParsedView::Items(
                    with_strategies(items.deep_view(), location@, table@),
                    location@,
                ),
            },
    {
        match input {
            Input::Hash(key) => ParsedInput::Hash(key),
            Input::Items { location, items } => {
                let mut inner: Vec<(Item, PricingModel)> = Vec::with_capacity(items.len());
                let mut i: usize = 0;
                while i < items.len()
                    invariant
                        i <= items@.len(),
                        inner@.len() == i,
                        forall|k: int|
                            0 <= k < i ==> #[trigger] inner.deep_view()[k] == (
                                items@[k]@,
                                resolve(table@, location@, items@[k].name@),
                            ),
                    decreases items@.len() - i,
                {
                    let item: Item = items[i].clone();
                    let model: PricingModel = match table.get(&location, &item.name) {
                        Some(found) => found.clone(),
                        None => PricingModel::Rejected,
                    };
                    let ghost before = inner.deep_view();
                    inner.push((item, model));
                    proof {
                        assert(inner.deep_view() =~= before.push((item@, model@)));
                    }
                    i += 1;
                }
                proof {
                    assert(inner.deep_view() =~= with_strategies(
                        items.deep_view(),
                        location@,
                        table@,
                    ));
                }
                ParsedInput::Items((inner, location))
            },
        }
    }
}

} // verus!
