//! The pricing of a basket, step by step.
//!
//! The library decides; its caller fetches. `response_from_items` says
//! whether anything is to be fetched at all. Where it is, the caller asks the
//! `Batch` for the requests of each item, sends them as it sees fit, and
//! hands the answers of each item back as they come in. When every item is
//! settled the batch gives the answer, sorted and with its key.

use vstd::prelude::*;
use vstd::multiset::Multiset;
use crate::amount::Amount;
use crate::error::{Error, ErrorView};
use crate::item::{Item, ItemView};
use crate::market::{MarketOrdersRep, MarketOrdersReq, RequestView};
use crate::names::name_bytes;
use crate::pricing::{ModelView, Price, PricingModel};
use crate::render::can_render;
use crate::response::{
    accepted_key, rejected_key, AcceptedView, RejectedView, Response, ResponseView,
};
use crate::sorting::{lemma_sort_maps, lemma_sort_permutes};
use crate::table::{PricingTable, TableView};

verus! {

/// The items of a basket with their strategies.
pub type Basket = Seq<(ItemView, ModelView)>;

/// The items of `basket`, without their strategies.
pub open spec fn basket_items(basket: Basket) -> Seq<ItemView> {
    Seq::new(basket.len(), |i: int| basket[i].0)
}

/// No item of `basket` is bought.
pub open spec fn all_rejected(basket: Basket) -> bool {
    forall|i: int| 0 <= i < basket.len() ==> (#[trigger] basket[i]).1 is Rejected
}

/// The answer for a basket of which no item is bought, before it is sorted:
/// every item rejected, in the order of the basket, with the label of the
/// strategy that buys nothing, which is empty.
pub open spec fn all_refused(location: Seq<char>, basket: Basket) -> ResponseView {
    ResponseView {
        rejected: Seq::new(
            basket.len(),
            |i: int| RejectedView { item: basket[i].0, source: ModelView::Rejected.label() },
        ),
        ..ResponseView::empty(location)
    }
}

/// The fault of the first item from `from` on whose strategy `table` does
/// not support.
pub open spec fn first_fault(basket: Basket, table: TableView, from: int) -> Option<ErrorView>
    decreases basket.len() - from,
{
    if from < 0 || from >= basket.len() {
        None
    } else if basket[from].1.fault(table) is Some {
        basket[from].1.fault(table)
    } else {
        first_fault(basket, table, from + 1)
    }
}

/// The items of an answer, accepted or rejected, each as often as the
/// answer holds it.
pub open spec fn items_of(response: ResponseView) -> Multiset<ItemView> {
    response.accepted.map_values(|a: AcceptedView| a.item).to_multiset().add(
        response.rejected.map_values(|r: RejectedView| r.item).to_multiset(),
    )
}

/// Among the first `n` items of `basket`, those that are settled.
pub open spec fn settled_items(basket: Basket, open: Seq<bool>, n: int) -> Multiset<ItemView>
    decreases n,
{
    if n <= 0 {
        Multiset::empty()
    } else if open[n - 1] {
        settled_items(basket, open, n - 1)
    } else {
        settled_items(basket, open, n - 1).insert(basket[n - 1].0)
    }
}

/// An item that comes in joins the items of the answer.
pub proof fn lemma_pushed_items(response: ResponseView, item: ItemView, price: Price, source: Seq<char>)
    ensures
        items_of(response.pushed(item, price, source)) == items_of(response).insert(item),
{
    broadcast use vstd::multiset::group_multiset_axioms;
    broadcast use vstd::seq_lib::group_to_multiset_ensures;

    let fa = |a: AcceptedView| a.item;
    let fr = |r: RejectedView| r.item;
    let next = response.pushed(item, price, source);
    match price {
        Price::Accepted(price_per) => {
            let entry = AcceptedView::priced(item, price_per, source);
            assert(next.accepted.map_values(fa) =~= response.accepted.map_values(fa).push(item));
        },
        Price::Rejected => {
            let entry = RejectedView { item: item, source: source };
            assert(next.rejected.map_values(fr) =~= response.rejected.map_values(fr).push(item));
        },
    }
    assert(items_of(next) =~= items_of(response).insert(item));
}

/// Sorting an answer keeps its items.
pub proof fn lemma_sorted_items(response: ResponseView)
    ensures
        items_of(response.sorted_by_name()) == items_of(response),
{
    let fa = |a: AcceptedView| a.item;
    let fr = |r: RejectedView| r.item;
    let key = |i: ItemView| name_bytes(i.name);
    lemma_sort_maps(response.accepted, fa, accepted_key(), key);
    lemma_sort_maps(response.rejected, fr, rejected_key(), key);
    lemma_sort_permutes(response.accepted.map_values(fa), key);
    lemma_sort_permutes(response.rejected.map_values(fr), key);
}

/// Settling an open item adds it to the settled ones.
pub proof fn lemma_settle_one(basket: Basket, open: Seq<bool>, index: int, n: int)
    requires
        0 <= index < open.len(),
        0 <= n <= open.len(),
        open.len() == basket.len(),
        open[index],
    ensures
        settled_items(basket, open.update(index, false), n) == if index < n {
            settled_items(basket, open, n).insert(basket[index].0)
        } else {
            settled_items(basket, open, n)
        },
    decreases n,
{
    broadcast use vstd::multiset::group_multiset_axioms;

    if n > 0 {
        lemma_settle_one(basket, open, index, n - 1);
        let next = open.update(index, false);
        if index < n - 1 {
            if open[n - 1] {
            } else {
                assert(settled_items(basket, open, n - 1).insert(basket[index].0).insert(
                    basket[n - 1].0,
                ) =~= settled_items(basket, open, n - 1).insert(basket[n - 1].0).insert(
                    basket[index].0,
                ));
            }
        }
    }
}

/// Where every item is settled, the settled items are the items of the
/// basket.
pub proof fn lemma_all_settled(basket: Basket, open: Seq<bool>, n: int)
    requires
        0 <= n <= open.len(),
        open.len() == basket.len(),
        forall|i: int| 0 <= i < open.len() ==> !open[i],
    ensures
        settled_items(basket, open, n) == basket_items(basket).take(n).to_multiset(),
    decreases n,
{
    broadcast use vstd::multiset::group_multiset_axioms;
    broadcast use vstd::seq_lib::group_to_multiset_ensures;

    if n > 0 {
        lemma_all_settled(basket, open, n - 1);
        assert(basket_items(basket).take(n) =~= basket_items(basket).take(n - 1).push(
            basket[n - 1].0,
        ));
    } else {
        assert(basket_items(basket).take(0) =~= Seq::<ItemView>::empty());
    }
}

/// Where no item is settled, there are no settled items.
pub proof fn lemma_none_settled(basket: Basket, open: Seq<bool>, n: int)
    requires
        0 <= n <= open.len(),
        forall|i: int| 0 <= i < open.len() ==> open[i],
    ensures
        settled_items(basket, open, n) == Multiset::<ItemView>::empty(),
    decreases n,
{
    if n > 0 {
        lemma_none_settled(basket, open, n - 1);
    }
}

/// A basket that is being priced: its items, which of them are settled, and
/// the answer so far.
pub struct Batch<'a> {
    table: &'a PricingTable,
    entries: Vec<(Item, PricingModel)>,
    open: Vec<bool>,
    response: Response,
}

/// How the pricing of a basket starts.
pub enum Start<'a> {
    /// No item is bought. Nothing is to be fetched, and this is the answer.
    Ready(Response),
    /// The items are to be settled one by one.
    Fetch(Batch<'a>),
}

impl<'a> Batch<'a> {
    #[verifier::type_invariant]
    spec fn sound(self) -> bool {
        &&& self.open@.len() == self.entries@.len()
        &&& forall|i: int|
            0 <= i < self.entries@.len() ==> (#[trigger] self.entries.deep_view()[i]).1.supported(
                self.table@,
            )
        &&& items_of(self.response@) == settled_items(
            self.entries.deep_view(),
            self.open@,
            self.open@.len() as int,
        )
    }

    /// The basket.
    pub closed spec fn items(&self) -> Basket {
        self.entries.deep_view()
    }

    /// The table by which the basket is priced.
    pub closed spec fn table(&self) -> TableView {
        self.table@
    }

    /// Item `i` is an item of the basket and not settled yet.
    pub closed spec fn is_open(&self, i: int) -> bool {
        0 <= i < self.open@.len() && self.open@[i]
    }

    /// The answer so far.
    pub closed spec fn response(&self) -> ResponseView {
        self.response@
    }

    /// The number of items in the basket.
    pub fn len(&self) -> (n: usize)
        ensures
            n == self.items().len(),
    {
        self.entries.len()
    }

    /// Tells whether item `index` is still to be settled.
    pub fn open(&self, index: usize) -> (r: bool)
        ensures
            r == self.is_open(index as int),
    {
        index < self.open.len() && self.open[index]
    }

    /// Tells whether every item is settled.
    pub fn is_settled(&self) -> (r: bool)
        ensures
            r == forall|i: int| !self.is_open(i),
    {
        let mut i: usize = 0;
        while i < self.open.len()
            invariant
                i <= self.open@.len(),
                forall|k: int| 0 <= k < i ==> !self.open@[k],
            decreases self.open@.len() - i,
        {
            if self.open[i] {
                proof {
                    assert(self.is_open(i as int));
                }
                return false;
            }
            i += 1;
        }
        true
    }

    /// The requests to send for item `index`: those of its strategy, and none
    /// for an item that is settled or is no item of the basket.
    pub fn requests(&self, index: usize) -> (reqs: Vec<MarketOrdersReq>)
        ensures
            reqs.deep_view() == if self.is_open(index as int) {
                self.items()[index as int].1.requests(self.table())
            } else {
                Seq::empty()
            },
    {
        proof {
            use_type_invariant(self);
        }
        if index < self.open.len() && self.open[index] {
            proof {
                assert(self.entries.deep_view()[index as int].1 == self.entries@[index as int].1@);
            }
            self.entries[index].1.to_reqs(self.table)
        } else {
            let none: Vec<MarketOrdersReq> = Vec::new();
            proof {
                assert(none.deep_view() =~= Seq::<RequestView>::empty());
            }
            none
        }
    }

    /// Settles item `index` with the answers to its requests, in the order in
    /// which they came: the item joins the answer with the price that its
    /// strategy makes of them. Settling an item that is settled, or that is no
    /// item of the basket, changes nothing.
    pub fn settle<F: Fn(&Amount) -> String>(
        self,
        index: usize,
        reps: Vec<(MarketOrdersReq, MarketOrdersRep)>,
        render: &F,
    ) -> (next: Batch<'a>)
        requires
            can_render(render),
        ensures
            next.items() == self.items(),
            next.table() == self.table(),
            forall|k: int| next.is_open(k) == (self.is_open(k) && k != index),
            !self.is_open(index as int) ==> next.response() == self.response(),
            self.is_open(index as int) ==> exists|source: Seq<char>|
                #![trigger self.response().pushed(self.items()[index as int].0, self.items()[index as int].1.price(self.table(), reps.deep_view()), source)]
                self.items()[index as int].1.names_source(self.table(), render, source)
                    && next.response() == self.response().pushed(
                    self.items()[index as int].0,
                    self.items()[index as int].1.price(self.table(), reps.deep_view()),
                    source,
                ),
    {
        proof {
            use_type_invariant(&self);
        }
        if index >= self.open.len() || !self.open[index] {
            return self;
        }
        let ghost basket = self.entries.deep_view();
        let ghost before = self.response@;
        let ghost flags = self.open@;
        let ghost answers = reps.deep_view();
        let Batch { table, entries, mut open, mut response } = self;
        proof {
            assert(basket[index as int] == (entries@[index as int].0@, entries@[index as int].1@));
            assert(basket[index as int].1.supported(table@));
        }
        let item: Item = entries[index].0.clone();
        let source: String = entries[index].1.price_source(table, render);
        let price: Price = entries[index].1.get_price(table, reps);
        response.push(item, price, source);
        open.set(index, false);
        proof {
            lemma_pushed_items(before, basket[index as int].0, price, source@);
            lemma_settle_one(basket, flags, index as int, flags.len() as int);
        }
        let next = Batch { table: table, entries: entries, open: open, response: response };
        proof {
            assert(next.response() == before.pushed(
                basket[index as int].0,
                basket[index as int].1.price(table@, answers),
                source@,
            ));
        }
        next
    }

    /// The answer, once every item is settled: sorted by name and with its
    /// key. It holds the items of the basket, each as often as the basket
    /// does, and each either accepted or rejected. There is no answer while
    /// an item is open.
    pub fn finish<F: Fn(&Amount) -> String>(self, render: &F) -> (done: Option<Response>)
        requires
            can_render(render),
        ensures
            done is Some <==> forall|i: int| !self.is_open(i),
            done matches Some(r) ==> {
                &&& r@ == (ResponseView { hash: r@.hash, ..self.response().sorted_by_name() })
                &&& self.response().sorted_by_name().keyed_by(render, r@.hash)
                &&& r@.is_sorted()
                &&& items_of(r@) == basket_items(self.items()).to_multiset()
            },
    {
        proof {
            use_type_invariant(&self);
        }
        if !self.is_settled() {
            return None;
        }
        let ghost basket = self.entries.deep_view();
        let ghost flags = self.open@;
        let ghost before = self.response@;
        let Batch { table, entries, open, mut response } = self;
        response.sort();
        let ghost sorted = response@;
        response.with_hash_key(render);
        proof {
            assert forall|i: int| 0 <= i < flags.len() implies !flags[i] by {
                assert(!self.is_open(i));
            }
            lemma_all_settled(basket, flags, flags.len() as int);
            assert(basket_items(basket).take(flags.len() as int) =~= basket_items(basket));
            lemma_sorted_items(before);
            assert(items_of(response@) == items_of(sorted));
        }
        Some(response)
    }
}

/// Starts the pricing of a basket at `location`.
///
/// Where no item is bought, nothing is to be fetched and the answer is
/// ready: every item rejected, sorted by name and with its key, as if each
/// item had been settled in the order of the basket. Else every strategy is
/// held against `table`: the first that the table does not support is a
/// fault, and without a fault the batch is ready to be settled, every item
/// open. `render` gives the text of each number that goes into a key.
pub fn response_from_items<'a, F: Fn(&Amount) -> String>(
    items: Vec<(Item, PricingModel)>,
    location: &str,
    table: &'a PricingTable,
    render: &F,
) -> (start: Result<Start<'a>, Error>)
    requires
        can_render(render),
    ensures
        all_rejected(items.deep_view()) ==> (start matches Ok(Start::Ready(r)) && {
            let refused = all_refused(location@, items.deep_view()).sorted_by_name();
            &&& r@ == (ResponseView { hash: r@.hash, ..refused })
            &&& refused.keyed_by(render, r@.hash)
            &&& r@.is_sorted()
        }),
        !all_rejected(items.deep_view()) ==> match first_fault(items.deep_view(), table@, 0) {
            Some(fault) => (start matches Err(e) && e@ == fault),
            None => (start matches Ok(Start::Fetch(batch)) && batch.items() == items.deep_view()
                && batch.table() == table@ && batch.response() == ResponseView::empty(location@)
                && forall|i: int| batch.is_open(i) == (0 <= i < items@.len())),
        },
{
    let ghost basket = items.deep_view();
    let mut response: Response = Response::with_capacity(items.len(), location.to_owned());
    let mut return_empty: bool = true;
    let mut i: usize = 0;
    while i < items.len() && return_empty
        invariant
            i <= items@.len(),
            basket == items.deep_view(),
            return_empty ==> forall|k: int| 0 <= k < i ==> (#[trigger] basket[k]).1 is Rejected,
            !return_empty ==> !all_rejected(basket),
        decreases items@.len() - i + (if return_empty { 1int } else { 0int }),
    {
        proof {
            assert(basket[i as int].1 == items@[i as int].1@);
        }
        if !items[i].1.is_rejected() {
            return_empty = false;
        } else {
            i += 1;
        }
    }
    if return_empty {
        let mut k: usize = 0;
        proof {
            assert(all_refused(location@, basket).rejected.take(0) =~= Seq::<RejectedView>::empty());
        }
        while k < items.len()
            invariant
                k <= items@.len(),
                basket == items.deep_view(),
                all_rejected(basket),
                response@ == (ResponseView {
                    rejected: all_refused(location@, basket).rejected.take(k as int),
                    ..ResponseView::empty(location@)
                }),
            decreases items@.len() - k,
        {
            proof {
                assert(basket[k as int] == (items@[k as int].0@, items@[k as int].1@));
                assert(basket[k as int].1 is Rejected);
            }
            let item: Item = items[k].0.clone();
            let source: String = items[k].1.label();
            response.push(item, Price::Rejected, source);
            proof {
                assert(response@.rejected =~= all_refused(location@, basket).rejected.take(k + 1));
            }
            k += 1;
        }
        proof {
            assert(response@.rejected =~= all_refused(location@, basket).rejected);
        }
        response.sort();
        response.with_hash_key(render);
        return Ok(Start::Ready(response));
    }
    let mut open: Vec<bool> = Vec::with_capacity(items.len());
    let mut j: usize = 0;
    while j < items.len()
        invariant
            j <= items@.len(),
            basket == items.deep_view(),
            open@.len() == j,
            forall|k: int| 0 <= k < j ==> open@[k],
            forall|k: int| 0 <= k < j ==> (#[trigger] basket[k]).1.supported(table@),
            first_fault(basket, table@, 0) == first_fault(basket, table@, j as int),
        decreases items@.len() - j,
    {
        proof {
            assert(basket[j as int].1 == items@[j as int].1@);
        }
        match items[j].1.check(table) {
            Ok(_) => {},
            Err(e) => {
                return Err(e);
            },
        }
        open.push(true);
        j += 1;
    }
    proof {
        lemma_none_settled(basket, open@, open@.len() as int);
        assert(items_of(response@) =~= Multiset::<ItemView>::empty()) by {
            broadcast use vstd::multiset::group_multiset_axioms;
            broadcast use vstd::seq_lib::group_to_multiset_ensures;

        }
    }
    let batch = Batch { table: table, entries: items, open: open, response: response };
    Ok(Start::Fetch(batch))
}

} // verus!
