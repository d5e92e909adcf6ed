//! The answer to a basket: the items that were priced, those that were not,
//! the running sum, and the key by which the answer is stored.

use vstd::prelude::*;
use crate::amount::Amount;
use crate::binary64::ZERO;
use crate::item::{Item, ItemView};
use crate::hex::{hex_digits, to_hex};
use crate::names::name_bytes;
use crate::pricing::Price;
use crate::render::{can_render, renders_one_text, show, shows};
use crate::sorting::{
    by_name, lemma_sort_maps, lemma_sort_sorted, sort_by_name, sorted, stable_sort, Named,
};
use std::collections::hash_map::DefaultHasher;
use std::hash::Hasher;
use vstd::std_specs::hash::DefaultHasherAdditionalSpecFns;

verus! {

/// An item with its price.
#[derive(Debug)]
pub struct AcceptedResultItem {
    pub item: Item,
    /// The price of one unit.
    pub price_per: Amount,
    /// The quantity of the item times the price of one unit.
    pub price_total: Amount,
    /// Where the price comes from.
    pub source: String,
}

/// What an `AcceptedResultItem` is.
pub struct AcceptedView {
    pub item: ItemView,
    pub price_per: Amount,
    pub price_total: Amount,
    pub source: Seq<char>,
}

impl View for AcceptedResultItem {
    type V = AcceptedView;

    open spec fn view(&self) -> AcceptedView {
        AcceptedView {
            item: self.item@,
            price_per: self.price_per,
            price_total: self.price_total,
            source: self.source@,
        }
    }
}

impl DeepView for AcceptedResultItem {
    type V = AcceptedView;

    open spec fn deep_view(&self) -> AcceptedView {
        self@
    }
}

impl Named for AcceptedResultItem {
    open spec fn name_spec(&self) -> Seq<char> {
        self.item.name@
    }

    fn name(&self) -> (name: &str) {
        self.item.name.as_str()
    }
}

/// An item without a price.
#[derive(Debug)]
pub struct RejectedResultItem {
    pub item: Item,
    /// What refused the item.
    pub source: String,
}

/// What a `RejectedResultItem` is.
pub struct RejectedView {
    pub item: ItemView,
    pub source: Seq<char>,
}

impl View for RejectedResultItem {
    type V = RejectedView;

    open spec fn view(&self) -> RejectedView {
        RejectedView { item: self.item@, source: self.source@ }
    }
}

impl DeepView for RejectedResultItem {
    type V = RejectedView;

    open spec fn deep_view(&self) -> RejectedView {
        self@
    }
}

impl Named for RejectedResultItem {
    open spec fn name_spec(&self) -> Seq<char> {
        self.item.name@
    }

    fn name(&self) -> (name: &str) {
        self.item.name.as_str()
    }
}

impl AcceptedView {
    /// The accepted item made of `item` at the unit price `price_per`: its
    /// total is the quantity times the unit price.
    pub open spec fn priced(item: ItemView, price_per: Amount, source: Seq<char>) -> AcceptedView {
        AcceptedView {
            item: item,
            price_per: price_per,
            price_total: Amount::times(Amount::Value(item.quantity), price_per),
            source: source,
        }
    }
}

impl From<(Item, Amount, String)> for AcceptedResultItem {
    /// The accepted item made of an item, its unit price and the source of
    /// that price.
    fn from(value: (Item, Amount, String)) -> (made: AcceptedResultItem) {
        let price_total = Amount::product(Amount::value(value.0.quantity), value.1.clone());
        AcceptedResultItem {
            item: value.0,
            price_per: value.1,
            price_total: price_total,
            source: value.2,
        }
    }
}

impl vstd::std_specs::convert::FromSpecImpl<(Item, Amount, String)> for AcceptedResultItem {
    open spec fn obeys_from_spec() -> bool {
        true
    }

    open spec fn from_spec(value: (Item, Amount, String)) -> AcceptedResultItem {
        AcceptedResultItem {
            item: value.0,
            price_per: value.1,
            price_total: Amount::times(Amount::Value(value.0.quantity), value.1),
            source: value.2,
        }
    }
}

impl From<(Item, String)> for RejectedResultItem {
    /// The rejected item made of an item and the source that refused it.
    fn from(value: (Item, String)) -> (made: RejectedResultItem) {
        RejectedResultItem { item: value.0, source: value.1 }
    }
}

impl vstd::std_specs::convert::FromSpecImpl<(Item, String)> for RejectedResultItem {
    open spec fn obeys_from_spec() -> bool {
        true
    }

    open spec fn from_spec(value: (Item, String)) -> RejectedResultItem {
        RejectedResultItem { item: value.0, source: value.1 }
    }
}

/// The key by which accepted items are sorted: the bytes of the name.
pub open spec fn accepted_key() -> spec_fn(AcceptedView) -> Seq<u8> {
    |a: AcceptedView| name_bytes(a.item.name)
}

/// The key by which rejected items are sorted: the bytes of the name.
pub open spec fn rejected_key() -> spec_fn(RejectedView) -> Seq<u8> {
    |r: RejectedView| name_bytes(r.item.name)
}

/// The texts of the three numbers of an accepted item.
pub struct AcceptedTexts {
    pub quantity: Seq<char>,
    pub price_per: Seq<char>,
    pub price_total: Seq<char>,
}

/// The texts of the numbers of an answer that go into its key: three for
/// each accepted item, and the quantity of each rejected item.
pub struct Texts {
    pub accepted: Seq<AcceptedTexts>,
    pub rejected: Seq<Seq<char>>,
}

/// What writing `text` into the key adds to its input: the bytes of the
/// text, then one byte `0xff`, which no text holds.
pub open spec fn written(text: Seq<char>) -> Seq<Seq<u8>> {
    seq![name_bytes(text), seq![0xffu8]]
}

/// What the first `n` accepted items add to the input of the key: of each
/// item its name, its quantity, its unit price and its total.
pub open spec fn accepted_written(accepted: Seq<AcceptedView>, texts: Seq<AcceptedTexts>, n: int) -> Seq<Seq<u8>>
    decreases n,
{
    if n <= 0 {
        Seq::empty()
    } else {
        accepted_written(accepted, texts, n - 1) + written(accepted[n - 1].item.name) + written(
            texts[n - 1].quantity,
        ) + written(texts[n - 1].price_per) + written(texts[n - 1].price_total)
    }
}

/// What the first `n` rejected items add to the input of the key: of each
/// item its name and its quantity.
pub open spec fn rejected_written(rejected: Seq<RejectedView>, texts: Seq<Seq<char>>, n: int) -> Seq<Seq<u8>>
    decreases n,
{
    if n <= 0 {
        Seq::empty()
    } else {
        rejected_written(rejected, texts, n - 1) + written(rejected[n - 1].item.name) + written(
            texts[n - 1],
        )
    }
}

/// The answer to a basket.
#[derive(Debug)]
pub struct Response {
    pub accepted: Vec<AcceptedResultItem>,
    pub rejected: Vec<RejectedResultItem>,
    /// The key of the answer; empty until `with_hash_key` has made it.
    pub hash: String,
    pub location: String,
    /// The totals of the accepted items, added in the order in which the
    /// items were pushed.
    pub sum: Amount,
}

/// What a `Response` is.
pub struct ResponseView {
    pub accepted: Seq<AcceptedView>,
    pub rejected: Seq<RejectedView>,
    pub hash: Seq<char>,
    pub location: Seq<char>,
    pub sum: Amount,
}

impl View for Response {
    type V = ResponseView;

    open spec fn view(&self) -> ResponseView {
        ResponseView {
            accepted: self.accepted.deep_view(),
            rejected: self.rejected.deep_view(),
            hash: self.hash@,
            location: self.location@,
            sum: self.sum,
        }
    }
}

impl DeepView for Response {
    type V = ResponseView;

    open spec fn deep_view(&self) -> ResponseView {
        self@
    }
}

impl ResponseView {
    /// The answer for `location` that holds no item yet: no key, and a sum of
    /// zero.
    pub open spec fn empty(location: Seq<char>) -> ResponseView {
        ResponseView {
            accepted: Seq::empty(),
            rejected: Seq::empty(),
            hash: Seq::empty(),
            location: location,
            sum: Amount::zero(),
        }
    }

    /// The answer after `item` has come in with `price`: an item with a price
    /// joins the accepted ones and its total is added to the sum; an item
    /// without one joins the rejected ones.
    pub open spec fn pushed(self, item: ItemView, price: Price, source: Seq<char>) -> ResponseView {
        match price {
            Price::Accepted(price_per) => {
                let entry = AcceptedView::priced(item, price_per, source);
                ResponseView {
                    accepted: self.accepted.push(entry),
                    sum: Amount::plus(self.sum, entry.price_total),
                    ..self
                }
            },
            Price::Rejected => ResponseView {
                rejected: self.rejected.push(RejectedView { item: item, source: source }),
                ..self
            },
        }
    }

    /// The answer with both lists sorted by name, items of one name in the
    /// order they had.
    pub open spec fn sorted_by_name(self) -> ResponseView {
        ResponseView {
            accepted: stable_sort(self.accepted, accepted_key()),
            rejected: stable_sort(self.rejected, rejected_key()),
            ..self
        }
    }

    /// In both lists the names never step down.
    pub open spec fn is_sorted(self) -> bool {
        sorted(self.accepted, accepted_key()) && sorted(self.rejected, rejected_key())
    }

    /// `texts` holds, for each number that goes into the key, a text that
    /// `render` may give for it.
    pub open spec fn shown<F: Fn(&Amount) -> String>(self, render: &F, texts: Texts) -> bool {
        &&& texts.accepted.len() == self.accepted.len()
        &&& texts.rejected.len() == self.rejected.len()
        &&& forall|i: int|
            0 <= i < self.accepted.len() ==> {
                &&& shows(
                    render,
                    Amount::Value(self.accepted[i].item.quantity),
                    (#[trigger] texts.accepted[i]).quantity,
                )
                &&& shows(render, self.accepted[i].price_per, texts.accepted[i].price_per)
                &&& shows(render, self.accepted[i].price_total, texts.accepted[i].price_total)
            }
        &&& forall|j: int|
            0 <= j < self.rejected.len() ==> shows(
                render,
                Amount::Value(self.rejected[j].item.quantity),
                #[trigger] texts.rejected[j],
            )
    }

    /// The input of the key: the location, then the accepted items, then the
    /// rejected ones, each list in its order. Neither the sources nor the sum
    /// are part of it.
    pub open spec fn key_input(self, texts: Texts) -> Seq<Seq<u8>> {
        written(self.location) + accepted_written(
            self.accepted,
            texts.accepted,
            self.accepted.len() as int,
        ) + rejected_written(self.rejected, texts.rejected, self.rejected.len() as int)
    }

    /// The key of the answer: the digest of the input, in hexadecimal.
    pub open spec fn key(self, texts: Texts) -> Seq<char> {
        hex_digits(DefaultHasher::spec_finish(self.key_input(texts)) as nat)
    }

    /// `key` is the key of the answer for some texts that `render` gives for
    /// its numbers.
    pub open spec fn keyed_by<F: Fn(&Amount) -> String>(self, render: &F, key: Seq<char>) -> bool {
        exists|texts: Texts| self.shown(render, texts) && key == #[trigger] self.key(texts)
    }
}

/// Writes `text` into the input of a key.
fn write_text(hasher: &mut DefaultHasher, text: &str)
    ensures
        final(hasher)@ == old(hasher)@ + written(text@),
{
    let end: Vec<u8> = vec![0xffu8];
    hasher.write(text.as_bytes());
    hasher.write(end.as_slice());
    proof {
        assert(end@ =~= seq![0xffu8]);
        assert(hasher@ =~= old(hasher)@ + written(text@));
    }
}

impl Response {
    /// Sorts the accepted and the rejected items by name. Items of one name
    /// keep their order.
    pub fn sort(&mut self)
        ensures
            final(self)@ == old(self)@.sorted_by_name(),
            final(self)@.is_sorted(),
    {
        let ghost accepted = self.accepted@;
        let ghost rejected = self.rejected@;
        sort_by_name(&mut self.accepted);
        sort_by_name(&mut self.rejected);
        proof {
            let fa = |a: AcceptedResultItem| a@;
            let fr = |r: RejectedResultItem| r@;
            assert(accepted.map_values(fa) =~= old(self)@.accepted);
            assert(rejected.map_values(fr) =~= old(self)@.rejected);
            lemma_sort_maps(accepted, fa, by_name::<AcceptedResultItem>(), accepted_key());
            lemma_sort_maps(rejected, fr, by_name::<RejectedResultItem>(), rejected_key());
            assert(self.accepted@.map_values(fa) =~= self@.accepted);
            assert(self.rejected@.map_values(fr) =~= self@.rejected);
            lemma_sort_sorted(old(self)@.accepted, accepted_key());
            lemma_sort_sorted(old(self)@.rejected, rejected_key());
        }
    }

    /// Makes the key of the answer from what the answer holds and stores it
    /// in `hash`. `render` gives the text of each number.
    pub fn with_hash_key<F: Fn(&Amount) -> String>(&mut self, render: &F) -> (key: &str)
        requires
            can_render(render),
        ensures
            old(self)@.keyed_by(render, final(self)@.hash),
            renders_one_text(render) ==> forall|texts: Texts|
                old(self)@.shown(render, texts) ==> final(self)@.hash == #[trigger] old(self)@.key(
                    texts,
                ),
            final(self)@ == (ResponseView { hash: final(self)@.hash, ..old(self)@ }),
            key@ == final(self)@.hash,
    {
        let ghost view = self@;
        let ghost mut accepted_texts: Seq<AcceptedTexts> = Seq::empty();
        let ghost mut rejected_texts: Seq<Seq<char>> = Seq::empty();
        let mut hasher = DefaultHasher::new();
        write_text(&mut hasher, self.location.as_str());
        let mut i: usize = 0;
        proof {
            assert(hasher@ =~= written(view.location) + accepted_written(
                view.accepted,
                accepted_texts,
                0,
            ));
        }
        while i < self.accepted.len()
            invariant
                i <= self.accepted@.len(),
                can_render(render),
                view == self@,
                accepted_texts.len() == i,
                forall|m: int|
                    0 <= m < i ==> {
                        &&& shows(
                            render,
                            Amount::Value(view.accepted[m].item.quantity),
                            (#[trigger] accepted_texts[m]).quantity,
                        )
                        &&& shows(render, view.accepted[m].price_per, accepted_texts[m].price_per)
                        &&& shows(render, view.accepted[m].price_total, accepted_texts[m].price_total)
                    },
                hasher@ == written(view.location) + accepted_written(
                    view.accepted,
                    accepted_texts,
                    i as int,
                ),
            decreases self.accepted@.len() - i,
        {
            let ghost before = hasher@;
            let ghost shown = accepted_texts;
            let entry = &self.accepted[i];
            proof {
                assert(view.accepted[i as int] == entry@);
            }
            let quantity = Amount::value(entry.item.quantity);
            let quantity_text: String = show(render, &quantity);
            let per_text: String = show(render, &entry.price_per);
            let total_text: String = show(render, &entry.price_total);
            write_text(&mut hasher, entry.item.name.as_str());
            write_text(&mut hasher, quantity_text.as_str());
            write_text(&mut hasher, per_text.as_str());
            write_text(&mut hasher, total_text.as_str());
            proof {
                accepted_texts = accepted_texts.push(
                    AcceptedTexts {
                        quantity: quantity_text@,
                        price_per: per_text@,
                        price_total: total_text@,
                    },
                );
                lemma_accepted_written_extend(view.accepted, shown, accepted_texts, i as int);
                assert(hasher@ =~= written(view.location) + accepted_written(
                    view.accepted,
                    accepted_texts,
                    i + 1,
                ));
            }
            i += 1;
        }
        let ghost head = hasher@;
        let mut j: usize = 0;
        proof {
            assert(hasher@ =~= head + rejected_written(view.rejected, rejected_texts, 0));
        }
        while j < self.rejected.len()
            invariant
                j <= self.rejected@.len(),
                can_render(render),
                view == self@,
                rejected_texts.len() == j,
                forall|m: int|
                    0 <= m < j ==> shows(
                        render,
                        Amount::Value(view.rejected[m].item.quantity),
                        #[trigger] rejected_texts[m],
                    ),
                hasher@ == head + rejected_written(view.rejected, rejected_texts, j as int),
            decreases self.rejected@.len() - j,
        {
            let ghost shown = rejected_texts;
            let entry = &self.rejected[j];
            proof {
                assert(view.rejected[j as int] == entry@);
            }
            let quantity = Amount::value(entry.item.quantity);
            let quantity_text: String = show(render, &quantity);
            write_text(&mut hasher, entry.item.name.as_str());
            write_text(&mut hasher, quantity_text.as_str());
            proof {
                rejected_texts = rejected_texts.push(quantity_text@);
                lemma_rejected_written_extend(view.rejected, shown, rejected_texts, j as int);
                assert(hasher@ =~= head + rejected_written(view.rejected, rejected_texts, j + 1));
            }
            j += 1;
        }
        let digest: u64 = hasher.finish();
        self.hash = to_hex(digest);
        proof {
            let texts = Texts { accepted: accepted_texts, rejected: rejected_texts };
            assert(view.shown(render, texts));
            assert(hasher@ == view.key_input(texts));
            assert(self.hash@ == view.key(texts));
            if renders_one_text(render) {
                assert forall|other: Texts| view.shown(render, other) implies self.hash@
                    == #[trigger] view.key(other) by {
                    lemma_key_is_determined(view, render, view.key(texts), view.key(other));
                }
            }
        }
        self.hash.as_str()
    }

    /// An answer for `location` that holds no item yet, with room for
    /// `capacity` items of either kind.
    pub fn with_capacity(capacity: usize, location: String) -> (response: Response)
        ensures
            response@ == ResponseView::empty(location@),
    {
        let response = Response {
            accepted: Vec::with_capacity(capacity),
            rejected: Vec::with_capacity(capacity),
            hash: String::new(),
            location: location,
            sum: Amount::value(ZERO),
        };
        proof {
            assert(response.accepted.deep_view() =~= Seq::<AcceptedView>::empty());
            assert(response.rejected.deep_view() =~= Seq::<RejectedView>::empty());
        }
        response
    }

    /// Takes in `item` with its `price` and the `source` of that price.
    pub fn push(&mut self, item: Item, price: Price, source: String)
        ensures
            final(self)@ == old(self)@.pushed(item@, price, source@),
    {
        match price {
            Price::Accepted(price_per) => {
                let ghost before = self.accepted.deep_view();
                let entry = AcceptedResultItem::from((item, price_per, source));
                let total = entry.price_total.clone();
                self.accepted.push(entry);
                proof {
                    assert(self.accepted.deep_view() =~= before.push(entry@));
                }
                let mut sum = Amount::value(ZERO);
                std::mem::swap(&mut sum, &mut self.sum);
                self.sum = Amount::sum(sum, total);
            },
            Price::Rejected => {
                let ghost before = self.rejected.deep_view();
                let entry = RejectedResultItem::from((item, source));
                self.rejected.push(entry);
                proof {
                    assert(self.rejected.deep_view() =~= before.push(entry@));
                }
            },
        }
    }
}

/// What the first `n` accepted items add to the input of the key depends on
/// the first `n` texts only.
pub proof fn lemma_accepted_written_extend(
    accepted: Seq<AcceptedView>,
    texts: Seq<AcceptedTexts>,
    more: Seq<AcceptedTexts>,
    n: int,
)
    requires
        0 <= n <= texts.len() <= more.len(),
        forall|k: int| 0 <= k < n ==> texts[k] == more[k],
    ensures
        accepted_written(accepted, texts, n) == accepted_written(accepted, more, n),
    decreases n,
{
    if n > 0 {
        lemma_accepted_written_extend(accepted, texts, more, n - 1);
    }
}

/// What the first `n` rejected items add to the input of the key depends on
/// the first `n` texts only.
pub proof fn lemma_rejected_written_extend(
    rejected: Seq<RejectedView>,
    texts: Seq<Seq<char>>,
    more: Seq<Seq<char>>,
    n: int,
)
    requires
        0 <= n <= texts.len() <= more.len(),
        forall|k: int| 0 <= k < n ==> texts[k] == more[k],
    ensures
        rejected_written(rejected, texts, n) == rejected_written(rejected, more, n),
    decreases n,
{
    if n > 0 {
        lemma_rejected_written_extend(rejected, texts, more, n - 1);
    }
}

/// An answer has one key: where `render` gives every amount one text only,
/// whatever two keys are made of one answer are the same key.
pub proof fn lemma_key_is_determined<F: Fn(&Amount) -> String>(
    r: ResponseView,
    render: &F,
    first: Seq<char>,
    second: Seq<char>,
)
    requires
        renders_one_text(render),
        r.keyed_by(render, first),
        r.keyed_by(render, second),
    ensures
        first == second,
{
    let t1 = choose|texts: Texts| r.shown(render, texts) && first == #[trigger] r.key(texts);
    let t2 = choose|texts: Texts| r.shown(render, texts) && second == #[trigger] r.key(texts);
    assert forall|i: int| 0 <= i < r.accepted.len() implies t1.accepted[i] == t2.accepted[i] by {
        let x = t1.accepted[i];
        let y = t2.accepted[i];
        assert(shows(render, Amount::Value(r.accepted[i].item.quantity), x.quantity));
        assert(shows(render, Amount::Value(r.accepted[i].item.quantity), y.quantity));
        assert(shows(render, r.accepted[i].price_per, x.price_per));
        assert(shows(render, r.accepted[i].price_per, y.price_per));
        assert(shows(render, r.accepted[i].price_total, x.price_total));
        assert(shows(render, r.accepted[i].price_total, y.price_total));
    }
    assert forall|j: int| 0 <= j < r.rejected.len() implies t1.rejected[j] == t2.rejected[j] by {
        assert(shows(render, Amount::Value(r.rejected[j].item.quantity), t1.rejected[j]));
        assert(shows(render, Amount::Value(r.rejected[j].item.quantity), t2.rejected[j]));
    }
    assert(t1.accepted =~= t2.accepted);
    assert(t1.rejected =~= t2.rejected);
}

} // verus!
