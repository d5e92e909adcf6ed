//! What holds of the library as a whole.

use vstd::prelude::*;
use crate::amount::Amount;
use crate::batch::{
    all_refused, all_rejected, basket_items, first_fault, items_of, lemma_sorted_items, Basket,
};
use crate::input::with_strategies;
use crate::binary64::{lemma_order_mirrors, lemma_order_transitive, order, Order};
use crate::item::ItemView;
use crate::market::{best_price, lemma_best_price_is_one};
use crate::multi_item::MultiView;
use crate::names::{lemma_name_bytes_tell_names, name_bytes};
use crate::pricing::{lemma_fault_is_not_supported, Answers, ModelView, Price};
use crate::render::{renders_one_text, shows};
use crate::response::{
    accepted_key, accepted_written, lemma_key_is_determined, rejected_key, rejected_written,
    AcceptedTexts, AcceptedView, RejectedView, ResponseView, Texts,
};
use crate::sorting::{
    key_decides, keyed, lemma_map_keeps_items, lemma_sort_forgets_order, lemma_sort_is_stable,
    lemma_sort_keeps_sorted, lemma_sort_len, lemma_sort_maps, lemma_sort_sorted, stable_sort,
};
use crate::table::{lemma_sound_table_supports, sound, TableView};

verus! {

/// A basket of which no item is bought asks nothing of the market: no item
/// has a request, and the answer holds no accepted item and the items of the
/// basket as its rejected ones, each as often as the basket holds it.
pub proof fn law_nothing_bought_nothing_asked(location: Seq<char>, basket: Basket, table: TableView)
    requires
        all_rejected(basket),
    ensures
        forall|i: int| 0 <= i < basket.len() ==> (#[trigger] basket[i]).1.requests(table).len() == 0,
        all_refused(location, basket).sorted_by_name().accepted.len() == 0,
        all_refused(location, basket).sorted_by_name().rejected.len() == basket.len(),
        items_of(all_refused(location, basket).sorted_by_name()) == basket_items(
            basket,
        ).to_multiset(),
{
    broadcast use vstd::multiset::group_multiset_axioms;
    broadcast use vstd::seq_lib::group_to_multiset_ensures;

    let refused = all_refused(location, basket);
    lemma_sort_len(refused.accepted, accepted_key());
    lemma_sort_len(refused.rejected, rejected_key());
    lemma_sorted_items(refused);
    assert(refused.rejected.map_values(|r: RejectedView| r.item) =~= basket_items(basket));
    assert(refused.accepted.map_values(|a: AcceptedView| a.item) =~= Seq::<ItemView>::empty());
    assert(items_of(refused) =~= basket_items(basket).to_multiset());
}

/// The strategy that buys nothing makes no request and no price, whatever
/// the table and the answers.
pub proof fn law_rejected_is_final(table: TableView, answers: Answers)
    ensures
        ModelView::Rejected.requests(table).len() == 0,
        ModelView::Rejected.price(table, answers) == Price::Rejected,
{
}

/// An item that has been priced: the item, its price and the source of the
/// price.
pub struct Outcome {
    pub item: ItemView,
    pub price: Price,
    pub source: Seq<char>,
}

/// The answer for `location` after `outcomes` have come in, one after the
/// other.
pub open spec fn settled(location: Seq<char>, outcomes: Seq<Outcome>) -> ResponseView
    decreases outcomes.len(),
{
    if outcomes.len() == 0 {
        ResponseView::empty(location)
    } else {
        settled(location, outcomes.drop_last()).pushed(
            outcomes.last().item,
            outcomes.last().price,
            outcomes.last().source,
        )
    }
}

/// Two answers hold the same accepted items and the same rejected items,
/// each as often as the other, in whatever order.
pub open spec fn same_entries(a: ResponseView, b: ResponseView) -> bool {
    &&& a.accepted.to_multiset() == b.accepted.to_multiset()
    &&& a.rejected.to_multiset() == b.rejected.to_multiset()
}

/// What one outcome adds to the entries of an answer does not depend on
/// when it comes in: the answer after all outcomes holds the entries of the
/// answer without outcome `i`, and those of an answer with that outcome alone.
pub proof fn lemma_settled_without(location: Seq<char>, outcomes: Seq<Outcome>, i: int)
    requires
        0 <= i < outcomes.len(),
    ensures
        same_entries(
            settled(location, outcomes),
            settled(location, outcomes.remove(i)).pushed(
                outcomes[i].item,
                outcomes[i].price,
                outcomes[i].source,
            ),
        ),
    decreases outcomes.len(),
{
    broadcast use vstd::multiset::group_multiset_axioms;
    broadcast use vstd::seq_lib::group_to_multiset_ensures;

    let front = outcomes.drop_last();
    let last = outcomes.last();
    if i == outcomes.len() - 1 {
        assert(outcomes.remove(i) =~= front);
    } else {
        let rest = outcomes.remove(i);
        assert(rest.drop_last() =~= front.remove(i));
        assert(rest.last() == last);
        assert(front[i] == outcomes[i]);
        lemma_settled_without(location, front, i);
        let x = outcomes[i];
        let base = settled(location, front.remove(i));
        lemma_pushed_entries(settled(location, front), base.pushed(x.item, x.price, x.source), last);
        lemma_pushes_commute(base, x, last);
    }
}

/// An outcome that comes in keeps two answers with the same entries at the
/// same entries.
pub proof fn lemma_pushed_entries(a: ResponseView, b: ResponseView, x: Outcome)
    requires
        same_entries(a, b),
    ensures
        same_entries(a.pushed(x.item, x.price, x.source), b.pushed(x.item, x.price, x.source)),
{
    broadcast use vstd::multiset::group_multiset_axioms;
    broadcast use vstd::seq_lib::group_to_multiset_ensures;

}

/// Two outcomes that come in leave the same entries in either order.
pub proof fn lemma_pushes_commute(r: ResponseView, x: Outcome, y: Outcome)
    ensures
        same_entries(
            r.pushed(x.item, x.price, x.source).pushed(y.item, y.price, y.source),
            r.pushed(y.item, y.price, y.source).pushed(x.item, x.price, x.source),
        ),
{
    broadcast use vstd::multiset::group_multiset_axioms;
    broadcast use vstd::seq_lib::group_to_multiset_ensures;

    let xy = r.pushed(x.item, x.price, x.source).pushed(y.item, y.price, y.source);
    let yx = r.pushed(y.item, y.price, y.source).pushed(x.item, x.price, x.source);
    assert(xy.accepted.to_multiset() =~= yx.accepted.to_multiset());
    assert(xy.rejected.to_multiset() =~= yx.rejected.to_multiset());
}

/// The same outcomes leave the same entries, in whatever order they come in.
pub proof fn lemma_settled_forgets_order(location: Seq<char>, a: Seq<Outcome>, b: Seq<Outcome>)
    requires
        a.to_multiset() == b.to_multiset(),
    ensures
        same_entries(settled(location, a), settled(location, b)),
    decreases a.len(),
{
    broadcast use vstd::multiset::group_multiset_axioms;
    broadcast use vstd::seq_lib::group_to_multiset_ensures;

    a.to_multiset_ensures();
    b.to_multiset_ensures();
    assert(a.len() == b.len());
    if a.len() > 0 {
        let x = a.last();
        assert(a[a.len() - 1] == x);
        assert(a.contains(x));
        assert(b.to_multiset().contains(x));
        let i = choose|i: int| 0 <= i < b.len() && b[i] == x;
        let front = a.drop_last();
        let rest = b.remove(i);
        vstd::seq_lib::to_multiset_remove(a, a.len() - 1);
        vstd::seq_lib::to_multiset_remove(b, i);
        assert(a.remove(a.len() - 1) =~= front);
        lemma_settled_forgets_order(location, front, rest);
        lemma_pushed_entries(settled(location, front), settled(location, rest), x);
        lemma_settled_without(location, b, i);
    }
}

/// An accepted entry without its source.
pub open spec fn accepted_content() -> spec_fn(AcceptedView) -> AcceptedView {
    |a: AcceptedView| AcceptedView { source: Seq::empty(), ..a }
}

/// A rejected entry without its source.
pub open spec fn rejected_content() -> spec_fn(RejectedView) -> RejectedView {
    |r: RejectedView| RejectedView { source: Seq::empty(), ..r }
}

/// The entries of one name are one entry in all that goes into the key: two
/// accepted entries of one name have the same item, unit price and total,
/// and two rejected entries of one name the same item. Their sources may
/// differ.
pub open spec fn one_entry_per_name(r: ResponseView) -> bool {
    &&& forall|i: int, j: int|
        0 <= i < r.accepted.len() && 0 <= j < r.accepted.len() && (#[trigger] r.accepted[i]).item.name
            == (#[trigger] r.accepted[j]).item.name ==> {
            &&& r.accepted[i].item == r.accepted[j].item
            &&& r.accepted[i].price_per == r.accepted[j].price_per
            &&& r.accepted[i].price_total == r.accepted[j].price_total
        }
    &&& forall|i: int, j: int|
        0 <= i < r.rejected.len() && 0 <= j < r.rejected.len() && (#[trigger] r.rejected[i]).item.name
            == (#[trigger] r.rejected[j]).item.name ==> r.rejected[i].item == r.rejected[j].item
}

/// Where the entries of one name are one entry, the name decides what an
/// entry is once its source is left out.
pub proof fn lemma_names_decide_content(r: ResponseView)
    requires
        one_entry_per_name(r),
    ensures
        key_decides(r.accepted.map_values(accepted_content()).to_multiset(), accepted_key()),
        key_decides(r.rejected.map_values(rejected_content()).to_multiset(), rejected_key()),
{
    let accepted = r.accepted.map_values(accepted_content());
    let rejected = r.rejected.map_values(rejected_content());
    accepted.to_multiset_ensures();
    rejected.to_multiset_ensures();
    assert forall|x: AcceptedView, y: AcceptedView|
        accepted.to_multiset().contains(x) && accepted.to_multiset().contains(y)
            && #[trigger] accepted_key()(x) == #[trigger] accepted_key()(y) implies x == y by {
        assert(accepted.contains(x));
        assert(accepted.contains(y));
        let i = choose|i: int| 0 <= i < accepted.len() && accepted[i] == x;
        let j = choose|j: int| 0 <= j < accepted.len() && accepted[j] == y;
        lemma_name_bytes_tell_names(x.item.name, y.item.name);
        assert(r.accepted[i].item.name == r.accepted[j].item.name);
    }
    assert forall|x: RejectedView, y: RejectedView|
        rejected.to_multiset().contains(x) && rejected.to_multiset().contains(y)
            && #[trigger] rejected_key()(x) == #[trigger] rejected_key()(y) implies x == y by {
        assert(rejected.contains(x));
        assert(rejected.contains(y));
        let i = choose|i: int| 0 <= i < rejected.len() && rejected[i] == x;
        let j = choose|j: int| 0 <= j < rejected.len() && rejected[j] == y;
        lemma_name_bytes_tell_names(x.item.name, y.item.name);
        assert(r.rejected[i].item.name == r.rejected[j].item.name);
    }
}

/// The key does not show in which order the items came in: two answers for
/// one location that hold the same accepted and the same rejected entries
/// have, once sorted, lists that differ in sources at most and, for the same
/// texts, the same key. This holds where the entries of one name are one
/// entry; of two entries with one name that differ in more than their source
/// the one that came first stays first, and the key shows it.
pub proof fn lemma_same_entries_same_key(a: ResponseView, b: ResponseView, texts: Texts)
    requires
        a.location == b.location,
        same_entries(a, b),
        one_entry_per_name(a),
    ensures
        same_but_sources(a.sorted_by_name(), b.sorted_by_name()),
        a.sorted_by_name().key_input(texts) == b.sorted_by_name().key_input(texts),
        a.sorted_by_name().key(texts) == b.sorted_by_name().key(texts),
{
    let fa = accepted_content();
    let fr = rejected_content();
    let x = a.sorted_by_name();
    let y = b.sorted_by_name();
    lemma_names_decide_content(a);
    lemma_map_keeps_items(a.accepted, b.accepted, fa);
    lemma_map_keeps_items(a.rejected, b.rejected, fr);
    lemma_sort_forgets_order(a.accepted.map_values(fa), b.accepted.map_values(fa), accepted_key());
    lemma_sort_forgets_order(a.rejected.map_values(fr), b.rejected.map_values(fr), rejected_key());
    lemma_sort_maps(a.accepted, fa, accepted_key(), accepted_key());
    lemma_sort_maps(b.accepted, fa, accepted_key(), accepted_key());
    lemma_sort_maps(a.rejected, fr, rejected_key(), rejected_key());
    lemma_sort_maps(b.rejected, fr, rejected_key(), rejected_key());
    assert(x.accepted.map_values(fa) == y.accepted.map_values(fa));
    assert(x.rejected.map_values(fr) == y.rejected.map_values(fr));
    assert(x.accepted.len() == y.accepted.len()) by {
        assert(x.accepted.map_values(fa).len() == y.accepted.map_values(fa).len());
    }
    assert(x.rejected.len() == y.rejected.len()) by {
        assert(x.rejected.map_values(fr).len() == y.rejected.map_values(fr).len());
    }
    assert forall|i: int| 0 <= i < x.accepted.len() implies {
        &&& (#[trigger] x.accepted[i]).item == y.accepted[i].item
        &&& x.accepted[i].price_per == y.accepted[i].price_per
        &&& x.accepted[i].price_total == y.accepted[i].price_total
    } by {
        assert(x.accepted.map_values(fa)[i] == y.accepted.map_values(fa)[i]);
    }
    assert forall|j: int| 0 <= j < x.rejected.len() implies (#[trigger] x.rejected[j]).item
        == y.rejected[j].item by {
        assert(x.rejected.map_values(fr)[j] == y.rejected.map_values(fr)[j]);
    }
    lemma_accepted_written_ignores_sources(x.accepted, y.accepted, texts.accepted, x.accepted.len() as int);
    lemma_rejected_written_ignores_sources(x.rejected, y.rejected, texts.rejected, x.rejected.len() as int);
}

/// The key does not show in which order the items were settled: the same
/// outcomes, come in in two orders, give once sorted lists that differ in
/// sources at most and, for the same texts, the same key. This holds where
/// the entries of one name are one entry.
pub proof fn law_key_forgets_completion_order(
    location: Seq<char>,
    a: Seq<Outcome>,
    b: Seq<Outcome>,
    texts: Texts,
)
    requires
        a.to_multiset() == b.to_multiset(),
        one_entry_per_name(settled(location, a)),
    ensures
        same_but_sources(
            settled(location, a).sorted_by_name(),
            settled(location, b).sorted_by_name(),
        ),
        settled(location, a).sorted_by_name().key(texts) == settled(
            location,
            b,
        ).sorted_by_name().key(texts),
{
    lemma_settled_forgets_order(location, a, b);
    lemma_settled_location(location, a);
    lemma_settled_location(location, b);
    lemma_same_entries_same_key(settled(location, a), settled(location, b), texts);
}

/// An answer has one key: where `render` gives every amount one text only,
/// whatever two keys are made of one answer are the same key.
pub proof fn law_key_is_determined<F: Fn(&Amount) -> String>(
    r: ResponseView,
    render: &F,
    first: Seq<char>,
    second: Seq<char>,
)
    requires
        renders_one_text(render),
        r.keyed_by(render, first),
        r.keyed_by(render, second),
    ensures
        first == second,
{
    lemma_key_is_determined(r, render, first, second);
}

/// Pricing the same basket twice gives the same key, in whatever order the
/// items are settled: where the same outcomes come in in two orders and
/// `render` gives every amount one text only, the keys of the two sorted
/// answers are the same. This holds where the entries of one name are one
/// entry.
pub proof fn law_same_outcomes_same_key<F: Fn(&Amount) -> String>(
    location: Seq<char>,
    a: Seq<Outcome>,
    b: Seq<Outcome>,
    render: &F,
    first: Seq<char>,
    second: Seq<char>,
)
    requires
        a.to_multiset() == b.to_multiset(),
        one_entry_per_name(settled(location, a)),
        renders_one_text(render),
        settled(location, a).sorted_by_name().keyed_by(render, first),
        settled(location, b).sorted_by_name().keyed_by(render, second),
    ensures
        first == second,
{
    let x = settled(location, a).sorted_by_name();
    let y = settled(location, b).sorted_by_name();
    law_key_forgets_completion_order(location, a, b, Texts { accepted: Seq::empty(), rejected: Seq::empty() });
    law_sources_do_not_show_in_the_key(x, y, render, first, second);
}

/// The sources do not show in the key: of two answers that differ in their
/// sources alone, whatever key is made of the one is the key made of the
/// other, where `render` gives every amount one text only.
pub proof fn law_sources_do_not_show_in_the_key<F: Fn(&Amount) -> String>(
    a: ResponseView,
    b: ResponseView,
    render: &F,
    first: Seq<char>,
    second: Seq<char>,
)
    requires
        same_but_sources(a, b),
        renders_one_text(render),
        a.keyed_by(render, first),
        b.keyed_by(render, second),
    ensures
        first == second,
{
    let texts = choose|texts: Texts| b.shown(render, texts) && second == #[trigger] b.key(texts);
    law_key_ignores_sources(a, b, render, texts);
    assert(a.keyed_by(render, second)) by {
        assert(a.shown(render, texts));
        assert(second == a.key(texts));
    }
    lemma_key_is_determined(a, render, first, second);
}

/// The answer after any outcomes is an answer for the location it was begun
/// for, and has no key.
pub proof fn lemma_settled_location(location: Seq<char>, outcomes: Seq<Outcome>)
    ensures
        settled(location, outcomes).location == location,
        settled(location, outcomes).hash.len() == 0,
    decreases outcomes.len(),
{
    if outcomes.len() > 0 {
        lemma_settled_location(location, outcomes.drop_last());
    }
}

/// Two answers agree in all that goes into the key: the location and, place
/// by place, the items of both lists with their unit prices and totals.
/// Sources, sums and keys may differ.
pub open spec fn same_but_sources(a: ResponseView, b: ResponseView) -> bool {
    &&& a.location == b.location
    &&& a.accepted.len() == b.accepted.len()
    &&& a.rejected.len() == b.rejected.len()
    &&& forall|i: int|
        0 <= i < a.accepted.len() ==> {
            &&& (#[trigger] a.accepted[i]).item == b.accepted[i].item
            &&& a.accepted[i].price_per == b.accepted[i].price_per
            &&& a.accepted[i].price_total == b.accepted[i].price_total
        }
    &&& forall|j: int| 0 <= j < a.rejected.len() ==> (#[trigger] a.rejected[j]).item == b.rejected[j].item
}

/// The key does not depend on the sources: two answers that differ in their
/// sources alone have, for the same texts, the same key, and the numbers to
/// be shown are the same.
pub proof fn law_key_ignores_sources<F: Fn(&Amount) -> String>(
    a: ResponseView,
    b: ResponseView,
    render: &F,
    texts: Texts,
)
    requires
        same_but_sources(a, b),
    ensures
        a.key_input(texts) == b.key_input(texts),
        a.key(texts) == b.key(texts),
        a.shown(render, texts) == b.shown(render, texts),
{
    lemma_accepted_written_ignores_sources(a.accepted, b.accepted, texts.accepted, a.accepted.len() as int);
    lemma_rejected_written_ignores_sources(a.rejected, b.rejected, texts.rejected, a.rejected.len() as int);
    if a.shown(render, texts) {
        lemma_shown_ignores_sources(a, b, render, texts);
    }
    if b.shown(render, texts) {
        lemma_shown_ignores_sources(b, a, render, texts);
    }
}

/// Texts that show the numbers of an answer show those of any answer that
/// differs from it in its sources alone.
pub proof fn lemma_shown_ignores_sources<F: Fn(&Amount) -> String>(
    a: ResponseView,
    b: ResponseView,
    render: &F,
    texts: Texts,
)
    requires
        same_but_sources(a, b) || same_but_sources(b, a),
        a.shown(render, texts),
    ensures
        b.shown(render, texts),
{
    assert forall|i: int| 0 <= i < b.accepted.len() implies {
        &&& shows(
            render,
            Amount::Value(b.accepted[i].item.quantity),
            (#[trigger] texts.accepted[i]).quantity,
        )
        &&& shows(render, b.accepted[i].price_per, texts.accepted[i].price_per)
        &&& shows(render, b.accepted[i].price_total, texts.accepted[i].price_total)
    } by {
        assert(a.accepted[i].item == b.accepted[i].item);
    }
    assert forall|j: int| 0 <= j < b.rejected.len() implies shows(
        render,
        Amount::Value(b.rejected[j].item.quantity),
        #[trigger] texts.rejected[j],
    ) by {
        assert(a.rejected[j].item == b.rejected[j].item);
    }
}

/// What accepted items add to the input of the key depends on their names
/// alone, the texts being given.
pub proof fn lemma_accepted_written_ignores_sources(
    a: Seq<AcceptedView>,
    b: Seq<AcceptedView>,
    texts: Seq<AcceptedTexts>,
    n: int,
)
    requires
        0 <= n <= a.len(),
        a.len() == b.len(),
        forall|i: int| 0 <= i < a.len() ==> (#[trigger] a[i]).item == b[i].item,
    ensures
        accepted_written(a, texts, n) == accepted_written(b, texts, n),
    decreases n,
{
    if n > 0 {
        lemma_accepted_written_ignores_sources(a, b, texts, n - 1);
        assert(a[n - 1].item == b[n - 1].item);
    }
}

/// What rejected items add to the input of the key depends on their names
/// alone, the texts being given.
pub proof fn lemma_rejected_written_ignores_sources(
    a: Seq<RejectedView>,
    b: Seq<RejectedView>,
    texts: Seq<Seq<char>>,
    n: int,
)
    requires
        0 <= n <= a.len(),
        a.len() == b.len(),
        forall|i: int| 0 <= i < a.len() ==> (#[trigger] a[i]).item == b[i].item,
    ensures
        rejected_written(a, texts, n) == rejected_written(b, texts, n),
    decreases n,
{
    if n > 0 {
        lemma_rejected_written_ignores_sources(a, b, texts, n - 1);
        assert(a[n - 1].item == b[n - 1].item);
    }
}

/// After sorting, the names of the accepted items never step down, nor do
/// those of the rejected ones, whatever the order before.
pub proof fn law_sorted_after_sort(r: ResponseView)
    ensures
        r.sorted_by_name().is_sorted(),
{
    lemma_sort_sorted(r.accepted, accepted_key());
    lemma_sort_sorted(r.rejected, rejected_key());
}

/// Sorting a sorted answer changes nothing.
pub proof fn law_sorting_once_is_enough(r: ResponseView)
    ensures
        r.sorted_by_name().sorted_by_name() == r.sorted_by_name(),
{
    lemma_sort_sorted(r.accepted, accepted_key());
    lemma_sort_sorted(r.rejected, rejected_key());
    lemma_sort_keeps_sorted(stable_sort(r.accepted, accepted_key()), accepted_key());
    lemma_sort_keeps_sorted(stable_sort(r.rejected, rejected_key()), rejected_key());
}

/// Sorting an answer is stable: in either list the items of one name stand
/// in the order in which they came.
pub proof fn law_sort_keeps_order_of_equal_names(r: ResponseView, name: Seq<char>)
    ensures
        r.sorted_by_name().accepted.filter(keyed(accepted_key(), name_bytes(name)))
            == r.accepted.filter(keyed(accepted_key(), name_bytes(name))),
        r.sorted_by_name().rejected.filter(keyed(rejected_key(), name_bytes(name)))
            == r.rejected.filter(keyed(rejected_key(), name_bytes(name))),
{
    lemma_sort_is_stable(r.accepted, accepted_key(), name_bytes(name));
    lemma_sort_is_stable(r.rejected, rejected_key(), name_bytes(name));
}

/// A sound table has no fault for any basket: whatever items are priced by
/// the strategies that a sound table gives them, every strategy is
/// supported.
pub proof fn law_sound_table_prices_every_basket(
    items: Seq<ItemView>,
    location: Seq<char>,
    table: TableView,
)
    requires
        sound(table),
    ensures
        first_fault(with_strategies(items, location, table), table, 0) is None,
{
    let basket = with_strategies(items, location, table);
    assert forall|i: int| 0 <= i < basket.len() implies (#[trigger] basket[i]).1.supported(table) by {
        lemma_sound_table_supports(table, location, items[i].name);
    }
    lemma_no_fault(basket, table, 0);
}

/// A basket of supported strategies has no fault.
pub proof fn lemma_no_fault(basket: Basket, table: TableView, from: int)
    requires
        0 <= from,
        forall|i: int| 0 <= i < basket.len() ==> (#[trigger] basket[i]).1.supported(table),
    ensures
        first_fault(basket, table, from) is None,
    decreases basket.len() - from,
{
    if from < basket.len() {
        assert(basket[from].1.supported(table));
        lemma_fault_is_not_supported(basket[from].1, table);
        lemma_no_fault(basket, table, from + 1);
    }
}

/// The totals of the first `n` accepted items, added to zero one after the
/// other in the order of the list.
pub open spec fn totals_in_order(accepted: Seq<AcceptedView>, n: int) -> Amount
    decreases n,
{
    if n <= 0 {
        Amount::zero()
    } else {
        Amount::plus(totals_in_order(accepted, n - 1), accepted[n - 1].price_total)
    }
}

/// The sum of an answer is the totals of its accepted items, added in the
/// order of the list.
pub open spec fn sum_follows_list(r: ResponseView) -> bool {
    r.sum == totals_in_order(r.accepted, r.accepted.len() as int)
}

/// The total of each accepted item is its quantity times its unit price.
pub open spec fn totals_hold(r: ResponseView) -> bool {
    forall|i: int|
        0 <= i < r.accepted.len() ==> (#[trigger] r.accepted[i]).price_total == Amount::times(
            Amount::Value(r.accepted[i].item.quantity),
            r.accepted[i].price_per,
        )
}

/// The totals of the accepted items depend on the items up to `n` only.
pub proof fn lemma_totals_in_order_prefix(a: Seq<AcceptedView>, b: Seq<AcceptedView>, n: int)
    requires
        0 <= n <= a.len(),
        n <= b.len(),
        forall|i: int| 0 <= i < n ==> a[i] == b[i],
    ensures
        totals_in_order(a, n) == totals_in_order(b, n),
    decreases n,
{
    if n > 0 {
        lemma_totals_in_order_prefix(a, b, n - 1);
    }
}

/// The sum is the running total: an answer without items has the sum zero,
/// and each item that comes in with a price adds its total, the quantity
/// times the unit price, behind what was added before. So while items come
/// in, the sum is the totals of the accepted items in the order in which they
/// came.
pub proof fn law_sum_is_running_total(
    r: ResponseView,
    item: ItemView,
    price: Price,
    source: Seq<char>,
)
    ensures
        sum_follows_list(ResponseView::empty(r.location)),
        totals_hold(ResponseView::empty(r.location)),
        sum_follows_list(r) ==> sum_follows_list(r.pushed(item, price, source)),
        totals_hold(r) ==> totals_hold(r.pushed(item, price, source)),
{
    let next = r.pushed(item, price, source);
    if sum_follows_list(r) {
        match price {
            Price::Accepted(price_per) => {
                lemma_totals_in_order_prefix(r.accepted, next.accepted, r.accepted.len() as int);
            },
            Price::Rejected => {},
        }
    }
    if totals_hold(r) {
        assert forall|i: int| 0 <= i < next.accepted.len() implies (#[trigger] next.accepted[i]).price_total
            == Amount::times(
            Amount::Value(next.accepted[i].item.quantity),
            next.accepted[i].price_per,
        ) by {
            if i < r.accepted.len() {
                assert(next.accepted[i] == r.accepted[i]);
            }
        }
    }
}

/// While items come in, the sum is the totals of the accepted items, added
/// in the order in which they came, and each total is the quantity times the
/// unit price.
pub proof fn law_sum_follows_arrival(location: Seq<char>, outcomes: Seq<Outcome>)
    ensures
        sum_follows_list(settled(location, outcomes)),
        totals_hold(settled(location, outcomes)),
    decreases outcomes.len(),
{
    if outcomes.len() > 0 {
        law_sum_follows_arrival(location, outcomes.drop_last());
        law_sum_is_running_total(
            settled(location, outcomes.drop_last()),
            outcomes.last().item,
            outcomes.last().price,
            outcomes.last().source,
        );
    } else {
        law_sum_is_running_total(
            ResponseView::empty(location),
            ItemView { name: Seq::empty(), quantity: 0 },
            Price::Rejected,
            Seq::empty(),
        );
    }
}

/// No price is greater than the best one.
pub proof fn law_best_price_is_greatest(prices: Seq<u64>, i: int)
    requires
        0 <= i < prices.len(),
    ensures
        best_price(prices) matches Some(best) && order(prices[i], best) != Order::Greater,
    decreases prices.len(),
{
    let front = prices.drop_last();
    let last = prices.last();
    lemma_best_price_is_one(prices);
    lemma_best_price_is_one(front);
    if front.len() > 0 {
        let before = best_price(front)->Some_0;
        let best = best_price(prices)->Some_0;
        lemma_order_mirrors(before, last);
        lemma_order_mirrors(last, last);
        if i < front.len() {
            law_best_price_is_greatest(front, i);
            assert(front[i] == prices[i]);
            lemma_order_transitive(prices[i], before, best);
        }
    } else {
        lemma_order_mirrors(last, last);
    }
}

/// Of several equally good prices the last one is the best: every price
/// behind the best one is less.
pub proof fn law_best_price_is_last_of_the_best(prices: Seq<u64>)
    requires
        prices.len() > 0,
    ensures
        exists|k: int|
            0 <= k < prices.len() && #[trigger] prices[k] == best_price(prices)->Some_0 && forall|
                j: int,
            |
                k < j < prices.len() ==> order(#[trigger] prices[j], prices[k]) == Order::Less,
    decreases prices.len(),
{
    let front = prices.drop_last();
    let last = prices.last();
    lemma_best_price_is_one(front);
    if front.len() > 0 {
        let before = best_price(front)->Some_0;
        if order(before, last) == Order::Greater {
            law_best_price_is_last_of_the_best(front);
            let k = choose|k: int|
                0 <= k < front.len() && #[trigger] front[k] == before && forall|j: int|
                    k < j < front.len() ==> order(#[trigger] front[j], front[k]) == Order::Less;
            lemma_order_mirrors(before, last);
            assert(prices[k] == before);
            assert forall|j: int| k < j < prices.len() implies order(
                #[trigger] prices[j],
                prices[k],
            ) == Order::Less by {
                if j < front.len() {
                    assert(front[j] == prices[j]);
                }
            }
        } else {
            assert(prices[prices.len() - 1] == last);
        }
    } else {
        assert(prices[0] == last);
    }
}

/// All or nothing: where one entry of a multi-item strategy takes an answer
/// that holds no order, the strategy makes no price, whatever the other
/// answers hold.
pub proof fn law_all_or_nothing(strategy: MultiView, answers: Answers, i: int, j: int)
    requires
        0 <= i < answers.len(),
        strategy.takes(j, answers[i].0),
        answers[i].1.len() == 0,
    ensures
        strategy.price(answers) == Price::Rejected,
        forall|table: TableView|
            (#[trigger] ModelView::SingleMarketMultiItemMaxBuy(strategy).price(table, answers))
                == Price::Rejected,
{
}

} // verus!
