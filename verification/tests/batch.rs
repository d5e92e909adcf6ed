use wetc_buyback_backend::amount::Amount;
use wetc_buyback_backend::batch::{Batch, Start};
use wetc_buyback_backend::item::Item;
use wetc_buyback_backend::market::{MarketOrder, MarketOrdersRep, MarketOrdersReq};
use wetc_buyback_backend::multi_item::SingleMarketMultiItemMaxBuy;
use wetc_buyback_backend::pricing::{Price, PricingModel};
use wetc_buyback_backend::single_item::SingleMarketSingleItemMaxBuy;
use wetc_buyback_backend::sub_items::SubSingleItemsMaxBuy;
use wetc_buyback_backend::table::{PricingRule, PricingTable};
use wetc_buyback_backend::{response_from_items, Error, Response};

fn eval(amount: &Amount) -> f64 {
    match amount {
        Amount::Value(bits) => f64::from_bits(*bits),
        Amount::Product(l, r) => eval(l) * eval(r),
        Amount::Sum(l, r) => eval(l) + eval(r),
    }
}

fn render(amount: &Amount) -> String {
    format!("{}", eval(amount))
}

fn item(name: &str, quantity: f64) -> Item {
    Item { name: name.to_string(), quantity: quantity.to_bits() }
}

fn answer(prices: &[f64]) -> MarketOrdersRep {
    MarketOrdersRep {
        market_orders: prices.iter().map(|p| MarketOrder { price: p.to_bits() }).collect(),
    }
}

fn single(type_id: i32, market: &str, multiplier: f64, source: &str) -> PricingModel {
    PricingModel::SingleMarketSingleItemMaxBuy(SingleMarketSingleItemMaxBuy(
        type_id,
        market.to_string(),
        multiplier.to_bits(),
        source.to_string(),
    ))
}

fn table() -> PricingTable {
    PricingTable {
        rules: vec![
            PricingRule {
                location: "Home".to_string(),
                name: "Tritanium".to_string(),
                model: single(34, "Jita", 0.9, "Jita buy 90%"),
            },
            PricingRule {
                location: "Home".to_string(),
                name: "Ore".to_string(),
                model: PricingModel::SingleMarketMultiItemMaxBuy(SingleMarketMultiItemMaxBuy(
                    vec![Some((34, 2.0f64.to_bits())), Some((35, 1.0f64.to_bits()))],
                    "Jita".to_string(),
                    0.5f64.to_bits(),
                    "ore".to_string(),
                )),
            },
        ],
    }
}

// Answers every request from a fixed book, as a market would.
fn fetch(reqs: Vec<MarketOrdersReq>) -> Vec<(MarketOrdersReq, MarketOrdersRep)> {
    reqs.into_iter()
        .map(|req| {
            let rep = match (req.type_id, req.market.as_str()) {
                (34, "Jita") => answer(&[5.0, 7.2, 3.1]),
                (35, "Jita") => answer(&[10.0]),
                _ => answer(&[]),
            };
            (req, rep)
        })
        .collect()
}

fn basket() -> Vec<(Item, PricingModel)> {
    vec![
        (item("Tritanium", 10.0), single(34, "Jita", 0.9, "Jita buy 90%")),
        (item("Scrap", 1.0), PricingModel::Rejected),
        (
            item("Ore", 2.0),
            PricingModel::SingleMarketMultiItemMaxBuy(SingleMarketMultiItemMaxBuy(
                vec![Some((34, 2.0f64.to_bits())), Some((35, 1.0f64.to_bits()))],
                "Jita".to_string(),
                0.5f64.to_bits(),
                "ore".to_string(),
            )),
        ),
        (item("Dust", 3.0), single(36, "Jita", 1.0, "Jita buy")),
        (
            item("Kit", 1.0),
            PricingModel::SubSingleItemsMaxBuy(SubSingleItemsMaxBuy(
                vec![("Tritanium".to_string(), 4.0f64.to_bits())],
                "Home".to_string(),
                "kit".to_string(),
            )),
        ),
    ]
}

fn start<'a>(items: Vec<(Item, PricingModel)>, table: &'a PricingTable) -> Batch<'a> {
    match response_from_items(items, "Home", table, &render) {
        Ok(Start::Fetch(batch)) => batch,
        Ok(Start::Ready(_)) => panic!("ready"),
        Err(e) => panic!("{}", e.message()),
    }
}

fn run(order: &[usize], table: &PricingTable) -> Response {
    let mut batch = start(basket(), table);
    for &i in order {
        let reps = fetch(batch.requests(i));
        batch = batch.settle(i, reps, &render);
    }
    batch.finish(&render).expect("settled")
}

#[test]
fn basket_of_rejected_items_is_answered_at_once() {
    let t = table();
    let items = vec![
        (item("b", 1.0), PricingModel::Rejected),
        (item("a", 2.0), PricingModel::Rejected),
        (item("b", 3.0), PricingModel::Rejected),
    ];
    match response_from_items(items, "Home", &t, &render) {
        Ok(Start::Ready(r)) => {
            assert!(r.accepted.is_empty());
            assert_eq!(r.rejected.len(), 3);
            let got: Vec<(&str, f64, &str)> = r
                .rejected
                .iter()
                .map(|x| (x.item.name.as_str(), f64::from_bits(x.item.quantity), x.source.as_str()))
                .collect();
            assert_eq!(got, vec![("a", 2.0, ""), ("b", 1.0, ""), ("b", 3.0, "")]);
            assert_eq!(r.location, "Home");
            assert_eq!(eval(&r.sum), 0.0);
            let mut same = Response::with_capacity(3, "Home".to_string());
            same.push(item("a", 2.0), Price::Rejected, "x".to_string());
            same.push(item("b", 1.0), Price::Rejected, "y".to_string());
            same.push(item("b", 3.0), Price::Rejected, "z".to_string());
            same.with_hash_key(&render);
            assert_eq!(r.hash, same.hash);
        }
        _ => panic!("not ready"),
    }
}

#[test]
fn basket_of_rejected_items_is_answered_as_if_each_had_been_settled() {
    let t = table();
    let basket = || {
        vec![
            (item("b", 1.0), PricingModel::Rejected),
            (item("a", 2.0), PricingModel::Rejected),
            (item("c", 3.0), single(36, "Jita", 1.0, "Jita buy")),
        ]
    };
    // with the third item the basket is settled item by item
    let mut batch = start(basket(), &t);
    for i in [2, 0, 1] {
        let reps = fetch(batch.requests(i));
        batch = batch.settle(i, reps, &render);
    }
    let settled = batch.finish(&render).expect("settled");
    let mut items = basket();
    items.pop();
    let ready = match response_from_items(items, "Home", &t, &render) {
        Ok(Start::Ready(r)) => r,
        _ => panic!("not ready"),
    };
    assert_eq!(format!("{:?}", ready.rejected), format!("{:?}", &settled.rejected[..2]));
    assert!(!ready.hash.is_empty());
}

#[test]
fn empty_basket_is_answered_at_once() {
    let t = table();
    match response_from_items(vec![], "Home", &t, &render) {
        Ok(Start::Ready(r)) => {
            assert!(r.accepted.is_empty() && r.rejected.is_empty());
            let mut same = Response::with_capacity(0, "Home".to_string());
            same.with_hash_key(&render);
            assert_eq!(r.hash, same.hash);
        }
        _ => panic!("not ready"),
    }
}

#[test]
fn batch_starts_with_every_item_open() {
    let t = table();
    let batch = start(basket(), &t);
    assert_eq!(batch.len(), 5);
    for i in 0..5 {
        assert!(batch.open(i));
    }
    assert!(!batch.open(5));
    assert!(!batch.is_settled());
    assert!(batch.finish(&render).is_none());
}

#[test]
fn batch_gives_the_requests_of_each_item() {
    let t = table();
    let batch = start(basket(), &t);
    let keys = |i: usize| -> Vec<(i32, String)> {
        batch.requests(i).into_iter().map(|r| (r.type_id, r.market)).collect()
    };
    assert_eq!(keys(0), vec![(34, "Jita".to_string())]);
    assert!(keys(1).is_empty());
    assert_eq!(keys(2), vec![(34, "Jita".to_string()), (35, "Jita".to_string())]);
    assert_eq!(keys(3), vec![(36, "Jita".to_string())]);
    assert_eq!(keys(4), vec![(34, "Jita".to_string())]);
    assert!(keys(5).is_empty());
}

#[test]
fn batch_prices_sorts_and_keys_the_basket() {
    let t = table();
    let r = run(&[0, 1, 2, 3, 4], &t);
    let accepted: Vec<(&str, f64, f64, &str)> = r
        .accepted
        .iter()
        .map(|a| (a.item.name.as_str(), eval(&a.price_per), eval(&a.price_total), a.source.as_str()))
        .collect();
    assert_eq!(
        accepted,
        vec![
            (
                "Kit",
                0.0 + (7.2 * 0.9) * 4.0,
                1.0 * (0.0 + (7.2 * 0.9) * 4.0),
                "MP{\"description\":\"kit\",\"values\":[{\"item\":\"Tritanium\",\"quantity\":4,\"description\":\"Jita buy 90%\"}]}"
            ),
            ("Ore", ((0.0 + 7.2 * 2.0) + 10.0) * 0.5, 2.0 * (((0.0 + 7.2 * 2.0) + 10.0) * 0.5), "ore"),
            ("Tritanium", 7.2 * 0.9, 10.0 * (7.2 * 0.9), "Jita buy 90%"),
        ]
    );
    let rejected: Vec<(&str, &str)> =
        r.rejected.iter().map(|x| (x.item.name.as_str(), x.source.as_str())).collect();
    assert_eq!(rejected, vec![("Dust", "Jita buy"), ("Scrap", "")]);
    assert_eq!(r.location, "Home");
    assert!(!r.hash.is_empty());
    let total = ((0.0 + 10.0 * (7.2 * 0.9)) + 2.0 * (((0.0 + 7.2 * 2.0) + 10.0) * 0.5))
        + 1.0 * (0.0 + (7.2 * 0.9) * 4.0);
    assert_eq!(eval(&r.sum), total);
}

#[test]
fn batch_key_does_not_depend_on_the_order_of_completion() {
    let t = table();
    let first = run(&[0, 1, 2, 3, 4], &t);
    for order in [[4, 3, 2, 1, 0], [2, 0, 4, 1, 3], [1, 3, 0, 4, 2]] {
        let other = run(&order, &t);
        assert_eq!(other.hash, first.hash);
        assert_eq!(format!("{:?}", other.accepted), format!("{:?}", first.accepted));
        assert_eq!(format!("{:?}", other.rejected), format!("{:?}", first.rejected));
        assert!((eval(&other.sum) - eval(&first.sum)).abs() < 1e-9);
    }
}

#[test]
fn every_item_of_the_basket_is_answered_once() {
    let t = table();
    let r = run(&[3, 1, 4, 0, 2], &t);
    let mut names: Vec<String> = r
        .accepted
        .iter()
        .map(|a| a.item.name.clone())
        .chain(r.rejected.iter().map(|x| x.item.name.clone()))
        .collect();
    names.sort();
    let mut expected: Vec<String> = basket().into_iter().map(|(i, _)| i.name).collect();
    expected.sort();
    assert_eq!(names, expected);
}

#[test]
fn settling_twice_or_out_of_range_changes_nothing() {
    let t = table();
    let mut batch = start(basket(), &t);
    let reps = fetch(batch.requests(0));
    batch = batch.settle(0, reps, &render);
    assert!(!batch.open(0));
    assert!(batch.requests(0).is_empty());
    let reps = fetch(vec![MarketOrdersReq { type_id: 34, market: "Jita".to_string(), buy: true }]);
    batch = batch.settle(0, reps, &render);
    batch = batch.settle(17, vec![], &render);
    for i in 1..5 {
        assert!(batch.open(i));
        let reps = fetch(batch.requests(i));
        batch = batch.settle(i, reps, &render);
    }
    assert!(batch.is_settled());
    let r = batch.finish(&render).expect("settled");
    assert_eq!(r.accepted.len() + r.rejected.len(), 5);
}

#[test]
fn batch_with_an_unsupported_composite_is_a_fault() {
    let t = table();
    let items = vec![
        (item("Tritanium", 10.0), single(34, "Jita", 0.9, "s")),
        (
            item("Bad", 1.0),
            PricingModel::SubSingleItemsMaxBuy(SubSingleItemsMaxBuy(
                vec![("Tritanium".to_string(), 1.0f64.to_bits()), ("Ore".to_string(), 1.0f64.to_bits())],
                "Home".to_string(),
                "bad".to_string(),
            )),
        ),
    ];
    match response_from_items(items, "Home", &t, &render) {
        Err(Error::InvalidPricingModel { item, location }) => {
            assert_eq!(item, "Ore");
            assert_eq!(location, "Home");
        }
        Ok(_) => panic!("no fault"),
    }
}

#[test]
fn missing_orders_reject_an_item_without_failing_the_batch() {
    let t = table();
    let items = vec![(item("Dust", 3.0), single(36, "Jita", 1.0, "Jita buy"))];
    let mut batch = start(items, &t);
    let reps = fetch(batch.requests(0));
    batch = batch.settle(0, reps, &render);
    let r = batch.finish(&render).expect("settled");
    assert!(r.accepted.is_empty());
    assert_eq!(r.rejected.len(), 1);
    assert!(!r.hash.is_empty());
}
