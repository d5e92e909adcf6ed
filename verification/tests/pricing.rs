use wetc_buyback_backend::amount::Amount;
use wetc_buyback_backend::market::{MarketOrder, MarketOrdersRep, MarketOrdersReq};
use wetc_buyback_backend::multi_item::SingleMarketMultiItemMaxBuy;
use wetc_buyback_backend::pricing::{Price, PricingModel, MAX_MULTI_ITEM};
use wetc_buyback_backend::single_item::SingleMarketSingleItemMaxBuy;
use wetc_buyback_backend::table::PricingTable;

fn eval(amount: &Amount) -> f64 {
    match amount {
        Amount::Value(bits) => f64::from_bits(*bits),
        Amount::Product(l, r) => eval(l) * eval(r),
        Amount::Sum(l, r) => eval(l) + eval(r),
    }
}

fn request(type_id: i32, market: &str) -> MarketOrdersReq {
    MarketOrdersReq { type_id, market: market.to_string(), buy: true }
}

fn answer(prices: &[f64]) -> MarketOrdersRep {
    MarketOrdersRep {
        market_orders: prices.iter().map(|p| MarketOrder { price: p.to_bits() }).collect(),
    }
}

fn accepted(price: Price) -> f64 {
    match price {
        Price::Accepted(amount) => eval(&amount),
        Price::Rejected => panic!("rejected"),
    }
}

fn jita_34() -> SingleMarketSingleItemMaxBuy {
    SingleMarketSingleItemMaxBuy(34, "Jita".to_string(), 0.9f64.to_bits(), "X".to_string())
}

#[test]
fn single_item_requests_its_type_in_its_market() {
    let reqs = jita_34().to_reqs();
    assert_eq!(reqs.len(), 1);
    assert_eq!(reqs[0].type_id, 34);
    assert_eq!(reqs[0].market, "Jita");
    assert!(reqs[0].buy);
}

#[test]
fn single_item_takes_best_buy_times_multiplier() {
    let reps = vec![(request(34, "Jita"), answer(&[5.0, 7.2, 3.1]))];
    let price = jita_34().get_price(&reps);
    let value = accepted(price);
    assert_eq!(value, 7.2 * 0.9);
    assert!((value - 6.48).abs() < 1e-12);
}

#[test]
fn single_item_price_is_the_formula_best_times_multiplier() {
    let reps = vec![(request(34, "Jita"), answer(&[5.0, 7.2, 3.1]))];
    match jita_34().get_price(&reps) {
        Price::Accepted(Amount::Product(l, r)) => {
            assert!(matches!(*l, Amount::Value(b) if b == 7.2f64.to_bits()));
            assert!(matches!(*r, Amount::Value(b) if b == 0.9f64.to_bits()));
        }
        _ => panic!("not a product"),
    }
}

#[test]
fn single_item_without_orders_is_rejected() {
    let reps = vec![(request(34, "Jita"), answer(&[]))];
    assert!(matches!(jita_34().get_price(&reps), Price::Rejected));
}

#[test]
fn single_item_without_answer_is_rejected() {
    let reps: Vec<(MarketOrdersReq, MarketOrdersRep)> = vec![];
    assert!(matches!(jita_34().get_price(&reps), Price::Rejected));
}

#[test]
fn single_item_matches_answers_by_type_and_market() {
    let reps = vec![
        (request(35, "Jita"), answer(&[100.0])),
        (request(34, "Amarr"), answer(&[200.0])),
        (request(34, "Jita"), answer(&[10.0])),
    ];
    assert_eq!(accepted(jita_34().get_price(&reps)), 10.0 * 0.9);
}

#[test]
fn single_item_label_is_its_source() {
    assert_eq!(jita_34().price_source(), "X");
}

fn ore() -> SingleMarketMultiItemMaxBuy {
    SingleMarketMultiItemMaxBuy(
        vec![Some((1, 2.0f64.to_bits())), None, Some((2, 1.0f64.to_bits()))],
        "Jita".to_string(),
        0.5f64.to_bits(),
        "ore".to_string(),
    )
}

#[test]
fn multi_item_requests_each_entry_that_is_not_empty() {
    let reqs = ore().to_reqs();
    assert_eq!(reqs.len(), 2);
    assert_eq!((reqs[0].type_id, reqs[0].market.as_str(), reqs[0].buy), (1, "Jita", true));
    assert_eq!((reqs[1].type_id, reqs[1].market.as_str(), reqs[1].buy), (2, "Jita", true));
}

#[test]
fn multi_item_sums_best_prices_times_quantities() {
    let reps = vec![
        (request(2, "Jita"), answer(&[30.0, 10.0])),
        (request(1, "Jita"), answer(&[100.0, 150.0])),
    ];
    // ((0 + 30 * 1) + 150 * 2) * 0.5
    assert_eq!(accepted(ore().get_price(&reps)), 165.0);
}

#[test]
fn multi_item_is_all_or_nothing() {
    let reps = vec![
        (request(1, "Jita"), answer(&[100.0, 150.0])),
        (request(2, "Jita"), answer(&[])),
    ];
    assert!(matches!(ore().get_price(&reps), Price::Rejected));
    let reps = vec![
        (request(2, "Jita"), answer(&[])),
        (request(1, "Jita"), answer(&[100.0, 150.0])),
    ];
    assert!(matches!(ore().get_price(&reps), Price::Rejected));
}

#[test]
fn multi_item_ignores_answers_of_other_markets() {
    let reps = vec![
        (request(1, "Amarr"), answer(&[])),
        (request(1, "Jita"), answer(&[4.0])),
        (request(2, "Jita"), answer(&[6.0])),
    ];
    assert_eq!(accepted(ore().get_price(&reps)), (4.0 * 2.0 + 6.0) * 0.5);
}

#[test]
fn multi_item_adds_in_the_order_of_the_answers() {
    let strategy = SingleMarketMultiItemMaxBuy(
        vec![Some((1, 1.0f64.to_bits())), Some((2, 1.0f64.to_bits())), Some((3, 1.0f64.to_bits()))],
        "Jita".to_string(),
        1.0f64.to_bits(),
        "s".to_string(),
    );
    let a = (request(1, "Jita"), answer(&[1e16]));
    let b = (request(2, "Jita"), answer(&[1.0]));
    let c = (request(3, "Jita"), answer(&[1.0]));
    let first = accepted(strategy.get_price(&vec![a, b, c]));
    assert_eq!(first, ((0.0 + 1e16) + 1.0) + 1.0);
    let a = (request(1, "Jita"), answer(&[1e16]));
    let b = (request(2, "Jita"), answer(&[1.0]));
    let c = (request(3, "Jita"), answer(&[1.0]));
    let second = accepted(strategy.get_price(&vec![b, c, a]));
    assert_eq!(second, ((0.0 + 1.0) + 1.0) + 1e16);
    assert_ne!(first, second);
}

#[test]
fn multi_item_new_bounds_the_entries() {
    let entries = vec![None; MAX_MULTI_ITEM];
    assert!(SingleMarketMultiItemMaxBuy::new(entries, "m".to_string(), 0, "s".to_string()).is_some());
    let entries = vec![None; MAX_MULTI_ITEM + 1];
    assert!(SingleMarketMultiItemMaxBuy::new(entries, "m".to_string(), 0, "s".to_string()).is_none());
}

#[test]
fn rejected_model_asks_nothing_and_prices_nothing() {
    let table = PricingTable { rules: vec![] };
    let model = PricingModel::Rejected;
    assert!(model.to_reqs(&table).is_empty());
    assert!(matches!(model.get_price(&table, vec![]), Price::Rejected));
    let render = |a: &Amount| format!("{}", eval(a));
    assert_eq!(model.price_source(&table, &render), "");
    assert_eq!(model.label(), "");
}
