use wetc_buyback_backend::amount::Amount;
use wetc_buyback_backend::error::Error;
use wetc_buyback_backend::market::{MarketOrder, MarketOrdersRep, MarketOrdersReq};
use wetc_buyback_backend::multi_item::SingleMarketMultiItemMaxBuy;
use wetc_buyback_backend::pricing::{Price, PricingModel, MAX_SUB_ITEM};
use wetc_buyback_backend::single_item::SingleMarketSingleItemMaxBuy;
use wetc_buyback_backend::sub_items::SubSingleItemsMaxBuy;
use wetc_buyback_backend::table::{PricingRule, PricingTable};

fn eval(amount: &Amount) -> f64 {
    match amount {
        Amount::Value(bits) => f64::from_bits(*bits),
        Amount::Product(l, r) => eval(l) * eval(r),
        Amount::Sum(l, r) => eval(l) + eval(r),
    }
}

fn render(amount: &Amount) -> String {
    format!("{}", eval(amount))
}

fn request(type_id: i32, market: &str) -> MarketOrdersReq {
    MarketOrdersReq { type_id, market: market.to_string(), buy: true }
}

fn answer(prices: &[f64]) -> MarketOrdersRep {
    MarketOrdersRep {
        market_orders: prices.iter().map(|p| MarketOrder { price: p.to_bits() }).collect(),
    }
}

fn single(type_id: i32, market: &str, multiplier: f64, source: &str) -> PricingModel {
    PricingModel::SingleMarketSingleItemMaxBuy(SingleMarketSingleItemMaxBuy(
        type_id,
        market.to_string(),
        multiplier.to_bits(),
        source.to_string(),
    ))
}

fn rule(location: &str, name: &str, model: PricingModel) -> PricingRule {
    PricingRule { location: location.to_string(), name: name.to_string(), model }
}

fn composite(entries: &[(&str, f64)], location: &str, source: &str) -> SubSingleItemsMaxBuy {
    SubSingleItemsMaxBuy(
        entries.iter().map(|(n, q)| (n.to_string(), q.to_bits())).collect(),
        location.to_string(),
        source.to_string(),
    )
}

fn table() -> PricingTable {
    PricingTable {
        rules: vec![
            rule("Home", "Tritanium", single(34, "Jita", 0.9, "Jita buy 90%")),
            rule("Home", "Pyerite", single(35, "Amarr", 0.8, "Amarr buy 80%")),
            rule("Home", "Scrap", PricingModel::Rejected),
            rule(
                "Home",
                "Ore",
                PricingModel::SingleMarketMultiItemMaxBuy(SingleMarketMultiItemMaxBuy(
                    vec![Some((34, 1.0f64.to_bits()))],
                    "Jita".to_string(),
                    1.0f64.to_bits(),
                    "ore".to_string(),
                )),
            ),
            rule("Away", "Tritanium", single(34, "Dodixie", 0.5, "Dodixie buy 50%")),
            rule("Home", "Tritanium", single(99, "Nowhere", 0.1, "shadowed")),
        ],
    }
}

fn accepted(price: Price) -> f64 {
    match price {
        Price::Accepted(amount) => eval(&amount),
        Price::Rejected => panic!("rejected"),
    }
}

#[test]
fn table_gives_the_first_line_for_a_name_at_a_location() {
    let t = table();
    match t.get(&"Home".to_string(), &"Tritanium".to_string()) {
        Some(PricingModel::SingleMarketSingleItemMaxBuy(s)) => assert_eq!(s.0, 34),
        _ => panic!("not found"),
    }
    match t.get(&"Away".to_string(), &"Tritanium".to_string()) {
        Some(PricingModel::SingleMarketSingleItemMaxBuy(s)) => assert_eq!(s.1, "Dodixie"),
        _ => panic!("not found"),
    }
    assert!(t.get(&"Away".to_string(), &"Pyerite".to_string()).is_none());
    assert!(t.get(&"Nowhere".to_string(), &"Tritanium".to_string()).is_none());
}

#[test]
fn composite_requests_those_of_its_sub_items_in_order() {
    let c = composite(&[("Pyerite", 2.0), ("", 0.0), ("Tritanium", 3.0)], "Home", "mix");
    let reqs = c.to_reqs(&table());
    assert_eq!(reqs.len(), 2);
    assert_eq!((reqs[0].type_id, reqs[0].market.as_str(), reqs[0].buy), (35, "Amarr", true));
    assert_eq!((reqs[1].type_id, reqs[1].market.as_str(), reqs[1].buy), (34, "Jita", true));
}

#[test]
fn composite_with_a_rejected_sub_item_requests_nothing_and_is_rejected() {
    let t = table();
    for c in [
        composite(&[("Tritanium", 1.0), ("Scrap", 1.0)], "Home", "mix"),
        composite(&[("Tritanium", 1.0), ("Unknown", 1.0)], "Home", "mix"),
        composite(&[("Tritanium", 1.0)], "Elsewhere", "mix"),
    ] {
        assert!(c.is_supported(&t));
        assert!(c.to_reqs(&t).is_empty());
        let reps = vec![(request(34, "Jita"), answer(&[10.0]))];
        assert!(matches!(c.get_price(&t, &reps), Price::Rejected));
        assert!(matches!(c.get_price(&t, &vec![]), Price::Rejected));
    }
}

#[test]
fn composite_sums_sub_item_prices_times_quantities() {
    let c = composite(&[("Pyerite", 2.0), ("Tritanium", 3.0)], "Home", "mix");
    let reps = vec![
        (request(34, "Jita"), answer(&[5.0, 7.0])),
        (request(35, "Amarr"), answer(&[11.0])),
    ];
    // (0 + (7 * 0.9) * 3) + (11 * 0.8) * 2
    assert_eq!(accepted(c.get_price(&table(), &reps)), (0.0 + (7.0 * 0.9) * 3.0) + (11.0 * 0.8) * 2.0);
}

#[test]
fn composite_is_rejected_when_a_sub_item_has_no_orders() {
    let c = composite(&[("Pyerite", 2.0), ("Tritanium", 3.0)], "Home", "mix");
    let reps = vec![
        (request(34, "Jita"), answer(&[5.0, 7.0])),
        (request(35, "Amarr"), answer(&[])),
    ];
    assert!(matches!(c.get_price(&table(), &reps), Price::Rejected));
}

#[test]
fn composite_matches_answers_by_type_and_market() {
    let t = PricingTable {
        rules: vec![
            rule("Home", "A", single(34, "Jita", 1.0, "a")),
            rule("Home", "B", single(34, "Amarr", 1.0, "b")),
        ],
    };
    let c = composite(&[("A", 1.0), ("B", 10.0)], "Home", "mix");
    let reps = vec![
        (request(34, "Amarr"), answer(&[2.0])),
        (request(34, "Jita"), answer(&[3.0])),
    ];
    assert_eq!(accepted(c.get_price(&t, &reps)), 2.0 * 10.0 + 3.0);
}

#[test]
fn composite_label_names_each_sub_item() {
    let c = composite(&[("Pyerite", 2.0), ("", 0.0), ("Scrap", 0.5), ("Gone", 1.0)], "Home", "mix");
    let label = c.price_source(&table(), &render);
    assert_eq!(
        label,
        "MP{\"description\":\"mix\",\"values\":[\
         {\"item\":\"Pyerite\",\"quantity\":2,\"description\":\"Amarr buy 80%\"},\
         {\"item\":\"Scrap\",\"quantity\":0.5,\"description\":\"\"},\
         {\"item\":\"Gone\",\"quantity\":1,\"description\":\"\"}]}"
    );
}

#[test]
fn composite_label_without_sub_items_has_no_values() {
    let c = composite(&[("", 1.0)], "Home", "none");
    assert_eq!(c.price_source(&table(), &render), "MP{\"description\":\"none\",\"values\":[]}");
    let c = composite(&[], "Home", "none");
    assert_eq!(c.price_source(&table(), &render), "MP{\"description\":\"none\",\"values\":[]}");
}

#[test]
fn composite_without_sub_items_is_priced_zero() {
    let c = composite(&[], "Home", "none");
    assert!(c.to_reqs(&table()).is_empty());
    match c.get_price(&table(), &vec![]) {
        Price::Accepted(Amount::Value(bits)) => assert_eq!(bits, 0.0f64.to_bits()),
        _ => panic!("not zero"),
    }
}

#[test]
fn composite_of_a_multi_item_is_not_supported() {
    let c = composite(&[("Tritanium", 1.0), ("Ore", 1.0)], "Home", "mix");
    assert!(!c.is_supported(&table()));
    match c.check(&table()) {
        Err(Error::InvalidPricingModel { item, location }) => {
            assert_eq!(item, "Ore");
            assert_eq!(location, "Home");
        }
        Ok(()) => panic!("supported"),
    }
}

#[test]
fn composite_of_a_composite_is_not_supported() {
    let mut t = table();
    t.rules.push(rule(
        "Home",
        "Kit",
        PricingModel::SubSingleItemsMaxBuy(composite(&[("Tritanium", 1.0)], "Home", "kit")),
    ));
    t.rules.push(rule(
        "Home",
        "Loop",
        PricingModel::SubSingleItemsMaxBuy(composite(&[("Loop", 1.0)], "Home", "loop")),
    ));
    let c = composite(&[("Kit", 1.0)], "Home", "mix");
    assert!(!PricingModel::SubSingleItemsMaxBuy(c).is_supported(&t));
    match t.check() {
        Err(e) => assert_eq!(e.message(), "Loop at location Home points to invalid PricingModel"),
        Ok(()) => panic!("sound"),
    }
}

#[test]
fn sound_table_passes_its_check() {
    let mut t = table();
    assert!(t.check().is_ok());
    t.rules.push(rule(
        "Home",
        "Kit",
        PricingModel::SubSingleItemsMaxBuy(composite(&[("Tritanium", 1.0), ("Nothing", 2.0)], "Home", "kit")),
    ));
    assert!(t.check().is_ok());
}

#[test]
fn composite_new_bounds_the_entries() {
    let entries = vec![("a".to_string(), 0u64); MAX_SUB_ITEM];
    assert!(SubSingleItemsMaxBuy::new(entries, "l".to_string(), "s".to_string()).is_some());
    let entries = vec![("a".to_string(), 0u64); MAX_SUB_ITEM + 1];
    assert!(SubSingleItemsMaxBuy::new(entries, "l".to_string(), "s".to_string()).is_none());
}

#[test]
fn model_dispatches_to_its_strategy() {
    let t = table();
    let model = PricingModel::SubSingleItemsMaxBuy(composite(&[("Tritanium", 3.0)], "Home", "mix"));
    assert!(model.is_supported(&t));
    assert!(model.check(&t).is_ok());
    assert!(!model.is_rejected());
    assert_eq!(model.label(), "mix");
    let reqs = model.to_reqs(&t);
    assert_eq!(reqs.len(), 1);
    let reps = vec![(request(34, "Jita"), answer(&[2.0, 1.0]))];
    assert_eq!(accepted(model.get_price(&t, reps)), (2.0 * 0.9) * 3.0);
    assert_eq!(
        model.price_source(&t, &render),
        "MP{\"description\":\"mix\",\"values\":[{\"item\":\"Tritanium\",\"quantity\":3,\"description\":\"Jita buy 90%\"}]}"
    );
    let copy = model.clone();
    assert_eq!(format!("{:?}", copy), format!("{:?}", model));
    let s = single(34, "Jita", 0.9, "Jita buy 90%");
    assert_eq!(s.price_source(&t, &render), "Jita buy 90%");
    assert_eq!(accepted(s.get_price(&t, vec![(request(34, "Jita"), answer(&[10.0]))])), 10.0 * 0.9);
    assert!(PricingModel::Rejected.is_rejected());
}
