use wetc_buyback_backend::market::{
    answers_or_failure, MarketOrder, MarketOrdersRep, MarketOrdersReq,
};

fn answer(prices: &[f64]) -> MarketOrdersRep {
    MarketOrdersRep {
        market_orders: prices.iter().map(|p| MarketOrder { price: p.to_bits() }).collect(),
    }
}

fn best(prices: &[f64]) -> Option<f64> {
    answer(prices).best_price().map(f64::from_bits)
}

#[test]
fn best_price_of_no_order_is_none() {
    assert_eq!(best(&[]), None);
}

#[test]
fn best_price_is_the_greatest() {
    assert_eq!(best(&[5.0, 7.2, 3.1]), Some(7.2));
    assert_eq!(best(&[7.2, 5.0, 3.1]), Some(7.2));
    assert_eq!(best(&[3.1, 5.0, 7.2]), Some(7.2));
    assert_eq!(best(&[-1.0, -3.0]), Some(-1.0));
    assert_eq!(best(&[1.0]), Some(1.0));
}

#[test]
fn best_price_of_finite_prices_is_max_by_of_the_standard_library() {
    let lists: Vec<Vec<f64>> = vec![
        vec![1.0, 2.0, 2.0, 0.5],
        vec![0.0, -0.0],
        vec![-0.0, 0.0],
        vec![-1e300, 1.0, 1e300],
        vec![1e-320, 0.0, 1e-310],
        vec![100.0, 150.0],
    ];
    for list in lists {
        let expected = list.iter().copied().max_by(|a, b| a.partial_cmp(b).unwrap());
        let got = best(&list);
        assert_eq!(got.map(f64::to_bits), expected.map(f64::to_bits), "{:?}", list);
    }
}

#[test]
fn of_equal_prices_the_last_is_the_best() {
    // the two zeros are equal by value and differ in their bits
    assert_eq!(best(&[0.0, -0.0]).map(f64::to_bits), Some((-0.0f64).to_bits()));
    assert_eq!(best(&[-0.0, 0.0]).map(f64::to_bits), Some(0.0f64.to_bits()));
}

#[test]
fn a_finite_price_beats_one_that_is_not() {
    assert_eq!(best(&[f64::NAN, 2.0]), Some(2.0));
    assert_eq!(best(&[2.0, f64::NAN]), Some(2.0));
    assert_eq!(best(&[f64::NAN, 2.0, f64::NAN, 1.0]), Some(2.0));
    assert_eq!(best(&[f64::INFINITY, 1.0, f64::NEG_INFINITY]), Some(1.0));
    assert_eq!(best(&[-5.0, f64::INFINITY]), Some(-5.0));
    assert!(best(&[f64::NAN]).unwrap().is_nan());
}

#[test]
fn of_prices_that_are_not_finite_the_last_is_the_best() {
    assert_eq!(best(&[f64::INFINITY, f64::NEG_INFINITY]), Some(f64::NEG_INFINITY));
    assert!(best(&[f64::INFINITY, f64::NAN]).unwrap().is_nan());
    assert_eq!(best(&[f64::NAN, f64::INFINITY]), Some(f64::INFINITY));
}

#[test]
fn request_is_known_by_type_and_market() {
    let req = MarketOrdersReq { type_id: 34, market: "Jita".to_string(), buy: true };
    assert!(req.is_for(34, &"Jita".to_string()));
    assert!(!req.is_for(35, &"Jita".to_string()));
    assert!(!req.is_for(34, &"Amarr".to_string()));
    let copy = req.clone();
    assert_eq!((copy.type_id, copy.market.as_str(), copy.buy), (34, "Jita", true));
}

fn answered(type_id: i32, prices: &[f64]) -> Result<(MarketOrdersReq, MarketOrdersRep), String> {
    Ok((MarketOrdersReq { type_id, market: "Jita".to_string(), buy: true }, answer(prices)))
}

#[test]
fn answers_come_back_in_their_order() {
    let results = vec![answered(3, &[1.0]), answered(1, &[]), answered(2, &[2.0, 3.0])];
    let answers = answers_or_failure(results).expect("answered");
    let got: Vec<(i32, usize)> =
        answers.iter().map(|(req, rep)| (req.type_id, rep.market_orders.len())).collect();
    assert_eq!(got, vec![(3, 1), (1, 0), (2, 2)]);
    let none: Vec<Result<(MarketOrdersReq, MarketOrdersRep), String>> = vec![];
    assert!(answers_or_failure(none).expect("answered").is_empty());
}

#[test]
fn one_failure_fails_all_and_the_first_is_told() {
    let results = vec![
        answered(3, &[1.0]),
        Err("first".to_string()),
        answered(2, &[2.0]),
        Err("second".to_string()),
    ];
    assert_eq!(answers_or_failure(results).err(), Some("first".to_string()));
    let results = vec![Err("only".to_string())];
    assert_eq!(answers_or_failure(results).err(), Some("only".to_string()));
}
