use wetc_buyback_backend::amount::Amount;
use wetc_buyback_backend::cache::{after_insert, is_error, StoreError};
use wetc_buyback_backend::input::Input;
use wetc_buyback_backend::item::Item;
use wetc_buyback_backend::pricing::{Price, PricingModel};
use wetc_buyback_backend::single_item::SingleMarketSingleItemMaxBuy;
use wetc_buyback_backend::table::{PricingRule, PricingTable};
use wetc_buyback_backend::{response_from_hash, Error, ParsedInput, Response};

fn item(name: &str, quantity: f64) -> Item {
    Item { name: name.to_string(), quantity: quantity.to_bits() }
}

fn table() -> PricingTable {
    PricingTable {
        rules: vec![
            PricingRule {
                location: "Home".to_string(),
                name: "Tritanium".to_string(),
                model: PricingModel::SingleMarketSingleItemMaxBuy(SingleMarketSingleItemMaxBuy(
                    34,
                    "Jita".to_string(),
                    0.9f64.to_bits(),
                    "Jita buy 90%".to_string(),
                )),
            },
            PricingRule {
                location: "Home".to_string(),
                name: "Scrap".to_string(),
                model: PricingModel::Rejected,
            },
        ],
    }
}

#[test]
fn request_by_key_passes_through() {
    match ParsedInput::from_input(Input::Hash("abc123".to_string()), &table()) {
        ParsedInput::Hash(key) => assert_eq!(key, "abc123"),
        _ => panic!("not a key"),
    }
}

#[test]
fn items_get_their_strategies_from_the_table() {
    let input = Input::Items {
        location: "Home".to_string(),
        items: vec![item("Scrap", 1.0), item("Tritanium", 2.5), item("Unknown", 3.0)],
    };
    match ParsedInput::from_input(input, &table()) {
        ParsedInput::Items((items, location)) => {
            assert_eq!(location, "Home");
            assert_eq!(items.len(), 3);
            assert_eq!(items[0].0.name, "Scrap");
            assert!(matches!(items[0].1, PricingModel::Rejected));
            assert_eq!(items[1].0.name, "Tritanium");
            assert_eq!(f64::from_bits(items[1].0.quantity), 2.5);
            match &items[1].1 {
                PricingModel::SingleMarketSingleItemMaxBuy(s) => {
                    assert_eq!((s.0, s.1.as_str(), f64::from_bits(s.2), s.3.as_str()), (34, "Jita", 0.9, "Jita buy 90%"));
                }
                _ => panic!("not single"),
            }
            assert_eq!(items[2].0.name, "Unknown");
            assert!(matches!(items[2].1, PricingModel::Rejected));
        }
        _ => panic!("not items"),
    }
}

#[test]
fn items_at_an_unknown_location_are_rejected() {
    let input = Input::Items { location: "Nowhere".to_string(), items: vec![item("Tritanium", 1.0)] };
    match ParsedInput::from_input(input, &table()) {
        ParsedInput::Items((items, location)) => {
            assert_eq!(location, "Nowhere");
            assert!(matches!(items[0].1, PricingModel::Rejected));
        }
        _ => panic!("not items"),
    }
}

#[test]
fn lookup_of_an_absent_key_gives_an_empty_response() {
    let r = response_from_hash(None);
    assert!(r.accepted.is_empty());
    assert!(r.rejected.is_empty());
    assert_eq!(r.hash, "");
    assert_eq!(r.location, "");
    match r.sum {
        Amount::Value(bits) => assert_eq!(f64::from_bits(bits), 0.0),
        _ => panic!("not zero"),
    }
}

#[test]
fn lookup_of_a_stored_key_gives_what_is_stored() {
    let mut stored = Response::with_capacity(1, "Home".to_string());
    stored.push(item("Scrap", 1.0), Price::Rejected, "refused".to_string());
    stored.hash = "abc".to_string();
    let r = response_from_hash(Some(stored));
    assert_eq!(r.hash, "abc");
    assert_eq!(r.location, "Home");
    assert_eq!(r.rejected.len(), 1);
}

#[test]
fn insert_under_an_existing_key_succeeds() {
    let conflict = StoreError::DataConflict { code: "AlreadyExists".to_string() };
    assert!(!is_error(&conflict));
    let mut fresh = Response::with_capacity(0, "Home".to_string());
    fresh.hash = "abc".to_string();
    match after_insert(fresh, Err(conflict)) {
        Ok(r) => assert_eq!(r.hash, "abc"),
        Err(_) => panic!("reported"),
    }
}

#[test]
fn insert_that_succeeds_gives_the_response() {
    let mut fresh = Response::with_capacity(0, "Home".to_string());
    fresh.hash = "abc".to_string();
    assert!(matches!(after_insert(fresh, Ok(())), Ok(r) if r.hash == "abc"));
}

#[test]
fn other_store_failures_are_reported() {
    assert!(is_error(&StoreError::Other));
    assert!(is_error(&StoreError::DataConflict { code: "Aborted".to_string() }));
    assert!(is_error(&StoreError::DataConflict { code: "alreadyexists".to_string() }));
    assert!(is_error(&StoreError::DataConflict { code: "".to_string() }));
    let fresh = Response::with_capacity(0, "Home".to_string());
    assert!(matches!(after_insert(fresh, Err(StoreError::Other)), Err(StoreError::Other)));
    let fresh = Response::with_capacity(0, "Home".to_string());
    assert!(matches!(
        after_insert(fresh, Err(StoreError::DataConflict { code: "Aborted".to_string() })),
        Err(StoreError::DataConflict { code }) if code == "Aborted"
    ));
}

#[test]
fn fault_says_what_is_wrong() {
    let e = Error::InvalidPricingModel { item: "Ore".to_string(), location: "Home".to_string() };
    assert_eq!(e.message(), "Ore at location Home points to invalid PricingModel");
}
