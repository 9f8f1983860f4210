use core::cmp::Ordering;
use etilbudsavis_cli::date::Date;
use etilbudsavis_cli::dealer::Dealer;
use etilbudsavis_cli::offer::{
    deserialize_offer, offer_is_wf, sort_by_cost, NormalizeError, Offer, RawOfferRecord, UnitCost,
};

fn raw(heading: &str, price: u32, run_from: &str, run_till: &str) -> RawOfferRecord {
    RawOfferRecord {
        heading: heading.to_string(),
        price,
        run_from: run_from.to_string(),
        run_till: run_till.to_string(),
        pieces_from: 1,
        pieces_to: 1,
        size_from: 1,
        size_to: 1,
        unit_symbol: "l".to_string(),
        unit_factor: 1,
    }
}

fn plain_offer(name: &str, dealer: Dealer, cost: UnitCost) -> Offer {
    Offer {
        id: String::new(),
        name: name.to_string(),
        dealer,
        price: cost.num,
        cost_per_unit: cost,
        unit: "l".to_string(),
        min_size: 1,
        max_size: 1,
        min_amount: 1,
        max_amount: 1,
        run_from: Date { year: 2024, month: 1, day: 1 },
        run_till: Date { year: 2024, month: 1, day: 8 },
    }
}

#[test]
fn milk_normalizes_to_the_canonical_offer() {
    let r = raw("Milk", 10, "2024-01-01T00:00:00Z", "2024-01-08T00:00:00Z");
    let o = deserialize_offer(&r, Dealer::Netto).unwrap();
    assert_eq!(o.name, "Milk");
    assert_eq!(o.dealer, Dealer::Netto);
    assert_eq!(o.price, 10);
    assert_eq!(o.cost_per_unit, UnitCost { num: 10, den: 1 });
    assert_eq!(o.unit, "l");
    assert_eq!(o.min_size, 1);
    assert_eq!(o.max_size, 1);
    assert_eq!(o.min_amount, 1);
    assert_eq!(o.max_amount, 1);
    assert_eq!(o.run_from, Date { year: 2024, month: 1, day: 1 });
    assert_eq!(o.run_till, Date { year: 2024, month: 1, day: 8 });
    assert!(o.id.is_empty());
    assert!(offer_is_wf(&o));
}

#[test]
fn sizes_are_converted_by_the_si_factor() {
    let mut r = raw("Rice", 30, "2024-01-01T00:00:00Z", "2024-01-08T00:00:00Z");
    r.size_from = 2;
    r.size_to = 3;
    r.unit_factor = 500;
    r.pieces_from = 1;
    r.pieces_to = 2;
    let o = deserialize_offer(&r, Dealer::Bilka).unwrap();
    assert_eq!(o.min_size, 1000);
    assert_eq!(o.max_size, 1500);
    assert_eq!(o.cost_per_unit, UnitCost { num: 30, den: 3000 });
}

#[test]
fn zero_size_or_zero_pieces_gives_the_infinite_cost_sentinel() {
    let mut r = raw("Air", 5, "2024-01-01T00:00:00Z", "2024-01-08T00:00:00Z");
    r.size_from = 0;
    r.size_to = 0;
    let o = deserialize_offer(&r, Dealer::Netto).unwrap();
    assert_eq!(o.cost_per_unit.den, 0);

    let mut r2 = raw("Void", 5, "2024-01-01T00:00:00Z", "2024-01-08T00:00:00Z");
    r2.pieces_from = 0;
    r2.pieces_to = 0;
    let o2 = deserialize_offer(&r2, Dealer::Netto).unwrap();
    assert_eq!(o2.cost_per_unit.den, 0);
}

#[test]
fn each_malformed_record_gets_its_own_rejection() {
    let bad_from = raw("A", 1, "not a date", "2024-01-08T00:00:00Z");
    assert_eq!(
        deserialize_offer(&bad_from, Dealer::Netto),
        Err(NormalizeError::BadRunFrom)
    );

    let bad_till = raw("A", 1, "2024-01-01T00:00:00Z", "2024-99-99");
    assert_eq!(
        deserialize_offer(&bad_till, Dealer::Netto),
        Err(NormalizeError::BadRunTill)
    );

    let reversed = raw("A", 1, "2024-01-08T00:00:00Z", "2024-01-01T00:00:00Z");
    assert_eq!(
        deserialize_offer(&reversed, Dealer::Netto),
        Err(NormalizeError::RunPeriodOrder)
    );

    let mut shrunk = raw("A", 1, "2024-01-01T00:00:00Z", "2024-01-08T00:00:00Z");
    shrunk.size_from = 3;
    shrunk.size_to = 2;
    assert_eq!(
        deserialize_offer(&shrunk, Dealer::Netto),
        Err(NormalizeError::SizeOrder)
    );
}

#[test]
fn costlier_offers_sort_first() {
    let cheap = plain_offer("A", Dealer::Netto, UnitCost { num: 5, den: 1 });
    let dear = plain_offer("B", Dealer::Netto, UnitCost { num: 10, den: 1 });
    assert_eq!(sort_by_cost(&dear, &cheap), Ordering::Less);
    assert_eq!(sort_by_cost(&cheap, &dear), Ordering::Greater);
    assert_eq!(sort_by_cost(&cheap, &cheap), Ordering::Equal);
}

#[test]
fn fractional_costs_compare_exactly() {
    let third = plain_offer("A", Dealer::Netto, UnitCost { num: 1, den: 3 });
    let two_fifths = plain_offer("B", Dealer::Netto, UnitCost { num: 2, den: 5 });
    assert_eq!(sort_by_cost(&two_fifths, &third), Ordering::Less);
    assert_eq!(sort_by_cost(&third, &two_fifths), Ordering::Greater);
}

#[test]
fn the_infinite_sentinel_orders_above_every_finite_cost() {
    let finite = plain_offer("A", Dealer::Netto, UnitCost { num: 1000, den: 1 });
    let infinite = plain_offer("B", Dealer::Netto, UnitCost { num: 0, den: 0 });
    let infinite2 = plain_offer("C", Dealer::Netto, UnitCost { num: 7, den: 0 });
    assert_eq!(sort_by_cost(&infinite, &finite), Ordering::Less);
    assert_eq!(sort_by_cost(&finite, &infinite), Ordering::Greater);
    assert_eq!(sort_by_cost(&infinite, &infinite2), Ordering::Equal);
}

#[test]
fn offers_with_matching_reliable_ids_are_the_same() {
    let mut a = plain_offer("A", Dealer::Netto, UnitCost { num: 1, den: 1 });
    let mut b = plain_offer("B", Dealer::Bilka, UnitCost { num: 2, den: 1 });
    a.id = "x1".to_string();
    b.id = "x1".to_string();
    assert!(a == b);
    b.id = "x2".to_string();
    assert!(a != b);
}

#[test]
fn without_ids_the_four_tuple_decides() {
    let a = plain_offer("Milk", Dealer::Netto, UnitCost { num: 10, den: 1 });
    let mut b = plain_offer("Milk", Dealer::Netto, UnitCost { num: 99, den: 7 });
    b.price = 99;
    assert!(a == b);
    let c = plain_offer("Milk", Dealer::Bilka, UnitCost { num: 10, den: 1 });
    assert!(a != c);
    let mut d = plain_offer("Milk", Dealer::Netto, UnitCost { num: 10, den: 1 });
    d.run_till = Date { year: 2024, month: 2, day: 8 };
    assert!(a != d);
}

#[test]
fn screening_rejects_an_offer_that_breaks_the_invariants() {
    let mut o = plain_offer("A", Dealer::Netto, UnitCost { num: 1, den: 1 });
    o.run_from = Date { year: 2025, month: 1, day: 1 };
    assert!(!offer_is_wf(&o));
    let mut p = plain_offer("B", Dealer::Netto, UnitCost { num: 1, den: 1 });
    p.min_size = 2;
    p.max_size = 1;
    assert!(!offer_is_wf(&p));
}

#[test]
fn the_largest_quantities_convert_without_loss() {
    let mut r = raw("Bulk", u32::MAX, "2024-01-01T00:00:00Z", "2024-01-08T00:00:00Z");
    r.size_from = u32::MAX;
    r.size_to = u32::MAX;
    r.unit_factor = u32::MAX;
    r.pieces_from = u32::MAX;
    r.pieces_to = u32::MAX;
    let o = deserialize_offer(&r, Dealer::Bilka).unwrap();
    let max = u32::MAX as u64;
    assert_eq!(o.min_size, max * max);
    assert_eq!(o.max_size, max * max);
    assert_eq!(o.cost_per_unit.den, (max as u128) * (max as u128) * (u32::MAX as u128));
    assert!(offer_is_wf(&o));
}
