use etilbudsavis_cli::date::Date;
use etilbudsavis_cli::dealer::Dealer;
use etilbudsavis_cli::offer::{Offer, UnitCost};
use etilbudsavis_cli::search::filter_offers;
use etilbudsavis_cli::userdata::UserData;

fn offer(name: &str, dealer: Dealer) -> Offer {
    Offer {
        id: String::new(),
        name: name.to_string(),
        dealer,
        price: 10,
        cost_per_unit: UnitCost { num: 10, den: 1 },
        unit: "l".to_string(),
        min_size: 1,
        max_size: 1,
        min_amount: 1,
        max_amount: 1,
        run_from: Date { year: 2024, month: 1, day: 1 },
        run_till: Date { year: 2024, month: 1, day: 8 },
    }
}

fn pantry() -> Vec<Offer> {
    vec![
        offer("Rye bread", Dealer::Bilka),
        offer("Milk", Dealer::Netto),
        offer("Milkshake", Dealer::Spar),
        offer("Butter", Dealer::Netto),
    ]
}

fn names(offers: &[Offer]) -> Vec<&str> {
    offers.iter().map(|o| o.name.as_str()).collect()
}

#[test]
fn no_terms_returns_the_input_unchanged() {
    let offers = pantry();
    let r = filter_offers(&offers, &[], false);
    assert_eq!(
        names(&r),
        vec!["Rye bread", "Milk", "Milkshake", "Butter"]
    );
}

#[test]
fn a_name_term_matches_case_insensitively_and_sorts() {
    let offers = pantry();
    let r = filter_offers(&offers, &["milk".to_string()], false);
    assert_eq!(names(&r), vec!["Milk", "Milkshake"]);
    let shouting = filter_offers(&offers, &["  MILK ".to_string()], false);
    assert_eq!(names(&shouting), vec!["Milk", "Milkshake"]);
}

#[test]
fn overlapping_terms_produce_no_duplicates() {
    let offers = pantry();
    let r = filter_offers(
        &offers,
        &["milk".to_string(), "MILKSHAKE".to_string(), " milk".to_string()],
        false,
    );
    assert_eq!(names(&r), vec!["Milk", "Milkshake"]);
}

#[test]
fn results_are_sorted_by_name_then_dealer_rank() {
    let offers = vec![
        offer("Milk", Dealer::Spar),
        offer("Milk", Dealer::Rema1000),
        offer("Butter", Dealer::Netto),
    ];
    let r = filter_offers(&offers, &["".to_string()], false);
    assert_eq!(names(&r), vec!["Butter", "Milk", "Milk"]);
    assert_eq!(r[1].dealer, Dealer::Rema1000);
    assert_eq!(r[2].dealer, Dealer::Spar);
}

#[test]
fn equal_offers_from_one_term_collapse_to_one() {
    let offers = vec![
        offer("Milk", Dealer::Netto),
        offer("Butter", Dealer::Netto),
        offer("Milk", Dealer::Netto),
    ];
    let r = filter_offers(&offers, &["milk".to_string()], false);
    assert_eq!(names(&r), vec!["Milk"]);
}

#[test]
fn dealer_search_keeps_exactly_that_dealers_offers() {
    let offers = pantry();
    let r = filter_offers(&offers, &["netto".to_string()], true);
    assert_eq!(names(&r), vec!["Butter", "Milk"]);
    assert!(r.iter().all(|o| o.dealer == Dealer::Netto));
}

#[test]
fn an_unparsable_dealer_term_contributes_nothing() {
    let offers = pantry();
    let r = filter_offers(&offers, &["walmart".to_string()], true);
    assert!(r.is_empty());
    let mixed = filter_offers(
        &offers,
        &["walmart".to_string(), "spar".to_string()],
        true,
    );
    assert_eq!(names(&mixed), vec!["Milkshake"]);
}

#[test]
fn search_goes_through_the_cached_snapshot() {
    let ud = UserData::from_parts(
        vec![Dealer::Netto],
        Date { year: 2024, month: 6, day: 1 },
        pantry(),
        false,
    );
    let r = ud.search(&["bread".to_string()], false);
    assert_eq!(names(&r), vec!["Rye bread"]);
}

#[test]
fn matching_reliable_ids_collapse_across_terms() {
    let mut a = offer("Milk", Dealer::Netto);
    a.id = "offer-1".to_string();
    let mut b = offer("Milk juice", Dealer::Netto);
    b.id = "offer-1".to_string();
    let offers = vec![a, b];
    let r = filter_offers(
        &offers,
        &["milk".to_string(), "juice".to_string()],
        false,
    );
    assert_eq!(names(&r), vec!["Milk"]);
}
