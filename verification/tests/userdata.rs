use etilbudsavis_cli::date::Date;
use etilbudsavis_cli::dealer::Dealer;
use etilbudsavis_cli::offer::{deserialize_offer, RawOfferRecord};
use etilbudsavis_cli::userdata::UserData;

fn one_offer() -> etilbudsavis_cli::offer::Offer {
    let r = RawOfferRecord {
        heading: "Milk".to_string(),
        price: 10,
        run_from: "2024-01-01T00:00:00Z".to_string(),
        run_till: "2024-01-08T00:00:00Z".to_string(),
        pieces_from: 1,
        pieces_to: 1,
        size_from: 1,
        size_to: 1,
        unit_symbol: "l".to_string(),
        unit_factor: 1,
    };
    deserialize_offer(&r, Dealer::Netto).unwrap()
}

#[test]
fn a_fresh_state_is_empty_and_stale() {
    let ud = UserData::default();
    assert!(ud.favorites_list().is_empty());
    assert!(ud.offers_list().is_empty());
    assert_eq!(ud.last_refresh_date(), Date { year: 1970, month: 1, day: 1 });
    assert!(!ud.changed_flag());
    let today = Date { year: 2024, month: 6, day: 1 };
    assert!(ud.should_refresh(&today));
}

#[test]
fn adding_a_new_dealer_grows_the_set_and_raises_the_flag() {
    let mut ud = UserData::default();
    let changed = ud.add_favorites(&[Dealer::Netto, Dealer::Bilka]);
    assert!(changed);
    assert!(ud.changed_flag());
    assert_eq!(ud.favorites_list().as_slice(), &[Dealer::Netto, Dealer::Bilka]);
}

#[test]
fn adding_a_present_dealer_changes_nothing_and_reports_so() {
    let mut ud = UserData::default();
    ud.add_favorites(&[Dealer::Netto]);
    ud.mark_refreshed(Date { year: 2024, month: 6, day: 1 });
    assert!(!ud.changed_flag());
    let changed = ud.add_favorites(&[Dealer::Netto]);
    assert!(!changed);
    assert!(!ud.changed_flag());
    assert_eq!(ud.favorites_list().as_slice(), &[Dealer::Netto]);
}

#[test]
fn removing_a_present_dealer_shrinks_the_set() {
    let mut ud = UserData::default();
    ud.add_favorites(&[Dealer::Netto, Dealer::Bilka]);
    ud.mark_refreshed(Date { year: 2024, month: 6, day: 1 });
    let changed = ud.remove_favorites(&[Dealer::Netto]);
    assert!(changed);
    assert!(ud.changed_flag());
    assert_eq!(ud.favorites_list().as_slice(), &[Dealer::Bilka]);
}

#[test]
fn removing_an_absent_dealer_changes_nothing_and_reports_so() {
    let mut ud = UserData::default();
    ud.add_favorites(&[Dealer::Bilka]);
    ud.mark_refreshed(Date { year: 2024, month: 6, day: 1 });
    let changed = ud.remove_favorites(&[Dealer::Netto]);
    assert!(!changed);
    assert!(!ud.changed_flag());
    assert_eq!(ud.favorites_list().as_slice(), &[Dealer::Bilka]);
}

#[test]
fn loading_deduplicates_favorites() {
    let favs = vec![Dealer::Netto, Dealer::Bilka, Dealer::Netto, Dealer::Bilka];
    let ud = UserData::from_parts(
        favs,
        Date { year: 2024, month: 6, day: 1 },
        Vec::new(),
        false,
    );
    assert_eq!(ud.favorites_list().as_slice(), &[Dealer::Netto, Dealer::Bilka]);
    assert_eq!(ud.last_refresh_date(), Date { year: 2024, month: 6, day: 1 });
    assert!(!ud.changed_flag());
}

#[test]
fn unchanged_favorites_and_a_fresh_cache_need_no_refresh() {
    let today = Date { year: 2024, month: 6, day: 1 };
    let ud = UserData::from_parts(vec![Dealer::Netto], today, vec![one_offer()], false);
    assert!(!ud.should_refresh(&today));
    let hit = ud.search(&[], false);
    assert_eq!(hit.len(), 1);
    assert_eq!(hit[0].name, "Milk");
}

#[test]
fn changed_favorites_force_a_refresh_even_on_the_same_day() {
    let today = Date { year: 2024, month: 6, day: 1 };
    let ud = UserData::from_parts(vec![Dealer::Netto], today, Vec::new(), true);
    assert!(ud.should_refresh(&today));
}

#[test]
fn an_older_snapshot_is_stale() {
    let ud = UserData::from_parts(
        vec![Dealer::Netto],
        Date { year: 2024, month: 5, day: 31 },
        Vec::new(),
        false,
    );
    let today = Date { year: 2024, month: 6, day: 1 };
    assert!(ud.cache_outdated(&today));
    assert!(ud.should_refresh(&today));
}

#[test]
fn a_refresh_replaces_the_snapshot_and_clears_the_flag() {
    let mut ud = UserData::default();
    ud.add_favorites(&[Dealer::Netto]);
    assert!(ud.changed_flag());
    let today = Date { year: 2024, month: 6, day: 1 };
    ud.set_offers(vec![one_offer()]);
    ud.mark_refreshed(today);
    assert_eq!(ud.offers_list().len(), 1);
    assert_eq!(ud.last_refresh_date(), today);
    assert!(!ud.changed_flag());
    assert!(!ud.should_refresh(&today));
}

#[test]
fn the_clock_forces_a_refresh_of_a_fresh_state() {
    let ud = UserData::default();
    let (decision, today) = ud.should_refresh_now();
    assert!(decision);
    assert!((1..=12).contains(&today.month));
    assert!((1..=31).contains(&today.day));
    assert!(today.year > 1970);
}
