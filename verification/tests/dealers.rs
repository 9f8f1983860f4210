use etilbudsavis_cli::dealer::{dealer_from_string, Dealer, UnknownDealerError};

#[test]
fn ids_match_the_remote_service_tokens() {
    assert_eq!(Dealer::Rema1000.id(), "11deC");
    assert_eq!(Dealer::Netto.id(), "9ba51");
    assert_eq!(Dealer::DagliBrugsen.id(), "d311fg");
    assert_eq!(Dealer::Aldi.id(), "98b7e");
    assert_eq!(Dealer::Bilka.id(), "93f13");
    assert_eq!(Dealer::Coop365.id(), "DWZE1w");
    assert_eq!(Dealer::Irma.id(), "d432U");
    assert_eq!(Dealer::Foetex.id(), "bdf5A");
    assert_eq!(Dealer::Lidl.id(), "71c90");
    assert_eq!(Dealer::Meny.id(), "267e1m");
    assert_eq!(Dealer::Kvickly.id(), "c1edq");
    assert_eq!(Dealer::Spar.id(), "88ddE");
    assert_eq!(Dealer::SuperBrugsen.id(), "0b1e8");
}

#[test]
fn every_display_name_parses_back_to_its_dealer() {
    for d in Dealer::list_known_dealers() {
        assert_eq!(Dealer::from_str(d.name()), Ok(d));
    }
}

#[test]
fn parsing_is_case_insensitive_and_trims() {
    assert_eq!(Dealer::from_str("NETTO"), Ok(Dealer::Netto));
    assert_eq!(Dealer::from_str("  bilka  "), Ok(Dealer::Bilka));
    assert_eq!(Dealer::from_str("Dagli'Brugsen"), Ok(Dealer::DagliBrugsen));
    assert_eq!(Dealer::from_str("rema 1000"), Ok(Dealer::Rema1000));
    assert_eq!(Dealer::from_str("rema1000"), Ok(Dealer::Rema1000));
    assert_eq!(Dealer::from_str("FØTEX"), Ok(Dealer::Foetex));
    assert_eq!(Dealer::from_str("coop365"), Ok(Dealer::Coop365));
}

#[test]
fn unknown_dealers_fail_explicitly() {
    assert_eq!(Dealer::from_str("walmart"), Err(UnknownDealerError));
    assert_eq!(Dealer::from_str(""), Err(UnknownDealerError));
    assert_eq!(Dealer::from_str("netto!"), Err(UnknownDealerError));
}

#[test]
fn lookup_by_known_name_succeeds() {
    assert_eq!(dealer_from_string("netto"), Dealer::Netto);
    assert_eq!(dealer_from_string("Spar"), Dealer::Spar);
}

#[test]
fn the_registry_enumerates_all_thirteen_dealers() {
    let all = Dealer::list_known_dealers();
    assert_eq!(all.len(), 13);
    assert_eq!(all[0], Dealer::Rema1000);
    assert_eq!(all[12], Dealer::Spar);
    for (i, a) in all.iter().enumerate() {
        for (j, b) in all.iter().enumerate() {
            if i != j {
                assert_ne!(a, b);
            }
        }
    }
}

#[test]
fn default_dealer_is_spar() {
    assert_eq!(Dealer::default(), Dealer::Spar);
}
