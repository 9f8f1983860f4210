use vstd::prelude::*;
use crate::text::{lower_seq, trim_seq, trim_lower, eq_lit};

verus! {

/// The closed set of known retailers.
///
/// Each dealer has an opaque external id used by the remote catalog
/// service, a canonical display name, and a set of lower-case aliases
/// accepted when parsing user input.
#[derive(Clone, Copy, PartialEq, Eq, Structural, Debug)]
pub enum Dealer {
    Rema1000,
    Netto,
    DagliBrugsen,
    SuperBrugsen,
    Aldi,
    Bilka,
    Coop365,
    Irma,
    Foetex,
    Lidl,
    Meny,
    Kvickly,
    Spar,
}

/// Parsing failed: the input names no known dealer.
#[derive(Clone, Copy, PartialEq, Eq, Structural, Debug)]
pub struct UnknownDealerError;

/// The opaque token the remote service knows this dealer by.
pub open spec fn spec_id(d: Dealer) -> Seq<char> {
    match d {
        Dealer::Rema1000 => "11deC"@,
        Dealer::Netto => "9ba51"@,
        Dealer::DagliBrugsen => "d311fg"@,
        Dealer::Aldi => "98b7e"@,
        Dealer::Bilka => "93f13"@,
        Dealer::Coop365 => "DWZE1w"@,
        Dealer::Irma => "d432U"@,
        Dealer::Foetex => "bdf5A"@,
        Dealer::Lidl => "71c90"@,
        Dealer::Meny => "267e1m"@,
        Dealer::Kvickly => "c1edq"@,
        Dealer::Spar => "88ddE"@,
        Dealer::SuperBrugsen => "0b1e8"@,
    }
}

/// The canonical display name.
pub open spec fn spec_name(d: Dealer) -> Seq<char> {
    match d {
        Dealer::Rema1000 => "Rema1000"@,
        Dealer::Netto => "Netto"@,
        Dealer::DagliBrugsen => "DagliBrugsen"@,
        Dealer::SuperBrugsen => "SuperBrugsen"@,
        Dealer::Aldi => "Aldi"@,
        Dealer::Bilka => "Bilka"@,
        Dealer::Coop365 => "Coop365"@,
        Dealer::Irma => "Irma"@,
        Dealer::Foetex => "Føtex"@,
        Dealer::Lidl => "Lidl"@,
        Dealer::Meny => "Meny"@,
        Dealer::Kvickly => "Kvickly"@,
        Dealer::Spar => "Spar"@,
    }
}

/// A fixed position for each dealer, used as the tie-break key when
/// offers are ordered by name.
pub open spec fn dealer_rank(d: Dealer) -> int {
    match d {
        Dealer::Rema1000 => 0,
        Dealer::Netto => 1,
        Dealer::DagliBrugsen => 2,
        Dealer::SuperBrugsen => 3,
        Dealer::Aldi => 4,
        Dealer::Bilka => 5,
        Dealer::Coop365 => 6,
        Dealer::Irma => 7,
        Dealer::Foetex => 8,
        Dealer::Lidl => 9,
        Dealer::Meny => 10,
        Dealer::Kvickly => 11,
        Dealer::Spar => 12,
    }
}

/// What parsing user input yields: the input is trimmed and lower-cased,
/// then matched against the canonical names and aliases; anything else is
/// no dealer at all.
pub open spec fn spec_dealer_of(s: Seq<char>) -> Option<Dealer> {
    let t = lower_seq(trim_seq(s));
    if t == "bilka"@ {
        Some(Dealer::Bilka)
    } else if t == "coop365"@ {
        Some(Dealer::Coop365)
    } else if t == "lidl"@ {
        Some(Dealer::Lidl)
    } else if t == "rema1000"@ || t == "rema 1000"@ {
        Some(Dealer::Rema1000)
    } else if t == "spar"@ {
        Some(Dealer::Spar)
    } else if t == "meny"@ {
        Some(Dealer::Meny)
    } else if t == "føtex"@ {
        Some(Dealer::Foetex)
    } else if t == "irma"@ {
        Some(Dealer::Irma)
    } else if t == "aldi"@ {
        Some(Dealer::Aldi)
    } else if t == "netto"@ {
        Some(Dealer::Netto)
    } else if t == "kvickly"@ {
        Some(Dealer::Kvickly)
    } else if t == "daglibrugsen"@ || t == "dagli'brugsen"@ {
        Some(Dealer::DagliBrugsen)
    } else if t == "superbrugsen"@ {
        Some(Dealer::SuperBrugsen)
    } else {
        None
    }
}

impl Dealer {
    /// The external id the remote service expects for this dealer.
    pub fn id(&self) -> (r: &'static str)
        ensures
            r@ == spec_id(*self),
    {
        match self {
            Dealer::Rema1000 => "11deC",
            Dealer::Netto => "9ba51",
            Dealer::DagliBrugsen => "d311fg",
            Dealer::Aldi => "98b7e",
            Dealer::Bilka => "93f13",
            Dealer::Coop365 => "DWZE1w",
            Dealer::Irma => "d432U",
            Dealer::Foetex => "bdf5A",
            Dealer::Lidl => "71c90",
            Dealer::Meny => "267e1m",
            Dealer::Kvickly => "c1edq",
            Dealer::Spar => "88ddE",
            Dealer::SuperBrugsen => "0b1e8",
        }
    }

    /// The canonical display name.
    pub fn name(&self) -> (r: &'static str)
        ensures
            r@ == spec_name(*self),
    {
        match self {
            Dealer::Rema1000 => "Rema1000",
            Dealer::Netto => "Netto",
            Dealer::DagliBrugsen => "DagliBrugsen",
            Dealer::SuperBrugsen => "SuperBrugsen",
            Dealer::Aldi => "Aldi",
            Dealer::Bilka => "Bilka",
            Dealer::Coop365 => "Coop365",
            Dealer::Irma => "Irma",
            Dealer::Foetex => "Føtex",
            Dealer::Lidl => "Lidl",
            Dealer::Meny => "Meny",
            Dealer::Kvickly => "Kvickly",
            Dealer::Spar => "Spar",
        }
    }

    /// Position of this dealer in the fixed enumeration, used as a sort
    /// tie-break.
    pub fn rank(&self) -> (r: u8)
        ensures
            r as int == dealer_rank(*self),
    {
        match self {
            Dealer::Rema1000 => 0,
            Dealer::Netto => 1,
            Dealer::DagliBrugsen => 2,
            Dealer::SuperBrugsen => 3,
            Dealer::Aldi => 4,
            Dealer::Bilka => 5,
            Dealer::Coop365 => 6,
            Dealer::Irma => 7,
            Dealer::Foetex => 8,
            Dealer::Lidl => 9,
            Dealer::Meny => 10,
            Dealer::Kvickly => 11,
            Dealer::Spar => 12,
        }
    }

    /// Parse user input into a dealer. The input is trimmed and
    /// lower-cased, then matched against the canonical names and aliases;
    /// unknown input is an explicit failure, never a silent default.
    pub fn from_str(s: &str) -> (r: Result<Dealer, UnknownDealerError>)
        ensures
            match r {
                Ok(d) => spec_dealer_of(s@) == Some(d),
                Err(_) => spec_dealer_of(s@) is None,
            },
    {
        let t = trim_lower(s);
        if eq_lit(&t, "bilka") {
            Ok(Dealer::Bilka)
        } else if eq_lit(&t, "coop365") {
            Ok(Dealer::Coop365)
        } else if eq_lit(&t, "lidl") {
            Ok(Dealer::Lidl)
        } else if eq_lit(&t, "rema1000") || eq_lit(&t, "rema 1000") {
            Ok(Dealer::Rema1000)
        } else if eq_lit(&t, "spar") {
            Ok(Dealer::Spar)
        } else if eq_lit(&t, "meny") {
            Ok(Dealer::Meny)
        } else if eq_lit(&t, "føtex") {
            Ok(Dealer::Foetex)
        } else if eq_lit(&t, "irma") {
            Ok(Dealer::Irma)
        } else if eq_lit(&t, "aldi") {
            Ok(Dealer::Aldi)
        } else if eq_lit(&t, "netto") {
            Ok(Dealer::Netto)
        } else if eq_lit(&t, "kvickly") {
            Ok(Dealer::Kvickly)
        } else if eq_lit(&t, "daglibrugsen") || eq_lit(&t, "dagli'brugsen") {
            Ok(Dealer::DagliBrugsen)
        } else if eq_lit(&t, "superbrugsen") {
            Ok(Dealer::SuperBrugsen)
        } else {
            Err(UnknownDealerError)
        }
    }

    /// All known dealers, in the fixed enumeration order used for display.
    pub fn list_known_dealers() -> (r: Vec<Dealer>)
        ensures
            r@ == all_dealers(),
    {
        let mut v: Vec<Dealer> = Vec::new();
        v.push(Dealer::Rema1000);
        v.push(Dealer::Netto);
        v.push(Dealer::DagliBrugsen);
        v.push(Dealer::SuperBrugsen);
        v.push(Dealer::Aldi);
        v.push(Dealer::Bilka);
        v.push(Dealer::Coop365);
        v.push(Dealer::Irma);
        v.push(Dealer::Foetex);
        v.push(Dealer::Lidl);
        v.push(Dealer::Meny);
        v.push(Dealer::Kvickly);
        v.push(Dealer::Spar);
        proof {
            assert(v@ =~= all_dealers());
        }
        v
    }
}

/// The fixed enumeration of all dealers.
pub open spec fn all_dealers() -> Seq<Dealer> {
    seq![
        Dealer::Rema1000,
        Dealer::Netto,
        Dealer::DagliBrugsen,
        Dealer::SuperBrugsen,
        Dealer::Aldi,
        Dealer::Bilka,
        Dealer::Coop365,
        Dealer::Irma,
        Dealer::Foetex,
        Dealer::Lidl,
        Dealer::Meny,
        Dealer::Kvickly,
        Dealer::Spar,
    ]
}

impl Default for Dealer {
    /// The fallback dealer, as the wire format's absent-value default.
    fn default() -> (r: Self)
        ensures
            r == Dealer::Spar,
    {
        Dealer::Spar
    }
}

/// Look up a dealer by a name that is known to be good. Callers that
/// cannot vouch for their input use [`Dealer::from_str`] instead, which
/// reports the failure.
pub fn dealer_from_string(dealer_name: &str) -> (r: Dealer)
    requires
        spec_dealer_of(dealer_name@) is Some,
    ensures
        Some(r) == spec_dealer_of(dealer_name@),
{
    match Dealer::from_str(dealer_name) {
        Ok(d) => d,
        Err(_) => {
            assert(false);
            Dealer::Spar
        },
    }
}

/// Registry round trip: parsing a dealer's own display name yields that
/// dealer again, for every member of the closed set.
pub proof fn lemma_registry_round_trip(d: Dealer)
    ensures
        spec_dealer_of(spec_name(d)) == Some(d),
{
    reveal_strlit("Rema1000");
    reveal_strlit("Netto");
    reveal_strlit("DagliBrugsen");
    reveal_strlit("SuperBrugsen");
    reveal_strlit("Aldi");
    reveal_strlit("Bilka");
    reveal_strlit("Coop365");
    reveal_strlit("Irma");
    reveal_strlit("Føtex");
    reveal_strlit("Lidl");
    reveal_strlit("Meny");
    reveal_strlit("Kvickly");
    reveal_strlit("Spar");
    reveal_strlit("bilka");
    reveal_strlit("coop365");
    reveal_strlit("lidl");
    reveal_strlit("rema1000");
    reveal_strlit("rema 1000");
    reveal_strlit("spar");
    reveal_strlit("meny");
    reveal_strlit("føtex");
    reveal_strlit("irma");
    reveal_strlit("aldi");
    reveal_strlit("netto");
    reveal_strlit("kvickly");
    reveal_strlit("daglibrugsen");
    reveal_strlit("dagli'brugsen");
    reveal_strlit("superbrugsen");
    match d {
        Dealer::Rema1000 => {
            assert(trim_seq("Rema1000"@) == "Rema1000"@);
            assert(lower_seq("Rema1000"@) =~= "rema1000"@);
        },
        Dealer::Netto => {
            assert(trim_seq("Netto"@) == "Netto"@);
            assert(lower_seq("Netto"@) =~= "netto"@);
            assert("netto"@[0] != "bilka"@[0]);
            assert("netto"@[0] != "føtex"@[0]);
        },
        Dealer::DagliBrugsen => {
            assert(trim_seq("DagliBrugsen"@) == "DagliBrugsen"@);
            assert(lower_seq("DagliBrugsen"@) =~= "daglibrugsen"@);
        },
        Dealer::SuperBrugsen => {
            assert(trim_seq("SuperBrugsen"@) == "SuperBrugsen"@);
            assert(lower_seq("SuperBrugsen"@) =~= "superbrugsen"@);
            assert("superbrugsen"@[0] != "daglibrugsen"@[0]);
        },
        Dealer::Aldi => {
            assert(trim_seq("Aldi"@) == "Aldi"@);
            assert(lower_seq("Aldi"@) =~= "aldi"@);
            assert("aldi"@[0] != "lidl"@[0]);
            assert("aldi"@[0] != "spar"@[0]);
            assert("aldi"@[0] != "meny"@[0]);
            assert("aldi"@[0] != "irma"@[0]);
        },
        Dealer::Bilka => {
            assert(trim_seq("Bilka"@) == "Bilka"@);
            assert(lower_seq("Bilka"@) =~= "bilka"@);
        },
        Dealer::Coop365 => {
            assert(trim_seq("Coop365"@) == "Coop365"@);
            assert(lower_seq("Coop365"@) =~= "coop365"@);
        },
        Dealer::Irma => {
            assert(trim_seq("Irma"@) == "Irma"@);
            assert(lower_seq("Irma"@) =~= "irma"@);
            assert("irma"@[0] != "lidl"@[0]);
            assert("irma"@[0] != "spar"@[0]);
            assert("irma"@[0] != "meny"@[0]);
        },
        Dealer::Foetex => {
            assert(trim_seq("Føtex"@) == "Føtex"@);
            assert(lower_seq("Føtex"@) =~= "føtex"@);
            assert("føtex"@[0] != "bilka"@[0]);
        },
        Dealer::Lidl => {
            assert(trim_seq("Lidl"@) == "Lidl"@);
            assert(lower_seq("Lidl"@) =~= "lidl"@);
        },
        Dealer::Meny => {
            assert(trim_seq("Meny"@) == "Meny"@);
            assert(lower_seq("Meny"@) =~= "meny"@);
            assert("meny"@[0] != "lidl"@[0]);
            assert("meny"@[0] != "spar"@[0]);
        },
        Dealer::Kvickly => {
            assert(trim_seq("Kvickly"@) == "Kvickly"@);
            assert(lower_seq("Kvickly"@) =~= "kvickly"@);
            assert("kvickly"@[0] != "coop365"@[0]);
        },
        Dealer::Spar => {
            assert(trim_seq("Spar"@) == "Spar"@);
            assert(lower_seq("Spar"@) =~= "spar"@);
            assert("spar"@[0] != "lidl"@[0]);
        },
    }
}

} // verus!
