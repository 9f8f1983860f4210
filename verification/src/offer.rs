use vstd::prelude::*;
use core::cmp::Ordering;
use crate::date::{Date, date_le, spec_parse_date, parse_date};
use crate::dealer::Dealer;

verus! {

/// Exact unit cost of an offer, kept as a fraction: `num` is the price,
/// `den` the product of the SI-converted maximum size and the maximum
/// piece count. A zero denominator is the documented sentinel for an
/// undefined unit cost ("positive infinity"): it orders above every
/// finite cost, and two such sentinels order as equal, whatever their
/// numerators.
#[derive(Clone, Copy, PartialEq, Eq, Structural, Debug)]
pub struct UnitCost {
    pub num: u32,
    pub den: u128,
}

/// Denominators stay below 2^96, as every product of a `u64` size and a
/// `u32` piece count does; comparisons then never overflow.
pub open spec fn cost_wf(c: UnitCost) -> bool {
    c.den < 0x1000000000000000000000000
}

/// The sentinel for an undefined unit cost.
pub open spec fn cost_is_infinite(c: UnitCost) -> bool {
    c.den == 0
}

/// Strict order on unit costs by their rational value, with the zero
/// denominator sentinel above everything finite.
pub open spec fn cost_lt(a: UnitCost, b: UnitCost) -> bool {
    if cost_is_infinite(a) {
        false
    } else if cost_is_infinite(b) {
        true
    } else {
        a.num * b.den < b.num * a.den
    }
}

fn cost_lt_x(a: &UnitCost, b: &UnitCost) -> (r: bool)
    requires
        cost_wf(*a),
        cost_wf(*b),
    ensures
        r == cost_lt(*a, *b),
{
    if a.den == 0 {
        false
    } else if b.den == 0 {
        true
    } else {
        proof {
            assert((a.num as int) * (b.den as int) < 0x100000000 * 0x1000000000000000000000000
                && (b.num as int) * (a.den as int) < 0x100000000 * 0x1000000000000000000000000)
                by (nonlinear_arith)
                requires
                    a.num < 0x100000000,
                    b.num < 0x100000000,
                    a.den < 0x1000000000000000000000000,
                    b.den < 0x1000000000000000000000000,
            ;
        }
        (a.num as u128) * b.den < (b.num as u128) * a.den
    }
}

/// A canonical promotional offer, immutable once normalized.
#[derive(Debug)]
pub struct Offer {
    pub id: String,
    pub name: String,
    pub dealer: Dealer,
    pub price: u32,
    pub cost_per_unit: UnitCost,
    pub unit: String,
    pub min_size: u64,
    pub max_size: u64,
    pub min_amount: u32,
    pub max_amount: u32,
    pub run_from: Date,
    pub run_till: Date,
}

/// The mathematical image of an [`Offer`]: the same fields with text as
/// character sequences.
pub struct OfferView {
    pub id: Seq<char>,
    pub name: Seq<char>,
    pub dealer: Dealer,
    pub price: u32,
    pub cost_per_unit: UnitCost,
    pub unit: Seq<char>,
    pub min_size: u64,
    pub max_size: u64,
    pub min_amount: u32,
    pub max_amount: u32,
    pub run_from: Date,
    pub run_till: Date,
}

impl View for Offer {
    type V = OfferView;

    open spec fn view(&self) -> OfferView {
        OfferView {
            id: self.id@,
            name: self.name@,
            dealer: self.dealer,
            price: self.price,
            cost_per_unit: self.cost_per_unit,
            unit: self.unit@,
            min_size: self.min_size,
            max_size: self.max_size,
            min_amount: self.min_amount,
            max_amount: self.max_amount,
            run_from: self.run_from,
            run_till: self.run_till,
        }
    }
}

/// The views of a sequence of offers.
pub open spec fn views(s: Seq<Offer>) -> Seq<OfferView> {
    s.map_values(|o: Offer| o@)
}

/// The invariants every normalized offer satisfies: an ordered run
/// period, an ordered size range, and a well-formed cost denominator.
pub open spec fn offer_wf(o: OfferView) -> bool {
    &&& date_le(o.run_from, o.run_till)
    &&& o.min_size <= o.max_size
    &&& cost_wf(o.cost_per_unit)
}

/// Offer identity used for deduplication: two reliable (nonempty) ids
/// match, or — where no reliable id exists — dealer, name and run period
/// all match.
pub open spec fn offer_eq(a: OfferView, b: OfferView) -> bool {
    ||| (a.id.len() > 0 && a.id == b.id)
    ||| (a.dealer == b.dealer && a.name == b.name && a.run_from == b.run_from && a.run_till
        == b.run_till)
}

impl PartialEq for Offer {
    fn eq(&self, other: &Self) -> (r: bool) {
        (!self.id.as_str().is_empty() && self.id.eq(&other.id)) || (self.dealer == other.dealer
            && self.name.eq(&other.name) && self.run_from == other.run_from && self.run_till
            == other.run_till)
    }
}

impl vstd::std_specs::cmp::PartialEqSpecImpl for Offer {
    open spec fn obeys_eq_spec() -> bool {
        true
    }

    open spec fn eq_spec(&self, other: &Offer) -> bool {
        offer_eq(self@, other@)
    }
}

impl Clone for Offer {
    /// Clones carry the same view; only the text allocations are new.
    fn clone(&self) -> (r: Self)
        ensures
            r@ == self@,
    {
        Offer {
            id: self.id.clone(),
            name: self.name.clone(),
            dealer: self.dealer,
            price: self.price,
            cost_per_unit: self.cost_per_unit,
            unit: self.unit.clone(),
            min_size: self.min_size,
            max_size: self.max_size,
            min_amount: self.min_amount,
            max_amount: self.max_amount,
            run_from: self.run_from,
            run_till: self.run_till,
        }
    }
}

/// A raw offer record as the remote catalog service sends it, already
/// reduced to plain values: quantities are integers in the unit the
/// dealer declared, `unit_factor` the integral multiplier into the SI
/// base unit, and the run period two ISO time stamps.
#[derive(Debug)]
pub struct RawOfferRecord {
    pub heading: String,
    pub price: u32,
    pub run_from: String,
    pub run_till: String,
    pub pieces_from: u32,
    pub pieces_to: u32,
    pub size_from: u32,
    pub size_to: u32,
    pub unit_symbol: String,
    pub unit_factor: u32,
}

/// Why a raw record was rejected during normalization; any of these means
/// the record is malformed and contributes no offer.
#[derive(Clone, Copy, PartialEq, Eq, Structural, Debug)]
pub enum NormalizeError {
    /// The `run_from` time stamp has no well-formed date component.
    BadRunFrom,
    /// The `run_till` time stamp has no well-formed date component.
    BadRunTill,
    /// The run period ends before it starts.
    RunPeriodOrder,
    /// The declared size range ends below its start.
    SizeOrder,
}

/// When normalization accepts a raw record: both time stamps carry a
/// well-formed date, the run period is ordered, and so is the size range.
pub open spec fn normalize_accepts(
    run_from: Seq<char>,
    run_till: Seq<char>,
    size_from: u32,
    size_to: u32,
) -> bool {
    &&& spec_parse_date(run_from) is Some
    &&& spec_parse_date(run_till) is Some
    &&& date_le(spec_parse_date(run_from).unwrap(), spec_parse_date(run_till).unwrap())
    &&& size_from <= size_to
}

/// Which rejection a refused raw record gets, checked in this order.
pub open spec fn spec_normalize_err(
    run_from: Seq<char>,
    run_till: Seq<char>,
) -> NormalizeError {
    if spec_parse_date(run_from) is None {
        NormalizeError::BadRunFrom
    } else if spec_parse_date(run_till) is None {
        NormalizeError::BadRunTill
    } else if !date_le(spec_parse_date(run_from).unwrap(), spec_parse_date(run_till).unwrap()) {
        NormalizeError::RunPeriodOrder
    } else {
        NormalizeError::SizeOrder
    }
}

/// Normalize a raw wire record from `dealer` into a canonical offer.
///
/// Sizes are converted into the SI base unit by the record's factor; the
/// cost per unit is fixed here, once, as the exact fraction
/// `price / (max_size * max_amount)`, with a zero denominator standing
/// for the undefined ("infinite") cost; the run period keeps only the
/// date components of the two time stamps.
pub fn deserialize_offer(raw: &RawOfferRecord, dealer: Dealer) -> (r: Result<
    Offer,
    NormalizeError,
>)
    ensures
        r is Ok <==> normalize_accepts(raw.run_from@, raw.run_till@, raw.size_from, raw.size_to),
        r matches Ok(o) ==> {
            &&& o@.id == Seq::<char>::empty()
            &&& o@.name == raw.heading@
            &&& o@.dealer == dealer
            &&& o@.price == raw.price
            &&& o@.min_size == raw.size_from * raw.unit_factor
            &&& o@.max_size == raw.size_to * raw.unit_factor
            &&& o@.min_amount == raw.pieces_from
            &&& o@.max_amount == raw.pieces_to
            &&& o@.unit == raw.unit_symbol@
            &&& Some(o@.run_from) == spec_parse_date(raw.run_from@)
            &&& Some(o@.run_till) == spec_parse_date(raw.run_till@)
            &&& o@.cost_per_unit.num == raw.price
            &&& o@.cost_per_unit.den == o@.max_size * o@.max_amount
            &&& offer_wf(o@)
        },
        r matches Err(e) ==> e == spec_normalize_err(raw.run_from@, raw.run_till@),
{
    let run_from = match parse_date(raw.run_from.as_str()) {
        Some(d) => d,
        None => { return Err(NormalizeError::BadRunFrom) },
    };
    let run_till = match parse_date(raw.run_till.as_str()) {
        Some(d) => d,
        None => { return Err(NormalizeError::BadRunTill) },
    };
    if !run_from.le(&run_till) {
        return Err(NormalizeError::RunPeriodOrder);
    }
    if raw.size_from > raw.size_to {
        return Err(NormalizeError::SizeOrder);
    }
    proof {
        assert((raw.size_from as int) * (raw.unit_factor as int) <= (raw.size_to as int) * (
        raw.unit_factor as int) && (raw.size_to as int) * (raw.unit_factor as int)
            < 0x10000000000000000) by (nonlinear_arith)
            requires
                raw.size_from <= raw.size_to,
                raw.size_to < 0x100000000,
                raw.unit_factor < 0x100000000,
        ;
    }
    let min_size: u64 = (raw.size_from as u64) * (raw.unit_factor as u64);
    let max_size: u64 = (raw.size_to as u64) * (raw.unit_factor as u64);
    proof {
        assert((max_size as int) * (raw.pieces_to as int) < 0x1000000000000000000000000)
            by (nonlinear_arith)
            requires
                max_size < 0x10000000000000000,
                raw.pieces_to < 0x100000000,
        ;
    }
    let den: u128 = (max_size as u128) * (raw.pieces_to as u128);
    Ok(Offer {
        id: String::new(),
        name: raw.heading.clone(),
        dealer,
        price: raw.price,
        cost_per_unit: UnitCost { num: raw.price, den },
        unit: raw.unit_symbol.clone(),
        min_size,
        max_size,
        min_amount: raw.pieces_from,
        max_amount: raw.pieces_to,
        run_from,
        run_till,
    })
}

/// The comparator the presentation layer sorts with: offers with the
/// higher unit cost order first, and the two sentinels of an undefined
/// cost order as equal.
pub open spec fn spec_sort_by_cost(a: UnitCost, b: UnitCost) -> Ordering {
    if cost_lt(b, a) {
        Ordering::Less
    } else if cost_lt(a, b) {
        Ordering::Greater
    } else {
        Ordering::Equal
    }
}

/// Compare two offers for the cost-descending presentation order.
pub fn sort_by_cost(a: &Offer, b: &Offer) -> (r: Ordering)
    requires
        cost_wf(a.cost_per_unit),
        cost_wf(b.cost_per_unit),
    ensures
        r == spec_sort_by_cost(a@.cost_per_unit, b@.cost_per_unit),
{
    if cost_lt_x(&b.cost_per_unit, &a.cost_per_unit) {
        Ordering::Less
    } else if cost_lt_x(&a.cost_per_unit, &b.cost_per_unit) {
        Ordering::Greater
    } else {
        Ordering::Equal
    }
}

/// Whether this offer satisfies the normalized-offer invariants; loaded
/// snapshots are screened with this before they re-enter the pipeline.
pub fn offer_is_wf(o: &Offer) -> (r: bool)
    ensures
        r == offer_wf(o@),
{
    o.run_from.le(&o.run_till) && o.min_size <= o.max_size && o.cost_per_unit.den
        < 0x1000000000000000000000000
}

} // verus!
