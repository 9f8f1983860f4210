use vstd::prelude::*;
use chrono::Datelike;
use crate::date::{Date, date_lt};
use crate::offer::{Offer, OfferView, views, offer_wf};
use crate::dealer::Dealer;

verus! {

/// No dealer occurs twice.
pub open spec fn no_dups(s: Seq<Dealer>) -> bool {
    forall|i: int, j: int| 0 <= i < j < s.len() ==> s[i] != s[j]
}

/// Appending each of `ds` in turn to `favs`, skipping the ones already
/// present: the favorites set after an add, with insertion order kept.
pub open spec fn add_all(favs: Seq<Dealer>, ds: Seq<Dealer>) -> Seq<Dealer>
    decreases ds.len(),
{
    if ds.len() == 0 {
        favs
    } else {
        let f = add_all(favs, ds.drop_last());
        if f.contains(ds.last()) {
            f
        } else {
            f.push(ds.last())
        }
    }
}

/// The favorites left after removing every dealer in `ds`, order kept.
pub open spec fn remove_all(favs: Seq<Dealer>, ds: Seq<Dealer>) -> Seq<Dealer>
    decreases favs.len(),
{
    if favs.len() == 0 {
        favs
    } else {
        let r = remove_all(favs.drop_last(), ds);
        if ds.contains(favs.last()) {
            r
        } else {
            r.push(favs.last())
        }
    }
}

/// The epoch date a fresh state starts from; any later day counts the
/// cache as stale.
pub open spec fn unix_epoch() -> Date {
    Date { year: 1970, month: 1, day: 1 }
}

/// The persisted per-user state: the favorite dealers, the date of the
/// last successful refresh, the offer snapshot of that refresh, and
/// whether the favorites changed since.
pub struct UserData {
    favorites: Vec<Dealer>,
    date_of_last_cache: Date,
    offers: Vec<Offer>,
    favorites_changed: bool,
}

impl UserData {
    /// The favorite dealers, in insertion order, each at most once.
    pub closed spec fn favorites_view(&self) -> Seq<Dealer> {
        self.favorites@
    }

    /// The cached offer snapshot.
    pub closed spec fn offers_view(&self) -> Seq<OfferView> {
        views(self.offers@)
    }

    /// The day of the last successful refresh.
    pub closed spec fn last_refresh(&self) -> Date {
        self.date_of_last_cache
    }

    /// Whether the favorites changed since the last refresh.
    pub closed spec fn changed(&self) -> bool {
        self.favorites_changed
    }

    /// State invariant: favorites form a set, and every cached offer
    /// satisfies the normalized-offer invariants.
    pub open spec fn wf(&self) -> bool {
        &&& no_dups(self.favorites_view())
        &&& forall|i: int|
            0 <= i < self.offers_view().len() ==> offer_wf(self.offers_view()[i])
    }

    /// Borrow the favorites, for display and persistence.
    pub fn favorites_list(&self) -> (r: &Vec<Dealer>)
        ensures
            r@ == self.favorites_view(),
    {
        &self.favorites
    }

    /// Borrow the cached offers, for display and persistence.
    pub fn offers_list(&self) -> (r: &Vec<Offer>)
        ensures
            views(r@) == self.offers_view(),
    {
        &self.offers
    }

    /// The day of the last successful refresh.
    pub fn last_refresh_date(&self) -> (r: Date)
        ensures
            r == self.last_refresh(),
    {
        self.date_of_last_cache
    }

    /// Whether the favorites changed since the last refresh.
    pub fn changed_flag(&self) -> (r: bool)
        ensures
            r == self.changed(),
    {
        self.favorites_changed
    }

    /// Rebuild a state from its persisted parts. Favorites are
    /// deduplicated on the way in, keeping the first occurrence; the
    /// offers must already satisfy the offer invariants (loaded snapshots
    /// are screened first).
    pub fn from_parts(
        favorites: Vec<Dealer>,
        date_of_last_cache: Date,
        offers: Vec<Offer>,
        favorites_changed: bool,
    ) -> (r: UserData)
        requires
            forall|i: int| 0 <= i < views(offers@).len() ==> offer_wf(views(offers@)[i]),
        ensures
            r.favorites_view() == add_all(Seq::<Dealer>::empty(), favorites@),
            r.offers_view() == views(offers@),
            r.last_refresh() == date_of_last_cache,
            r.changed() == favorites_changed,
            r.wf(),
    {
        let mut favs: Vec<Dealer> = Vec::new();
        push_missing(&mut favs, favorites.as_slice());
        UserData { favorites: favs, date_of_last_cache, offers, favorites_changed }
    }

    /// Add dealers to the favorites, skipping the ones already present.
    /// Returns whether the set actually grew; the change flag is raised
    /// exactly when it did.
    pub fn add_favorites(&mut self, dealers: &[Dealer]) -> (changed: bool)
        requires
            old(self).wf(),
        ensures
            final(self).wf(),
            final(self).favorites_view() == add_all(old(self).favorites_view(), dealers@),
            changed == (final(self).favorites_view().len() > old(self).favorites_view().len()),
            final(self).changed() == (old(self).changed() || changed),
            final(self).offers_view() == old(self).offers_view(),
            final(self).last_refresh() == old(self).last_refresh(),
    {
        let changed = push_missing(&mut self.favorites, dealers);
        if changed {
            self.favorites_changed = true;
        }
        proof {
            assert(self.offers_view() == old(self).offers_view());
            assert forall|i: int|
                0 <= i < self.offers_view().len() implies offer_wf(self.offers_view()[i]) by {
                assert(offer_wf(old(self).offers_view()[i]));
            }
        }
        changed
    }

    /// Remove dealers from the favorites. Returns whether the set
    /// actually shrank; the change flag is raised exactly when it did.
    pub fn remove_favorites(&mut self, dealers: &[Dealer]) -> (changed: bool)
        requires
            old(self).wf(),
        ensures
            final(self).wf(),
            final(self).favorites_view() == remove_all(old(self).favorites_view(), dealers@),
            changed == (final(self).favorites_view().len() < old(self).favorites_view().len()),
            final(self).changed() == (old(self).changed() || changed),
            final(self).offers_view() == old(self).offers_view(),
            final(self).last_refresh() == old(self).last_refresh(),
    {
        let ghost old_favs = self.favorites@;
        let mut kept: Vec<Dealer> = Vec::new();
        let mut i: usize = 0;
        while i < self.favorites.len()
            invariant
                0 <= i <= self.favorites@.len(),
                *self == *old(self),
                self.favorites@ == old_favs,
                kept@ == remove_all(old_favs.take(i as int), dealers@),
            decreases self.favorites@.len() - i,
        {
            proof {
                assert(old_favs.take(i + 1).drop_last() =~= old_favs.take(i as int));
                assert(old_favs.take(i + 1).last() == old_favs[i as int]);
            }
            let d = self.favorites[i];
            if !contains_dealer(dealers, d) {
                kept.push(d);
            }
            i = i + 1;
        }
        proof {
            assert(old_favs.take(old_favs.len() as int) =~= old_favs);
            lemma_remove_all_props(old_favs, dealers@);
        }
        let changed = kept.len() != self.favorites.len();
        self.favorites = kept;
        if changed {
            self.favorites_changed = true;
        }
        proof {
            assert(self.offers_view() == old(self).offers_view());
            assert forall|i: int|
                0 <= i < self.offers_view().len() implies offer_wf(self.offers_view()[i]) by {
                assert(offer_wf(old(self).offers_view()[i]));
            }
        }
        changed
    }

    /// Whether the cached snapshot is from an earlier day than `today`.
    pub fn cache_outdated(&self, today: &Date) -> (r: bool)
        ensures
            r == date_lt(self.last_refresh(), *today),
    {
        self.date_of_last_cache.lt(today)
    }

    /// Whether a refresh is owed: the favorites changed since the last
    /// refresh, or the cached snapshot is stale at day granularity.
    pub fn should_refresh(&self, today: &Date) -> (r: bool)
        ensures
            r == (self.changed() || date_lt(self.last_refresh(), *today)),
    {
        self.favorites_changed || self.cache_outdated(today)
    }

    /// Decide whether a refresh is owed now, against the real clock.
    /// Returns the decision together with the day the clock answered, so
    /// the caller can hand the very same day back to `mark_refreshed`.
    pub fn should_refresh_now(&self) -> (r: (bool, Date))
        ensures
            1 <= r.1.month <= 12,
            1 <= r.1.day <= 31,
            r.0 == (self.changed() || date_lt(self.last_refresh(), r.1)),
    {
        let today = today_date();
        let decision = self.should_refresh(&today);
        (decision, today)
    }

    /// Replace the cached snapshot wholesale; nothing is ever merged into
    /// a prior snapshot.
    pub fn set_offers(&mut self, offers: Vec<Offer>)
        requires
            old(self).wf(),
            forall|i: int| 0 <= i < views(offers@).len() ==> offer_wf(views(offers@)[i]),
        ensures
            final(self).wf(),
            final(self).offers_view() == views(offers@),
            final(self).favorites_view() == old(self).favorites_view(),
            final(self).last_refresh() == old(self).last_refresh(),
            final(self).changed() == old(self).changed(),
    {
        self.offers = offers;
    }

    /// Record a successful refresh: `today` becomes the last-refresh day
    /// and the change flag is cleared.
    pub fn mark_refreshed(&mut self, today: Date)
        requires
            old(self).wf(),
        ensures
            final(self).wf(),
            final(self).last_refresh() == today,
            final(self).changed() == false,
            final(self).favorites_view() == old(self).favorites_view(),
            final(self).offers_view() == old(self).offers_view(),
    {
        self.date_of_last_cache = today;
        self.favorites_changed = false;
        proof {
            assert(self.offers_view() == old(self).offers_view());
            assert(no_dups(self.favorites_view()));
            assert forall|i: int|
                0 <= i < self.offers_view().len() implies offer_wf(self.offers_view()[i]) by {
                assert(offer_wf(old(self).offers_view()[i]));
            }
        }
    }
}

impl Default for UserData {
    /// A fresh state: no favorites, no offers, the epoch as last-refresh
    /// day (so any real day counts as stale), and no pending change.
    fn default() -> (r: Self)
        ensures
            r.favorites_view() == Seq::<Dealer>::empty(),
            r.offers_view() == Seq::<OfferView>::empty(),
            r.last_refresh() == unix_epoch(),
            r.changed() == false,
            r.wf(),
    {
        let r = UserData {
            favorites: Vec::new(),
            date_of_last_cache: Date { year: 1970, month: 1, day: 1 },
            offers: Vec::new(),
            favorites_changed: false,
        };
        proof {
            assert(views(Seq::<Offer>::empty()) =~= Seq::<OfferView>::empty());
        }
        r
    }
}

/// Whether `v` holds `d`.
fn contains_dealer(v: &[Dealer], d: Dealer) -> (r: bool)
    ensures
        r == v@.contains(d),
{
    let mut i: usize = 0;
    while i < v.len()
        invariant
            0 <= i <= v@.len(),
            forall|j: int| 0 <= j < i ==> v@[j] != d,
        decreases v@.len() - i,
    {
        if v[i] == d {
            return true;
        }
        i = i + 1;
    }
    false
}

/// Append each dealer of `ds` that `v` does not hold yet.
fn push_missing(v: &mut Vec<Dealer>, ds: &[Dealer]) -> (changed: bool)
    requires
        no_dups(old(v)@),
    ensures
        final(v)@ == add_all(old(v)@, ds@),
        no_dups(final(v)@),
        changed == (final(v)@.len() > old(v)@.len()),
{
    let ghost orig = v@;
    let orig_len = v.len();
    let mut i: usize = 0;
    while i < ds.len()
        invariant
            0 <= i <= ds@.len(),
            v@ == add_all(orig, ds@.take(i as int)),
            no_dups(v@),
            v@.len() >= orig.len(),
        decreases ds@.len() - i,
    {
        proof {
            assert(ds@.take(i + 1).drop_last() =~= ds@.take(i as int));
            assert(ds@.take(i + 1).last() == ds@[i as int]);
        }
        let d = ds[i];
        if !contains_dealer(v.as_slice(), d) {
            v.push(d);
        }
        i = i + 1;
    }
    proof {
        assert(ds@.take(ds@.len() as int) =~= ds@);
    }
    v.len() > orig_len
}

/// Relies on chrono's `Utc::now` and `DateTime::date_naive` for the
/// current civil day in UTC, and on the `Datelike` accessors of
/// `NaiveDate`, whose documentation bounds `month` by 1 to 12 and `day`
/// by 1 to 31.
#[verifier::external_body]
fn today_date() -> (d: Date)
    ensures
        1 <= d.month <= 12,
        1 <= d.day <= 31,
{
    let now = chrono::Utc::now().date_naive();
    Date { year: now.year(), month: now.month() as u8, day: now.day() as u8 }
}

/// Removal only drops elements: the result is no longer than the input,
/// every element of it comes from the input, and a duplicate-free input
/// stays duplicate-free.
proof fn lemma_remove_all_props(favs: Seq<Dealer>, ds: Seq<Dealer>)
    ensures
        remove_all(favs, ds).len() <= favs.len(),
        forall|x: Dealer| #[trigger] remove_all(favs, ds).contains(x) ==> favs.contains(x),
        no_dups(favs) ==> no_dups(remove_all(favs, ds)),
    decreases favs.len(),
{
    if favs.len() > 0 {
        lemma_remove_all_props(favs.drop_last(), ds);
        let prior = remove_all(favs.drop_last(), ds);
        let res = remove_all(favs, ds);
        assert forall|x: Dealer| #[trigger] res.contains(x) implies favs.contains(x) by {
            let j = choose|j: int| 0 <= j < res.len() && res[j] == x;
            if j < prior.len() {
                assert(prior[j] == x);
                assert(prior.contains(x));
                assert(favs.drop_last().contains(x));
                let k = choose|k: int|
                    0 <= k < favs.drop_last().len() && favs.drop_last()[k] == x;
                assert(favs[k] == x);
            } else {
                assert(favs[favs.len() - 1] == x);
            }
        }
        if no_dups(favs) {
            assert(no_dups(favs.drop_last()));
            if !ds.contains(favs.last()) {
                assert forall|j: int| 0 <= j < prior.len() implies prior[j] != favs.last() by {
                    assert(prior.contains(prior[j]));
                    assert(favs.drop_last().contains(prior[j]));
                    let k = choose|k: int|
                        0 <= k < favs.drop_last().len() && favs.drop_last()[k] == prior[j];
                    assert(favs[k] == prior[j]);
                }
            }
        }
    }
}

/// Adding dealers that are all present already changes nothing; together
/// with the contract of `add_favorites` this is the favorites
/// idempotence law.
pub proof fn lemma_add_all_idempotent(favs: Seq<Dealer>, ds: Seq<Dealer>)
    requires
        forall|i: int| 0 <= i < ds.len() ==> favs.contains(ds[i]),
    ensures
        add_all(favs, ds) == favs,
    decreases ds.len(),
{
    if ds.len() > 0 {
        assert(forall|i: int|
            0 <= i < ds.drop_last().len() ==> ds.drop_last()[i] == ds[i]);
        lemma_add_all_idempotent(favs, ds.drop_last());
        assert(favs.contains(ds.last()));
    }
}

} // verus!
