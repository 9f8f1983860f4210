use vstd::prelude::*;
use crate::dealer::{Dealer, dealer_rank, spec_dealer_of};
use crate::offer::{Offer, OfferView, views, offer_eq};
use crate::text::{lower_seq, trim_seq, trim_lower, contains_seq, contains_lowered};
use crate::userdata::UserData;

verus! {

/// Strict lexicographic order on character sequences, by code point; a
/// proper prefix orders before what it prefixes.
pub open spec fn seq_lt(a: Seq<char>, b: Seq<char>) -> bool
    decreases a.len(),
{
    if b.len() == 0 {
        false
    } else if a.len() == 0 {
        true
    } else if (a[0] as int) < (b[0] as int) {
        true
    } else if (b[0] as int) < (a[0] as int) {
        false
    } else {
        seq_lt(a.drop_first(), b.drop_first())
    }
}

/// The search presentation order: by name, then by the fixed dealer rank.
pub open spec fn offer_le(a: OfferView, b: OfferView) -> bool {
    ||| seq_lt(a.name, b.name)
    ||| (a.name == b.name && dealer_rank(a.dealer) <= dealer_rank(b.dealer))
}

/// Any two character sequences are ordered, one way or the other.
proof fn lemma_seq_lt_total(a: Seq<char>, b: Seq<char>)
    ensures
        seq_lt(a, b) || seq_lt(b, a) || a == b,
    decreases a.len(),
{
    if b.len() == 0 && a.len() == 0 {
        assert(a =~= b);
    } else if b.len() == 0 || a.len() == 0 {
    } else if (a[0] as int) < (b[0] as int) || (b[0] as int) < (a[0] as int) {
    } else {
        assert(a[0] == b[0]);
        lemma_seq_lt_total(a.drop_first(), b.drop_first());
        if !seq_lt(a, b) && !seq_lt(b, a) {
            assert(a.drop_first() == b.drop_first());
            assert forall|i: int| 0 <= i < a.len() implies a[i] == b[i] by {
                if i > 0 {
                    assert(a.drop_first()[i - 1] == b.drop_first()[i - 1]);
                }
            }
            assert(a =~= b);
        }
    }
}

/// The search order can always place one offer before the other.
pub proof fn lemma_offer_le_total(a: OfferView, b: OfferView)
    ensures
        offer_le(a, b) || offer_le(b, a),
{
    lemma_seq_lt_total(a.name, b.name);
}

/// Insertion of one offer into an ordered sequence, before the first
/// element it does not come after.
pub open spec fn insert_sorted(x: OfferView, s: Seq<OfferView>) -> Seq<OfferView>
    decreases s.len(),
{
    if s.len() == 0 {
        seq![x]
    } else if offer_le(x, s[0]) {
        seq![x] + s
    } else {
        seq![s[0]] + insert_sorted(x, s.drop_first())
    }
}

/// Insertion sort by the search order: the canonical ordered arrangement
/// of an offer sequence.
pub open spec fn sort_offers_spec(s: Seq<OfferView>) -> Seq<OfferView>
    decreases s.len(),
{
    if s.len() == 0 {
        s
    } else {
        insert_sorted(s.last(), sort_offers_spec(s.drop_last()))
    }
}

proof fn lemma_insert_sorted_at(x: OfferView, s: Seq<OfferView>, k: int)
    requires
        0 <= k <= s.len(),
        forall|i: int| 0 <= i < k ==> !offer_le(x, s[i]),
        k < s.len() ==> offer_le(x, s[k]),
    ensures
        insert_sorted(x, s) == s.take(k) + seq![x] + s.skip(k),
    decreases k,
{
    if s.len() == 0 {
        assert(insert_sorted(x, s) =~= s.take(k) + seq![x] + s.skip(k));
    } else if k == 0 {
        assert(seq![x] + s =~= s.take(0) + seq![x] + s.skip(0));
    } else {
        assert(!offer_le(x, s[0]));
        lemma_insert_sorted_at(x, s.drop_first(), k - 1);
        assert(seq![s[0]] + (s.drop_first().take(k - 1) + seq![x] + s.drop_first().skip(k - 1))
            =~= s.take(k) + seq![x] + s.skip(k));
    }
}

/// The search order is transitive.
proof fn lemma_seq_lt_trans(a: Seq<char>, b: Seq<char>, c: Seq<char>)
    requires
        seq_lt(a, b),
        seq_lt(b, c),
    ensures
        seq_lt(a, c),
    decreases a.len(),
{
    if a.len() > 0 && (a[0] as int) == (b[0] as int) && (b[0] as int) == (c[0] as int) {
        lemma_seq_lt_trans(a.drop_first(), b.drop_first(), c.drop_first());
    }
}

proof fn lemma_offer_le_trans(a: OfferView, b: OfferView, c: OfferView)
    requires
        offer_le(a, b),
        offer_le(b, c),
    ensures
        offer_le(a, c),
{
    if seq_lt(a.name, b.name) && seq_lt(b.name, c.name) {
        lemma_seq_lt_trans(a.name, b.name, c.name);
    }
}

/// Ordered by the search order: no element comes after one it should
/// precede.
pub open spec fn sorted_by_key(s: Seq<OfferView>) -> bool {
    forall|i: int, j: int| #![trigger s[i], s[j]] 0 <= i < j < s.len() ==> offer_le(s[i], s[j])
}

proof fn lemma_insert_sorted_elems(x: OfferView, s: Seq<OfferView>, k: int)
    requires
        0 <= k < insert_sorted(x, s).len(),
    ensures
        insert_sorted(x, s)[k] == x || s.contains(insert_sorted(x, s)[k]),
    decreases s.len(),
{
    let r = insert_sorted(x, s);
    if s.len() == 0 {
    } else if offer_le(x, s[0]) {
        if k > 0 {
            assert(r[k] == s[k - 1]);
        }
    } else {
        if k == 0 {
            assert(r[0] == s[0]);
        } else {
            lemma_insert_sorted_elems(x, s.drop_first(), k - 1);
            let e = insert_sorted(x, s.drop_first())[k - 1];
            assert(r[k] == e);
            if e != x {
                let m = choose|m: int|
                    0 <= m < s.drop_first().len() && s.drop_first()[m] == e;
                assert(s[m + 1] == e);
            }
        }
    }
}

proof fn lemma_insert_sorted_ordered(x: OfferView, s: Seq<OfferView>)
    requires
        sorted_by_key(s),
    ensures
        sorted_by_key(insert_sorted(x, s)),
    decreases s.len(),
{
    let r = insert_sorted(x, s);
    if s.len() == 0 {
    } else if offer_le(x, s[0]) {
        assert forall|i: int, j: int| #![trigger r[i], r[j]]
            0 <= i < j < r.len() implies offer_le(r[i], r[j]) by {
            if i == 0 {
                assert(r[j] == s[j - 1]);
                if j > 1 {
                    assert(offer_le(s[0], s[j - 1]));
                    lemma_offer_le_trans(x, s[0], s[j - 1]);
                }
            } else {
                assert(r[i] == s[i - 1] && r[j] == s[j - 1]);
            }
        }
    } else {
        lemma_offer_le_total(x, s[0]);
        assert forall|i: int, j: int| #![trigger s.drop_first()[i], s.drop_first()[j]]
            0 <= i < j < s.drop_first().len() implies offer_le(
            s.drop_first()[i],
            s.drop_first()[j],
        ) by {
            assert(s.drop_first()[i] == s[i + 1] && s.drop_first()[j] == s[j + 1]);
        }
        lemma_insert_sorted_ordered(x, s.drop_first());
        let rp = insert_sorted(x, s.drop_first());
        assert forall|i: int, j: int| #![trigger r[i], r[j]]
            0 <= i < j < r.len() implies offer_le(r[i], r[j]) by {
            if i == 0 {
                assert(r[j] == rp[j - 1]);
                lemma_insert_sorted_elems(x, s.drop_first(), j - 1);
                if rp[j - 1] != x {
                    let m = choose|m: int|
                        0 <= m < s.drop_first().len() && s.drop_first()[m] == rp[j - 1];
                    assert(s.drop_first()[m] == s[m + 1]);
                    assert(offer_le(s[0], s[m + 1]));
                }
            } else {
                assert(r[i] == rp[i - 1] && r[j] == rp[j - 1]);
            }
        }
    }
}

/// The canonical arrangement really is ordered by (name, dealer).
pub proof fn lemma_sort_sorted(s: Seq<OfferView>)
    ensures
        sorted_by_key(sort_offers_spec(s)),
    decreases s.len(),
{
    if s.len() > 0 {
        lemma_sort_sorted(s.drop_last());
        lemma_insert_sorted_ordered(s.last(), sort_offers_spec(s.drop_last()));
    }
}

proof fn lemma_insert_sorted_multiset(x: OfferView, s: Seq<OfferView>)
    ensures
        insert_sorted(x, s).to_multiset() == s.to_multiset().insert(x),
    decreases s.len(),
{
    broadcast use vstd::seq_lib::group_to_multiset_ensures;
    broadcast use vstd::multiset::group_multiset_axioms;

    if s.len() == 0 {
        assert(seq![x] =~= Seq::<OfferView>::empty().push(x));
        assert(insert_sorted(x, s).to_multiset() =~= s.to_multiset().insert(x));
    } else if offer_le(x, s[0]) {
        vstd::seq_lib::lemma_multiset_commutative(seq![x], s);
        assert(seq![x] =~= Seq::<OfferView>::empty().push(x));
        assert((seq![x] + s).to_multiset() =~= s.to_multiset().insert(x));
    } else {
        lemma_insert_sorted_multiset(x, s.drop_first());
        vstd::seq_lib::lemma_multiset_commutative(
            seq![s[0]],
            insert_sorted(x, s.drop_first()),
        );
        vstd::seq_lib::lemma_multiset_commutative(seq![s[0]], s.drop_first());
        assert(seq![s[0]] + s.drop_first() =~= s);
        assert(insert_sorted(x, s).to_multiset() =~= s.to_multiset().insert(x));
    }
}

/// Sorting only rearranges: the ordered arrangement carries exactly the
/// offers of its input, multiplicities included.
pub proof fn lemma_sort_permutes(s: Seq<OfferView>)
    ensures
        sort_offers_spec(s).to_multiset() == s.to_multiset(),
    decreases s.len(),
{
    broadcast use vstd::seq_lib::group_to_multiset_ensures;

    if s.len() > 0 {
        lemma_sort_permutes(s.drop_last());
        lemma_insert_sorted_multiset(s.last(), sort_offers_spec(s.drop_last()));
        assert(s.drop_last().push(s.last()) =~= s);
    }
}

/// Removal of adjacent duplicates, keeping the first of each run; a
/// candidate is measured against the last element already kept.
pub open spec fn dedup_adjacent(s: Seq<OfferView>) -> Seq<OfferView>
    decreases s.len(),
{
    if s.len() == 0 {
        s
    } else {
        let rest = dedup_adjacent(s.drop_last());
        if rest.len() > 0 && offer_eq(rest.last(), s.last()) {
            rest
        } else {
            rest.push(s.last())
        }
    }
}

/// No two neighbours of a deduplicated sequence are duplicates of one
/// another.
proof fn lemma_dedup_no_adjacent(s: Seq<OfferView>)
    ensures
        forall|i: int|
            0 <= i < dedup_adjacent(s).len() - 1 ==> !offer_eq(
                #[trigger] dedup_adjacent(s)[i],
                dedup_adjacent(s)[i + 1],
            ),
    decreases s.len(),
{
    if s.len() > 0 {
        lemma_dedup_no_adjacent(s.drop_last());
        let rest = dedup_adjacent(s.drop_last());
        let res = dedup_adjacent(s);
        if !(rest.len() > 0 && offer_eq(rest.last(), s.last())) {
            assert forall|i: int|
                0 <= i < res.len() - 1 implies !offer_eq(#[trigger] res[i], res[i + 1]) by {
                if i + 1 < rest.len() {
                    assert(res[i] == rest[i] && res[i + 1] == rest[i + 1]);
                } else {
                    assert(res[i] == rest.last() && res[i + 1] == s.last());
                }
            }
        }
    }
}

/// A sequence already free of adjacent duplicates is its own
/// deduplication.
proof fn lemma_dedup_fixed(s: Seq<OfferView>)
    requires
        forall|i: int| 0 <= i < s.len() - 1 ==> !offer_eq(#[trigger] s[i], s[i + 1]),
    ensures
        dedup_adjacent(s) == s,
    decreases s.len(),
{
    if s.len() > 0 {
        assert(forall|i: int|
            0 <= i < s.drop_last().len() - 1 ==> !offer_eq(
                #[trigger] s.drop_last()[i],
                s.drop_last()[i + 1],
            ));
        lemma_dedup_fixed(s.drop_last());
        if s.len() >= 2 {
            assert(s.drop_last().last() == s[s.len() - 2]);
            assert(!offer_eq(s[s.len() - 2], s[s.len() - 1]));
        }
        assert(s.drop_last().push(s.last()) =~= s);
    }
}

/// Deduplication is idempotent: running it twice changes nothing over
/// running it once.
pub proof fn lemma_dedup_idempotent(s: Seq<OfferView>)
    ensures
        dedup_adjacent(dedup_adjacent(s)) == dedup_adjacent(s),
{
    lemma_dedup_no_adjacent(s);
    lemma_dedup_fixed(dedup_adjacent(s));
}

proof fn lemma_dedup_elems(s: Seq<OfferView>, k: int)
    requires
        0 <= k < dedup_adjacent(s).len(),
    ensures
        s.contains(dedup_adjacent(s)[k]),
    decreases s.len(),
{
    if s.len() > 0 {
        let rest = dedup_adjacent(s.drop_last());
        let res = dedup_adjacent(s);
        if k < rest.len() {
            lemma_dedup_elems(s.drop_last(), k);
            let m = choose|m: int| 0 <= m < s.drop_last().len() && s.drop_last()[m] == rest[k];
            assert(s[m] == res[k]);
        } else {
            assert(res[k] == s.last());
            assert(s[s.len() - 1] == res[k]);
        }
    }
}

proof fn lemma_dedup_sorted(s: Seq<OfferView>)
    requires
        sorted_by_key(s),
    ensures
        sorted_by_key(dedup_adjacent(s)),
    decreases s.len(),
{
    if s.len() > 0 {
        assert forall|i: int, j: int| #![trigger s.drop_last()[i], s.drop_last()[j]]
            0 <= i < j < s.drop_last().len() implies offer_le(
            s.drop_last()[i],
            s.drop_last()[j],
        ) by {
            assert(s.drop_last()[i] == s[i] && s.drop_last()[j] == s[j]);
        }
        lemma_dedup_sorted(s.drop_last());
        let rest = dedup_adjacent(s.drop_last());
        let res = dedup_adjacent(s);
        if !(rest.len() > 0 && offer_eq(rest.last(), s.last())) {
            assert forall|i: int, j: int| #![trigger res[i], res[j]]
                0 <= i < j < res.len() implies offer_le(res[i], res[j]) by {
                if j < rest.len() {
                    assert(res[i] == rest[i] && res[j] == rest[j]);
                } else {
                    assert(res[j] == s.last());
                    assert(res[i] == rest[i]);
                    lemma_dedup_elems(s.drop_last(), i);
                    let m = choose|m: int|
                        0 <= m < s.drop_last().len() && s.drop_last()[m] == rest[i];
                    assert(s[m] == rest[i]);
                    assert(offer_le(s[m], s[s.len() - 1]));
                }
            }
        }
    }
}

/// A search with terms hands its offers back in the (name, dealer)
/// order: the union of the per-term matches is sorted, and stripping
/// adjacent duplicates keeps that order.
pub proof fn lemma_search_ordered(offers: Seq<OfferView>, terms: Seq<Seq<char>>, by_dealer: bool)
    requires
        terms.len() > 0,
    ensures
        sorted_by_key(spec_search(offers, terms, by_dealer)),
{
    let united = union_matches(offers, terms, by_dealer);
    lemma_sort_sorted(united);
    lemma_dedup_sorted(sort_offers_spec(united));
}

/// When an offer answers a search term: matched against the dealer
/// registry when searching by dealer, otherwise a case-insensitive
/// substring test of the trimmed term against the offer's name.
pub open spec fn term_matches(o: OfferView, term: Seq<char>, by_dealer: bool) -> bool {
    if by_dealer {
        spec_dealer_of(term) == Some(o.dealer)
    } else {
        contains_seq(lower_seq(o.name), lower_seq(trim_seq(term)))
    }
}

/// The offers answering one term, in their original order.
pub open spec fn matches_of(offers: Seq<OfferView>, term: Seq<char>, by_dealer: bool) -> Seq<
    OfferView,
>
    decreases offers.len(),
{
    if offers.len() == 0 {
        Seq::empty()
    } else {
        let r = matches_of(offers.drop_last(), term, by_dealer);
        if term_matches(offers.last(), term, by_dealer) {
            r.push(offers.last())
        } else {
            r
        }
    }
}

/// The union of the per-term matches, term by term. A term that parses as
/// no dealer contributes nothing and aborts nothing.
pub open spec fn union_matches(
    offers: Seq<OfferView>,
    terms: Seq<Seq<char>>,
    by_dealer: bool,
) -> Seq<OfferView>
    decreases terms.len(),
{
    if terms.len() == 0 {
        Seq::empty()
    } else {
        union_matches(offers, terms.drop_last(), by_dealer) + matches_of(
            offers,
            terms.last(),
            by_dealer,
        )
    }
}

/// What a search returns: an empty term list passes the input through
/// unchanged; otherwise the per-term matches are united, ordered by
/// (name, dealer), and stripped of adjacent duplicates.
pub open spec fn spec_search(
    offers: Seq<OfferView>,
    terms: Seq<Seq<char>>,
    by_dealer: bool,
) -> Seq<OfferView> {
    if terms.len() == 0 {
        offers
    } else {
        dedup_adjacent(sort_offers_spec(union_matches(offers, terms, by_dealer)))
    }
}

/// The views of a sequence of search terms.
pub open spec fn term_views(s: Seq<String>) -> Seq<Seq<char>> {
    s.map_values(|t: String| t@)
}

proof fn lemma_matches_of_none(offers: Seq<OfferView>, term: Seq<char>, by_dealer: bool)
    requires
        forall|i: int| 0 <= i < offers.len() ==> !term_matches(offers[i], term, by_dealer),
    ensures
        matches_of(offers, term, by_dealer) == Seq::<OfferView>::empty(),
    decreases offers.len(),
{
    if offers.len() > 0 {
        assert(forall|i: int|
            0 <= i < offers.drop_last().len() ==> offers.drop_last()[i] == offers[i]);
        lemma_matches_of_none(offers.drop_last(), term, by_dealer);
    }
}

fn str_lt(a: &str, b: &str) -> (r: bool)
    ensures
        r == seq_lt(a@, b@),
{
    let alen = a.unicode_len();
    let blen = b.unicode_len();
    proof {
        assert(a@.skip(0) =~= a@);
        assert(b@.skip(0) =~= b@);
    }
    let mut i: usize = 0;
    while i < alen && i < blen
        invariant
            0 <= i <= alen,
            0 <= i <= blen,
            alen == a@.len(),
            blen == b@.len(),
            seq_lt(a@, b@) == seq_lt(a@.skip(i as int), b@.skip(i as int)),
        decreases alen - i,
    {
        let ca = a.get_char(i);
        let cb = b.get_char(i);
        if (ca as u32) < (cb as u32) {
            proof {
                assert(a@.skip(i as int)[0] == a@[i as int]);
                assert(b@.skip(i as int)[0] == b@[i as int]);
            }
            return true;
        }
        if (cb as u32) < (ca as u32) {
            proof {
                assert(a@.skip(i as int)[0] == a@[i as int]);
                assert(b@.skip(i as int)[0] == b@[i as int]);
            }
            return false;
        }
        proof {
            lemma_seq_lt_skip(a@, b@, i as int);
        }
        i = i + 1;
    }
    if i < blen {
        proof {
            assert(a@.skip(i as int).len() == 0);
            assert(b@.skip(i as int).len() > 0);
        }
        true
    } else {
        proof {
            assert(b@.skip(i as int).len() == 0);
        }
        false
    }
}

proof fn lemma_seq_lt_skip(a: Seq<char>, b: Seq<char>, i: int)
    requires
        0 <= i,
        i < a.len(),
        i < b.len(),
        a[i] == b[i],
    ensures
        seq_lt(a.skip(i), b.skip(i)) == seq_lt(a.skip(i + 1), b.skip(i + 1)),
{
    assert(a.skip(i)[0] == a[i]);
    assert(b.skip(i)[0] == b[i]);
    assert(a.skip(i).drop_first() =~= a.skip(i + 1));
    assert(b.skip(i).drop_first() =~= b.skip(i + 1));
}

/// Executable twin of [`offer_le`].
fn offer_le_x(a: &Offer, b: &Offer) -> (r: bool)
    ensures
        r == offer_le(a@, b@),
{
    if str_lt(a.name.as_str(), b.name.as_str()) {
        true
    } else if a.name.eq(&b.name) {
        a.dealer.rank() <= b.dealer.rank()
    } else {
        false
    }
}

fn insert_by_key(v: &mut Vec<Offer>, x: Offer)
    ensures
        views(final(v)@) == insert_sorted(x@, views(old(v)@)),
{
    let ghost s = views(old(v)@);
    let mut k: usize = 0;
    while k < v.len() && !offer_le_x(&x, &v[k])
        invariant
            0 <= k <= v@.len(),
            v@ == old(v)@,
            forall|i: int| 0 <= i < k ==> !offer_le(x@, views(v@)[i]),
        decreases v@.len() - k,
    {
        proof {
            assert(views(v@)[k as int] == v@[k as int]@);
        }
        k = k + 1;
    }
    proof {
        assert(k < v@.len() ==> views(v@)[k as int] == v@[k as int]@);
        lemma_insert_sorted_at(x@, s, k as int);
    }
    v.insert(k, x);
    proof {
        assert(views(v@) =~= s.take(k as int) + seq![x@] + s.skip(k as int));
    }
}

/// Order an offer sequence by (name, dealer).
fn sort_offers(v: &Vec<Offer>) -> (r: Vec<Offer>)
    ensures
        views(r@) == sort_offers_spec(views(v@)),
{
    let mut r: Vec<Offer> = Vec::new();
    proof {
        assert(views(v@.take(0)) =~= Seq::<OfferView>::empty());
        assert(views(r@) =~= Seq::<OfferView>::empty());
    }
    let mut i: usize = 0;
    while i < v.len()
        invariant
            0 <= i <= v@.len(),
            views(r@) == sort_offers_spec(views(v@.take(i as int))),
        decreases v@.len() - i,
    {
        proof {
            assert(views(v@.take(i + 1)).drop_last() =~= views(v@.take(i as int)));
            assert(views(v@.take(i + 1)).last() == v@[i as int]@);
        }
        insert_by_key(&mut r, v[i].clone());
        i = i + 1;
    }
    proof {
        assert(v@.take(v@.len() as int) =~= v@);
    }
    r
}

/// Strip adjacent duplicate offers, keeping the first of each run.
fn dedup_offers(v: &Vec<Offer>) -> (r: Vec<Offer>)
    ensures
        views(r@) == dedup_adjacent(views(v@)),
{
    let mut r: Vec<Offer> = Vec::new();
    proof {
        assert(views(v@.take(0)) =~= Seq::<OfferView>::empty());
        assert(views(r@) =~= Seq::<OfferView>::empty());
    }
    let mut i: usize = 0;
    while i < v.len()
        invariant
            0 <= i <= v@.len(),
            views(r@) == dedup_adjacent(views(v@.take(i as int))),
        decreases v@.len() - i,
    {
        proof {
            assert(views(v@.take(i + 1)).drop_last() =~= views(v@.take(i as int)));
            assert(views(v@.take(i + 1)).last() == v@[i as int]@);
        }
        let rlen = r.len();
        if rlen == 0 {
            r.push(v[i].clone());
            proof {
                assert(views(r@) =~= views(r@.drop_last()).push(v@[i as int]@));
            }
        } else {
            proof {
                assert(views(r@)[rlen - 1] == r@[rlen - 1]@);
            }
            if r[rlen - 1].eq(&v[i]) {
            } else {
                r.push(v[i].clone());
                proof {
                    assert(views(r@) =~= views(r@.drop_last()).push(v@[i as int]@));
                }
            }
        }
        i = i + 1;
    }
    proof {
        assert(v@.take(v@.len() as int) =~= v@);
    }
    r
}

/// Clone an offer list; the views carry over unchanged.
fn clone_offers(v: &Vec<Offer>) -> (r: Vec<Offer>)
    ensures
        views(r@) == views(v@),
{
    let mut r: Vec<Offer> = Vec::new();
    let mut i: usize = 0;
    while i < v.len()
        invariant
            0 <= i <= v@.len(),
            r@.len() == i,
            forall|j: int| 0 <= j < i ==> views(r@)[j] == views(v@)[j],
        decreases v@.len() - i,
    {
        r.push(v[i].clone());
        i = i + 1;
    }
    proof {
        assert(views(r@) =~= views(v@));
    }
    r
}

/// The in-memory search pipeline over an acquired offer set: per-term
/// matches united, then ordered and deduplicated; an empty term list
/// passes the input through unchanged.
pub fn filter_offers(offers: &Vec<Offer>, search_items: &[String], search_by_dealer: bool) -> (r:
    Vec<Offer>)
    ensures
        views(r@) == spec_search(views(offers@), term_views(search_items@), search_by_dealer),
{
    if search_items.len() == 0 {
        return clone_offers(offers);
    }
    let ghost all = views(offers@);
    let ghost terms = term_views(search_items@);
    let mut matched: Vec<Offer> = Vec::new();
    proof {
        assert(views(matched@) =~= Seq::<OfferView>::empty());
    }
    let mut t: usize = 0;
    while t < search_items.len()
        invariant
            0 <= t <= search_items@.len(),
            terms == term_views(search_items@),
            all == views(offers@),
            views(matched@) == union_matches(all, terms.take(t as int), search_by_dealer),
        decreases search_items@.len() - t,
    {
        proof {
            assert(terms.take(t + 1).drop_last() =~= terms.take(t as int));
            assert(terms.take(t + 1).last() == search_items@[t as int]@);
        }
        let ghost term = search_items@[t as int]@;
        let ghost before = views(matched@);
        if search_by_dealer {
            match Dealer::from_str(search_items[t].as_str()) {
                Ok(d) => {
                    push_dealer_matches(&mut matched, offers, d, Ghost(term));
                    proof {
                        assert(views(matched@) =~= before + matches_of(
                            all,
                            term,
                            search_by_dealer,
                        ));
                    }
                },
                Err(_) => {
                    proof {
                        assert(forall|i: int|
                            0 <= i < all.len() ==> !term_matches(#[trigger] all[i], term, true));
                        lemma_matches_of_none(all, term, true);
                        assert(views(matched@) =~= before + matches_of(
                            all,
                            term,
                            search_by_dealer,
                        ));
                    }
                },
            }
        } else {
            let needle = trim_lower(search_items[t].as_str());
            push_name_matches(&mut matched, offers, &needle, Ghost(term));
            proof {
                assert(views(matched@) =~= before + matches_of(all, term, search_by_dealer));
            }
        }
        t = t + 1;
    }
    proof {
        assert(terms.take(terms.len() as int) =~= terms);
    }
    let sorted = sort_offers(&matched);
    dedup_offers(&sorted)
}

/// Append, in order, the offers whose dealer is `d`: the by-dealer
/// matches of one search term that parsed as `d`.
fn push_dealer_matches(
    matched: &mut Vec<Offer>,
    offers: &Vec<Offer>,
    d: Dealer,
    Ghost(term): Ghost<Seq<char>>,
)
    requires
        spec_dealer_of(term) == Some(d),
    ensures
        views(final(matched)@) == views(old(matched)@) + matches_of(views(offers@), term, true),
{
    let ghost all = views(offers@);
    let ghost before = views(old(matched)@);
    proof {
        assert(all.take(0) =~= Seq::<OfferView>::empty());
        assert(before + matches_of(all.take(0), term, true) =~= before);
    }
    let mut j: usize = 0;
    while j < offers.len()
        invariant
            0 <= j <= offers@.len(),
            all == views(offers@),
            spec_dealer_of(term) == Some(d),
            views(matched@) == before + matches_of(all.take(j as int), term, true),
        decreases offers@.len() - j,
    {
        proof {
            assert(all.take(j + 1).drop_last() =~= all.take(j as int));
            assert(all.take(j + 1).last() == all[j as int]);
            assert(all[j as int] == offers@[j as int]@);
        }
        if offers[j].dealer == d {
            let ghost prev = matched@;
            matched.push(offers[j].clone());
            proof {
                assert(views(matched@) =~= views(prev).push(offers@[j as int]@));
                assert(term_matches(all[j as int], term, true));
                assert(matches_of(all.take(j + 1), term, true) =~= matches_of(
                    all.take(j as int),
                    term,
                    true,
                ).push(all[j as int]));
                assert(views(matched@) =~= before + matches_of(all.take(j + 1), term, true));
            }
        }
        j = j + 1;
    }
    proof {
        assert(all.take(all.len() as int) =~= all);
    }
}

/// Append, in order, the offers whose lower-cased name contains the
/// already lowered and trimmed `needle`: the by-name matches of one
/// search term.
fn push_name_matches(
    matched: &mut Vec<Offer>,
    offers: &Vec<Offer>,
    needle: &Vec<char>,
    Ghost(term): Ghost<Seq<char>>,
)
    requires
        needle@ == lower_seq(trim_seq(term)),
    ensures
        views(final(matched)@) == views(old(matched)@) + matches_of(views(offers@), term, false),
{
    let ghost all = views(offers@);
    let ghost before = views(old(matched)@);
    proof {
        assert(all.take(0) =~= Seq::<OfferView>::empty());
        assert(before + matches_of(all.take(0), term, false) =~= before);
    }
    let mut j: usize = 0;
    while j < offers.len()
        invariant
            0 <= j <= offers@.len(),
            all == views(offers@),
            needle@ == lower_seq(trim_seq(term)),
            views(matched@) == before + matches_of(all.take(j as int), term, false),
        decreases offers@.len() - j,
    {
        proof {
            assert(all.take(j + 1).drop_last() =~= all.take(j as int));
            assert(all.take(j + 1).last() == all[j as int]);
            assert(all[j as int] == offers@[j as int]@);
        }
        if contains_lowered(offers[j].name.as_str(), needle) {
            let ghost prev = matched@;
            matched.push(offers[j].clone());
            proof {
                assert(views(matched@) =~= views(prev).push(offers@[j as int]@));
                assert(term_matches(all[j as int], term, false));
                assert(matches_of(all.take(j + 1), term, false) =~= matches_of(
                    all.take(j as int),
                    term,
                    false,
                ).push(all[j as int]));
                assert(views(matched@) =~= before + matches_of(all.take(j + 1), term, false));
            }
        }
        j = j + 1;
    }
    proof {
        assert(all.take(all.len() as int) =~= all);
    }
}

impl UserData {
    /// Term-based search over the cached snapshot: the union of the
    /// per-term matches, ordered by (name, dealer) and stripped of
    /// adjacent duplicates; an empty term list returns the snapshot
    /// unchanged.
    pub fn search(&self, search_items: &[String], search_by_dealer: bool) -> (r: Vec<Offer>)
        ensures
            views(r@) == spec_search(
                self.offers_view(),
                term_views(search_items@),
                search_by_dealer,
            ),
    {
        filter_offers(self.offers_list(), search_items, search_by_dealer)
    }
}

} // verus!
