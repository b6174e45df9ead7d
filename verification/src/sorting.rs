//! The order of the releases of a changelog.
//!
//! The entry for the changes that are not yet released comes first; the
//! other releases follow from the newest to the oldest, and a release
//! without date comes after all dated ones. Releases of the same date keep
//! the order in which they were given.

use crate::date::{Date, date_comes_before, optional_date_before};
use crate::release::{Release, ReleaseView};
use vstd::prelude::*;

verus! {

/// The index at or after `from` of the first of `releases` whose date is
/// before `date`; the length of `releases` where there is none.
pub open spec fn position_from(releases: Seq<ReleaseView>, date: Option<Date>, from: int) -> int
    decreases releases.len() - from,
{
    if from < 0 || from >= releases.len() || optional_date_before(releases[from].date, date) {
        from
    } else {
        position_from(releases, date, from + 1)
    }
}

/// `releases` with `r` put in before the first release of an earlier
/// date.
pub open spec fn insert_by_date(releases: Seq<ReleaseView>, r: ReleaseView) -> Seq<ReleaseView> {
    releases.insert(position_from(releases, r.date, 0), r)
}

/// `acc` with the releases `releases` put in by date one after the other.
pub open spec fn sort_into(releases: Seq<ReleaseView>, acc: Seq<ReleaseView>) -> Seq<ReleaseView>
    decreases releases.len(),
{
    if releases.len() == 0 {
        acc
    } else {
        sort_into(releases.drop_first(), insert_by_date(acc, releases[0]))
    }
}

/// `releases` from the newest to the oldest; releases of the same date
/// stay in the order they have in `releases`.
pub open spec fn sorted_by_date(releases: Seq<ReleaseView>) -> Seq<ReleaseView> {
    sort_into(releases, Seq::<ReleaseView>::empty())
}

/// The index at or after `from` of the first of `releases` that has
/// neither version nor date.
pub open spec fn unreleased_from(releases: Seq<ReleaseView>, from: int) -> Option<int>
    decreases releases.len() - from,
{
    if from < 0 || from >= releases.len() {
        None
    } else if releases[from].is_unreleased() {
        Some(from)
    } else {
        unreleased_from(releases, from + 1)
    }
}

/// The index of the first of `releases` that has neither version nor
/// date.
pub open spec fn first_unreleased(releases: Seq<ReleaseView>) -> Option<int> {
    unreleased_from(releases, 0)
}

/// `releases` in the order of a changelog: the first entry without version
/// and date in front, the others by date.
pub open spec fn sorted_releases(releases: Seq<ReleaseView>) -> Seq<ReleaseView> {
    match first_unreleased(releases) {
        Some(k) => seq![releases[k]] + sorted_by_date(releases.remove(k)),
        None => sorted_by_date(releases),
    }
}

/// Whether no release of `releases` has a date before that of a later
/// one.
pub open spec fn descending(releases: Seq<ReleaseView>) -> bool {
    forall|i: int, j: int|
        0 <= i < j < releases.len() ==> !optional_date_before(
            (#[trigger] releases[i]).date,
            (#[trigger] releases[j]).date,
        )
}

/// Whether none of `releases` is without version and date.
pub open spec fn all_released(releases: Seq<ReleaseView>) -> bool {
    forall|i: int| 0 <= i < releases.len() ==> !(#[trigger] releases[i]).is_unreleased()
}

/// The releases after the entry without version and date, where that
/// entry is the first; all releases otherwise.
pub open spec fn after_unreleased(releases: Seq<ReleaseView>) -> Seq<ReleaseView> {
    if releases.len() > 0 && releases[0].is_unreleased() {
        releases.drop_first()
    } else {
        releases
    }
}

/// The order that a changelog keeps: at most one release is without
/// version and date, that one is the first, and the dates of the others
/// never go up.
pub open spec fn in_order(releases: Seq<ReleaseView>) -> bool {
    all_released(after_unreleased(releases)) && descending(after_unreleased(releases))
}

/// Whether at most one of `releases` is without version and date.
pub open spec fn at_most_one_unreleased(releases: Seq<ReleaseView>) -> bool {
    forall|i: int, j: int|
        0 <= i < j < releases.len() ==> !((#[trigger] releases[i]).is_unreleased()
            && (#[trigger] releases[j]).is_unreleased())
}

/// The position found for a date lies in range; every release before it
/// has a date that is not earlier, and the release at it an earlier one.
pub proof fn lemma_position(releases: Seq<ReleaseView>, date: Option<Date>, from: int)
    requires
        0 <= from <= releases.len(),
    ensures
        from <= position_from(releases, date, from) <= releases.len(),
        forall|k: int|
            from <= k < position_from(releases, date, from) ==> !optional_date_before(
                (#[trigger] releases[k]).date,
                date,
            ),
        position_from(releases, date, from) < releases.len() ==> optional_date_before(
            releases[position_from(releases, date, from)].date,
            date,
        ),
    decreases releases.len() - from,
{
    if from < releases.len() && !optional_date_before(releases[from].date, date) {
        lemma_position(releases, date, from + 1);
    }
}

/// Putting a release in by date keeps the dates from going up.
pub proof fn lemma_insert_descending(releases: Seq<ReleaseView>, r: ReleaseView)
    requires
        descending(releases),
    ensures
        descending(insert_by_date(releases, r)),
{
    let p = position_from(releases, r.date, 0);
    lemma_position(releases, r.date, 0);
    let out = insert_by_date(releases, r);
    assert forall|i: int, j: int| 0 <= i < j < out.len() implies !optional_date_before(
        (#[trigger] out[i]).date,
        (#[trigger] out[j]).date,
    ) by {
        if j < p {
            assert(out[i] == releases[i] && out[j] == releases[j]);
        } else if j == p {
            assert(out[i] == releases[i]);
        } else if i < p {
            assert(out[i] == releases[i] && out[j] == releases[j - 1]);
            if j - 1 > p {
                assert(!optional_date_before(releases[p].date, releases[j - 1].date));
            }
        } else if i == p {
            assert(out[j] == releases[j - 1]);
            if j - 1 > p {
                assert(!optional_date_before(releases[p].date, releases[j - 1].date));
            }
        } else {
            assert(out[i] == releases[i - 1] && out[j] == releases[j - 1]);
        }
    }
}

/// Putting a release with a version or a date among such releases leaves
/// only such releases.
pub proof fn lemma_insert_released(releases: Seq<ReleaseView>, r: ReleaseView)
    requires
        all_released(releases),
        !r.is_unreleased(),
    ensures
        all_released(insert_by_date(releases, r)),
{
    let p = position_from(releases, r.date, 0);
    lemma_position(releases, r.date, 0);
    let out = insert_by_date(releases, r);
    assert forall|i: int| 0 <= i < out.len() implies !(#[trigger] out[i]).is_unreleased() by {
        if i < p {
            assert(out[i] == releases[i]);
        } else if i > p {
            assert(out[i] == releases[i - 1]);
        }
    }
}

/// Sorting by date gives dates that never go up, and keeps every release:
/// the result holds the same releases, each as often as before.
pub proof fn lemma_sort_into(releases: Seq<ReleaseView>, acc: Seq<ReleaseView>)
    requires
        descending(acc),
    ensures
        descending(sort_into(releases, acc)),
        sort_into(releases, acc).to_multiset() == acc.to_multiset().add(releases.to_multiset()),
        all_released(acc) && all_released(releases) ==> all_released(sort_into(releases, acc)),
    decreases releases.len(),
{
    broadcast use vstd::seq_lib::group_to_multiset_ensures;
    broadcast use vstd::multiset::group_multiset_axioms;

    if releases.len() == 0 {
        assert(releases.to_multiset().len() == 0);
        assert(acc.to_multiset().add(releases.to_multiset()) =~= acc.to_multiset());
    } else {
        let r = releases[0];
        let rest = releases.drop_first();
        let next = insert_by_date(acc, r);
        lemma_insert_descending(acc, r);
        lemma_position(acc, r.date, 0);
        lemma_sort_into(rest, next);
        if all_released(acc) && all_released(releases) {
            assert(!r.is_unreleased());
            lemma_insert_released(acc, r);
            assert forall|i: int| 0 <= i < rest.len() implies !(#[trigger] rest[i]).is_unreleased() by {
                assert(rest[i] == releases[i + 1]);
            }
        }
        assert(rest =~= releases.remove(0));
        assert(releases =~= rest.insert(0, r));
        assert(releases.to_multiset() =~= rest.to_multiset().insert(r));
        assert(next.to_multiset() =~= acc.to_multiset().insert(r));
        assert(sort_into(releases, acc).to_multiset() =~= acc.to_multiset().add(
            releases.to_multiset(),
        ));
    }
}

/// The first release without version and date is found where there is
/// one, and no release before it is without version and date.
pub proof fn lemma_unreleased_from(releases: Seq<ReleaseView>, from: int)
    requires
        0 <= from <= releases.len(),
    ensures
        match unreleased_from(releases, from) {
            Some(k) => from <= k < releases.len() && releases[k].is_unreleased() && forall|i: int|
                from <= i < k ==> !(#[trigger] releases[i]).is_unreleased(),
            None => forall|i: int|
                from <= i < releases.len() ==> !(#[trigger] releases[i]).is_unreleased(),
        },
    decreases releases.len() - from,
{
    if from < releases.len() && !releases[from].is_unreleased() {
        lemma_unreleased_from(releases, from + 1);
    }
}

/// Sorting puts any releases in the order that a changelog keeps, where
/// at most one of them is without version and date; and it keeps every
/// release.
pub proof fn lemma_sorted_releases(releases: Seq<ReleaseView>)
    ensures
        at_most_one_unreleased(releases) ==> in_order(sorted_releases(releases)),
        descending(after_unreleased(sorted_releases(releases))),
        sorted_releases(releases).to_multiset() == releases.to_multiset(),
        sorted_releases(releases).len() == releases.len(),
{
    broadcast use vstd::seq_lib::group_to_multiset_ensures;
    broadcast use vstd::multiset::group_multiset_axioms;

    let empty = Seq::<ReleaseView>::empty();
    lemma_unreleased_from(releases, 0);
    assert(empty.to_multiset().len() == 0);
    let out = sorted_releases(releases);
    match first_unreleased(releases) {
        Some(k) => {
            let rest = releases.remove(k);
            let sorted = sorted_by_date(rest);
            lemma_sort_into(rest, empty);
            assert(sorted.to_multiset() =~= rest.to_multiset());
            assert(out =~= sorted.insert(0, releases[k]));
            assert(out.drop_first() =~= sorted);
            assert(after_unreleased(out) == sorted);
            if at_most_one_unreleased(releases) {
                assert forall|i: int| 0 <= i < rest.len() implies !(
                #[trigger] rest[i]).is_unreleased() by {
                    if i < k {
                        assert(rest[i] == releases[i]);
                    } else {
                        assert(rest[i] == releases[i + 1]);
                    }
                }
                assert(all_released(empty));
            }
            assert(releases =~= rest.insert(k, releases[k]));
            assert(releases.to_multiset() =~= rest.to_multiset().insert(releases[k]));
            assert(out.to_multiset() =~= releases.to_multiset());
        },
        None => {
            lemma_sort_into(releases, empty);
            assert(out.to_multiset() =~= releases.to_multiset());
            assert(all_released(releases));
            assert(all_released(empty));
            assert(all_released(out));
            if out.len() > 0 {
                assert(!out[0].is_unreleased());
            }
            assert(after_unreleased(out) == out);
        },
    }
    assert(out.len() == out.to_multiset().len());
    assert(releases.len() == releases.to_multiset().len());
}

/// Adding a release to releases in order leaves them in order, unless the
/// release is a second one without version and date.
pub proof fn lemma_add_release_in_order(releases: Seq<ReleaseView>, r: ReleaseView)
    requires
        in_order(releases),
        !r.is_unreleased() || all_released(releases),
    ensures
        in_order(sorted_releases(releases.insert(0, r))),
{
    let all = releases.insert(0, r);
    assert forall|i: int, j: int| 0 <= i < j < all.len() implies !((
    #[trigger] all[i]).is_unreleased() && (#[trigger] all[j]).is_unreleased()) by {
        if i == 0 {
            assert(all[j] == releases[j - 1]);
        } else {
            assert(all[i] == releases[i - 1] && all[j] == releases[j - 1]);
            let tail = after_unreleased(releases);
            if releases[0].is_unreleased() {
                assert(tail[j - 2] == releases[j - 1]);
            } else {
                assert(tail[j - 1] == releases[j - 1]);
            }
        }
    }
    lemma_sorted_releases(all);
}

/// Releases that differ in nothing but their descriptions and changes are
/// in order together.
pub proof fn lemma_same_order(a: Seq<ReleaseView>, b: Seq<ReleaseView>)
    requires
        a.len() == b.len(),
        forall|i: int|
            0 <= i < a.len() ==> (#[trigger] a[i]).date == b[i].date && a[i].version
                == b[i].version,
        in_order(a),
    ensures
        in_order(b),
{
    let x = after_unreleased(a);
    let y = after_unreleased(b);
    if a.len() > 0 {
        assert(a[0].is_unreleased() == b[0].is_unreleased());
    }
    assert(x.len() == y.len());
    assert forall|i: int| 0 <= i < y.len() implies !(#[trigger] y[i]).is_unreleased() by {
        if a.len() > 0 && a[0].is_unreleased() {
            assert(x[i] == a[i + 1] && y[i] == b[i + 1]);
        } else {
            assert(x[i] == a[i] && y[i] == b[i]);
        }
        assert(!x[i].is_unreleased());
    }
    assert forall|i: int, j: int| 0 <= i < j < y.len() implies !optional_date_before(
        (#[trigger] y[i]).date,
        (#[trigger] y[j]).date,
    ) by {
        if a.len() > 0 && a[0].is_unreleased() {
            assert(x[i] == a[i + 1] && y[i] == b[i + 1]);
            assert(x[j] == a[j + 1] && y[j] == b[j + 1]);
        } else {
            assert(x[i] == a[i] && y[i] == b[i]);
            assert(x[j] == a[j] && y[j] == b[j]);
        }
        assert(!optional_date_before(x[i].date, x[j].date));
    }
}

/// Puts `releases` in order from the newest to the oldest.
pub fn sort_by_date(releases: Vec<Release>) -> (sorted: Vec<Release>)
    ensures
        sorted.deep_view() == sorted_by_date(releases.deep_view()),
{
    let mut rest = releases;
    let mut sorted: Vec<Release> = Vec::new();
    assert(sorted.deep_view() =~= Seq::<ReleaseView>::empty());
    while rest.len() > 0
        invariant
            sort_into(rest.deep_view(), sorted.deep_view()) == sorted_by_date(
                releases.deep_view(),
            ),
        decreases rest.len(),
    {
        let ghost before_rest = rest.deep_view();
        let ghost before = sorted.deep_view();
        let r = rest.remove(0);
        assert(rest.deep_view() =~= before_rest.drop_first());
        assert(r@ == before_rest[0]);
        let mut at: usize = 0;
        while at < sorted.len() && !date_comes_before(&sorted[at].date, &r.date)
            invariant
                at <= sorted.len(),
                before == sorted.deep_view(),
                position_from(before, r@.date, at as int) == position_from(before, r@.date, 0),
            decreases sorted.len() - at,
        {
            at = at + 1;
        }
        sorted.insert(at, r);
        assert(sorted.deep_view() =~= before.insert(at as int, r@));
    }
    sorted
}

/// Puts `releases` in the order of a changelog: the first entry without
/// version and date in front, the others from the newest to the oldest.
pub fn sort(releases: Vec<Release>) -> (sorted: Vec<Release>)
    ensures
        sorted.deep_view() == sorted_releases(releases.deep_view()),
{
    let mut rest = releases;
    let ghost all = rest.deep_view();
    let mut k: usize = 0;
    while k < rest.len() && !rest[k].is_unreleased()
        invariant
            k <= rest.len(),
            all == rest.deep_view(),
            unreleased_from(all, k as int) == first_unreleased(all),
        decreases rest.len() - k,
    {
        k = k + 1;
    }
    if k < rest.len() {
        let unreleased = rest.remove(k);
        assert(rest.deep_view() =~= all.remove(k as int));
        let mut sorted = sort_by_date(rest);
        let ghost by_date = sorted.deep_view();
        sorted.insert(0, unreleased);
        assert(sorted.deep_view() =~= seq![all[k as int]] + by_date);
        sorted
    } else {
        sort_by_date(rest)
    }
}

} // verus!
