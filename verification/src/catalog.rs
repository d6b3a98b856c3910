//! The release fetcher: which releases of the source catalog a pass takes up,
//! and in which order.

use vstd::prelude::*;
use crate::window::{Timestamp, Window};

verus! {

/// The most releases that one pass takes up.
pub const BATCH_LIMIT: usize = 10_000;

/// One published version of a package, as the source catalog records it.
#[derive(Debug, PartialEq, Eq)]
pub struct ReleaseEvent {
    pub created_at: Timestamp,
    pub package_name: String,
    pub version: String,
}

/// The mathematical content of a [`ReleaseEvent`].
pub ghost struct ReleaseView {
    pub created_at: Timestamp,
    pub package_name: Seq<char>,
    pub version: Seq<char>,
}

impl View for ReleaseEvent {
    type V = ReleaseView;

    open spec fn view(&self) -> ReleaseView {
        ReleaseView {
            created_at: self.created_at,
            package_name: self.package_name@,
            version: self.version@,
        }
    }
}

impl ReleaseEvent {
    /// A second event with the same content.
    pub fn duplicate(&self) -> (copy: ReleaseEvent)
        ensures
            copy == *self,
    {
        ReleaseEvent {
            created_at: self.created_at,
            package_name: self.package_name.clone(),
            version: self.version.clone(),
        }
    }
}

/// The releases that a pass takes up, and whether the window held more than
/// the pass can take.
#[derive(Debug, PartialEq, Eq)]
pub struct Batch {
    pub releases: Vec<ReleaseEvent>,
    pub truncated: bool,
}

/// The content of each release of a list, in the list's order.
pub open spec fn release_views(releases: Seq<ReleaseEvent>) -> Seq<ReleaseView> {
    releases.map_values(|release: ReleaseEvent| release@)
}

/// The releases of `catalog` that lie in `window`, in the catalog's order.
pub open spec fn within(catalog: Seq<ReleaseView>, window: Window) -> Seq<ReleaseView>
    decreases catalog.len(),
{
    if catalog.len() == 0 {
        Seq::empty()
    } else {
        let earlier = within(catalog.drop_last(), window);
        if window.contains(catalog.last().created_at) {
            earlier.push(catalog.last())
        } else {
            earlier
        }
    }
}

/// No release comes before a more recent one.
pub open spec fn newest_first(releases: Seq<ReleaseView>) -> bool {
    forall|i: int, j: int|
        0 <= i < j < releases.len() ==> releases[i].created_at.micros
            >= releases[j].created_at.micros
}

/// Where a release of the moment `at` joins `releases`: behind the last
/// release that is not older than it.
pub open spec fn place_of(releases: Seq<ReleaseView>, at: Timestamp) -> int
    decreases releases.len(),
{
    if releases.len() == 0 {
        0
    } else if releases.last().created_at.micros >= at.micros {
        releases.len() as int
    } else {
        place_of(releases.drop_last(), at)
    }
}

/// The releases of `releases` with the most recent first; releases of one
/// moment keep the order in which they came.
pub open spec fn newest_first_of(releases: Seq<ReleaseView>) -> Seq<ReleaseView>
    decreases releases.len(),
{
    if releases.len() == 0 {
        Seq::empty()
    } else {
        let arranged = newest_first_of(releases.drop_last());
        arranged.insert(place_of(arranged, releases.last().created_at), releases.last())
    }
}

/// The releases that a pass over `window` takes up from `catalog`: those in
/// the window, most recent first, and no more than the limit of a batch.
pub open spec fn selection(catalog: Seq<ReleaseView>, window: Window) -> Seq<ReleaseView> {
    let arranged = newest_first_of(within(catalog, window));
    if arranged.len() > BATCH_LIMIT {
        arranged.take(BATCH_LIMIT as int)
    } else {
        arranged
    }
}

/// The place at which a release joins a list lies within the list or at its
/// end, behind every release that is not older and before every older one.
pub proof fn lemma_place_of(releases: Seq<ReleaseView>, at: Timestamp)
    requires
        newest_first(releases),
    ensures
        0 <= place_of(releases, at) <= releases.len(),
        forall|k: int|
            0 <= k < place_of(releases, at) ==> (#[trigger] releases[k]).created_at.micros
                >= at.micros,
        forall|k: int|
            place_of(releases, at) <= k < releases.len() ==> (#[trigger] releases[k]).created_at.micros
                < at.micros,
    decreases releases.len(),
{
    if releases.len() > 0 {
        if releases.last().created_at.micros >= at.micros {
            assert forall|k: int| 0 <= k < releases.len() implies (#[trigger] releases[k]).created_at.micros
                >= at.micros by {
                if k < releases.len() - 1 {
                    assert(releases[k].created_at.micros >= releases[releases.len()
                        - 1].created_at.micros);
                }
            }
        } else {
            let front = releases.drop_last();
            assert(newest_first(front));
            lemma_place_of(front, at);
            assert forall|k: int| place_of(releases, at) <= k < releases.len() implies (
            #[trigger] releases[k]).created_at.micros < at.micros by {
                if k < front.len() {
                    assert(front[k].created_at.micros < at.micros);
                }
            }
            assert forall|k: int| 0 <= k < place_of(releases, at) implies (
            #[trigger] releases[k]).created_at.micros >= at.micros by {
                assert(front[k].created_at.micros >= at.micros);
            }
        }
    }
}

/// The arrangement holds the releases it was given, each as often, with no
/// release before a more recent one.
pub proof fn lemma_newest_first_of(releases: Seq<ReleaseView>)
    ensures
        newest_first(newest_first_of(releases)),
        newest_first_of(releases).to_multiset() == releases.to_multiset(),
        newest_first_of(releases).len() == releases.len(),
    decreases releases.len(),
{
    if releases.len() == 0 {
        assert(releases =~= Seq::empty());
    } else {
        let front = releases.drop_last();
        let joining = releases.last();
        let arranged = newest_first_of(front);
        lemma_newest_first_of(front);
        lemma_place_of(arranged, joining.created_at);
        let place = place_of(arranged, joining.created_at);
        let joined = arranged.insert(place, joining);
        assert forall|i: int, j: int| 0 <= i < j < joined.len() implies joined[i].created_at.micros
            >= joined[j].created_at.micros by {
            if j < place {
                assert(joined[i] == arranged[i] && joined[j] == arranged[j]);
            } else if j == place {
                assert(joined[i] == arranged[i]);
            } else if i == place {
                assert(joined[j] == arranged[j - 1]);
            } else if i < place {
                assert(joined[i] == arranged[i] && joined[j] == arranged[j - 1]);
            } else {
                assert(joined[i] == arranged[i - 1] && joined[j] == arranged[j - 1]);
            }
        }
        vstd::seq_lib::to_multiset_insert(arranged, place, joining);
        assert(releases =~= front.push(joining));
        vstd::seq_lib::to_multiset_build(front, joining);
        assert(newest_first_of(releases) == joined);
        assert(joined.to_multiset() =~= releases.to_multiset());
    }
}

/// Every release that lies in the window is among those found within it, and
/// nothing else is.
pub proof fn lemma_within(catalog: Seq<ReleaseView>, window: Window)
    ensures
        forall|release: ReleaseView|
            #[trigger] within(catalog, window).contains(release) <==> catalog.contains(release)
                && window.contains(release.created_at),
        within(catalog, window).len() <= catalog.len(),
    decreases catalog.len(),
{
    if catalog.len() > 0 {
        let front = catalog.drop_last();
        lemma_within(front, window);
        let found = within(catalog, window);
        assert forall|release: ReleaseView|
            #[trigger] found.contains(release) <==> catalog.contains(release) && window.contains(
                release.created_at,
            ) by {
            assert(within(front, window).contains(release) <==> front.contains(release)
                && window.contains(release.created_at));
            if found.contains(release) {
                let at = choose|k: int| 0 <= k < found.len() && found[k] == release;
                if at < within(front, window).len() {
                    assert(within(front, window)[at] == release);
                    assert(within(front, window).contains(release));
                    let origin = choose|k: int| 0 <= k < front.len() && front[k] == release;
                    assert(catalog[origin] == release);
                } else {
                    assert(catalog[catalog.len() - 1] == release);
                }
            }
            if catalog.contains(release) && window.contains(release.created_at) {
                let origin = choose|k: int| 0 <= k < catalog.len() && catalog[k] == release;
                if origin < front.len() {
                    assert(front[origin] == release);
                    assert(front.contains(release));
                    let at = choose|k: int|
                        0 <= k < within(front, window).len() && within(front, window)[k]
                            == release;
                    assert(found[at] == release);
                } else {
                    assert(found[found.len() - 1] == release);
                }
            }
        }
    }
}

/// What a pass takes up lies in the window, comes from the catalog, has the
/// most recent release first, and leaves out a release of the window only
/// where the batch is full, and then none that is more recent than one it
/// holds.
pub proof fn lemma_selection(catalog: Seq<ReleaseView>, window: Window)
    ensures
        newest_first(selection(catalog, window)),
        selection(catalog, window).len() <= BATCH_LIMIT,
        forall|k: int|
            0 <= k < selection(catalog, window).len() ==> {
                &&& window.contains((#[trigger] selection(catalog, window)[k]).created_at)
                &&& catalog.contains(selection(catalog, window)[k])
            },
        within(catalog, window).len() <= BATCH_LIMIT ==> selection(catalog, window).to_multiset()
            == within(catalog, window).to_multiset(),
        within(catalog, window).len() > BATCH_LIMIT ==> selection(catalog, window).len()
            == BATCH_LIMIT,
        forall|release: ReleaseView, k: int|
            #![trigger selection(catalog, window)[k], within(catalog, window).to_multiset().count(release)]
            0 <= k < selection(catalog, window).len() && within(catalog, window).to_multiset().count(
                release,
            ) > selection(catalog, window).to_multiset().count(release)
                ==> release.created_at.micros <= selection(catalog, window)[k].created_at.micros,
{
    let found = within(catalog, window);
    let arranged = newest_first_of(found);
    let taken = selection(catalog, window);
    lemma_within(catalog, window);
    lemma_newest_first_of(found);
    assert forall|k: int| 0 <= k < taken.len() implies {
        &&& window.contains((#[trigger] taken[k]).created_at)
        &&& catalog.contains(taken[k])
    } by {
        assert(arranged[k] == taken[k]);
        assert(arranged.contains(taken[k]));
        vstd::seq_lib::to_multiset_contains(arranged, taken[k]);
        vstd::seq_lib::to_multiset_contains(found, taken[k]);
        assert(found.contains(taken[k]));
    }
    assert forall|i: int, j: int| 0 <= i < j < taken.len() implies taken[i].created_at.micros
        >= taken[j].created_at.micros by {
        assert(arranged[i] == taken[i] && arranged[j] == taken[j]);
    }
    assert forall|release: ReleaseView, k: int|
        #![trigger taken[k], found.to_multiset().count(release)]
        0 <= k < taken.len() && found.to_multiset().count(release) > taken.to_multiset().count(
            release,
        ) implies release.created_at.micros <= taken[k].created_at.micros by {
        let rest = arranged.skip(taken.len() as int);
        assert(arranged =~= taken + rest);
        vstd::seq_lib::lemma_multiset_commutative(taken, rest);
        assert(rest.to_multiset().count(release) > 0);
        vstd::seq_lib::to_multiset_contains(rest, release);
        let at = choose|m: int| 0 <= m < rest.len() && rest[m] == release;
        assert(arranged[taken.len() + at] == release);
        assert(arranged[k] == taken[k]);
    }
}

/// Takes up the releases of `catalog` that lie in `window`: the most recent
/// first, releases of one moment in the catalog's order, and no more than
/// [`BATCH_LIMIT`]. The batch is marked as truncated where the window held
/// more than that.
pub fn releases_in_window(catalog: &Vec<ReleaseEvent>, window: &Window) -> (batch: Batch)
    ensures
        release_views(batch.releases@) == selection(release_views(catalog@), *window),
        batch.truncated == (within(release_views(catalog@), *window).len() > BATCH_LIMIT),
        newest_first(release_views(batch.releases@)),
        forall|k: int|
            0 <= k < batch.releases@.len() ==> window.contains(
                (#[trigger] batch.releases@[k]).created_at,
            ),
        !batch.truncated ==> release_views(batch.releases@).to_multiset() == within(
            release_views(catalog@),
            *window,
        ).to_multiset(),
        batch.truncated ==> batch.releases@.len() == BATCH_LIMIT,
{
    let mut arranged: Vec<ReleaseEvent> = Vec::new();
    let mut seen: usize = 0;
    assert(release_views(catalog@).take(0) =~= Seq::empty());
    assert(release_views(arranged@) =~= Seq::empty());
    while seen < catalog.len()
        invariant
            seen <= catalog.len(),
            release_views(arranged@) == newest_first_of(
                within(release_views(catalog@).take(seen as int), *window),
            ),
        decreases catalog.len() - seen,
    {
        let ghost before = release_views(catalog@).take(seen as int);
        let ghost after = release_views(catalog@).take(seen + 1);
        assert(after.drop_last() =~= before);
        assert(after.last() == catalog@[seen as int]@);
        if window.holds(catalog[seen].created_at) {
            let joining = catalog[seen].duplicate();
            let ghost sorted = release_views(arranged@);
            let mut place: usize = arranged.len();
            assert(sorted.take(place as int) =~= sorted);
            while place > 0 && arranged[place - 1].created_at.micros < joining.created_at.micros
                invariant
                    place <= arranged.len(),
                    sorted == release_views(arranged@),
                    place_of(sorted, joining.created_at) == place_of(
                        sorted.take(place as int),
                        joining.created_at,
                    ),
                decreases place,
            {
                assert(sorted.take(place as int).drop_last() =~= sorted.take(place - 1));
                place -= 1;
            }
            assert(place_of(sorted, joining.created_at) == place) by {
                if place > 0 {
                    assert(sorted.take(place as int).last() == arranged@[place - 1]@);
                }
            }
            arranged.insert(place, joining);
            assert(release_views(arranged@) =~= sorted.insert(place as int, joining@));
            proof {
                let found = within(before, *window);
                assert(within(after, *window) == found.push(joining@));
                assert(found.push(joining@).drop_last() =~= found);
            }
        }
        seen += 1;
    }
    assert(release_views(catalog@).take(seen as int) =~= release_views(catalog@));
    proof {
        lemma_newest_first_of(within(release_views(catalog@), *window));
        lemma_selection(release_views(catalog@), *window);
    }
    let truncated = arranged.len() > BATCH_LIMIT;
    if truncated {
        let ghost whole = release_views(arranged@);
        arranged.truncate(BATCH_LIMIT);
        assert(release_views(arranged@) =~= whole.take(BATCH_LIMIT as int));
    }
    assert forall|k: int| 0 <= k < arranged@.len() implies window.contains(
        (#[trigger] arranged@[k]).created_at,
    ) by {
        assert(release_views(arranged@)[k] == arranged@[k]@);
    }
    Batch { releases: arranged, truncated }
}

/// The moment of the most recent release of `catalog`, and none for a catalog
/// without releases.
pub fn latest_release(catalog: &Vec<ReleaseEvent>) -> (latest: Option<Timestamp>)
    ensures
        match latest {
            Some(at) => {
                &&& exists|k: int| 0 <= k < catalog@.len() && catalog@[k].created_at == at
                &&& forall|k: int|
                    0 <= k < catalog@.len() ==> (#[trigger] catalog@[k]).created_at.micros
                        <= at.micros
            },
            None => catalog@.len() == 0,
        },
{
    if catalog.len() == 0 {
        return None;
    }
    let mut latest = catalog[0].created_at;
    let mut seen: usize = 1;
    while seen < catalog.len()
        invariant
            1 <= seen <= catalog.len(),
            exists|k: int| 0 <= k < seen && catalog@[k].created_at == latest,
            forall|k: int| 0 <= k < seen ==> (#[trigger] catalog@[k]).created_at.micros
                <= latest.micros,
        decreases catalog.len() - seen,
    {
        if catalog[seen].created_at.micros > latest.micros {
            latest = catalog[seen].created_at;
        }
        seen += 1;
    }
    Some(latest)
}

} // verus!
