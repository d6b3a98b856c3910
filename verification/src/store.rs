//! The review record upserter: what the tracking store holds, and how a
//! resolved release enters it.

use vstd::prelude::*;
use vstd::string::StrSliceExecFns;
use crate::catalog::{ReleaseEvent, ReleaseView};
use crate::error::SyncError;
use crate::text::same_text;
use crate::window::Timestamp;

verus! {

/// The store takes a package name, a version or a previous version only
/// where it has fewer characters than this.
pub const TEXT_LIMIT: usize = 100;

/// The tracking entity of one release.
#[derive(Debug, PartialEq, Eq)]
pub struct ReviewRecord {
    pub package_name: String,
    pub version: String,
    pub created_at: Timestamp,
    /// The version that preceded `version` in the package's history when the
    /// record was written; none for the earliest version.
    pub previous_version: Option<String>,
    pub reviewed: bool,
    pub reviewer_ids: Vec<i32>,
}

/// The mathematical content of a [`ReviewRecord`].
pub ghost struct RecordView {
    pub package_name: Seq<char>,
    pub version: Seq<char>,
    pub created_at: Timestamp,
    pub previous_version: Option<Seq<char>>,
    pub reviewed: bool,
    pub reviewer_ids: Seq<i32>,
}

/// What identifies a record: no two records of a store agree in all three.
pub ghost struct RecordKey {
    pub package_name: Seq<char>,
    pub version: Seq<char>,
    pub created_at: Timestamp,
}

impl RecordView {
    pub open spec fn key(self) -> RecordKey {
        RecordKey {
            package_name: self.package_name,
            version: self.version,
            created_at: self.created_at,
        }
    }

    /// The texts of the record are as short as the store demands.
    pub open spec fn admissible(self) -> bool {
        &&& self.package_name.len() < TEXT_LIMIT
        &&& self.version.len() < TEXT_LIMIT
        &&& self.previous_version matches Some(previous) ==> previous.len() < TEXT_LIMIT
    }
}

impl View for ReviewRecord {
    type V = RecordView;

    open spec fn view(&self) -> RecordView {
        RecordView {
            package_name: self.package_name@,
            version: self.version@,
            created_at: self.created_at,
            previous_version: match self.previous_version {
                Some(previous) => Some(previous@),
                None => None,
            },
            reviewed: self.reviewed,
            reviewer_ids: self.reviewer_ids@,
        }
    }
}

/// A release together with its resolved predecessor: what a pass hands to
/// the store.
#[derive(Debug, PartialEq, Eq)]
pub struct ResolvedRelease {
    pub release: ReleaseEvent,
    pub previous_version: Option<String>,
}

/// The mathematical content of a [`ResolvedRelease`].
pub ghost struct ResolvedView {
    pub release: ReleaseView,
    pub previous_version: Option<Seq<char>>,
}

impl View for ResolvedRelease {
    type V = ResolvedView;

    open spec fn view(&self) -> ResolvedView {
        ResolvedView {
            release: self.release@,
            previous_version: match self.previous_version {
                Some(previous) => Some(previous@),
                None => None,
            },
        }
    }
}

/// The key under which the store knows a release.
pub open spec fn key_of(release: ReleaseView) -> RecordKey {
    RecordKey {
        package_name: release.package_name,
        version: release.version,
        created_at: release.created_at,
    }
}

/// The record that a resolved release becomes: not yet reviewed, by nobody.
pub open spec fn fresh_record(resolved: ResolvedView) -> RecordView {
    RecordView {
        package_name: resolved.release.package_name,
        version: resolved.release.version,
        created_at: resolved.release.created_at,
        previous_version: resolved.previous_version,
        reviewed: false,
        reviewer_ids: Seq::empty(),
    }
}

/// The content of each record of a list, in the list's order.
pub open spec fn record_views(records: Seq<ReviewRecord>) -> Seq<RecordView> {
    records.map_values(|record: ReviewRecord| record@)
}

/// Some record of `records` has the key `key`.
pub open spec fn holds_key(records: Seq<RecordView>, key: RecordKey) -> bool {
    exists|i: int| 0 <= i < records.len() && (#[trigger] records[i]).key() == key
}

/// No two records have the same key.
pub open spec fn distinct_keys(records: Seq<RecordView>) -> bool {
    forall|i: int, j: int|
        0 <= i < j < records.len() ==> (#[trigger] records[i]).key() != (#[trigger] records[j]).key()
}

/// Every record is as short as the store demands.
pub open spec fn all_admissible(records: Seq<RecordView>) -> bool {
    forall|i: int| 0 <= i < records.len() ==> (#[trigger] records[i]).admissible()
}

/// The store after it was handed `resolved`: a store that knows the
/// release's key stays as it is, as does one that is handed a record it
/// cannot take; any other gains the fresh record at its end.
pub open spec fn upserted(records: Seq<RecordView>, resolved: ResolvedView) -> Seq<RecordView> {
    let record = fresh_record(resolved);
    if record.admissible() && !holds_key(records, key_of(resolved.release)) {
        records.push(record)
    } else {
        records
    }
}

/// The store after it was handed each release of `pass` in turn.
pub open spec fn applied(records: Seq<RecordView>, pass: Seq<ResolvedView>) -> Seq<RecordView>
    decreases pass.len(),
{
    if pass.len() == 0 {
        records
    } else {
        upserted(applied(records, pass.drop_last()), pass.last())
    }
}

/// An upsert leaves every record that the store held as it was, adds at most
/// one, and keeps the keys distinct.
pub proof fn lemma_upsert_keeps_records(records: Seq<RecordView>, resolved: ResolvedView)
    ensures
        upserted(records, resolved).len() >= records.len(),
        upserted(records, resolved).take(records.len() as int) == records,
        distinct_keys(records) ==> distinct_keys(upserted(records, resolved)),
        all_admissible(records) ==> all_admissible(upserted(records, resolved)),
        forall|key: RecordKey|
            holds_key(records, key) ==> #[trigger] holds_key(upserted(records, resolved), key),
        fresh_record(resolved).admissible() ==> holds_key(
            upserted(records, resolved),
            key_of(resolved.release),
        ),
{
    let after = upserted(records, resolved);
    assert(after.take(records.len() as int) =~= records);
    assert forall|key: RecordKey| holds_key(records, key) implies #[trigger] holds_key(
        after,
        key,
    ) by {
        let at = choose|i: int| 0 <= i < records.len() && (#[trigger] records[i]).key() == key;
        assert(after[at].key() == key);
    }
    if fresh_record(resolved).admissible() && !holds_key(records, key_of(resolved.release)) {
        assert(after[records.len() as int].key() == key_of(resolved.release));
        if distinct_keys(records) {
            assert forall|i: int, j: int| 0 <= i < j < after.len() implies (#[trigger] after[i]).key()
                != (#[trigger] after[j]).key() by {
                if j == records.len() {
                    assert(records[i].key() != key_of(resolved.release));
                } else {
                    assert(records[i].key() != records[j].key());
                }
            }
        }
    }
}

/// A release whose key the store knows changes nothing, whatever predecessor
/// it comes with.
pub proof fn lemma_known_release_is_ignored(records: Seq<RecordView>, resolved: ResolvedView)
    requires
        holds_key(records, key_of(resolved.release)),
    ensures
        upserted(records, resolved) == records,
{
}

/// A pass leaves every record that the store held as it was and keeps the
/// keys distinct; afterwards the store knows each release of the pass that
/// it could take.
pub proof fn lemma_pass_keeps_records(records: Seq<RecordView>, pass: Seq<ResolvedView>)
    ensures
        applied(records, pass).len() >= records.len(),
        applied(records, pass).take(records.len() as int) == records,
        distinct_keys(records) ==> distinct_keys(applied(records, pass)),
        all_admissible(records) ==> all_admissible(applied(records, pass)),
        forall|key: RecordKey|
            holds_key(records, key) ==> #[trigger] holds_key(applied(records, pass), key),
        forall|i: int|
            0 <= i < pass.len() && fresh_record(#[trigger] pass[i]).admissible() ==> holds_key(
                applied(records, pass),
                key_of(pass[i].release),
            ),
    decreases pass.len(),
{
    if pass.len() == 0 {
        assert(records.take(records.len() as int) =~= records);
    } else {
        let front = pass.drop_last();
        let before = applied(records, front);
        let after = applied(records, pass);
        lemma_pass_keeps_records(records, front);
        lemma_upsert_keeps_records(before, pass.last());
        assert(after.take(records.len() as int) =~= before.take(records.len() as int));
        assert forall|i: int|
            0 <= i < pass.len() && fresh_record(#[trigger] pass[i]).admissible() implies holds_key(
            after,
            key_of(pass[i].release),
        ) by {
            if i < front.len() {
                assert(front[i] == pass[i]);
                assert(holds_key(before, key_of(front[i].release)));
            }
        }
    }
}

/// A pass over releases that the store knows, or cannot take, changes
/// nothing.
pub proof fn lemma_pass_over_known_releases(records: Seq<RecordView>, pass: Seq<ResolvedView>)
    requires
        forall|i: int|
            0 <= i < pass.len() ==> !fresh_record(#[trigger] pass[i]).admissible() || holds_key(
                records,
                key_of(pass[i].release),
            ),
    ensures
        applied(records, pass) == records,
    decreases pass.len(),
{
    if pass.len() > 0 {
        let front = pass.drop_last();
        assert forall|i: int| 0 <= i < front.len() implies !fresh_record(
            #[trigger] front[i],
        ).admissible() || holds_key(records, key_of(front[i].release)) by {
            assert(front[i] == pass[i]);
        }
        lemma_pass_over_known_releases(records, front);
        assert(pass.last() == pass[pass.len() - 1]);
    }
}

/// Running a pass a second time changes nothing: the store after two runs is
/// the store after one.
pub proof fn lemma_pass_is_idempotent(records: Seq<RecordView>, pass: Seq<ResolvedView>)
    ensures
        applied(applied(records, pass), pass) == applied(records, pass),
{
    lemma_pass_keeps_records(records, pass);
    lemma_pass_over_known_releases(applied(records, pass), pass);
}

/// A second pass changes nothing where each of its releases was among those
/// of the first and the store took every record of the first, even where
/// the second pass comes with other predecessors: what was written first
/// stays.
pub proof fn lemma_second_pass_changes_nothing(
    records: Seq<RecordView>,
    first: Seq<ResolvedView>,
    second: Seq<ResolvedView>,
)
    requires
        forall|i: int| 0 <= i < first.len() ==> fresh_record(#[trigger] first[i]).admissible(),
        forall|k: int|
            0 <= k < second.len() ==> exists|m: int|
                0 <= m < first.len() && (#[trigger] first[m]).release == (#[trigger] second[k]).release,
    ensures
        applied(applied(records, first), second) == applied(records, first),
{
    lemma_pass_keeps_records(records, first);
    assert forall|k: int| 0 <= k < second.len() implies !fresh_record(
        #[trigger] second[k],
    ).admissible() || holds_key(applied(records, first), key_of(second[k].release)) by {
        let m = choose|m: int|
            0 <= m < first.len() && (#[trigger] first[m]).release == second[k].release;
        assert(fresh_record(first[m]).admissible());
    }
    lemma_pass_over_known_releases(applied(records, first), second);
}

/// Whether a text has fewer characters than the store's limit.
fn short_enough(text: &String) -> (short: bool)
    ensures
        short == (text@.len() < TEXT_LIMIT),
{
    text.as_str().unicode_len() < TEXT_LIMIT
}

impl ReviewRecord {
    /// Whether the record's texts are as short as the store demands.
    pub fn is_admissible(&self) -> (admissible: bool)
        ensures
            admissible == self@.admissible(),
    {
        short_enough(&self.package_name) && short_enough(&self.version)
            && match &self.previous_version {
            Some(previous) => short_enough(previous),
            None => true,
        }
    }

    /// Whether the two records have the same key.
    pub fn same_key(&self, other: &ReviewRecord) -> (same: bool)
        ensures
            same == (self@.key() == other@.key()),
    {
        self.created_at.micros == other.created_at.micros && same_text(
            self.package_name.as_str(),
            other.package_name.as_str(),
        ) && same_text(self.version.as_str(), other.version.as_str())
    }

    /// Whether the record has the key of `release`.
    pub fn is_for(&self, release: &ReleaseEvent) -> (same: bool)
        ensures
            same == (self@.key() == key_of(release@)),
    {
        self.created_at.micros == release.created_at.micros && same_text(
            self.package_name.as_str(),
            release.package_name.as_str(),
        ) && same_text(self.version.as_str(), release.version.as_str())
    }
}

/// The tracking store: review records, no two of them with the same package
/// name, version and moment of release.
pub struct ReviewStore {
    records: Vec<ReviewRecord>,
}

impl View for ReviewStore {
    type V = Seq<RecordView>;

    closed spec fn view(&self) -> Seq<RecordView> {
        record_views(self.records@)
    }
}

impl ReviewStore {
    #[verifier::type_invariant]
    spec fn sound(self) -> bool {
        distinct_keys(self@) && all_admissible(self@)
    }

    /// A store without records.
    pub fn new() -> (store: ReviewStore)
        ensures
            store@ == Seq::<RecordView>::empty(),
    {
        let store = ReviewStore { records: Vec::new() };
        assert(store@ =~= Seq::<RecordView>::empty());
        store
    }

    /// A store that holds `records`, in their order. There is none where two
    /// of the records have the same key or one of them is longer than the
    /// store demands.
    pub fn from_records(records: Vec<ReviewRecord>) -> (store: Option<ReviewStore>)
        ensures
            match store {
                Some(loaded) => loaded@ == record_views(records@) && distinct_keys(loaded@)
                    && all_admissible(loaded@),
                None => !distinct_keys(record_views(records@)) || !all_admissible(
                    record_views(records@),
                ),
            },
    {
        let ghost views = record_views(records@);
        let mut checked: usize = 0;
        while checked < records.len()
            invariant
                checked <= records.len(),
                views == record_views(records@),
                all_admissible(views.take(checked as int)),
                distinct_keys(views.take(checked as int)),
            decreases records.len() - checked,
        {
            if !records[checked].is_admissible() {
                assert(!views[checked as int].admissible());
                return None;
            }
            let mut earlier: usize = 0;
            while earlier < checked
                invariant
                    earlier <= checked < records.len(),
                    views == record_views(records@),
                    forall|k: int|
                        0 <= k < earlier ==> (#[trigger] views[k]).key() != views[checked as int].key(),
                decreases checked - earlier,
            {
                if records[earlier].same_key(&records[checked]) {
                    assert(views[earlier as int].key() == views[checked as int].key());
                    return None;
                }
                earlier += 1;
            }
            proof {
                let grown = views.take(checked + 1);
                let so_far = views.take(checked as int);
                assert forall|i: int, j: int| 0 <= i < j < grown.len() implies (
                #[trigger] grown[i]).key() != (#[trigger] grown[j]).key() by {
                    if j < checked {
                        assert(so_far[i].key() != so_far[j].key());
                    }
                }
                assert forall|i: int| 0 <= i < grown.len() implies (
                #[trigger] grown[i]).admissible() by {
                    if i < checked {
                        assert(so_far[i].admissible());
                    }
                }
            }
            checked += 1;
        }
        assert(views.take(checked as int) =~= views);
        Some(ReviewStore { records })
    }

    /// The number of records.
    pub fn len(&self) -> (count: usize)
        ensures
            count == self@.len(),
    {
        self.records.len()
    }

    /// The records, in the order in which they entered the store.
    pub fn records(&self) -> (records: &Vec<ReviewRecord>)
        ensures
            record_views(records@) == self@,
            distinct_keys(self@),
            all_admissible(self@),
    {
        proof {
            use_type_invariant(self);
        }
        &self.records
    }

    /// The record of `release`, where the store holds one.
    pub fn find(&self, release: &ReleaseEvent) -> (found: Option<&ReviewRecord>)
        ensures
            match found {
                Some(record) => self@.contains(record@) && record@.key() == key_of(release@),
                None => !holds_key(self@, key_of(release@)),
            },
    {
        let mut index: usize = 0;
        while index < self.records.len()
            invariant
                index <= self.records.len(),
                forall|k: int| 0 <= k < index ==> (#[trigger] self@[k]).key() != key_of(release@),
            decreases self.records.len() - index,
        {
            if self.records[index].is_for(release) {
                assert(self@[index as int] == self.records[index as int]@);
                return Some(&self.records[index]);
            }
            index += 1;
        }
        None
    }

    /// Inserts the record of a resolved release, unless the store holds one
    /// for that release already: then the store stays as it is, whatever the
    /// record it holds says. Tells whether a record was inserted. A release
    /// whose texts are longer than the store demands is refused, and the
    /// store stays as it is.
    pub fn upsert(&mut self, resolved: ResolvedRelease) -> (outcome: Result<bool, SyncError>)
        ensures
            final(self)@ == upserted(old(self)@, resolved@),
            distinct_keys(final(self)@),
            match outcome {
                Ok(inserted) => fresh_record(resolved@).admissible() && inserted == !holds_key(
                    old(self)@,
                    key_of(resolved@.release),
                ),
                Err(error) => error == SyncError::Storage && !fresh_record(resolved@).admissible(),
            },
    {
        proof {
            use_type_invariant(&*self);
            lemma_upsert_keeps_records(self@, resolved@);
        }
        let record = ReviewRecord {
            package_name: resolved.release.package_name,
            version: resolved.release.version,
            created_at: resolved.release.created_at,
            previous_version: resolved.previous_version,
            reviewed: false,
            reviewer_ids: Vec::new(),
        };
        assert(record@ == fresh_record(resolved@));
        if !record.is_admissible() {
            return Err(SyncError::Storage);
        }
        let mut index: usize = 0;
        while index < self.records.len()
            invariant
                index <= self.records.len(),
                *self == *old(self),
                record@ == fresh_record(resolved@),
                record@.admissible(),
                distinct_keys(self@),
                forall|k: int| 0 <= k < index ==> (#[trigger] self@[k]).key() != record@.key(),
            decreases self.records.len() - index,
        {
            if self.records[index].same_key(&record) {
                assert(self@[index as int].key() == record@.key());
                return Ok(false);
            }
            index += 1;
        }
        // The records leave the store while the new one joins them, so that
        // the store is never seen with a record half added.
        let ghost before = self@;
        let mut records: Vec<ReviewRecord> = Vec::new();
        core::mem::swap(&mut self.records, &mut records);
        records.push(record);
        assert(record_views(records@) =~= before.push(record@));
        core::mem::swap(&mut self.records, &mut records);
        Ok(true)
    }
}

} // verus!
