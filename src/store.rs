//! The ingestion store: repository identities and per-day download records,
//! merged by pointwise maximum so that re-ingestion never loses or doubles data.

use vstd::prelude::*;
use crate::sample::DailySample;

verus! {

/// The schema version this store brings a backing file up to.
pub const SCHEMA_VERSION: u64 = 1;

/// Why a store operation was refused.
#[derive(Clone, Copy, Debug, PartialEq, Eq, Structural)]
pub enum StoreError {
    /// The schema has not been set up: `bootstrap` was never run.
    SchemaMissing,
    /// A download record named a repository identifier that the store never assigned.
    UnknownRepository,
    /// Every repository identifier is already assigned.
    IdentifiersExhausted,
}

/// A tracked repository: its owner and its name.
pub struct Repository {
    pub owner: String,
    pub name: String,
}

/// The merged counters of one repository on one day.
#[derive(Clone, Copy, Debug, PartialEq, Eq, Structural)]
pub struct DownloadRecord {
    pub repo_id: u64,
    pub day: i64,
    pub total: u64,
    pub unique: u64,
}

/// What a store holds, mathematically. A repository's identifier is its
/// position in `repos`; `downloads` maps (repository identifier, day) to the
/// (total, unique) counters.
pub struct StoreView {
    pub schema_version: u64,
    pub repos: Seq<(Seq<char>, Seq<char>)>,
    pub downloads: Map<(u64, i64), (u64, u64)>,
}

/// An in-memory store with the same contract as the relational one.
pub struct CloneStore {
    schema_version: u64,
    repos: Vec<Repository>,
    downloads: Vec<DownloadRecord>,
}

pub open spec fn record_key(r: DownloadRecord) -> (u64, i64) {
    (r.repo_id, r.day)
}

pub open spec fn record_counts(r: DownloadRecord) -> (u64, u64) {
    (r.total, r.unique)
}

/// The map that a list of records with distinct keys stands for.
pub open spec fn records_map(s: Seq<DownloadRecord>) -> Map<(u64, i64), (u64, u64)>
    decreases s.len(),
{
    if s.len() == 0 {
        Map::empty()
    } else {
        records_map(s.drop_last()).insert(record_key(s.last()), record_counts(s.last()))
    }
}

pub open spec fn keys_unique(s: Seq<DownloadRecord>) -> bool {
    forall|i: int, j: int|
        0 <= i < s.len() && 0 <= j < s.len() && i != j ==> record_key(s[i]) != record_key(s[j])
}

pub open spec fn pairs_unique(repos: Seq<(Seq<char>, Seq<char>)>) -> bool {
    forall|i: int, j: int| 0 <= i < repos.len() && 0 <= j < repos.len() && i != j ==> repos[i] != repos[j]
}

pub open spec fn repository_view(r: Repository) -> (Seq<char>, Seq<char>) {
    (r.owner@, r.name@)
}

/// Whether the schema is in place, so that rows can be written.
pub open spec fn is_ready(v: StoreView) -> bool {
    v.schema_version >= SCHEMA_VERSION
}

/// The store after bootstrap: the current schema version where the stored
/// one is below it, every row as it was.
pub open spec fn bootstrapped(v: StoreView) -> StoreView {
    StoreView {
        schema_version: if v.schema_version < SCHEMA_VERSION { SCHEMA_VERSION } else { v.schema_version },
        repos: v.repos,
        downloads: v.downloads,
    }
}

/// The repository list after (owner, name) is made known.
pub open spec fn with_repository(repos: Seq<(Seq<char>, Seq<char>)>, owner: Seq<char>, name: Seq<char>) -> Seq<(Seq<char>, Seq<char>)> {
    if repos.contains((owner, name)) {
        repos
    } else {
        repos.push((owner, name))
    }
}

/// Whether (owner, name) is known or can still be given an identifier.
pub open spec fn can_register(v: StoreView, owner: Seq<char>, name: Seq<char>) -> bool {
    v.repos.contains((owner, name)) || v.repos.len() < u64::MAX
}

/// The identifier of a known (owner, name) pair.
pub open spec fn repository_id(repos: Seq<(Seq<char>, Seq<char>)>, owner: Seq<char>, name: Seq<char>) -> u64 {
    repos.index_of((owner, name)) as u64
}

pub open spec fn max_u64(a: u64, b: u64) -> u64 {
    if a >= b { a } else { b }
}

/// The counters stored for a key after a sample for it is ingested: the
/// sample's own where none were stored, else the maximum per column.
pub open spec fn merged_counts(d: Map<(u64, i64), (u64, u64)>, repo_id: u64, s: DailySample) -> (u64, u64) {
    if d.contains_key((repo_id, s.day)) {
        let c = d[(repo_id, s.day)];
        (max_u64(c.0, s.total), max_u64(c.1, s.unique))
    } else {
        (s.total, s.unique)
    }
}

/// The download map after one sample of a repository is ingested.
pub open spec fn merge_into(d: Map<(u64, i64), (u64, u64)>, repo_id: u64, s: DailySample) -> Map<(u64, i64), (u64, u64)> {
    d.insert((repo_id, s.day), merged_counts(d, repo_id, s))
}

/// The download map after a sequence of samples of a repository is ingested in order.
pub open spec fn merge_all(d: Map<(u64, i64), (u64, u64)>, repo_id: u64, samples: Seq<DailySample>) -> Map<(u64, i64), (u64, u64)>
    decreases samples.len(),
{
    if samples.len() == 0 {
        d
    } else {
        merge_into(merge_all(d, repo_id, samples.drop_last()), repo_id, samples.last())
    }
}

/// The sum of the samples' total counters.
pub open spec fn total_of(samples: Seq<DailySample>) -> nat
    decreases samples.len(),
{
    if samples.len() == 0 {
        0
    } else {
        (total_of(samples.drop_last()) + samples.last().total) as nat
    }
}

/// What ingesting a fetched report of (owner, name) returns.
pub open spec fn clones_result(v: StoreView, owner: Seq<char>, name: Seq<char>, samples: Seq<DailySample>) -> Result<u64, StoreError> {
    if samples.len() == 0 {
        Ok(0)
    } else if !is_ready(v) {
        Err(StoreError::SchemaMissing)
    } else if !can_register(v, owner, name) {
        Err(StoreError::IdentifiersExhausted)
    } else {
        Ok(saturated(total_of(samples)))
    }
}

/// The store after ingesting a fetched report of (owner, name): unchanged
/// when the report is empty or refused, else with the repository known and
/// every sample merged under its identifier.
pub open spec fn clones_state(v: StoreView, owner: Seq<char>, name: Seq<char>, samples: Seq<DailySample>) -> StoreView {
    if samples.len() == 0 || !is_ready(v) || !can_register(v, owner, name) {
        v
    } else {
        let repos = with_repository(v.repos, owner, name);
        StoreView {
            schema_version: v.schema_version,
            repos,
            downloads: merge_all(v.downloads, repository_id(repos, owner, name), samples),
        }
    }
}

/// A count held in a `u64`, stopping at its largest value.
pub open spec fn saturated(n: nat) -> u64 {
    if n <= u64::MAX { n as u64 } else { u64::MAX }
}

proof fn lemma_records_map_at(s: Seq<DownloadRecord>, i: int)
    requires
        keys_unique(s),
        0 <= i < s.len(),
    ensures
        records_map(s).contains_key(record_key(s[i])),
        records_map(s)[record_key(s[i])] == record_counts(s[i]),
    decreases s.len(),
{
    if i < s.len() - 1 {
        let t = s.drop_last();
        assert(record_key(s[i]) != record_key(s[s.len() - 1]));
        assert(t[i] == s[i]);
        lemma_records_map_at(t, i);
    }
}

proof fn lemma_records_map_absent(s: Seq<DownloadRecord>, k: (u64, i64))
    requires
        forall|i: int| 0 <= i < s.len() ==> record_key(#[trigger] s[i]) != k,
    ensures
        !records_map(s).contains_key(k),
    decreases s.len(),
{
    if s.len() > 0 {
        let t = s.drop_last();
        assert forall|i: int| 0 <= i < t.len() implies record_key(#[trigger] t[i]) != k by {
            assert(t[i] == s[i]);
        }
        lemma_records_map_absent(t, k);
    }
}

proof fn lemma_records_map_update(s: Seq<DownloadRecord>, i: int, r: DownloadRecord)
    requires
        keys_unique(s),
        0 <= i < s.len(),
        record_key(r) == record_key(s[i]),
    ensures
        records_map(s.update(i, r)) == records_map(s).insert(record_key(r), record_counts(r)),
    decreases s.len(),
{
    let u = s.update(i, r);
    let t = s.drop_last();
    if i == s.len() - 1 {
        assert(u.drop_last() =~= t);
        assert(records_map(u) =~= records_map(s).insert(record_key(r), record_counts(r)));
    } else {
        assert(u.drop_last() =~= t.update(i, r));
        assert(record_key(s[i]) != record_key(s[s.len() - 1]));
        lemma_records_map_update(t, i, r);
        assert(records_map(u) =~= records_map(s).insert(record_key(r), record_counts(r)));
    }
}

impl View for CloneStore {
    type V = StoreView;

    closed spec fn view(&self) -> StoreView {
        StoreView {
            schema_version: self.schema_version,
            repos: self.repos@.map_values(|r: Repository| repository_view(r)),
            downloads: records_map(self.downloads@),
        }
    }
}

impl CloneStore {
    /// The store's internal consistency: identities and record keys are
    /// unique, and every record belongs to a known repository.
    pub closed spec fn wf(&self) -> bool {
        &&& keys_unique(self.downloads@)
        &&& pairs_unique(self@.repos)
        &&& forall|i: int|
            0 <= i < self.downloads@.len() ==> (#[trigger] self.downloads@[i]).repo_id < self.repos@.len()
        &&& self.repos@.len() <= u64::MAX
    }

    /// A store over a fresh, empty backing file: no schema, no rows.
    pub fn new() -> (r: CloneStore)
        ensures
            r.wf(),
            r@.schema_version == 0,
            r@.repos == Seq::<(Seq<char>, Seq<char>)>::empty(),
            r@.downloads == Map::<(u64, i64), (u64, u64)>::empty(),
    {
        let r = CloneStore { schema_version: 0, repos: Vec::new(), downloads: Vec::new() };
        assert(r@.repos =~= Seq::<(Seq<char>, Seq<char>)>::empty());
        r
    }

    /// Ensures the schema exists: where the stored version is below the
    /// current one the tables are set up and the current version recorded;
    /// an up-to-date store is left as it is. Rows are never touched.
    pub fn bootstrap(&mut self)
        requires
            old(self).wf(),
        ensures
            final(self).wf(),
            final(self)@ == bootstrapped(old(self)@),
    {
        if self.schema_version < SCHEMA_VERSION {
            self.schema_version = SCHEMA_VERSION;
        }
    }

    /// The recorded schema version; 0 before the first bootstrap.
    pub fn schema_version(&self) -> (r: u64)
        ensures
            r == self@.schema_version,
    {
        self.schema_version
    }

    /// The number of known repositories.
    pub fn repository_count(&self) -> (r: usize)
        ensures
            r == self@.repos.len(),
    {
        self.repos.len()
    }

    /// The position of (owner, name) among the known repositories, if any.
    fn find_repository(&self, owner: &String, name: &String) -> (r: Option<usize>)
        ensures
            match r {
                Some(i) => i < self@.repos.len() && self@.repos[i as int] == (owner@, name@),
                None => !self@.repos.contains((owner@, name@)),
            },
    {
        let mut i: usize = 0;
        assert(self@.repos.len() == self.repos@.len());
        while i < self.repos.len()
            invariant
                i <= self.repos@.len(),
                self@.repos.len() == self.repos@.len(),
                forall|j: int| 0 <= j < i ==> self@.repos[j] != (owner@, name@),
            decreases self.repos@.len() - i,
        {
            let same = self.repos[i].owner == *owner && self.repos[i].name == *name;
            assert(self@.repos[i as int] == repository_view(self.repos@[i as int]));
            if same {
                return Some(i);
            }
            i = i + 1;
        }
        None
    }

    /// The identifier of (owner, name), without registering it.
    pub fn lookup_repository(&self, owner: &str, name: &str) -> (r: Option<u64>)
        requires
            self.wf(),
        ensures
            r is Some <==> self@.repos.contains((owner@, name@)),
            r is Some ==> r->0 == repository_id(self@.repos, owner@, name@),
    {
        let o = owner.to_owned();
        let n = name.to_owned();
        match self.find_repository(&o, &n) {
            Some(i) => {
                proof { self.lemma_id_is_index(owner@, name@, i as int); }
                Some(i as u64)
            },
            None => None,
        }
    }

    /// The identifier of (owner, name), registering the pair first when it is
    /// new. A known pair keeps its identifier and nothing changes; a new one
    /// gets the next identifier. Refused while the schema is missing.
    pub fn ensure_repository(&mut self, owner: &str, name: &str) -> (r: Result<u64, StoreError>)
        requires
            old(self).wf(),
        ensures
            final(self).wf(),
            pairs_unique(final(self)@.repos),
            !is_ready(old(self)@) ==> r == Err::<u64, StoreError>(StoreError::SchemaMissing) && final(self)@ == old(self)@,
            is_ready(old(self)@) && !can_register(old(self)@, owner@, name@) ==> r == Err::<u64, StoreError>(
                StoreError::IdentifiersExhausted,
            ) && final(self)@ == old(self)@,
            is_ready(old(self)@) && can_register(old(self)@, owner@, name@) ==> {
                &&& r is Ok
                &&& final(self)@.schema_version == old(self)@.schema_version
                &&& final(self)@.repos == with_repository(old(self)@.repos, owner@, name@)
                &&& final(self)@.downloads == old(self)@.downloads
                &&& (r->Ok_0 as int) < final(self)@.repos.len()
                &&& final(self)@.repos[r->Ok_0 as int] == (owner@, name@)
                &&& r->Ok_0 == repository_id(final(self)@.repos, owner@, name@)
            },
    {
        if self.schema_version < SCHEMA_VERSION {
            return Err(StoreError::SchemaMissing);
        }
        let o = owner.to_owned();
        let n = name.to_owned();
        match self.find_repository(&o, &n) {
            Some(i) => {
                proof { self.lemma_id_is_index(owner@, name@, i as int); }
                Ok(i as u64)
            },
            None => {
                if self.repos.len() as u64 == u64::MAX {
                    return Err(StoreError::IdentifiersExhausted);
                }
                let ghost before = self@;
                let id = self.repos.len();
                self.repos.push(Repository { owner: o, name: n });
                proof {
                    assert(self@.repos =~= before.repos.push((owner@, name@)));
                    assert forall|a: int, b: int|
                        0 <= a < self@.repos.len() && 0 <= b < self@.repos.len() && a != b
                        implies self@.repos[a] != self@.repos[b] by {
                        if a < before.repos.len() && b < before.repos.len() {
                            assert(self@.repos[a] == before.repos[a]);
                            assert(self@.repos[b] == before.repos[b]);
                        } else if a < before.repos.len() {
                            assert(self@.repos[a] == before.repos[a]);
                        } else if b < before.repos.len() {
                            assert(self@.repos[b] == before.repos[b]);
                        }
                    }
                    assert(self@.downloads == before.downloads);
                    self.lemma_id_is_index(owner@, name@, id as int);
                }
                Ok(id as u64)
            },
        }
    }

    /// The position of the record keyed (repo_id, day), if any.
    fn find_record(&self, repo_id: u64, day: i64) -> (r: Option<usize>)
        ensures
            match r {
                Some(i) => i < self.downloads@.len() && record_key(self.downloads@[i as int]) == (
                repo_id,
                day,
                ),
                None => forall|j: int|
                    0 <= j < self.downloads@.len() ==> record_key(#[trigger] self.downloads@[j]) != (
                    repo_id,
                    day,
                    ),
            },
    {
        let mut i: usize = 0;
        while i < self.downloads.len()
            invariant
                i <= self.downloads@.len(),
                forall|j: int|
                    0 <= j < i ==> record_key(#[trigger] self.downloads@[j]) != (repo_id, day),
            decreases self.downloads@.len() - i,
        {
            if self.downloads[i].repo_id == repo_id && self.downloads[i].day == day {
                return Some(i);
            }
            i = i + 1;
        }
        None
    }

    /// Merges one day's counters into the record of (repo_id, sample.day):
    /// inserted as they are when no record exists, else each stored counter
    /// becomes the larger of the stored and the incoming value.
    pub fn merge_sample(&mut self, repo_id: u64, sample: DailySample) -> (r: Result<(), StoreError>)
        requires
            old(self).wf(),
        ensures
            final(self).wf(),
            !is_ready(old(self)@) ==> r == Err::<(), StoreError>(StoreError::SchemaMissing) && final(self)@ == old(self)@,
            is_ready(old(self)@) && repo_id >= old(self)@.repos.len() ==> r == Err::<(), StoreError>(
                StoreError::UnknownRepository,
            ) && final(self)@ == old(self)@,
            is_ready(old(self)@) && repo_id < old(self)@.repos.len() ==> {
                &&& r is Ok
                &&& final(self)@.schema_version == old(self)@.schema_version
                &&& final(self)@.repos == old(self)@.repos
                &&& final(self)@.downloads == merge_into(old(self)@.downloads, repo_id, sample)
            },
    {
        if self.schema_version < SCHEMA_VERSION {
            return Err(StoreError::SchemaMissing);
        }
        if repo_id as usize >= self.repos.len() || repo_id >= self.repos.len() as u64 {
            return Err(StoreError::UnknownRepository);
        }
        let ghost before = self@;
        let ghost old_list = self.downloads@;
        match self.find_record(repo_id, sample.day) {
            Some(i) => {
                let cur = self.downloads[i];
                let total = if cur.total >= sample.total { cur.total } else { sample.total };
                let unique = if cur.unique >= sample.unique { cur.unique } else { sample.unique };
                let rec = DownloadRecord { repo_id, day: sample.day, total, unique };
                self.downloads.set(i, rec);
                proof {
                    lemma_records_map_at(old_list, i as int);
                    lemma_records_map_update(old_list, i as int, rec);
                    assert(self.downloads@ == old_list.update(i as int, rec));
                    assert forall|a: int, b: int|
                        0 <= a < self.downloads@.len() && 0 <= b < self.downloads@.len() && a != b
                        implies record_key(self.downloads@[a]) != record_key(self.downloads@[b]) by {
                        assert(record_key(old_list[a]) != record_key(old_list[b]));
                    }
                    assert forall|j: int| 0 <= j < self.downloads@.len()
                        implies (#[trigger] self.downloads@[j]).repo_id < self.repos@.len() by {
                        assert(old_list[j].repo_id < self.repos@.len());
                    }
                }
            },
            None => {
                let rec = DownloadRecord { repo_id, day: sample.day, total: sample.total, unique: sample.unique };
                self.downloads.push(rec);
                proof {
                    lemma_records_map_absent(old_list, (repo_id, sample.day));
                    assert(self.downloads@.drop_last() =~= old_list);
                    assert forall|a: int, b: int|
                        0 <= a < self.downloads@.len() && 0 <= b < self.downloads@.len() && a != b
                        implies record_key(self.downloads@[a]) != record_key(self.downloads@[b]) by {
                        if a < old_list.len() && b < old_list.len() {
                            assert(record_key(old_list[a]) != record_key(old_list[b]));
                        } else if a < old_list.len() {
                            assert(record_key(old_list[a]) != (repo_id, sample.day));
                        } else if b < old_list.len() {
                            assert(record_key(old_list[b]) != (repo_id, sample.day));
                        }
                    }
                    assert forall|j: int| 0 <= j < self.downloads@.len()
                        implies (#[trigger] self.downloads@[j]).repo_id < self.repos@.len() by {
                        if j < old_list.len() {
                            assert(old_list[j].repo_id < self.repos@.len());
                        }
                    }
                }
            },
        }
        proof {
            assert(self@.repos == before.repos);
        }
        Ok(())
    }

    /// The stored (total, unique) counters of (repo_id, day), if any.
    pub fn counts(&self, repo_id: u64, day: i64) -> (r: Option<(u64, u64)>)
        requires
            self.wf(),
        ensures
            r is Some <==> self@.downloads.contains_key((repo_id, day)),
            r is Some ==> r->0 == self@.downloads[(repo_id, day)],
    {
        match self.find_record(repo_id, day) {
            Some(i) => {
                proof { lemma_records_map_at(self.downloads@, i as int); }
                Some((self.downloads[i].total, self.downloads[i].unique))
            },
            None => {
                proof { lemma_records_map_absent(self.downloads@, (repo_id, day)); }
                None
            },
        }
    }

    /// Every stored record, each key once.
    pub fn records(&self) -> (r: Vec<DownloadRecord>)
        requires
            self.wf(),
        ensures
            keys_unique(r@),
            records_map(r@) == self@.downloads,
    {
        let mut out: Vec<DownloadRecord> = Vec::new();
        let mut i: usize = 0;
        while i < self.downloads.len()
            invariant
                i <= self.downloads@.len(),
                out@ == self.downloads@.subrange(0, i as int),
            decreases self.downloads@.len() - i,
        {
            out.push(self.downloads[i]);
            i = i + 1;
            assert(out@ =~= self.downloads@.subrange(0, i as int));
        }
        assert(out@ =~= self.downloads@);
        out
    }

    /// Ingests a fetched report of one repository: for each sample in order,
    /// the repository is made known and the sample merged. Returns the sum of
    /// the samples' total counters (stopping at `u64::MAX`). An empty report
    /// changes nothing, not even the repository list.
    pub fn record_clones(&mut self, owner: &str, name: &str, samples: &Vec<DailySample>) -> (r: Result<u64, StoreError>)
        requires
            old(self).wf(),
        ensures
            final(self).wf(),
            pairs_unique(final(self)@.repos),
            r == clones_result(old(self)@, owner@, name@, samples@),
            final(self)@ == clones_state(old(self)@, owner@, name@, samples@),
    {
        let ghost start = self@;
        let mut total: u64 = 0;
        let mut i: usize = 0;
        while i < samples.len()
            invariant
                i <= samples@.len(),
                self.wf(),
                start == old(self)@,
                i == 0 ==> self@ == start && total == 0,
                i > 0 ==> {
                    &&& is_ready(start)
                    &&& can_register(start, owner@, name@)
                    &&& self@.schema_version == start.schema_version
                    &&& self@.repos == with_repository(start.repos, owner@, name@)
                    &&& self@.repos.contains((owner@, name@))
                    &&& self@.downloads == merge_all(
                        start.downloads,
                        repository_id(self@.repos, owner@, name@),
                        samples@.subrange(0, i as int),
                    )
                    &&& total == saturated(total_of(samples@.subrange(0, i as int)))
                },
            decreases samples@.len() - i,
        {
            let ghost before = self@;
            let id = match self.ensure_repository(owner, name) {
                Ok(id) => id,
                Err(e) => {
                    proof {
                        if i > 0 {
                            assert(is_ready(before));
                            assert(can_register(before, owner@, name@));
                        }
                        assert(self@ == start);
                    }
                    return Err(e);
                },
            };
            let sample = samples[i];
            let merged = self.merge_sample(id, sample);
            assert(merged is Ok);
            total = total.saturating_add(sample.total);
            proof {
                let pre = samples@.subrange(0, i as int);
                let next = samples@.subrange(0, i as int + 1);
                assert(next.drop_last() =~= pre);
                assert(next.last() == sample);
                assert(self@.repos.contains((owner@, name@))) by {
                    assert(self@.repos[id as int] == (owner@, name@));
                }
                if i == 0 {
                    assert(pre =~= Seq::<DailySample>::empty());
                } else {
                    assert(before.repos.contains((owner@, name@)));
                    assert(with_repository(before.repos, owner@, name@) == before.repos);
                }
                assert(self@.repos == with_repository(start.repos, owner@, name@));
                assert(id == repository_id(self@.repos, owner@, name@));
                assert(merge_all(start.downloads, id, pre) == before.downloads);
                assert(merge_all(start.downloads, id, next) == merge_into(
                    merge_all(start.downloads, id, pre),
                    id,
                    sample,
                ));
                assert(total_of(next) == total_of(pre) + sample.total);
                assert(total == saturated(total_of(next)));
            }
            i = i + 1;
        }
        proof {
            assert(samples@.subrange(0, samples@.len() as int) =~= samples@);
        }
        Ok(total)
    }

    proof fn lemma_id_is_index(&self, owner: Seq<char>, name: Seq<char>, i: int)
        requires
            self.wf(),
            0 <= i < self@.repos.len(),
            self@.repos[i] == (owner, name),
        ensures
            repository_id(self@.repos, owner, name) == i as u64,
            self@.repos.index_of((owner, name)) == i,
    {
        let j = self@.repos.index_of((owner, name));
        assert(self@.repos.contains((owner, name)));
        assert(0 <= j < self@.repos.len() && self@.repos[j] == (owner, name));
    }
}

} // verus!
