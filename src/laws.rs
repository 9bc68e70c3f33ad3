//! Laws of ingestion, stated over the store's view.

use vstd::prelude::*;
use crate::fetch::FetchError;
use crate::run::{fetched_result, fetched_state, tally_after};
use crate::sample::{DailySample, entry_sample, rfc3339_seconds};
use crate::store::{
    StoreView, bootstrapped, clones_state, is_ready, max_u64, merge_all, merge_into, pairs_unique,
    repository_id, with_repository,
};

verus! {

/// Ingesting the same sample twice in a row leaves the store as the first
/// ingestion left it.
pub proof fn lemma_merge_idempotent(d: Map<(u64, i64), (u64, u64)>, repo_id: u64, s: DailySample)
    ensures
        merge_into(merge_into(d, repo_id, s), repo_id, s) == merge_into(d, repo_id, s),
{
    assert(merge_into(merge_into(d, repo_id, s), repo_id, s) =~= merge_into(d, repo_id, s));
}

/// Ingesting a sample never lowers a stored counter nor drops a record.
pub proof fn lemma_merge_monotone(d: Map<(u64, i64), (u64, u64)>, repo_id: u64, s: DailySample, key: (u64, i64))
    requires
        d.contains_key(key),
    ensures
        merge_into(d, repo_id, s).contains_key(key),
        merge_into(d, repo_id, s)[key].0 >= d[key].0,
        merge_into(d, repo_id, s)[key].1 >= d[key].1,
{
}

/// Over any sequence of samples, in any order and with any repetition, every
/// stored counter is at least what it was before.
pub proof fn lemma_merge_all_monotone(d: Map<(u64, i64), (u64, u64)>, repo_id: u64, samples: Seq<DailySample>, key: (u64, i64))
    requires
        d.contains_key(key),
    ensures
        merge_all(d, repo_id, samples).contains_key(key),
        merge_all(d, repo_id, samples)[key].0 >= d[key].0,
        merge_all(d, repo_id, samples)[key].1 >= d[key].1,
    decreases samples.len(),
{
    if samples.len() > 0 {
        lemma_merge_all_monotone(d, repo_id, samples.drop_last(), key);
        lemma_merge_monotone(merge_all(d, repo_id, samples.drop_last()), repo_id, samples.last(), key);
    }
}

/// Two samples of one day, ingested into a day with no record, leave each
/// counter at the larger of the two: columns are maximised independently and
/// the later sample does not simply win.
pub proof fn lemma_merge_pointwise_max(d: Map<(u64, i64), (u64, u64)>, repo_id: u64, a: DailySample, b: DailySample)
    requires
        a.day == b.day,
        !d.contains_key((repo_id, a.day)),
    ensures
        merge_into(merge_into(d, repo_id, a), repo_id, b)[(repo_id, a.day)] == (
            max_u64(a.total, b.total),
            max_u64(a.unique, b.unique),
        ),
{
}

/// The order in which two samples are ingested does not matter.
pub proof fn lemma_merge_commutes(d: Map<(u64, i64), (u64, u64)>, repo_id: u64, a: DailySample, b: DailySample)
    ensures
        merge_into(merge_into(d, repo_id, a), repo_id, b) == merge_into(merge_into(d, repo_id, b), repo_id, a),
{
    assert(merge_into(merge_into(d, repo_id, a), repo_id, b) =~= merge_into(merge_into(d, repo_id, b), repo_id, a));
}

/// Making (owner, name) known twice gives the same list and the same
/// identifier as doing it once; the pair occurs once only, and every
/// repository known before keeps its identifier.
pub proof fn lemma_repository_identity(repos: Seq<(Seq<char>, Seq<char>)>, owner: Seq<char>, name: Seq<char>)
    requires
        pairs_unique(repos),
        repos.len() <= u64::MAX,
        repos.contains((owner, name)) || repos.len() < u64::MAX,
    ensures
        with_repository(repos, owner, name).len() <= u64::MAX,
        with_repository(with_repository(repos, owner, name), owner, name) == with_repository(repos, owner, name),
        pairs_unique(with_repository(repos, owner, name)),
        forall|i: int|
            0 <= i < with_repository(repos, owner, name).len() && with_repository(repos, owner, name)[i] == (owner, name)
                ==> i == repository_id(with_repository(repos, owner, name), owner, name) as int,
        forall|i: int| 0 <= i < repos.len() ==> with_repository(repos, owner, name)[i] == repos[i],
{
    let r = with_repository(repos, owner, name);
    if !repos.contains((owner, name)) {
        assert(r[repos.len() as int] == (owner, name));
        assert forall|a: int, b: int| 0 <= a < r.len() && 0 <= b < r.len() && a != b implies r[a] != r[b] by {
            if a < repos.len() && b < repos.len() {
                assert(r[a] == repos[a] && r[b] == repos[b]);
            } else if a < repos.len() {
                assert(r[a] == repos[a]);
            } else if b < repos.len() {
                assert(r[b] == repos[b]);
            }
        }
    }
    assert(r.contains((owner, name)));
    let j = r.index_of((owner, name));
    assert(0 <= j < r.len() && r[j] == (owner, name));
    assert(repository_id(r, owner, name) as int == j);
}

/// Two timestamps that name the same UTC second, in whatever form, key the
/// same day: the second one's sample merges into the first one's record
/// instead of adding a record.
pub proof fn lemma_same_second_one_record(
    d: Map<(u64, i64), (u64, u64)>,
    repo_id: u64,
    first: (Seq<char>, u64, u64),
    second: (Seq<char>, u64, u64),
)
    requires
        rfc3339_seconds(first.0) is Some,
        rfc3339_seconds(first.0) == rfc3339_seconds(second.0),
    ensures
        entry_sample(first)->0.day == entry_sample(second)->0.day,
        merge_into(merge_into(d, repo_id, entry_sample(first)->0), repo_id, entry_sample(second)->0).dom()
            == merge_into(d, repo_id, entry_sample(first)->0).dom(),
{
    let a = entry_sample(first)->0;
    let b = entry_sample(second)->0;
    assert(merge_into(merge_into(d, repo_id, a), repo_id, b).dom() =~= merge_into(d, repo_id, a).dom());
}

/// Bootstrap always leaves a ready schema, and running it again on what it
/// left changes nothing.
pub proof fn lemma_bootstrap_converges(v: StoreView)
    ensures
        is_ready(bootstrapped(v)),
        bootstrapped(bootstrapped(v)) == bootstrapped(v),
        bootstrapped(v).repos == v.repos,
        bootstrapped(v).downloads == v.downloads,
{
}

/// Ingesting a report of one repository leaves every record of any other
/// repository as it was.
pub proof fn lemma_merge_all_other_repository(
    d: Map<(u64, i64), (u64, u64)>,
    repo_id: u64,
    samples: Seq<DailySample>,
    key: (u64, i64),
)
    requires
        key.0 != repo_id,
    ensures
        merge_all(d, repo_id, samples).contains_key(key) == d.contains_key(key),
        d.contains_key(key) ==> merge_all(d, repo_id, samples)[key] == d[key],
    decreases samples.len(),
{
    if samples.len() > 0 {
        lemma_merge_all_other_repository(d, repo_id, samples.drop_last(), key);
    }
}

/// In a run over repositories a, b and c, where fetching b fails: b's failure
/// changes nothing and adds nothing to the count, c is still ingested, and
/// every record of a (a key whose repository identifier names a) is still
/// there, unchanged, afterwards.
pub proof fn lemma_fetch_failure_isolated(
    v: StoreView,
    a: (Seq<char>, Seq<char>),
    a_samples: Seq<DailySample>,
    b: (Seq<char>, Seq<char>),
    b_error: FetchError,
    c: (Seq<char>, Seq<char>),
    c_samples: Seq<DailySample>,
    total: u64,
    key: (u64, i64),
)
    requires
        pairs_unique(v.repos),
        v.repos.len() <= u64::MAX,
        a != c,
        (key.0 as int) < fetched_state(v, a.0, a.1, Ok(a_samples)).repos.len(),
        fetched_state(v, a.0, a.1, Ok(a_samples)).repos[key.0 as int] == a,
    ensures
        ({
            let v1 = fetched_state(v, a.0, a.1, Ok(a_samples));
            let v2 = fetched_state(v1, b.0, b.1, Err(b_error));
            let v3 = fetched_state(v2, c.0, c.1, Ok(c_samples));
            &&& v2 == v1
            &&& tally_after(total, fetched_result(v1, b.0, b.1, Err(b_error))) == total
            &&& v3 == clones_state(v1, c.0, c.1, c_samples)
            &&& (v1.downloads.contains_key(key) ==> v3.downloads.contains_key(key)
                && v3.downloads[key] == v1.downloads[key])
        }),
{
    let v1 = fetched_state(v, a.0, a.1, Ok(a_samples));
    let v3 = clones_state(v1, c.0, c.1, c_samples);
    if v1 != v {
        lemma_repository_identity(v.repos, a.0, a.1);
    }
    assert(pairs_unique(v1.repos));
    assert(v1.repos.len() <= u64::MAX);
    if v3 != v1 {
        let repos3 = with_repository(v1.repos, c.0, c.1);
        lemma_repository_identity(v1.repos, c.0, c.1);
        let cid = repository_id(repos3, c.0, c.1);
        assert(repos3[key.0 as int] == a);
        lemma_merge_all_other_repository(v1.downloads, cid, c_samples, key);
    }
}

} // verus!
