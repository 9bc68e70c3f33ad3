use repo_stats::fetch::{clones_url, FetchError};
use repo_stats::run::{add_to_tally, IngestError};
use repo_stats::sample::{decode_samples, DailySample};
use repo_stats::schema::needs_bootstrap;
use repo_stats::store::{CloneStore, StoreError, SCHEMA_VERSION};

fn sample(day: i64, total: u64, unique: u64) -> DailySample {
    DailySample { day, total, unique }
}

fn ready_store() -> CloneStore {
    let mut store = CloneStore::new();
    store.bootstrap();
    store
}

#[test]
fn same_sample_twice_leaves_counters_unchanged() {
    let mut store = ready_store();
    let id = store.ensure_repository("octo", "tool").unwrap();
    store.merge_sample(id, sample(86_400, 6, 3)).unwrap();
    let first = store.counts(id, 86_400);
    store.merge_sample(id, sample(86_400, 6, 3)).unwrap();
    assert_eq!(store.counts(id, 86_400), first);
    assert_eq!(first, Some((6, 3)));
    assert_eq!(store.records().len(), 1);
}

#[test]
fn counters_never_decrease() {
    let mut store = ready_store();
    let id = store.ensure_repository("octo", "tool").unwrap();
    let series = [(4, 1), (2, 2), (9, 0), (9, 5), (1, 1), (4, 1)];
    let mut last = (0u64, 0u64);
    for (total, unique) in series {
        store.merge_sample(id, sample(0, total, unique)).unwrap();
        let now = store.counts(id, 0).unwrap();
        assert!(now.0 >= last.0 && now.1 >= last.1);
        last = now;
    }
    assert_eq!(last, (9, 5));
}

#[test]
fn columns_are_maximised_independently() {
    let mut store = ready_store();
    let id = store.ensure_repository("octo", "tool").unwrap();
    store.merge_sample(id, sample(172_800, 10, 2)).unwrap();
    store.merge_sample(id, sample(172_800, 5, 9)).unwrap();
    assert_eq!(store.counts(id, 172_800), Some((10, 9)));
}

#[test]
fn merge_order_does_not_matter() {
    let mut one = ready_store();
    let mut two = ready_store();
    let a = one.ensure_repository("o", "r").unwrap();
    let b = two.ensure_repository("o", "r").unwrap();
    one.merge_sample(a, sample(5, 10, 2)).unwrap();
    one.merge_sample(a, sample(5, 5, 9)).unwrap();
    two.merge_sample(b, sample(5, 5, 9)).unwrap();
    two.merge_sample(b, sample(5, 10, 2)).unwrap();
    assert_eq!(one.counts(a, 5), two.counts(b, 5));
}

#[test]
fn ensure_repository_returns_one_identifier() {
    let mut store = ready_store();
    let first = store.ensure_repository("octo", "tool").unwrap();
    let other = store.ensure_repository("octo", "other").unwrap();
    let again = store.ensure_repository("octo", "tool").unwrap();
    assert_eq!(first, again);
    assert_ne!(first, other);
    assert_eq!(store.repository_count(), 2);
    assert_eq!(store.lookup_repository("octo", "tool"), Some(first));
    assert_eq!(store.lookup_repository("tool", "octo"), None);
}

#[test]
fn same_second_in_two_forms_is_one_record() {
    let a = DailySample::from_entry("2024-01-02T03:04:05Z", 3, 1).unwrap();
    let b = DailySample::from_entry("2024-01-02T05:04:05+02:00", 4, 1).unwrap();
    let c = DailySample::from_entry("2024-01-02T03:04:05.750Z", 2, 2).unwrap();
    assert_eq!(a.day, b.day);
    assert_eq!(a.day, c.day);
    let mut store = ready_store();
    let n = store.record_clones("octo", "tool", &vec![a, b, c]).unwrap();
    assert_eq!(n, 9);
    let records = store.records();
    assert_eq!(records.len(), 1);
    assert_eq!((records[0].total, records[0].unique), (4, 2));
}

#[test]
fn failed_fetch_leaves_other_repositories_alone() {
    let mut store = ready_store();
    let mut total: u64 = 0;
    let a = store.ingest_fetched("o", "a", Ok(vec![sample(0, 3, 1), sample(86_400, 7, 4)]));
    total = add_to_tally(total, &a);
    let a_id = store.lookup_repository("o", "a").unwrap();
    let before = (store.counts(a_id, 0), store.counts(a_id, 86_400));
    let b = store.ingest_fetched(
        "o",
        "b",
        Err(FetchError::Status { url: clones_url("o", "b"), status: 403 }),
    );
    assert!(matches!(b, Err(IngestError::Fetch(FetchError::Status { status: 403, .. }))));
    total = add_to_tally(total, &b);
    assert_eq!(total, 10);
    assert_eq!(store.lookup_repository("o", "b"), None);
    let c = store.ingest_fetched("o", "c", Ok(vec![sample(0, 1, 1)]));
    total = add_to_tally(total, &c);
    assert_eq!(total, 11);
    assert_eq!((store.counts(a_id, 0), store.counts(a_id, 86_400)), before);
    assert_eq!(before, (Some((3, 1)), Some((7, 4))));
    let c_id = store.lookup_repository("o", "c").unwrap();
    assert_eq!(store.counts(c_id, 0), Some((1, 1)));
}

#[test]
fn bootstrap_twice_converges() {
    let mut store = CloneStore::new();
    assert_eq!(store.schema_version(), 0);
    store.bootstrap();
    assert_eq!(store.schema_version(), SCHEMA_VERSION);
    let id = store.ensure_repository("o", "r").unwrap();
    store.merge_sample(id, sample(0, 1, 1)).unwrap();
    store.bootstrap();
    assert_eq!(store.schema_version(), SCHEMA_VERSION);
    assert_eq!(store.repository_count(), 1);
    assert_eq!(store.counts(id, 0), Some((1, 1)));
}

#[test]
fn one_repository_two_days_end_to_end() {
    let entries = vec![
        ("2024-03-01T00:00:00Z".to_string(), 3u64, 1u64),
        ("2024-03-02T00:00:00Z".to_string(), 7u64, 4u64),
    ];
    let samples = decode_samples(&entries).unwrap();
    let mut store = ready_store();
    let mut total: u64 = 0;
    let outcome = store.ingest_fetched("octo", "tool", Ok(samples));
    total = add_to_tally(total, &outcome);
    assert_eq!(total, 10);
    let id = store.lookup_repository("octo", "tool").unwrap();
    let records = store.records();
    assert_eq!(records.len(), 2);
    assert_eq!(store.counts(id, 1_709_251_200), Some((3, 1)));
    assert_eq!(store.counts(id, 1_709_337_600), Some((7, 4)));
}

#[test]
fn empty_report_registers_nothing() {
    let mut store = ready_store();
    assert_eq!(store.record_clones("o", "r", &Vec::new()), Ok(0));
    assert_eq!(store.repository_count(), 0);
}

#[test]
fn writes_before_bootstrap_are_refused() {
    let mut store = CloneStore::new();
    assert_eq!(store.ensure_repository("o", "r"), Err(StoreError::SchemaMissing));
    assert_eq!(store.merge_sample(0, sample(0, 1, 1)), Err(StoreError::SchemaMissing));
    assert_eq!(store.record_clones("o", "r", &vec![sample(0, 1, 1)]), Err(StoreError::SchemaMissing));
    assert_eq!(store.repository_count(), 0);
}

#[test]
fn merge_for_unknown_repository_is_refused() {
    let mut store = ready_store();
    assert_eq!(store.merge_sample(3, sample(0, 1, 1)), Err(StoreError::UnknownRepository));
    assert!(store.records().is_empty());
}

#[test]
fn tally_saturates_and_ignores_failures() {
    assert_eq!(add_to_tally(u64::MAX - 1, &Ok(5)), u64::MAX);
    assert_eq!(add_to_tally(7, &Err(IngestError::Store(StoreError::SchemaMissing))), 7);
    let mut store = ready_store();
    let n = store.record_clones("o", "r", &vec![sample(0, u64::MAX, 0), sample(1, 2, 0)]).unwrap();
    assert_eq!(n, u64::MAX);
}

#[test]
fn timestamps_read_as_utc_seconds() {
    assert_eq!(DailySample::from_entry("1970-01-01T00:01:40Z", 2, 1), Some(sample(100, 2, 1)));
    assert_eq!(DailySample::from_entry("1970-01-01T01:01:40+01:00", 2, 1), Some(sample(100, 2, 1)));
    assert_eq!(DailySample::from_entry("yesterday", 2, 1), None);
}

#[test]
fn day_text_is_canonical_utc() {
    let a = DailySample::from_entry("2024-01-02T05:04:05.123+02:00", 1, 1).unwrap();
    assert_eq!(a.day_text(), Some("2024-01-02T03:04:05Z".to_string()));
    assert_eq!(sample(100, 0, 0).day_text(), Some("1970-01-01T00:01:40Z".to_string()));
    assert_eq!(sample(i64::MAX, 0, 0).day_text(), None);
}

#[test]
fn decode_fails_on_a_bad_timestamp() {
    let entries = vec![
        ("2024-03-01T00:00:00Z".to_string(), 3u64, 1u64),
        ("not a time".to_string(), 7u64, 4u64),
    ];
    assert_eq!(decode_samples(&entries), None);
    assert_eq!(decode_samples(&Vec::new()), Some(Vec::new()));
}

#[test]
fn clones_url_names_the_repository() {
    assert_eq!(clones_url("octo", "tool"), "https://api.github.com/repos/octo/tool/traffic/clones");
    let e = FetchError::Decode { url: clones_url("a", "b"), cause: "missing field".to_string() };
    assert_eq!(e.url(), "https://api.github.com/repos/a/b/traffic/clones");
}

#[test]
fn bootstrap_decision_follows_recorded_version() {
    assert!(needs_bootstrap(None));
    assert!(needs_bootstrap(Some(0)));
    assert!(!needs_bootstrap(Some(1)));
    assert!(!needs_bootstrap(Some(2)));
}
