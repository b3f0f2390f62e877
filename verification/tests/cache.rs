use contract_metadata_injection::cache::{
    conclude, consult_cache, consult_lock, lock_key, meta_key, read_cached, CacheVerdict, CacheWrite,
    Claim, Condition, Inspection, LockAttempt, LockOutcome, LockVerdict, Lookup, Stored,
};
use contract_metadata_injection::cdgc::{CachedMeta, RefreshLock};
use contract_metadata_injection::config::Config;
use contract_metadata_injection::fields::Fields;

fn config(interval: Option<i64>, fail_open: Option<bool>) -> Config {
    Config {
        cdgc_org_username: String::new(),
        cdgc_org_password: String::new(),
        schema_id: String::new(),
        schema_id_header: None,
        schema_id_claim: None,
        sensitive_marker: None,
        sensitive_levels: None,
        header_on_miss: None,
        refresh_interval_seconds: interval,
        fail_open_on_cdgc_error: fail_open,
        distributed: None,
        timeout: None,
    }
}

fn fields(value: &str) -> Fields {
    let mut fields = Fields::new();
    fields.insert("x-dp-name".to_string(), value.to_string());
    fields
}

fn meta(value: &str, timestamp: i64) -> CachedMeta {
    CachedMeta { fields: fields(value), timestamp }
}

/// A store with one key, whose versions are the numbers of its writes.
struct Store<T> {
    entry: Option<T>,
    writes: u64,
}

impl<T: Clone> Store<T> {
    fn new() -> Self {
        Store { entry: None, writes: 0 }
    }

    fn get(&self) -> Lookup<T> {
        match &self.entry {
            Some(entry) => {
                Lookup::Found { entry: entry.clone(), version: self.writes.to_string() }
            }
            None => Lookup::Missing,
        }
    }

    fn store(&mut self, condition: Condition, entry: T) -> Stored {
        let met = match condition {
            Condition::Absent => self.entry.is_none(),
            Condition::Version(version) => {
                self.entry.is_some() && version == self.writes.to_string()
            }
        };
        if met {
            self.entry = Some(entry);
            self.writes += 1;
            Stored::Done
        } else {
            Stored::Mismatch
        }
    }
}

fn attempt(store: &mut Store<RefreshLock>, now: i64) -> LockOutcome {
    let attempt = LockAttempt { now };
    match attempt.claimed(store.store(attempt.first_condition(), attempt.entry())) {
        Claim::Over(outcome) => outcome,
        Claim::Contended => match attempt.inspected(store.get()) {
            Inspection::Over(outcome) => outcome,
            Inspection::Free(condition) => {
                attempt.retaken(store.store(condition, attempt.entry()))
            }
        },
    }
}

fn write(store: &mut Store<CachedMeta>, entry: &CachedMeta) -> u32 {
    let mut tries = 0;
    let mut write = Some(CacheWrite::begin());
    while let Some(pending) = write {
        tries += 1;
        let condition = match pending.condition(store.get()) {
            Some(condition) => condition,
            None => break,
        };
        write = pending.after(store.store(condition, entry.clone()));
    }
    tries
}

#[test]
fn keys_have_the_asset_in_them() {
    assert_eq!(meta_key("asset-1"), "cmi-meta-asset-1");
    assert_eq!(lock_key("asset-1"), "cmi-lock-asset-1");
}

#[test]
fn cache_is_read() {
    let found = Lookup::Found { entry: meta("a", 5), version: "3".to_string() };
    assert_eq!(read_cached(found), Some(meta("a", 5)));
    assert_eq!(read_cached(Lookup::Missing), None);
    assert_eq!(read_cached(Lookup::Failed), None);
}

#[test]
fn written_entry_is_read_back() {
    let mut store = Store::new();
    assert_eq!(write(&mut store, &meta("a", 1)), 1);
    assert_eq!(read_cached(store.get()), Some(meta("a", 1)));
    assert_eq!(write(&mut store, &meta("b", 2)), 1);
    assert_eq!(read_cached(store.get()), Some(meta("b", 2)));
}

#[test]
fn write_is_conditional() {
    let write = CacheWrite::begin();
    assert!(matches!(write.condition(Lookup::Missing), Some(Condition::Absent)));
    assert!(write.condition(Lookup::Failed).is_none());
    let found = Lookup::Found { entry: meta("a", 1), version: "v7".to_string() };
    match write.condition(found) {
        Some(Condition::Version(version)) => assert_eq!(version, "v7"),
        _ => panic!("no version"),
    }
}

#[test]
fn write_is_tried_three_times() {
    let second = CacheWrite::begin().after(Stored::Mismatch).unwrap();
    let third = second.after(Stored::Mismatch).unwrap();
    assert!(third.after(Stored::Mismatch).is_none());
    assert!(CacheWrite::begin().after(Stored::Done).is_none());
    assert!(CacheWrite::begin().after(Stored::Failed).is_none());
}

#[test]
fn write_does_not_replace_a_later_entry() {
    let mut store = Store::new();
    let pending = CacheWrite::begin();
    let condition = pending.condition(store.get()).unwrap();
    write(&mut store, &meta("other", 2));
    assert_eq!(store.store(condition, meta("mine", 1)), Stored::Mismatch);
    assert_eq!(read_cached(store.get()), Some(meta("other", 2)));
}

#[test]
fn lock_is_held_for_thirty_seconds() {
    let mut store = Store::new();
    assert_eq!(attempt(&mut store, 100), LockOutcome::Acquired);
    assert_eq!(attempt(&mut store, 100), LockOutcome::Held);
    assert_eq!(attempt(&mut store, 129), LockOutcome::Held);
    assert_eq!(attempt(&mut store, 40), LockOutcome::Held);
    assert_eq!(attempt(&mut store, 130), LockOutcome::Acquired);
    assert_eq!(attempt(&mut store, 159), LockOutcome::Held);
    assert_eq!(store.writes, 2);
}

#[test]
fn one_of_two_requests_takes_an_old_lock_over() {
    let mut store = Store::new();
    assert_eq!(attempt(&mut store, 0), LockOutcome::Acquired);
    let one = LockAttempt { now: 60 };
    let other = LockAttempt { now: 61 };
    assert_eq!(one.claimed(store.store(one.first_condition(), one.entry())), Claim::Contended);
    assert_eq!(other.claimed(store.store(other.first_condition(), other.entry())), Claim::Contended);
    let seen_by_one = one.inspected(store.get());
    let seen_by_other = other.inspected(store.get());
    let condition = match seen_by_other {
        Inspection::Free(condition) => condition,
        Inspection::Over(_) => panic!("not free"),
    };
    assert_eq!(other.retaken(store.store(condition, other.entry())), LockOutcome::Acquired);
    let condition = match seen_by_one {
        Inspection::Free(condition) => condition,
        Inspection::Over(_) => panic!("not free"),
    };
    assert_eq!(one.retaken(store.store(condition, one.entry())), LockOutcome::Held);
}

#[test]
fn lock_that_has_gone_is_written_anew() {
    let attempt = LockAttempt { now: 7 };
    assert!(matches!(attempt.inspected(Lookup::Missing), Inspection::Free(Condition::Absent)));
    assert_eq!(attempt.entry().acquired_at, 7);
}

#[test]
fn lock_in_a_broken_store_fails() {
    let attempt = LockAttempt { now: 7 };
    assert_eq!(attempt.claimed(Stored::Failed), Claim::Over(LockOutcome::Failed));
    assert!(matches!(
        attempt.inspected(Lookup::Failed),
        Inspection::Over(LockOutcome::Failed)
    ));
    assert_eq!(attempt.retaken(Stored::Failed), LockOutcome::Failed);
}

#[test]
fn refresh_goes_ahead_unless_the_lock_is_held() {
    for outcome in [LockOutcome::Acquired, LockOutcome::Failed] {
        match consult_lock(outcome, Some(fields("old"))) {
            LockVerdict::Fetch(stale) => assert_eq!(stale, Some(fields("old"))),
            LockVerdict::Serve(_) => panic!("served"),
        }
    }
    match consult_lock(LockOutcome::Held, Some(fields("old"))) {
        LockVerdict::Serve(stale) => assert_eq!(stale, Some(fields("old"))),
        LockVerdict::Fetch(_) => panic!("fetched"),
    }
    assert!(matches!(consult_lock(LockOutcome::Held, None), LockVerdict::Serve(None)));
}

#[test]
fn fresh_metadata_is_served() {
    let config = config(Some(60), None);
    match consult_cache(&config, Some(meta("a", 1_000)), 1_059) {
        CacheVerdict::Serve(served) => assert_eq!(served, fields("a")),
        CacheVerdict::Refresh(_) => panic!("refresh"),
    }
    match consult_cache(&config, Some(meta("a", 1_000)), 1_060) {
        CacheVerdict::Refresh(Some(stale)) => assert_eq!(stale, fields("a")),
        _ => panic!("served"),
    }
    assert!(matches!(consult_cache(&config, None, 5), CacheVerdict::Refresh(None)));
}

#[test]
fn interval_of_zero_is_never_fresh() {
    let verdict = consult_cache(&config(Some(0), None), Some(meta("a", 9)), 9);
    assert!(matches!(verdict, CacheVerdict::Refresh(Some(_))));
}

#[test]
fn fetched_metadata_is_served_and_cached() {
    let end = conclude(&config(None, None), Some(fields("new")), Some(fields("old")), 77);
    assert_eq!(end.served, Some(fields("new")));
    assert_eq!(end.entry, Some(meta("new", 77)));
    match consult_cache(&config(None, None), end.entry, 77 + 86_399) {
        CacheVerdict::Serve(served) => assert_eq!(served, fields("new")),
        CacheVerdict::Refresh(_) => panic!("refresh"),
    }
}

#[test]
fn failed_refresh_serves_the_last_known_fields() {
    let end = conclude(&config(None, None), None, Some(fields("old")), 77);
    assert_eq!(end.served, Some(fields("old")));
    assert_eq!(end.entry, None);
    let end = conclude(&config(None, Some(true)), None, None, 77);
    assert_eq!(end.served, None);
}

#[test]
fn failed_refresh_may_serve_nothing() {
    let end = conclude(&config(None, Some(false)), None, Some(fields("old")), 77);
    assert_eq!(end.served, None);
    assert_eq!(end.entry, None);
}

#[test]
fn entry_of_any_age_is_judged() {
    let ancient = consult_cache(&config(None, None), Some(meta("a", i64::MIN)), i64::MAX);
    assert!(matches!(ancient, CacheVerdict::Refresh(Some(_))));
    let ahead = consult_cache(&config(None, None), Some(meta("a", i64::MAX)), i64::MIN);
    assert!(matches!(ahead, CacheVerdict::Serve(_)));
    let lock = RefreshLock { acquired_at: i64::MIN };
    let found = Lookup::Found { entry: lock, version: "1".to_string() };
    let attempt = LockAttempt { now: 5 };
    assert!(matches!(attempt.inspected(found), Inspection::Free(Condition::Version(_))));
}
