//! The metadata cache and the refresh lock.
//!
//! Both lie in stores that keep an entry under a key, with a version that every write changes. The
//! functions here say what to ask of a store, and what to make of its answers.

use crate::cdgc::{CachedMeta, RefreshLock};
use crate::config::{refresh_seconds, Config};
use crate::fields::Fields;
use vstd::prelude::*;

verus! {

/// The store of the cached metadata.
pub const META_CACHE_NAMESPACE: &'static str = "cmi-metadata";

/// The store of the refresh locks.
pub const REFRESH_LOCK_NAMESPACE: &'static str = "cmi-refresh-lock";

/// What the key of an asset's metadata begins with.
pub const META_CACHE_KEY_PREFIX: &'static str = "cmi-meta-";

/// What the key of an asset's lock begins with.
pub const REFRESH_LOCK_KEY_PREFIX: &'static str = "cmi-lock-";

/// The seconds after which a lock may be taken over.
pub const REFRESH_LOCK_TTL_SECONDS: i64 = 30;

/// The milliseconds that a store keeps a lock.
pub const REFRESH_LOCK_TTL_MS: u32 = 30_000;

/// The number of times that a write to the cache is tried.
pub const CAS_MAX_RETRIES: u32 = 3;

/// What a store must hold under a key for a write to take place.
#[derive(Debug)]
pub enum Condition {
    /// No entry.
    Absent,
    /// The entry with that version.
    Version(String),
}

/// The model of a condition.
pub enum ConditionView {
    Absent,
    Version(Seq<char>),
}

impl Condition {
    pub open spec fn view(self) -> ConditionView {
        match self {
            Condition::Absent => ConditionView::Absent,
            Condition::Version(version) => ConditionView::Version(version@),
        }
    }
}

/// The answer to reading a key.
#[derive(Debug)]
pub enum Lookup<T> {
    Found { entry: T, version: String },
    Missing,
    Failed,
}

/// The model of an answer to reading a key.
pub enum LookupView<T> {
    Found { entry: T, version: Seq<char> },
    Missing,
    Failed,
}

impl<T> Lookup<T> {
    pub open spec fn view(self) -> LookupView<T> {
        match self {
            Lookup::Found { entry, version } => LookupView::Found { entry, version: version@ },
            Lookup::Missing => LookupView::Missing,
            Lookup::Failed => LookupView::Failed,
        }
    }
}

/// The answer to writing a key under a condition.
#[derive(Clone, Copy, Debug, PartialEq, Eq, Structural)]
pub enum Stored {
    Done,
    /// The condition was not met.
    Mismatch,
    Failed,
}

/// The key of an asset's metadata.
pub fn meta_key(schema_id: &str) -> (r: String)
    ensures
        r@ == META_CACHE_KEY_PREFIX@ + schema_id@,
{
    let mut key = META_CACHE_KEY_PREFIX.to_string();
    key.append(schema_id);
    key
}

/// The key of an asset's lock.
pub fn lock_key(schema_id: &str) -> (r: String)
    ensures
        r@ == REFRESH_LOCK_KEY_PREFIX@ + schema_id@,
{
    let mut key = REFRESH_LOCK_KEY_PREFIX.to_string();
    key.append(schema_id);
    key
}

/// Two assets have neither the key of their metadata nor that of their locks in common.
pub proof fn keys_tell_assets_apart(one: Seq<char>, other: Seq<char>)
    ensures
        META_CACHE_KEY_PREFIX@ + one == META_CACHE_KEY_PREFIX@ + other ==> one == other,
        REFRESH_LOCK_KEY_PREFIX@ + one == REFRESH_LOCK_KEY_PREFIX@ + other ==> one == other,
{
    let meta = META_CACHE_KEY_PREFIX@;
    let lock = REFRESH_LOCK_KEY_PREFIX@;
    assert((meta + one).skip(meta.len() as int) =~= one);
    assert((meta + other).skip(meta.len() as int) =~= other);
    assert((lock + one).skip(lock.len() as int) =~= one);
    assert((lock + other).skip(lock.len() as int) =~= other);
}

/// The cached metadata of an asset. A store that cannot be read counts as one without an entry.
pub fn read_cached(found: Lookup<CachedMeta>) -> (r: Option<CachedMeta>)
    ensures
        r == (match found.view() {
            LookupView::Found { entry, .. } => Some(entry),
            _ => None,
        }),
{
    match found {
        Lookup::Found { entry, .. } => Some(entry),
        _ => None,
    }
}

/// The condition under which a cached entry is written: that nothing has changed since the key was
/// read. `None` where the key could not be read, which ends the write.
pub open spec fn write_condition(found: LookupView<CachedMeta>) -> Option<ConditionView> {
    match found {
        LookupView::Found { version, .. } => Some(ConditionView::Version(version)),
        LookupView::Missing => Some(ConditionView::Absent),
        LookupView::Failed => None,
    }
}

/// The tries that are left after a write was answered; `None` where the write is over.
pub open spec fn tries_after(tries: int, outcome: Stored) -> Option<int> {
    if outcome is Mismatch && tries > 1 {
        Some(tries - 1)
    } else {
        None
    }
}

/// A write to the cache that is under way: read the key, write under the condition that follows,
/// and begin again where the condition was not met.
#[derive(Debug)]
pub struct CacheWrite {
    tries: u32,
}

impl CacheWrite {
    /// The tries that are left, the present one counted.
    pub closed spec fn tries_left(&self) -> int {
        self.tries as int
    }

    /// Begins a write.
    pub fn begin() -> (r: Self)
        ensures
            r.tries_left() == CAS_MAX_RETRIES,
    {
        CacheWrite { tries: CAS_MAX_RETRIES }
    }

    /// The condition to write under, from what the key held.
    pub fn condition(&self, found: Lookup<CachedMeta>) -> (r: Option<Condition>)
        ensures
            match r {
                Some(condition) => write_condition(found.view()) == Some(condition.view()),
                None => write_condition(found.view()) is None,
            },
    {
        match found {
            Lookup::Found { version, .. } => Some(Condition::Version(version)),
            Lookup::Missing => Some(Condition::Absent),
            Lookup::Failed => None,
        }
    }

    /// The next try, from how the write was answered.
    pub fn after(self, outcome: Stored) -> (r: Option<Self>)
        ensures
            match r {
                Some(next) => tries_after(self.tries_left(), outcome) == Some(next.tries_left()),
                None => tries_after(self.tries_left(), outcome) is None,
            },
    {
        if outcome == Stored::Mismatch && self.tries > 1 {
            Some(CacheWrite { tries: self.tries - 1 })
        } else {
            None
        }
    }
}

/// What an attempt on the refresh lock comes to.
#[derive(Clone, Copy, Debug, PartialEq, Eq, Structural)]
pub enum LockOutcome {
    Acquired,
    /// Another request holds the lock.
    Held,
    /// The store failed.
    Failed,
}

/// What follows the first write of a lock.
#[derive(Clone, Copy, Debug, PartialEq, Eq, Structural)]
pub enum Claim {
    Over(LockOutcome),
    /// There is a lock, which has to be read.
    Contended,
}

/// What follows the reading of a lock.
#[derive(Debug)]
pub enum Inspection {
    Over(LockOutcome),
    /// The lock is free, and is written under the condition.
    Free(Condition),
}

/// The model of what follows the reading of a lock.
pub enum InspectionView {
    Over(LockOutcome),
    Free(ConditionView),
}

impl Inspection {
    pub open spec fn view(self) -> InspectionView {
        match self {
            Inspection::Over(outcome) => InspectionView::Over(outcome),
            Inspection::Free(condition) => InspectionView::Free(condition.view()),
        }
    }
}

/// What follows the first write of a lock, which is made where there is none.
pub open spec fn claim(outcome: Stored) -> Claim {
    match outcome {
        Stored::Done => Claim::Over(LockOutcome::Acquired),
        Stored::Mismatch => Claim::Contended,
        Stored::Failed => Claim::Over(LockOutcome::Failed),
    }
}

/// What follows the reading of a lock: one that is younger than [`REFRESH_LOCK_TTL_SECONDS`] is
/// held, an older one may be taken over, and one that has gone may be written anew.
pub open spec fn inspection(found: LookupView<RefreshLock>, now: int) -> InspectionView {
    match found {
        LookupView::Found { entry, version } => if now - entry.acquired_at
            < REFRESH_LOCK_TTL_SECONDS {
            InspectionView::Over(LockOutcome::Held)
        } else {
            InspectionView::Free(ConditionView::Version(version))
        },
        LookupView::Missing => InspectionView::Free(ConditionView::Absent),
        LookupView::Failed => InspectionView::Over(LockOutcome::Failed),
    }
}

/// What the second write of a lock comes to.
pub open spec fn retake(outcome: Stored) -> LockOutcome {
    match outcome {
        Stored::Done => LockOutcome::Acquired,
        Stored::Mismatch => LockOutcome::Held,
        Stored::Failed => LockOutcome::Failed,
    }
}

/// Whether less than some seconds have gone by since a point in time.
fn is_younger(now: i64, since: i64, seconds: i64) -> (r: bool)
    ensures
        r == (now - since < seconds),
{
    (now as i128 - since as i128) < seconds as i128
}

/// An attempt on the refresh lock, made at a point in time. It begins by writing [`Self::entry`]
/// under [`Self::first_condition`].
#[derive(Clone, Copy, Debug)]
pub struct LockAttempt {
    /// Unix seconds.
    pub now: i64,
}

impl LockAttempt {
    /// The entry that every write of the attempt stores.
    pub fn entry(&self) -> (r: RefreshLock)
        ensures
            r.acquired_at == self.now,
    {
        RefreshLock { acquired_at: self.now }
    }

    /// The condition of the first write: that there is no lock.
    pub fn first_condition(&self) -> (r: Condition)
        ensures
            r.view() == ConditionView::Absent,
    {
        Condition::Absent
    }

    /// Goes on from how the first write was answered.
    pub fn claimed(&self, outcome: Stored) -> (r: Claim)
        ensures
            r == claim(outcome),
    {
        match outcome {
            Stored::Done => Claim::Over(LockOutcome::Acquired),
            Stored::Mismatch => Claim::Contended,
            Stored::Failed => Claim::Over(LockOutcome::Failed),
        }
    }

    /// Goes on from what the key held.
    pub fn inspected(&self, found: Lookup<RefreshLock>) -> (r: Inspection)
        ensures
            r.view() == inspection(found.view(), self.now as int),
    {
        match found {
            Lookup::Found { entry, version } => if is_younger(
                self.now,
                entry.acquired_at,
                REFRESH_LOCK_TTL_SECONDS,
            ) {
                Inspection::Over(LockOutcome::Held)
            } else {
                Inspection::Free(Condition::Version(version))
            },
            Lookup::Missing => Inspection::Free(Condition::Absent),
            Lookup::Failed => Inspection::Over(LockOutcome::Failed),
        }
    }

    /// Concludes from how the second write was answered.
    pub fn retaken(&self, outcome: Stored) -> (r: LockOutcome)
        ensures
            r == retake(outcome),
    {
        match outcome {
            Stored::Done => LockOutcome::Acquired,
            Stored::Mismatch => LockOutcome::Held,
            Stored::Failed => LockOutcome::Failed,
        }
    }
}

/// What optional fields hold.
pub open spec fn fields_view(fields: Option<Fields>) -> Option<Map<Seq<char>, Seq<char>>> {
    match fields {
        Some(fields) => Some(fields@),
        None => None,
    }
}

/// What follows the reading of the cache.
#[derive(Debug)]
pub enum CacheVerdict {
    /// The fields are fresh, and are served.
    Serve(Fields),
    /// A refresh is due. The fields are what the cache held.
    Refresh(Option<Fields>),
}

/// The model of what follows the reading of the cache.
pub enum CacheVerdictView {
    Serve(Map<Seq<char>, Seq<char>>),
    Refresh(Option<Map<Seq<char>, Seq<char>>>),
}

impl CacheVerdict {
    pub open spec fn view(self) -> CacheVerdictView {
        match self {
            CacheVerdict::Serve(fields) => CacheVerdictView::Serve(fields@),
            CacheVerdict::Refresh(stale) => CacheVerdictView::Refresh(fields_view(stale)),
        }
    }
}

/// What follows the reading of the cache: an entry that was fetched less than the refresh interval
/// ago is served.
pub open spec fn cache_verdict(
    cached: Option<CachedMeta>,
    now: int,
    refresh_interval_seconds: Option<i64>,
) -> CacheVerdictView {
    match cached {
        Some(entry) => if now - entry.timestamp < refresh_seconds(refresh_interval_seconds) {
            CacheVerdictView::Serve(entry.fields@)
        } else {
            CacheVerdictView::Refresh(Some(entry.fields@))
        },
        None => CacheVerdictView::Refresh(None),
    }
}

/// Decides from the cached metadata of an asset whether a refresh is due.
pub fn consult_cache(config: &Config, cached: Option<CachedMeta>, now: i64) -> (r: CacheVerdict)
    ensures
        r.view() == cache_verdict(cached, now as int, config.refresh_interval_seconds),
        r == (match cached {
            Some(entry) => if now - entry.timestamp < refresh_seconds(
                config.refresh_interval_seconds,
            ) {
                CacheVerdict::Serve(entry.fields)
            } else {
                CacheVerdict::Refresh(Some(entry.fields))
            },
            None => CacheVerdict::Refresh(None),
        }),
{
    match cached {
        Some(entry) => if is_younger(now, entry.timestamp, config.refresh_interval()) {
            CacheVerdict::Serve(entry.fields)
        } else {
            CacheVerdict::Refresh(Some(entry.fields))
        },
        None => CacheVerdict::Refresh(None),
    }
}

/// A refresh goes ahead unless another request holds the lock. A store that fails stops none.
pub open spec fn goes_ahead(outcome: LockOutcome) -> bool {
    !(outcome is Held)
}

/// What follows an attempt on the lock. The fields are what the cache held.
#[derive(Debug)]
pub enum LockVerdict {
    /// Another request refreshes, and the fields are served.
    Serve(Option<Fields>),
    /// The catalog is asked.
    Fetch(Option<Fields>),
}

/// The model of what follows an attempt on the lock.
pub enum LockVerdictView {
    Serve(Option<Map<Seq<char>, Seq<char>>>),
    Fetch(Option<Map<Seq<char>, Seq<char>>>),
}

impl LockVerdict {
    pub open spec fn view(self) -> LockVerdictView {
        match self {
            LockVerdict::Serve(stale) => LockVerdictView::Serve(fields_view(stale)),
            LockVerdict::Fetch(stale) => LockVerdictView::Fetch(fields_view(stale)),
        }
    }
}

/// What follows an attempt on the lock, with the fields that the cache held.
pub open spec fn lock_verdict(
    outcome: LockOutcome,
    stale: Option<Map<Seq<char>, Seq<char>>>,
) -> LockVerdictView {
    if goes_ahead(outcome) {
        LockVerdictView::Fetch(stale)
    } else {
        LockVerdictView::Serve(stale)
    }
}

/// Decides from an attempt on the lock whether the catalog is asked.
pub fn consult_lock(outcome: LockOutcome, stale: Option<Fields>) -> (r: LockVerdict)
    ensures
        r.view() == lock_verdict(outcome, fields_view(stale)),
        r == (if outcome is Held {
            LockVerdict::Serve(stale)
        } else {
            LockVerdict::Fetch(stale)
        }),
{
    match outcome {
        LockOutcome::Acquired => LockVerdict::Fetch(stale),
        LockOutcome::Held => LockVerdict::Serve(stale),
        LockOutcome::Failed => LockVerdict::Fetch(stale),
    }
}

/// A refresh that failed still serves what the cache held, where the configuration says no other.
pub open spec fn fails_open(fail_open_on_cdgc_error: Option<bool>) -> bool {
    fail_open_on_cdgc_error != Some(false)
}

/// What a refresh comes to.
#[derive(Debug)]
pub struct Conclusion {
    /// The fields for the response.
    pub served: Option<Fields>,
    /// The entry to write to the cache.
    pub entry: Option<CachedMeta>,
}

/// The fields that a refresh serves: what was fetched, or else what the cache held.
pub open spec fn refreshed(
    fetched: Option<Map<Seq<char>, Seq<char>>>,
    stale: Option<Map<Seq<char>, Seq<char>>>,
    fail_open_on_cdgc_error: Option<bool>,
) -> Option<Map<Seq<char>, Seq<char>>> {
    match fetched {
        Some(fields) => Some(fields),
        None => if fails_open(fail_open_on_cdgc_error) {
            stale
        } else {
            None
        },
    }
}

/// Concludes a refresh that was begun at `now`. What was fetched is served, and is written to the
/// cache. Where nothing was, the fields that the cache held may be served.
pub fn conclude(
    config: &Config,
    fetched: Option<Fields>,
    stale: Option<Fields>,
    now: i64,
) -> (r: Conclusion)
    ensures
        fields_view(r.served) == refreshed(
            fields_view(fetched),
            fields_view(stale),
            config.fail_open_on_cdgc_error,
        ),
        match fetched {
            Some(fields) => r.entry matches Some(entry) && entry.fields@ == fields@
                && entry.timestamp == now,
            None => r.entry is None,
        },
{
    match fetched {
        Some(fields) => {
            let entry = CachedMeta { fields: fields.clone(), timestamp: now };
            Conclusion { served: Some(fields), entry: Some(entry) }
        },
        None => {
            let open: bool = match config.fail_open_on_cdgc_error {
                Some(open) => open,
                None => true,
            };
            if open {
                Conclusion { served: stale, entry: None }
            } else {
                Conclusion { served: None, entry: None }
            }
        },
    }
}

/// The fields that a request is served: the verdict on the cache, the attempt on the lock and the
/// refresh decide in turn.
pub open spec fn served(
    cached: Option<CachedMeta>,
    now: int,
    outcome: LockOutcome,
    fetched: Option<Map<Seq<char>, Seq<char>>>,
    config: Config,
) -> Option<Map<Seq<char>, Seq<char>>> {
    match cache_verdict(cached, now, config.refresh_interval_seconds) {
        CacheVerdictView::Serve(fields) => Some(fields),
        CacheVerdictView::Refresh(stale) => match lock_verdict(outcome, stale) {
            LockVerdictView::Serve(stale) => stale,
            LockVerdictView::Fetch(stale) => refreshed(
                fetched,
                stale,
                config.fail_open_on_cdgc_error,
            ),
        },
    }
}

/// What a refresh fetched is served, whatever the lock and the catalog do, until the refresh
/// interval is over; from then on a refresh is due.
pub proof fn fetched_fields_are_served_until_the_interval_ends(
    entry: CachedMeta,
    later: int,
    outcome: LockOutcome,
    fetched: Option<Map<Seq<char>, Seq<char>>>,
    config: Config,
)
    ensures
        later < entry.timestamp + refresh_seconds(config.refresh_interval_seconds) ==> served(
            Some(entry),
            later,
            outcome,
            fetched,
            config,
        ) == Some(entry.fields@),
        later >= entry.timestamp + refresh_seconds(config.refresh_interval_seconds) && goes_ahead(
            outcome,
        ) && fetched is Some ==> served(
            Some(entry),
            later,
            outcome,
            fetched,
            config,
        ) == fetched,
{
}

/// With the default configuration a request is never served less than the cache held: neither a
/// held lock nor a failed refresh takes the last known fields away.
pub proof fn the_last_known_fields_are_kept(
    entry: CachedMeta,
    now: int,
    outcome: LockOutcome,
    config: Config,
)
    requires
        fails_open(config.fail_open_on_cdgc_error),
    ensures
        served(Some(entry), now, outcome, None, config) == Some(entry.fields@),
        forall|fetched: Option<Map<Seq<char>, Seq<char>>>|
            served(Some(entry), now, outcome, fetched, config) is Some,
{
}

/// The models of answers, conditions and decisions keep all that they hold.
pub proof fn decisions_are_modelled_as_they_are(
    version: String,
    entry: CachedMeta,
    lock: RefreshLock,
    outcome: LockOutcome,
    condition: Condition,
    fields: Fields,
    stale: Option<Fields>,
)
    ensures
        Condition::Absent.view() == ConditionView::Absent,
        Condition::Version(version).view() == ConditionView::Version(version@),
        (Lookup::Found { entry, version }).view() == (LookupView::Found {
            entry,
            version: version@,
        }),
        Lookup::<CachedMeta>::Missing.view() == LookupView::<CachedMeta>::Missing,
        Lookup::<CachedMeta>::Failed.view() == LookupView::<CachedMeta>::Failed,
        (Lookup::Found { entry: lock, version }).view() == (LookupView::Found {
            entry: lock,
            version: version@,
        }),
        Lookup::<RefreshLock>::Missing.view() == LookupView::<RefreshLock>::Missing,
        Lookup::<RefreshLock>::Failed.view() == LookupView::<RefreshLock>::Failed,
        Inspection::Over(outcome).view() == InspectionView::Over(outcome),
        Inspection::Free(condition).view() == InspectionView::Free(condition.view()),
        CacheVerdict::Serve(fields).view() == CacheVerdictView::Serve(fields@),
        CacheVerdict::Refresh(stale).view() == CacheVerdictView::Refresh(fields_view(stale)),
        LockVerdict::Serve(stale).view() == LockVerdictView::Serve(fields_view(stale)),
        LockVerdict::Fetch(stale).view() == LockVerdictView::Fetch(fields_view(stale)),
        fields_view(Some(fields)) == Some(fields@),
        fields_view(None) is None,
{
}

/// A write asks that the key be as it was read: with the version that was found, or still without an
/// entry. It is given up where the key could not be read.
pub proof fn a_write_asks_for_what_was_read(entry: CachedMeta, version: Seq<char>)
    ensures
        write_condition(LookupView::Found { entry, version }) == Some(
            ConditionView::Version(version),
        ),
        write_condition(LookupView::<CachedMeta>::Missing) == Some(ConditionView::Absent),
        write_condition(LookupView::<CachedMeta>::Failed) is None,
{
}

/// A write that was answered is over, except that one whose condition was not met is tried again as
/// long as a try is left; three tries are three answers that it was not met.
pub proof fn a_write_is_tried_again_on_a_mismatch(tries: int)
    ensures
        tries_after(tries, Stored::Done) is None,
        tries_after(tries, Stored::Failed) is None,
        tries > 1 ==> tries_after(tries, Stored::Mismatch) == Some(tries - 1),
        tries <= 1 ==> tries_after(tries, Stored::Mismatch) is None,
        tries_after(3, Stored::Mismatch) == Some(2int),
{
}

/// The first write acquires the lock where it takes place, leads to a look at the lock where there is
/// one, and fails where the store does; the second acquires it, loses it to another request, or
/// fails.
pub proof fn a_lock_is_acquired_by_writing_it(outcome: Stored)
    ensures
        claim(outcome) == Claim::Over(LockOutcome::Acquired) <==> outcome is Done,
        claim(outcome) == Claim::Contended <==> outcome is Mismatch,
        claim(outcome) == Claim::Over(LockOutcome::Failed) <==> outcome is Failed,
        retake(outcome) == LockOutcome::Acquired <==> outcome is Done,
        retake(outcome) == LockOutcome::Held <==> outcome is Mismatch,
        retake(outcome) == LockOutcome::Failed <==> outcome is Failed,
{
}

/// A lock is held for thirty seconds from when it was acquired. From then on it may be taken over by
/// replacing the very entry that was read; one that has gone may be written where there is still
/// none.
pub proof fn a_lock_is_held_for_thirty_seconds(lock: RefreshLock, version: Seq<char>, now: int)
    ensures
        now < lock.acquired_at + 30 ==> inspection(LookupView::Found { entry: lock, version }, now)
            == InspectionView::Over(LockOutcome::Held),
        now >= lock.acquired_at + 30 ==> inspection(LookupView::Found { entry: lock, version }, now)
            == InspectionView::Free(ConditionView::Version(version)),
        inspection(LookupView::Missing, now) == InspectionView::Free(ConditionView::Absent),
        inspection(LookupView::Failed, now) == InspectionView::Over(LockOutcome::Failed),
{
}

/// An entry is served from the cache until it is as old as the refresh interval; then, and where
/// there is none, a refresh is due, with what the cache held at hand.
pub proof fn an_entry_is_fresh_for_the_interval(
    entry: CachedMeta,
    now: int,
    configured: Option<i64>,
)
    ensures
        now < entry.timestamp + refresh_seconds(configured) ==> cache_verdict(
            Some(entry),
            now,
            configured,
        ) == CacheVerdictView::Serve(entry.fields@),
        now >= entry.timestamp + refresh_seconds(configured) ==> cache_verdict(
            Some(entry),
            now,
            configured,
        ) == CacheVerdictView::Refresh(Some(entry.fields@)),
        cache_verdict(None, now, configured) == CacheVerdictView::Refresh(None),
{
}

/// The catalog is asked exactly where no other request holds the lock, whether or not the cache held
/// anything; what it held stays at hand.
pub proof fn the_catalog_is_asked_unless_the_lock_is_held(
    outcome: LockOutcome,
    stale: Option<Map<Seq<char>, Seq<char>>>,
)
    ensures
        lock_verdict(outcome, stale) is Fetch <==> outcome != LockOutcome::Held,
        lock_verdict(outcome, stale) matches LockVerdictView::Fetch(kept) ==> kept == stale,
        lock_verdict(outcome, stale) matches LockVerdictView::Serve(kept) ==> kept == stale,
{
}

/// What is fetched is served. A failed refresh serves what the cache held, or nothing where the
/// configuration does not fail open.
pub proof fn a_refresh_serves_what_it_fetched(
    fetched: Map<Seq<char>, Seq<char>>,
    stale: Option<Map<Seq<char>, Seq<char>>>,
    fail_open_on_cdgc_error: Option<bool>,
)
    ensures
        refreshed(Some(fetched), stale, fail_open_on_cdgc_error) == Some(fetched),
        fail_open_on_cdgc_error != Some(false) ==> refreshed(None, stale, fail_open_on_cdgc_error)
            == stale,
        fail_open_on_cdgc_error == Some(false) ==> refreshed(None, stale, fail_open_on_cdgc_error)
            is None,
{
}

/// The first request for an asset is served what the catalog has, unless another request is already
/// fetching it or the catalog cannot be asked; then it is served nothing.
pub proof fn the_first_request_is_served_from_the_catalog(
    now: int,
    outcome: LockOutcome,
    fetched: Option<Map<Seq<char>, Seq<char>>>,
    config: Config,
)
    ensures
        outcome != LockOutcome::Held ==> served(None, now, outcome, fetched, config) == fetched,
        outcome == LockOutcome::Held ==> served(None, now, outcome, fetched, config) is None,
{
}

/// What a later request is served: the entry while it is fresh; else, unless another request holds
/// the lock, what the catalog has; and the old entry where it has nothing and the refresh fails open.
pub proof fn a_later_request_is_served_the_entry_or_a_newer_one(
    entry: CachedMeta,
    now: int,
    outcome: LockOutcome,
    fetched: Option<Map<Seq<char>, Seq<char>>>,
    config: Config,
)
    ensures
        ({
            let fresh = now < entry.timestamp + refresh_seconds(config.refresh_interval_seconds);
            let r = served(Some(entry), now, outcome, fetched, config);
            &&& fresh || outcome == LockOutcome::Held ==> r == Some(entry.fields@)
            &&& !fresh && outcome != LockOutcome::Held && fetched is Some ==> r == fetched
            &&& !fresh && outcome != LockOutcome::Held && fetched is None
                && config.fail_open_on_cdgc_error != Some(false) ==> r == Some(entry.fields@)
            &&& !fresh && outcome != LockOutcome::Held && fetched is None
                && config.fail_open_on_cdgc_error == Some(false) ==> r is None
        }),
{
}

/// Metadata and locks lie in stores and under keys of their own, and a store keeps a lock exactly as
/// long as it is held.
pub proof fn stores_and_keys_have_these_names()
    ensures
        META_CACHE_NAMESPACE@ == "cmi-metadata"@,
        REFRESH_LOCK_NAMESPACE@ == "cmi-refresh-lock"@,
        META_CACHE_KEY_PREFIX@ == "cmi-meta-"@,
        REFRESH_LOCK_KEY_PREFIX@ == "cmi-lock-"@,
        REFRESH_LOCK_TTL_SECONDS == 30,
        REFRESH_LOCK_TTL_MS == 1000 * REFRESH_LOCK_TTL_SECONDS,
        CAS_MAX_RETRIES == 3,
{
}

} // verus!
