//! The counting backend: the contract every storage variant must satisfy.
//!
//! A backend keeps, per identifier, a log of timestamped request events;
//! timestamps count nanoseconds, while windows are whole seconds.
//! The ghost image of one log is a sequence of [`LogEntryModel`] values in
//! insertion order; timestamps are unique within one identifier's log
//! (an insertion at an already-present timestamp overwrites that entry).

use vstd::prelude::*;

use crate::ip::Ipv4Addr;
use crate::memory::IpAndPath;

verus! {

/// Ghost image of the metadata attached to one request event.
pub ghost struct TagModel {
    pub ip: Option<Ipv4Addr>,
    pub path: Option<Seq<char>>,
}

/// Ghost image of one log entry: the nanosecond tick it was recorded at,
/// plus its tag.
pub ghost struct LogEntryModel {
    pub timestamp: u64,
    pub tag: TagModel,
}

/// A storage failure: the clock could not be read, or the store itself failed.
#[derive(Clone, Copy, PartialEq, Eq, Structural, Debug)]
pub enum StorageError {
    /// The current time could not be determined.
    Clock,
    /// The store could not record or retrieve entries.
    Store,
}

/// Whether some entry of `log` carries the timestamp `ts`.
pub open spec fn log_has_ts(log: Seq<LogEntryModel>, ts: u64) -> bool {
    exists|i: int| 0 <= i < log.len() && #[trigger] log[i].timestamp == ts
}

/// The index of the entry of `log` carrying `ts` (unique when timestamps are).
pub open spec fn log_index_of(log: Seq<LogEntryModel>, ts: u64) -> int {
    choose|i: int| 0 <= i < log.len() && #[trigger] log[i].timestamp == ts
}

/// Timestamps are pairwise distinct within the log.
pub open spec fn unique_timestamps(log: Seq<LogEntryModel>) -> bool {
    forall|i: int, j: int|
        0 <= i < j < log.len() ==> #[trigger] log[i].timestamp != #[trigger] log[j].timestamp
}

/// One insertion: a fresh timestamp is appended, an already-present one
/// overwrites the entry that carries it.
pub open spec fn log_insert(log: Seq<LogEntryModel>, ts: u64, tag: TagModel) -> Seq<LogEntryModel> {
    if log_has_ts(log, ts) {
        log.update(log_index_of(log, ts), LogEntryModel { timestamp: ts, tag })
    } else {
        log.push(LogEntryModel { timestamp: ts, tag })
    }
}

/// The whole-second part of a timestamp counted in nanoseconds.
pub open spec fn secs_of(ts: u64) -> int {
    ts as int / 1_000_000_000
}

/// Whether an entry survives eviction at time `now` under a window of
/// `window_time` seconds. Timestamps count nanoseconds; age is measured on
/// their whole-second parts. An entry aged at most `window_time` whole
/// seconds stays — so one aged exactly `window_time` is retained, and one
/// older is removed. An entry carrying a timestamp later than `now` is
/// retained.
pub open spec fn kept_in_window(e: LogEntryModel, now: u64, window_time: u16) -> bool {
    secs_of(e.timestamp) + window_time as int >= secs_of(now)
}

/// The log after evicting every entry older than the window, order kept.
pub open spec fn log_evict(log: Seq<LogEntryModel>, now: u64, window_time: u16) -> Seq<
    LogEntryModel,
>
    decreases log.len(),
{
    if log.len() == 0 {
        Seq::empty()
    } else {
        let rest = log_evict(log.drop_last(), now, window_time);
        if kept_in_window(log.last(), now, window_time) {
            rest.push(log.last())
        } else {
            rest
        }
    }
}

/// How many entries of `log` carry a present IP address.
pub open spec fn ip_entry_count(log: Seq<LogEntryModel>) -> nat
    decreases log.len(),
{
    if log.len() == 0 {
        0
    } else {
        ip_entry_count(log.drop_last()) + (if log.last().tag.ip is Some {
            1nat
        } else {
            0nat
        })
    }
}

/// The contract of a counting backend. `Memory` is the in-process variant;
/// a persistent store must satisfy the same contract.
///
/// The ghost state is a map from identifier to log, exposed through
/// `has_id` and `log`; `log` is empty for an untracked identifier.
pub trait Backend: Sized {
    /// The backend's internal invariant.
    spec fn inv(&self) -> bool;

    /// Whether the identifier is currently tracked.
    spec fn has_id(&self, id: u64) -> bool;

    /// The identifier's event log, in insertion order; empty if untracked.
    spec fn log(&self, id: u64) -> Seq<LogEntryModel>;

    /// How many distinct identifiers are tracked.
    spec fn id_count(&self) -> nat;

    /// A fresh, empty backend.
    fn new() -> (r: Self)
        ensures
            r.inv(),
            r.id_count() == 0,
            forall|id: u64| !(#[trigger] r.has_id(id)),
            forall|id: u64| #[trigger] r.log(id) == Seq::<LogEntryModel>::empty(),
    ;

    /// Records one event for `id` at `timestamp` with the attached tag and
    /// returns the post-insert total count of entries for `id`. On failure
    /// nothing is recorded.
    fn insert(&mut self, id: u64, timestamp: u64, ip_and_path: IpAndPath) -> (r: Result<
        usize,
        StorageError,
    >)
        requires
            old(self).inv(),
        ensures
            final(self).inv(),
            forall|i: u64|
                i != id ==> #[trigger] final(self).log(i) == old(self).log(i) && final(self).has_id(
                    i,
                ) == old(self).has_id(i),
            match r {
                Ok(n) => {
                    &&& final(self).log(id) == log_insert(
                        old(self).log(id),
                        timestamp,
                        ip_and_path@,
                    )
                    &&& n == final(self).log(id).len()
                    &&& final(self).has_id(id)
                    &&& final(self).id_count() == old(self).id_count() + (if old(self).has_id(id) {
                        0int
                    } else {
                        1int
                    })
                },
                Err(_) => {
                    &&& final(self).log(id) == old(self).log(id)
                    &&& final(self).has_id(id) == old(self).has_id(id)
                    &&& final(self).id_count() == old(self).id_count()
                },
            },
    ;

    /// Removes every entry for `id` older than `window_time` seconds at time
    /// `now`; a no-op for an untracked identifier.
    fn evict_older_timestamps(&mut self, id: u64, now: u64, window_time: u16)
        requires
            old(self).inv(),
        ensures
            final(self).inv(),
            final(self).log(id) == log_evict(old(self).log(id), now, window_time),
            final(self).has_id(id) == old(self).has_id(id),
            final(self).id_count() == old(self).id_count(),
            forall|i: u64|
                i != id ==> #[trigger] final(self).log(i) == old(self).log(i) && final(self).has_id(
                    i,
                ) == old(self).has_id(i),
    ;

    /// Removes all identifiers and all entries.
    fn clear(&mut self)
        requires
            old(self).inv(),
        ensures
            final(self).inv(),
            final(self).id_count() == 0,
            forall|id: u64| !(#[trigger] final(self).has_id(id)),
            forall|id: u64| #[trigger] final(self).log(id) == Seq::<LogEntryModel>::empty(),
    ;

    /// How many distinct identifiers are tracked.
    fn len(&self) -> (r: usize)
        requires
            self.inv(),
        ensures
            r == self.id_count(),
    ;

    /// The current number of non-evicted entries for `id`; `0` if untracked.
    fn request_count(&self, id: u64) -> (r: usize)
        requires
            self.inv(),
        ensures
            r == self.log(id).len(),
    ;

    /// How many entries for `id` carry a present IP address.
    fn unique_ip_addresses(&self, id: u64) -> (r: usize)
        requires
            self.inv(),
        ensures
            r == ip_entry_count(self.log(id)),
    ;
}

} // verus!
