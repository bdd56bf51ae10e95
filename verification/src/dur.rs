//! The admission engine: orchestrates insert, eviction, and the verdict.

use vstd::prelude::*;

use crate::backend::{
    ip_entry_count, log_evict, log_has_ts, log_index_of, log_insert, Backend, LogEntryModel,
    TagModel,
};
use crate::config::Config;
use crate::ip::Ipv4Addr;
use crate::memory::IpAndPath;

verus! {

/// Whether the secondary IP guard forces a denial: it fires only for a
/// watch-listed address, and then denies while the identifier's count of
/// IP-carrying entries is still *below* the configured bound. Note the
/// polarity — below means deny. It is deliberate and kept exactly, counter-
/// intuitive as it reads: a below-bound count of IP-carrying entries
/// signals suspiciously low diversity for a watch-listed address pattern.
pub open spec fn ip_guard_denies(c: Config, tag_ip: Option<Ipv4Addr>, unique: nat) -> bool {
    match c.spec_limited_ip_addresses() {
        Some(list) => match tag_ip {
            Some(ip) => list.contains(ip) && (match c.spec_ip_addresses_limit() {
                Some(lim) => unique < lim,
                None => false,
            }),
            None => false,
        },
        None => false,
    }
}

/// The verdict over the raw counts: the post-insert count must not exceed
/// the global limit, and the IP guard must not fire. The insert's own count
/// is included, so the `limit`-th request in a window is the last admitted.
pub open spec fn spec_allowed(c: Config, v: nat, tag_ip: Option<Ipv4Addr>, unique: nat) -> bool {
    v <= c.spec_limit() && !ip_guard_denies(c, tag_ip, unique)
}

/// The identifier's log after one request at `now`: the event is recorded,
/// then entries older than the window are evicted.
pub open spec fn step_log(pre: Seq<LogEntryModel>, c: Config, tag: TagModel, now: u64) -> Seq<
    LogEntryModel,
> {
    log_evict(log_insert(pre, now, tag), now, c.spec_window_time())
}

/// The post-insert count reported for one request at `now` (taken before
/// eviction, as the engine reports it).
pub open spec fn step_count(pre: Seq<LogEntryModel>, tag: TagModel, now: u64) -> nat {
    log_insert(pre, now, tag).len()
}

/// The verdict of one request at `now` against the identifier's log `pre`.
pub open spec fn step_allowed(pre: Seq<LogEntryModel>, c: Config, tag: TagModel, now: u64) -> bool {
    spec_allowed(c, step_count(pre, tag, now), tag.ip, ip_entry_count(step_log(pre, c, tag, now)))
}

/// What one successful `request` call did: `post` is the identifier's new
/// log, `allowed` the verdict, and `v` the reported count.
pub open spec fn request_outcome(
    pre: Seq<LogEntryModel>,
    c: Config,
    tag: TagModel,
    now: u64,
    post: Seq<LogEntryModel>,
    allowed: bool,
    v: nat,
) -> bool {
    &&& v == step_count(pre, tag, now)
    &&& post == step_log(pre, c, tag, now)
    &&& allowed == step_allowed(pre, c, tag, now)
}

/// Relies on std::time::SystemTime::now and
/// SystemTime::duration_since(UNIX_EPOCH): the system clock as nanoseconds
/// since the Unix epoch; `None` when the clock reads earlier than the
/// epoch. Nothing is promised of the value.
#[verifier::external_body]
fn now_nanos() -> (r: Option<u64>) {
    match std::time::SystemTime::now().duration_since(std::time::UNIX_EPOCH) {
        Ok(d) => Some(d.as_nanos() as u64),
        Err(_) => None,
    }
}

/// Whether `list` holds the address `ip`.
fn contains_ip(list: &Vec<Ipv4Addr>, ip: Ipv4Addr) -> (r: bool)
    ensures
        r == list@.contains(ip),
{
    let mut i: usize = 0;
    while i < list.len()
        invariant
            i <= list@.len(),
            forall|k: int| 0 <= k < i ==> list@[k] != ip,
        decreases list@.len() - i,
    {
        if list[i] == ip {
            proof {
                assert(list@.contains(ip)) by {
                    assert(list@[i as int] == ip);
                }
            }
            return true;
        }
        i = i + 1;
    }
    false
}

/// The sliding-window admission engine: one counting backend and one
/// read-only configuration.
#[derive(Debug, Clone)]
pub struct Dur<T> {
    backend: T,
    pub config: Config,
}

impl<T: Backend> Dur<T> {
    /// The engine's invariant: its backend's invariant holds.
    pub closed spec fn wf(&self) -> bool {
        self.backend.inv()
    }

    /// The engine's configuration.
    pub closed spec fn spec_config(&self) -> Config {
        self.config
    }

    /// The identifier's event log, in insertion order; empty if untracked.
    pub closed spec fn log_of(&self, id: u64) -> Seq<LogEntryModel> {
        self.backend.log(id)
    }

    /// The identifier's current number of non-evicted entries.
    pub open spec fn count_of(&self, id: u64) -> nat {
        self.log_of(id).len()
    }

    /// An engine over the given backend; absent settings take the defaults.
    pub fn new(backend: T, config: Option<Config>) -> (r: Self)
        requires
            backend.inv(),
        ensures
            r.wf(),
            match config {
                Some(c) => r.spec_config() == c,
                None => r.spec_config().spec_limit() == 50u32 && r.spec_config().spec_ip_addr_limit() == 5u16
                    && r.spec_config().spec_window_time() == 300u16,
            },
            forall|id: u64| #[trigger] r.log_of(id) == backend.log(id),
    {
        Dur {
            backend,
            config: match config {
                Some(c) => c,
                None => Config::default(),
            },
        }
    }

    /// Handles one request at the given time: records the event, evicts
    /// entries older than the window, and returns the verdict together with
    /// the post-insert count. A reported count of `0` means the backend
    /// failed to record the event; the request is then denied (fail-closed)
    /// and nothing changed.
    pub fn request_at(&mut self, id: u64, ip_and_path: IpAndPath, now: u64) -> (r: (bool, usize))
        requires
            old(self).wf(),
        ensures
            final(self).wf(),
            final(self).spec_config() == old(self).spec_config(),
            forall|other: u64|
                other != id ==> #[trigger] final(self).log_of(other) == old(self).log_of(other),
            r.1 == 0 ==> !r.0 && final(self).log_of(id) == old(self).log_of(id),
            r.1 != 0 ==> request_outcome(
                old(self).log_of(id),
                old(self).spec_config(),
                ip_and_path@,
                now,
                final(self).log_of(id),
                r.0,
                r.1 as nat,
            ),
    {
        let tag_ip = ip_and_path.ip;
        let ghost tagm = ip_and_path@;
        let ghost pre = old(self).log_of(id);
        match self.backend.insert(id, now, ip_and_path) {
            Err(_) => (false, 0),
            Ok(v) => {
                proof {
                    let ins = log_insert(pre, now, tagm);
                    if log_has_ts(pre, now) {
                        let j = log_index_of(pre, now);
                        assert(ins.len() >= 1);
                    } else {
                        assert(ins.len() >= 1);
                    }
                }
                let window = self.config.window_time();
                self.backend.evict_older_timestamps(id, now, window);
                let mut allow = v <= self.config.limit() as usize;
                match self.config.limited_ip_addresses() {
                    Some(ip_addrs) => match tag_ip {
                        Some(ip) => {
                            if contains_ip(&ip_addrs, ip) {
                                match self.config.ip_addresses_limit() {
                                    Some(limit) => {
                                        let unique = self.backend.unique_ip_addresses(id);
                                        if limit as usize > unique {
                                            allow = false;
                                        }
                                    },
                                    None => {},
                                }
                            }
                        },
                        None => {},
                    },
                    None => {},
                }
                (allow, v)
            },
        }
    }

    /// Handles one request at the current system time. When the clock
    /// cannot be read the request is denied with a reported count of `0`
    /// and nothing changed (fail-closed).
    pub fn request(&mut self, id: u64, ip_and_path: IpAndPath) -> (r: (bool, usize))
        requires
            old(self).wf(),
        ensures
            final(self).wf(),
            final(self).spec_config() == old(self).spec_config(),
            forall|other: u64|
                other != id ==> #[trigger] final(self).log_of(other) == old(self).log_of(other),
            r.1 == 0 ==> !r.0 && final(self).log_of(id) == old(self).log_of(id),
            r.1 != 0 ==> exists|now: u64|
                request_outcome(
                    old(self).log_of(id),
                    old(self).spec_config(),
                    ip_and_path@,
                    now,
                    final(self).log_of(id),
                    r.0,
                    r.1 as nat,
                ),
    {
        match now_nanos() {
            None => (false, 0),
            Some(now) => {
                let r = self.request_at(id, ip_and_path, now);
                proof {
                    if r.1 != 0 {
                        assert(request_outcome(
                            old(self).log_of(id),
                            old(self).spec_config(),
                            ip_and_path@,
                            now,
                            final(self).log_of(id),
                            r.0,
                            r.1 as nat,
                        ));
                    }
                }
                r
            },
        }
    }

    /// The identifier's current count of non-evicted entries, for
    /// remaining-quota metadata.
    pub fn remaning_requests(&self, id: u64) -> (r: u32)
        requires
            self.wf(),
        ensures
            self.count_of(id) <= u32::MAX ==> r == self.count_of(id),
    {
        let c = self.backend.request_count(id);
        #[verifier::truncate] (c as u32)
    }

    /// The remaining quota for the outbound metadata: the configured limit
    /// minus the identifier's current count; negative once over the limit.
    pub fn remaining_quota(&self, id: u64) -> (r: i64)
        requires
            self.wf(),
        ensures
            self.count_of(id) <= u32::MAX ==> r == self.spec_config().spec_limit() - self.count_of(
                id,
            ),
    {
        let limit = self.config.limit();
        let count = self.remaning_requests(id);
        limit as i64 - count as i64
    }
}

} // verus!
