//! In-memory counting backend: a map from identifier to its event log.

use std::collections::HashMap;
use vstd::prelude::*;

use crate::backend::{
    ip_entry_count, kept_in_window, log_evict, log_has_ts, log_index_of, log_insert,
    unique_timestamps, Backend, LogEntryModel, StorageError, TagModel,
};
use crate::ip::{parse_ipv4, spec_parse_ipv4, Ipv4Addr};

verus! {

broadcast use vstd::std_specs::hash::group_hash_axioms;

/// The metadata attached to one request event: an optional source IP
/// address and an optional request path. Either, both, or neither may be
/// present.
#[derive(Debug)]
pub struct IpAndPath {
    pub ip: Option<Ipv4Addr>,
    pub path: Option<String>,
}

impl View for IpAndPath {
    type V = TagModel;

    open spec fn view(&self) -> TagModel {
        TagModel {
            ip: self.ip,
            path: match self.path {
                Some(p) => Some(p@),
                None => None,
            },
        }
    }
}

impl Clone for IpAndPath {
    fn clone(&self) -> (r: Self)
        ensures
            r@ == self@,
    {
        IpAndPath {
            ip: self.ip,
            path: match &self.path {
                Some(p) => Some(p.clone()),
                None => None,
            },
        }
    }
}

impl IpAndPath {
    /// A tag with the given optional IP address and path.
    pub fn new(ip: Option<Ipv4Addr>, path: Option<String>) -> (r: Self)
        ensures
            r.ip == ip,
            r.path == path,
    {
        IpAndPath { ip, path }
    }

    /// A tag carrying only an IP address.
    pub fn from_ip_addr(ip: Ipv4Addr) -> (r: Self)
        ensures
            r.ip == Some(ip),
            r.path is None,
    {
        IpAndPath { ip: Some(ip), path: None }
    }

    /// A tag carrying only a request path.
    pub fn from_path(path: String) -> (r: Self)
        ensures
            r.ip is None,
            r.path == Some(path),
    {
        IpAndPath { ip: None, path: Some(path) }
    }

    /// Screens a raw payload: parses the optional IP text and refuses the
    /// request when it is malformed, so that nothing is recorded for it.
    pub fn from_strings(ip: Option<&str>, path: Option<String>) -> (r: Result<Self, RequestError>)
        ensures
            r is Err <==> (ip matches Some(s) && spec_parse_ipv4(s@) is None),
            r matches Err(e) ==> e == RequestError::BadIpAddress,
            r matches Ok(t) ==> t.path == path && (match ip {
                Some(s) => t.ip == spec_parse_ipv4(s@),
                None => t.ip is None,
            }),
    {
        match ip {
            None => Ok(IpAndPath { ip: None, path }),
            Some(s) => match parse_ipv4(s) {
                Some(addr) => Ok(IpAndPath { ip: Some(addr), path }),
                None => Err(RequestError::BadIpAddress),
            },
        }
    }
}

/// A rejected request payload: a "bad input" outcome, distinct from a
/// rate-limit denial.
#[derive(Clone, Copy, PartialEq, Eq, Structural, Debug)]
pub enum RequestError {
    /// The IP address text in the payload could not be parsed.
    BadIpAddress,
}

/// One recorded request event.
#[derive(Debug)]
pub(crate) struct LogEntry {
    pub timestamp: u64,
    pub tag: IpAndPath,
}

impl View for LogEntry {
    type V = LogEntryModel;

    closed spec fn view(&self) -> LogEntryModel {
        LogEntryModel { timestamp: self.timestamp, tag: self.tag@ }
    }
}

impl Clone for LogEntry {
    fn clone(&self) -> (r: Self)
        ensures
            r@ == self@,
    {
        LogEntry { timestamp: self.timestamp, tag: self.tag.clone() }
    }
}

/// The ghost image of a stored log.
pub(crate) open spec fn log_view(s: Seq<LogEntry>) -> Seq<LogEntryModel> {
    s.map_values(|e: LogEntry| e@)
}

/// In-memory backend: per identifier, the log of its request events.
#[derive(Debug, Clone)]
pub struct Memory {
    record: HashMap<u64, Vec<LogEntry>>,
}

impl Backend for Memory {
    closed spec fn inv(&self) -> bool {
        &&& self.record@.dom().finite()
        &&& forall|id: u64|
            #[trigger] self.record@.contains_key(id) ==> unique_timestamps(
                log_view(self.record@[id]@),
            )
    }

    closed spec fn has_id(&self, id: u64) -> bool {
        self.record@.contains_key(id)
    }

    closed spec fn log(&self, id: u64) -> Seq<LogEntryModel> {
        if self.record@.contains_key(id) {
            log_view(self.record@[id]@)
        } else {
            Seq::empty()
        }
    }

    closed spec fn id_count(&self) -> nat {
        self.record@.dom().len()
    }

    fn new() -> (r: Self) {
        let r = Memory { record: HashMap::new() };
        proof {
            assert(r.record@.dom() =~= Set::<u64>::empty());
        }
        r
    }

    fn insert(&mut self, id: u64, timestamp: u64, ip_and_path: IpAndPath) -> (r: Result<
        usize,
        StorageError,
    >)
        ensures
            r is Ok,
    {
        let ghost m0 = self.record@;
        let mut log: Vec<LogEntry> = match self.record.remove(&id) {
            Some(l) => l,
            None => Vec::new(),
        };
        let ghost lv = log_view(log@);
        proof {
            assert(old(self).log(id) =~= lv);
        }
        let mut i: usize = 0;
        let mut found: bool = false;
        while i < log.len() && !found
            invariant
                i <= log@.len(),
                log_view(log@) == lv,
                !found ==> forall|k: int| 0 <= k < i ==> #[trigger] log@[k].timestamp != timestamp,
                found ==> i < log@.len() && log@[i as int].timestamp == timestamp,
            decreases log@.len() - i, (if found { 0int } else { 1int }),
        {
            if log[i].timestamp == timestamp {
                found = true;
            } else {
                i = i + 1;
            }
        }
        let entry = LogEntry { timestamp, tag: ip_and_path };
        let ghost em = entry@;
        if found {
            proof {
                assert(lv[i as int].timestamp == timestamp);
                assert(log_has_ts(lv, timestamp));
                let j = log_index_of(lv, timestamp);
                if j != i as int {
                    assert(lv[j].timestamp == lv[i as int].timestamp);
                    assert(false) by {
                        assert(unique_timestamps(lv));
                    };
                }
                assert(j == i as int);
            }
            log.remove(i);
            log.insert(i, entry);
            proof {
                assert(log_view(log@) =~= lv.update(i as int, em));
                assert(log_view(log@) == log_insert(lv, timestamp, em.tag));
                assert forall|p: int, q: int|
                    0 <= p < q < log_view(log@).len() implies #[trigger] log_view(
                    log@,
                )[p].timestamp != #[trigger] log_view(log@)[q].timestamp by {
                    assert(unique_timestamps(lv));
                    assert(log_view(log@)[p].timestamp == lv[p].timestamp);
                    assert(log_view(log@)[q].timestamp == lv[q].timestamp);
                }
            }
        } else {
            proof {
                if log_has_ts(lv, timestamp) {
                    let j = log_index_of(lv, timestamp);
                    assert(log@[j].timestamp == timestamp);
                    assert(false);
                }
            }
            log.push(entry);
            proof {
                assert(log_view(log@) =~= lv.push(em));
                assert(log_view(log@) == log_insert(lv, timestamp, em.tag));
                assert forall|p: int, q: int|
                    0 <= p < q < log_view(log@).len() implies #[trigger] log_view(
                    log@,
                )[p].timestamp != #[trigger] log_view(log@)[q].timestamp by {
                    assert(unique_timestamps(lv));
                    if q < lv.len() {
                        assert(log_view(log@)[p].timestamp == lv[p].timestamp);
                        assert(log_view(log@)[q].timestamp == lv[q].timestamp);
                    } else {
                        assert(log_view(log@)[q].timestamp == timestamp);
                        assert(log_view(log@)[p].timestamp == lv[p].timestamp);
                        assert(lv[p].timestamp != timestamp);
                    }
                }
            }
        }
        let n = log.len();
        self.record.insert(id, log);
        proof {
            assert(self.record@ == m0.remove(id).insert(id, log));
            assert(self.record@.contains_key(id));
            assert(final(self).log(id) == log_insert(old(self).log(id), timestamp, ip_and_path@));
            assert forall|other: u64| other != id implies #[trigger] final(self).log(other) == old(
                self,
            ).log(other) && final(self).has_id(other) == old(self).has_id(other) by {
                assert(self.record@.contains_key(other) == m0.contains_key(other));
                if m0.contains_key(other) {
                    assert(self.record@[other] == m0[other]);
                }
            }
            if m0.contains_key(id) {
                assert(self.record@.dom() =~= m0.dom());
            } else {
                assert(self.record@.dom() =~= m0.dom().insert(id));
            }
        }
        Ok(n)
    }

    fn evict_older_timestamps(&mut self, id: u64, now: u64, window_time: u16) {
        let ghost m0 = self.record@;
        let log: Vec<LogEntry> = match self.record.remove(&id) {
            Some(l) => l,
            None => {
                proof {
                    assert(self.record@ =~= m0);
                    assert(final(self).log(id) =~= log_evict(
                        old(self).log(id),
                        now,
                        window_time,
                    ));
                }
                return ;
            },
        };
        let ghost lv = log_view(log@);
        proof {
            assert(old(self).log(id) =~= lv);
        }
        let mut kept: Vec<LogEntry> = Vec::new();
        let mut i: usize = 0;
        proof {
            assert(lv.take(0) =~= Seq::<LogEntryModel>::empty());
            assert(log_view(kept@) =~= Seq::<LogEntryModel>::empty());
        }
        while i < log.len()
            invariant
                i <= log@.len(),
                log_view(log@) == lv,
                log_view(kept@) == log_evict(lv.take(i as int), now, window_time),
            decreases log@.len() - i,
        {
            let ts = log[i].timestamp;
            let ts_s = ts / 1_000_000_000;
            let now_s = now / 1_000_000_000;
            let keep = ts_s >= now_s || now_s - ts_s <= window_time as u64;
            proof {
                assert(lv[i as int].timestamp == ts);
                assert(keep == kept_in_window(lv[i as int], now, window_time));
                lemma_log_evict_take_step(lv, now, window_time, i as int);
            }
            if keep {
                let e = log[i].clone();
                proof {
                    assert(e@ == lv[i as int]);
                }
                kept.push(e);
                proof {
                    assert(log_view(kept@) =~= log_evict(lv.take(i as int), now, window_time).push(
                        lv[i as int],
                    ));
                }
            }
            i = i + 1;
        }
        proof {
            assert(lv.take(log@.len() as int) =~= lv);
            lemma_log_evict_sound(lv, now, window_time);
        }
        self.record.insert(id, kept);
        proof {
            assert(self.record@ == m0.remove(id).insert(id, kept));
            assert(final(self).log(id) == log_evict(old(self).log(id), now, window_time));
            assert forall|other: u64| other != id implies #[trigger] final(self).log(other) == old(
                self,
            ).log(other) && final(self).has_id(other) == old(self).has_id(other) by {
                assert(self.record@.contains_key(other) == m0.contains_key(other));
                if m0.contains_key(other) {
                    assert(self.record@[other] == m0[other]);
                }
            }
            assert(self.record@.dom() =~= m0.dom());
        }
    }

    fn clear(&mut self) {
        self.record.clear();
        proof {
            assert(self.record@.dom() =~= Set::<u64>::empty());
        }
    }

    fn len(&self) -> (r: usize) {
        self.record.len()
    }

    fn request_count(&self, id: u64) -> (r: usize) {
        match self.record.get(&id) {
            Some(v) => v.len(),
            None => 0,
        }
    }

    fn unique_ip_addresses(&self, id: u64) -> (r: usize) {
        match self.record.get(&id) {
            None => 0,
            Some(v) => {
                let ghost lv = log_view(v@);
                let mut count: usize = 0;
                let mut i: usize = 0;
                proof {
                    assert(lv.take(0) =~= Seq::<LogEntryModel>::empty());
                }
                while i < v.len()
                    invariant
                        i <= v@.len(),
                        lv == log_view(v@),
                        count <= i,
                        count == ip_entry_count(lv.take(i as int)),
                    decreases v@.len() - i,
                {
                    proof {
                        lemma_ip_entry_count_take_step(lv, i as int);
                        assert(lv[i as int].tag.ip == v@[i as int].tag.ip);
                    }
                    if v[i].tag.ip.is_some() {
                        count = count + 1;
                    }
                    i = i + 1;
                }
                proof {
                    assert(lv.take(v@.len() as int) =~= lv);
                }
                count
            },
        }
    }
}

/// Unfolds one step of `log_evict` along a growing prefix.
proof fn lemma_log_evict_take_step(s: Seq<LogEntryModel>, now: u64, window_time: u16, i: int)
    requires
        0 <= i < s.len(),
    ensures
        log_evict(s.take(i + 1), now, window_time) == if kept_in_window(s[i], now, window_time) {
            log_evict(s.take(i), now, window_time).push(s[i])
        } else {
            log_evict(s.take(i), now, window_time)
        },
{
    assert(s.take(i + 1).drop_last() =~= s.take(i));
    assert(s.take(i + 1).last() == s[i]);
    assert(s.take(i + 1).len() == i + 1);
}

/// Unfolds one step of `ip_entry_count` along a growing prefix.
proof fn lemma_ip_entry_count_take_step(s: Seq<LogEntryModel>, i: int)
    requires
        0 <= i < s.len(),
    ensures
        ip_entry_count(s.take(i + 1)) == ip_entry_count(s.take(i)) + (if s[i].tag.ip is Some {
            1int
        } else {
            0int
        }),
{
    assert(s.take(i + 1).drop_last() =~= s.take(i));
    assert(s.take(i + 1).last() == s[i]);
    assert(s.take(i + 1).len() == i + 1);
}

/// Eviction keeps timestamps unique and introduces none.
proof fn lemma_log_evict_sound(s: Seq<LogEntryModel>, now: u64, window_time: u16)
    requires
        unique_timestamps(s),
    ensures
        unique_timestamps(log_evict(s, now, window_time)),
        forall|ts: u64|
            #[trigger] log_has_ts(log_evict(s, now, window_time), ts) ==> log_has_ts(s, ts),
    decreases s.len(),
{
    if s.len() == 0 {
    } else {
        let head = s.drop_last();
        let last = s.last();
        assert(unique_timestamps(head)) by {
            assert forall|p: int, q: int| 0 <= p < q < head.len() implies #[trigger] head[p].timestamp
                != #[trigger] head[q].timestamp by {
                assert(s[p].timestamp != s[q].timestamp);
            }
        }
        lemma_log_evict_sound(head, now, window_time);
        let rest = log_evict(head, now, window_time);
        assert forall|ts: u64| #[trigger] log_has_ts(rest, ts) implies log_has_ts(s, ts) by {
            assert(log_has_ts(head, ts));
            let k = choose|k: int| 0 <= k < head.len() && #[trigger] head[k].timestamp == ts;
            assert(s[k].timestamp == ts);
        }
        if kept_in_window(last, now, window_time) {
            let out = rest.push(last);
            assert(log_evict(s, now, window_time) == out);
            assert(!log_has_ts(rest, last.timestamp)) by {
                if log_has_ts(rest, last.timestamp) {
                    assert(log_has_ts(head, last.timestamp));
                    let k = choose|k: int|
                        0 <= k < head.len() && #[trigger] head[k].timestamp == last.timestamp;
                    assert(s[k].timestamp == s[s.len() - 1].timestamp);
                }
            }
            assert forall|p: int, q: int| 0 <= p < q < out.len() implies #[trigger] out[p].timestamp
                != #[trigger] out[q].timestamp by {
                if q < out.len() - 1 {
                    assert(rest[p].timestamp != rest[q].timestamp);
                } else {
                    assert(out[q] == last);
                    assert(out[p] == rest[p]);
                    if rest[p].timestamp == last.timestamp {
                        assert(log_has_ts(rest, last.timestamp));
                    }
                }
            }
            assert forall|ts: u64| #[trigger] log_has_ts(out, ts) implies log_has_ts(s, ts) by {
                let k = choose|k: int| 0 <= k < out.len() && #[trigger] out[k].timestamp == ts;
                if k < out.len() - 1 {
                    assert(rest[k].timestamp == ts);
                    assert(log_has_ts(rest, ts));
                } else {
                    assert(s[s.len() - 1].timestamp == ts);
                }
            }
        }
    }
}

} // verus!
