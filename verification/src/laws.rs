//! Engine-level laws: what holds of sequences of requests, proved once for
//! all inputs over the same step functions the engine's contracts use.

use vstd::prelude::*;

use crate::backend::{
    kept_in_window, log_evict, log_has_ts, log_insert, secs_of, LogEntryModel, TagModel,
};
use crate::config::Config;
use crate::dur::{ip_guard_denies, step_allowed, step_count, step_log};

verus! {

/// The IP guard cannot target this tag under this configuration: no watch
/// list is configured, the tag carries no IP address, or its address is not
/// watch-listed.
pub open spec fn ip_guard_inapplicable(c: Config, tag: TagModel) -> bool {
    match c.spec_limited_ip_addresses() {
        Some(list) => match tag.ip {
            Some(ip) => !list.contains(ip),
            None => true,
        },
        None => true,
    }
}

/// The identifier's log after one request per entry of `times` (oldest
/// first), all carrying the same tag, starting from the empty log.
pub open spec fn run_log(c: Config, tag: TagModel, times: Seq<u64>) -> Seq<LogEntryModel>
    decreases times.len(),
{
    if times.len() == 0 {
        Seq::empty()
    } else {
        step_log(run_log(c, tag, times.drop_last()), c, tag, times.last())
    }
}

/// How many of the requests at `times` (oldest first, same tag, from the
/// empty log) are admitted.
pub open spec fn admitted_count(c: Config, tag: TagModel, times: Seq<u64>) -> nat
    decreases times.len(),
{
    if times.len() == 0 {
        0
    } else {
        admitted_count(c, tag, times.drop_last()) + (if step_allowed(
            run_log(c, tag, times.drop_last()),
            c,
            tag,
            times.last(),
        ) {
            1nat
        } else {
            0nat
        })
    }
}

/// The times are strictly increasing: each request is later than the one
/// before, so no two share a second.
pub open spec fn strictly_increasing(times: Seq<u64>) -> bool {
    forall|a: int, b: int| 0 <= a < b < times.len() ==> times[a] < times[b]
}

/// All times fall inside one window of `w` seconds of each other,
/// measured on their whole-second parts.
pub open spec fn within_window(times: Seq<u64>, w: u16) -> bool {
    forall|a: int, b: int|
        0 <= a <= b < times.len() ==> secs_of(times[b]) - secs_of(times[a]) <= w as int
}

/// Eviction at a moment every entry is still inside the window changes
/// nothing.
proof fn lemma_log_evict_all_kept(log: Seq<LogEntryModel>, now: u64, w: u16)
    requires
        forall|q: int| 0 <= q < log.len() ==> kept_in_window(#[trigger] log[q], now, w),
    ensures
        log_evict(log, now, w) == log,
    decreases log.len(),
{
    if log.len() > 0 {
        let head = log.drop_last();
        assert forall|q: int| 0 <= q < head.len() implies kept_in_window(
            #[trigger] head[q],
            now,
            w,
        ) by {
            assert(kept_in_window(log[q], now, w));
        }
        lemma_log_evict_all_kept(head, now, w);
        assert(log_evict(log, now, w) =~= log);
    }
}

/// A run at strictly increasing times inside one window keeps every event:
/// the log holds exactly one entry per request, in order.
pub proof fn lemma_run_log_full(c: Config, tag: TagModel, times: Seq<u64>)
    requires
        strictly_increasing(times),
        within_window(times, c.spec_window_time()),
    ensures
        run_log(c, tag, times) == Seq::new(
            times.len(),
            |q: int| LogEntryModel { timestamp: times[q], tag },
        ),
    decreases times.len(),
{
    let n = times.len() as int;
    let entries = Seq::new(times.len(), |q: int| LogEntryModel { timestamp: times[q], tag });
    if n == 0 {
        assert(run_log(c, tag, times) =~= entries);
    } else {
        let prefix = times.drop_last();
        let now = times.last();
        assert(strictly_increasing(prefix)) by {
            assert forall|a: int, b: int| 0 <= a < b < prefix.len() implies prefix[a] < prefix[b] by {
                assert(times[a] < times[b]);
            }
        }
        assert(within_window(prefix, c.spec_window_time())) by {
            assert forall|a: int, b: int| 0 <= a <= b < prefix.len() implies secs_of(prefix[b])
                - secs_of(prefix[a]) <= c.spec_window_time() as int by {
                assert(secs_of(times[b]) - secs_of(times[a]) <= c.spec_window_time() as int);
            }
        }
        lemma_run_log_full(c, tag, prefix);
        let pre = run_log(c, tag, prefix);
        assert(!log_has_ts(pre, now)) by {
            if log_has_ts(pre, now) {
                let q = choose|q: int| 0 <= q < pre.len() && #[trigger] pre[q].timestamp == now;
                assert(times[q] < times[n - 1]);
            }
        }
        let inserted = log_insert(pre, now, tag);
        assert(inserted =~= entries);
        assert forall|q: int| 0 <= q < inserted.len() implies kept_in_window(
            #[trigger] inserted[q],
            now,
            c.spec_window_time(),
        ) by {
            assert(inserted[q].timestamp == times[q]);
            assert(secs_of(times[n - 1]) - secs_of(times[q]) <= c.spec_window_time() as int);
        }
        lemma_log_evict_all_kept(inserted, now, c.spec_window_time());
    }
}

/// Law: an identifier never inserted counts zero — its log is empty — and,
/// when the configured limit is positive and the IP guard does not target
/// the tag, its first request is admitted with a reported count of one.
pub proof fn lemma_fresh_identifier_admitted(c: Config, tag: TagModel, now: u64)
    requires
        c.spec_limit() >= 1,
        ip_guard_inapplicable(c, tag),
    ensures
        step_count(Seq::<LogEntryModel>::empty(), tag, now) == 1,
        step_allowed(Seq::<LogEntryModel>::empty(), c, tag, now),
{
    let empty = Seq::<LogEntryModel>::empty();
    assert(!log_has_ts(empty, now));
    let inserted = log_insert(empty, now, tag);
    assert(inserted.len() == 1);
    assert forall|q: int| 0 <= q < inserted.len() implies kept_in_window(
        #[trigger] inserted[q],
        now,
        c.spec_window_time(),
    ) by {
        assert(inserted[q].timestamp == now);
    }
    lemma_log_evict_all_kept(inserted, now, c.spec_window_time());
    assert(!ip_guard_denies(c, tag.ip, crate::backend::ip_entry_count(step_log(empty, c, tag, now))));
}

/// Law: over `n` requests for one identifier at strictly increasing times
/// inside one window, the `q`-th request reports count `q` — so after all
/// `n` the count is `n` — and, when the IP guard does not target the tag,
/// its verdict is admission exactly when `q` is at most the limit: the
/// `limit`-th request is admitted, the `limit+1`-th is denied.
pub proof fn lemma_window_counting(c: Config, tag: TagModel, times: Seq<u64>, q: int)
    requires
        strictly_increasing(times),
        within_window(times, c.spec_window_time()),
        ip_guard_inapplicable(c, tag),
        1 <= q <= times.len(),
    ensures
        step_count(run_log(c, tag, times.take(q - 1)), tag, times[q - 1]) == q,
        run_log(c, tag, times.take(q)).len() == q,
        step_allowed(run_log(c, tag, times.take(q - 1)), c, tag, times[q - 1]) == (q
            <= c.spec_limit()),
{
    let wt = c.spec_window_time();
    let upto = times.take(q);
    let before = times.take(q - 1);
    assert(strictly_increasing(upto)) by {
        assert forall|a: int, b: int| 0 <= a < b < upto.len() implies upto[a] < upto[b] by {
            assert(times[a] < times[b]);
        }
    }
    assert(within_window(upto, wt)) by {
        assert forall|a: int, b: int| 0 <= a <= b < upto.len() implies secs_of(upto[b])
            - secs_of(upto[a]) <= wt as int by {
            assert(secs_of(times[b]) - secs_of(times[a]) <= wt as int);
        }
    }
    lemma_run_log_full(c, tag, upto);
    assert(upto.drop_last() =~= before);
    assert(upto.last() == times[q - 1]);
    assert(run_log(c, tag, upto) == step_log(run_log(c, tag, before), c, tag, times[q - 1]));
    assert(strictly_increasing(before)) by {
        assert forall|a: int, b: int| 0 <= a < b < before.len() implies before[a] < before[b] by {
            assert(times[a] < times[b]);
        }
    }
    assert(within_window(before, wt)) by {
        assert forall|a: int, b: int| 0 <= a <= b < before.len() implies secs_of(before[b])
            - secs_of(before[a]) <= wt as int by {
            assert(secs_of(times[b]) - secs_of(times[a]) <= wt as int);
        }
    }
    lemma_run_log_full(c, tag, before);
    let pre = run_log(c, tag, before);
    let now = times[q - 1];
    assert(!log_has_ts(pre, now)) by {
        if log_has_ts(pre, now) {
            let t = choose|t: int| 0 <= t < pre.len() && #[trigger] pre[t].timestamp == now;
            assert(before[t] == times[t]);
            assert(times[t] < times[q - 1]);
        }
    }
    assert(log_insert(pre, now, tag).len() == q);
    assert(!ip_guard_denies(c, tag.ip, crate::backend::ip_entry_count(step_log(pre, c, tag, now))));
}

/// Law: of `n` requests for one identifier at strictly increasing times
/// inside one window, with limit `L` and the IP guard not targeting the
/// tag, exactly `min(n, L)` are admitted — no over-admission when the
/// engine serializes its handlers, as the lock requires.
pub proof fn lemma_no_over_admission(c: Config, tag: TagModel, times: Seq<u64>)
    requires
        strictly_increasing(times),
        within_window(times, c.spec_window_time()),
        ip_guard_inapplicable(c, tag),
    ensures
        admitted_count(c, tag, times) == (if times.len() <= c.spec_limit() {
            times.len() as int
        } else {
            c.spec_limit() as int
        }),
    decreases times.len(),
{
    let n = times.len() as int;
    if n > 0 {
        let prefix = times.drop_last();
        assert(strictly_increasing(prefix)) by {
            assert forall|a: int, b: int| 0 <= a < b < prefix.len() implies prefix[a] < prefix[b] by {
                assert(times[a] < times[b]);
            }
        }
        assert(within_window(prefix, c.spec_window_time())) by {
            assert forall|a: int, b: int| 0 <= a <= b < prefix.len() implies secs_of(prefix[b])
                - secs_of(prefix[a]) <= c.spec_window_time() as int by {
                assert(secs_of(times[b]) - secs_of(times[a]) <= c.spec_window_time() as int);
            }
        }
        lemma_no_over_admission(c, tag, prefix);
        lemma_window_counting(c, tag, times, n);
        assert(times.take(n - 1) =~= prefix);
        assert(times.take(n) =~= times);
        assert(step_allowed(run_log(c, tag, prefix), c, tag, times[n - 1]) == (n
            <= c.spec_limit()));
    }
}

/// Law: eviction keeps exactly the entries whose age at `now` is at most
/// the window — an entry strictly older is removed, one aged exactly the
/// window is retained — and never grows the log.
pub proof fn lemma_eviction_window(log: Seq<LogEntryModel>, now: u64, w: u16)
    ensures
        forall|q: int|
            0 <= q < log_evict(log, now, w).len() ==> kept_in_window(
                #[trigger] log_evict(log, now, w)[q],
                now,
                w,
            ),
        forall|q: int|
            0 <= q < log.len() && kept_in_window(#[trigger] log[q], now, w) ==> log_evict(
                log,
                now,
                w,
            ).contains(log[q]),
        log_evict(log, now, w).len() <= log.len(),
    decreases log.len(),
{
    if log.len() > 0 {
        let head = log.drop_last();
        let last = log.last();
        lemma_eviction_window(head, now, w);
        let rest = log_evict(head, now, w);
        assert forall|q: int|
            0 <= q < log.len() && kept_in_window(#[trigger] log[q], now, w) implies log_evict(
            log,
            now,
            w,
        ).contains(log[q]) by {
            if q < log.len() - 1 {
                assert(kept_in_window(head[q], now, w));
                assert(rest.contains(head[q]));
                let t = choose|t: int| 0 <= t < rest.len() && rest[t] == head[q];
                if kept_in_window(last, now, w) {
                    assert(rest.push(last)[t] == log[q]);
                } else {
                    assert(rest[t] == log[q]);
                }
            } else {
                assert(log[q] == last);
                let out = rest.push(last);
                assert(out[out.len() - 1] == last);
            }
        }
    }
}

} // verus!
