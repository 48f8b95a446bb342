//! A per-IP rate limiter over a sliding time window.
//!
//! Times are nanoseconds since the limiter was created, read from a monotonic
//! clock. Each IP keeps the times of its recent admitted requests.
use vstd::prelude::*;

verus! {

broadcast use vstd::string::group_string_axioms;

#[verifier::external_type_specification]
#[verifier::external_body]
pub struct ExInstant(std::time::Instant);

/// Reads the monotonic clock (`std::time::Instant::now`). Nothing is stated of
/// the value: it depends on the time of the call.
#[verifier::external_body]
fn clock_origin() -> std::time::Instant {
    std::time::Instant::now()
}

/// Nanoseconds elapsed since `origin` (`Instant::elapsed`, as a count of
/// nanoseconds). Nothing is stated of the value: it depends on the time of the call.
#[verifier::external_body]
fn nanos_since(origin: &std::time::Instant) -> u128 {
    origin.elapsed().as_nanos()
}

/// Nanoseconds in one second.
pub const NANOS_PER_SEC: u128 = 1_000_000_000;

// ── Model ────────────────────────────────────────────────────────────────────

/// How long ago `t` was at time `now`; a time after `now` counts as no time ago.
pub open spec fn age(now: u128, t: u128) -> nat {
    if now >= t {
        (now - t) as nat
    } else {
        0
    }
}

/// The times of `hits` that still lie inside the window at `now`, in order.
pub open spec fn fresh(hits: Seq<u128>, now: u128, window: nat) -> Seq<u128>
    decreases hits.len(),
{
    if hits.len() == 0 {
        seq![]
    } else {
        let rest = fresh(hits.drop_last(), now, window);
        if age(now, hits.last()) < window {
            rest.push(hits.last())
        } else {
            rest
        }
    }
}

/// The recent times recorded for `ip`, or none.
pub open spec fn recorded(hits: Map<Seq<char>, Seq<u128>>, ip: Seq<char>) -> Seq<u128> {
    if hits.contains_key(ip) {
        hits[ip]
    } else {
        seq![]
    }
}

/// A check of `ip` at `now`: the times of `ip` outside the window are dropped;
/// the request is admitted, and its time recorded, when fewer than `limit`
/// times remain. The IP is tracked afterwards either way.
pub open spec fn check_outcome(
    hits: Map<Seq<char>, Seq<u128>>,
    limit: nat,
    window: nat,
    ip: Seq<char>,
    now: u128,
) -> (Map<Seq<char>, Seq<u128>>, bool) {
    let kept = fresh(recorded(hits, ip), now, window);
    let allowed = kept.len() < limit;
    (hits.insert(ip, if allowed { kept.push(now) } else { kept }), allowed)
}

/// A cleanup at `now`: every IP keeps only its times inside the window, and IPs
/// left with none are forgotten.
pub open spec fn cleanup_outcome(hits: Map<Seq<char>, Seq<u128>>, now: u128, window: nat) -> Map<
    Seq<char>,
    Seq<u128>,
> {
    Map::new(
        |k: Seq<char>| hits.contains_key(k) && fresh(hits[k], now, window).len() > 0,
        |k: Seq<char>| fresh(hits[k], now, window),
    )
}

/// No IP has more than `limit` recorded times.
pub open spec fn within_limit(hits: Map<Seq<char>, Seq<u128>>, limit: nat) -> bool {
    forall|k: Seq<char>| #[trigger] hits.contains_key(k) ==> hits[k].len() <= limit
}

// ── Lemmas ───────────────────────────────────────────────────────────────────

proof fn lemma_fresh_len(hits: Seq<u128>, now: u128, window: nat)
    ensures
        fresh(hits, now, window).len() <= hits.len(),
    decreases hits.len(),
{
    if hits.len() > 0 {
        lemma_fresh_len(hits.drop_last(), now, window);
    }
}

/// A time inside the window at a later `now2` was inside it at `now1` too.
proof fn lemma_fresh_twice(hits: Seq<u128>, now1: u128, now2: u128, window: nat)
    requires
        now1 <= now2,
    ensures
        fresh(fresh(hits, now1, window), now2, window) == fresh(hits, now2, window),
    decreases hits.len(),
{
    if hits.len() > 0 {
        let rest = hits.drop_last();
        let t = hits.last();
        lemma_fresh_twice(rest, now1, now2, window);
        let f1 = fresh(rest, now1, window);
        if age(now1, t) < window {
            assert(f1.push(t).drop_last() =~= f1);
            assert(f1.push(t).last() == t);
        } else {
            assert(!(age(now2, t) < window));
        }
    }
}

// ── Laws ─────────────────────────────────────────────────────────────────────

/// Cleaning up never changes a later decision: a check at `now2` admits a request
/// after a cleanup at an earlier `now1` exactly when it would have admitted it
/// without the cleanup.
pub proof fn lemma_cleanup_keeps_decisions(
    hits: Map<Seq<char>, Seq<u128>>,
    limit: nat,
    window: nat,
    ip: Seq<char>,
    now1: u128,
    now2: u128,
)
    requires
        now1 <= now2,
    ensures
        check_outcome(cleanup_outcome(hits, now1, window), limit, window, ip, now2).1
            == check_outcome(hits, limit, window, ip, now2).1,
        check_outcome(cleanup_outcome(hits, now1, window), limit, window, ip, now2).0[ip]
            == check_outcome(hits, limit, window, ip, now2).0[ip],
{
    let cleaned = cleanup_outcome(hits, now1, window);
    if hits.contains_key(ip) {
        lemma_fresh_twice(hits[ip], now1, now2, window);
        if fresh(hits[ip], now1, window).len() == 0 {
            assert(fresh(hits[ip], now1, window) =~= Seq::<u128>::empty());
            assert(fresh(Seq::<u128>::empty(), now2, window) =~= Seq::<u128>::empty());
        }
    }
}

/// A check admits a request exactly when fewer than `limit` of the IP's
/// requests lie inside the window, and never lets an IP hold more than `limit`
/// recorded times.
pub proof fn lemma_check_respects_limit(
    hits: Map<Seq<char>, Seq<u128>>,
    limit: nat,
    window: nat,
    ip: Seq<char>,
    now: u128,
)
    requires
        within_limit(hits, limit),
    ensures
        check_outcome(hits, limit, window, ip, now).1 <==> fresh(recorded(hits, ip), now, window).len() < limit,
        within_limit(check_outcome(hits, limit, window, ip, now).0, limit),
{
    let kept = fresh(recorded(hits, ip), now, window);
    lemma_fresh_len(recorded(hits, ip), now, window);
    let out = check_outcome(hits, limit, window, ip, now).0;
    assert forall|k: Seq<char>| #[trigger] out.contains_key(k) implies out[k].len() <= limit by {
        if k != ip {
            assert(hits.contains_key(k));
        }
    }
}

// ── Runs of calls ────────────────────────────────────────────────────────────

/// A call on a limiter, as the model sees it: a check of an IP, or a cleanup,
/// each at a time.
pub enum LimiterCall {
    Check { ip: Seq<char>, now: u128 },
    Cleanup { now: u128 },
}

/// The time at which a call is made.
pub open spec fn call_time(c: LimiterCall) -> u128 {
    match c {
        LimiterCall::Check { now, .. } => now,
        LimiterCall::Cleanup { now } => now,
    }
}

/// The calls are made in the order of their times.
pub open spec fn calls_in_order(calls: Seq<LimiterCall>) -> bool {
    forall|i: int, j: int|
        0 <= i <= j < calls.len() ==> call_time(#[trigger] calls[i]) <= call_time(#[trigger] calls[j])
}

/// The recorded times after a run of calls, starting from `hits`.
pub open spec fn run_calls(
    hits: Map<Seq<char>, Seq<u128>>,
    limit: nat,
    window: nat,
    calls: Seq<LimiterCall>,
) -> Map<Seq<char>, Seq<u128>>
    decreases calls.len(),
{
    if calls.len() == 0 {
        hits
    } else {
        let before = run_calls(hits, limit, window, calls.drop_last());
        match calls.last() {
            LimiterCall::Check { ip, now } => check_outcome(before, limit, window, ip, now).0,
            LimiterCall::Cleanup { now } => cleanup_outcome(before, now, window),
        }
    }
}

/// The times of the requests from `ip` that a run of calls admitted, in order.
pub open spec fn admitted_times(
    hits: Map<Seq<char>, Seq<u128>>,
    limit: nat,
    window: nat,
    calls: Seq<LimiterCall>,
    ip: Seq<char>,
) -> Seq<u128>
    decreases calls.len(),
{
    if calls.len() == 0 {
        seq![]
    } else {
        let earlier = admitted_times(hits, limit, window, calls.drop_last(), ip);
        let before = run_calls(hits, limit, window, calls.drop_last());
        match calls.last() {
            LimiterCall::Check { ip: who, now } => if who == ip && check_outcome(
                before,
                limit,
                window,
                who,
                now,
            ).1 {
                earlier.push(now)
            } else {
                earlier
            },
            LimiterCall::Cleanup { .. } => earlier,
        }
    }
}

/// After a run from a new limiter, what an IP has recorded and what was admitted
/// from it agree on every window ending at or after the last call.
proof fn lemma_run_records_admitted(
    limit: nat,
    window: nat,
    calls: Seq<LimiterCall>,
    ip: Seq<char>,
    t: u128,
)
    requires
        calls_in_order(calls),
        forall|i: int| 0 <= i < calls.len() ==> call_time(#[trigger] calls[i]) <= t,
    ensures
        fresh(recorded(run_calls(Map::empty(), limit, window, calls), ip), t, window) == fresh(
            admitted_times(Map::empty(), limit, window, calls, ip),
            t,
            window,
        ),
        within_limit(run_calls(Map::empty(), limit, window, calls), limit),
    decreases calls.len(),
{
    let empty = Map::<Seq<char>, Seq<u128>>::empty();
    if calls.len() == 0 {
        assert(fresh(Seq::<u128>::empty(), t, window) =~= Seq::<u128>::empty());
    } else {
        let prefix = calls.drop_last();
        let last = calls.last();
        let c = call_time(last);
        assert forall|i: int, j: int| 0 <= i <= j < prefix.len() implies call_time(#[trigger] prefix[i])
            <= call_time(#[trigger] prefix[j]) by {
            assert(prefix[i] == calls[i] && prefix[j] == calls[j]);
        }
        assert forall|i: int| 0 <= i < prefix.len() implies call_time(#[trigger] prefix[i]) <= c by {
            assert(prefix[i] == calls[i]);
            assert(calls[calls.len() - 1] == last);
        }
        assert(c <= t) by {
            assert(calls[calls.len() - 1] == last);
        }
        lemma_run_records_admitted(limit, window, prefix, ip, c);
        lemma_run_records_admitted(limit, window, prefix, ip, t);
        let before = run_calls(empty, limit, window, prefix);
        let earlier = admitted_times(empty, limit, window, prefix, ip);
        let rec = recorded(before, ip);
        lemma_fresh_twice(rec, c, t, window);
        lemma_fresh_twice(earlier, c, t, window);
        match last {
            LimiterCall::Check { ip: who, now } => {
                lemma_check_respects_limit(before, limit, window, who, now);
                if who == ip {
                    let kept = fresh(rec, now, window);
                    let allowed = kept.len() < limit;
                    if allowed {
                        assert(fresh(kept.push(now), t, window) == fresh(earlier.push(now), t, window)) by {
                            assert(kept.push(now).drop_last() =~= kept);
                            assert(earlier.push(now).drop_last() =~= earlier);
                        }
                    }
                }
            },
            LimiterCall::Cleanup { now } => {
                let after = cleanup_outcome(before, now, window);
                assert(within_limit(after, limit)) by {
                    assert forall|k: Seq<char>| #[trigger] after.contains_key(k) implies after[k].len() <= limit by {
                        lemma_fresh_len(before[k], now, window);
                    }
                }
                if !(before.contains_key(ip) && fresh(before[ip], now, window).len() > 0) {
                    assert(fresh(rec, now, window) =~= Seq::<u128>::empty());
                    assert(fresh(Seq::<u128>::empty(), t, window) =~= Seq::<u128>::empty());
                }
            },
        }
    }
}

/// A limiter admits at most `limit` requests from one IP within any window: for
/// calls made in time order on a new limiter, however checks and cleanups
/// interleave, at most `limit` of the admitted requests from an IP lie within
/// the window that ends at any time `t` from the last call on.
pub proof fn lemma_sliding_window_limit(
    limit: nat,
    window: nat,
    calls: Seq<LimiterCall>,
    ip: Seq<char>,
    t: u128,
)
    requires
        calls_in_order(calls),
        forall|i: int| 0 <= i < calls.len() ==> call_time(#[trigger] calls[i]) <= t,
    ensures
        fresh(admitted_times(Map::empty(), limit, window, calls, ip), t, window).len() <= limit,
{
    lemma_run_records_admitted(limit, window, calls, ip, t);
    let hits = run_calls(Map::empty(), limit, window, calls);
    lemma_fresh_len(recorded(hits, ip), t, window);
    if !hits.contains_key(ip) {
        assert(recorded(hits, ip).len() == 0);
    }
}

/// The checks among the calls, in order: the calls with every cleanup left out.
pub open spec fn checks_only(calls: Seq<LimiterCall>) -> Seq<LimiterCall>
    decreases calls.len(),
{
    if calls.len() == 0 {
        seq![]
    } else {
        let rest = checks_only(calls.drop_last());
        match calls.last() {
            LimiterCall::Check { .. } => rest.push(calls.last()),
            LimiterCall::Cleanup { .. } => rest,
        }
    }
}

/// A run with cleanups and the same run without them record the same times
/// inside every window ending from the last call on, and admit the same requests.
proof fn lemma_cleanups_invisible(limit: nat, window: nat, calls: Seq<LimiterCall>, ip: Seq<char>, t: u128)
    requires
        calls_in_order(calls),
        forall|i: int| 0 <= i < calls.len() ==> call_time(#[trigger] calls[i]) <= t,
    ensures
        fresh(recorded(run_calls(Map::empty(), limit, window, calls), ip), t, window) == fresh(
            recorded(run_calls(Map::empty(), limit, window, checks_only(calls)), ip),
            t,
            window,
        ),
        admitted_times(Map::empty(), limit, window, calls, ip) == admitted_times(
            Map::empty(),
            limit,
            window,
            checks_only(calls),
            ip,
        ),
    decreases calls.len(),
{
    let empty = Map::<Seq<char>, Seq<u128>>::empty();
    if calls.len() > 0 {
        let prefix = calls.drop_last();
        let last = calls.last();
        let c = call_time(last);
        assert forall|i: int, j: int| 0 <= i <= j < prefix.len() implies call_time(#[trigger] prefix[i])
            <= call_time(#[trigger] prefix[j]) by {
            assert(prefix[i] == calls[i] && prefix[j] == calls[j]);
        }
        assert forall|i: int| 0 <= i < prefix.len() implies call_time(#[trigger] prefix[i]) <= c by {
            assert(prefix[i] == calls[i]);
            assert(calls[calls.len() - 1] == last);
        }
        assert(c <= t) by {
            assert(calls[calls.len() - 1] == last);
        }
        lemma_cleanups_invisible(limit, window, prefix, ip, t);
        let kept_calls = checks_only(prefix);
        let a = run_calls(empty, limit, window, prefix);
        let b = run_calls(empty, limit, window, kept_calls);
        match last {
            LimiterCall::Check { ip: who, now } => {
                let both = kept_calls.push(last);
                assert(checks_only(calls) == both);
                assert(both.drop_last() =~= kept_calls);
                assert(both.last() == last);
                lemma_cleanups_invisible(limit, window, prefix, who, now);
                lemma_fresh_twice(recorded(a, ip), now, t, window);
                lemma_fresh_twice(recorded(b, ip), now, t, window);
                if who == ip {
                    let kept = fresh(recorded(a, ip), now, window);
                    assert(kept.push(now).drop_last() =~= kept);
                }
            },
            LimiterCall::Cleanup { now } => {
                assert(checks_only(calls) == kept_calls);
                lemma_fresh_twice(recorded(a, ip), now, t, window);
                if !(a.contains_key(ip) && fresh(a[ip], now, window).len() > 0) {
                    assert(fresh(recorded(a, ip), now, window) =~= Seq::<u128>::empty());
                    assert(fresh(Seq::<u128>::empty(), t, window) =~= Seq::<u128>::empty());
                }
            },
        }
    }
}

/// Cleaning up never changes what a limiter decides: for calls made in time order
/// on a new limiter, the requests admitted from every IP are the same as when
/// every cleanup is left out.
pub proof fn lemma_cleanups_never_change_decisions(
    limit: nat,
    window: nat,
    calls: Seq<LimiterCall>,
    ip: Seq<char>,
)
    requires
        calls_in_order(calls),
    ensures
        admitted_times(Map::empty(), limit, window, calls, ip) == admitted_times(
            Map::empty(),
            limit,
            window,
            checks_only(calls),
            ip,
        ),
{
    if calls.len() > 0 {
        let t = call_time(calls.last());
        assert forall|i: int| 0 <= i < calls.len() implies call_time(#[trigger] calls[i]) <= t by {
            assert(calls[calls.len() - 1] == calls.last());
        }
        lemma_cleanups_invisible(limit, window, calls, ip, t);
    }
}

/// Times that have all left the window leave nothing fresh.
proof fn lemma_fresh_of_old_times(hits: Seq<u128>, now: u128, window: nat)
    requires
        forall|i: int| 0 <= i < hits.len() ==> age(now, #[trigger] hits[i]) >= window,
    ensures
        fresh(hits, now, window).len() == 0,
    decreases hits.len(),
{
    if hits.len() > 0 {
        let rest = hits.drop_last();
        assert forall|i: int| 0 <= i < rest.len() implies age(now, #[trigger] rest[i]) >= window by {
            assert(rest[i] == hits[i]);
        }
        lemma_fresh_of_old_times(rest, now, window);
        assert(hits[hits.len() - 1] == hits.last());
    }
}

/// Once every request admitted from an IP has left the window, the next check of
/// that IP is admitted (for a limit of at least one): for calls made in time
/// order on a new limiter and a check at any time `now` from the last call on.
pub proof fn lemma_check_admits_after_quiet_window(
    limit: nat,
    window: nat,
    calls: Seq<LimiterCall>,
    ip: Seq<char>,
    now: u128,
)
    requires
        limit >= 1,
        calls_in_order(calls),
        forall|i: int| 0 <= i < calls.len() ==> call_time(#[trigger] calls[i]) <= now,
        forall|i: int|
            0 <= i < admitted_times(Map::empty(), limit, window, calls, ip).len() ==> age(
                now,
                #[trigger] admitted_times(Map::empty(), limit, window, calls, ip)[i],
            ) >= window,
    ensures
        check_outcome(run_calls(Map::empty(), limit, window, calls), limit, window, ip, now).1,
{
    lemma_run_records_admitted(limit, window, calls, ip, now);
    lemma_fresh_of_old_times(admitted_times(Map::empty(), limit, window, calls, ip), now, window);
}

// ── Representation ───────────────────────────────────────────────────────────

/// The recorded request times of one IP.
pub struct IpHits {
    ip: String,
    hits: Vec<u128>,
}

/// What a limiter changes as it is used: the recorded times of each IP, the
/// latest time it has used, and (as a model only) every call made on it.
struct LimiterState {
    requests: Vec<IpHits>,
    last: u128,
    calls: Ghost<Seq<LimiterCall>>,
}

/// Simple in-memory IP rate limiter: admits at most `max_requests` requests
/// per IP within any window of `window_secs` seconds.
pub struct RateLimiter {
    state: LimiterState,
    max_requests: usize,
    window: u128,
    origin: std::time::Instant,
}

/// Every call was made no later than `last`.
pub open spec fn calls_up_to(calls: Seq<LimiterCall>, last: u128) -> bool {
    forall|i: int| 0 <= i < calls.len() ==> call_time(#[trigger] calls[i]) <= last
}

/// The time a call uses: the time asked for, or the latest time already used
/// when that is later (the clock never runs backwards).
pub open spec fn effective_time(last: u128, now: u128) -> u128 {
    if now < last {
        last
    } else {
        now
    }
}

/// `e` is what a cleanup at `now` keeps of `src`.
spec fn derived_from(e: IpHits, src: IpHits, now: u128, window: nat) -> bool {
    &&& e.ip@ == src.ip@
    &&& e.hits@ == fresh(src.hits@, now, window)
    &&& fresh(src.hits@, now, window).len() > 0
}

spec fn distinct_ips(entries: Seq<IpHits>) -> bool {
    forall|i: int, j: int|
        0 <= i < entries.len() && 0 <= j < entries.len() && i != j ==> #[trigger] entries[i].ip@
            != #[trigger] entries[j].ip@
}

spec fn has_ip(entries: Seq<IpHits>, k: Seq<char>) -> bool {
    exists|i: int| 0 <= i < entries.len() && #[trigger] entries[i].ip@ == k
}

spec fn index_of_ip(entries: Seq<IpHits>, k: Seq<char>) -> int {
    choose|i: int| 0 <= i < entries.len() && #[trigger] entries[i].ip@ == k
}

spec fn map_of(entries: Seq<IpHits>) -> Map<Seq<char>, Seq<u128>> {
    Map::new(|k: Seq<char>| has_ip(entries, k), |k: Seq<char>| entries[index_of_ip(entries, k)].hits@)
}

proof fn lemma_map_of_entry(entries: Seq<IpHits>, i: int)
    requires
        distinct_ips(entries),
        0 <= i < entries.len(),
    ensures
        map_of(entries).contains_key(entries[i].ip@),
        map_of(entries)[entries[i].ip@] == entries[i].hits@,
{
    let k = entries[i].ip@;
    assert(has_ip(entries, k));
    let j = index_of_ip(entries, k);
    assert(j == i);
}

proof fn lemma_map_of_update(entries: Seq<IpHits>, i: int, e: IpHits)
    requires
        distinct_ips(entries),
        0 <= i < entries.len(),
        e.ip@ == entries[i].ip@,
    ensures
        distinct_ips(entries.update(i, e)),
        map_of(entries.update(i, e)) == map_of(entries).insert(e.ip@, e.hits@),
{
    let new = entries.update(i, e);
    assert(distinct_ips(new)) by {
        assert forall|a: int, b: int|
            0 <= a < new.len() && 0 <= b < new.len() && a != b implies #[trigger] new[a].ip@
            != #[trigger] new[b].ip@ by {
            assert(entries[a].ip@ != entries[b].ip@);
        }
    }
    let m1 = map_of(new);
    let m2 = map_of(entries).insert(e.ip@, e.hits@);
    assert forall|k: Seq<char>| m1.contains_key(k) <==> m2.contains_key(k) by {
        if has_ip(new, k) {
            let j = choose|j: int| 0 <= j < new.len() && #[trigger] new[j].ip@ == k;
            if j != i {
                assert(entries[j].ip@ == k);
            }
        }
        if has_ip(entries, k) {
            let j = choose|j: int| 0 <= j < entries.len() && #[trigger] entries[j].ip@ == k;
            assert(new[j].ip@ == k);
        }
        if k == e.ip@ {
            assert(new[i].ip@ == k);
        }
    }
    assert forall|k: Seq<char>| #[trigger] m1.contains_key(k) implies m1[k] == m2[k] by {
        let j = choose|j: int| 0 <= j < new.len() && #[trigger] new[j].ip@ == k;
        lemma_map_of_entry(new, j);
        if j != i {
            assert(entries[j].ip@ == k);
            lemma_map_of_entry(entries, j);
        }
    }
    assert(m1 =~= m2);
}

proof fn lemma_map_of_push(entries: Seq<IpHits>, e: IpHits)
    requires
        distinct_ips(entries),
        !has_ip(entries, e.ip@),
    ensures
        distinct_ips(entries.push(e)),
        map_of(entries.push(e)) == map_of(entries).insert(e.ip@, e.hits@),
{
    let new = entries.push(e);
    assert(distinct_ips(new)) by {
        assert forall|a: int, b: int|
            0 <= a < new.len() && 0 <= b < new.len() && a != b implies #[trigger] new[a].ip@
            != #[trigger] new[b].ip@ by {
            if a == entries.len() {
                assert(entries[b].ip@ != e.ip@);
            } else if b == entries.len() {
                assert(entries[a].ip@ != e.ip@);
            } else {
                assert(entries[a].ip@ != entries[b].ip@);
            }
        }
    }
    let m1 = map_of(new);
    let m2 = map_of(entries).insert(e.ip@, e.hits@);
    assert forall|k: Seq<char>| m1.contains_key(k) <==> m2.contains_key(k) by {
        if has_ip(new, k) {
            let j = choose|j: int| 0 <= j < new.len() && #[trigger] new[j].ip@ == k;
            if j != entries.len() {
                assert(entries[j].ip@ == k);
            }
        }
        if has_ip(entries, k) {
            let j = choose|j: int| 0 <= j < entries.len() && #[trigger] entries[j].ip@ == k;
            assert(new[j].ip@ == k);
        }
        if k == e.ip@ {
            assert(new[entries.len() as int].ip@ == k);
        }
    }
    assert forall|k: Seq<char>| #[trigger] m1.contains_key(k) implies m1[k] == m2[k] by {
        let j = choose|j: int| 0 <= j < new.len() && #[trigger] new[j].ip@ == k;
        lemma_map_of_entry(new, j);
        if j != entries.len() {
            assert(entries[j].ip@ == k);
            lemma_map_of_entry(entries, j);
        }
    }
    assert(m1 =~= m2);
}

fn fresh_hits(hits: &Vec<u128>, now: u128, window: u128) -> (r: Vec<u128>)
    ensures
        r@ == fresh(hits@, now, window as nat),
{
    let mut r: Vec<u128> = Vec::new();
    let mut i: usize = 0;
    assert(hits@.subrange(0, 0) =~= Seq::<u128>::empty());
    while i < hits.len()
        invariant
            i <= hits@.len(),
            r@ == fresh(hits@.subrange(0, i as int), now, window as nat),
        decreases hits@.len() - i,
    {
        let t = hits[i];
        let age = if now >= t {
            now - t
        } else {
            0
        };
        assert(hits@.subrange(0, i + 1).drop_last() =~= hits@.subrange(0, i as int));
        assert(hits@.subrange(0, i + 1).last() == t);
        if age < window {
            r.push(t);
        }
        i = i + 1;
    }
    assert(hits@.subrange(0, hits@.len() as int) =~= hits@);
    r
}

fn position(entries: &Vec<IpHits>, key: &String) -> (r: Option<usize>)
    ensures
        match r {
            Some(i) => i < entries@.len() && entries@[i as int].ip@ == key@,
            None => !has_ip(entries@, key@),
        },
{
    let mut i: usize = 0;
    while i < entries.len()
        invariant
            i <= entries@.len(),
            forall|j: int| 0 <= j < i ==> entries@[j].ip@ != key@,
        decreases entries@.len() - i,
    {
        if entries[i].ip == *key {
            return Some(i);
        }
        i = i + 1;
    }
    None
}

/// Decides a request from `ip` at `now` over the entries, and records it when
/// admitted (see `check_outcome`).
fn check_entries(entries: &mut Vec<IpHits>, ip: &str, now: u128, limit: usize, window: u128) -> (allowed: bool)
    requires
        distinct_ips(old(entries)@),
    ensures
        distinct_ips(final(entries)@),
        (map_of(final(entries)@), allowed) == check_outcome(map_of(old(entries)@), limit as nat, window as nat, ip@, now),
{
    let key = ip.to_owned();
    let ghost old_map = map_of(entries@);
    match position(entries, &key) {
        Some(i) => {
            proof {
                lemma_map_of_entry(entries@, i as int);
            }
            let mut kept = fresh_hits(&entries[i].hits, now, window);
            let allowed = kept.len() < limit;
            if allowed {
                kept.push(now);
            }
            let entry = IpHits { ip: key, hits: kept };
            proof {
                lemma_map_of_update(entries@, i as int, entry);
            }
            entries.set(i, entry);
            allowed
        },
        None => {
            let empty: Vec<u128> = Vec::new();
            let mut kept = fresh_hits(&empty, now, window);
            let allowed = kept.len() < limit;
            if allowed {
                kept.push(now);
            }
            let entry = IpHits { ip: key, hits: kept };
            proof {
                assert(!old_map.contains_key(ip@));
                assert(empty@ =~= recorded(old_map, ip@));
                lemma_map_of_push(entries@, entry);
            }
            entries.push(entry);
            allowed
        },
    }
}

/// The entries a cleanup at `now` keeps (see `cleanup_outcome`).
fn cleanup_entries(entries: &Vec<IpHits>, now: u128, window: u128) -> (r: Vec<IpHits>)
    requires
        distinct_ips(entries@),
    ensures
        distinct_ips(r@),
        map_of(r@) == cleanup_outcome(map_of(entries@), now, window as nat),
{
    let ghost old_entries = entries@;
    let ghost w = window as nat;
    let mut kept_entries: Vec<IpHits> = Vec::new();
    let mut i: usize = 0;
    while i < entries.len()
        invariant
            old_entries == entries@,
            distinct_ips(old_entries),
            w == window as nat,
            i <= old_entries.len(),
            distinct_ips(kept_entries@),
            forall|m: int| #![trigger kept_entries@[m]]
                0 <= m < kept_entries@.len() ==> exists|j: int|
                    0 <= j < i && derived_from(kept_entries@[m], old_entries[j], now, w),
            forall|j: int|
                0 <= j < i && fresh(old_entries[j].hits@, now, w).len() > 0 ==> has_ip(
                    kept_entries@,
                    (#[trigger] old_entries[j]).ip@,
                ),
        decreases old_entries.len() - i,
    {
        let entry = &entries[i];
        let fresh_times = fresh_hits(&entry.hits, now, window);
        if fresh_times.len() > 0 {
            let kept = IpHits { ip: entry.ip.clone(), hits: fresh_times };
            proof {
                assert(!has_ip(kept_entries@, kept.ip@)) by {
                    if has_ip(kept_entries@, kept.ip@) {
                        let m = choose|m: int|
                            0 <= m < kept_entries@.len() && #[trigger] kept_entries@[m].ip@ == kept.ip@;
                        let j = choose|j: int| 0 <= j < i && derived_from(kept_entries@[m], old_entries[j], now, w);
                        assert(old_entries[j].ip@ != old_entries[i as int].ip@);
                    }
                }
                lemma_map_of_push(kept_entries@, kept);
            }
            let ghost before = kept_entries@;
            kept_entries.push(kept);
            proof {
                assert forall|m: int| #![trigger kept_entries@[m]] 0 <= m < kept_entries@.len() implies exists|j: int|
                    0 <= j < i + 1 && derived_from(kept_entries@[m], old_entries[j], now, w) by {
                    if m < before.len() {
                        assert(kept_entries@[m] == before[m]);
                        let j = choose|j: int| 0 <= j < i && derived_from(before[m], old_entries[j], now, w);
                        assert(0 <= j < i + 1 && derived_from(kept_entries@[m], old_entries[j], now, w));
                    } else {
                        assert(0 <= i < i + 1 && derived_from(kept_entries@[m], old_entries[i as int], now, w));
                    }
                }
                assert forall|j: int|
                    0 <= j < i + 1 && fresh(old_entries[j].hits@, now, w).len() > 0 implies has_ip(
                    kept_entries@,
                    (#[trigger] old_entries[j]).ip@,
                ) by {
                    if j < i {
                        let m = choose|m: int| 0 <= m < before.len() && #[trigger] before[m].ip@ == old_entries[j].ip@;
                        assert(kept_entries@[m] == before[m]);
                    } else {
                        assert(kept_entries@[before.len() as int].ip@ == old_entries[j].ip@);
                    }
                }
            }
        }
        proof {
            assert forall|m: int| #![trigger kept_entries@[m]] 0 <= m < kept_entries@.len() implies exists|j: int|
                0 <= j < i + 1 && derived_from(kept_entries@[m], old_entries[j], now, w) by {
                if fresh_times.len() == 0 {
                    let j = choose|j: int| 0 <= j < i && derived_from(kept_entries@[m], old_entries[j], now, w);
                    assert(0 <= j < i + 1 && derived_from(kept_entries@[m], old_entries[j], now, w));
                }
            }
        }
        i = i + 1;
    }
    proof {
        let old_map = map_of(old_entries);
        let new_map = map_of(kept_entries@);
        let expected = cleanup_outcome(old_map, now, w);
        assert forall|k: Seq<char>| new_map.contains_key(k) <==> expected.contains_key(k) by {
            if new_map.contains_key(k) {
                let m = choose|m: int| 0 <= m < kept_entries@.len() && #[trigger] kept_entries@[m].ip@ == k;
                let j = choose|j: int| 0 <= j < i && derived_from(kept_entries@[m], old_entries[j], now, w);
                lemma_map_of_entry(old_entries, j);
            }
            if expected.contains_key(k) {
                let j = choose|j: int| 0 <= j < old_entries.len() && #[trigger] old_entries[j].ip@ == k;
                lemma_map_of_entry(old_entries, j);
            }
        }
        assert forall|k: Seq<char>| #[trigger] new_map.contains_key(k) implies new_map[k] == expected[k] by {
            let m = choose|m: int| 0 <= m < kept_entries@.len() && #[trigger] kept_entries@[m].ip@ == k;
            let j = choose|j: int| 0 <= j < i && derived_from(kept_entries@[m], old_entries[j], now, w);
            lemma_map_of_entry(old_entries, j);
            lemma_map_of_entry(kept_entries@, m);
        }
        assert(new_map =~= expected);
    }
    kept_entries
}

/// Adding a call no earlier than every call so far keeps the calls in order.
proof fn lemma_push_in_order(calls: Seq<LimiterCall>, last: u128, c: LimiterCall)
    requires
        calls_in_order(calls),
        calls_up_to(calls, last),
        last <= call_time(c),
    ensures
        calls_in_order(calls.push(c)),
        calls_up_to(calls.push(c), call_time(c)),
        calls.push(c).drop_last() == calls,
        calls.push(c).last() == c,
{
    let n = calls.push(c);
    assert forall|i: int, j: int| 0 <= i <= j < n.len() implies call_time(#[trigger] n[i]) <= call_time(
        #[trigger] n[j],
    ) by {
        if j < calls.len() {
            assert(n[i] == calls[i] && n[j] == calls[j]);
        } else if i < calls.len() {
            assert(n[i] == calls[i]);
        }
    }
    assert forall|i: int| 0 <= i < n.len() implies call_time(#[trigger] n[i]) <= call_time(c) by {
        if i < calls.len() {
            assert(n[i] == calls[i]);
        }
    }
    assert(n.drop_last() =~= calls);
}

impl RateLimiter {
    #[verifier::type_invariant]
    spec fn well_formed(self) -> bool {
        &&& distinct_ips(self.state.requests@)
        &&& map_of(self.state.requests@) == run_calls(
            Map::empty(),
            self.max_requests as nat,
            self.window as nat,
            self.state.calls@,
        )
        &&& calls_in_order(self.state.calls@)
        &&& calls_up_to(self.state.calls@, self.state.last)
    }

    /// The recent request times of every tracked IP.
    pub closed spec fn hits(&self) -> Map<Seq<char>, Seq<u128>> {
        map_of(self.state.requests@)
    }

    /// The most requests admitted per IP within one window.
    pub closed spec fn limit(&self) -> nat {
        self.max_requests as nat
    }

    /// The window length, in nanoseconds.
    pub closed spec fn window(&self) -> nat {
        self.window as nat
    }

    /// The latest time the limiter has used, in nanoseconds since its creation.
    pub closed spec fn last(&self) -> u128 {
        self.state.last
    }

    /// Every call made on the limiter so far, with the time it used.
    pub closed spec fn calls(&self) -> Seq<LimiterCall> {
        self.state.calls@
    }

    /// The limiter's state is what its calls made of a new limiter, and its calls
    /// were made in time order, none after its latest time. So the laws over runs
    /// of calls (`lemma_sliding_window_limit`, `lemma_cleanups_never_change_decisions`,
    /// `lemma_check_admits_after_quiet_window`) hold of its `calls()`.
    pub open spec fn records_its_calls(&self) -> bool {
        &&& self.hits() == run_calls(Map::empty(), self.limit(), self.window(), self.calls())
        &&& calls_in_order(self.calls())
        &&& calls_up_to(self.calls(), self.last())
    }

    fn empty_state() -> (st: LimiterState)
        ensures
            st.requests@ == Seq::<IpHits>::empty(),
            st.last == 0,
            st.calls@ == Seq::<LimiterCall>::empty(),
            map_of(st.requests@) == Map::<Seq<char>, Seq<u128>>::empty(),
    {
        let st = LimiterState { requests: Vec::new(), last: 0, calls: Ghost(Seq::empty()) };
        assert(map_of(st.requests@) =~= Map::<Seq<char>, Seq<u128>>::empty());
        st
    }

    /// A limiter that admits `max_requests` requests per IP within any window of
    /// `window_secs` seconds, tracking no IP yet and having had no call.
    pub fn new(max_requests: usize, window_secs: u64) -> (r: Self)
        ensures
            r.hits() == Map::<Seq<char>, Seq<u128>>::empty(),
            r.limit() == max_requests,
            r.window() == window_secs * NANOS_PER_SEC,
            r.calls() == Seq::<LimiterCall>::empty(),
            r.last() == 0,
            r.records_its_calls(),
    {
        RateLimiter {
            state: Self::empty_state(),
            max_requests,
            window: (window_secs as u128) * NANOS_PER_SEC,
            origin: clock_origin(),
        }
    }

    /// Decides a request from `ip` at time `now` (nanoseconds since creation; a
    /// time before the latest one used counts as that one), and records it when
    /// admitted. Returns true if the IP is allowed, false if rate limited.
    pub fn check_at(&mut self, ip: &str, now: u128) -> (allowed: bool)
        ensures
            ({
                let t = effective_time(old(self).last(), now);
                &&& (final(self).hits(), allowed) == check_outcome(
                    old(self).hits(),
                    old(self).limit(),
                    old(self).window(),
                    ip@,
                    t,
                )
                &&& final(self).calls() == old(self).calls().push(LimiterCall::Check { ip: ip@, now: t })
                &&& final(self).last() == t
            }),
            final(self).limit() == old(self).limit(),
            final(self).window() == old(self).window(),
            old(self).records_its_calls(),
            final(self).records_its_calls(),
            within_limit(final(self).hits(), final(self).limit()),
    {
        proof {
            use_type_invariant(&*self);
        }
        let t = if now < self.state.last {
            self.state.last
        } else {
            now
        };
        let mut st = Self::empty_state();
        std::mem::swap(&mut st, &mut self.state);
        let ghost old_calls = st.calls@;
        let allowed = check_entries(&mut st.requests, ip, t, self.max_requests, self.window);
        st.last = t;
        let ghost c = LimiterCall::Check { ip: ip@, now: t };
        st.calls = Ghost(old_calls.push(c));
        proof {
            lemma_push_in_order(old_calls, old(self).state.last, c);
            lemma_run_records_admitted(self.max_requests as nat, self.window as nat, st.calls@, ip@, t);
        }
        self.state = st;
        allowed
    }

    /// Decides a request from `ip` now, and records it when admitted. Returns true
    /// if the IP is allowed, false if rate limited. The time is read from a
    /// monotonic clock, and never taken earlier than the latest time used.
    pub fn check(&mut self, ip: &str) -> (allowed: bool)
        ensures
            exists|t: u128|
                t >= old(self).last() && final(self).last() == t && (final(self).hits(), allowed)
                    == check_outcome(old(self).hits(), old(self).limit(), old(self).window(), ip@, t)
                    && final(self).calls() == old(self).calls().push(LimiterCall::Check { ip: ip@, now: t }),
            final(self).limit() == old(self).limit(),
            final(self).window() == old(self).window(),
            old(self).records_its_calls(),
            final(self).records_its_calls(),
            within_limit(final(self).hits(), final(self).limit()),
    {
        let now = nanos_since(&self.origin);
        self.check_at(ip, now)
    }

    /// Drops the times outside the window at `now` (a time before the latest one
    /// used counts as that one) and forgets the IPs left with none.
    pub fn cleanup_at(&mut self, now: u128)
        ensures
            ({
                let t = effective_time(old(self).last(), now);
                &&& final(self).hits() == cleanup_outcome(old(self).hits(), t, old(self).window())
                &&& final(self).calls() == old(self).calls().push(LimiterCall::Cleanup { now: t })
                &&& final(self).last() == t
            }),
            final(self).limit() == old(self).limit(),
            final(self).window() == old(self).window(),
            old(self).records_its_calls(),
            final(self).records_its_calls(),
            within_limit(final(self).hits(), final(self).limit()),
    {
        proof {
            use_type_invariant(&*self);
        }
        let t = if now < self.state.last {
            self.state.last
        } else {
            now
        };
        let mut st = Self::empty_state();
        std::mem::swap(&mut st, &mut self.state);
        let ghost old_calls = st.calls@;
        let kept = cleanup_entries(&st.requests, t, self.window);
        st.requests = kept;
        st.last = t;
        let ghost c = LimiterCall::Cleanup { now: t };
        st.calls = Ghost(old_calls.push(c));
        proof {
            lemma_push_in_order(old_calls, old(self).state.last, c);
            lemma_run_records_admitted(self.max_requests as nat, self.window as nat, st.calls@, seq![], t);
        }
        self.state = st;
    }

    /// Periodically clean up stale IPs to prevent memory growth. The time is read
    /// from a monotonic clock, and never taken earlier than the latest time used.
    pub fn cleanup(&mut self)
        ensures
            exists|t: u128|
                t >= old(self).last() && final(self).last() == t && final(self).hits() == cleanup_outcome(
                    old(self).hits(),
                    t,
                    old(self).window(),
                ) && final(self).calls() == old(self).calls().push(LimiterCall::Cleanup { now: t }),
            final(self).limit() == old(self).limit(),
            final(self).window() == old(self).window(),
            old(self).records_its_calls(),
            final(self).records_its_calls(),
            within_limit(final(self).hits(), final(self).limit()),
    {
        let now = nanos_since(&self.origin);
        self.cleanup_at(now)
    }
}

/// However a limiter has been used, it never admitted more than its limit of
/// requests from one IP within the window that ends at any time from its latest
/// call on.
pub proof fn lemma_limiter_window_bound(l: RateLimiter, ip: Seq<char>, t: u128)
    requires
        l.records_its_calls(),
        l.last() <= t,
    ensures
        fresh(admitted_times(Map::empty(), l.limit(), l.window(), l.calls(), ip), t, l.window()).len() <= l.limit(),
{
    lemma_sliding_window_limit(l.limit(), l.window(), l.calls(), ip, t);
}

/// A limiter whose admitted requests from an IP have all left the window admits
/// the next check of that IP at any time from its latest call on (for a limit of
/// at least one).
pub proof fn lemma_limiter_admits_after_quiet_window(l: RateLimiter, ip: Seq<char>, t: u128)
    requires
        l.records_its_calls(),
        l.last() <= t,
        l.limit() >= 1,
        forall|i: int|
            0 <= i < admitted_times(Map::empty(), l.limit(), l.window(), l.calls(), ip).len() ==> age(
                t,
                #[trigger] admitted_times(Map::empty(), l.limit(), l.window(), l.calls(), ip)[i],
            ) >= l.window(),
    ensures
        check_outcome(l.hits(), l.limit(), l.window(), ip, t).1,
{
    lemma_check_admits_after_quiet_window(l.limit(), l.window(), l.calls(), ip, t);
}

/// Whatever cleanups a limiter has had, it admitted from every IP exactly the
/// requests it would have admitted without them.
pub proof fn lemma_limiter_cleanups_invisible(l: RateLimiter, ip: Seq<char>)
    requires
        l.records_its_calls(),
    ensures
        admitted_times(Map::empty(), l.limit(), l.window(), l.calls(), ip) == admitted_times(
            Map::empty(),
            l.limit(),
            l.window(),
            checks_only(l.calls()),
            ip,
        ),
{
    lemma_cleanups_never_change_decisions(l.limit(), l.window(), l.calls(), ip);
}

} // verus!
