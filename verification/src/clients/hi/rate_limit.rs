//! Slot arithmetic of per-origin request pacing. Times are instants in nanoseconds on
//! one monotonic clock; intervals and delays are durations in nanoseconds.
use vstd::prelude::*;

verus! {

/// A request's slot: the origin's next permitted instant when that is later than now,
/// else now.
pub open spec fn slot_spec(next_allowed: Option<u64>, now: u64) -> u64 {
    match next_allowed {
        Some(prev) => if prev > now {
            prev
        } else {
            now
        },
        None => now,
    }
}

/// The origin's next permitted instant after a reservation: one interval after the
/// slot, or the slot itself when pacing is disabled.
pub open spec fn next_allowed_spec(slot: u64, interval: Option<u64>) -> int {
    match interval {
        Some(i) => slot + i,
        None => slot as int,
    }
}

/// Reserves the next slot for a request to an origin: returns when the request may
/// start and the origin's next permitted instant.
pub fn reserve(next_allowed: Option<u64>, now: u64, interval: Option<u64>) -> (r: (u64, u64))
    requires
        next_allowed_spec(slot_spec(next_allowed, now), interval) <= u64::MAX,
    ensures
        r.0 == slot_spec(next_allowed, now),
        r.1 == next_allowed_spec(r.0, interval),
{
    let slot = match next_allowed {
        Some(prev) => if prev > now {
            prev
        } else {
            now
        },
        None => now,
    };
    let next = match interval {
        Some(i) => slot + i,
        None => slot,
    };
    (slot, next)
}

/// Reserves a slot as [`reserve`] does, or `None` when the origin's next permitted
/// instant would not fit in a `u64`.
pub fn try_reserve(next_allowed: Option<u64>, now: u64, interval: Option<u64>) -> (r: Option<(u64, u64)>)
    ensures
        next_allowed_spec(slot_spec(next_allowed, now), interval) <= u64::MAX ==> r == Some(
            (
                slot_spec(next_allowed, now),
                next_allowed_spec(slot_spec(next_allowed, now), interval) as u64,
            ),
        ),
        next_allowed_spec(slot_spec(next_allowed, now), interval) > u64::MAX ==> r is None,
{
    let slot = match next_allowed {
        Some(prev) => if prev > now {
            prev
        } else {
            now
        },
        None => now,
    };
    match interval {
        Some(i) => if slot > u64::MAX - i {
            None
        } else {
            Some(reserve(next_allowed, now, interval))
        },
        None => Some(reserve(next_allowed, now, interval)),
    }
}

/// The origin's next permitted instant after a cooldown of `delay` from `now`: the
/// later of an existing reservation and the end of the cooldown.
pub fn backoff_until(next_allowed: Option<u64>, now: u64, delay: u64) -> (r: u64)
    requires
        now + delay <= u64::MAX,
    ensures
        r == match next_allowed {
            Some(prev) => if prev > now + delay {
                prev as int
            } else {
                now + delay
            },
            None => now + delay,
        },
{
    let blocked_until = now + delay;
    match next_allowed {
        Some(prev) => if prev > blocked_until {
            prev
        } else {
            blocked_until
        },
        None => blocked_until,
    }
}

/// Successive reservations at one origin are spaced by at least the interval, and
/// none starts before the time it was requested.
pub proof fn lemma_reservations_are_spaced(first: Option<u64>, now1: u64, now2: u64, interval: u64)
    requires
        now1 <= now2,
        next_allowed_spec(slot_spec(first, now1), Some(interval)) <= u64::MAX,
    ensures
        slot_spec(
            Some(next_allowed_spec(slot_spec(first, now1), Some(interval)) as u64),
            now2,
        ) >= slot_spec(first, now1) + interval,
        slot_spec(first, now1) >= now1,
{
}

/// The slots granted to a run of reservations at one origin, made at the instants
/// `nows` in order, starting from the origin's next permitted instant `next`.
pub open spec fn reservation_run(next: Option<u64>, nows: Seq<u64>, interval: Option<u64>) -> Seq<u64>
    decreases nows.len(),
{
    if nows.len() == 0 {
        Seq::empty()
    } else {
        seq![slot_spec(next, nows[0])] + reservation_run(
            Some(next_allowed_spec(slot_spec(next, nows[0]), interval) as u64),
            nows.drop_first(),
            interval,
        )
    }
}

proof fn lemma_run_len(next: Option<u64>, nows: Seq<u64>, interval: Option<u64>)
    ensures
        reservation_run(next, nows, interval).len() == nows.len(),
    decreases nows.len(),
{
    if nows.len() > 0 {
        lemma_run_len(
            Some(next_allowed_spec(slot_spec(next, nows[0]), interval) as u64),
            nows.drop_first(),
            interval,
        );
    }
}

/// Over a run of reservations at one origin: no request starts before it was made, none
/// before the origin's next permitted instant (a cooldown), each starts at least one
/// interval after the previous one, so the `k`-th starts at least `k` intervals after the
/// first. A fresh origin's first request is not delayed.
pub proof fn lemma_run_is_paced(next: Option<u64>, nows: Seq<u64>, interval: Option<u64>)
    requires
        forall|i: int, j: int| 0 <= i <= j < nows.len() ==> nows[i] <= nows[j],
        forall|k: int| 0 <= k < nows.len() ==> next_allowed_spec(#[trigger] reservation_run(next, nows, interval)[k], interval) <= u64::MAX,
    ensures
        reservation_run(next, nows, interval).len() == nows.len(),
        forall|k: int| 0 <= k < nows.len() ==> #[trigger] reservation_run(next, nows, interval)[k] >= nows[k],
        next matches Some(n) ==> forall|k: int| 0 <= k < nows.len() ==> #[trigger] reservation_run(next, nows, interval)[k] >= n,
        forall|k: int| 0 <= k < nows.len() - 1 ==> #[trigger] reservation_run(next, nows, interval)[k + 1]
            >= next_allowed_spec(reservation_run(next, nows, interval)[k], interval),
        next is None && nows.len() > 0 ==> reservation_run(next, nows, interval)[0] == nows[0],
    decreases nows.len(),
{
    if nows.len() > 0 {
        let run = reservation_run(next, nows, interval);
        let slot = slot_spec(next, nows[0]);
        let na = next_allowed_spec(slot, interval) as u64;
        let rest_nows = nows.drop_first();
        let rest = reservation_run(Some(na), rest_nows, interval);
        lemma_run_len(Some(na), rest_nows, interval);
        assert(run =~= seq![slot] + rest);
        assert forall|k: int| 0 <= k < rest_nows.len() implies next_allowed_spec(#[trigger] rest[k], interval) <= u64::MAX by {
            assert(run[k + 1] == rest[k]);
        }
        assert(next_allowed_spec(run[0], interval) <= u64::MAX);
        lemma_run_is_paced(Some(na), rest_nows, interval);
        assert forall|k: int| 0 <= k < nows.len() implies #[trigger] run[k] >= nows[k] by {
            if k > 0 {
                assert(run[k] == rest[k - 1]);
                assert(rest_nows[k - 1] == nows[k]);
            }
        }
        if next is Some {
            assert forall|k: int| 0 <= k < nows.len() implies #[trigger] run[k] >= next->0 by {
                if k > 0 {
                    assert(run[k] == rest[k - 1]);
                }
            }
        }
        assert forall|k: int| 0 <= k < nows.len() - 1 implies #[trigger] run[k + 1] >= next_allowed_spec(run[k], interval) by {
            assert(run[k + 1] == rest[k]);
            if k > 0 {
                assert(run[k] == rest[k - 1]);
            }
        }
    }
}

/// With pacing enabled, the `k`-th reservation of a run starts at least `k` intervals
/// after the first.
pub proof fn lemma_run_spacing(next: Option<u64>, nows: Seq<u64>, interval: u64, k: int)
    requires
        forall|i: int, j: int| 0 <= i <= j < nows.len() ==> nows[i] <= nows[j],
        forall|m: int| 0 <= m < nows.len() ==> next_allowed_spec(#[trigger] reservation_run(next, nows, Some(interval))[m], Some(interval)) <= u64::MAX,
        0 <= k < nows.len(),
    ensures
        reservation_run(next, nows, Some(interval))[k] >= reservation_run(next, nows, Some(interval))[0] + k * interval,
    decreases k,
{
    lemma_run_is_paced(next, nows, Some(interval));
    if k > 0 {
        lemma_run_spacing(next, nows, interval, k - 1);
        let run = reservation_run(next, nows, Some(interval));
        assert(run[(k - 1) + 1] >= next_allowed_spec(run[k - 1], Some(interval)));
        assert(run[k] >= run[k - 1] + interval);
        assert(run[k - 1] >= run[0] + (k - 1) * interval);
        assert((k - 1) * interval + interval == k * interval) by (nonlinear_arith);
    } else {
        assert(k * interval == 0) by (nonlinear_arith)
            requires
                k == 0,
        ;
    }
}

} // verus!
